//! The four naming conventions, and how each writes a sequence of words.

use vstd::prelude::*;
use vstd::string::{StrSliceExecFns, StringExecFns};
use crate::casing::{lowercased, to_lowercase, to_uppercase, uppercased};
use crate::segment::{parse_filename, segment};

verus! {

/// A naming convention.
#[derive(Clone, Copy, Debug, PartialEq, Eq, Structural)]
pub enum FormattingMode {
    SnakeCase,
    KebabCase,
    CamelCase,
    PascalCase,
}

/// The first character of `s` as a text of its own; empty where `s` is.
pub open spec fn car(s: Seq<char>) -> Seq<char> {
    if s.len() == 0 {
        s
    } else {
        s.take(1)
    }
}

/// What follows the first character of `s`; empty where `s` is.
pub open spec fn cdr(s: Seq<char>) -> Seq<char> {
    if s.len() == 0 {
        s
    } else {
        s.skip(1)
    }
}

/// `word` with its first character in uppercase and the rest in lowercase.
pub open spec fn capitalized(word: Seq<char>) -> Seq<char> {
    uppercased(car(word)) + lowercased(cdr(word))
}

/// Each word in lowercase.
pub open spec fn lowered(words: Seq<Seq<char>>) -> Seq<Seq<char>> {
    words.map_values(|word: Seq<char>| lowercased(word))
}

/// The words with `separator` between each two neighbours.
pub open spec fn joined(words: Seq<Seq<char>>, separator: char) -> Seq<char>
    decreases words.len(),
{
    if words.len() == 0 {
        Seq::empty()
    } else if words.len() == 1 {
        words[0]
    } else {
        joined(words.drop_last(), separator).push(separator) + words.last()
    }
}

/// The words in `snake_case`: each in lowercase, `_` between them.
pub open spec fn snake(words: Seq<Seq<char>>) -> Seq<char> {
    joined(lowered(words), '_')
}

/// The words in `kebab-case`: each in lowercase, `-` between them.
pub open spec fn kebab(words: Seq<Seq<char>>) -> Seq<char> {
    joined(lowered(words), '-')
}

/// The words in `PascalCase`: each word capitalized, nothing between them.
pub open spec fn pascal(words: Seq<Seq<char>>) -> Seq<char>
    decreases words.len(),
{
    if words.len() == 0 {
        Seq::empty()
    } else {
        pascal(words.drop_last()) + capitalized(words.last())
    }
}

/// The words in `camelCase`: the first word in lowercase, each of the others
/// capitalized, nothing between them.
pub open spec fn camel(words: Seq<Seq<char>>) -> Seq<char> {
    if words.len() == 0 {
        Seq::empty()
    } else {
        lowercased(words.first()) + pascal(words.drop_first())
    }
}

/// The words written in the convention `mode`.
pub open spec fn cased(words: Seq<Seq<char>>, mode: FormattingMode) -> Seq<char> {
    match mode {
        FormattingMode::SnakeCase => snake(words),
        FormattingMode::KebabCase => kebab(words),
        FormattingMode::CamelCase => camel(words),
        FormattingMode::PascalCase => pascal(words),
    }
}

/// Without words nothing is written, in any convention.
pub proof fn lemma_no_words_no_name(mode: FormattingMode)
    ensures
        cased(Seq::empty(), mode) == Seq::<char>::empty(),
{
    assert(lowered(Seq::empty()) == Seq::<Seq<char>>::empty());
}

/// A word more is written capitalized behind the others, in `camelCase` as
/// in `PascalCase`, unless it is the first word in `camelCase`.
pub proof fn lemma_one_more_word(words: Seq<Seq<char>>, word: Seq<char>)
    ensures
        pascal(words.push(word)) == pascal(words) + capitalized(word),
        words.len() > 0 ==> camel(words.push(word)) == camel(words) + capitalized(word),
{
    assert(words.push(word).drop_last() == words);
    if words.len() > 0 {
        let rest = words.drop_first();
        assert(words.push(word).drop_first() == rest.push(word));
        assert(rest.push(word).drop_last() == rest);
    }
}

/// Splits `s` behind its first character.
pub fn car_cdr(s: &str) -> (pair: (&str, &str))
    ensures
        pair.0@ == car(s@),
        pair.1@ == cdr(s@),
{
    let n = s.unicode_len();
    if n == 0 {
        (s, s)
    } else {
        (s.substring_char(0, 1), s.substring_char(1, n))
    }
}

/// Writes `part` capitalized at the end of `out`.
fn push_capitalized(out: &mut String, part: &str)
    ensures
        final(out)@ == old(out)@ + capitalized(part@),
{
    let (first, rest) = car_cdr(part);
    let upper = to_uppercase(first);
    let lower = to_lowercase(rest);
    out.append(upper.as_str());
    out.append(lower.as_str());
}

/// Each word in lowercase.
fn lowercase_all(parts: &Vec<String>) -> (lower: Vec<String>)
    ensures
        lower.deep_view() == lowered(parts.deep_view()),
{
    let mut lower: Vec<String> = Vec::new();
    for i in 0..parts.len()
        invariant
            lower.deep_view() == lowered(parts.deep_view().take(i as int)),
    {
        let ghost before = lower.deep_view();
        lower.push(to_lowercase(parts[i].as_str()));
        assert(lower.deep_view() == before.push(lowercased(parts[i as int]@)));
    }
    assert(parts.deep_view().take(parts.len() as int) == parts.deep_view());
    lower
}

/// Writes the words with `separator` between each two neighbours.
pub fn join(parts: &Vec<String>, separator: char) -> (out: String)
    ensures
        out@ == joined(parts.deep_view(), separator),
{
    let mut out = String::new();
    let ghost words = parts.deep_view();
    for i in 0..parts.len()
        invariant
            words == parts.deep_view(),
            out@ == joined(words.take(i as int), separator),
    {
        proof {
            assert(words.take(i + 1).drop_last() == words.take(i as int));
            assert(words.take(i + 1).last() == parts[i as int]@);
        }
        if i > 0 {
            out.push(separator);
        }
        out.append(parts[i].as_str());
    }
    assert(words.take(parts.len() as int) == words);
    out
}

/// Writes the words in `snake_case`.
pub fn snake_case(parts: Vec<String>) -> (out: String)
    ensures
        out@ == snake(parts.deep_view()),
{
    join(&lowercase_all(&parts), '_')
}

/// Writes the words in `kebab-case`.
pub fn kebab_case(parts: Vec<String>) -> (out: String)
    ensures
        out@ == kebab(parts.deep_view()),
{
    join(&lowercase_all(&parts), '-')
}

/// Writes the words in `camelCase`.
pub fn camel_case(parts: Vec<String>) -> (out: String)
    ensures
        out@ == camel(parts.deep_view()),
{
    let mut out = String::new();
    let ghost words = parts.deep_view();
    for i in 0..parts.len()
        invariant
            words == parts.deep_view(),
            out@ == camel(words.take(i as int)),
    {
        proof {
            assert(words.take(i + 1) == words.take(i as int).push(parts[i as int]@));
            lemma_one_more_word(words.take(i as int), parts[i as int]@);
        }
        if i == 0 {
            out = to_lowercase(parts[i].as_str());
            assert(pascal(words.take(1).drop_first()) == Seq::<char>::empty());
        } else {
            push_capitalized(&mut out, parts[i].as_str());
        }
    }
    assert(words.take(parts.len() as int) == words);
    out
}

/// Writes the words in `PascalCase`.
pub fn pascal_case(parts: Vec<String>) -> (out: String)
    ensures
        out@ == pascal(parts.deep_view()),
{
    let mut out = String::new();
    let ghost words = parts.deep_view();
    for i in 0..parts.len()
        invariant
            words == parts.deep_view(),
            out@ == pascal(words.take(i as int)),
    {
        proof {
            assert(words.take(i + 1).drop_last() == words.take(i as int));
            assert(words.take(i + 1).last() == parts[i as int]@);
        }
        push_capitalized(&mut out, parts[i].as_str());
    }
    assert(words.take(parts.len() as int) == words);
    out
}

/// Writes the words in the convention `mode`. Without words nothing is
/// written.
pub fn apply_case(parts: Vec<String>, mode: &FormattingMode) -> (out: String)
    ensures
        out@ == cased(parts.deep_view(), *mode),
        parts.len() == 0 ==> out@.len() == 0,
{
    proof {
        if parts.len() == 0 {
            assert(parts.deep_view() == Seq::<Seq<char>>::empty());
            lemma_no_words_no_name(*mode);
        }
    }
    match mode {
        FormattingMode::CamelCase => camel_case(parts),
        FormattingMode::KebabCase => kebab_case(parts),
        FormattingMode::PascalCase => pascal_case(parts),
        FormattingMode::SnakeCase => snake_case(parts),
    }
}

/// Splits `filename` into words and writes them in the convention `mode`.
pub fn convert_filename(filename: &str, mode: &FormattingMode) -> (out: String)
    ensures
        out@ == cased(segment(filename@), *mode),
{
    apply_case(parse_filename(filename.to_owned()), mode)
}

} // verus!
