//! The new name of a file, from the stem and the extension of its old one.
//!
//! A stem may hold dots. Each dot ends a label, and each label is converted
//! for itself, so that the dots stand in the new name where they stood in the
//! old one. The extension is written in lowercase.

use vstd::prelude::*;
use vstd::string::StringExecFns;
use crate::casing::{lowercased, to_lowercase};
use crate::convention::{cased, convert_filename, join, joined, FormattingMode};
use crate::segment::segment;

verus! {

/// The labels of `stem`: the pieces between its dots, empty ones included.
/// A stem with `n` dots has `n + 1` labels.
pub open spec fn labels(stem: Seq<char>) -> Seq<Seq<char>>
    decreases stem.len(),
{
    if stem.len() == 0 {
        seq![Seq::empty()]
    } else {
        let before = labels(stem.drop_last());
        if stem.last() == '.' {
            before.push(Seq::empty())
        } else {
            before.drop_last().push(before.last().push(stem.last()))
        }
    }
}

/// Each label written in the convention `mode`.
pub open spec fn converted(labels: Seq<Seq<char>>, mode: FormattingMode) -> Seq<Seq<char>> {
    labels.map_values(|label: Seq<char>| cased(segment(label), mode))
}

/// The stem with each of its labels written in the convention `mode`.
pub open spec fn converted_stem(stem: Seq<char>, mode: FormattingMode) -> Seq<char> {
    joined(converted(labels(stem), mode), '.')
}

/// The extension in lowercase behind a dot; nothing where there is none.
pub open spec fn converted_extension(extension: Option<Seq<char>>) -> Seq<char> {
    match extension {
        Some(extension) => seq!['.'] + lowercased(extension),
        None => Seq::empty(),
    }
}

/// The new name: the converted stem, where there is a stem, and the
/// converted extension.
pub open spec fn converted_name(
    stem: Option<Seq<char>>,
    extension: Option<Seq<char>>,
    mode: FormattingMode,
) -> Seq<char> {
    let stem = match stem {
        Some(stem) => converted_stem(stem, mode),
        None => Seq::empty(),
    };
    stem + converted_extension(extension)
}

/// What an optional text holds.
pub open spec fn text_of(s: Option<&str>) -> Option<Seq<char>> {
    match s {
        Some(s) => Some(s@),
        None => None,
    }
}

/// `text` holds no dot.
pub open spec fn dotless(text: Seq<char>) -> bool {
    forall|i: int| 0 <= i < text.len() ==> #[trigger] text[i] != '.'
}

/// A stem always has a label, no label holds a dot, and the labels with dots
/// between them are the stem.
pub proof fn lemma_labels_rejoin(stem: Seq<char>)
    ensures
        labels(stem).len() > 0,
        forall|i: int| 0 <= i < labels(stem).len() ==> dotless(#[trigger] labels(stem)[i]),
        joined(labels(stem), '.') == stem,
    decreases stem.len(),
{
    if stem.len() > 0 {
        let before = labels(stem.drop_last());
        let c = stem.last();
        lemma_labels_rejoin(stem.drop_last());
        assert(stem == stem.drop_last().push(c));
        if c == '.' {
            assert(before.push(Seq::empty()).drop_last() == before);
            assert(joined(before, '.').push('.') + Seq::<char>::empty() == stem);
        } else {
            let grown = before.drop_last().push(before.last().push(c));
            assert(grown.drop_last() == before.drop_last());
            assert(dotless(before[before.len() - 1]));
            if before.len() > 1 {
                let head = joined(before.drop_last(), '.').push('.');
                assert(head + before.last().push(c) == (head + before.last()).push(c));
            }
        }
    }
}

/// Text without a dot, behind a stem, lengthens the last label.
proof fn lemma_labels_grow(stem: Seq<char>, tail: Seq<char>)
    requires
        dotless(tail),
    ensures
        labels(stem + tail) == labels(stem).drop_last().push(labels(stem).last() + tail),
    decreases tail.len(),
{
    lemma_labels_rejoin(stem);
    if tail.len() == 0 {
        assert(stem + tail == stem);
        assert(labels(stem).last() + tail == labels(stem).last());
        assert(labels(stem).drop_last().push(labels(stem).last()) == labels(stem));
    } else {
        let front = tail.drop_last();
        assert(tail[tail.len() - 1] != '.');
        assert forall|i: int| 0 <= i < front.len() implies #[trigger] front[i] != '.' by {
            assert(front[i] == tail[i]);
        }
        lemma_labels_grow(stem, front);
        assert((stem + tail).drop_last() == stem + front);
        assert((stem + tail).last() == tail.last());
        let grown = labels(stem).drop_last().push(labels(stem).last() + front);
        assert(grown.drop_last() == labels(stem).drop_last());
        assert((labels(stem).last() + front).push(tail.last()) == labels(stem).last() + tail);
    }
}

/// Texts without dots, written with dots between them, are the labels of
/// what was written.
pub proof fn lemma_labels_of_joined(parts: Seq<Seq<char>>)
    requires
        parts.len() > 0,
        forall|i: int| 0 <= i < parts.len() ==> dotless(#[trigger] parts[i]),
    ensures
        labels(joined(parts, '.')) == parts,
    decreases parts.len(),
{
    let last = parts.last();
    assert(dotless(parts[parts.len() - 1]));
    if parts.len() == 1 {
        lemma_labels_grow(Seq::empty(), last);
        assert(Seq::<char>::empty() + last == last);
        assert(labels(Seq::empty()) == seq![Seq::<char>::empty()]);
        assert(seq![Seq::<char>::empty()].drop_last().push(last) == parts);
    } else {
        let front = parts.drop_last();
        assert forall|i: int| 0 <= i < front.len() implies dotless(#[trigger] front[i]) by {
            assert(front[i] == parts[i]);
        }
        lemma_labels_of_joined(front);
        let head = joined(front, '.').push('.');
        assert(head.drop_last() == joined(front, '.'));
        assert(labels(head) == front.push(Seq::empty()));
        lemma_labels_grow(head, last);
        assert(front.push(Seq::empty()).drop_last() == front);
        assert(Seq::<char>::empty() + last == last);
        assert(front.push(last) == parts);
    }
}

/// A stem without a dot is converted as a whole.
pub proof fn lemma_dotless_stem(stem: Seq<char>, mode: FormattingMode)
    requires
        dotless(stem),
    ensures
        converted_stem(stem, mode) == cased(segment(stem), mode),
{
    lemma_labels_of_joined(seq![stem]);
    assert(joined(seq![stem], '.') == stem);
    assert(converted(seq![stem], mode) == seq![cased(segment(stem), mode)]);
}

/// The convention that the four switches select: that of the first switch
/// that is set, in the order kebab, camel, pascal, snake; `kebab-case` where
/// none is set.
pub fn select_mode(
    kebab_case: bool,
    snake_case: bool,
    camel_case: bool,
    pascal_case: bool,
) -> (mode: FormattingMode)
    ensures
        kebab_case ==> mode is KebabCase,
        !kebab_case && camel_case ==> mode is CamelCase,
        !kebab_case && !camel_case && pascal_case ==> mode is PascalCase,
        !kebab_case && !camel_case && !pascal_case && snake_case ==> mode is SnakeCase,
        !kebab_case && !camel_case && !pascal_case && !snake_case ==> mode is KebabCase,
{
    if kebab_case {
        FormattingMode::KebabCase
    } else if camel_case {
        FormattingMode::CamelCase
    } else if pascal_case {
        FormattingMode::PascalCase
    } else if snake_case {
        FormattingMode::SnakeCase
    } else {
        FormattingMode::KebabCase
    }
}

/// Splits `stem` at its dots.
pub fn split_labels(stem: &str) -> (parts: Vec<String>)
    ensures
        parts.deep_view() == labels(stem@),
{
    let mut parts: Vec<String> = Vec::new();
    let mut current = String::new();
    for c in it: stem.chars()
        invariant
            it.seq() == stem@,
            parts.deep_view().push(current@) == labels(stem@.take(it.index() as int)),
    {
        proof {
            let next = stem@.take(it.index() + 1);
            assert(next.drop_last() == stem@.take(it.index() as int));
            assert(next.last() == c);
            let before = labels(next.drop_last());
            assert(before.last() == current@);
            assert(before.drop_last() == parts.deep_view());
        }
        if c == '.' {
            let ghost closed = parts.deep_view();
            let ghost label = current@;
            parts.push(current);
            assert(parts.deep_view() == closed.push(label));
            current = String::new();
        } else {
            current.push(c);
        }
    }
    assert(stem@.take(stem@.len() as int) == stem@);
    let ghost closed = parts.deep_view();
    let ghost label = current@;
    parts.push(current);
    assert(parts.deep_view() == closed.push(label));
    parts
}

/// Writes each label of `stem` in the convention `mode` and leaves the dots
/// where they are.
pub fn convert_stem(stem: &str, mode: &FormattingMode) -> (out: String)
    ensures
        out@ == converted_stem(stem@, *mode),
{
    let parts = split_labels(stem);
    let mut names: Vec<String> = Vec::new();
    for i in 0..parts.len()
        invariant
            names.deep_view() == converted(parts.deep_view().take(i as int), *mode),
    {
        let ghost before = names.deep_view();
        names.push(convert_filename(parts[i].as_str(), mode));
        assert(names.deep_view() == before.push(cased(segment(parts[i as int]@), *mode)));
    }
    assert(parts.deep_view().take(parts.len() as int) == parts.deep_view());
    join(&names, '.')
}

/// Writes the extension in lowercase behind a dot.
pub fn convert_extension(extension: Option<&str>) -> (out: String)
    ensures
        out@ == converted_extension(text_of(extension)),
{
    let mut out = String::new();
    if let Some(extension) = extension {
        out.push('.');
        let lower = to_lowercase(extension);
        out.append(lower.as_str());
    }
    out
}

/// The new name of a file whose old name has the given stem and extension.
pub fn convert_name(
    stem: Option<&str>,
    extension: Option<&str>,
    mode: &FormattingMode,
) -> (out: String)
    ensures
        out@ == converted_name(text_of(stem), text_of(extension), *mode),
{
    let mut out = match stem {
        Some(stem) => convert_stem(stem, mode),
        None => String::new(),
    };
    let tail = convert_extension(extension);
    out.append(tail.as_str());
    out
}

} // verus!
