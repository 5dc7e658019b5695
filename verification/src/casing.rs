//! Lowercasing and uppercasing of text.
//!
//! Text that is ASCII throughout is converted here, letter by letter. Any
//! other text is handed to the standard library, whose Unicode case mappings
//! may change the number of characters; the model refers to its results by
//! name.

use vstd::prelude::*;
use vstd::utf8::is_ascii_chars;
use crate::chars::{ascii_lower, ascii_upper};

verus! {

/// What `str::to_lowercase` returns for the text `s`.
pub uninterp spec fn unicode_to_lowercase(s: Seq<char>) -> Seq<char>;

/// What `str::to_uppercase` returns for the text `s`.
pub uninterp spec fn unicode_to_uppercase(s: Seq<char>) -> Seq<char>;

/// Trusted: calls `str::to_lowercase`, whose result is a function of the text
/// alone. Nothing is claimed about what the result holds.
#[verifier::external_body]
fn table_to_lowercase(s: &str) -> (r: String)
    ensures
        r@ == unicode_to_lowercase(s@),
{
    s.to_lowercase()
}

/// Trusted: calls `str::to_uppercase`, whose result is a function of the text
/// alone. Nothing is claimed about what the result holds.
#[verifier::external_body]
fn table_to_uppercase(s: &str) -> (r: String)
    ensures
        r@ == unicode_to_uppercase(s@),
{
    s.to_uppercase()
}

/// Trusted: `String::push` appends the character to the end of the string.
pub assume_specification[ String::push ](s: &mut String, c: char)
    ensures
        final(s)@ == old(s)@.push(c),
;

/// The lowercase form of an ASCII character: `A` to `Z` go to `a` to `z`,
/// every other character stays.
pub open spec fn lower_char(c: char) -> char {
    if ascii_upper(c) {
        ((c as u8) + 32) as char
    } else {
        c
    }
}

/// The uppercase form of an ASCII character: `a` to `z` go to `A` to `Z`,
/// every other character stays.
pub open spec fn upper_char(c: char) -> char {
    if ascii_lower(c) {
        ((c as u8) - 32) as char
    } else {
        c
    }
}

/// The lowercase form of the text `s`.
pub open spec fn lowercased(s: Seq<char>) -> Seq<char> {
    if is_ascii_chars(s) {
        s.map_values(|c: char| lower_char(c))
    } else {
        unicode_to_lowercase(s)
    }
}

/// The uppercase form of the text `s`.
pub open spec fn uppercased(s: Seq<char>) -> Seq<char> {
    if is_ascii_chars(s) {
        s.map_values(|c: char| upper_char(c))
    } else {
        unicode_to_uppercase(s)
    }
}

/// Within ASCII a change of case maps character by character: the text
/// keeps its length and stays ASCII, and a second change of the same kind
/// changes nothing.
pub proof fn lemma_ascii_case(s: Seq<char>)
    requires
        is_ascii_chars(s),
    ensures
        lowercased(s) == s.map_values(|c: char| lower_char(c)),
        uppercased(s) == s.map_values(|c: char| upper_char(c)),
        is_ascii_chars(lowercased(s)),
        is_ascii_chars(uppercased(s)),
        lowercased(lowercased(s)) == lowercased(s),
        uppercased(uppercased(s)) == uppercased(s),
{
    let lower = lowercased(s);
    let upper = uppercased(s);
    assert forall|i: int| 0 <= i < lower.len() implies '\0' <= #[trigger] lower[i] <= '\u{7f}'
        && lower_char(lower[i]) == lower[i] by {
        assert('\0' <= s[i] <= '\u{7f}');
    }
    assert forall|i: int| 0 <= i < upper.len() implies '\0' <= #[trigger] upper[i] <= '\u{7f}'
        && upper_char(upper[i]) == upper[i] by {
        assert('\0' <= s[i] <= '\u{7f}');
    }
    assert(lowercased(lower) == lower);
    assert(uppercased(upper) == upper);
}

/// The lowercase form of an ASCII character.
pub fn to_lower_char(c: char) -> (r: char)
    ensures
        r == lower_char(c),
{
    if 'A' <= c && c <= 'Z' {
        ((c as u8) + 32u8) as char
    } else {
        c
    }
}

/// The uppercase form of an ASCII character.
pub fn to_upper_char(c: char) -> (r: char)
    ensures
        r == upper_char(c),
{
    if 'a' <= c && c <= 'z' {
        ((c as u8) - 32u8) as char
    } else {
        c
    }
}

/// The lowercase form of `s`.
pub fn to_lowercase(s: &str) -> (r: String)
    ensures
        r@ == lowercased(s@),
{
    if s.is_ascii() {
        let mut out = String::new();
        for c in it: s.chars()
            invariant
                it.seq() == s@,
                out@ == s@.take(it.index() as int).map_values(|c: char| lower_char(c)),
        {
            out.push(to_lower_char(c));
        }
        out
    } else {
        table_to_lowercase(s)
    }
}

/// The uppercase form of `s`.
pub fn to_uppercase(s: &str) -> (r: String)
    ensures
        r@ == uppercased(s@),
{
    if s.is_ascii() {
        let mut out = String::new();
        for c in it: s.chars()
            invariant
                it.seq() == s@,
                out@ == s@.take(it.index() as int).map_values(|c: char| upper_char(c)),
        {
            out.push(to_upper_char(c));
        }
        out
    } else {
        table_to_uppercase(s)
    }
}

} // verus!
