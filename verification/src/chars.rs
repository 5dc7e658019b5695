//! Character classes.
//!
//! The segmenter sorts every character into letter, digit or separator, and
//! asks every letter for its case. Within ASCII these questions are answered
//! here, by rule. Beyond ASCII the Unicode tables of the standard library
//! decide; the model refers to their answers by name.

use vstd::prelude::*;

verus! {

/// What `char::is_alphabetic` answers for `c`: whether Unicode counts `c`
/// as alphabetic.
pub uninterp spec fn unicode_alphabetic(c: char) -> bool;

/// What `char::is_numeric` answers for `c`: whether `c` is in one of the
/// Unicode general categories for numbers.
pub uninterp spec fn unicode_numeric(c: char) -> bool;

/// What `char::is_uppercase` answers for `c`: whether Unicode counts `c`
/// as uppercase.
pub uninterp spec fn unicode_uppercase(c: char) -> bool;

/// What `char::is_lowercase` answers for `c`: whether Unicode counts `c`
/// as lowercase.
pub uninterp spec fn unicode_lowercase(c: char) -> bool;

/// Trusted: calls `char::is_alphabetic`, which is a function of the character
/// alone. Nothing is claimed about which characters it accepts.
#[verifier::external_body]
fn table_alphabetic(c: char) -> (r: bool)
    ensures
        r == unicode_alphabetic(c),
{
    c.is_alphabetic()
}

/// Trusted: calls `char::is_numeric`, which is a function of the character
/// alone. Nothing is claimed about which characters it accepts.
#[verifier::external_body]
fn table_numeric(c: char) -> (r: bool)
    ensures
        r == unicode_numeric(c),
{
    c.is_numeric()
}

/// Trusted: calls `char::is_uppercase`, which is a function of the character
/// alone. Nothing is claimed about which characters it accepts.
#[verifier::external_body]
fn table_uppercase(c: char) -> (r: bool)
    ensures
        r == unicode_uppercase(c),
{
    c.is_uppercase()
}

/// Trusted: calls `char::is_lowercase`, which is a function of the character
/// alone. Nothing is claimed about which characters it accepts.
#[verifier::external_body]
fn table_lowercase(c: char) -> (r: bool)
    ensures
        r == unicode_lowercase(c),
{
    c.is_lowercase()
}

/// `c` lies in the ASCII range.
pub open spec fn ascii(c: char) -> bool {
    c <= '\x7f'
}

/// `c` is one of `A` to `Z`.
pub open spec fn ascii_upper(c: char) -> bool {
    'A' <= c && c <= 'Z'
}

/// `c` is one of `a` to `z`.
pub open spec fn ascii_lower(c: char) -> bool {
    'a' <= c && c <= 'z'
}

/// `c` is one of `0` to `9`.
pub open spec fn ascii_digit(c: char) -> bool {
    '0' <= c && c <= '9'
}

/// `c` is a letter.
pub open spec fn alphabetic(c: char) -> bool {
    if ascii(c) {
        ascii_upper(c) || ascii_lower(c)
    } else {
        unicode_alphabetic(c)
    }
}

/// `c` is a digit or another numeric character.
pub open spec fn numeric(c: char) -> bool {
    if ascii(c) {
        ascii_digit(c)
    } else {
        unicode_numeric(c)
    }
}

/// `c` is an uppercase character.
pub open spec fn uppercase(c: char) -> bool {
    if ascii(c) {
        ascii_upper(c)
    } else {
        unicode_uppercase(c)
    }
}

/// `c` is a lowercase character.
pub open spec fn lowercase(c: char) -> bool {
    if ascii(c) {
        ascii_lower(c)
    } else {
        unicode_lowercase(c)
    }
}

/// `c` belongs to a word. Every other character separates words.
pub open spec fn alphanumeric(c: char) -> bool {
    alphabetic(c) || numeric(c)
}

/// Whether `c` is a letter.
pub fn is_alphabetic(c: char) -> (r: bool)
    ensures
        r == alphabetic(c),
{
    if c <= '\x7f' {
        ('A' <= c && c <= 'Z') || ('a' <= c && c <= 'z')
    } else {
        table_alphabetic(c)
    }
}

/// Whether `c` is a digit or another numeric character.
pub fn is_numeric(c: char) -> (r: bool)
    ensures
        r == numeric(c),
{
    if c <= '\x7f' {
        '0' <= c && c <= '9'
    } else {
        table_numeric(c)
    }
}

/// Whether `c` is an uppercase character.
pub fn is_uppercase(c: char) -> (r: bool)
    ensures
        r == uppercase(c),
{
    if c <= '\x7f' {
        'A' <= c && c <= 'Z'
    } else {
        table_uppercase(c)
    }
}

/// Whether `c` is a lowercase character.
pub fn is_lowercase(c: char) -> (r: bool)
    ensures
        r == lowercase(c),
{
    if c <= '\x7f' {
        'a' <= c && c <= 'z'
    } else {
        table_lowercase(c)
    }
}

/// Whether `c` belongs to a word.
pub fn is_alphanumeric(c: char) -> (r: bool)
    ensures
        r == alphanumeric(c),
{
    is_alphabetic(c) || is_numeric(c)
}

} // verus!
