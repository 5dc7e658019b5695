//! Splitting text into words.

use vstd::prelude::*;
use crate::chars::{
    alphabetic, alphanumeric, is_alphabetic, is_lowercase, is_numeric, is_uppercase, lowercase,
    numeric, uppercase,
};

verus! {

/// The state of a scan: the words closed so far, the word under
/// construction, and whether the last letter seen was uppercase.
pub struct Scan {
    pub words: Seq<Seq<char>>,
    pub current: Seq<char>,
    pub upper: bool,
}

/// The state before the first character.
pub open spec fn start() -> Scan {
    Scan { words: Seq::empty(), current: Seq::empty(), upper: false }
}

/// Whether `c` continues a run of the case that the last letter had. A letter
/// does so by its own case; any other character of a word counts as lowercase.
pub open spec fn same_case(c: char, upper: bool) -> bool {
    if alphabetic(c) {
        (uppercase(c) && upper) || (lowercase(c) && !upper)
    } else {
        !upper
    }
}

/// The words of `st` once the word under construction is closed.
pub open spec fn closed(st: Scan) -> Seq<Seq<char>> {
    if st.current.len() > 0 {
        st.words.push(st.current)
    } else {
        st.words
    }
}

/// The state after `c`.
pub open spec fn step(st: Scan, c: char) -> Scan {
    if alphanumeric(c) {
        let upper = if alphabetic(c) {
            uppercase(c)
        } else {
            st.upper
        };
        if st.current.len() < 2 || same_case(c, st.upper) {
            Scan { words: st.words, current: st.current.push(c), upper }
        } else {
            Scan { words: st.words.push(st.current), current: seq![c], upper }
        }
    } else {
        Scan { words: closed(st), current: Seq::empty(), upper: st.upper }
    }
}

/// The state after the characters of `text`, read from left to right.
pub open spec fn scan(st: Scan, text: Seq<char>) -> Scan
    decreases text.len(),
{
    if text.len() == 0 {
        st
    } else {
        step(scan(st, text.drop_last()), text.last())
    }
}

/// The words of `text`.
pub open spec fn segment(text: Seq<char>) -> Seq<Seq<char>> {
    closed(scan(start(), text))
}

/// Every word of `st` is non-empty and holds only word characters that
/// occur in `text`; so does the word under construction, which may be empty.
pub open spec fn drawn_from(st: Scan, text: Seq<char>) -> bool {
    &&& forall|i: int| 0 <= i < st.words.len() ==> (#[trigger] st.words[i]).len() > 0
    &&& forall|i: int, j: int|
        0 <= i < st.words.len() && 0 <= j < st.words[i].len() ==> alphanumeric(
            #[trigger] st.words[i][j],
        ) && text.contains(st.words[i][j])
    &&& forall|j: int|
        0 <= j < st.current.len() ==> alphanumeric(#[trigger] st.current[j]) && text.contains(
            st.current[j],
        )
}

/// Reading `a` and then `b` is reading `a + b`.
pub proof fn lemma_scan_concat(st: Scan, a: Seq<char>, b: Seq<char>)
    ensures
        scan(st, a + b) == scan(scan(st, a), b),
    decreases b.len(),
{
    if b.len() == 0 {
        assert(a + b == a);
    } else {
        assert((a + b).drop_last() == a + b.drop_last());
        lemma_scan_concat(st, a, b.drop_last());
    }
}

/// A scan from the start keeps its words non-empty and takes their
/// characters from the word characters of the text.
proof fn lemma_scan_drawn_from(text: Seq<char>)
    ensures
        drawn_from(scan(start(), text), text),
    decreases text.len(),
{
    if text.len() > 0 {
        let before = text.drop_last();
        let c = text.last();
        lemma_scan_drawn_from(before);
        let st = scan(start(), before);
        let next = step(st, c);
        assert(text[text.len() - 1] == c);
        assert forall|d: char| before.contains(d) implies text.contains(d) by {
            let k = choose|k: int| 0 <= k < before.len() && before[k] == d;
            assert(text[k] == d);
        }
        assert(drawn_from(next, text));
    }
}

/// No word is empty, and every character of a word is a word character of
/// the text.
pub proof fn lemma_words_are_alphanumeric(text: Seq<char>)
    ensures
        forall|i: int| 0 <= i < segment(text).len() ==> (#[trigger] segment(text)[i]).len() > 0,
        forall|i: int, j: int|
            0 <= i < segment(text).len() && 0 <= j < segment(text)[i].len() ==> alphanumeric(
                #[trigger] segment(text)[i][j],
            ) && text.contains(segment(text)[i][j]),
{
    lemma_scan_drawn_from(text);
}

/// The words, read one after the other, are the word characters of the text
/// in their order: a scan drops the separators and nothing else.
pub proof fn lemma_words_keep_alphanumerics(text: Seq<char>)
    ensures
        segment(text).flatten() == text.filter(|c: char| alphanumeric(c)),
{
    lemma_scan_keeps_alphanumerics(text);
    let st = scan(start(), text);
    if st.current.len() > 0 {
        st.words.lemma_flatten_push(st.current);
    }
}

proof fn lemma_scan_keeps_alphanumerics(text: Seq<char>)
    ensures
        scan(start(), text).words.flatten() + scan(start(), text).current == text.filter(
            |c: char| alphanumeric(c),
        ),
    decreases text.len(),
{
    let word_char = |c: char| alphanumeric(c);
    if text.len() == 0 {
        reveal(Seq::filter);
        assert(Seq::<Seq<char>>::empty().flatten() + Seq::<char>::empty() == text);
    } else {
        let before = text.drop_last();
        let c = text.last();
        lemma_scan_keeps_alphanumerics(before);
        let st = scan(start(), before);
        let next = step(st, c);
        assert(text == before.push(c));
        before.lemma_filter_push(c, word_char);
        st.words.lemma_flatten_push(st.current);
        if alphanumeric(c) {
            assert(next.words.flatten() + next.current == (st.words.flatten()
                + st.current).push(c));
        } else {
            assert(next.words.flatten() + next.current == st.words.flatten() + st.current);
        }
    }
}

/// A text has no words exactly if it has no word characters. The empty text
/// and a text of punctuation and spaces are two such.
pub proof fn lemma_no_words(text: Seq<char>)
    ensures
        segment(text).len() == 0 <==> forall|i: int|
            0 <= i < text.len() ==> !alphanumeric(#[trigger] text[i]),
{
    lemma_scan_counts(text);
}

proof fn lemma_scan_counts(text: Seq<char>)
    ensures
        closed(scan(start(), text)).len() == 0 <==> forall|i: int|
            0 <= i < text.len() ==> !alphanumeric(#[trigger] text[i]),
    decreases text.len(),
{
    if text.len() > 0 {
        let before = text.drop_last();
        lemma_scan_counts(before);
        assert forall|i: int| 0 <= i < before.len() implies before[i] == text[i] by {}
        if forall|i: int| 0 <= i < text.len() ==> !alphanumeric(#[trigger] text[i]) {
            assert forall|i: int| 0 <= i < before.len() implies !alphanumeric(
                #[trigger] before[i],
            ) by {
                assert(before[i] == text[i]);
            }
        } else {
            let k = choose|k: int| 0 <= k < text.len() && alphanumeric(text[k]);
            if k < before.len() {
                assert(alphanumeric(before[k]));
            }
        }
    }
}

/// The state in which a scan begins a word with no words behind it.
pub open spec fn restart(upper: bool) -> Scan {
    Scan { words: Seq::empty(), current: Seq::empty(), upper }
}

/// A scan leaves the words that are closed as they are: it only adds to them.
proof fn lemma_scan_keeps_closed_words(st: Scan, text: Seq<char>)
    ensures
        scan(st, text) == ({
            let fresh = scan(Scan { words: Seq::empty(), current: st.current, upper: st.upper }, text);
            Scan { words: st.words + fresh.words, current: fresh.current, upper: fresh.upper }
        }),
    decreases text.len(),
{
    let bare = Scan { words: Seq::empty(), current: st.current, upper: st.upper };
    if text.len() == 0 {
        assert(st.words + bare.words == st.words);
    } else {
        lemma_scan_keeps_closed_words(st, text.drop_last());
        let fresh = scan(bare, text.drop_last());
        let full = scan(st, text.drop_last());
        assert(full.words == st.words + fresh.words);
        assert((st.words + fresh.words).push(fresh.current) == st.words + fresh.words.push(
            fresh.current,
        ));
    }
}

/// No word reaches across a separator: what stands before it has its own
/// words, and so has what follows. Only the case of the last letter is
/// carried over; where that letter was not uppercase, or there was none, the
/// words are those of the two texts.
pub proof fn lemma_separator_splits(before: Seq<char>, separator: char, after: Seq<char>)
    requires
        !alphanumeric(separator),
    ensures
        segment(before.push(separator) + after) == segment(before) + closed(
            scan(restart(scan(start(), before).upper), after),
        ),
        !scan(start(), before).upper ==> segment(before.push(separator) + after) == segment(before)
            + segment(after),
{
    let at_separator = scan(start(), before.push(separator));
    assert(before.push(separator).drop_last() == before);
    assert(at_separator == step(scan(start(), before), separator));
    lemma_scan_concat(start(), before.push(separator), after);
    lemma_scan_keeps_closed_words(at_separator, after);
    let fresh = scan(restart(at_separator.upper), after);
    assert(at_separator.current == Seq::<char>::empty());
    assert(restart(at_separator.upper) == (Scan {
        words: Seq::empty(),
        current: at_separator.current,
        upper: at_separator.upper,
    }));
    assert((segment(before) + fresh.words).push(fresh.current) == segment(before)
        + fresh.words.push(fresh.current));
    assert(restart(false) == start());
}

/// A digit joins the word before it, where the last letter was not
/// uppercase: it neither ends the word nor changes the case that is
/// remembered.
pub proof fn lemma_digit_joins_word(st: Scan, digit: char)
    requires
        numeric(digit),
        !alphabetic(digit),
        !st.upper,
    ensures
        step(st, digit) == (Scan {
            words: st.words,
            current: st.current.push(digit),
            upper: st.upper,
        }),
{
}

/// Splits `input` into its words.
///
/// A word is never empty and holds word characters only; the words, read one
/// after the other, are the word characters of `input` in their order; and
/// there is no word exactly if `input` has no word character.
pub fn parse_filename(input: String) -> (parts: Vec<String>)
    ensures
        parts.deep_view() == segment(input@),
        forall|i: int| 0 <= i < parts.len() ==> (#[trigger] parts.deep_view()[i]).len() > 0,
        forall|i: int, j: int|
            0 <= i < parts.len() && 0 <= j < parts.deep_view()[i].len() ==> alphanumeric(
                #[trigger] parts.deep_view()[i][j],
            ),
        parts.deep_view().flatten() == input@.filter(|c: char| alphanumeric(c)),
        parts.len() == 0 <==> forall|k: int|
            0 <= k < input@.len() ==> !alphanumeric(#[trigger] input@[k]),
{
    proof {
        lemma_words_are_alphanumeric(input@);
        lemma_words_keep_alphanumerics(input@);
        lemma_no_words(input@);
    }
    let mut parts: Vec<String> = Vec::new();
    let mut current = String::new();
    let mut current_len: usize = 0;
    let mut previous_upper = false;
    for c in it: input.as_str().chars()
        invariant
            it.seq() == input@,
            current_len == if current@.len() < 2 { current@.len() } else { 2 },
            scan(start(), input@.take(it.index() as int)).words == parts.deep_view(),
            scan(start(), input@.take(it.index() as int)).current == current@,
            scan(start(), input@.take(it.index() as int)).upper == previous_upper,
    {
        let ghost before = scan(start(), input@.take(it.index() as int));
        proof {
            let next = input@.take(it.index() + 1);
            assert(next.drop_last() == input@.take(it.index() as int));
            assert(next.last() == c);
        }
        let letter = is_alphabetic(c);
        if letter || is_numeric(c) {
            let same = if letter {
                (is_uppercase(c) && previous_upper) || (is_lowercase(c) && !previous_upper)
            } else {
                !previous_upper
            };
            if letter {
                previous_upper = is_uppercase(c);
            }
            if current_len < 2 || same {
                current.push(c);
                if current_len < 2 {
                    current_len = current_len + 1;
                }
            } else {
                let ghost words = parts.deep_view();
                parts.push(current);
                assert(parts.deep_view() == words.push(before.current));
                current = String::new();
                current.push(c);
                current_len = 1;
            }
        } else if current_len > 0 {
            let ghost words = parts.deep_view();
            parts.push(current);
            assert(parts.deep_view() == words.push(before.current));
            current = String::new();
            current_len = 0;
        }
    }
    assert(input@.take(input@.len() as int) == input@);
    if current_len > 0 {
        let ghost words = parts.deep_view();
        let ghost last = current@;
        parts.push(current);
        assert(parts.deep_view() == words.push(last));
    }
    parts
}

} // verus!
