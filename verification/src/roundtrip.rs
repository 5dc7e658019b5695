//! What happens when a name that was already converted is converted again.
//!
//! In `snake_case` and `kebab-case` the separators survive in the output, so
//! a second conversion finds the same words and writes the same name, as long
//! as the lowercase form of each word is a run of lowercase letters and
//! digits that lowercasing leaves alone. Every ASCII text is of that kind.
//! Unicode has case mappings that are not: the lowercase form of `İ` ends in
//! a combining mark, which is a separator.
//!
//! `camelCase` and `PascalCase` mark the words by case alone. A second scan
//! may find other words there, and nothing is stated about it: `a b` becomes
//! `AB` in `PascalCase`, and `AB` becomes `Ab`.

use vstd::prelude::*;
use vstd::utf8::is_ascii_chars;
use crate::casing::{lemma_ascii_case, lower_char, lowercased};
use crate::chars::{alphabetic, alphanumeric, lowercase, uppercase};
use crate::convention::{cased, joined, lowered, FormattingMode};
use crate::segment::{
    closed, lemma_scan_concat, lemma_words_are_alphanumeric, scan, segment, start, step, Scan,
};

verus! {

/// `c` is a digit or a letter in lowercase: a scan that has seen no
/// uppercase letter since the last lowercase one appends it to its word.
pub open spec fn settled(c: char) -> bool {
    alphanumeric(c) && (alphabetic(c) ==> lowercase(c) && !uppercase(c))
}

/// The lowercase form of `word` is a non-empty run of digits and lowercase
/// letters, and is its own lowercase form.
pub open spec fn stable(word: Seq<char>) -> bool {
    let lower = lowercased(word);
    &&& lower.len() > 0
    &&& forall|i: int| 0 <= i < lower.len() ==> settled(#[trigger] lower[i])
    &&& lowercased(lower) == lower
}

/// `mode` puts a separator between the words.
pub open spec fn separated(mode: FormattingMode) -> bool {
    mode is SnakeCase || mode is KebabCase
}

/// A scan in lowercase state appends a run of settled characters to its word.
proof fn lemma_scan_settled(st: Scan, run: Seq<char>)
    requires
        !st.upper,
        forall|i: int| 0 <= i < run.len() ==> settled(#[trigger] run[i]),
    ensures
        scan(st, run) == (Scan { words: st.words, current: st.current + run, upper: false }),
    decreases run.len(),
{
    if run.len() == 0 {
        assert(st.current + run == st.current);
    } else {
        let before = run.drop_last();
        assert forall|i: int| 0 <= i < before.len() implies settled(#[trigger] before[i]) by {
            assert(before[i] == run[i]);
        }
        lemma_scan_settled(st, before);
        assert(settled(run[run.len() - 1]));
        assert((st.current + before).push(run.last()) == st.current + run);
    }
}

/// A scan that starts on an empty word in lowercase state, over stable words
/// joined by a separator, finds their lowercase forms.
proof fn lemma_scan_joined(st: Scan, words: Seq<Seq<char>>, separator: char)
    requires
        !alphanumeric(separator),
        !st.upper,
        st.current.len() == 0,
        words.len() > 0,
        forall|i: int| 0 <= i < words.len() ==> stable(#[trigger] words[i]),
    ensures
        scan(st, joined(lowered(words), separator)) == (Scan {
            words: st.words + lowered(words).drop_last(),
            current: lowercased(words.last()),
            upper: false,
        }),
    decreases words.len(),
{
    let last = lowercased(words.last());
    assert(stable(words[words.len() - 1]));
    assert(lowered(words).last() == last);
    if words.len() == 1 {
        assert(lowered(words)[0] == last);
        lemma_scan_settled(st, last);
        assert(st.current + last == last);
        assert(st.words + lowered(words).drop_last() == st.words);
    } else {
        let front = words.drop_last();
        assert forall|i: int| 0 <= i < front.len() implies stable(#[trigger] front[i]) by {
            assert(front[i] == words[i]);
        }
        assert(lowered(words).drop_last() == lowered(front));
        let head = joined(lowered(front), separator);
        lemma_scan_joined(st, front, separator);
        let at_head = scan(st, head);
        assert(head.push(separator).drop_last() == head);
        let at_separator = scan(st, head.push(separator));
        assert(at_separator == step(at_head, separator));
        assert(stable(front[front.len() - 1]));
        assert(at_separator.words == st.words + lowered(front)) by {
            assert(lowered(front).drop_last().push(lowered(front).last()) == lowered(front));
            assert((st.words + lowered(front).drop_last()).push(lowered(front).last())
                == st.words + lowered(front));
        }
        lemma_scan_concat(st, head.push(separator), last);
        lemma_scan_settled(at_separator, last);
        assert(at_separator.current + last == last);
    }
}

/// The words of stable words joined by a separator are their lowercase forms.
pub proof fn lemma_segment_joined(words: Seq<Seq<char>>, separator: char)
    requires
        !alphanumeric(separator),
        forall|i: int| 0 <= i < words.len() ==> stable(#[trigger] words[i]),
    ensures
        segment(joined(lowered(words), separator)) == lowered(words),
{
    if words.len() > 0 {
        lemma_scan_joined(start(), words, separator);
        assert(stable(words[words.len() - 1]));
        assert(lowered(words).last() == lowercased(words.last()));
        assert(lowered(words).drop_last().push(lowered(words).last()) == lowered(words));
        assert(Seq::<Seq<char>>::empty() + lowered(words).drop_last() == lowered(
            words,
        ).drop_last());
    } else {
        assert(lowered(words) == Seq::<Seq<char>>::empty());
    }
}

/// The lowercase forms of stable words are their own lowercase forms.
proof fn lemma_lowered_twice(words: Seq<Seq<char>>)
    requires
        forall|i: int| 0 <= i < words.len() ==> stable(#[trigger] words[i]),
    ensures
        lowered(lowered(words)) == lowered(words),
{
    assert forall|i: int| 0 <= i < words.len() implies lowered(lowered(words))[i] == lowered(
        words,
    )[i] by {
        assert(stable(words[i]));
    }
}

/// Converting a second time changes nothing: where `mode` puts a separator
/// between the words and every word of `text` is stable, the converted text
/// is converted to itself.
pub proof fn lemma_converted_text_is_fixed(text: Seq<char>, mode: FormattingMode)
    requires
        separated(mode),
        forall|i: int| 0 <= i < segment(text).len() ==> stable(#[trigger] segment(text)[i]),
    ensures
        cased(segment(cased(segment(text), mode)), mode) == cased(segment(text), mode),
{
    let words = segment(text);
    let separator = if mode is SnakeCase {
        '_'
    } else {
        '-'
    };
    assert(cased(words, mode) == joined(lowered(words), separator));
    lemma_segment_joined(words, separator);
    lemma_lowered_twice(words);
}

/// Every word of an ASCII text is stable.
pub proof fn lemma_ascii_words_are_stable(text: Seq<char>)
    requires
        is_ascii_chars(text),
    ensures
        forall|i: int| 0 <= i < segment(text).len() ==> stable(#[trigger] segment(text)[i]),
{
    lemma_words_are_alphanumeric(text);
    assert forall|i: int| 0 <= i < segment(text).len() implies stable(
        #[trigger] segment(text)[i],
    ) by {
        let word = segment(text)[i];
        assert forall|j: int| 0 <= j < word.len() implies '\0' <= #[trigger] word[j]
            <= '\u{7f}' by {
            assert(text.contains(segment(text)[i][j]));
            let k = choose|k: int| 0 <= k < text.len() && text[k] == word[j];
            assert('\0' <= text[k] <= '\u{7f}');
        }
        lemma_ascii_case(word);
        let lower = lowercased(word);
        assert forall|j: int| 0 <= j < lower.len() implies settled(#[trigger] lower[j]) by {
            assert(alphanumeric(segment(text)[i][j]));
            assert(lower[j] == lower_char(word[j]));
        }
    }
}

/// Converting an ASCII text a second time changes nothing, where `mode` puts
/// a separator between the words.
pub proof fn lemma_converted_ascii_text_is_fixed(text: Seq<char>, mode: FormattingMode)
    requires
        separated(mode),
        is_ascii_chars(text),
    ensures
        cased(segment(cased(segment(text), mode)), mode) == cased(segment(text), mode),
{
    lemma_ascii_words_are_stable(text);
    lemma_converted_text_is_fixed(text, mode);
}

} // verus!
