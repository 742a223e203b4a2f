//! What holds of text: white space, words, case, order and numerals.

use crate::text::{
    decimal, joined, lemma_one_word, lemma_trim_is_trimmed, lemma_word_length,
    lemma_word_length_is, lowered, position, text_less, titled, trimmed, trimmed_end,
    trimmed_start, white_space, word_length, words,
};
use vstd::prelude::*;

verus! {

/// Whether a text is blank: there is nothing in it but white space.
pub open spec fn blank(text: Seq<char>) -> bool {
    forall|i: int| 0 <= i < text.len() ==> white_space(#[trigger] text[i])
}

/// Whether a text has no white space at either end.
pub open spec fn tight(text: Seq<char>) -> bool {
    text.len() > 0 ==> !white_space(text[0]) && !white_space(text[text.len() - 1])
}

/// A letter of the English alphabet.
pub open spec fn letter(c: char) -> bool {
    'A' <= c <= 'Z' || 'a' <= c <= 'z'
}

/// A character without regard to the case of English letters.
pub open spec fn folded_char(c: char) -> int {
    if 'A' <= c <= 'Z' {
        c as int + 32
    } else {
        c as int
    }
}

/// Whether two texts are the same without regard to the case of English letters.
pub open spec fn same_letters(left: Seq<char>, right: Seq<char>) -> bool {
    &&& left.len() == right.len()
    &&& forall|i: int|
        #![trigger left[i]]
        #![trigger right[i]]
        0 <= i < left.len() ==> folded_char(left[i]) == folded_char(right[i])
}

// ---------------------------------------------------------------------------
// White space
// ---------------------------------------------------------------------------
/// Leading white space goes.
proof fn lemma_start_goes(before: Seq<char>, text: Seq<char>)
    requires
        blank(before),
    ensures
        trimmed_start(before + text) == trimmed_start(text),
    decreases before.len(),
{
    if before.len() == 0 {
        assert(before + text =~= text);
    } else {
        assert((before + text)[0] == before[0]);
        assert((before + text).skip(1) =~= before.skip(1) + text);
        assert forall|i: int| 0 <= i < before.skip(1).len() implies white_space(
            #[trigger] before.skip(1)[i],
        ) by {
            assert(before.skip(1)[i] == before[i + 1]);
        }
        lemma_start_goes(before.skip(1), text);
    }
}

/// Trailing white space goes.
proof fn lemma_end_goes(text: Seq<char>, after: Seq<char>)
    requires
        blank(after),
    ensures
        trimmed_end(text + after) == trimmed_end(text),
    decreases after.len(),
{
    if after.len() == 0 {
        assert(text + after =~= text);
    } else {
        assert((text + after).last() == after[after.len() - 1]);
        assert((text + after).drop_last() =~= text + after.drop_last());
        assert forall|i: int| 0 <= i < after.drop_last().len() implies white_space(
            #[trigger] after.drop_last()[i],
        ) by {
            assert(after.drop_last()[i] == after[i]);
        }
        lemma_end_goes(text, after.drop_last());
    }
}

/// Whatever white space stands around a text, trimming takes it off, and nothing else.
pub proof fn lemma_trimming(before: Seq<char>, text: Seq<char>, after: Seq<char>)
    requires
        blank(before),
        tight(text),
        blank(after),
    ensures
        trimmed(before + text + after) == text,
{
    assert(before + text + after =~= before + (text + after));
    lemma_start_goes(before, text + after);
    if text.len() == 0 {
        assert(text + after =~= after);
        lemma_start_goes(after, text);
        assert(after + text =~= after);
        assert(trimmed_start(after) == text);
    } else {
        assert((text + after)[0] == text[0]);
        assert(trimmed_start(text + after) == text + after);
        lemma_end_goes(text, after);
        lemma_trim_is_trimmed(text);
    }
}

/// Every text is a tight one with white space around it, which is what trimming leaves.
pub proof fn lemma_trimmed_parts(text: Seq<char>) -> (parts: (Seq<char>, Seq<char>))
    ensures
        blank(parts.0),
        tight(trimmed(text)),
        blank(parts.1),
        text == parts.0 + trimmed(text) + parts.1,
        blank(text) <==> trimmed(text).len() == 0,
    decreases text.len(),
{
    if text.len() == 0 {
        assert(Seq::<char>::empty() + text + Seq::<char>::empty() =~= text);
        lemma_trim_is_trimmed(text);
        (Seq::empty(), Seq::empty())
    } else if white_space(text[0]) {
        let (before, after) = lemma_trimmed_parts(text.skip(1));
        let first = seq![text[0]];
        assert(blank(first));
        assert(first + text.skip(1) =~= text);
        lemma_start_goes(first, text.skip(1));
        assert(trimmed(text) == trimmed(text.skip(1)));
        assert((first + before) + trimmed(text) + after =~= text);
        assert(blank(first + before));
        if blank(text.skip(1)) {
            assert forall|i: int| 0 <= i < text.len() implies white_space(#[trigger] text[i]) by {
                if i > 0 {
                    assert(text.skip(1)[i - 1] == text[i]);
                }
            }
        }
        if blank(text) {
            assert forall|i: int| 0 <= i < text.skip(1).len() implies white_space(
                #[trigger] text.skip(1)[i],
            ) by {
                assert(text.skip(1)[i] == text[i + 1]);
            }
        }
        (first + before, after)
    } else if white_space(text.last()) {
        let (before, after) = lemma_trimmed_parts(text.drop_last());
        let last = seq![text.last()];
        assert(blank(last));
        assert(text.drop_last() + last =~= text);
        lemma_end_goes(text.drop_last(), last);
        assert(text.drop_last()[0] == text[0]);
        assert(trimmed_start(text.drop_last()) == text.drop_last());
        assert(trimmed(text) == trimmed(text.drop_last()));
        assert(before + trimmed(text) + (after + last) =~= text);
        assert(blank(after + last));
        assert(!blank(text)) by {
            assert(!white_space(text[0]));
        }
        assert(!blank(text.drop_last())) by {
            assert(!white_space(text.drop_last()[0]));
        }
        (before, after + last)
    } else {
        assert(text.last() == text[text.len() - 1]);
        lemma_trim_is_trimmed(text);
        assert(Seq::<char>::empty() + text + Seq::<char>::empty() =~= text);
        (Seq::empty(), Seq::empty())
    }
}

// ---------------------------------------------------------------------------
// Words
// ---------------------------------------------------------------------------
/// White space parts words: the words of two texts with white space between them are those
/// of the one, and then those of the other.
pub proof fn lemma_words_parted(left: Seq<char>, between: char, right: Seq<char>)
    requires
        white_space(between),
    ensures
        words(left.push(between) + right) == words(left) + words(right),
    decreases left.len(),
{
    let whole = left.push(between) + right;
    if left.len() == 0 {
        assert(whole[0] == between);
        assert(whole.skip(1) =~= right);
        assert(words(left) + words(right) =~= words(right));
    } else if white_space(left[0]) {
        assert(whole[0] == left[0]);
        assert(whole.skip(1) =~= left.skip(1).push(between) + right);
        lemma_words_parted(left.skip(1), between, right);
    } else {
        let n = word_length(left);
        lemma_word_length(left);
        assert forall|i: int| 0 <= i < n implies !white_space(#[trigger] whole[i]) by {
            assert(whole[i] == left[i]);
        }
        if n < left.len() {
            assert(whole[n] == left[n]);
        } else {
            assert(whole[n] == between);
        }
        lemma_word_length_is(whole, n);
        assert(whole[0] == left[0]);
        assert(whole.take(n) =~= left.take(n));
        assert(whole.skip(n) =~= left.skip(n).push(between) + right);
        lemma_words_parted(left.skip(n), between, right);
        assert(words(whole) =~= words(left) + words(right));
    }
}

/// A text without white space is one word, and an empty text is none.
pub proof fn lemma_word_alone(text: Seq<char>)
    requires
        forall|i: int| 0 <= i < text.len() ==> !white_space(#[trigger] text[i]),
    ensures
        text.len() == 0 ==> words(text).len() == 0,
        text.len() > 0 ==> words(text) == seq![text],
{
    if text.len() > 0 {
        lemma_one_word(text);
    }
}

/// One text is joined as it is, and two rows of texts with the separator between them.
pub proof fn lemma_joining(left: Seq<Seq<char>>, right: Seq<Seq<char>>, separator: Seq<char>)
    ensures
        joined(Seq::empty(), separator).len() == 0,
        left.len() == 1 ==> joined(left, separator) == left[0],
        left.len() > 0 && right.len() > 0 ==> joined(left + right, separator) == joined(
            left,
            separator,
        ) + separator + joined(right, separator),
    decreases right.len(),
{
    if left.len() > 0 && right.len() > 0 {
        assert((left + right).drop_last() =~= left + right.drop_last());
        assert((left + right).last() == right.last());
        if right.len() == 1 {
            assert(left + right.drop_last() =~= left);
        } else {
            lemma_joining(left, right.drop_last(), separator);
            assert(joined(left + right, separator) =~= joined(left, separator) + separator + joined(
                right,
                separator,
            ));
        }
    }
}

/// The first place of a character has none of it before, and it or the end there.
pub proof fn lemma_first_place(text: Seq<char>, c: char)
    ensures
        0 <= position(text, c) <= text.len(),
        forall|i: int| 0 <= i < position(text, c) ==> #[trigger] text[i] != c,
        position(text, c) < text.len() ==> text[position(text, c)] == c,
    decreases text.len(),
{
    if text.len() > 0 && text[0] != c {
        let rest = text.skip(1);
        lemma_first_place(rest, c);
        assert forall|i: int| 0 <= i < position(text, c) implies #[trigger] text[i] != c by {
            if i > 0 {
                assert(text[i] == rest[i - 1]);
            }
        }
    }
}

// ---------------------------------------------------------------------------
// Case
// ---------------------------------------------------------------------------
/// A text in lower case has the same letters, none of them a capital.
pub proof fn lemma_lower_case(text: Seq<char>)
    ensures
        same_letters(lowered(text), text),
        forall|i: int|
            0 <= i < lowered(text).len() ==> !('A' <= #[trigger] lowered(text)[i] <= 'Z'),
        forall|other: Seq<char>|
            same_letters(other, text) ==> #[trigger] lowered(other) == lowered(text),
{
    assert forall|other: Seq<char>| same_letters(other, text) implies #[trigger] lowered(other)
        == lowered(text) by {
        assert forall|i: int| 0 <= i < text.len() implies lowered(other)[i] == lowered(text)[i] by {
            assert(folded_char(other[i]) == folded_char(text[i]));
        }
        assert(lowered(other) =~= lowered(text));
    }
}

/// A word in title case has the same letters, the first one a capital and the others not.
pub proof fn lemma_title_case(text: Seq<char>)
    requires
        text.len() > 0,
        letter(text[0]),
    ensures
        same_letters(titled(text), text),
        'A' <= titled(text)[0] <= 'Z',
        forall|i: int| 0 < i < titled(text).len() ==> !('A' <= #[trigger] titled(text)[i] <= 'Z'),
        forall|other: Seq<char>|
            same_letters(other, text) ==> #[trigger] titled(other) == titled(text),
{
    let title = titled(text);
    assert(title.len() == text.len());
    assert(title[0] == crate::text::upper_char(text[0]));
    assert forall|i: int| 0 < i < title.len() implies #[trigger] title[i]
        == crate::text::lower_char(text[i]) by {
        assert(title[i] == lowered(text.skip(1))[i - 1]);
        assert(text.skip(1)[i - 1] == text[i]);
    }
    assert forall|i: int|
        #![trigger title[i]]
        #![trigger text[i]]
        0 <= i < title.len() implies folded_char(title[i]) == folded_char(text[i]) by {
        if i > 0 {
            assert(title[i] == crate::text::lower_char(text[i]));
        }
    }
    assert forall|other: Seq<char>| same_letters(other, text) implies #[trigger] titled(other)
        == titled(text) by {
        assert(folded_char(other[0]) == folded_char(text[0]));
        assert forall|i: int| 0 <= i < text.skip(1).len() implies lowered(other.skip(1))[i]
            == lowered(text.skip(1))[i] by {
            assert(folded_char(other[i + 1]) == folded_char(text[i + 1]));
        }
        assert(lowered(other.skip(1)) =~= lowered(text.skip(1)));
        assert(titled(other) =~= titled(text));
    }
}

// ---------------------------------------------------------------------------
// Order
// ---------------------------------------------------------------------------
/// Whether a text comes before another at some place: they agree up to it, and there the
/// first ends, or has the lesser character.
pub open spec fn precedes_at(left: Seq<char>, right: Seq<char>, at: int) -> bool {
    &&& 0 <= at <= left.len()
    &&& at < right.len()
    &&& forall|i: int| 0 <= i < at ==> left[i] == #[trigger] right[i]
    &&& at == left.len() || left[at] < right[at]
}

/// A text comes before another exactly where they part in its favour.
pub proof fn lemma_text_order(left: Seq<char>, right: Seq<char>)
    ensures
        text_less(left, right) <==> exists|at: int| precedes_at(left, right, at),
    decreases left.len(),
{
    if right.len() == 0 {
    } else if left.len() == 0 {
        assert(precedes_at(left, right, 0));
    } else if left[0] != right[0] {
        if left[0] < right[0] {
            assert(precedes_at(left, right, 0));
        } else {
            assert forall|at: int| !precedes_at(left, right, at) by {
                if precedes_at(left, right, at) && at > 0 {
                    assert(left[0] == right[0]);
                }
            }
        }
    } else {
        let a = left.skip(1);
        let b = right.skip(1);
        lemma_text_order(a, b);
        if text_less(a, b) {
            let at = choose|at: int| precedes_at(a, b, at);
            assert forall|i: int| 0 <= i < at + 1 implies left[i] == #[trigger] right[i] by {
                if i > 0 {
                    assert(a[i - 1] == b[i - 1]);
                }
            }
            assert(precedes_at(left, right, at + 1));
        }
        if exists|at: int| precedes_at(left, right, at) {
            let at = choose|at: int| precedes_at(left, right, at);
            assert forall|i: int| 0 <= i < at - 1 implies a[i] == #[trigger] b[i] by {
                assert(left[i + 1] == right[i + 1]);
            }
            assert(precedes_at(a, b, at - 1));
        }
    }
}

// ---------------------------------------------------------------------------
// Numerals
// ---------------------------------------------------------------------------
/// The number that some decimal digits tell.
pub open spec fn number_told(digits: Seq<char>) -> int
    decreases digits.len(),
{
    if digits.len() == 0 {
        0
    } else {
        10 * number_told(digits.drop_last()) + (digits.last() as int - '0' as int)
    }
}

/// A number in decimal tells that number, in digits, without a zero in front.
pub proof fn lemma_numeral(n: nat)
    ensures
        number_told(decimal(n)) == n,
        decimal(n).len() > 0,
        forall|i: int| 0 <= i < decimal(n).len() ==> '0' <= #[trigger] decimal(n)[i] <= '9',
        n > 0 ==> decimal(n)[0] != '0',
    decreases n,
{
    if n < 10 {
        assert(decimal(n).drop_last() =~= Seq::empty());
        assert(number_told(Seq::<char>::empty()) == 0);
    } else {
        lemma_numeral(n / 10);
        assert(decimal(n).drop_last() =~= decimal(n / 10));
        assert forall|i: int| 0 <= i < decimal(n).len() implies '0' <= #[trigger] decimal(n)[i]
            <= '9' by {
            if i < decimal(n / 10).len() {
                assert(decimal(n)[i] == decimal(n / 10)[i]);
            }
        }
        assert(decimal(n)[0] == decimal(n / 10)[0]);
    }
}

} // verus!
