//! Text as a sequence of characters: classes, case, words, order and numerals.

use vstd::prelude::*;
use vstd::string::StringExecFns;

verus! {

// ---------------------------------------------------------------------------
// Classes of characters
// ---------------------------------------------------------------------------
/// The characters with the Unicode property White_Space.
pub open spec fn white_space(c: char) -> bool {
    ||| '\u{9}' <= c <= '\u{d}'
    ||| c == ' '
    ||| c == '\u{85}'
    ||| c == '\u{a0}'
    ||| c == '\u{1680}'
    ||| '\u{2000}' <= c <= '\u{200a}'
    ||| c == '\u{2028}'
    ||| c == '\u{2029}'
    ||| c == '\u{202f}'
    ||| c == '\u{205f}'
    ||| c == '\u{3000}'
}

/// The characters of the Unicode category Cc.
pub open spec fn control(c: char) -> bool {
    c <= '\u{1f}' || '\u{7f}' <= c <= '\u{9f}'
}

/// `A` to `Z`.
pub open spec fn ascii_upper(c: char) -> bool {
    'A' <= c <= 'Z'
}

/// `a` to `z`.
pub open spec fn ascii_lower(c: char) -> bool {
    'a' <= c <= 'z'
}

/// `0` to `9`.
pub open spec fn ascii_digit(c: char) -> bool {
    '0' <= c <= '9'
}

/// `A` to `Z` and `a` to `z`.
pub open spec fn ascii_letter(c: char) -> bool {
    ascii_upper(c) || ascii_lower(c)
}

/// Whether a character has the Unicode property White_Space.
pub fn is_white_space(c: char) -> (yes: bool)
    ensures
        yes == white_space(c),
{
    ('\u{9}' <= c && c <= '\u{d}') || c == ' ' || c == '\u{85}' || c == '\u{a0}' || c == '\u{1680}'
        || ('\u{2000}' <= c && c <= '\u{200a}') || c == '\u{2028}' || c == '\u{2029}' || c
        == '\u{202f}' || c == '\u{205f}' || c == '\u{3000}'
}

/// Whether a character is a control character.
pub fn is_control(c: char) -> (yes: bool)
    ensures
        yes == control(c),
{
    c <= '\u{1f}' || ('\u{7f}' <= c && c <= '\u{9f}')
}

pub fn is_ascii_lower(c: char) -> (yes: bool)
    ensures
        yes == ascii_lower(c),
{
    'a' <= c && c <= 'z'
}

pub fn is_ascii_digit(c: char) -> (yes: bool)
    ensures
        yes == ascii_digit(c),
{
    '0' <= c && c <= '9'
}

pub fn is_ascii_letter(c: char) -> (yes: bool)
    ensures
        yes == ascii_letter(c),
{
    ('A' <= c && c <= 'Z') || ('a' <= c && c <= 'z')
}

// ---------------------------------------------------------------------------
// Case
// ---------------------------------------------------------------------------
/// The lower-case form of an ASCII letter; any other character as it is.
pub open spec fn lower_char(c: char) -> char {
    if ascii_upper(c) {
        ((c as u32) + 32) as char
    } else {
        c
    }
}

/// The upper-case form of an ASCII letter; any other character as it is.
pub open spec fn upper_char(c: char) -> char {
    if ascii_lower(c) {
        ((c as u32) - 32) as char
    } else {
        c
    }
}

/// A text with its ASCII letters in lower case.
pub open spec fn lowered(text: Seq<char>) -> Seq<char> {
    Seq::new(text.len(), |i: int| lower_char(text[i]))
}

pub fn to_lower_char(c: char) -> (lower: char)
    ensures
        lower == lower_char(c),
{
    if 'A' <= c && c <= 'Z' {
        ((c as u8) + 32) as char
    } else {
        c
    }
}

/// What `char::to_uppercase` yields for a character.
pub uninterp spec fn uppercase_mapping(c: char) -> Seq<char>;

/// Calls `char::to_uppercase`, which yields the Unicode upper-case mapping of a
/// character, one or more characters that depend on it alone. Of an ASCII
/// character that mapping is the one character `upper_char`.
#[verifier::external_body]
fn char_to_uppercase(c: char) -> (upper: String)
    ensures
        upper@ == uppercase_mapping(c),
        c <= '\u{7f}' ==> upper@ == seq![upper_char(c)],
{
    c.to_uppercase().collect()
}

/// The upper-case form of a character, which can be several characters.
pub open spec fn uppercased(c: char) -> Seq<char> {
    if c <= '\u{7f}' {
        seq![upper_char(c)]
    } else {
        uppercase_mapping(c)
    }
}

/// A text with its first character in upper case and its later ASCII letters in
/// lower case.
pub open spec fn titled(text: Seq<char>) -> Seq<char> {
    if text.len() == 0 {
        text
    } else {
        uppercased(text[0]) + lowered(text.skip(1))
    }
}

// ---------------------------------------------------------------------------
// Building text
// ---------------------------------------------------------------------------
/// `String::push` appends one character.
pub assume_specification[ String::push ](text: &mut String, c: char)
    ensures
        final(text)@ == old(text)@.push(c),
;

/// The characters of a text.
pub fn chars_of(text: &str) -> (chars: Vec<char>)
    ensures
        chars@ == text@,
{
    let mut chars: Vec<char> = Vec::new();
    for c in it: text.chars()
        invariant
            chars@ == text@.take(it.index()),
            it.seq() == text@,
    {
        assert(text@.take(it.index()).push(c) =~= text@.take(it.index() + 1));
        chars.push(c);
    }
    assert(text@.take(text@.len() as int) =~= text@);
    chars
}

/// The text of the characters from one position up to another.
pub fn text_between(chars: &Vec<char>, from: usize, to: usize) -> (text: String)
    requires
        from <= to <= chars@.len(),
    ensures
        text@ == chars@.subrange(from as int, to as int),
{
    let mut text = String::new();
    let mut i: usize = from;
    while i < to
        invariant
            from <= i <= to <= chars@.len(),
            text@ == chars@.subrange(from as int, i as int),
        decreases to - i,
    {
        assert(chars@.subrange(from as int, i as int).push(chars@[i as int]) =~= chars@.subrange(
            from as int,
            i + 1,
        ));
        text.push(chars[i]);
        i = i + 1;
    }
    text
}

/// The views of several texts.
pub open spec fn views(texts: Seq<String>) -> Seq<Seq<char>> {
    Seq::new(texts.len(), |i: int| texts[i]@)
}

/// The view of a text, where one is given.
pub open spec fn slice_view(text: Option<&str>) -> Option<Seq<char>> {
    match text {
        Some(text) => Some(text@),
        None => None,
    }
}

/// Several texts in a row, with a separator between each two.
pub open spec fn joined(parts: Seq<Seq<char>>, separator: Seq<char>) -> Seq<char>
    decreases parts.len(),
{
    if parts.len() == 0 {
        Seq::empty()
    } else if parts.len() == 1 {
        parts[0]
    } else {
        joined(parts.drop_last(), separator) + separator + parts.last()
    }
}

/// Several texts in a row, with a separator between each two.
pub fn join_texts(parts: &Vec<String>, separator: &str) -> (text: String)
    ensures
        text@ == joined(views(parts@), separator@),
{
    let mut text = String::new();
    let mut i: usize = 0;
    while i < parts.len()
        invariant
            i <= parts@.len(),
            text@ == joined(views(parts@).take(i as int), separator@),
        decreases parts@.len() - i,
    {
        assert(views(parts@).take(i + 1).drop_last() =~= views(parts@).take(i as int));
        if i > 0 {
            text.append(separator);
        }
        text.append(parts[i].as_str());
        assert(text@ =~= joined(views(parts@).take(i + 1), separator@));
        i = i + 1;
    }
    assert(views(parts@).take(i as int) =~= views(parts@));
    text
}

/// Whether two texts are equal.
pub fn same_text(left: &str, right: &str) -> (same: bool)
    ensures
        same == (left@ == right@),
{
    left.to_owned() == right.to_owned()
}

/// A text with its ASCII letters in lower case.
pub fn to_lower(text: &str) -> (lower: String)
    ensures
        lower@ == lowered(text@),
{
    let chars = chars_of(text);
    let mut lower = String::new();
    let mut i: usize = 0;
    while i < chars.len()
        invariant
            i <= chars@.len(),
            chars@ == text@,
            lower@ == lowered(text@).take(i as int),
        decreases chars@.len() - i,
    {
        assert(lowered(text@).take(i as int).push(lower_char(text@[i as int])) =~= lowered(
            text@,
        ).take(i + 1));
        lower.push(to_lower_char(chars[i]));
        i = i + 1;
    }
    assert(lowered(text@).take(i as int) =~= lowered(text@));
    lower
}

/// A text with its first character in upper case and its later ASCII letters in
/// lower case.
pub fn title_word(value: &str) -> (title: String)
    ensures
        title@ == titled(value@),
{
    let chars = chars_of(value);
    if chars.len() == 0 {
        return String::new();
    }
    let mut title = char_to_uppercase(chars[0]);
    let rest = text_between(&chars, 1, chars.len());
    assert(rest@ =~= value@.skip(1));
    let lower = to_lower(rest.as_str());
    title.append(lower.as_str());
    title
}

// ---------------------------------------------------------------------------
// Words
// ---------------------------------------------------------------------------
/// A text without its leading white space.
pub open spec fn trimmed_start(text: Seq<char>) -> Seq<char>
    decreases text.len(),
{
    if text.len() > 0 && white_space(text[0]) {
        trimmed_start(text.skip(1))
    } else {
        text
    }
}

/// A text without its trailing white space.
pub open spec fn trimmed_end(text: Seq<char>) -> Seq<char>
    decreases text.len(),
{
    if text.len() > 0 && white_space(text.last()) {
        trimmed_end(text.drop_last())
    } else {
        text
    }
}

/// A text without its leading and trailing white space.
pub open spec fn trimmed(text: Seq<char>) -> Seq<char> {
    trimmed_end(trimmed_start(text))
}

/// The first position of a character in a text, or the length of the text.
pub open spec fn position(text: Seq<char>, c: char) -> int
    decreases text.len(),
{
    if text.len() == 0 || text[0] == c {
        0
    } else {
        1 + position(text.skip(1), c)
    }
}

/// The length of the word that a text starts with.
pub open spec fn word_length(text: Seq<char>) -> int
    decreases text.len(),
{
    if text.len() == 0 || white_space(text[0]) {
        0
    } else {
        1 + word_length(text.skip(1))
    }
}

/// The words of a text: its longest runs without white space, in order.
pub open spec fn words(text: Seq<char>) -> Seq<Seq<char>>
    decreases text.len(),
{
    if text.len() == 0 {
        Seq::empty()
    } else if white_space(text[0]) {
        words(text.skip(1))
    } else {
        proof {
            lemma_word_length(text);
        }
        seq![text.take(word_length(text))] + words(text.skip(word_length(text)))
    }
}

/// The word at the start of a text ends at the text's end or before white space,
/// and holds none.
pub proof fn lemma_word_length(text: Seq<char>)
    ensures
        0 <= word_length(text) <= text.len(),
        forall|i: int| 0 <= i < word_length(text) ==> !white_space(#[trigger] text[i]),
        word_length(text) < text.len() ==> white_space(text[word_length(text)]),
        text.len() > 0 && !white_space(text[0]) ==> word_length(text) > 0,
    decreases text.len(),
{
    if text.len() > 0 && !white_space(text[0]) {
        lemma_word_length(text.skip(1));
        assert forall|i: int| 0 <= i < word_length(text) implies !white_space(#[trigger] text[i]) by {
            if i > 0 {
                assert(text[i] == text.skip(1)[i - 1]);
            }
        }
    }
}

/// A position with only earlier characters of a word before it, at which the word
/// ends, is the word's length.
pub proof fn lemma_word_length_is(text: Seq<char>, n: int)
    requires
        0 <= n <= text.len(),
        forall|i: int| 0 <= i < n ==> !white_space(#[trigger] text[i]),
        n < text.len() ==> white_space(text[n]),
    ensures
        word_length(text) == n,
    decreases n,
{
    if n > 0 {
        assert forall|i: int| 0 <= i < n - 1 implies !white_space(#[trigger] text.skip(1)[i]) by {
            assert(text.skip(1)[i] == text[i + 1]);
        }
        lemma_word_length_is(text.skip(1), n - 1);
    }
}

/// A text without its leading and trailing white space.
pub fn trim(text: &str) -> (rest: String)
    ensures
        rest@ == trimmed(text@),
{
    let chars = chars_of(text);
    let mut from: usize = 0;
    assert(text@.skip(0) =~= text@);
    while from < chars.len() && is_white_space(chars[from])
        invariant
            from <= chars@.len(),
            chars@ == text@,
            trimmed_start(text@) == trimmed_start(text@.skip(from as int)),
        decreases chars@.len() - from,
    {
        assert(text@.skip(from as int).skip(1) =~= text@.skip(from + 1));
        from = from + 1;
    }
    let ghost tail = text@.skip(from as int);
    assert(trimmed_start(text@) == tail);
    let mut to: usize = chars.len();
    assert(tail.take(to - from) =~= tail);
    while from < to && is_white_space(chars[to - 1])
        invariant
            from <= to <= chars@.len(),
            chars@ == text@,
            tail == text@.skip(from as int),
            trimmed_end(tail) == trimmed_end(tail.take(to - from)),
        decreases to,
    {
        assert(tail.take(to - from).drop_last() =~= tail.take(to - from - 1));
        to = to - 1;
    }
    assert(tail.take(to - from) =~= text@.subrange(from as int, to as int));
    text_between(&chars, from, to)
}

/// The words of a text.
pub fn split_words(text: &str) -> (found: Vec<String>)
    ensures
        views(found@) == words(text@),
{
    let chars = chars_of(text);
    let mut found: Vec<String> = Vec::new();
    let mut at: usize = 0;
    assert(text@.skip(0) =~= text@);
    while at < chars.len()
        invariant
            at <= chars@.len(),
            chars@ == text@,
            views(found@) + words(text@.skip(at as int)) == words(text@),
        decreases chars@.len() - at,
    {
        let ghost rest = text@.skip(at as int);
        if is_white_space(chars[at]) {
            assert(rest.skip(1) =~= text@.skip(at + 1));
            at = at + 1;
        } else {
            let mut end: usize = at;
            while end < chars.len() && !is_white_space(chars[end])
                invariant
                    at <= end <= chars@.len(),
                    chars@ == text@,
                    forall|i: int| at <= i < end ==> !white_space(#[trigger] text@[i]),
                decreases chars@.len() - end,
            {
                end = end + 1;
            }
            let ghost before = found@;
            let word = text_between(&chars, at, end);
            found.push(word);
            proof {
                lemma_word_length_is(rest, end - at);
                assert(rest.take(end - at) =~= text@.subrange(at as int, end as int));
                assert(rest.skip(end - at) =~= text@.skip(end as int));
                assert(views(found@) =~= views(before) + seq![word@]);
                assert(views(found@) + words(text@.skip(end as int)) =~= views(before) + words(
                    rest,
                ));
            }
            at = end;
        }
    }
    assert(views(found@) + words(text@.skip(at as int)) =~= views(found@));
    found
}

/// The first position of a character in a text, or the length of the text.
pub fn find_char(chars: &Vec<char>, c: char) -> (at: usize)
    ensures
        at == position(chars@, c),
        at <= chars@.len(),
{
    let mut at: usize = 0;
    assert(chars@.skip(0) =~= chars@);
    while at < chars.len() && chars[at] != c
        invariant
            at <= chars@.len(),
            position(chars@, c) == at + position(chars@.skip(at as int), c),
        decreases chars@.len() - at,
    {
        assert(chars@.skip(at as int).skip(1) =~= chars@.skip(at + 1));
        at = at + 1;
    }
    at
}

// ---------------------------------------------------------------------------
// Numerals
// ---------------------------------------------------------------------------
/// The character of a decimal digit.
pub open spec fn digit_char(digit: nat) -> char {
    (48 + digit) as char
}

/// A number in decimal, without leading zeros.
pub open spec fn decimal(n: nat) -> Seq<char>
    decreases n,
{
    if n < 10 {
        seq![digit_char(n)]
    } else {
        decimal(n / 10).push(digit_char(n % 10))
    }
}

/// A number in decimal, without leading zeros.
pub fn decimal_text(n: u128) -> (text: String)
    ensures
        text@ == decimal(n as nat),
    decreases n,
{
    if n < 10 {
        let mut text = String::new();
        text.push((48 + n as u8) as char);
        assert(text@ =~= seq![digit_char(n as nat)]);
        text
    } else {
        let mut text = decimal_text(n / 10);
        text.push((48 + (n % 10) as u8) as char);
        text
    }
}

// ---------------------------------------------------------------------------
// Order
// ---------------------------------------------------------------------------
/// The order of texts: by the first character that differs, a prefix first.
pub open spec fn text_less(left: Seq<char>, right: Seq<char>) -> bool
    decreases left.len(),
{
    if right.len() == 0 {
        false
    } else if left.len() == 0 {
        true
    } else if left[0] != right[0] {
        left[0] < right[0]
    } else {
        text_less(left.skip(1), right.skip(1))
    }
}

/// No text is less than itself.
pub proof fn lemma_text_less_irreflexive(text: Seq<char>)
    ensures
        !text_less(text, text),
    decreases text.len(),
{
    if text.len() > 0 {
        lemma_text_less_irreflexive(text.skip(1));
    }
}

/// The order of texts is transitive.
pub proof fn lemma_text_less_transitive(a: Seq<char>, b: Seq<char>, c: Seq<char>)
    requires
        text_less(a, b),
        text_less(b, c),
    ensures
        text_less(a, c),
    decreases a.len(),
{
    if a.len() > 0 && a[0] == b[0] && b[0] == c[0] {
        lemma_text_less_transitive(a.skip(1), b.skip(1), c.skip(1));
    }
}

/// Of two different texts one is less than the other.
pub proof fn lemma_text_less_total(a: Seq<char>, b: Seq<char>)
    ensures
        a == b || text_less(a, b) || text_less(b, a),
    decreases a.len(),
{
    if a.len() == 0 || b.len() == 0 {
        if a.len() == b.len() {
            assert(a =~= b);
        }
    } else if a[0] == b[0] {
        lemma_text_less_total(a.skip(1), b.skip(1));
        if a.skip(1) == b.skip(1) {
            assert forall|i: int| 0 <= i < a.len() implies a[i] == b[i] by {
                if i > 0 {
                    assert(a[i] == a.skip(1)[i - 1]);
                    assert(b[i] == b.skip(1)[i - 1]);
                }
            }
            assert(a.len() == a.skip(1).len() + 1);
            assert(b.len() == b.skip(1).len() + 1);
            assert(a =~= b);
        }
    }
}

/// Whether a text comes before another.
pub fn is_text_less(left: &str, right: &str) -> (less: bool)
    ensures
        less == text_less(left@, right@),
{
    let a = chars_of(left);
    let b = chars_of(right);
    let mut i: usize = 0;
    assert(a@.skip(0) =~= a@);
    assert(b@.skip(0) =~= b@);
    while i < a.len() && i < b.len() && a[i] == b[i]
        invariant
            i <= a@.len(),
            i <= b@.len(),
            text_less(a@, b@) == text_less(a@.skip(i as int), b@.skip(i as int)),
        decreases a@.len() - i,
    {
        assert(a@.skip(i as int).skip(1) =~= a@.skip(i + 1));
        assert(b@.skip(i as int).skip(1) =~= b@.skip(i + 1));
        i = i + 1;
    }
    if i >= b.len() {
        false
    } else if i >= a.len() {
        true
    } else {
        a[i] < b[i]
    }
}

// ---------------------------------------------------------------------------
// Laws of trimming and words
// ---------------------------------------------------------------------------
/// Whether a text is a word: not empty, and without white space.
pub open spec fn is_word(text: Seq<char>) -> bool {
    text.len() > 0 && forall|i: int| 0 <= i < text.len() ==> !white_space(#[trigger] text[i])
}

/// Whether a text neither starts nor ends with white space.
pub open spec fn is_trim(text: Seq<char>) -> bool {
    text.len() > 0 ==> !white_space(text[0]) && !white_space(text.last())
}

/// Trimming the end takes the white space off there, and nothing else.
proof fn lemma_trimmed_end(text: Seq<char>)
    ensures
        trimmed_end(text).len() <= text.len(),
        trimmed_end(text) == text.take(trimmed_end(text).len() as int),
        trimmed_end(text).len() > 0 ==> !white_space(trimmed_end(text).last()),
    decreases text.len(),
{
    if text.len() > 0 && white_space(text.last()) {
        lemma_trimmed_end(text.drop_last());
        assert(trimmed_end(text) =~= text.take(trimmed_end(text).len() as int));
    } else {
        assert(text =~= text.take(text.len() as int));
    }
}

/// Trimming the start takes the white space off there.
proof fn lemma_trimmed_start(text: Seq<char>)
    ensures
        trimmed_start(text).len() > 0 ==> !white_space(trimmed_start(text)[0]),
    decreases text.len(),
{
    if text.len() > 0 && white_space(text[0]) {
        lemma_trimmed_start(text.skip(1));
    }
}

/// A trimmed text neither starts nor ends with white space.
pub proof fn lemma_trimmed_is_trim(text: Seq<char>)
    ensures
        is_trim(trimmed(text)),
{
    lemma_trimmed_start(text);
    lemma_trimmed_end(trimmed_start(text));
}

/// Trimming changes nothing of a text that neither starts nor ends with white space,
/// so that trimming twice is trimming once.
pub proof fn lemma_trim_is_trimmed(text: Seq<char>)
    requires
        is_trim(text),
    ensures
        trimmed(text) == text,
{
}

/// Trimming takes a single white space off the end.
pub proof fn lemma_trimmed_after(text: Seq<char>, c: char)
    requires
        is_trim(text),
        white_space(c),
    ensures
        trimmed(text.push(c)) == text,
{
    let longer = text.push(c);
    assert(longer.drop_last() =~= text);
    if text.len() == 0 {
        assert(longer.skip(1) =~= text);
        assert(trimmed_start(longer) == trimmed_start(text));
    } else {
        assert(trimmed_start(longer) == longer);
        assert(trimmed_end(longer) == trimmed_end(text));
    }
}

/// A word is its only word.
pub proof fn lemma_one_word(text: Seq<char>)
    requires
        is_word(text),
    ensures
        words(text) == seq![text],
        is_trim(text),
{
    lemma_word_length_is(text, text.len() as int);
    assert(text.take(text.len() as int) =~= text);
    assert(words(text.skip(text.len() as int)) =~= Seq::empty());
    assert(!white_space(text[0]));
    assert(words(text) =~= seq![text]);
}

/// A space and a word more give a word more.
pub proof fn lemma_words_push(text: Seq<char>, word: Seq<char>)
    requires
        is_word(word),
    ensures
        words(text + " "@ + word) == words(text).push(word),
    decreases text.len(),
{
    reveal_strlit(" ");
    let longer = text + " "@ + word;
    if text.len() == 0 {
        assert(longer.skip(1) =~= word);
        lemma_one_word(word);
        assert(words(text).push(word) =~= seq![word]);
    } else if white_space(text[0]) {
        assert(longer.skip(1) =~= text.skip(1) + " "@ + word);
        lemma_words_push(text.skip(1), word);
    } else {
        let n = word_length(text);
        lemma_word_length(text);
        assert(forall|i: int| 0 <= i < n ==> longer[i] == text[i]);
        lemma_word_length_is(longer, n);
        assert(longer.take(n) =~= text.take(n));
        assert(longer.skip(n) =~= text.skip(n) + " "@ + word);
        lemma_words_push(text.skip(n), word);
        assert(words(longer) =~= words(text).push(word));
    }
}

/// The words of a text are words.
pub proof fn lemma_words_are_words(text: Seq<char>)
    ensures
        forall|i: int| 0 <= i < words(text).len() ==> is_word(#[trigger] words(text)[i]),
    decreases text.len(),
{
    if text.len() > 0 {
        if white_space(text[0]) {
            lemma_words_are_words(text.skip(1));
            assert(words(text) == words(text.skip(1)));
        } else {
            let n = word_length(text);
            lemma_word_length(text);
            lemma_words_are_words(text.skip(n));
            assert forall|i: int| 0 <= i < words(text).len() implies is_word(
                #[trigger] words(text)[i],
            ) by {
                if i > 0 {
                    assert(words(text)[i] == words(text.skip(n))[i - 1]);
                } else {
                    assert(words(text)[i] == text.take(n));
                }
            }
        }
    }
}

/// Words with a space between each two are the words of the whole, which holds no other
/// white space.
pub proof fn lemma_joined_words(parts: Seq<Seq<char>>)
    requires
        forall|i: int| 0 <= i < parts.len() ==> is_word(#[trigger] parts[i]),
    ensures
        words(joined(parts, " "@)) == parts,
        forall|i: int|
            0 <= i < joined(parts, " "@).len() ==> #[trigger] joined(parts, " "@)[i] == ' '
                || !white_space(joined(parts, " "@)[i]),
        joined(parts, " "@).len() == 0 ==> parts.len() == 0,
    decreases parts.len(),
{
    reveal_strlit(" ");
    if parts.len() == 0 {
        assert(words(joined(parts, " "@)) =~= parts);
    } else if parts.len() == 1 {
        lemma_one_word(parts[0]);
        assert(seq![parts[0]] =~= parts);
    } else {
        let front = parts.drop_last();
        assert forall|i: int| 0 <= i < front.len() implies is_word(#[trigger] front[i]) by {
            assert(front[i] == parts[i]);
        }
        lemma_joined_words(front);
        assert(is_word(parts[parts.len() - 1]));
        lemma_words_push(joined(front, " "@), parts.last());
        assert(front.push(parts.last()) =~= parts);
        let text = joined(parts, " "@);
        assert forall|i: int| 0 <= i < text.len() implies #[trigger] text[i] == ' '
            || !white_space(text[i]) by {
            let n = joined(front, " "@).len();
            if i < n {
                assert(text[i] == joined(front, " "@)[i]);
            } else if i > n {
                assert(text[i] == parts.last()[i - n - 1]);
            }
        }
    }
}

} // verus!
