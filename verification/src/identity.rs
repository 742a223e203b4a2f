//! The parts of a name, the slug that stands for it, and the choice of names.

use crate::error::{Error, ErrorView};
use crate::text::{
    ascii_digit, ascii_letter, ascii_lower, ascii_upper, chars_of, decimal, decimal_text,
    is_ascii_digit, is_ascii_letter, is_word, lemma_one_word, lemma_trim_is_trimmed,
    lemma_words_push, lower_char, lowered, same_text, slice_view, split_words, title_word, titled,
    to_lower, to_lower_char, trim, trimmed, upper_char, views, white_space, words,
};
use sha2::Digest;
use vstd::prelude::*;
use vstd::string::StringExecFns;
use vstd::utf8::encode_utf8;

verus! {

// ---------------------------------------------------------------------------
// The parts of a name
// ---------------------------------------------------------------------------
/// A character that can stand inside a part of a name.
pub open spec fn component_char(c: char) -> bool {
    ascii_letter(c) || c == '-' || c == '\''
}

/// Whether a text can be a part of a name: letters, hyphens and apostrophes, with a
/// letter at either end.
pub open spec fn is_component(text: Seq<char>) -> bool {
    &&& text.len() > 0
    &&& forall|i: int| 0 <= i < text.len() ==> component_char(#[trigger] text[i])
    &&& ascii_letter(text[0])
    &&& ascii_letter(text.last())
}

/// Whether a text can be a part of a name.
pub fn valid_component(text: &str) -> (valid: bool)
    ensures
        valid == is_component(text@),
{
    let chars = chars_of(text);
    let mut valid: bool = chars.len() > 0 && is_ascii_letter(chars[0]) && is_ascii_letter(
        chars[chars.len() - 1],
    );
    let mut i: usize = 0;
    while i < chars.len()
        invariant
            i <= chars@.len(),
            valid == (chars@.len() > 0 && ascii_letter(chars@[0]) && ascii_letter(chars@.last())
                && forall|j: int| 0 <= j < i ==> component_char(#[trigger] chars@[j])),
        decreases chars@.len() - i,
    {
        let c = chars[i];
        valid = valid && (is_ascii_letter(c) || c == '-' || c == '\'');
        i = i + 1;
    }
    valid
}

/// The part of a name that a text gives, if it gives one.
pub open spec fn component(value: Seq<char>) -> Option<Seq<char>> {
    if is_component(trimmed(value)) {
        Some(titled(trimmed(value)))
    } else {
        None
    }
}

/// The part of a name that a text gives: without white space around it, and in title
/// case.
pub fn normalize_component(value: &str, kind: &str) -> (part: Result<String, Error>)
    ensures
        match part {
            Ok(text) => component(value@) == Some(text@),
            Err(error) => component(value@) is None && error@ == (ErrorView::InvalidComponent {
                kind: kind@,
            }),
        },
{
    let value = trim(value);
    if !valid_component(value.as_str()) {
        return Err(Error::InvalidComponent { kind: kind.to_owned() });
    }
    Ok(title_word(value.as_str()))
}

/// The name of an identity.
pub open spec fn full_name(first: Seq<char>, family: Seq<char>, realm: Seq<char>) -> Seq<char> {
    first + " "@ + family + " of "@ + realm
}

/// The name of an identity.
pub fn name_text(first_name: &str, family_name: &str, realm: &str) -> (name: String)
    ensures
        name@ == full_name(first_name@, family_name@, realm@),
{
    let mut name = first_name.to_owned();
    name.append(" ");
    name.append(family_name);
    name.append(" of ");
    name.append(realm);
    name
}

// ---------------------------------------------------------------------------
// Slugs
// ---------------------------------------------------------------------------
/// A character as it stands in a slug.
pub open spec fn slug_char(c: char) -> char {
    if c == ' ' || c == '\'' || c == '_' {
        '-'
    } else {
        lower_char(c)
    }
}

/// A part of a name as it stands in a slug.
pub open spec fn slug_part(text: Seq<char>) -> Seq<char> {
    Seq::new(text.len(), |i: int| slug_char(text[i]))
}

/// The slug of a name.
pub open spec fn slug_of(first: Seq<char>, family: Seq<char>, realm: Seq<char>) -> Seq<char> {
    slug_part(first) + "-"@ + slug_part(family) + "-"@ + slug_part(realm)
}

/// A part of a name as it stands in a slug.
fn slug_part_text(part: &str) -> (text: String)
    ensures
        text@ == slug_part(part@),
{
    let chars = chars_of(part);
    let mut text = String::new();
    let mut i: usize = 0;
    while i < chars.len()
        invariant
            i <= chars@.len(),
            chars@ == part@,
            text@ == slug_part(part@).take(i as int),
        decreases chars@.len() - i,
    {
        let c = chars[i];
        assert(slug_part(part@).take(i as int).push(slug_char(c)) =~= slug_part(part@).take(i + 1));
        if c == ' ' || c == '\'' || c == '_' {
            text.push('-');
        } else {
            text.push(to_lower_char(c));
        }
        i = i + 1;
    }
    assert(slug_part(part@).take(i as int) =~= slug_part(part@));
    text
}

/// The slug of a name.
pub fn slug(first_name: &str, family_name: &str, realm: &str) -> (text: String)
    ensures
        text@ == slug_of(first_name@, family_name@, realm@),
{
    let mut text = slug_part_text(first_name);
    text.append("-");
    text.append(slug_part_text(family_name).as_str());
    text.append("-");
    text.append(slug_part_text(realm).as_str());
    text
}

/// Whether a text has the form of a slug, in any case.
pub open spec fn slug_shaped(text: Seq<char>) -> bool {
    &&& text.len() > 0
    &&& text[0] != '-'
    &&& text.last() != '-'
    &&& forall|i: int|
        0 <= i < text.len() ==> ascii_letter(#[trigger] text[i]) || ascii_digit(text[i]) || text[i]
            == '-'
}

/// Whether a text has the form of a slug, in any case.
pub fn is_slug(input: &str) -> (yes: bool)
    ensures
        yes == slug_shaped(input@),
{
    let chars = chars_of(input);
    if chars.len() == 0 || chars[0] == '-' || chars[chars.len() - 1] == '-' {
        return false;
    }
    let mut i: usize = 0;
    while i < chars.len()
        invariant
            i <= chars@.len(),
            chars@ == input@,
            forall|j: int|
                0 <= j < i ==> ascii_letter(#[trigger] input@[j]) || ascii_digit(input@[j])
                    || input@[j] == '-',
        decreases chars@.len() - i,
    {
        if !(is_ascii_letter(chars[i]) || is_ascii_digit(chars[i]) || chars[i] == '-') {
            return false;
        }
        i = i + 1;
    }
    true
}

/// The slug of the name that a text spells out, if it spells one.
pub open spec fn name_slug(input: Seq<char>) -> Option<Seq<char>> {
    let parts = words(input);
    if parts.len() == 4 && component(parts[0]) is Some && component(parts[1]) is Some && lowered(
        parts[2],
    ) == "of"@ && component(parts[3]) is Some {
        Some(
            slug_of(component(parts[0])->0, component(parts[1])->0, component(parts[3])->0),
        )
    } else {
        None
    }
}

/// The slug of the name that a text spells out, if it spells one.
pub fn canonical_name_slug(input: &str) -> (found: Option<String>)
    ensures
        match found {
            Some(text) => name_slug(input@) == Some(text@),
            None => name_slug(input@) is None,
        },
{
    let parts = split_words(input);
    assert(forall|i: int| 0 <= i < parts@.len() ==> views(parts@)[i] == (#[trigger] parts@[i])@);
    if parts.len() != 4 {
        return None;
    }
    let first = match normalize_component(parts[0].as_str(), "first name") {
        Ok(first) => first,
        Err(_) => return None,
    };
    let family = match normalize_component(parts[1].as_str(), "family name") {
        Ok(family) => family,
        Err(_) => return None,
    };
    if !same_text(to_lower(parts[2].as_str()).as_str(), "of") {
        return None;
    }
    let realm = match normalize_component(parts[3].as_str(), "realm") {
        Ok(realm) => realm,
        Err(_) => return None,
    };
    Some(slug(first.as_str(), family.as_str(), realm.as_str()))
}

/// The slugs to look for when a text is looked up.
pub open spec fn slugs_for(input: Seq<char>) -> Seq<Seq<char>> {
    let text = trimmed(input);
    let shaped = if slug_shaped(text) {
        seq![lowered(text)]
    } else {
        Seq::empty()
    };
    match name_slug(text) {
        Some(spelled) => if shaped.contains(spelled) {
            shaped
        } else {
            shaped.push(spelled)
        },
        None => shaped,
    }
}

/// The slugs to look for when a text is looked up.
pub fn lookup_slugs(input: &str) -> (slugs: Vec<String>)
    ensures
        views(slugs@) == slugs_for(input@),
{
    let mut slugs: Vec<String> = Vec::new();
    let text = trim(input);
    if is_slug(text.as_str()) {
        slugs.push(to_lower(text.as_str()));
    }
    let ghost shaped = views(slugs@);
    assert(shaped =~= if slug_shaped(text@) {
        seq![lowered(text@)]
    } else {
        Seq::empty()
    });
    match canonical_name_slug(text.as_str()) {
        Some(spelled) => {
            if slugs.len() == 1 && same_text(slugs[0].as_str(), spelled.as_str()) {
                assert(shaped[0] == spelled@);
            } else {
                assert(!shaped.contains(spelled@));
                slugs.push(spelled);
                assert(views(slugs@) =~= shaped.push(spelled@));
            }
        },
        None => {},
    }
    slugs
}

// ---------------------------------------------------------------------------
// The choice of names
// ---------------------------------------------------------------------------
/// The digest that the function SHA-256 gives some bytes.
pub uninterp spec fn sha256_digest(data: Seq<u8>) -> Seq<u8>;

/// Calls `sha2::Sha256::digest`. The digest depends on the bytes alone and is 32
/// bytes long.
#[verifier::external_body]
fn sha256(data: &[u8]) -> (digest: Vec<u8>)
    ensures
        digest@ == sha256_digest(data@),
        digest@.len() == 32,
{
    sha2::Sha256::digest(data).to_vec()
}

/// The digest of a text.
pub open spec fn text_digest(text: Seq<char>) -> Seq<u8> {
    sha256_digest(encode_utf8(text))
}

/// The digest of a text.
pub fn digest_of_text(text: &str) -> (digest: Vec<u8>)
    ensures
        digest@ == text_digest(text@),
        digest@.len() == 32,
{
    sha256(text.as_bytes())
}

/// The number that some bytes tell, the first counting most.
pub open spec fn big_endian(bytes: Seq<u8>) -> nat
    decreases bytes.len(),
{
    if bytes.len() == 0 {
        0
    } else {
        256 * big_endian(bytes.drop_last()) + bytes.last() as nat
    }
}

/// The position in a list of some length that eight bytes choose: the number that
/// they tell, or zero where a `usize` cannot hold it, wrapped round the list.
pub open spec fn chosen_index(bytes: Seq<u8>, length: nat) -> nat {
    (if big_endian(bytes) <= usize::MAX {
        big_endian(bytes)
    } else {
        0
    }) % length
}

/// A number of up to eight bytes is below the power of 256.
proof fn lemma_big_endian_bound(bytes: Seq<u8>)
    requires
        bytes.len() <= 8,
    ensures
        big_endian(bytes) < 0x1_0000_0000_0000_0000,
        bytes.len() <= 7 ==> big_endian(bytes) < 0x100_0000_0000_0000,
        bytes.len() <= 6 ==> big_endian(bytes) < 0x1_0000_0000_0000,
        bytes.len() <= 5 ==> big_endian(bytes) < 0x100_0000_0000,
        bytes.len() <= 4 ==> big_endian(bytes) < 0x1_0000_0000,
        bytes.len() <= 3 ==> big_endian(bytes) < 0x100_0000,
        bytes.len() <= 2 ==> big_endian(bytes) < 0x1_0000,
        bytes.len() <= 1 ==> big_endian(bytes) < 0x100,
        bytes.len() == 0 ==> big_endian(bytes) == 0,
    decreases bytes.len(),
{
    if bytes.len() > 0 {
        lemma_big_endian_bound(bytes.drop_last());
    }
}

/// The position in a list that eight bytes of a digest choose.
pub fn choose_index(digest: &Vec<u8>, from: usize, length: usize) -> (index: usize)
    requires
        from + 8 <= digest@.len(),
        length > 0,
    ensures
        index == chosen_index(digest@.subrange(from as int, from + 8), length as nat),
        index < length,
{
    let ghost bytes = digest@.subrange(from as int, from + 8);
    let available: usize = digest.len();
    let mut number: u64 = 0;
    let mut i: usize = 0;
    while i < 8
        invariant
            i <= 8,
            from + 8 <= available,
            available == digest@.len(),
            bytes == digest@.subrange(from as int, from + 8),
            number == big_endian(bytes.take(i as int)),
        decreases 8 - i,
    {
        proof {
            lemma_big_endian_bound(bytes.take(i as int));
            assert(bytes.take(i + 1).drop_last() =~= bytes.take(i as int));
            lemma_big_endian_bound(bytes.take(i + 1));
        }
        number = number * 256 + digest[from + i] as u64;
        i = i + 1;
    }
    assert(bytes.take(8) =~= bytes);
    let word: usize = if number <= usize::MAX as u64 {
        number as usize
    } else {
        0
    };
    word % length
}

/// The names that a digest chooses: a first name, and the family name asked for or
/// else one of the list.
pub open spec fn names_chosen(
    digest: Seq<u8>,
    first_names: Seq<Seq<char>>,
    family_names: Seq<Seq<char>>,
    requested_family: Option<Seq<char>>,
) -> (Seq<char>, Seq<char>) {
    (
        first_names[chosen_index(digest.subrange(0, 8), first_names.len()) as int],
        match requested_family {
            Some(family) => family,
            None => family_names[chosen_index(
                digest.subrange(8, 16),
                family_names.len(),
            ) as int],
        },
    )
}

/// The names that a digest chooses.
pub fn candidate_from_digest(
    digest: &Vec<u8>,
    first_names: &Vec<String>,
    family_names: &Vec<String>,
    requested_family: Option<&str>,
) -> (names: (String, String))
    requires
        digest@.len() >= 16,
        first_names@.len() > 0,
        family_names@.len() > 0,
    ensures
        (names.0@, names.1@) == names_chosen(
            digest@,
            views(first_names@),
            views(family_names@),
            slice_view(requested_family),
        ),
{
    let first_index = choose_index(digest, 0, first_names.len());
    let family_index = choose_index(digest, 8, family_names.len());
    let family = match requested_family {
        Some(family) => family.to_owned(),
        None => family_names[family_index].clone(),
    };
    (first_names[first_index].clone(), family)
}

/// The text whose digest chooses the names of an attempt.
pub open spec fn attempt_text(session_id: Seq<char>, attempt: nat) -> Seq<char> {
    session_id + ":"@ + decimal(attempt)
}

/// The names of one attempt to find a name for a session.
pub open spec fn names_tried(
    session_id: Seq<char>,
    attempt: nat,
    first_names: Seq<Seq<char>>,
    family_names: Seq<Seq<char>>,
    requested_family: Option<Seq<char>>,
) -> (Seq<char>, Seq<char>) {
    names_chosen(
        text_digest(attempt_text(session_id, attempt)),
        first_names,
        family_names,
        requested_family,
    )
}

/// The names of one attempt to find a name for a session.
pub fn candidate(
    session_id: &str,
    attempt: u64,
    first_names: &Vec<String>,
    family_names: &Vec<String>,
    requested_family: Option<&str>,
) -> (names: (String, String))
    requires
        first_names@.len() > 0,
        family_names@.len() > 0,
    ensures
        (names.0@, names.1@) == names_tried(
            session_id@,
            attempt as nat,
            views(first_names@),
            views(family_names@),
            slice_view(requested_family),
        ),
{
    let mut text = session_id.to_owned();
    text.append(":");
    text.append(decimal_text(attempt as u128).as_str());
    let digest = digest_of_text(text.as_str());
    candidate_from_digest(&digest, first_names, family_names, requested_family)
}

// ---------------------------------------------------------------------------
// Laws of names and slugs
// ---------------------------------------------------------------------------
/// Whether a text is a part of a name in the form in which it is kept.
pub open spec fn is_part(text: Seq<char>) -> bool {
    component(text) == Some(text)
}

/// The case of a letter changes, and of nothing else.
proof fn lemma_cases(c: char)
    ensures
        ascii_letter(c) ==> ascii_lower(lower_char(c)) && ascii_upper(upper_char(c)),
        !ascii_letter(c) ==> lower_char(c) == c && upper_char(c) == c,
        component_char(c) ==> component_char(lower_char(c)) && component_char(upper_char(c)),
        lower_char(lower_char(c)) == lower_char(c),
        upper_char(upper_char(c)) == upper_char(c),
{
}

/// The title case of a part of a name is one, and in title case.
pub proof fn lemma_titled_component(text: Seq<char>)
    requires
        is_component(text),
    ensures
        is_component(titled(text)),
        titled(titled(text)) == titled(text),
        is_word(titled(text)),
{
    let title = titled(text);
    assert(title.len() == text.len());
    assert forall|i: int| 0 <= i < title.len() implies component_char(#[trigger] title[i])
        && !white_space(title[i]) && title[i] == if i == 0 {
        upper_char(text[0])
    } else {
        lower_char(text[i])
    } by {
        lemma_cases(text[i]);
    }
    lemma_cases(text[0]);
    lemma_cases(text.last());
    assert(titled(title) =~= title) by {
        assert forall|i: int| 0 <= i < title.len() implies titled(title)[i] == title[i] by {
            lemma_cases(text[i]);
        }
    }
}

/// A part of a name, once normalized, stays as it is.
pub proof fn lemma_component_idempotent(value: Seq<char>)
    requires
        component(value) is Some,
    ensures
        is_part(component(value)->0),
{
    let part = component(value)->0;
    lemma_titled_component(trimmed(value));
    lemma_one_word(part);
    lemma_trim_is_trimmed(part);
}

/// A part of a name is a word.
pub proof fn lemma_part_is_word(part: Seq<char>)
    requires
        is_part(part),
    ensures
        is_word(part),
        is_component(part),
{
    lemma_titled_component(trimmed(part));
}

/// A full name has four words, and spells out its own slug, which is the only one to
/// look for.
pub proof fn lemma_name_spells_slug(first: Seq<char>, family: Seq<char>, realm: Seq<char>)
    requires
        is_part(first),
        is_part(family),
        is_part(realm),
    ensures
        words(full_name(first, family, realm)) == seq![first, family, "of"@, realm],
        name_slug(full_name(first, family, realm)) == Some(slug_of(first, family, realm)),
        slugs_for(full_name(first, family, realm)) == seq![slug_of(first, family, realm)],
        trimmed(full_name(first, family, realm)) == full_name(first, family, realm),
{
    let name = full_name(first, family, realm);
    let slug = slug_of(first, family, realm);
    reveal_strlit(" ");
    reveal_strlit(" of ");
    reveal_strlit("of");
    lemma_part_is_word(first);
    lemma_part_is_word(family);
    lemma_part_is_word(realm);
    assert(name =~= first + " "@ + family + " "@ + "of"@ + " "@ + realm);
    assert(is_word("of"@)) by {
        assert("of"@[0] == 'o' && "of"@[1] == 'f');
    }
    lemma_one_word(first);
    lemma_words_push(first, family);
    lemma_words_push(first + " "@ + family, "of"@);
    lemma_words_push(first + " "@ + family + " "@ + "of"@, realm);
    assert(words(name) =~= seq![first, family, "of"@, realm]);
    assert(lowered("of"@) =~= "of"@);
    assert(name[0] == first[0]);
    assert(name.last() == realm.last());
    lemma_trim_is_trimmed(name);
    assert(name[first.len() as int] == ' ');
    assert(!slug_shaped(name));
    assert(slugs_for(name) =~= seq![slug]);
}

/// What a part of a name is in a slug.
proof fn lemma_slug_part(part: Seq<char>)
    requires
        is_part(part),
    ensures
        slug_part(part).len() > 0,
        ascii_lower(slug_part(part)[0]),
        ascii_lower(slug_part(part).last()),
        forall|i: int|
            0 <= i < slug_part(part).len() ==> ascii_lower(#[trigger] slug_part(part)[i])
                || slug_part(part)[i] == '-',
{
    lemma_part_is_word(part);
    lemma_cases(part[0]);
    lemma_cases(part.last());
    assert forall|i: int| 0 <= i < slug_part(part).len() implies ascii_lower(
        #[trigger] slug_part(part)[i],
    ) || slug_part(part)[i] == '-' by {
        lemma_cases(part[i]);
    }
}

/// The slug of a name holds lower-case letters and hyphens, and starts and ends with a
/// letter.
pub proof fn lemma_slug_letters(first: Seq<char>, family: Seq<char>, realm: Seq<char>)
    requires
        is_part(first),
        is_part(family),
        is_part(realm),
    ensures
        slug_of(first, family, realm).len() > 2,
        ascii_lower(slug_of(first, family, realm)[0]),
        ascii_lower(slug_of(first, family, realm).last()),
        forall|i: int|
            0 <= i < slug_of(first, family, realm).len() ==> ascii_lower(
                #[trigger] slug_of(first, family, realm)[i],
            ) || slug_of(first, family, realm)[i] == '-',
{
    reveal_strlit("-");
    let slug = slug_of(first, family, realm);
    let a = slug_part(first);
    let b = slug_part(family);
    let c = slug_part(realm);
    lemma_slug_part(first);
    lemma_slug_part(family);
    lemma_slug_part(realm);
    assert(slug[0] == a[0]);
    assert(slug.last() == c.last());
    assert forall|i: int| 0 <= i < slug.len() implies ascii_lower(#[trigger] slug[i]) || slug[i]
        == '-' by {
        let m = a.len();
        let n = a.len() + 1 + b.len();
        if i < m {
            assert(slug[i] == a[i]);
        } else if m < i < n {
            assert(slug[i] == b[i - m - 1]);
        } else if n < i {
            assert(slug[i] == c[i - n - 1]);
        }
    }
}

/// The slug of a name is the only one to look for when it is looked up itself.
pub proof fn lemma_slug_is_sought(first: Seq<char>, family: Seq<char>, realm: Seq<char>)
    requires
        is_part(first),
        is_part(family),
        is_part(realm),
    ensures
        is_word(slug_of(first, family, realm)),
        trimmed(slug_of(first, family, realm)) == slug_of(first, family, realm),
        slugs_for(slug_of(first, family, realm)) == seq![slug_of(first, family, realm)],
{
    let slug = slug_of(first, family, realm);
    lemma_slug_letters(first, family, realm);
    lemma_one_word(slug);
    lemma_trim_is_trimmed(slug);
    assert(lowered(slug) =~= slug);
    assert(slug_shaped(slug));
    assert(name_slug(slug) is None);
}

} // verus!
