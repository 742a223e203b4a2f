//! Which values are accepted, and in what form.

use crate::error::{Error, ErrorView};
use crate::json::{json_views, lemma_json_views_insert, parsed_json, Json, JsonView};
use crate::text::{
    ascii_digit, ascii_letter, ascii_lower, chars_of, control, find_char, is_ascii_digit,
    is_ascii_letter, is_ascii_lower, is_control, is_word, join_texts, joined, lemma_joined_words,
    lemma_one_word, lemma_trim_is_trimmed, lemma_trimmed_is_trim, lemma_words_are_words, position,
    same_text, split_words, text_between, trim, trimmed, views, white_space, words,
};
use crate::text_map::TextMap;
use vstd::prelude::*;
use vstd::utf8::encode_utf8;

verus! {

/// The most characters that the owner of an extension has.
pub const MAX_EXTENSION_OWNER_CHARS: usize = 64;

/// The most bytes that the JSON text of an extension has.
pub const MAX_EXTENSION_JSON_BYTES: usize = 16384;

/// The most characters that a summary has.
pub const MAX_SUMMARY_CHARS: usize = 240;

/// The most characters that a working directory has.
pub const MAX_CWD_CHARS: usize = 4096;

/// A result over the views of its text and its error.
pub open spec fn text_outcome(result: Result<String, Error>) -> Result<Seq<char>, ErrorView> {
    match result {
        Ok(text) => Ok(text@),
        Err(error) => Err(error@),
    }
}

// ---------------------------------------------------------------------------
// Values that are not blank
// ---------------------------------------------------------------------------
/// A value without white space around it, where it is not blank.
pub open spec fn nonempty(value: Seq<char>, kind: Seq<char>) -> Result<Seq<char>, ErrorView> {
    if trimmed(value).len() == 0 {
        Err(ErrorView::Empty { kind })
    } else {
        Ok(trimmed(value))
    }
}

/// A value without white space around it, where it is not blank.
pub fn require_nonempty(value: &str, kind: &str) -> (text: Result<String, Error>)
    ensures
        text_outcome(text) == nonempty(value@, kind@),
{
    let value = trim(value);
    if value.as_str().is_empty() {
        return Err(Error::Empty { kind: kind.to_owned() });
    }
    Ok(value)
}

/// Whether a text is given that is not blank.
pub open spec fn said(text: Option<Seq<char>>) -> bool {
    text is Some && trimmed(text->0).len() > 0
}

/// The text that is given, where it is not blank.
pub fn spoken<'a>(text: Option<&'a str>) -> (found: Option<&'a str>)
    ensures
        match text {
            Some(text) => found == if trimmed(text@).len() > 0 {
                Some(text)
            } else {
                None
            },
            None => found is None,
        },
{
    match text {
        Some(text) => if trim(text).as_str().is_empty() {
            None
        } else {
            Some(text)
        },
        None => None,
    }
}

/// A text that is given, as a slice.
pub fn as_slice(text: &Option<String>) -> (slice: Option<&str>)
    ensures
        match text {
            Some(text) => slice is Some && slice->0@ == text@,
            None => slice is None,
        },
{
    match text {
        Some(text) => Some(text.as_str()),
        None => None,
    }
}

// ---------------------------------------------------------------------------
// Session IDs
// ---------------------------------------------------------------------------
/// A character that can stand in a session ID.
pub open spec fn session_id_char(c: char) -> bool {
    ascii_letter(c) || ascii_digit(c) || c == '-' || c == '_' || c == '.'
}

/// Whether a text is a session ID: it can be a file name on its own.
pub open spec fn is_session_id(text: Seq<char>) -> bool {
    &&& text.len() > 0
    &&& forall|i: int| 0 <= i < text.len() ==> session_id_char(#[trigger] text[i])
    &&& text != "."@
    &&& text != ".."@
}

/// The session ID that a value gives.
pub open spec fn session_id(value: Seq<char>) -> Result<Seq<char>, ErrorView> {
    match nonempty(value, "session ID"@) {
        Ok(text) => if is_session_id(text) {
            Ok(text)
        } else {
            Err(ErrorView::UnsafeSessionId)
        },
        Err(error) => Err(error),
    }
}

/// The session ID that a value gives.
pub fn validate_session_id(value: &str) -> (text: Result<String, Error>)
    ensures
        text_outcome(text) == session_id(value@),
{
    let value = match require_nonempty(value, "session ID") {
        Ok(value) => value,
        Err(error) => return Err(error),
    };
    let chars = chars_of(value.as_str());
    let mut safe = true;
    let mut i: usize = 0;
    while i < chars.len()
        invariant
            i <= chars@.len(),
            safe == forall|j: int| 0 <= j < i ==> session_id_char(#[trigger] chars@[j]),
        decreases chars@.len() - i,
    {
        let c = chars[i];
        safe = safe && (is_ascii_letter(c) || is_ascii_digit(c) || c == '-' || c == '_' || c
            == '.');
        i = i + 1;
    }
    if !safe || same_text(value.as_str(), ".") || same_text(value.as_str(), "..") {
        return Err(Error::UnsafeSessionId);
    }
    Ok(value)
}

// ---------------------------------------------------------------------------
// Summaries and working directories
// ---------------------------------------------------------------------------
/// The summary that a value gives: its words, with one space between each two.
pub open spec fn summary_text(value: Seq<char>) -> Result<Seq<char>, ErrorView> {
    let text = joined(words(value), " "@);
    if text.len() == 0 {
        Err(ErrorView::Empty { kind: "summary"@ })
    } else if text.len() > MAX_SUMMARY_CHARS {
        Err(ErrorView::SummaryTooLong)
    } else {
        Ok(text)
    }
}

/// The summary that a value gives.
pub fn normalize_summary(value: &str) -> (text: Result<String, Error>)
    ensures
        text_outcome(text) == summary_text(value@),
{
    let words = split_words(value);
    let text = join_texts(&words, " ");
    let length = chars_of(text.as_str()).len();
    if length == 0 {
        return Err(Error::Empty { kind: "summary".to_owned() });
    }
    if length > MAX_SUMMARY_CHARS {
        return Err(Error::SummaryTooLong);
    }
    Ok(text)
}

/// The working directory that a value gives.
pub open spec fn cwd_text(value: Seq<char>) -> Result<Seq<char>, ErrorView> {
    match nonempty(value, "working directory"@) {
        Ok(text) => if exists|i: int| 0 <= i < text.len() && control(#[trigger] text[i]) {
            Err(ErrorView::CwdControl)
        } else if text.len() > MAX_CWD_CHARS {
            Err(ErrorView::CwdTooLong)
        } else {
            Ok(text)
        },
        Err(error) => Err(error),
    }
}

/// The working directory that a value gives.
pub fn normalize_cwd(value: &str) -> (cwd: Result<String, Error>)
    ensures
        text_outcome(cwd) == cwd_text(value@),
{
    let text = match require_nonempty(value, "working directory") {
        Ok(text) => text,
        Err(error) => return Err(error),
    };
    let chars = chars_of(text.as_str());
    let mut i: usize = 0;
    while i < chars.len()
        invariant
            i <= chars@.len(),
            chars@ == text@,
            nonempty(value@, "working directory"@) == Ok::<Seq<char>, ErrorView>(text@),
            forall|j: int| 0 <= j < i ==> !control(#[trigger] text@[j]),
        decreases chars@.len() - i,
    {
        if is_control(chars[i]) {
            assert(control(text@[i as int]));
            return Err(Error::CwdControl);
        }
        i = i + 1;
    }
    if chars.len() > MAX_CWD_CHARS {
        return Err(Error::CwdTooLong);
    }
    Ok(text)
}

// ---------------------------------------------------------------------------
// Extensions
// ---------------------------------------------------------------------------
/// A character that can stand in the name of an extension's owner.
pub open spec fn owner_char(c: char) -> bool {
    ascii_lower(c) || ascii_digit(c) || c == '.' || c == '_' || c == '-'
}

/// Whether a text is the name of an extension's owner.
pub open spec fn is_owner(text: Seq<char>) -> bool {
    &&& 0 < text.len() <= MAX_EXTENSION_OWNER_CHARS
    &&& ascii_lower(text[0]) || ascii_digit(text[0])
    &&& forall|i: int| 0 <= i < text.len() ==> owner_char(#[trigger] text[i])
}

/// The owner of an extension that a value gives.
pub open spec fn extension_owner(value: Seq<char>) -> Result<Seq<char>, ErrorView> {
    match nonempty(value, "extension owner"@) {
        Ok(text) => if is_owner(text) {
            Ok(text)
        } else {
            Err(ErrorView::InvalidExtensionOwner)
        },
        Err(error) => Err(error),
    }
}

/// The owner of an extension that a value gives.
pub fn normalize_extension_owner(value: &str) -> (owner: Result<String, Error>)
    ensures
        text_outcome(owner) == extension_owner(value@),
{
    let owner = match require_nonempty(value, "extension owner") {
        Ok(owner) => owner,
        Err(error) => return Err(error),
    };
    let chars = chars_of(owner.as_str());
    let mut valid = chars.len() <= MAX_EXTENSION_OWNER_CHARS && (is_ascii_lower(chars[0])
        || is_ascii_digit(chars[0]));
    let mut i: usize = 0;
    while i < chars.len()
        invariant
            i <= chars@.len(),
            chars@.len() > 0,
            valid == (chars@.len() <= MAX_EXTENSION_OWNER_CHARS && (ascii_lower(chars@[0])
                || ascii_digit(chars@[0])) && forall|j: int|
                0 <= j < i ==> owner_char(#[trigger] chars@[j])),
        decreases chars@.len() - i,
    {
        let c = chars[i];
        valid = valid && (is_ascii_lower(c) || is_ascii_digit(c) || c == '.' || c == '_' || c
            == '-');
        i = i + 1;
    }
    if !valid {
        return Err(Error::InvalidExtensionOwner);
    }
    Ok(owner)
}

/// Some extensions with one more, whose JSON text was read.
pub open spec fn extension_added(
    extensions: Map<Seq<char>, JsonView>,
    owner: Seq<char>,
    parsed: Result<JsonView, Seq<char>>,
) -> Result<Map<Seq<char>, JsonView>, ErrorView> {
    match parsed {
        Err(cause) => Err(ErrorView::ExtensionJson { owner, cause }),
        Ok(data) => if extensions.contains_key(owner) {
            Err(ErrorView::ExtensionRepeated { owner })
        } else {
            Ok(extensions.insert(owner, data))
        },
    }
}

/// Some extensions with the one that an argument `OWNER=JSON` gives.
pub open spec fn extension_parsed(
    extensions: Map<Seq<char>, JsonView>,
    value: Seq<char>,
) -> Result<Map<Seq<char>, JsonView>, ErrorView> {
    let at = position(value, '=');
    if at == value.len() {
        Err(ErrorView::ExtensionSyntax)
    } else {
        let text = value.skip(at + 1);
        match extension_owner(value.take(at)) {
            Err(error) => Err(error),
            Ok(owner) => if encode_utf8(text).len() > MAX_EXTENSION_JSON_BYTES {
                Err(ErrorView::ExtensionTooLarge { owner })
            } else {
                extension_added(extensions, owner, parsed_json(text))
            },
        }
    }
}

/// The extensions that some arguments `OWNER=JSON` give, one after the other.
pub open spec fn extensions_parsed(values: Seq<Seq<char>>) -> Result<
    Map<Seq<char>, JsonView>,
    ErrorView,
>
    decreases values.len(),
{
    if values.len() == 0 {
        Ok(Map::empty())
    } else {
        match extensions_parsed(values.drop_last()) {
            Err(error) => Err(error),
            Ok(extensions) => extension_parsed(extensions, values.last()),
        }
    }
}

/// A result over the views of its JSON value or message.
pub open spec fn json_outcome(result: Result<Json, String>) -> Result<JsonView, Seq<char>> {
    match result {
        Ok(json) => Ok(json@),
        Err(cause) => Err(cause@),
    }
}

/// A result over the views of its extensions and its error.
pub open spec fn extensions_outcome(result: Result<TextMap<Json>, Error>) -> Result<
    Map<Seq<char>, JsonView>,
    ErrorView,
> {
    match result {
        Ok(extensions) => Ok(json_views(extensions@)),
        Err(error) => Err(error@),
    }
}

/// Adds an extension whose JSON text was read.
pub fn add_extension(
    extensions: TextMap<Json>,
    owner: String,
    parsed: Result<Json, String>,
) -> (added: Result<TextMap<Json>, Error>)
    ensures
        extensions_outcome(added) == extension_added(
            json_views(extensions@),
            owner@,
            json_outcome(parsed),
        ),
{
    match parsed {
        Err(cause) => Err(Error::ExtensionJson { owner, cause }),
        Ok(data) => {
            let mut extensions = extensions;
            proof {
                lemma_json_views_insert(extensions@, owner@, data);
            }
            if extensions.insert(owner.clone(), data).is_some() {
                return Err(Error::ExtensionRepeated { owner });
            }
            Ok(extensions)
        },
    }
}

/// The extensions that some arguments `OWNER=JSON` give.
pub fn parse_extension_updates(values: &Vec<String>) -> (extensions: Result<TextMap<Json>, Error>)
    ensures
        extensions_outcome(extensions) == extensions_parsed(views(values@)),
{
    let mut extensions: TextMap<Json> = TextMap::new();
    let ghost all = views(values@);
    let mut i: usize = 0;
    assert(json_views(extensions@) =~= Map::<Seq<char>, JsonView>::empty());
    while i < values.len()
        invariant
            i <= values@.len(),
            all == views(values@),
            extensions_parsed(all.take(i as int)) == Ok::<_, ErrorView>(json_views(extensions@)),
        decreases values@.len() - i,
    {
        let ghost value = all[i as int];
        proof {
            assert(all.take(i + 1).drop_last() =~= all.take(i as int));
            if extensions_parsed(all.take(i + 1)) is Err {
                lemma_extensions_parsed_fails(all, i + 1);
            }
        }
        let chars = chars_of(values[i].as_str());
        let at = find_char(&chars, '=');
        if at == chars.len() {
            return Err(Error::ExtensionSyntax);
        }
        let owner_text = text_between(&chars, 0, at);
        let json_text = text_between(&chars, at + 1, chars.len());
        assert(owner_text@ =~= value.take(at as int));
        assert(json_text@ =~= value.skip(at + 1));
        let owner = match normalize_extension_owner(owner_text.as_str()) {
            Ok(owner) => owner,
            Err(error) => return Err(error),
        };
        if json_text.as_str().as_bytes().len() > MAX_EXTENSION_JSON_BYTES {
            return Err(Error::ExtensionTooLarge { owner });
        }
        let parsed = Json::parse(json_text.as_str());
        extensions = match add_extension(extensions, owner, parsed) {
            Ok(extensions) => extensions,
            Err(error) => return Err(error),
        };
        i = i + 1;
    }
    assert(all.take(i as int) =~= all);
    Ok(extensions)
}

/// The error of an argument is the error of all.
proof fn lemma_extensions_parsed_fails(values: Seq<Seq<char>>, n: int)
    requires
        0 <= n <= values.len(),
        extensions_parsed(values.take(n)) is Err,
    ensures
        extensions_parsed(values) == extensions_parsed(values.take(n)),
    decreases values.len() - n,
{
    if n == values.len() {
        assert(values.take(n) =~= values);
    } else {
        assert(values.take(n + 1).drop_last() =~= values.take(n));
        lemma_extensions_parsed_fails(values, n + 1);
    }
}

/// The owners that some arguments give, each once.
pub open spec fn owners_parsed(values: Seq<Seq<char>>) -> Result<Map<Seq<char>, ()>, ErrorView>
    decreases values.len(),
{
    if values.len() == 0 {
        Ok(Map::empty())
    } else {
        match owners_parsed(values.drop_last()) {
            Err(error) => Err(error),
            Ok(owners) => match extension_owner(values.last()) {
                Ok(owner) => Ok(owners.insert(owner, ())),
                Err(error) => Err(error),
            },
        }
    }
}

/// The error of an argument is the error of all.
proof fn lemma_owners_parsed_fails(values: Seq<Seq<char>>, n: int)
    requires
        0 <= n <= values.len(),
        owners_parsed(values.take(n)) is Err,
    ensures
        owners_parsed(values) == owners_parsed(values.take(n)),
    decreases values.len() - n,
{
    if n == values.len() {
        assert(values.take(n) =~= values);
    } else {
        assert(values.take(n + 1).drop_last() =~= values.take(n));
        lemma_owners_parsed_fails(values, n + 1);
    }
}

/// A result over the views of its owners and its error.
pub open spec fn owners_outcome(result: Result<TextMap<()>, Error>) -> Result<
    Map<Seq<char>, ()>,
    ErrorView,
> {
    match result {
        Ok(owners) => Ok(owners@),
        Err(error) => Err(error@),
    }
}

/// The owners that some arguments give, each once.
pub fn parse_extension_owners(values: &Vec<String>) -> (owners: Result<TextMap<()>, Error>)
    ensures
        owners_outcome(owners) == owners_parsed(views(values@)),
{
    let mut owners: TextMap<()> = TextMap::new();
    let ghost all = views(values@);
    let mut i: usize = 0;
    while i < values.len()
        invariant
            i <= values@.len(),
            all == views(values@),
            owners_parsed(all.take(i as int)) == Ok::<_, ErrorView>(owners@),
        decreases values@.len() - i,
    {
        proof {
            assert(all.take(i + 1).drop_last() =~= all.take(i as int));
            if owners_parsed(all.take(i + 1)) is Err {
                lemma_owners_parsed_fails(all, i + 1);
            }
        }
        match normalize_extension_owner(values[i].as_str()) {
            Ok(owner) => {
                owners.insert(owner, ());
            },
            Err(error) => return Err(error),
        }
        i = i + 1;
    }
    assert(all.take(i as int) =~= all);
    Ok(owners)
}

// ---------------------------------------------------------------------------
// Laws of accepted values
// ---------------------------------------------------------------------------
/// A value that is accepted as a session ID is accepted again as it is, and holds no
/// white space.
pub proof fn lemma_session_id_stays(value: Seq<char>)
    requires
        session_id(value) is Ok,
    ensures
        is_session_id(session_id(value)->Ok_0),
        is_word(session_id(value)->Ok_0),
        session_id(session_id(value)->Ok_0) == session_id(value),
{
    let id = session_id(value)->Ok_0;
    lemma_trimmed_is_trim(value);
    lemma_trim_is_trimmed(id);
    assert forall|i: int| 0 <= i < id.len() implies !white_space(#[trigger] id[i]) by {
        assert(session_id_char(id[i]));
    }
}

/// A session ID is accepted as it is.
pub proof fn lemma_session_id_accepted(id: Seq<char>)
    requires
        is_session_id(id),
    ensures
        session_id(id) == Ok::<Seq<char>, ErrorView>(id),
        nonempty(id, "session ID"@) == Ok::<Seq<char>, ErrorView>(id),
        is_word(id),
{
    assert forall|i: int| 0 <= i < id.len() implies !white_space(#[trigger] id[i]) by {
        assert(session_id_char(id[i]));
    }
    lemma_one_word(id);
    lemma_trim_is_trimmed(id);
}

/// A summary that is accepted is one line of bounded length, and is accepted again as it
/// is.
pub proof fn lemma_summary_stays(value: Seq<char>)
    requires
        summary_text(value) is Ok,
    ensures
        0 < summary_text(value)->Ok_0.len() <= MAX_SUMMARY_CHARS,
        forall|i: int|
            0 <= i < summary_text(value)->Ok_0.len() ==> #[trigger] summary_text(value)->Ok_0[i]
                == ' ' || !white_space(summary_text(value)->Ok_0[i]),
        words(summary_text(value)->Ok_0) == words(value),
        summary_text(summary_text(value)->Ok_0) == summary_text(value),
{
    lemma_words_are_words(value);
    lemma_joined_words(words(value));
}

/// A working directory that is accepted is of bounded length and without control
/// characters, and is accepted again as it is.
pub proof fn lemma_cwd_stays(value: Seq<char>)
    requires
        cwd_text(value) is Ok,
    ensures
        0 < cwd_text(value)->Ok_0.len() <= MAX_CWD_CHARS,
        forall|i: int|
            0 <= i < cwd_text(value)->Ok_0.len() ==> !control(#[trigger] cwd_text(value)->Ok_0[i]),
        cwd_text(cwd_text(value)->Ok_0) == cwd_text(value),
{
    lemma_trimmed_is_trim(value);
    lemma_trim_is_trimmed(trimmed(value));
}

/// An owner of an extension that is accepted is accepted again as it is.
pub proof fn lemma_owner_stays(value: Seq<char>)
    requires
        extension_owner(value) is Ok,
    ensures
        is_owner(extension_owner(value)->Ok_0),
        extension_owner(extension_owner(value)->Ok_0) == extension_owner(value),
{
    lemma_trimmed_is_trim(value);
    lemma_trim_is_trimmed(trimmed(value));
}

} // verus!
