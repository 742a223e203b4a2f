//! Which values are accepted, and what becomes of them.

use crate::activity::ActivityStateValue;
use crate::discovery::names_record;
use crate::error::ErrorView;
use crate::identity::component;
use crate::json::{parsed_json, JsonView};
use crate::laws::text::{
    blank, lemma_first_place, lemma_title_case, lemma_trimmed_parts, letter, same_letters, tight,
};
use crate::text::{control, joined, lemma_joined_words, lemma_words_are_words, position, trimmed,
    white_space, words};
use crate::validation::{
    cwd_text, extension_owner, extensions_parsed, owners_parsed, session_id, summary_text,
};
use vstd::prelude::*;
use vstd::utf8::encode_utf8;

verus! {

// ---------------------------------------------------------------------------
// Parts of names, session IDs, owners
// ---------------------------------------------------------------------------
/// A part of a name is made of letters, hyphens and apostrophes, with a letter at either
/// end and white space around it at most. It is kept without that, in title case.
pub proof fn lemma_parts_accepted(value: Seq<char>)
    ensures
        ({
            let text = trimmed(value);
            component(value) is Some <==> {
                &&& !blank(value)
                &&& forall|i: int|
                    0 <= i < text.len() ==> letter(#[trigger] text[i]) || text[i] == '-' || text[i]
                        == '\''
                &&& letter(text[0])
                &&& letter(text[text.len() - 1])
            }
        }),
        component(value) matches Some(part) ==> {
            &&& same_letters(part, trimmed(value))
            &&& 'A' <= part[0] <= 'Z'
            &&& forall|i: int| 0 < i < part.len() ==> !('A' <= #[trigger] part[i] <= 'Z')
        },
{
    let (before, after) = lemma_trimmed_parts(value);
    let text = trimmed(value);
    if component(value) is Some {
        lemma_title_case(text);
        assert forall|i: int| 0 <= i < text.len() implies letter(#[trigger] text[i]) || text[i]
            == '-' || text[i] == '\'' by {
            assert(crate::identity::component_char(text[i]));
        }
    } else if !blank(value) && (forall|i: int|
        0 <= i < text.len() ==> letter(#[trigger] text[i]) || text[i] == '-' || text[i] == '\'')
        && letter(text[0]) && letter(text[text.len() - 1]) {
        assert forall|i: int| 0 <= i < text.len() implies crate::identity::component_char(
            #[trigger] text[i],
        ) by {}
        assert(text.last() == text[text.len() - 1]);
    }
}

/// Parts that differ in the case of letters or in white space around them are one part.
pub proof fn lemma_parts_agree(left: Seq<char>, right: Seq<char>)
    requires
        same_letters(trimmed(left), trimmed(right)),
        component(right) is Some,
    ensures
        component(left) == component(right),
{
    let a = trimmed(left);
    let b = trimmed(right);
    lemma_parts_accepted(left);
    lemma_parts_accepted(right);
    let (before, after) = lemma_trimmed_parts(left);
    assert(a.len() > 0);
    assert forall|i: int| 0 <= i < a.len() implies letter(#[trigger] a[i]) || a[i] == '-' || a[i]
        == '\'' by {
        assert(folded_same(a[i], b[i]));
        assert(letter(b[i]) || b[i] == '-' || b[i] == '\'');
    }
    assert(folded_same(a[0], b[0]));
    assert(folded_same(a[a.len() - 1], b[b.len() - 1]));
    assert(component(left) is Some);
    lemma_title_case(b);
    assert(crate::text::titled(a) == crate::text::titled(b));
}

/// Whether two characters are the same without regard to case.
spec fn folded_same(left: char, right: char) -> bool {
    crate::laws::text::folded_char(left) == crate::laws::text::folded_char(right)
}

/// A session ID is made of letters, digits, dots, hyphens and underscores, and is neither
/// one dot nor two; white space around it does not count.
pub proof fn lemma_session_ids_accepted(value: Seq<char>)
    ensures
        ({
            let text = trimmed(value);
            &&& blank(value) ==> session_id(value) == Err::<Seq<char>, _>(
                ErrorView::Empty { kind: "session ID"@ },
            )
            &&& session_id(value) is Ok <==> {
                &&& !blank(value)
                &&& forall|i: int|
                    0 <= i < text.len() ==> letter(#[trigger] text[i]) || '0' <= text[i] <= '9'
                        || text[i] == '-' || text[i] == '_' || text[i] == '.'
                &&& text != seq!['.']
                &&& text != seq!['.', '.']
            }
            &&& session_id(value) matches Ok(id) ==> id == text
            &&& !blank(value) && session_id(value) is Err ==> session_id(value) == Err::<
                Seq<char>,
                _,
            >(ErrorView::UnsafeSessionId)
        }),
{
    reveal_strlit(".");
    reveal_strlit("..");
    let (before, after) = lemma_trimmed_parts(value);
    let text = trimmed(value);
    assert("."@ =~= seq!['.']);
    assert(".."@ =~= seq!['.', '.']);
    if forall|i: int|
        0 <= i < text.len() ==> letter(#[trigger] text[i]) || '0' <= text[i] <= '9' || text[i]
            == '-' || text[i] == '_' || text[i] == '.' {
        assert forall|i: int| 0 <= i < text.len() implies crate::validation::session_id_char(
            #[trigger] text[i],
        ) by {}
    }
    if session_id(value) is Ok {
        assert forall|i: int| 0 <= i < text.len() implies letter(#[trigger] text[i]) || '0'
            <= text[i] <= '9' || text[i] == '-' || text[i] == '_' || text[i] == '.' by {
            assert(crate::validation::session_id_char(text[i]));
        }
    }
}

/// The owner of an extension is made of up to 64 lower-case letters, digits, dots, hyphens
/// and underscores, with a letter or digit first; white space around it does not count.
pub proof fn lemma_owners_accepted(value: Seq<char>)
    ensures
        ({
            let text = trimmed(value);
            &&& blank(value) ==> extension_owner(value) == Err::<Seq<char>, _>(
                ErrorView::Empty { kind: "extension owner"@ },
            )
            &&& extension_owner(value) is Ok <==> {
                &&& !blank(value)
                &&& text.len() <= 64
                &&& 'a' <= text[0] <= 'z' || '0' <= text[0] <= '9'
                &&& forall|i: int|
                    0 <= i < text.len() ==> 'a' <= #[trigger] text[i] <= 'z' || '0' <= text[i]
                        <= '9' || text[i] == '.' || text[i] == '_' || text[i] == '-'
            }
            &&& extension_owner(value) matches Ok(owner) ==> owner == text
            &&& !blank(value) && extension_owner(value) is Err ==> extension_owner(value) == Err::<
                Seq<char>,
                _,
            >(ErrorView::InvalidExtensionOwner)
        }),
{
    let (before, after) = lemma_trimmed_parts(value);
    let text = trimmed(value);
    if forall|i: int|
        0 <= i < text.len() ==> 'a' <= #[trigger] text[i] <= 'z' || '0' <= text[i] <= '9' || text[i]
            == '.' || text[i] == '_' || text[i] == '-' {
        assert forall|i: int| 0 <= i < text.len() implies crate::validation::owner_char(
            #[trigger] text[i],
        ) by {}
    }
    if extension_owner(value) is Ok {
        assert forall|i: int| 0 <= i < text.len() implies 'a' <= #[trigger] text[i] <= 'z' || '0'
            <= text[i] <= '9' || text[i] == '.' || text[i] == '_' || text[i] == '-' by {
            assert(crate::validation::owner_char(text[i]));
        }
    }
}

// ---------------------------------------------------------------------------
// Summaries and working directories
// ---------------------------------------------------------------------------
/// A summary keeps the words of what is given, with one space between each two and nothing
/// around them; it is refused where there are none, or where that is over 240 characters.
pub proof fn lemma_summaries_accepted(value: Seq<char>)
    ensures
        summary_text(value) matches Ok(text) ==> {
            &&& words(text) == words(value)
            &&& 0 < text.len() <= 240
            &&& tight(text)
            &&& forall|i: int|
                0 <= i < text.len() && white_space(#[trigger] text[i]) ==> text[i] == ' ' && i + 1
                    < text.len() && !white_space(text[i + 1])
        },
        blank(value) <==> summary_text(value) == Err::<Seq<char>, _>(
            ErrorView::Empty { kind: "summary"@ },
        ),
        summary_text(value) is Err && !blank(value) ==> summary_text(value) == Err::<Seq<char>, _>(
            ErrorView::SummaryTooLong,
        ) && joined(words(value), " "@).len() > 240,
{
    let parts = words(value);
    let text = joined(parts, " "@);
    lemma_words_are_words(value);
    lemma_joined_words(parts);
    lemma_joined_is_tight(parts);
    lemma_blank_has_no_words(value);
}

/// A blank text has no words, and only a blank one.
proof fn lemma_blank_has_no_words(text: Seq<char>)
    ensures
        blank(text) <==> words(text).len() == 0,
    decreases text.len(),
{
    if text.len() > 0 {
        if white_space(text[0]) {
            let rest = text.skip(1);
            lemma_blank_has_no_words(rest);
            if blank(rest) {
                assert forall|i: int| 0 <= i < text.len() implies white_space(#[trigger] text[i]) by {
                    if i > 0 {
                        assert(rest[i - 1] == text[i]);
                    }
                }
            }
            if blank(text) {
                assert forall|i: int| 0 <= i < rest.len() implies white_space(#[trigger] rest[i]) by {
                    assert(rest[i] == text[i + 1]);
                }
            }
        } else {
            crate::text::lemma_word_length(text);
            assert(!blank(text));
        }
    }
}

/// Words with a space between each two have no white space at either end, and nowhere two
/// in a row.
proof fn lemma_joined_is_tight(parts: Seq<Seq<char>>)
    requires
        forall|i: int| 0 <= i < parts.len() ==> crate::text::is_word(#[trigger] parts[i]),
    ensures
        tight(joined(parts, " "@)),
        parts.len() > 0 ==> joined(parts, " "@).len() > 0,
        forall|i: int|
            0 <= i < joined(parts, " "@).len() && white_space(#[trigger] joined(parts, " "@)[i])
                ==> i + 1 < joined(parts, " "@).len() && !white_space(joined(parts, " "@)[i + 1]),
    decreases parts.len(),
{
    reveal_strlit(" ");
    let text = joined(parts, " "@);
    if parts.len() == 1 {
        assert(crate::text::is_word(parts[0]));
    } else if parts.len() > 1 {
        let front = parts.drop_last();
        assert forall|i: int| 0 <= i < front.len() implies crate::text::is_word(
            #[trigger] front[i],
        ) by {
            assert(front[i] == parts[i]);
        }
        lemma_joined_is_tight(front);
        let start = joined(front, " "@);
        let last = parts[parts.len() - 1];
        assert(crate::text::is_word(last));
        let n = start.len() as int;
        assert(text[0] == start[0]);
        assert(text[text.len() - 1] == last[last.len() - 1]);
        assert forall|i: int| 0 <= i < text.len() && white_space(#[trigger] text[i]) implies i + 1
            < text.len() && !white_space(text[i + 1]) by {
            if i < n {
                assert(text[i] == start[i]);
                if i + 1 < n {
                    assert(text[i + 1] == start[i + 1]);
                }
            } else if i == n {
                assert(text[n + 1] == last[0]);
            } else {
                assert(text[i] == last[i - n - 1]);
            }
        }
    }
}

/// A working directory is kept as it is given, without white space around it; it is refused
/// where it is blank, has control characters, or is over 4096 characters.
pub proof fn lemma_cwds_accepted(value: Seq<char>)
    ensures
        ({
            let text = trimmed(value);
            let controlled = exists|i: int| 0 <= i < text.len() && control(#[trigger] text[i]);
            cwd_text(value) == if blank(value) {
                Err(ErrorView::Empty { kind: "working directory"@ })
            } else if controlled {
                Err(ErrorView::CwdControl)
            } else if text.len() > 4096 {
                Err(ErrorView::CwdTooLong)
            } else {
                Ok::<Seq<char>, ErrorView>(text)
            }
        }),
{
    let (before, after) = lemma_trimmed_parts(value);
}

// ---------------------------------------------------------------------------
// Extension arguments
// ---------------------------------------------------------------------------
/// Whether an argument is `OWNER=JSON`, with the owner and the JSON text before and after
/// its first equals sign.
pub open spec fn argument_reads(argument: Seq<char>, owner: Seq<char>, json: Seq<char>) -> bool {
    exists|before: Seq<char>|
        {
            &&& #[trigger] argument_parts(argument, before, json)
            &&& extension_owner(before) == Ok::<Seq<char>, ErrorView>(owner)
        }
}

/// Whether an argument is one text, an equals sign and another, with no equals sign in the
/// first.
pub open spec fn argument_parts(argument: Seq<char>, before: Seq<char>, after: Seq<char>) -> bool {
    &&& argument == before + seq!['='] + after
    &&& forall|i: int| 0 <= i < before.len() ==> #[trigger] before[i] != '='
}

/// Whether some extensions have what an argument gives: the JSON value for its owner, told
/// in at most 16384 bytes.
pub open spec fn argument_taken(
    argument: Seq<char>,
    extensions: Map<Seq<char>, JsonView>,
) -> bool {
    exists|owner: Seq<char>, json: Seq<char>|
        {
            &&& #[trigger] argument_reads(argument, owner, json)
            &&& encode_utf8(json).len() <= 16384
            &&& extensions.contains_key(owner)
            &&& parsed_json(json) == Ok::<_, Seq<char>>(extensions[owner])
        }
}

/// The parts of an argument are found at its first equals sign.
proof fn lemma_argument_parts(argument: Seq<char>)
    ensures
        position(argument, '=') < argument.len() ==> argument_parts(
            argument,
            argument.take(position(argument, '=')),
            argument.skip(position(argument, '=') + 1),
        ),
        position(argument, '=') == argument.len() ==> forall|i: int|
            0 <= i < argument.len() ==> #[trigger] argument[i] != '=',
{
    lemma_first_place(argument, '=');
    let at = position(argument, '=');
    if at < argument.len() {
        assert(argument =~= argument.take(at) + seq!['='] + argument.skip(at + 1));
    }
}

/// Whether one of some arguments gives an owner something.
pub open spec fn owner_given(arguments: Seq<Seq<char>>, owner: Seq<char>) -> bool {
    exists|i: int| 0 <= i < arguments.len() && argument_names(#[trigger] arguments[i], owner)
}

/// Whether an argument gives an owner something.
pub open spec fn argument_names(argument: Seq<char>, owner: Seq<char>) -> bool {
    exists|json: Seq<char>| #[trigger] argument_reads(argument, owner, json)
}

/// What some extensions have of an argument they keep when another owner has one too.
proof fn lemma_taken_stays(
    argument: Seq<char>,
    extensions: Map<Seq<char>, JsonView>,
    owner: Seq<char>,
    data: JsonView,
)
    requires
        argument_taken(argument, extensions),
        !extensions.contains_key(owner),
    ensures
        argument_taken(argument, extensions.insert(owner, data)),
{
    let (o, j) = choose|o: Seq<char>, j: Seq<char>|
        {
            &&& #[trigger] argument_reads(argument, o, j)
            &&& encode_utf8(j).len() <= 16384
            &&& extensions.contains_key(o)
            &&& parsed_json(j) == Ok::<_, Seq<char>>(extensions[o])
        };
    assert(argument_reads(argument, o, j));
    assert(extensions.insert(owner, data)[o] == extensions[o]);
}

/// An argument that is accepted is taken.
proof fn lemma_last_taken(extensions: Map<Seq<char>, JsonView>, argument: Seq<char>)
    requires
        crate::validation::extension_parsed(extensions, argument) is Ok,
    ensures
        ({
            let after = crate::validation::extension_parsed(extensions, argument)->Ok_0;
            let owner = extension_owner(argument.take(position(argument, '=')))->Ok_0;
            &&& argument_taken(argument, after)
            &&& argument_names(argument, owner)
            &&& !extensions.contains_key(owner)
            &&& after == extensions.insert(owner, after[owner])
        }),
{
    lemma_first_place(argument, '=');
    lemma_argument_parts(argument);
    let at = position(argument, '=');
    let json = argument.skip(at + 1);
    let owner = extension_owner(argument.take(at))->Ok_0;
    assert(argument_parts(argument, argument.take(at), json));
    assert(argument_reads(argument, owner, json));
}

/// Arguments that are accepted each give an owner of their own a JSON value; the extensions
/// are those and no others.
#[verifier::rlimit(50)]
#[verifier::spinoff_prover]
pub proof fn lemma_extension_arguments(arguments: Seq<Seq<char>>)
    ensures
        extensions_parsed(arguments) matches Ok(extensions) ==> {
            &&& forall|i: int|
                0 <= i < arguments.len() ==> argument_taken(#[trigger] arguments[i], extensions)
            &&& forall|owner: Seq<char>| #[trigger]
                extensions.contains_key(owner) ==> owner_given(arguments, owner)
            &&& extensions.dom().finite() && extensions.len() == arguments.len()
        },
    decreases arguments.len(),
{
    if extensions_parsed(arguments) is Ok && arguments.len() > 0 {
        let front = arguments.drop_last();
        let last = arguments.last();
        lemma_extension_arguments(front);
        let before = extensions_parsed(front)->Ok_0;
        let extensions = extensions_parsed(arguments)->Ok_0;
        let owner = extension_owner(last.take(position(last, '=')))->Ok_0;
        lemma_last_taken(before, last);
        assert forall|i: int| 0 <= i < arguments.len() implies argument_taken(
            #[trigger] arguments[i],
            extensions,
        ) by {
            if i < front.len() {
                assert(argument_taken(front[i], before));
                lemma_taken_stays(front[i], before, owner, extensions[owner]);
            }
        }
        assert forall|o: Seq<char>| #[trigger] extensions.contains_key(o) implies owner_given(
            arguments,
            o,
        ) by {
            if o == owner {
                assert(argument_names(arguments[arguments.len() - 1], o));
            } else {
                assert(before.contains_key(o));
                let i = choose|i: int|
                    0 <= i < front.len() && argument_names(#[trigger] front[i], o);
                assert(argument_names(arguments[i], o));
            }
        }
    }
}

/// The first argument that is wrong decides what arguments are refused with.
pub proof fn lemma_extension_arguments_refused(arguments: Seq<Seq<char>>, argument: Seq<char>)
    requires
        extensions_parsed(arguments) is Ok,
    ensures
        ({
            let extensions = extensions_parsed(arguments)->Ok_0;
            let result = extensions_parsed(arguments.push(argument));
            &&& (forall|i: int| 0 <= i < argument.len() ==> #[trigger] argument[i] != '=')
                ==> result == Err::<Map<Seq<char>, JsonView>, _>(ErrorView::ExtensionSyntax)
            &&& forall|before: Seq<char>, json: Seq<char>|
                #![trigger argument_parts(argument, before, json)]
                argument_parts(argument, before, json) ==> result == match extension_owner(before) {
                    Err(error) => Err(error),
                    Ok(owner) => if encode_utf8(json).len() > 16384 {
                        Err(ErrorView::ExtensionTooLarge { owner })
                    } else {
                        match parsed_json(json) {
                            Err(cause) => Err(ErrorView::ExtensionJson { owner, cause }),
                            Ok(data) => if extensions.contains_key(owner) {
                                Err(ErrorView::ExtensionRepeated { owner })
                            } else {
                                Ok(extensions.insert(owner, data))
                            },
                        }
                    },
                }
        }),
        forall|more: Seq<Seq<char>>|
            extensions_parsed(arguments.push(argument)) is Err ==> #[trigger] extensions_parsed(
                arguments.push(argument) + more,
            ) == extensions_parsed(arguments.push(argument)),
{
    let longer = arguments.push(argument);
    let extensions = extensions_parsed(arguments)->Ok_0;
    assert(longer.drop_last() =~= arguments);
    lemma_first_place(argument, '=');
    lemma_argument_parts(argument);
    let at = position(argument, '=');
    if forall|i: int| 0 <= i < argument.len() ==> #[trigger] argument[i] != '=' {
        if at < argument.len() {
            assert(argument[at] == '=');
        }
    }
    assert forall|before: Seq<char>, json: Seq<char>|
        #![trigger argument_parts(argument, before, json)]
        argument_parts(argument, before, json) implies before == argument.take(at) && json
        == argument.skip(at + 1) by {
        assert(argument[before.len() as int] == '=');
        if at < before.len() {
            assert(argument[at] == before[at]);
        }
        if before.len() < at {
            assert(argument[before.len() as int] != '=');
        }
        assert(argument.take(at) =~= before);
        assert(argument.skip(at + 1) =~= json);
    }
    assert forall|more: Seq<Seq<char>>| extensions_parsed(longer) is Err implies #[trigger] extensions_parsed(
        longer + more,
    ) == extensions_parsed(longer) by {
        lemma_refused_stays(longer, more);
    }
}

/// Arguments that are refused are refused whatever follows them.
proof fn lemma_refused_stays(arguments: Seq<Seq<char>>, more: Seq<Seq<char>>)
    requires
        extensions_parsed(arguments) is Err,
    ensures
        extensions_parsed(arguments + more) == extensions_parsed(arguments),
    decreases more.len(),
{
    if more.len() == 0 {
        assert(arguments + more =~= arguments);
    } else {
        assert((arguments + more).drop_last() =~= arguments + more.drop_last());
        lemma_refused_stays(arguments, more.drop_last());
    }
}

/// The owners whose extensions are to be cleared are those that the arguments name, where
/// all of them name one.
pub proof fn lemma_owner_arguments(arguments: Seq<Seq<char>>)
    ensures
        owners_parsed(arguments) is Ok <==> forall|i: int|
            0 <= i < arguments.len() ==> extension_owner(#[trigger] arguments[i]) is Ok,
        owners_parsed(arguments) matches Ok(owners) ==> forall|owner: Seq<char>| #[trigger]
            owners.contains_key(owner) <==> exists|i: int|
                0 <= i < arguments.len() && extension_owner(#[trigger] arguments[i]) == Ok::<
                    _,
                    ErrorView,
                >(owner),
    decreases arguments.len(),
{
    if arguments.len() > 0 {
        let front = arguments.drop_last();
        let n = arguments.len() - 1;
        lemma_owner_arguments(front);
        if owners_parsed(front) is Err {
            let i = choose|i: int|
                0 <= i < front.len() && !(extension_owner(#[trigger] front[i]) is Ok);
            assert(arguments[i] == front[i]);
        } else {
            assert(forall|i: int| 0 <= i < front.len() ==> front[i] == #[trigger] arguments[i]);
            if extension_owner(arguments[n]) is Ok {
                assert forall|i: int| 0 <= i < arguments.len() implies extension_owner(
                    #[trigger] arguments[i],
                ) is Ok by {
                    if i < n {
                        assert(extension_owner(front[i]) is Ok);
                    }
                }
                let owners = owners_parsed(arguments)->Ok_0;
                let before = owners_parsed(front)->Ok_0;
                assert forall|owner: Seq<char>| #[trigger] owners.contains_key(owner)
                    <==> exists|i: int|
                    0 <= i < arguments.len() && extension_owner(#[trigger] arguments[i]) == Ok::<
                        _,
                        ErrorView,
                    >(owner) by {
                    if before.contains_key(owner) {
                        let i = choose|i: int|
                            0 <= i < front.len() && extension_owner(#[trigger] front[i]) == Ok::<
                                _,
                                ErrorView,
                            >(owner);
                        assert(arguments[i] == front[i]);
                    }
                    if exists|i: int|
                        0 <= i < arguments.len() && extension_owner(#[trigger] arguments[i])
                            == Ok::<_, ErrorView>(owner) {
                        let i = choose|i: int|
                            0 <= i < arguments.len() && extension_owner(#[trigger] arguments[i])
                                == Ok::<_, ErrorView>(owner);
                        if i < n {
                            assert(front[i] == arguments[i]);
                            assert(before.contains_key(owner));
                        }
                    }
                }
            }
        }
    }
}

// ---------------------------------------------------------------------------
// Words of activity, names of files
// ---------------------------------------------------------------------------
/// Six words are familiar; a word from outside that is none of them is taken for the
/// unknown.
pub proof fn lemma_familiar_words(word: Seq<char>)
    ensures
        word == "working"@ <==> ActivityStateValue::worded(word) == Some(
            ActivityStateValue::Working,
        ),
        word == "idle"@ <==> ActivityStateValue::worded(word) == Some(ActivityStateValue::Idle),
        word == "waiting"@ <==> ActivityStateValue::worded(word) == Some(
            ActivityStateValue::Waiting,
        ),
        word == "blocked"@ <==> ActivityStateValue::worded(word) == Some(
            ActivityStateValue::Blocked,
        ),
        word == "stopped"@ <==> ActivityStateValue::worded(word) == Some(
            ActivityStateValue::Stopped,
        ),
        word == "unknown"@ <==> ActivityStateValue::worded(word) == Some(
            ActivityStateValue::Unknown,
        ),
        forall|value: ActivityStateValue| #[trigger]
            ActivityStateValue::worded(value.word()) == Some(value),
        ActivityStateValue::worded(word) matches Some(value) ==> value.word() == word
            && ActivityStateValue::external(word) == value,
        ActivityStateValue::worded(word) is None ==> ActivityStateValue::external(word)
            == ActivityStateValue::Unknown,
{
    assert forall|value: ActivityStateValue| #[trigger] ActivityStateValue::worded(value.word())
        == Some(value) by {
        value.lemma_words();
    }
    ActivityStateValue::Working.lemma_words();
    ActivityStateValue::Idle.lemma_words();
    ActivityStateValue::Waiting.lemma_words();
    ActivityStateValue::Blocked.lemma_words();
    ActivityStateValue::Stopped.lemma_words();
    ActivityStateValue::Unknown.lemma_words();
}

/// A file is a record where its name is a text that is not empty, and then `.json`.
pub proof fn lemma_record_files(stem: Seq<char>, file_name: Seq<char>)
    ensures
        stem.len() > 0 ==> names_record(stem + seq!['.', 'j', 's', 'o', 'n']),
        names_record(file_name) ==> file_name.len() > 5 && file_name == file_name.take(
            file_name.len() - 5,
        ) + seq!['.', 'j', 's', 'o', 'n'],
{
    reveal_strlit(".json");
    assert(".json"@ =~= seq!['.', 'j', 's', 'o', 'n']);
    let full = stem + seq!['.', 'j', 's', 'o', 'n'];
    assert(full.skip(full.len() - 5) =~= ".json"@);
    if names_record(file_name) {
        let n = file_name.len() - 5;
        assert(file_name =~= file_name.take(n) + file_name.skip(n));
    }
}

} // verus!
