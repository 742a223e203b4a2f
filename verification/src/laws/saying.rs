//! What errors say.

use crate::error::{message_of, ErrorView};
use crate::manual::{contains_text, holds_at};
use crate::text::decimal;
use vstd::prelude::*;

verus! {

/// A text holds each of its parts.
proof fn lemma_holds_part(before: Seq<char>, part: Seq<char>, after: Seq<char>)
    ensures
        contains_text(before + part + after, part),
        contains_text(before + part, part),
        contains_text(part + after, part),
{
    let whole = before + part + after;
    assert(whole.subrange(before.len() as int, (before.len() + part.len()) as int) =~= part);
    assert(holds_at(whole, part, before.len() as int));
    let last = before + part;
    assert(last.subrange(before.len() as int, (before.len() + part.len()) as int) =~= part);
    assert(holds_at(last, part, before.len() as int));
    let first = part + after;
    assert(first.subrange(0, part.len() as int) =~= part);
    assert(holds_at(first, part, 0));
}

/// The message of an error on a part of a name, a session or an identity says which it is.
pub proof fn lemma_errors_name_sessions(value: Seq<char>)
    ensures
        contains_text(message_of(ErrorView::Empty { kind: value }), value),
        contains_text(message_of(ErrorView::InvalidComponent { kind: value }), value),
        contains_text(message_of(ErrorView::NamesExhausted { realm: value }), value),
        contains_text(message_of(ErrorView::NoIdentity { input: value }), value),
        contains_text(message_of(ErrorView::NotRegistered { session_id: value }), value),
        contains_text(message_of(ErrorView::ForeignRecord { session_id: value }), value),
        contains_text(message_of(ErrorView::AlreadyRegistered { session_id: value }), value),
{
    assert(contains_text(message_of(ErrorView::Empty { kind: value }), value)) by {
        lemma_holds_part(Seq::empty(), value, " cannot be empty"@);
    }
    assert(contains_text(message_of(ErrorView::InvalidComponent { kind: value }), value)) by {
        lemma_holds_part(
            Seq::empty(),
            value,
            " must contain only letters, apostrophes, or hyphens"@,
        );
    }
    assert(contains_text(message_of(ErrorView::NamesExhausted { realm: value }), value)) by {
        lemma_holds_part("exhausted available names for realm "@, value, Seq::empty());
    }
    assert(contains_text(message_of(ErrorView::NoIdentity { input: value }), value)) by {
        lemma_holds_part(
            "no identity found for '"@,
            value,
            "'; lookup accepts a session ID, canonical name, or slug"@,
        );
    }
    assert(contains_text(message_of(ErrorView::NotRegistered { session_id: value }), value)) by {
        let unregistered = message_of(ErrorView::NotRegistered { session_id: value });
        let behind = "; run `agent-id register "@ + value + "`"@;
        lemma_holds_part("no identity registered for session "@, value, behind);
        assert(unregistered =~= "no identity registered for session "@ + value + behind);
    }
    assert(contains_text(message_of(ErrorView::ForeignRecord { session_id: value }), value)) by {
        lemma_holds_part(
            "identity registry entry does not belong to session "@,
            value,
            Seq::empty(),
        );
    }
    assert(contains_text(
        message_of(ErrorView::AlreadyRegistered { session_id: value }),
        value,
    )) by {
        lemma_holds_part("session "@, value, " already has a registered identity"@);
    }
}

/// The message of an error on an extension says which it is, and that of a pruning how many
/// errors there were.
pub proof fn lemma_errors_name_extensions(value: Seq<char>, count: usize)
    ensures
        contains_text(message_of(ErrorView::ExtensionConflict { owner: value }), value),
        contains_text(message_of(ErrorView::ExtensionTooLarge { owner: value }), value),
        contains_text(message_of(ErrorView::ExtensionRepeated { owner: value }), value),
        contains_text(
            message_of(ErrorView::PruneIncomplete { count }),
            decimal(count as nat),
        ),
{
    assert(contains_text(message_of(ErrorView::ExtensionConflict { owner: value }), value)) by {
        lemma_holds_part("extension "@, value, " cannot be set and cleared together"@);
    }
    assert(contains_text(message_of(ErrorView::ExtensionTooLarge { owner: value }), value)) by {
        lemma_holds_part("extension "@, value, " JSON must be at most 16384 bytes"@);
    }
    assert(contains_text(message_of(ErrorView::ExtensionRepeated { owner: value }), value)) by {
        lemma_holds_part("extension "@, value, " was provided more than once"@);
    }
    assert(contains_text(
        message_of(ErrorView::PruneIncomplete { count }),
        decimal(count as nat),
    )) by {
        lemma_holds_part("prune completed with "@, decimal(count as nat), " errors"@);
    }
}

/// The message of an error on an argument that cannot be read ends with the argument and
/// what is wrong with it.
pub proof fn lemma_errors_tell_causes(value: Seq<char>, cause: Seq<char>)
    ensures
        (value + ": "@ + cause).is_suffix_of(
            message_of(ErrorView::ExtensionJson { owner: value, cause }),
        ),
        (value + ": "@ + cause).is_suffix_of(
            message_of(ErrorView::PruneTimestamp { before: value, cause }),
        ),
{
}

/// The message of an error that another one caused ends with where it was and the other's
/// message.
pub proof fn lemma_errors_tell_errors(slug: Seq<char>, failure: ErrorView)
    ensures
        (slug + ": "@ + message_of(failure)).is_suffix_of(
            message_of(ErrorView::BrokenClaim { slug, failure: Box::new(failure) }),
        ),
{
}

} // verus!
