//! What can go wrong, and how it is told.

use crate::text::{decimal, decimal_text};
use vstd::prelude::*;
use vstd::string::StringExecFns;

verus! {

/// What can go wrong.
#[derive(Debug, PartialEq, Eq)]
pub enum Error {
    /// A value of some kind is blank.
    Empty { kind: String },
    /// A part of a name holds something other than letters, apostrophes and hyphens, or
    /// does not start and end with a letter.
    InvalidComponent { kind: String },
    /// A session ID cannot be a file name.
    UnsafeSessionId,
    /// There are no names to choose from.
    NoNames,
    /// Every attempt met a name that is taken.
    NamesExhausted { realm: String },
    /// No identity goes by an identifier.
    NoIdentity { input: String },
    /// A session has no identity.
    NotRegistered { session_id: String },
    /// The record of a session is another session's.
    ForeignRecord { session_id: String },
    /// A claimed name does not lead to an identity.
    BrokenClaim { slug: String, failure: Box<Error> },
    /// An update changes nothing.
    NoUpdate,
    /// A summary is set and cleared together.
    SummaryConflict,
    /// A state is set and cleared together.
    StateConflict,
    /// A working directory is set and cleared together.
    CwdConflict,
    /// An extension is set and cleared together.
    ExtensionConflict { owner: String },
    /// A number of hours is negative.
    NegativeRecent,
    /// No session is named.
    NoSession,
    /// There are no realms to choose from.
    NoRealms,
    /// A session was registered meanwhile.
    AlreadyRegistered { session_id: String },
    /// An extension argument has no equals sign.
    ExtensionSyntax,
    /// The JSON text of an extension is too long.
    ExtensionTooLarge { owner: String },
    /// The text of an extension is no JSON.
    ExtensionJson { owner: String, cause: String },
    /// An extension is given twice.
    ExtensionRepeated { owner: String },
    /// The owner of an extension has a wrong form.
    InvalidExtensionOwner,
    /// A summary is too long.
    SummaryTooLong,
    /// A working directory holds control characters.
    CwdControl,
    /// A working directory is too long.
    CwdTooLong,
    /// There is no home directory.
    NoHome,
    /// The limit of a pruning is no instant.
    PruneTimestamp { before: String, cause: String },
    /// A pruning met errors.
    PruneIncomplete { count: usize },
    /// A reply does not answer what was asked.
    OutOfTurn,
}

/// What went wrong, with the views of the texts that tell of it.
pub enum ErrorView {
    Empty { kind: Seq<char> },
    InvalidComponent { kind: Seq<char> },
    UnsafeSessionId,
    NoNames,
    NamesExhausted { realm: Seq<char> },
    NoIdentity { input: Seq<char> },
    NotRegistered { session_id: Seq<char> },
    ForeignRecord { session_id: Seq<char> },
    BrokenClaim { slug: Seq<char>, failure: Box<ErrorView> },
    NoUpdate,
    SummaryConflict,
    StateConflict,
    CwdConflict,
    ExtensionConflict { owner: Seq<char> },
    NegativeRecent,
    NoSession,
    NoRealms,
    AlreadyRegistered { session_id: Seq<char> },
    ExtensionSyntax,
    ExtensionTooLarge { owner: Seq<char> },
    ExtensionJson { owner: Seq<char>, cause: Seq<char> },
    ExtensionRepeated { owner: Seq<char> },
    InvalidExtensionOwner,
    SummaryTooLong,
    CwdControl,
    CwdTooLong,
    NoHome,
    PruneTimestamp { before: Seq<char>, cause: Seq<char> },
    PruneIncomplete { count: usize },
    OutOfTurn,
}

/// What went wrong, with the views of the texts that tell of it.
pub open spec fn error_view(error: Error) -> ErrorView
    decreases error,
{
    match error {
        Error::Empty { kind } => ErrorView::Empty { kind: kind@ },
        Error::InvalidComponent { kind } => ErrorView::InvalidComponent { kind: kind@ },
        Error::UnsafeSessionId => ErrorView::UnsafeSessionId,
        Error::NoNames => ErrorView::NoNames,
        Error::NamesExhausted { realm } => ErrorView::NamesExhausted { realm: realm@ },
        Error::NoIdentity { input } => ErrorView::NoIdentity { input: input@ },
        Error::NotRegistered { session_id } => ErrorView::NotRegistered { session_id: session_id@ },
        Error::ForeignRecord { session_id } => ErrorView::ForeignRecord { session_id: session_id@ },
        Error::BrokenClaim { slug, failure } => ErrorView::BrokenClaim {
            slug: slug@,
            failure: Box::new(error_view(*failure)),
        },
        Error::NoUpdate => ErrorView::NoUpdate,
        Error::SummaryConflict => ErrorView::SummaryConflict,
        Error::StateConflict => ErrorView::StateConflict,
        Error::CwdConflict => ErrorView::CwdConflict,
        Error::ExtensionConflict { owner } => ErrorView::ExtensionConflict { owner: owner@ },
        Error::NegativeRecent => ErrorView::NegativeRecent,
        Error::NoSession => ErrorView::NoSession,
        Error::NoRealms => ErrorView::NoRealms,
        Error::AlreadyRegistered { session_id } => ErrorView::AlreadyRegistered {
            session_id: session_id@,
        },
        Error::ExtensionSyntax => ErrorView::ExtensionSyntax,
        Error::ExtensionTooLarge { owner } => ErrorView::ExtensionTooLarge { owner: owner@ },
        Error::ExtensionJson { owner, cause } => ErrorView::ExtensionJson {
            owner: owner@,
            cause: cause@,
        },
        Error::ExtensionRepeated { owner } => ErrorView::ExtensionRepeated { owner: owner@ },
        Error::InvalidExtensionOwner => ErrorView::InvalidExtensionOwner,
        Error::SummaryTooLong => ErrorView::SummaryTooLong,
        Error::CwdControl => ErrorView::CwdControl,
        Error::CwdTooLong => ErrorView::CwdTooLong,
        Error::NoHome => ErrorView::NoHome,
        Error::PruneTimestamp { before, cause } => ErrorView::PruneTimestamp {
            before: before@,
            cause: cause@,
        },
        Error::PruneIncomplete { count } => ErrorView::PruneIncomplete { count },
        Error::OutOfTurn => ErrorView::OutOfTurn,
    }
}

impl View for Error {
    type V = ErrorView;

    open spec fn view(&self) -> ErrorView {
        error_view(*self)
    }
}

/// The message of an error.
pub open spec fn message_of(error: ErrorView) -> Seq<char>
    decreases error,
{
    match error {
        ErrorView::Empty { kind } => kind + " cannot be empty"@,
        ErrorView::InvalidComponent { kind } => {
            kind + " must contain only letters, apostrophes, or hyphens"@
        },
        ErrorView::UnsafeSessionId => {
            "session ID must be a filename-safe value using letters, digits, '.', '_' or '-'"@
        },
        ErrorView::NoNames => "name lists are empty"@,
        ErrorView::NamesExhausted { realm } => "exhausted available names for realm "@ + realm,
        ErrorView::NoIdentity { input } => {
            "no identity found for '"@ + input
                + "'; lookup accepts a session ID, canonical name, or slug"@
        },
        ErrorView::NotRegistered { session_id } => {
            "no identity registered for session "@ + session_id + "; run `agent-id register "@
                + session_id + "`"@
        },
        ErrorView::ForeignRecord { session_id } => {
            "identity registry entry does not belong to session "@ + session_id
        },
        ErrorView::BrokenClaim { slug, failure } => {
            "resolve name claim "@ + slug + ": "@ + message_of(*failure)
        },
        ErrorView::NoUpdate => "pass at least one activity update"@,
        ErrorView::SummaryConflict => "summary and clear_summary are mutually exclusive"@,
        ErrorView::StateConflict => "state and clear_state are mutually exclusive"@,
        ErrorView::CwdConflict => "cwd and clear_cwd are mutually exclusive"@,
        ErrorView::ExtensionConflict { owner } => {
            "extension "@ + owner + " cannot be set and cleared together"@
        },
        ErrorView::NegativeRecent => "--recent must be non-negative"@,
        ErrorView::NoSession => {
            "no session ID found; pass SESSION_ID or --session-id, or set AGENT_ID_SESSION_ID"@
        },
        ErrorView::NoRealms => "bundled realm candidate list is empty"@,
        ErrorView::AlreadyRegistered { session_id } => {
            "session "@ + session_id + " already has a registered identity"@
        },
        ErrorView::ExtensionSyntax => "--extension must use OWNER=JSON"@,
        ErrorView::ExtensionTooLarge { owner } => {
            "extension "@ + owner + " JSON must be at most 16384 bytes"@
        },
        ErrorView::ExtensionJson { owner, cause } => {
            "parse JSON for extension "@ + owner + ": "@ + cause
        },
        ErrorView::ExtensionRepeated { owner } => {
            "extension "@ + owner + " was provided more than once"@
        },
        ErrorView::InvalidExtensionOwner => {
            "extension owner must be at most 64 characters using lowercase letters, digits, '.', '_' or '-'"@
        },
        ErrorView::SummaryTooLong => "summary must be at most 240 characters"@,
        ErrorView::CwdControl => "working directory cannot contain control characters"@,
        ErrorView::CwdTooLong => "working directory must be at most 4096 characters"@,
        ErrorView::NoHome => "HOME is not set; set AGENT_ID_HOME explicitly"@,
        ErrorView::PruneTimestamp { before, cause } => {
            "parse --before timestamp "@ + before + ": "@ + cause
        },
        ErrorView::PruneIncomplete { count } => {
            "prune completed with "@ + decimal(count as nat) + " errors"@
        },
        ErrorView::OutOfTurn => "the reply does not answer the request"@,
    }
}

impl Error {
    /// The message of the error.
    pub fn message(&self) -> (text: String)
        ensures
            text@ == message_of(self@),
        decreases self,
    {
        match self {
            Error::Empty { kind } => {
                let mut text = kind.clone();
                text.append(" cannot be empty");
                text
            },
            Error::InvalidComponent { kind } => {
                let mut text = kind.clone();
                text.append(" must contain only letters, apostrophes, or hyphens");
                text
            },
            Error::UnsafeSessionId => {
                "session ID must be a filename-safe value using letters, digits, '.', '_' or '-'".to_owned()
            },
            Error::NoNames => "name lists are empty".to_owned(),
            Error::NamesExhausted { realm } => {
                let mut text = "exhausted available names for realm ".to_owned();
                text.append(realm.as_str());
                text
            },
            Error::NoIdentity { input } => {
                let mut text = "no identity found for '".to_owned();
                text.append(input.as_str());
                text.append("'; lookup accepts a session ID, canonical name, or slug");
                text
            },
            Error::NotRegistered { session_id } => {
                let mut text = "no identity registered for session ".to_owned();
                text.append(session_id.as_str());
                text.append("; run `agent-id register ");
                text.append(session_id.as_str());
                text.append("`");
                text
            },
            Error::ForeignRecord { session_id } => {
                let mut text = "identity registry entry does not belong to session ".to_owned();
                text.append(session_id.as_str());
                text
            },
            Error::BrokenClaim { slug, failure } => {
                let mut text = "resolve name claim ".to_owned();
                text.append(slug.as_str());
                text.append(": ");
                text.append(failure.message().as_str());
                text
            },
            Error::NoUpdate => "pass at least one activity update".to_owned(),
            Error::SummaryConflict => "summary and clear_summary are mutually exclusive".to_owned(),
            Error::StateConflict => "state and clear_state are mutually exclusive".to_owned(),
            Error::CwdConflict => "cwd and clear_cwd are mutually exclusive".to_owned(),
            Error::ExtensionConflict { owner } => {
                let mut text = "extension ".to_owned();
                text.append(owner.as_str());
                text.append(" cannot be set and cleared together");
                text
            },
            Error::NegativeRecent => "--recent must be non-negative".to_owned(),
            Error::NoSession => {
                "no session ID found; pass SESSION_ID or --session-id, or set AGENT_ID_SESSION_ID".to_owned()
            },
            Error::NoRealms => "bundled realm candidate list is empty".to_owned(),
            Error::AlreadyRegistered { session_id } => {
                let mut text = "session ".to_owned();
                text.append(session_id.as_str());
                text.append(" already has a registered identity");
                text
            },
            Error::ExtensionSyntax => "--extension must use OWNER=JSON".to_owned(),
            Error::ExtensionTooLarge { owner } => {
                let mut text = "extension ".to_owned();
                text.append(owner.as_str());
                text.append(" JSON must be at most 16384 bytes");
                text
            },
            Error::ExtensionJson { owner, cause } => {
                let mut text = "parse JSON for extension ".to_owned();
                text.append(owner.as_str());
                text.append(": ");
                text.append(cause.as_str());
                text
            },
            Error::ExtensionRepeated { owner } => {
                let mut text = "extension ".to_owned();
                text.append(owner.as_str());
                text.append(" was provided more than once");
                text
            },
            Error::InvalidExtensionOwner => {
                "extension owner must be at most 64 characters using lowercase letters, digits, '.', '_' or '-'".to_owned()
            },
            Error::SummaryTooLong => "summary must be at most 240 characters".to_owned(),
            Error::CwdControl => "working directory cannot contain control characters".to_owned(),
            Error::CwdTooLong => "working directory must be at most 4096 characters".to_owned(),
            Error::NoHome => "HOME is not set; set AGENT_ID_HOME explicitly".to_owned(),
            Error::PruneTimestamp { before, cause } => {
                let mut text = "parse --before timestamp ".to_owned();
                text.append(before.as_str());
                text.append(": ");
                text.append(cause.as_str());
                text
            },
            Error::PruneIncomplete { count } => {
                let mut text = "prune completed with ".to_owned();
                text.append(decimal_text(*count as u128).as_str());
                text.append(" errors");
                text
            },
            Error::OutOfTurn => "the reply does not answer the request".to_owned(),
        }
    }
}

} // verus!
