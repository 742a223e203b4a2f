//! What an agent is doing.

use crate::text::same_text;
use crate::timestamp::Timestamp;
use vstd::prelude::*;

verus! {

/// The kinds of activity.
#[derive(Debug, Clone, Copy, PartialEq, Eq, Structural)]
pub enum ActivityStateValue {
    Working,
    Idle,
    Waiting,
    Blocked,
    Stopped,
    Unknown,
}

/// An activity, and since when it is known.
#[derive(Debug, Clone, Copy, PartialEq, Eq, Structural)]
pub struct ActivityState {
    pub value: ActivityStateValue,
    pub updated_at: Timestamp,
}

impl ActivityStateValue {
    /// The word for a kind of activity.
    pub open spec fn word(self) -> Seq<char> {
        match self {
            ActivityStateValue::Working => "working"@,
            ActivityStateValue::Idle => "idle"@,
            ActivityStateValue::Waiting => "waiting"@,
            ActivityStateValue::Blocked => "blocked"@,
            ActivityStateValue::Stopped => "stopped"@,
            ActivityStateValue::Unknown => "unknown"@,
        }
    }

    /// The kind of activity that a word is for.
    pub open spec fn worded(word: Seq<char>) -> Option<ActivityStateValue> {
        if word == "working"@ {
            Some(ActivityStateValue::Working)
        } else if word == "idle"@ {
            Some(ActivityStateValue::Idle)
        } else if word == "waiting"@ {
            Some(ActivityStateValue::Waiting)
        } else if word == "blocked"@ {
            Some(ActivityStateValue::Blocked)
        } else if word == "stopped"@ {
            Some(ActivityStateValue::Stopped)
        } else if word == "unknown"@ {
            Some(ActivityStateValue::Unknown)
        } else {
            None
        }
    }

    /// The kind of activity that a word from outside is taken for: an unfamiliar one
    /// for the unknown.
    pub open spec fn external(word: Seq<char>) -> ActivityStateValue {
        match Self::worded(word) {
            Some(value) => value,
            None => ActivityStateValue::Unknown,
        }
    }

    /// Each kind of activity has a word of its own.
    pub proof fn lemma_words(self)
        ensures
            Self::worded(self.word()) == Some(self),
            Self::external(self.word()) == self,
    {
        reveal_strlit("working");
        reveal_strlit("idle");
        reveal_strlit("waiting");
        reveal_strlit("blocked");
        reveal_strlit("stopped");
        reveal_strlit("unknown");
        assert("working"@.len() == 7 && "working"@[1] == 'o' && "waiting"@.len() == 7
            && "waiting"@[1] == 'a' && "blocked"@.len() == 7 && "blocked"@[1] == 'l'
            && "stopped"@.len() == 7 && "stopped"@[1] == 't' && "unknown"@.len() == 7
            && "unknown"@[1] == 'n' && "idle"@.len() == 4);
    }

    /// The word for the kind of activity.
    pub fn label(&self) -> (label: &'static str)
        ensures
            label@ == self.word(),
    {
        match self {
            ActivityStateValue::Working => "working",
            ActivityStateValue::Idle => "idle",
            ActivityStateValue::Waiting => "waiting",
            ActivityStateValue::Blocked => "blocked",
            ActivityStateValue::Stopped => "stopped",
            ActivityStateValue::Unknown => "unknown",
        }
    }

    /// The kind of activity that a word is for.
    pub fn from_label(word: &str) -> (value: Option<ActivityStateValue>)
        ensures
            value == Self::worded(word@),
    {
        if same_text(word, "working") {
            Some(ActivityStateValue::Working)
        } else if same_text(word, "idle") {
            Some(ActivityStateValue::Idle)
        } else if same_text(word, "waiting") {
            Some(ActivityStateValue::Waiting)
        } else if same_text(word, "blocked") {
            Some(ActivityStateValue::Blocked)
        } else if same_text(word, "stopped") {
            Some(ActivityStateValue::Stopped)
        } else if same_text(word, "unknown") {
            Some(ActivityStateValue::Unknown)
        } else {
            None
        }
    }

    /// The kind of activity that a word from outside is taken for.
    pub fn from_external(word: &str) -> (value: ActivityStateValue)
        ensures
            value == Self::external(word@),
    {
        match Self::from_label(word) {
            Some(value) => value,
            None => ActivityStateValue::Unknown,
        }
    }
}

impl ActivityState {
    /// No activity is known.
    pub open spec fn nothing_known(updated_at: Timestamp) -> ActivityState {
        ActivityState { value: ActivityStateValue::Unknown, updated_at }
    }

    /// No activity is known.
    pub fn unknown(updated_at: Timestamp) -> (state: ActivityState)
        ensures
            state == Self::nothing_known(updated_at),
    {
        ActivityState { value: ActivityStateValue::Unknown, updated_at }
    }

    /// The activity that a word from outside is taken for.
    pub fn from_external(word: &str, updated_at: Timestamp) -> (state: ActivityState)
        ensures
            state == (ActivityState { value: ActivityStateValue::external(word@), updated_at }),
    {
        ActivityState { value: ActivityStateValue::from_external(word), updated_at }
    }
}

} // verus!
