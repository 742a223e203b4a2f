//! What is asked of the host, which reads and writes the files, and what the host
//! replies.

use crate::assignment::{option_view, RecordView, StoredAssignment};
use crate::error::{Error, ErrorView};
use crate::herdr::{Snapshot, SnapshotView};
use crate::order::seq_view;
use crate::text::chars_of;
use crate::timestamp::Timestamp;
use std::path::PathBuf;
use vstd::prelude::*;
use vstd::string::StringExecFns;

verus! {

/// A path of the file system.
#[verifier::external_type_specification]
#[verifier::external_body]
pub struct ExPathBuf(PathBuf);

/// `PathBuf::clone` makes the same path again.
pub assume_specification[ <PathBuf as Clone>::clone ](path: &PathBuf) -> (copy: PathBuf)
    ensures
        copy == *path,
;

/// Where a file or directory stands: below a path, or the path itself where nothing is
/// below it, or somewhere else where what is below it starts at the root.
#[derive(Debug)]
pub struct Place {
    pub base: PathBuf,
    pub below: String,
}

pub struct PlaceView {
    pub base: PathBuf,
    pub below: Seq<char>,
}

impl View for Place {
    type V = PlaceView;

    open spec fn view(&self) -> PlaceView {
        PlaceView { base: self.base, below: self.below@ }
    }
}

impl Clone for Place {
    fn clone(&self) -> (copy: Self)
        ensures
            copy@ == self@,
    {
        Place { base: self.base.clone(), below: self.below.clone() }
    }
}

/// Whether a path starts at the root.
pub open spec fn is_absolute(path: Seq<char>) -> bool {
    path.len() > 0 && path[0] == '/'
}

/// A place further below another. A path that starts at the root takes the place of what
/// it is below.
pub open spec fn place_below(place: PlaceView, further: Seq<char>) -> PlaceView {
    PlaceView {
        base: place.base,
        below: if place.below.len() == 0 || is_absolute(further) {
            further
        } else {
            place.below + "/"@ + further
        },
    }
}

impl Place {
    /// A place further below, or at the root where the path starts there.
    pub fn join(&self, further: &str) -> (place: Place)
        ensures
            place@ == place_below(self@, further@),
    {
        let chars = chars_of(further);
        let absolute = chars.len() > 0 && chars[0] == '/';
        if absolute || self.below.as_str().is_empty() {
            return Place { base: self.base.clone(), below: further.to_owned() };
        }
        let mut below = self.below.clone();
        below.append("/");
        below.append(further);
        Place { base: self.base.clone(), below }
    }
}

/// The values of the environment.
pub struct Environment {
    /// `AGENT_ID_SESSION_ID`
    pub session_id: Option<String>,
    /// `AGENT_REALM`
    pub realm: Option<String>,
    /// `AGENT_ID_HOME`
    pub registry_home: Option<PathBuf>,
    /// `XDG_DATA_HOME`
    pub data_home: Option<PathBuf>,
    /// `XDG_CONFIG_HOME`
    pub config_home: Option<PathBuf>,
    /// `HOME`
    pub home: Option<PathBuf>,
    /// `HERDR_ENV`
    pub herdr_marker: Option<String>,
    /// `HERDR_SOCKET_PATH`
    pub herdr_socket_path: Option<String>,
}

pub struct EnvironmentView {
    pub session_id: Option<Seq<char>>,
    pub realm: Option<Seq<char>>,
    pub registry_home: Option<PathBuf>,
    pub data_home: Option<PathBuf>,
    pub config_home: Option<PathBuf>,
    pub home: Option<PathBuf>,
    pub herdr_marker: Option<Seq<char>>,
    pub herdr_socket_path: Option<Seq<char>>,
}

impl View for Environment {
    type V = EnvironmentView;

    open spec fn view(&self) -> EnvironmentView {
        EnvironmentView {
            session_id: option_view(self.session_id),
            realm: option_view(self.realm),
            registry_home: self.registry_home,
            data_home: self.data_home,
            config_home: self.config_home,
            home: self.home,
            herdr_marker: option_view(self.herdr_marker),
            herdr_socket_path: option_view(self.herdr_socket_path),
        }
    }
}

/// What is asked of the host.
pub enum Request {
    /// Read the record of a session, where there is one.
    FindSession { session_id: String, place: Place },
    /// Read the records of all sessions in a directory, where there is one.
    ListSessions { place: Place },
    /// Write the record of a session, in place of one that there is.
    ReplaceSession { session_id: String, place: Place, record: StoredAssignment },
    /// Write the record of a session, where there is none.
    CreateSession { session_id: String, place: Place, record: StoredAssignment },
    /// Remove the record of a session.
    RemoveSession { session_id: String, place: Place },
    /// Make the directories of the records and of the claims of names.
    PrepareDirectories { sessions: Place, names: Place },
    /// Write the claim of a name, where there is none.
    ClaimName { slug: String, place: Place, contents: String },
    /// Read the claim of a name, where there is a file of it.
    FindClaim { slug: String, place: Place },
    /// Read the claim of a name, whatever there is of it.
    ReadClaim { slug: String, place: Place },
    /// Remove the claim of a name.
    RemoveClaim { slug: String, place: Place },
    /// Read the file of the realm, where there is one.
    FindRealm { place: Place },
    /// Write the file of the realm, where there is none.
    CreateRealm { place: Place, contents: String },
    /// Tell the time.
    ReadClock,
    /// Ask Herdr of the agents that run.
    LoadSnapshot,
}

pub enum RequestView {
    FindSession { session_id: Seq<char>, place: PlaceView },
    ListSessions { place: PlaceView },
    ReplaceSession { session_id: Seq<char>, place: PlaceView, record: RecordView },
    CreateSession { session_id: Seq<char>, place: PlaceView, record: RecordView },
    RemoveSession { session_id: Seq<char>, place: PlaceView },
    PrepareDirectories { sessions: PlaceView, names: PlaceView },
    ClaimName { slug: Seq<char>, place: PlaceView, contents: Seq<char> },
    FindClaim { slug: Seq<char>, place: PlaceView },
    ReadClaim { slug: Seq<char>, place: PlaceView },
    RemoveClaim { slug: Seq<char>, place: PlaceView },
    FindRealm { place: PlaceView },
    CreateRealm { place: PlaceView, contents: Seq<char> },
    ReadClock,
    LoadSnapshot,
}

impl View for Request {
    type V = RequestView;

    open spec fn view(&self) -> RequestView {
        match *self {
            Request::FindSession { session_id, place } => RequestView::FindSession {
                session_id: session_id@,
                place: place@,
            },
            Request::ListSessions { place } => RequestView::ListSessions { place: place@ },
            Request::ReplaceSession { session_id, place, record } => RequestView::ReplaceSession {
                session_id: session_id@,
                place: place@,
                record: record@,
            },
            Request::CreateSession { session_id, place, record } => RequestView::CreateSession {
                session_id: session_id@,
                place: place@,
                record: record@,
            },
            Request::RemoveSession { session_id, place } => RequestView::RemoveSession {
                session_id: session_id@,
                place: place@,
            },
            Request::PrepareDirectories { sessions, names } => RequestView::PrepareDirectories {
                sessions: sessions@,
                names: names@,
            },
            Request::ClaimName { slug, place, contents } => RequestView::ClaimName {
                slug: slug@,
                place: place@,
                contents: contents@,
            },
            Request::FindClaim { slug, place } => RequestView::FindClaim {
                slug: slug@,
                place: place@,
            },
            Request::ReadClaim { slug, place } => RequestView::ReadClaim {
                slug: slug@,
                place: place@,
            },
            Request::RemoveClaim { slug, place } => RequestView::RemoveClaim {
                slug: slug@,
                place: place@,
            },
            Request::FindRealm { place } => RequestView::FindRealm { place: place@ },
            Request::CreateRealm { place, contents } => RequestView::CreateRealm {
                place: place@,
                contents: contents@,
            },
            Request::ReadClock => RequestView::ReadClock,
            Request::LoadSnapshot => RequestView::LoadSnapshot,
        }
    }
}

/// What the host replies.
pub enum Reply {
    /// There is no such thing.
    Missing,
    /// The record of a session.
    Session { record: StoredAssignment },
    /// The records of all sessions.
    Sessions { records: Vec<StoredAssignment> },
    /// What a file holds, and its path.
    Contents { path: String, text: String },
    /// It was done.
    Performed,
    /// It was not done, because the file is there; what the file holds.
    Exists { text: String },
    /// It was not done, or not read, because of an error at a path.
    Failed { path: String, error: String },
    /// What time it is.
    Instant { now: Timestamp },
    /// What Herdr tells.
    Runtime { snapshot: Snapshot },
}

pub enum ReplyView {
    Missing,
    Session { record: RecordView },
    Sessions { records: Seq<RecordView> },
    Contents { path: Seq<char>, text: Seq<char> },
    Performed,
    Exists { text: Seq<char> },
    Failed { path: Seq<char>, error: Seq<char> },
    Instant { now: Timestamp },
    Runtime { snapshot: SnapshotView },
}

impl View for Reply {
    type V = ReplyView;

    open spec fn view(&self) -> ReplyView {
        match *self {
            Reply::Missing => ReplyView::Missing,
            Reply::Session { record } => ReplyView::Session { record: record@ },
            Reply::Sessions { records } => ReplyView::Sessions { records: seq_view(records@) },
            Reply::Contents { path, text } => ReplyView::Contents { path: path@, text: text@ },
            Reply::Performed => ReplyView::Performed,
            Reply::Exists { text } => ReplyView::Exists { text: text@ },
            Reply::Failed { path, error } => ReplyView::Failed { path: path@, error: error@ },
            Reply::Instant { now } => ReplyView::Instant { now },
            Reply::Runtime { snapshot } => ReplyView::Runtime { snapshot: snapshot@ },
        }
    }
}

/// What comes next in a task: something is asked of the host, whose reply the rest of
/// the task takes, or the task is over.
pub enum Step<K, T> {
    Ask { request: Request, then: K },
    Over { result: Result<T, Error> },
}

pub enum StepView<K, T> {
    Ask { request: RequestView, then: K },
    Over { result: Result<T, ErrorView> },
}

impl<K: View, T: View> View for Step<K, T> {
    type V = StepView<K::V, T::V>;

    open spec fn view(&self) -> StepView<K::V, T::V> {
        match *self {
            Step::Ask { request, then } => StepView::Ask { request: request@, then: then@ },
            Step::Over { result } => StepView::Over {
                result: match result {
                    Ok(value) => Ok(value@),
                    Err(error) => Err(error@),
                },
            },
        }
    }
}

impl<K, T> StepView<K, T> {
    /// A task that is over with an error.
    pub open spec fn failure(error: ErrorView) -> StepView<K, T> {
        StepView::Over { result: Err(error) }
    }
}

} // verus!
