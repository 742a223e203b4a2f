//! Looking an identity up: by its session, its name or its slug.

use crate::assignment::{assignment_of, Assignment, AssignmentView, RecordView, StoredAssignment};
use crate::error::{Error, ErrorView};
use crate::host::{PlaceView, Reply, ReplyView, Request, RequestView, Step, StepView};
use crate::identity::{lookup_slugs, slugs_for};
use crate::registry::{claim_place, session_place, Registry};
use crate::text::{same_text, views};
use crate::validation::{nonempty, require_nonempty, session_id, validate_session_id};
use vstd::prelude::*;

verus! {

/// The assignment of a session, which its record tells where it is the session's own.
pub open spec fn own_assignment(id: Seq<char>, record: RecordView) -> Result<
    AssignmentView,
    ErrorView,
> {
    if record.session_id == id {
        Ok(assignment_of(record))
    } else {
        Err(ErrorView::ForeignRecord { session_id: id })
    }
}

/// A result over the views of its assignment and its error.
pub open spec fn assignment_outcome(result: Result<Assignment, Error>) -> Result<
    AssignmentView,
    ErrorView,
> {
    match result {
        Ok(assignment) => Ok(assignment@),
        Err(error) => Err(error@),
    }
}

/// The assignment of a session, which its record tells where it is the session's own.
pub fn claim_record(id: &str, record: StoredAssignment) -> (result: Result<Assignment, Error>)
    ensures
        assignment_outcome(result) == own_assignment(id@, record@),
{
    if !same_text(record.session_id.as_str(), id) {
        return Err(Error::ForeignRecord { session_id: id.to_owned() });
    }
    Ok(record.into_assignment())
}

// ---------------------------------------------------------------------------
// The task
// ---------------------------------------------------------------------------
/// A lookup.
pub struct Lookup {
    pub registry: Registry,
    pub input: String,
    pub stage: LookupStage,
}

/// What a lookup waits for.
pub enum LookupStage {
    /// The record of the session with the ID that is looked up.
    BySession { session_id: String },
    /// The claim of one of some slugs.
    ByName { slugs: Vec<String>, at: usize },
    /// The record of the session that claims a slug.
    Claimed { slug: String, session_id: String },
}

pub struct LookupView {
    pub registry: PlaceView,
    pub input: Seq<char>,
    pub stage: LookupStageView,
}

pub enum LookupStageView {
    BySession { session_id: Seq<char> },
    ByName { slugs: Seq<Seq<char>>, at: nat },
    Claimed { slug: Seq<char>, session_id: Seq<char> },
}

impl View for LookupStage {
    type V = LookupStageView;

    open spec fn view(&self) -> LookupStageView {
        match *self {
            LookupStage::BySession { session_id } => LookupStageView::BySession {
                session_id: session_id@,
            },
            LookupStage::ByName { slugs, at } => LookupStageView::ByName {
                slugs: views(slugs@),
                at: at as nat,
            },
            LookupStage::Claimed { slug, session_id } => LookupStageView::Claimed {
                slug: slug@,
                session_id: session_id@,
            },
        }
    }
}

impl View for Lookup {
    type V = LookupView;

    open spec fn view(&self) -> LookupView {
        LookupView { registry: self.registry@, input: self.input@, stage: self.stage@ }
    }
}

pub type LookupStep = Step<Lookup, Assignment>;

pub type LookupStepView = StepView<LookupView, AssignmentView>;

/// A lookup starts with the session of that ID, where the input can be one.
pub open spec fn lookup_begun(registry: PlaceView, input: Seq<char>) -> LookupStepView {
    match nonempty(input, "lookup identifier"@) {
        Err(error) => StepView::failure(error),
        Ok(text) => match session_id(text) {
            Ok(id) => StepView::Ask {
                request: RequestView::FindSession {
                    session_id: id,
                    place: session_place(registry, id),
                },
                then: LookupView {
                    registry,
                    input: text,
                    stage: LookupStageView::BySession { session_id: id },
                },
            },
            Err(_) => names_searched(registry, text, slugs_for(text), 0),
        },
    }
}

/// From one of some slugs on, the claims are read in turn.
pub open spec fn names_searched(
    registry: PlaceView,
    input: Seq<char>,
    slugs: Seq<Seq<char>>,
    at: nat,
) -> LookupStepView {
    if at < slugs.len() {
        StepView::Ask {
            request: RequestView::FindClaim {
                slug: slugs[at as int],
                place: claim_place(registry, slugs[at as int]),
            },
            then: LookupView { registry, input, stage: LookupStageView::ByName { slugs, at } },
        }
    } else {
        StepView::failure(ErrorView::NoIdentity { input })
    }
}

/// The claim of a slug leads to the session that it names.
pub open spec fn claim_followed(
    registry: PlaceView,
    input: Seq<char>,
    slug: Seq<char>,
    text: Seq<char>,
) -> LookupStepView {
    match nonempty(text, "claimed session ID"@) {
        Err(error) => StepView::failure(error),
        Ok(claimed) => match session_id(claimed) {
            Err(error) => StepView::failure(
                ErrorView::BrokenClaim { slug, failure: Box::new(error) },
            ),
            Ok(id) => StepView::Ask {
                request: RequestView::FindSession {
                    session_id: id,
                    place: session_place(registry, id),
                },
                then: LookupView {
                    registry,
                    input,
                    stage: LookupStageView::Claimed { slug, session_id: id },
                },
            },
        },
    }
}

/// What is wrong with the session that claims a slug is wrong with the claim.
pub open spec fn within_claim(
    slug: Seq<char>,
    result: Result<AssignmentView, ErrorView>,
) -> Result<AssignmentView, ErrorView> {
    match result {
        Ok(assignment) => Ok(assignment),
        Err(failure) => Err(ErrorView::BrokenClaim { slug, failure: Box::new(failure) }),
    }
}

/// How a lookup goes on with a reply.
pub open spec fn lookup_resumed(task: LookupView, reply: ReplyView) -> LookupStepView {
    match (task.stage, reply) {
        (LookupStageView::BySession { session_id }, ReplyView::Session { record }) => {
            StepView::Over { result: own_assignment(session_id, record) }
        },
        (LookupStageView::BySession { .. }, ReplyView::Missing) => names_searched(
            task.registry,
            task.input,
            slugs_for(task.input),
            0,
        ),
        (LookupStageView::ByName { slugs, at }, ReplyView::Missing) => names_searched(
            task.registry,
            task.input,
            slugs,
            at + 1,
        ),
        (LookupStageView::ByName { slugs, at }, ReplyView::Contents { text, .. }) => if at
            < slugs.len() {
            claim_followed(task.registry, task.input, slugs[at as int], text)
        } else {
            StepView::failure(ErrorView::OutOfTurn)
        },
        (LookupStageView::Claimed { slug, session_id }, ReplyView::Session { record }) => {
            StepView::Over { result: within_claim(slug, own_assignment(session_id, record)) }
        },
        (LookupStageView::Claimed { slug, session_id }, ReplyView::Missing) => StepView::Over {
            result: within_claim(slug, Err(ErrorView::NotRegistered { session_id })),
        },
        _ => StepView::failure(ErrorView::OutOfTurn),
    }
}

/// Starts a lookup.
pub fn begin_lookup(registry: Registry, input: &str) -> (step: LookupStep)
    ensures
        step@ == lookup_begun(registry@, input@),
{
    let text = match require_nonempty(input, "lookup identifier") {
        Ok(text) => text,
        Err(error) => return Step::Over { result: Err(error) },
    };
    match validate_session_id(text.as_str()) {
        Ok(id) => Step::Ask {
            request: Request::FindSession {
                session_id: id.clone(),
                place: registry.session_path(id.as_str()),
            },
            then: Lookup {
                registry,
                input: text,
                stage: LookupStage::BySession { session_id: id },
            },
        },
        Err(_) => {
            let slugs = lookup_slugs(text.as_str());
            search_names(registry, text, slugs, 0)
        },
    }
}

/// Reads the claims in turn, from one of some slugs on.
fn search_names(registry: Registry, input: String, slugs: Vec<String>, at: usize) -> (step:
    LookupStep)
    ensures
        step@ == names_searched(registry@, input@, views(slugs@), at as nat),
{
    if at < slugs.len() {
        let slug = slugs[at].clone();
        let place = registry.claim_path(slug.as_str());
        Step::Ask {
            request: Request::FindClaim { slug, place },
            then: Lookup { registry, input, stage: LookupStage::ByName { slugs, at } },
        }
    } else {
        Step::Over { result: Err(Error::NoIdentity { input }) }
    }
}

/// Goes from the claim of a slug to the session that it names.
fn follow_claim(registry: Registry, input: String, slug: String, text: &str) -> (step: LookupStep)
    ensures
        step@ == claim_followed(registry@, input@, slug@, text@),
{
    let claimed = match require_nonempty(text, "claimed session ID") {
        Ok(claimed) => claimed,
        Err(error) => return Step::Over { result: Err(error) },
    };
    match validate_session_id(claimed.as_str()) {
        Err(error) => Step::Over {
            result: Err(Error::BrokenClaim { slug, failure: Box::new(error) }),
        },
        Ok(id) => Step::Ask {
            request: Request::FindSession {
                session_id: id.clone(),
                place: registry.session_path(id.as_str()),
            },
            then: Lookup { registry, input, stage: LookupStage::Claimed { slug, session_id: id } },
        },
    }
}

impl Lookup {
    /// Goes on with a reply.
    pub fn resume(self, reply: Reply) -> (step: LookupStep)
        ensures
            step@ == lookup_resumed(self@, reply@),
    {
        let Lookup { registry, input, stage } = self;
        match (stage, reply) {
            (LookupStage::BySession { session_id }, Reply::Session { record }) => Step::Over {
                result: claim_record(session_id.as_str(), record),
            },
            (LookupStage::BySession { .. }, Reply::Missing) => {
                let slugs = lookup_slugs(input.as_str());
                search_names(registry, input, slugs, 0)
            },
            (LookupStage::ByName { slugs, at }, Reply::Missing) => {
                let next: usize = if at < slugs.len() {
                    at + 1
                } else {
                    at
                };
                search_names(registry, input, slugs, next)
            },
            (LookupStage::ByName { slugs, at }, Reply::Contents { text, .. }) => {
                if at >= slugs.len() {
                    return Step::Over { result: Err(Error::OutOfTurn) };
                }
                follow_claim(registry, input, slugs[at].clone(), text.as_str())
            },
            (LookupStage::Claimed { slug, session_id }, Reply::Session { record }) => {
                match claim_record(session_id.as_str(), record) {
                    Ok(assignment) => Step::Over { result: Ok(assignment) },
                    Err(error) => Step::Over {
                        result: Err(Error::BrokenClaim { slug, failure: Box::new(error) }),
                    },
                }
            },
            (LookupStage::Claimed { slug, session_id }, Reply::Missing) => {
                let ghost id = session_id@;
                let failure = Error::NotRegistered { session_id };
                assert(failure@ == (ErrorView::NotRegistered { session_id: id }));
                Step::Over { result: Err(Error::BrokenClaim { slug, failure: Box::new(failure) }) }
            },
            _ => Step::Over { result: Err(Error::OutOfTurn) },
        }
    }
}

} // verus!
