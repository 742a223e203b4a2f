//! Discovering identities: those of a realm, and those that were updated of late.

use crate::assignment::{
    assignment_of, option_view, Assignment, AssignmentView, RecordView, StoredAssignment,
};
use crate::error::{Error, ErrorView};
use crate::host::{PlaceView, Reply, ReplyView, Request, RequestView, Step, StepView};
use crate::identity::{component, normalize_component};
use crate::order::{seq_view, stable_sort, stably_sorted};
use crate::registry::{sessions_place, Registry};
use crate::text::{chars_of, same_text, text_between};
use crate::timestamp::Timestamp;
use vstd::prelude::*;

verus! {

/// Several assignments.
pub struct AssignmentList {
    pub assignments: Vec<Assignment>,
}

impl View for AssignmentList {
    type V = Seq<AssignmentView>;

    open spec fn view(&self) -> Seq<AssignmentView> {
        seq_view(self.assignments@)
    }
}

/// Whether a file of the directory of records is one, going by its name: something,
/// and then `.json`.
pub open spec fn names_record(file_name: Seq<char>) -> bool {
    file_name.len() > 5 && file_name.skip(file_name.len() - 5) == ".json"@
}

/// Whether a file of the directory of records is one.
pub fn is_record_name(file_name: &str) -> (yes: bool)
    ensures
        yes == names_record(file_name@),
{
    let chars = chars_of(file_name);
    if chars.len() <= 5 {
        return false;
    }
    let ending = text_between(&chars, chars.len() - 5, chars.len());
    assert(ending@ =~= file_name@.skip(file_name@.len() - 5));
    same_text(ending.as_str(), ".json")
}

// ---------------------------------------------------------------------------
// What is found
// ---------------------------------------------------------------------------
/// The assignments that some records tell.
pub open spec fn assignments_of(records: Seq<RecordView>) -> Seq<AssignmentView> {
    Seq::new(records.len(), |i: int| assignment_of(records[i]))
}

/// Whether an assignment is of a realm, where one is given, and not updated before a
/// cutoff, where one is given.
pub open spec fn sought(
    assignment: AssignmentView,
    realm: Option<Seq<char>>,
    cutoff: Option<Timestamp>,
) -> bool {
    &&& realm is Some ==> assignment.realm == realm->0
    &&& cutoff is Some ==> !assignment.updated_at.before(cutoff->0)
}

/// Whether an assignment was updated after another.
pub open spec fn newer(left: AssignmentView, right: AssignmentView) -> bool {
    right.updated_at.before(left.updated_at)
}

/// The assignments that are sought, those updated last first.
pub open spec fn discovered(
    assignments: Seq<AssignmentView>,
    realm: Option<Seq<char>>,
    cutoff: Option<Timestamp>,
) -> Seq<AssignmentView> {
    stably_sorted(
        assignments.filter(|a: AssignmentView| sought(a, realm, cutoff)),
        |a: AssignmentView, b: AssignmentView| newer(a, b),
    )
}

/// The assignments that some records tell.
pub fn read_assignments(records: Vec<StoredAssignment>) -> (assignments: Vec<Assignment>)
    ensures
        seq_view(assignments@) == assignments_of(seq_view(records@)),
{
    let ghost given = records@;
    let mut assignments: Vec<Assignment> = Vec::new();
    for record in it: records
        invariant
            it.seq() == given,
            assignments@.len() == it.index(),
            forall|i: int|
                0 <= i < assignments@.len() ==> (#[trigger] assignments@[i])@ == assignment_of(
                    given[i]@,
                ),
    {
        assignments.push(record.into_assignment());
    }
    assert(seq_view(assignments@) =~= assignments_of(seq_view(given)));
    assignments
}

/// Whether an assignment is sought.
fn is_sought(assignment: &Assignment, realm: &Option<String>, cutoff: Option<Timestamp>) -> (yes:
    bool)
    ensures
        yes == sought(assignment@, option_view(*realm), cutoff),
{
    let realm_fits = match realm {
        Some(realm) => same_text(realm.as_str(), assignment.realm.as_str()),
        None => true,
    };
    let late_enough = match cutoff {
        Some(cutoff) => !assignment.updated_at.is_before(&cutoff),
        None => true,
    };
    realm_fits && late_enough
}

/// Whether an assignment was updated after another.
fn is_newer(left: &Assignment, right: &Assignment) -> (yes: bool)
    ensures
        yes == newer(left@, right@),
{
    right.updated_at.is_before(&left.updated_at)
}

/// The assignments that are sought, those updated last first.
pub fn select_assignments(
    assignments: Vec<Assignment>,
    realm: &Option<String>,
    cutoff: Option<Timestamp>,
) -> (found: Vec<Assignment>)
    ensures
        seq_view(found@) == discovered(seq_view(assignments@), option_view(*realm), cutoff),
{
    let ghost given = assignments@;
    let ghost all = seq_view(given);
    let ghost wanted = |a: AssignmentView| sought(a, option_view(*realm), cutoff);
    let mut kept: Vec<Assignment> = Vec::new();
    proof {
        reveal(Seq::filter);
        assert(seq_view(kept@) =~= all.take(0).filter(wanted));
    }
    for assignment in it: assignments
        invariant
            it.seq() == given,
            all == seq_view(given),
            wanted == (|a: AssignmentView| sought(a, option_view(*realm), cutoff)),
            seq_view(kept@) == all.take(it.index()).filter(wanted),
    {
        let ghost before = seq_view(kept@);
        proof {
            reveal(Seq::filter);
            assert(all.take(it.index() + 1).drop_last() =~= all.take(it.index()));
        }
        if is_sought(&assignment, realm, cutoff) {
            kept.push(assignment);
            assert(seq_view(kept@) =~= before.push(assignment@));
        }
    }
    assert(all.take(all.len() as int) =~= all);
    let ghost order = |a: AssignmentView, b: AssignmentView| newer(a, b);
    stable_sort(kept, is_newer, Ghost(order))
}

// ---------------------------------------------------------------------------
// The task
// ---------------------------------------------------------------------------
/// A discovery.
pub struct Discovery {
    pub registry: Registry,
    pub realm: Option<String>,
    pub stage: DiscoveryStage,
}

/// What a discovery waits for.
pub enum DiscoveryStage {
    /// The time, from which a number of hours is counted back.
    Dating { hours: i64 },
    /// The records.
    Listing { cutoff: Option<Timestamp> },
}

pub struct DiscoveryView {
    pub registry: PlaceView,
    pub realm: Option<Seq<char>>,
    pub stage: DiscoveryStage,
}

impl View for Discovery {
    type V = DiscoveryView;

    open spec fn view(&self) -> DiscoveryView {
        DiscoveryView {
            registry: self.registry@,
            realm: option_view(self.realm),
            stage: self.stage,
        }
    }
}

pub type DiscoveryStep = Step<Discovery, AssignmentList>;

pub type DiscoveryStepView = StepView<DiscoveryView, Seq<AssignmentView>>;

/// The records are listed.
pub open spec fn records_listed(
    registry: PlaceView,
    realm: Option<Seq<char>>,
    cutoff: Option<Timestamp>,
) -> DiscoveryStepView {
    StepView::Ask {
        request: RequestView::ListSessions { place: sessions_place(registry) },
        then: DiscoveryView { registry, realm, stage: DiscoveryStage::Listing { cutoff } },
    }
}

/// A discovery starts with the time, where it looks a number of hours back, or else
/// with the records.
pub open spec fn discovery_begun(
    registry: PlaceView,
    recent_hours: Option<i64>,
    realm: Option<Seq<char>>,
) -> DiscoveryStepView {
    let part = match realm {
        Some(realm) => component(realm),
        None => None,
    };
    if recent_hours is Some && recent_hours->0 < 0 {
        StepView::failure(ErrorView::NegativeRecent)
    } else if realm is Some && part is None {
        StepView::failure(ErrorView::InvalidComponent { kind: "realm"@ })
    } else {
        match recent_hours {
            Some(hours) => StepView::Ask {
                request: RequestView::ReadClock,
                then: DiscoveryView {
                    registry,
                    realm: part,
                    stage: DiscoveryStage::Dating { hours },
                },
            },
            None => records_listed(registry, part, None),
        }
    }
}

/// Whether the hours that a discovery looks back, if it waits for the time, reach an
/// instant.
pub open spec fn discovery_answerable(task: DiscoveryView, reply: ReplyView) -> bool {
    match (task.stage, reply) {
        (DiscoveryStage::Dating { hours }, ReplyView::Instant { now }) => hours >= 0
            && now.reaches_back(hours as int),
        _ => true,
    }
}

/// How a discovery goes on with a reply. Where there is no directory of records,
/// nothing is found.
pub open spec fn discovery_resumed(task: DiscoveryView, reply: ReplyView) -> DiscoveryStepView {
    match (task.stage, reply) {
        (DiscoveryStage::Dating { hours }, ReplyView::Instant { now }) => records_listed(
            task.registry,
            task.realm,
            Some(now.earlier_by(hours as int)),
        ),
        (DiscoveryStage::Listing { cutoff }, ReplyView::Sessions { records }) => StepView::Over {
            result: Ok(discovered(assignments_of(records), task.realm, cutoff)),
        },
        (DiscoveryStage::Listing { .. }, ReplyView::Missing) => StepView::Over {
            result: Ok(Seq::empty()),
        },
        _ => StepView::failure(ErrorView::OutOfTurn),
    }
}

/// Lists the records.
fn list_records(registry: Registry, realm: Option<String>, cutoff: Option<Timestamp>) -> (step:
    DiscoveryStep)
    ensures
        step@ == records_listed(registry@, option_view(realm), cutoff),
{
    Step::Ask {
        request: Request::ListSessions { place: registry.sessions_path() },
        then: Discovery { registry, realm, stage: DiscoveryStage::Listing { cutoff } },
    }
}

/// Starts a discovery.
pub fn begin_discovery(registry: Registry, recent_hours: Option<i64>, realm: Option<String>) -> (
    step: DiscoveryStep)
    ensures
        step@ == discovery_begun(registry@, recent_hours, option_view(realm)),
{
    if let Some(hours) = recent_hours {
        if hours < 0 {
            return Step::Over { result: Err(Error::NegativeRecent) };
        }
    }
    let realm = match realm {
        Some(realm) => match normalize_component(realm.as_str(), "realm") {
            Ok(realm) => Some(realm),
            Err(error) => return Step::Over { result: Err(error) },
        },
        None => None,
    };
    match recent_hours {
        Some(hours) => Step::Ask {
            request: Request::ReadClock,
            then: Discovery { registry, realm, stage: DiscoveryStage::Dating { hours } },
        },
        None => list_records(registry, realm, None),
    }
}

impl Discovery {
    /// Whether the discovery can go on with a reply: the hours that it looks back
    /// reach an instant.
    pub fn can_resume(&self, reply: &Reply) -> (yes: bool)
        ensures
            yes == discovery_answerable(self@, reply@),
    {
        match (&self.stage, reply) {
            (DiscoveryStage::Dating { hours }, Reply::Instant { now }) => *hours >= 0
                && now.can_go_back(*hours),
            _ => true,
        }
    }

    /// Goes on with a reply.
    pub fn resume(self, reply: Reply) -> (step: DiscoveryStep)
        requires
            discovery_answerable(self@, reply@),
        ensures
            step@ == discovery_resumed(self@, reply@),
    {
        let Discovery { registry, realm, stage } = self;
        match (stage, reply) {
            (DiscoveryStage::Dating { hours }, Reply::Instant { now }) => list_records(
                registry,
                realm,
                Some(now.hours_before(hours)),
            ),
            (DiscoveryStage::Listing { cutoff }, Reply::Sessions { records }) => {
                let assignments = read_assignments(records);
                Step::Over {
                    result: Ok(
                        AssignmentList {
                            assignments: select_assignments(assignments, &realm, cutoff),
                        },
                    ),
                }
            },
            (DiscoveryStage::Listing { .. }, Reply::Missing) => {
                let list = AssignmentList { assignments: Vec::new() };
                assert(list@ =~= Seq::<AssignmentView>::empty());
                Step::Over { result: Ok(list) }
            },
            _ => Step::Over { result: Err(Error::OutOfTurn) },
        }
    }
}

} // verus!
