//! Pruning: removing the identities that were not updated for long, and the claims of
//! their names.

use crate::assignment::{Assignment, AssignmentView};
use crate::discovery::{assignments_of, read_assignments};
use crate::error::{Error, ErrorView};
use crate::host::{PlaceView, Reply, ReplyView, Request, RequestView, Step, StepView};
use crate::order::{seq_view, stable_sort, stably_sorted};
use crate::registry::{claim_place, session_place, sessions_place, Registry};
use crate::text::{same_text, trim, trimmed, views};
use crate::timestamp::Timestamp;
use vstd::prelude::*;
use vstd::string::StringExecFns;

verus! {

// ---------------------------------------------------------------------------
// Reports
// ---------------------------------------------------------------------------
/// An identity that was removed.
#[derive(Debug, Clone)]
pub struct PrunedIdentity {
    pub session_id: String,
    pub name: String,
    pub slug: String,
    pub updated_at: Timestamp,
    pub claim_removed: bool,
}

pub struct PrunedView {
    pub session_id: Seq<char>,
    pub name: Seq<char>,
    pub slug: Seq<char>,
    pub updated_at: Timestamp,
    pub claim_removed: bool,
}

impl View for PrunedIdentity {
    type V = PrunedView;

    open spec fn view(&self) -> PrunedView {
        PrunedView {
            session_id: self.session_id@,
            name: self.name@,
            slug: self.slug@,
            updated_at: self.updated_at,
            claim_removed: self.claim_removed,
        }
    }
}

/// What a pruning did, or would do.
#[derive(Debug, Clone)]
pub struct PruneReport {
    pub cutoff: Timestamp,
    pub dry_run: bool,
    pub candidates: Vec<Assignment>,
    pub removed: Vec<PrunedIdentity>,
    pub errors: Vec<String>,
}

pub struct ReportView {
    pub cutoff: Timestamp,
    pub dry_run: bool,
    pub candidates: Seq<AssignmentView>,
    pub removed: Seq<PrunedView>,
    pub errors: Seq<Seq<char>>,
}

impl View for PruneReport {
    type V = ReportView;

    open spec fn view(&self) -> ReportView {
        ReportView {
            cutoff: self.cutoff,
            dry_run: self.dry_run,
            candidates: seq_view(self.candidates@),
            removed: seq_view(self.removed@),
            errors: views(self.errors@),
        }
    }
}

/// A report of nothing.
pub open spec fn empty_report(cutoff: Timestamp, dry_run: bool) -> ReportView {
    ReportView {
        cutoff,
        dry_run,
        candidates: Seq::empty(),
        removed: Seq::empty(),
        errors: Seq::empty(),
    }
}

/// A report with one error more.
pub open spec fn with_error(report: ReportView, error: Seq<char>) -> ReportView {
    ReportView { errors: report.errors.push(error), ..report }
}

/// A report in which one of the candidates is removed.
pub open spec fn with_removed(report: ReportView, at: int, claim_removed: bool) -> ReportView {
    let assignment = report.candidates[at];
    ReportView {
        removed: report.removed.push(
            PrunedView {
                session_id: assignment.session_id,
                name: assignment.name,
                slug: assignment.slug,
                updated_at: assignment.updated_at,
                claim_removed,
            },
        ),
        ..report
    }
}

/// An error at a path.
pub open spec fn error_at(action: Seq<char>, path: Seq<char>, error: Seq<char>) -> Seq<char> {
    action + path + ": "@ + error
}

/// The complaint that a claim is another session's.
pub open spec fn foreign_claim(path: Seq<char>, owner: Seq<char>, session_id: Seq<char>) -> Seq<
    char,
> {
    "name claim "@ + path + " belongs to "@ + owner + ", not "@ + session_id
}

/// Whether an assignment was updated before another.
pub open spec fn older(left: AssignmentView, right: AssignmentView) -> bool {
    left.updated_at.before(right.updated_at)
}

/// The assignments that were updated before a cutoff, those updated first first.
pub open spec fn expired(assignments: Seq<AssignmentView>, cutoff: Timestamp) -> Seq<
    AssignmentView,
> {
    stably_sorted(
        assignments.filter(|a: AssignmentView| a.updated_at.before(cutoff)),
        |a: AssignmentView, b: AssignmentView| older(a, b),
    )
}

/// An error at a path.
fn error_text(action: &str, path: &str, error: &str) -> (text: String)
    ensures
        text@ == error_at(action@, path@, error@),
{
    let mut text = action.to_owned();
    text.append(path);
    text.append(": ");
    text.append(error);
    text
}

/// The complaint that a claim is another session's.
fn foreign_claim_text(path: &str, owner: &str, session_id: &str) -> (text: String)
    ensures
        text@ == foreign_claim(path@, owner@, session_id@),
{
    let mut text = "name claim ".to_owned();
    text.append(path);
    text.append(" belongs to ");
    text.append(owner);
    text.append(", not ");
    text.append(session_id);
    text
}

impl PruneReport {
    /// A report of nothing.
    fn empty(cutoff: Timestamp, dry_run: bool) -> (report: PruneReport)
        ensures
            report@ == empty_report(cutoff, dry_run),
    {
        let report = PruneReport {
            cutoff,
            dry_run,
            candidates: Vec::new(),
            removed: Vec::new(),
            errors: Vec::new(),
        };
        assert(report@.candidates =~= Seq::empty());
        assert(report@.removed =~= Seq::empty());
        assert(report@.errors =~= Seq::empty());
        report
    }

    /// Adds an error.
    fn add_error(&mut self, error: String)
        ensures
            final(self)@ == with_error(old(self)@, error@),
    {
        let ghost before = self@;
        self.errors.push(error);
        assert(self@.errors =~= before.errors.push(error@));
    }

    /// Adds that one of the candidates is removed.
    fn add_removed(&mut self, at: usize, claim_removed: bool)
        requires
            at < old(self)@.candidates.len(),
        ensures
            final(self)@ == with_removed(old(self)@, at as int, claim_removed),
    {
        let ghost before = self@;
        let assignment = &self.candidates[at];
        let pruned = PrunedIdentity {
            session_id: assignment.session_id.clone(),
            name: assignment.name.clone(),
            slug: assignment.slug.clone(),
            updated_at: assignment.updated_at,
            claim_removed,
        };
        self.removed.push(pruned);
        assert(self@.removed =~= before.removed.push(pruned@));
    }
}

/// Whether an assignment was updated before another.
fn is_older(left: &Assignment, right: &Assignment) -> (yes: bool)
    ensures
        yes == older(left@, right@),
{
    left.updated_at.is_before(&right.updated_at)
}

/// The assignments that were updated before a cutoff, those updated first first.
pub fn select_expired(assignments: Vec<Assignment>, cutoff: Timestamp) -> (found: Vec<Assignment>)
    ensures
        seq_view(found@) == expired(seq_view(assignments@), cutoff),
{
    let ghost given = assignments@;
    let ghost all = seq_view(given);
    let ghost late = |a: AssignmentView| a.updated_at.before(cutoff);
    let mut kept: Vec<Assignment> = Vec::new();
    proof {
        reveal(Seq::filter);
        assert(seq_view(kept@) =~= all.take(0).filter(late));
    }
    for assignment in it: assignments
        invariant
            it.seq() == given,
            all == seq_view(given),
            late == (|a: AssignmentView| a.updated_at.before(cutoff)),
            seq_view(kept@) == all.take(it.index()).filter(late),
    {
        let ghost before = seq_view(kept@);
        proof {
            reveal(Seq::filter);
            assert(all.take(it.index() + 1).drop_last() =~= all.take(it.index()));
        }
        if assignment.updated_at.is_before(&cutoff) {
            kept.push(assignment);
            assert(seq_view(kept@) =~= before.push(assignment@));
        }
    }
    assert(all.take(all.len() as int) =~= all);
    let ghost order = |a: AssignmentView, b: AssignmentView| older(a, b);
    stable_sort(kept, is_older, Ghost(order))
}

// ---------------------------------------------------------------------------
// The task
// ---------------------------------------------------------------------------
/// A pruning.
pub struct Pruning {
    pub registry: Registry,
    pub report: PruneReport,
    pub stage: PruningStage,
}

/// What a pruning waits for.
pub enum PruningStage {
    /// The records.
    Listing,
    /// The record of a candidate, to be removed.
    Removing { at: usize },
    /// The claim of a candidate's name.
    Reading { at: usize },
    /// The claim of a candidate's name, to be removed.
    Unclaiming { at: usize },
}

pub struct PruningView {
    pub registry: PlaceView,
    pub report: ReportView,
    pub stage: PruningStageView,
}

pub enum PruningStageView {
    Listing,
    Removing { at: nat },
    Reading { at: nat },
    Unclaiming { at: nat },
}

impl View for PruningStage {
    type V = PruningStageView;

    open spec fn view(&self) -> PruningStageView {
        match *self {
            PruningStage::Listing => PruningStageView::Listing,
            PruningStage::Removing { at } => PruningStageView::Removing { at: at as nat },
            PruningStage::Reading { at } => PruningStageView::Reading { at: at as nat },
            PruningStage::Unclaiming { at } => PruningStageView::Unclaiming { at: at as nat },
        }
    }
}

impl View for Pruning {
    type V = PruningView;

    open spec fn view(&self) -> PruningView {
        PruningView { registry: self.registry@, report: self.report@, stage: self.stage@ }
    }
}

pub type PruningStep = Step<Pruning, PruneReport>;

pub type PruningStepView = StepView<PruningView, ReportView>;

/// A pruning starts with the records.
pub open spec fn pruning_begun(
    registry: PlaceView,
    cutoff: Timestamp,
    dry_run: bool,
) -> PruningStepView {
    StepView::Ask {
        request: RequestView::ListSessions { place: sessions_place(registry) },
        then: PruningView {
            registry,
            report: empty_report(cutoff, dry_run),
            stage: PruningStageView::Listing,
        },
    }
}

/// From one of the candidates on, the records are removed in turn.
pub open spec fn removal_continued(
    registry: PlaceView,
    report: ReportView,
    at: int,
) -> PruningStepView {
    if at < report.candidates.len() {
        let id = report.candidates[at].session_id;
        StepView::Ask {
            request: RequestView::RemoveSession {
                session_id: id,
                place: session_place(registry, id),
            },
            then: PruningView {
                registry,
                report,
                stage: PruningStageView::Removing { at: at as nat },
            },
        }
    } else {
        StepView::Over { result: Ok(report) }
    }
}

/// How a pruning goes on with a reply while it is at one of the candidates.
pub open spec fn candidate_resumed(
    registry: PlaceView,
    report: ReportView,
    stage: PruningStageView,
    at: int,
    reply: ReplyView,
) -> PruningStepView {
    let assignment = report.candidates[at];
    match (stage, reply) {
        (PruningStageView::Removing { .. }, ReplyView::Failed { path, error }) => removal_continued(
            registry,
            with_error(report, error_at("remove "@, path, error)),
            at + 1,
        ),
        (PruningStageView::Removing { .. }, ReplyView::Performed) => StepView::Ask {
            request: RequestView::ReadClaim {
                slug: assignment.slug,
                place: claim_place(registry, assignment.slug),
            },
            then: PruningView {
                registry,
                report,
                stage: PruningStageView::Reading { at: at as nat },
            },
        },
        (PruningStageView::Reading { .. }, ReplyView::Contents { path, text }) => if trimmed(text)
            == assignment.session_id {
            StepView::Ask {
                request: RequestView::RemoveClaim {
                    slug: assignment.slug,
                    place: claim_place(registry, assignment.slug),
                },
                then: PruningView {
                    registry,
                    report,
                    stage: PruningStageView::Unclaiming { at: at as nat },
                },
            }
        } else {
            removal_continued(
                registry,
                with_removed(
                    with_error(
                        report,
                        foreign_claim(path, trimmed(text), assignment.session_id),
                    ),
                    at,
                    false,
                ),
                at + 1,
            )
        },
        (PruningStageView::Reading { .. }, ReplyView::Missing) => removal_continued(
            registry,
            with_removed(report, at, false),
            at + 1,
        ),
        (PruningStageView::Reading { .. }, ReplyView::Failed { path, error }) => removal_continued(
            registry,
            with_removed(
                with_error(report, error_at("read name claim "@, path, error)),
                at,
                false,
            ),
            at + 1,
        ),
        (PruningStageView::Unclaiming { .. }, ReplyView::Performed) => removal_continued(
            registry,
            with_removed(report, at, true),
            at + 1,
        ),
        (PruningStageView::Unclaiming { .. }, ReplyView::Failed { path, error }) => removal_continued(
            registry,
            with_removed(
                with_error(report, error_at("remove name claim "@, path, error)),
                at,
                false,
            ),
            at + 1,
        ),
        _ => StepView::failure(ErrorView::OutOfTurn),
    }
}

/// How a pruning goes on with a reply. Where there is no directory of records, there
/// is nothing to prune.
pub open spec fn pruning_resumed(task: PruningView, reply: ReplyView) -> PruningStepView {
    match task.stage {
        PruningStageView::Listing => match reply {
            ReplyView::Missing => StepView::Over { result: Ok(task.report) },
            ReplyView::Sessions { records } => {
                let report = ReportView {
                    candidates: expired(assignments_of(records), task.report.cutoff),
                    ..task.report
                };
                if report.dry_run {
                    StepView::Over { result: Ok(report) }
                } else {
                    removal_continued(task.registry, report, 0)
                }
            },
            _ => StepView::failure(ErrorView::OutOfTurn),
        },
        PruningStageView::Removing { at }
        | PruningStageView::Reading { at }
        | PruningStageView::Unclaiming { at } => if at < task.report.candidates.len() {
            candidate_resumed(task.registry, task.report, task.stage, at as int, reply)
        } else {
            StepView::failure(ErrorView::OutOfTurn)
        },
    }
}

/// Starts a pruning.
pub fn begin_pruning(registry: Registry, cutoff: Timestamp, dry_run: bool) -> (step: PruningStep)
    ensures
        step@ == pruning_begun(registry@, cutoff, dry_run),
{
    Step::Ask {
        request: Request::ListSessions { place: registry.sessions_path() },
        then: Pruning {
            registry,
            report: PruneReport::empty(cutoff, dry_run),
            stage: PruningStage::Listing,
        },
    }
}

/// Removes the records in turn, from one of the candidates on.
fn continue_removal(registry: Registry, report: PruneReport, at: usize) -> (step: PruningStep)
    ensures
        step@ == removal_continued(registry@, report@, at as int),
{
    if at < report.candidates.len() {
        let id = report.candidates[at].session_id.clone();
        let place = registry.session_path(id.as_str());
        Step::Ask {
            request: Request::RemoveSession { session_id: id, place },
            then: Pruning { registry, report, stage: PruningStage::Removing { at } },
        }
    } else {
        Step::Over { result: Ok(report) }
    }
}

/// Goes on with a reply to the removal of a candidate's record.
fn resume_removing(registry: Registry, report: PruneReport, at: usize, reply: Reply) -> (step:
    PruningStep)
    requires
        at < report.candidates.len(),
    ensures
        step@ == candidate_resumed(
            registry@,
            report@,
            PruningStageView::Removing { at: at as nat },
            at as int,
            reply@,
        ),
{
    let mut report = report;
    match reply {
        Reply::Failed { path, error } => {
            report.add_error(error_text("remove ", path.as_str(), error.as_str()));
            continue_removal(registry, report, at + 1)
        },
        Reply::Performed => {
            let slug = report.candidates[at].slug.clone();
            let place = registry.claim_path(slug.as_str());
            Step::Ask {
                request: Request::ReadClaim { slug, place },
                then: Pruning { registry, report, stage: PruningStage::Reading { at } },
            }
        },
        _ => Step::Over { result: Err(Error::OutOfTurn) },
    }
}

/// Goes on with a reply to the reading of a candidate's claim.
fn resume_reading(registry: Registry, report: PruneReport, at: usize, reply: Reply) -> (step:
    PruningStep)
    requires
        at < report.candidates.len(),
    ensures
        step@ == candidate_resumed(
            registry@,
            report@,
            PruningStageView::Reading { at: at as nat },
            at as int,
            reply@,
        ),
{
    let mut report = report;
    match reply {
        Reply::Contents { path, text } => {
            let owner = trim(text.as_str());
            let id = report.candidates[at].session_id.clone();
            if same_text(owner.as_str(), id.as_str()) {
                let slug = report.candidates[at].slug.clone();
                let place = registry.claim_path(slug.as_str());
                return Step::Ask {
                    request: Request::RemoveClaim { slug, place },
                    then: Pruning { registry, report, stage: PruningStage::Unclaiming { at } },
                };
            }
            report.add_error(foreign_claim_text(path.as_str(), owner.as_str(), id.as_str()));
            report.add_removed(at, false);
            continue_removal(registry, report, at + 1)
        },
        Reply::Missing => {
            report.add_removed(at, false);
            continue_removal(registry, report, at + 1)
        },
        Reply::Failed { path, error } => {
            report.add_error(error_text("read name claim ", path.as_str(), error.as_str()));
            report.add_removed(at, false);
            continue_removal(registry, report, at + 1)
        },
        _ => Step::Over { result: Err(Error::OutOfTurn) },
    }
}

/// Goes on with a reply to the removal of a candidate's claim.
fn resume_unclaiming(registry: Registry, report: PruneReport, at: usize, reply: Reply) -> (step:
    PruningStep)
    requires
        at < report.candidates.len(),
    ensures
        step@ == candidate_resumed(
            registry@,
            report@,
            PruningStageView::Unclaiming { at: at as nat },
            at as int,
            reply@,
        ),
{
    let mut report = report;
    match reply {
        Reply::Performed => {
            report.add_removed(at, true);
            continue_removal(registry, report, at + 1)
        },
        Reply::Failed { path, error } => {
            report.add_error(error_text("remove name claim ", path.as_str(), error.as_str()));
            report.add_removed(at, false);
            continue_removal(registry, report, at + 1)
        },
        _ => Step::Over { result: Err(Error::OutOfTurn) },
    }
}

impl Pruning {
    /// Goes on with a reply.
    pub fn resume(self, reply: Reply) -> (step: PruningStep)
        ensures
            step@ == pruning_resumed(self@, reply@),
    {
        let Pruning { registry, report, stage } = self;
        let mut report = report;
        match stage {
            PruningStage::Listing => match reply {
                Reply::Missing => Step::Over { result: Ok(report) },
                Reply::Sessions { records } => {
                    report.candidates = select_expired(read_assignments(records), report.cutoff);
                    if report.dry_run {
                        return Step::Over { result: Ok(report) };
                    }
                    continue_removal(registry, report, 0)
                },
                _ => Step::Over { result: Err(Error::OutOfTurn) },
            },
            PruningStage::Removing { at } => if at < report.candidates.len() {
                resume_removing(registry, report, at, reply)
            } else {
                Step::Over { result: Err(Error::OutOfTurn) }
            },
            PruningStage::Reading { at } => if at < report.candidates.len() {
                resume_reading(registry, report, at, reply)
            } else {
                Step::Over { result: Err(Error::OutOfTurn) }
            },
            PruningStage::Unclaiming { at } => if at < report.candidates.len() {
                resume_unclaiming(registry, report, at, reply)
            } else {
                Step::Over { result: Err(Error::OutOfTurn) }
            },
        }
    }
}

} // verus!
