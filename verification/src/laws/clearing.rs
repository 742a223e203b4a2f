//! What a pruning removes, and what it says of it.

use crate::assignment::{assignment_of, AssignmentView, RecordView};
use crate::commands::{
    prune_begun, prune_line, report_printed, PruneArgs, PruneOutputView, PrunePrintedView,
};
use crate::discovery::assignments_of;
use crate::error::ErrorView;
use crate::guarantees::{
    consistent, lemma_all_forgotten, lemma_pruning_is_exact, listed, pruned, settled,
};
use crate::host::{EnvironmentView, ReplyView, RequestView, StepView};
use crate::order::{
    is_order, lemma_kept, lemma_sorted_in_order, lemma_sorted_multiset, lemma_sorted_same,
    lemma_sorted_stable,
};
use crate::outcomes::{lemma_prune_command, prune_outcome, prune_resume};
use crate::pruning::{
    expired, older, pruning_resumed, removal_continued, PrunedView,
    PruningStageView, PruningView, ReportView,
};
use crate::text::{decimal, trimmed};
use crate::timestamp::{shown_instant, Timestamp};
use crate::world::{all_assignments, comes_to, lemma_one_outcome, World};
use crate::laws::showing::updated_at;
use vstd::prelude::*;

verus! {

/// What is to be pruned are the assignments that were updated before the cutoff, and not at
/// it or after it: all of them and no others, those updated first first, and those updated
/// at the same time in the order that they had.
pub proof fn lemma_oldest_first(assignments: Seq<AssignmentView>, cutoff: Timestamp)
    ensures
        ({
            let found = expired(assignments, cutoff);
            let late = assignments.filter(|a: AssignmentView| a.updated_at.before(cutoff));
            &&& found.to_multiset() == late.to_multiset()
            &&& found.len() == late.len()
            &&& forall|a: AssignmentView| #[trigger]
                found.contains(a) <==> assignments.contains(a) && a.updated_at.before(cutoff)
            &&& forall|i: int, j: int|
                0 <= i < j < found.len() ==> !(#[trigger] found[j]).updated_at.before(
                    (#[trigger] found[i]).updated_at,
                )
            &&& forall|at: Timestamp| #[trigger] updated_at(found, at) == updated_at(late, at)
        }),
{
    let late = |a: AssignmentView| a.updated_at.before(cutoff);
    let kept = assignments.filter(late);
    let order = |a: AssignmentView, b: AssignmentView| older(a, b);
    let found = expired(assignments, cutoff);
    lemma_kept(assignments, late);
    lemma_sorted_multiset(kept, order);
    lemma_sorted_same(kept, order);
    assert(is_order(order));
    lemma_sorted_in_order(kept, order);
    assert forall|i: int, j: int| 0 <= i < j < found.len() implies !(
    #[trigger] found[j]).updated_at.before((#[trigger] found[i]).updated_at) by {
        assert(!order(found[j], found[i]));
    }
    assert forall|at: Timestamp| #[trigger] updated_at(found, at) == updated_at(kept, at) by {
        let alike = |a: AssignmentView| a.updated_at == at;
        lemma_sorted_stable(kept, order, alike);
    }
}

/// A pruning asks for the records, and without a dry run for the removal of the oldest that
/// expired; with a dry run, or where there is no directory of records, it asks for nothing
/// more.
pub proof fn lemma_expired_are_candidates(task: PruningView, records: Seq<RecordView>)
    requires
        task.stage is Listing,
    ensures
        ({
            let candidates = expired(
                records.map_values(|record: RecordView| assignment_of(record)),
                task.report.cutoff,
            );
            let report = ReportView { candidates, ..task.report };
            let next = pruning_resumed(task, ReplyView::Sessions { records });
            &&& pruning_resumed(task, ReplyView::Missing) == (StepView::Over::<
                PruningView,
                ReportView,
            > { result: Ok(task.report) })
            &&& task.report.dry_run || candidates.len() == 0 ==> next == (StepView::Over::<
                PruningView,
                ReportView,
            > { result: Ok(report) })
            &&& !task.report.dry_run && candidates.len() > 0 ==> {
                &&& next matches StepView::Ask { request, then }
                &&& request matches RequestView::RemoveSession { session_id, .. }
                &&& session_id == candidates[0].session_id
                &&& then == (PruningView {
                    registry: task.registry,
                    report,
                    stage: PruningStageView::Removing { at: 0 },
                })
            }
        }),
{
    assert(records.map_values(|record: RecordView| assignment_of(record)) =~= assignments_of(
        records,
    ));
}

/// The record of a candidate is removed before its claim is looked at; where the record
/// cannot be removed, the candidate is passed over with an error.
pub proof fn lemma_record_goes_first(task: PruningView, at: nat, reply: ReplyView)
    requires
        task.stage == (PruningStageView::Removing { at }),
        at < task.report.candidates.len(),
    ensures
        reply is Performed ==> {
            &&& pruning_resumed(task, reply) matches StepView::Ask { request, then }
            &&& request matches RequestView::ReadClaim { slug, .. }
            &&& slug == task.report.candidates[at as int].slug
            &&& then.stage == (PruningStageView::Reading { at })
            &&& then.report == task.report
        },
        reply matches ReplyView::Failed { path, error } ==> pruning_resumed(task, reply)
            == removal_continued(
            task.registry,
            ReportView {
                errors: task.report.errors.push("remove "@ + path + ": "@ + error),
                ..task.report
            },
            at as int + 1,
        ),
{
}

/// A claim is removed only where it is that of the session whose record was removed. The
/// claim of another session stays, which is an error; so is a claim that cannot be read. A
/// claim that is not there is none.
pub proof fn lemma_only_own_claims_go(task: PruningView, at: nat, reply: ReplyView)
    requires
        task.stage == (PruningStageView::Reading { at }),
        at < task.report.candidates.len(),
    ensures
        ({
            let candidate = task.report.candidates[at as int];
            let gone = PrunedView {
                session_id: candidate.session_id,
                name: candidate.name,
                slug: candidate.slug,
                updated_at: candidate.updated_at,
                claim_removed: false,
            };
            let removed = task.report.removed.push(gone);
            let errors = task.report.errors;
            &&& pruning_resumed(task, reply) matches StepView::Ask { request, then } ==> (request
                is RemoveClaim <==> (reply matches ReplyView::Contents { text, .. } && trimmed(text)
                == candidate.session_id))
            &&& reply matches ReplyView::Contents { path, text } ==> if trimmed(text)
                == candidate.session_id {
                &&& pruning_resumed(task, reply) matches StepView::Ask { request, then }
                &&& request matches RequestView::RemoveClaim { slug, .. }
                &&& slug == candidate.slug
                &&& then.stage == (PruningStageView::Unclaiming { at })
                &&& then.report == task.report
            } else {
                pruning_resumed(task, reply) == removal_continued(
                    task.registry,
                    ReportView {
                        removed,
                        errors: errors.push(
                            "name claim "@ + path + " belongs to "@ + trimmed(text) + ", not "@
                                + candidate.session_id,
                        ),
                        ..task.report
                    },
                    at as int + 1,
                )
            }
            &&& reply is Missing ==> pruning_resumed(task, reply) == removal_continued(
                task.registry,
                ReportView { removed, ..task.report },
                at as int + 1,
            )
            &&& reply matches ReplyView::Failed { path, error } ==> pruning_resumed(task, reply)
                == removal_continued(
                task.registry,
                ReportView {
                    removed,
                    errors: errors.push("read name claim "@ + path + ": "@ + error),
                    ..task.report
                },
                at as int + 1,
            )
        }),
{
}

/// A claim counts as removed where it was removed, and not where that failed.
pub proof fn lemma_claims_removed_are_told(task: PruningView, at: nat, reply: ReplyView)
    requires
        task.stage == (PruningStageView::Unclaiming { at }),
        at < task.report.candidates.len(),
    ensures
        ({
            let candidate = task.report.candidates[at as int];
            let gone = |claim_removed: bool|
                PrunedView {
                    session_id: candidate.session_id,
                    name: candidate.name,
                    slug: candidate.slug,
                    updated_at: candidate.updated_at,
                    claim_removed,
                };
            &&& reply is Performed ==> pruning_resumed(task, reply) == removal_continued(
                task.registry,
                ReportView { removed: task.report.removed.push(gone(true)), ..task.report },
                at as int + 1,
            )
            &&& reply matches ReplyView::Failed { path, error } ==> pruning_resumed(task, reply)
                == removal_continued(
                task.registry,
                ReportView {
                    removed: task.report.removed.push(gone(false)),
                    errors: task.report.errors.push(
                        "remove name claim "@ + path + ": "@ + error,
                    ),
                    ..task.report
                },
                at as int + 1,
            )
        }),
{
}

/// The candidates are taken in turn, and the pruning is over after the last.
pub proof fn lemma_candidates_in_turn(
    registry: crate::host::PlaceView,
    report: ReportView,
    at: int,
)
    ensures
        0 <= at < report.candidates.len() ==> {
            &&& removal_continued(registry, report, at) matches StepView::Ask { request, then }
            &&& request matches RequestView::RemoveSession { session_id, .. }
            &&& session_id == report.candidates[at].session_id
            &&& then.stage == (PruningStageView::Removing { at: at as nat })
            &&& then.report == report
            &&& then.registry == registry
        },
        at >= report.candidates.len() ==> removal_continued(registry, report, at) == (
        StepView::Over::<PruningView, ReportView> { result: Ok(report) }),
{
}

/// What is printed of a pruning: how many identities before which instant, and a line for
/// each with its name, its session and when it was updated; or the report, where JSON is
/// asked for. It fails where there were errors, with their number, and each of them is told.
pub proof fn lemma_pruning_is_told(report: ReportView)
    ensures
        ({
            let count = report.candidates.len();
            let failure = if report.errors.len() == 0 {
                None
            } else {
                Some(ErrorView::PruneIncomplete { count: report.errors.len() as usize })
            };
            &&& report_printed(report, true) == (PruneOutputView {
                printed: PrunePrintedView::Document { report },
                failure,
            })
            &&& report_printed(report, false).failure == failure
            &&& report_printed(report, false).printed matches PrunePrintedView::Lines {
                lines,
                complaints,
            }
            &&& lines.len() == count + 1
            &&& lines[0] == (if report.dry_run {
                "would prune"@
            } else {
                "pruned"@
            }) + " "@ + decimal(count) + " identities before "@ + shown_instant(
                report.cutoff.secs(),
                report.cutoff.nanos(),
            )
            &&& forall|i: int|
                #![trigger report.candidates[i]]
                0 <= i < count ==> lines[i + 1] == report.candidates[i].name + "\t"@
                    + report.candidates[i].session_id + "\tupdated:"@ + shown_instant(
                    report.candidates[i].updated_at.secs(),
                    report.candidates[i].updated_at.nanos(),
                )
            &&& complaints.len() == report.errors.len()
            &&& forall|i: int|
                0 <= i < complaints.len() ==> #[trigger] complaints[i] == "agent-id: "@
                    + report.errors[i]
        }),
{
    let lines = crate::commands::prune_lines(report);
    assert forall|i: int|
        #![trigger report.candidates[i]]
        0 <= i < report.candidates.len() implies lines[i + 1] == prune_line(
        report.candidates[i],
    ) by {}
}

/// Whether what was updated before a cutoff is gone, records and claims, and nothing else
/// is changed.
pub open spec fn expired_are_gone(world: World, cutoff: Timestamp, after: World) -> bool {
    &&& after.realm == world.realm
    &&& after.now == world.now
    &&& forall|id: Seq<char>| #[trigger]
        after.sessions.contains_key(id) <==> world.sessions.contains_key(id)
            && !world.sessions[id].updated_at.before(cutoff)
    &&& forall|id: Seq<char>| #[trigger]
        after.sessions.contains_key(id) ==> after.sessions[id] == world.sessions[id]
    &&& forall|slug: Seq<char>| #[trigger]
        after.claims.contains_key(slug) ==> world.claims.contains_key(slug)
            && after.claims[slug] == world.claims[slug]
    &&& forall|id: Seq<char>|
        world.sessions.contains_key(id) ==> (after.claims.contains_key(
            (#[trigger] world.sessions[id]).slug,
        ) <==> !world.sessions[id].updated_at.before(cutoff))
    &&& forall|slug: Seq<char>| #[trigger]
        world.claims.contains_key(slug) && !after.claims.contains_key(slug) ==> {
            let id = trimmed(world.claims[slug]);
            world.sessions.contains_key(id) && world.sessions[id].slug == slug
        }
}

/// The command prunes the registry of what was updated before the instant that is given,
/// unless it is a dry run, and prints what it did; where the instant cannot be read, or
/// there is no registry, it does nothing.
pub proof fn lemma_prune_does(
    world: World,
    args: PruneArgs,
    cutoff: Result<Timestamp, Seq<char>>,
    environment: EnvironmentView,
    after: World,
    result: Result<PruneOutputView, ErrorView>,
)
    requires
        consistent(world),
        listed(world),
        comes_to(
            prune_begun(args, cutoff, environment),
            prune_resume(),
            world,
            (after, result),
        ),
    ensures
        ({
            let homeless = environment.registry_home is None && environment.data_home is None
                && environment.home is None;
            if cutoff is Err {
                after == world && result == Err::<PruneOutputView, _>(
                    ErrorView::PruneTimestamp { before: args.before@, cause: cutoff->Err_0 },
                )
            } else if homeless {
                after == world && result == Err::<PruneOutputView, _>(ErrorView::NoHome)
            } else {
                let report = pruned(world, cutoff->Ok_0, args.dry_run).1;
                &&& args.dry_run ==> after == world
                &&& !args.dry_run ==> expired_are_gone(world, cutoff->Ok_0, after)
                &&& result == Ok::<_, ErrorView>(report_printed(report, args.json))
                &&& report.cutoff == cutoff->Ok_0
                &&& report.dry_run == args.dry_run
                &&& report.candidates == expired(all_assignments(world), cutoff->Ok_0)
                &&& report.errors.len() == 0
                &&& args.dry_run ==> report.removed.len() == 0
                &&& !args.dry_run ==> report.removed.len() == report.candidates.len() && forall|
                    i: int,
                |
                    #![trigger report.removed[i]]
                    0 <= i < report.removed.len() ==> report.removed[i] == (PrunedView {
                        session_id: report.candidates[i].session_id,
                        name: report.candidates[i].name,
                        slug: report.candidates[i].slug,
                        updated_at: report.candidates[i].updated_at,
                        claim_removed: true,
                    })
            }
        }),
{
    lemma_prune_command(world, args, cutoff, environment);
    lemma_one_outcome(
        prune_begun(args, cutoff, environment),
        prune_resume(),
        world,
        (after, result),
        prune_outcome(world, args, cutoff, environment),
    );
    if cutoff is Ok && !args.dry_run {
        lemma_pruning_is_exact(world, cutoff->Ok_0);
        let candidates = expired(all_assignments(world), cutoff->Ok_0);
        lemma_all_forgotten(world, candidates, candidates.len());
        assert forall|slug: Seq<char>| #[trigger]
            world.claims.contains_key(slug) && !after.claims.contains_key(slug) implies {
            let id = trimmed(world.claims[slug]);
            world.sessions.contains_key(id) && world.sessions[id].slug == slug
        } by {
            let j = choose|j: int|
                0 <= j < candidates.len() && (#[trigger] candidates[j]).slug == slug;
            assert(candidates.contains(candidates[j]));
            assert(settled(world, candidates[j].session_id));
        }
    }
}

} // verus!
