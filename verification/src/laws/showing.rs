//! What is discovered, and what is shown and printed of it.

use crate::activity::ActivityStateValue;
use crate::assignment::{assignment_of, option_view, AssignmentView};
use crate::commands::{
    assignment_printed, discover_begun, notes_on, record_line, record_lines, records_shown,
    DiscoverArgs, DiscoverOutputView, PrintedView,
};
use crate::discovery::{discovered, newer, sought};
use crate::error::ErrorView;
use crate::herdr::{augmented, DiscoveredView, LocationView};
use crate::host::EnvironmentView;
use crate::identity::component;
use crate::laws::text::lemma_joining;
use crate::order::{
    is_order, lemma_kept, lemma_sorted_in_order, lemma_sorted_multiset, lemma_sorted_same,
    lemma_sorted_stable,
};
use crate::outcomes::{discover_outcome, discover_resume, lemma_discover_command};
use crate::text::joined;
use crate::timestamp::Timestamp;
use crate::world::{comes_to, lemma_one_outcome, World};
use vstd::prelude::*;

verus! {

// ---------------------------------------------------------------------------
// Instants
// ---------------------------------------------------------------------------
/// Instants are in order: by their seconds, and within a second by their nanoseconds.
pub proof fn lemma_order_of_instants(left: Timestamp, right: Timestamp)
    ensures
        left.secs() < right.secs() ==> left.before(right),
        left.secs() == right.secs() ==> (left.before(right) <==> left.nanos() < right.nanos()),
        left.before(right) ==> !right.before(left),
        !left.before(right) && !right.before(left) ==> left == right,
        left.nanos() < 1_000_000_000 && right.nanos() < 1_000_000_000 ==> (left.before(right)
            <==> left.secs() * 1_000_000_000 + left.nanos() < right.secs() * 1_000_000_000
            + right.nanos()),
{
    if !left.before(right) && !right.before(left) {
        left.lemma_same(right);
    }
}

/// An instant some hours earlier is that many times 3600 seconds earlier.
pub proof fn lemma_hours_back(now: Timestamp, hours: int)
    requires
        hours >= 0,
        now.reaches_back(hours),
        now.secs() <= crate::timestamp::LAST_SECOND,
        now.nanos() < 2_000_000_000,
    ensures
        now.nanos() < 1_000_000_000 ==> now.earlier_by(hours).secs() == now.secs() - 3600 * hours
            && now.earlier_by(hours).nanos() == now.nanos(),
        now.nanos() >= 1_000_000_000 && hours > 0 ==> now.earlier_by(hours).secs() == now.secs() + 1
            - 3600 * hours && now.earlier_by(hours).nanos() == now.nanos() - 1_000_000_000,
        hours == 0 ==> now.earlier_by(hours) == now,
        now.nanos() < 1_000_000_000 ==> (now.reaches_back(hours) <==> now.secs() - 3600 * hours
            >= -8_334_601_228_800),
{
    let (seconds, nanoseconds) = crate::timestamp::hours_earlier(
        now.secs() as int,
        now.nanos() as int,
        hours,
    );
    Timestamp::lemma_at(seconds as i64, nanoseconds as u32);
    if hours == 0 {
        now.earlier_by(hours).lemma_same(now);
    }
}

// ---------------------------------------------------------------------------
// What is discovered
// ---------------------------------------------------------------------------
/// Whether an assignment is of the realm that is asked for, if one is, and not updated
/// before the cutoff, if there is one.
pub open spec fn is_wanted(
    assignment: AssignmentView,
    realm: Option<Seq<char>>,
    cutoff: Option<Timestamp>,
) -> bool {
    &&& realm matches Some(realm) ==> assignment.realm == realm
    &&& cutoff matches Some(cutoff) ==> !assignment.updated_at.before(cutoff)
}

/// What is discovered are the assignments that are wanted, all of them and no others, those
/// updated last first, and those updated at the same time in the order that they had.
pub proof fn lemma_newest_first(
    assignments: Seq<AssignmentView>,
    realm: Option<Seq<char>>,
    cutoff: Option<Timestamp>,
)
    ensures
        ({
            let found = discovered(assignments, realm, cutoff);
            let wanted = assignments.filter(|a: AssignmentView| is_wanted(a, realm, cutoff));
            &&& found.to_multiset() == wanted.to_multiset()
            &&& found.len() == wanted.len()
            &&& forall|a: AssignmentView| #[trigger]
                found.contains(a) <==> assignments.contains(a) && is_wanted(a, realm, cutoff)
            &&& forall|i: int, j: int|
                0 <= i < j < found.len() ==> !(#[trigger] found[i]).updated_at.before(
                    (#[trigger] found[j]).updated_at,
                )
            &&& forall|at: Timestamp| #[trigger] updated_at(found, at) == updated_at(wanted, at)
        }),
{
    let wanted = |a: AssignmentView| is_wanted(a, realm, cutoff);
    let same = |a: AssignmentView| sought(a, realm, cutoff);
    assert(wanted =~= same);
    let kept = assignments.filter(wanted);
    let order = |a: AssignmentView, b: AssignmentView| newer(a, b);
    let found = discovered(assignments, realm, cutoff);
    lemma_kept(assignments, wanted);
    lemma_sorted_multiset(kept, order);
    lemma_sorted_same(kept, order);
    assert(is_order(order));
    lemma_sorted_in_order(kept, order);
    assert forall|i: int, j: int| 0 <= i < j < found.len() implies !(
    #[trigger] found[i]).updated_at.before((#[trigger] found[j]).updated_at) by {
        assert(!order(found[j], found[i]));
    }
    assert forall|at: Timestamp| #[trigger] updated_at(found, at) == updated_at(kept, at) by {
        let alike = |a: AssignmentView| a.updated_at == at;
        lemma_sorted_stable(kept, order, alike);
    }
}

/// The assignments that were updated at an instant, in their order.
pub open spec fn updated_at(assignments: Seq<AssignmentView>, at: Timestamp) -> Seq<
    AssignmentView,
> {
    assignments.filter(|a: AssignmentView| a.updated_at == at)
}

// ---------------------------------------------------------------------------
// What is shown
// ---------------------------------------------------------------------------
/// The records that are to be shown: all, or those that are not stopped.
pub open spec fn to_be_shown(records: Seq<DiscoveredView>, all: bool) -> Seq<DiscoveredView> {
    if all {
        records
    } else {
        records.filter(
            |record: DiscoveredView|
                record.assignment.state.value != ActivityStateValue::Stopped,
        )
    }
}

/// What is shown are the first of the records that are to be shown, as many as the limit,
/// or all of them where they are fewer or the limit is zero.
pub proof fn lemma_first_are_shown(records: Seq<DiscoveredView>, all: bool, limit: nat)
    ensures
        ({
            let kept = to_be_shown(records, all);
            let shown = records_shown(records, all, limit);
            &&& shown.len() == if limit == 0 || kept.len() < limit {
                kept.len()
            } else {
                limit
            }
            &&& forall|i: int| 0 <= i < shown.len() ==> #[trigger] shown[i] == kept[i]
            &&& shown == kept.take(shown.len() as int)
        }),
{
    let left = |record: DiscoveredView|
        record.assignment.state.value != ActivityStateValue::Stopped;
    let right = |record: DiscoveredView| crate::commands::lively(record);
    assert(left =~= right);
    let kept = to_be_shown(records, all);
    let shown = records_shown(records, all, limit);
    assert(shown =~= kept.take(shown.len() as int));
}

/// Of records that were updated last first, none that is left out was updated after one
/// that is shown.
pub proof fn lemma_newest_are_shown(records: Seq<DiscoveredView>, all: bool, limit: nat)
    requires
        forall|i: int, j: int|
            0 <= i < j < records.len() ==> !(#[trigger] records[i]).assignment.updated_at.before(
                (#[trigger] records[j]).assignment.updated_at,
            ),
    ensures
        ({
            let kept = to_be_shown(records, all);
            let shown = records_shown(records, all, limit);
            forall|i: int, j: int|
                0 <= i < shown.len() <= j < kept.len() ==> !(
                #[trigger] shown[i]).assignment.updated_at.before(
                    (#[trigger] kept[j]).assignment.updated_at,
                )
        }),
{
    let kept = to_be_shown(records, all);
    lemma_first_are_shown(records, all, limit);
    lemma_kept_in_order(records, all);
}

/// Leaving records out leaves the others in order.
proof fn lemma_kept_in_order(records: Seq<DiscoveredView>, all: bool)
    requires
        forall|i: int, j: int|
            0 <= i < j < records.len() ==> !(#[trigger] records[i]).assignment.updated_at.before(
                (#[trigger] records[j]).assignment.updated_at,
            ),
    ensures
        forall|i: int, j: int|
            0 <= i < j < to_be_shown(records, all).len() ==> !(#[trigger] to_be_shown(
                records,
                all,
            )[i]).assignment.updated_at.before(
                (#[trigger] to_be_shown(records, all)[j]).assignment.updated_at,
            ),
    decreases records.len(),
{
    if !all && records.len() > 0 {
        reveal(Seq::filter);
        let alive = |record: DiscoveredView|
            record.assignment.state.value != ActivityStateValue::Stopped;
        let front = records.drop_last();
        assert forall|i: int, j: int| 0 <= i < j < front.len() implies !(
        #[trigger] front[i]).assignment.updated_at.before(
            (#[trigger] front[j]).assignment.updated_at,
        ) by {
            assert(front[i] == records[i]);
            assert(front[j] == records[j]);
        }
        lemma_kept_in_order(front, all);
        lemma_kept(front, alive);
        let kept = to_be_shown(records, all);
        let before = to_be_shown(front, all);
        assert forall|i: int, j: int| 0 <= i < j < kept.len() implies !(
        #[trigger] kept[i]).assignment.updated_at.before(
            (#[trigger] kept[j]).assignment.updated_at,
        ) by {
            if j < before.len() {
                assert(kept[i] == before[i]);
                assert(kept[j] == before[j]);
            } else {
                assert(kept[i] == before[i]);
                assert(before.contains(before[i]));
                let k = front.index_of(before[i]);
                assert(records[k] == before[i]);
                assert(records[records.len() - 1] == kept[j]);
            }
        }
    }
}

/// What is discovered by a command, whatever the host holds: the assignments of the records
/// that are listed, of the realm that is asked for, updated within the hours that are asked
/// for, newest first; with what Herdr tells, where the command runs inside Herdr; not the
/// stopped ones, and not those that do not run where Herdr tells of agents, unless all are
/// asked for; and no more than the limit. Nothing is changed.
pub proof fn lemma_discover_shows(
    world: World,
    args: DiscoverArgs,
    environment: EnvironmentView,
    after: World,
    result: Result<DiscoverOutputView, ErrorView>,
)
    requires
        comes_to(discover_begun(args, environment), discover_resume(), world, (after, result)),
        args.recent matches Some(hours) ==> hours < 0 || world.now.reaches_back(hours as int),
    ensures
        after == world,
        ({
            let homeless = environment.registry_home is None && environment.data_home is None
                && environment.home is None;
            let realm = option_view(args.realm);
            let wanted = match realm {
                Some(realm) => component(realm),
                None => None,
            };
            let cutoff = match args.recent {
                Some(hours) => Some(world.now.earlier_by(hours as int)),
                None => None,
            };
            let all = Seq::new(
                world.listing.len(),
                |i: int| assignment_of(world.sessions[world.listing[i]]),
            );
            let in_herdr = environment.herdr_marker == Some("1"@) && environment.herdr_socket_path
                is Some && environment.herdr_socket_path->0.len() > 0;
            let records = augmented(
                discovered(all, wanted, cutoff),
                if in_herdr {
                    world.snapshot
                } else {
                    None
                },
                args.all,
                world.now,
            );
            let shown = records_shown(records, args.all, args.limit as nat);
            result == if homeless {
                Err(ErrorView::NoHome)
            } else if args.recent is Some && args.recent->0 < 0 {
                Err(ErrorView::NegativeRecent)
            } else if realm is Some && wanted is None {
                Err(ErrorView::InvalidComponent { kind: "realm"@ })
            } else if args.json {
                Ok(DiscoverOutputView::Document { records: shown })
            } else {
                Ok::<_, ErrorView>(DiscoverOutputView::Lines { lines: record_lines(shown) })
            }
        }),
{
    lemma_discover_command(world, args, environment);
    lemma_one_outcome(
        discover_begun(args, environment),
        discover_resume(),
        world,
        (after, result),
        (world, discover_outcome(world, args, environment)),
    );
    let all = Seq::new(
        world.listing.len(),
        |i: int| assignment_of(world.sessions[world.listing[i]]),
    );
    assert(crate::world::all_assignments(world) =~= all);
}

// ---------------------------------------------------------------------------
// What is printed
// ---------------------------------------------------------------------------
/// Of an assignment its name is printed, or all of it where JSON is asked for.
pub proof fn lemma_name_is_printed(assignment: AssignmentView)
    ensures
        assignment_printed(assignment, false) == (PrintedView::Line { text: assignment.name }),
        assignment_printed(assignment, true) == (PrintedView::Document { assignment }),
{
}

/// The places in which agents run, each after a tab.
pub open spec fn places_told(places: Seq<LocationView>) -> Seq<char>
    decreases places.len(),
{
    if places.len() == 0 {
        Seq::empty()
    } else {
        let place = places.last();
        places_told(places.drop_last()) + "\t"@ + "herdr:"@ + place.agent_status + " pane:"@
            + place.pane_id + " workspace:"@ + (if place.workspace_label is Some {
            place.workspace_label->0
        } else {
            place.workspace_id
        })
    }
}

/// A note on a record after a tab, where there is one.
pub open spec fn note_told(label: Seq<char>, note: Option<Seq<char>>) -> Seq<char> {
    match note {
        Some(text) => "\t"@ + (label + text),
        None => Seq::empty(),
    }
}

/// The line of a record has its name, its session, its activity, its summary and working
/// directory where there are any, and each place in which an agent of it runs, with tabs
/// between them.
pub proof fn lemma_line_tells(record: DiscoveredView)
    ensures
        ({
            let assignment = record.assignment;
            record_line(record) == assignment.name + "\t"@ + assignment.session_id + "\t"@ + (
            "state:"@ + assignment.state.value.word()) + note_told(
                "summary:"@,
                match assignment.summary {
                    Some(summary) => Some(summary.text),
                    None => None,
                },
            ) + note_told("cwd:"@, assignment.cwd) + places_told(
                match record.runtime {
                    Some(runtime) => runtime.locations,
                    None => Seq::empty(),
                },
            )
        }),
{
    let tab = "\t"@;
    let assignment = record.assignment;
    let state = seq!["state:"@ + assignment.state.value.word()];
    let text = match assignment.summary {
        Some(summary) => Some(summary.text),
        None => None,
    };
    let places = match record.runtime {
        Some(runtime) => runtime.locations,
        None => Seq::empty(),
    };
    let some = state + noted_down("summary:"@, text);
    let more = some + noted_down("cwd:"@, assignment.cwd);
    let note = |location: LocationView| crate::commands::location_note(location);
    assert(notes_on(record) =~= more + places.map_values(note));
    lemma_note_joined(state, "summary:"@, text);
    lemma_note_joined(some, "cwd:"@, assignment.cwd);
    lemma_places_joined(more, places);
    lemma_joining(state, state, tab);
    assert(joined(state, tab) =~= state[0]);
    lemma_told_in_turn(
        assignment.name + tab + assignment.session_id + tab,
        state[0],
        note_told("summary:"@, text),
        note_told("cwd:"@, assignment.cwd),
        places_told(places),
    );
}

/// A note as one of several, where there is one.
spec fn noted_down(label: Seq<char>, note: Option<Seq<char>>) -> Seq<Seq<char>> {
    match note {
        Some(text) => seq![label + text],
        None => Seq::empty(),
    }
}

/// A note follows others after a tab.
proof fn lemma_note_joined(before: Seq<Seq<char>>, label: Seq<char>, note: Option<Seq<char>>)
    requires
        before.len() > 0,
    ensures
        joined(before + noted_down(label, note), "\t"@) == joined(before, "\t"@) + note_told(
            label,
            note,
        ),
{
    let notes = noted_down(label, note);
    if note is Some {
        assert((before + notes).drop_last() =~= before);
        assert((before + notes).last() == label + note->0);
        assert(joined(before + notes, "\t"@) =~= joined(before, "\t"@) + note_told(label, note));
    } else {
        assert(before + notes =~= before);
        assert(joined(before, "\t"@) + note_told(label, note) =~= joined(before, "\t"@));
    }
}

/// Texts that follow each other are the same text, however they are grouped.
proof fn lemma_told_in_turn(
    a: Seq<char>,
    b: Seq<char>,
    c: Seq<char>,
    d: Seq<char>,
    e: Seq<char>,
)
    ensures
        a + (b + c + d + e) == a + b + c + d + e,
{
    assert(a + (b + c + d + e) =~= a + b + c + d + e);
}

/// The notes on places follow others after tabs.
proof fn lemma_places_joined(before: Seq<Seq<char>>, places: Seq<LocationView>)
    requires
        before.len() > 0,
    ensures
        joined(
            before + places.map_values(
                |location: LocationView| crate::commands::location_note(location),
            ),
            "\t"@,
        ) == joined(before, "\t"@) + places_told(places),
    decreases places.len(),
{
    let note = |location: LocationView| crate::commands::location_note(location);
    let notes = places.map_values(note);
    if places.len() == 0 {
        assert(before + notes =~= before);
        assert(joined(before, "\t"@) + places_told(places) =~= joined(before, "\t"@));
    } else {
        let front = places.drop_last();
        lemma_places_joined(before, front);
        assert((before + notes).drop_last() =~= before + front.map_values(note));
        assert((before + notes).last() == note(places.last()));
        assert(joined(before + notes, "\t"@) =~= joined(before, "\t"@) + places_told(places));
    }
}

/// Records are printed one line each, in their order; where there are none, that is said.
pub proof fn lemma_lines_are_told(records: Seq<DiscoveredView>)
    ensures
        records.len() == 0 ==> record_lines(records) == seq!["(no identities)"@],
        records.len() > 0 ==> record_lines(records).len() == records.len() && forall|i: int|
            0 <= i < records.len() ==> #[trigger] record_lines(records)[i] == record_line(
                records[i],
            ),
{
}

} // verus!
