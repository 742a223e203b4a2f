//! Which agents are whose, where they run, and what is shown of them.

use crate::activity::{ActivityState, ActivityStateValue};
use crate::assignment::{AssignmentView, ExtensionView};
use crate::herdr::{
    augmented, holder, holder_by_id, inside_herdr, label_of_tab, location_before, location_of,
    locations_of, only_holder, places_of, session_file, snapshot_joined, workspace_of, AgentView,
    DiscoveredView, LocationView, SnapshotView, TabView, WorkspaceView,
};
use crate::json::JsonView;
use crate::order::{
    is_order, lemma_kept, lemma_sorted_in_order, lemma_sorted_multiset, lemma_sorted_stable,
};
use crate::text::{
    lemma_text_less_irreflexive, lemma_text_less_total, lemma_text_less_transitive, text_less,
};
use crate::timestamp::Timestamp;
use vstd::prelude::*;

verus! {

// ---------------------------------------------------------------------------
// Whose agent an agent is
// ---------------------------------------------------------------------------
/// Whether some extensions name a session file: that of `omp` is an object with it in the
/// field `session_file`.
pub open spec fn names_file(extensions: Map<Seq<char>, ExtensionView>, file: Seq<char>) -> bool {
    &&& extensions.contains_key("omp"@)
    &&& extensions["omp"@].data matches JsonView::Object(fields)
    &&& fields.contains_key("session_file"@)
    &&& fields["session_file"@] == JsonView::Text(file)
}

/// Whether an agent is an OMP agent whose session is told by an ID or a file.
pub open spec fn tells_session(agent: AgentView, kind: Seq<char>, value: Seq<char>) -> bool {
    &&& agent.agent == Some("omp"@)
    &&& agent.agent_session matches Some(session)
    &&& session.agent == "omp"@
    &&& session.source == "herdr:omp"@
    &&& session.kind == kind
    &&& session.value == value
}

/// Whether an agent is an agent of an assignment: it tells the session ID, which no later
/// assignment has too, or it tells a file that this assignment names and no other.
pub open spec fn is_agent_of(
    assignments: Seq<AssignmentView>,
    agent: AgentView,
    i: int,
) -> bool {
    &&& 0 <= i < assignments.len()
    &&& {
        ||| tells_session(agent, "id"@, assignments[i].session_id) && forall|j: int|
            i < j < assignments.len() ==> (#[trigger] assignments[j]).session_id
                != assignments[i].session_id
        ||| exists|file: Seq<char>|
            {
                &&& #[trigger] tells_session(agent, "path"@, file)
                &&& names_file(assignments[i].extensions, file)
                &&& forall|j: int|
                    0 <= j < assignments.len() && j != i ==> !names_file(
                        (#[trigger] assignments[j]).extensions,
                        file,
                    )
            }
    }
}

/// The session file that extensions name is the one in its place.
proof fn lemma_file_named(extensions: Map<Seq<char>, ExtensionView>, file: Seq<char>)
    ensures
        session_file(extensions) == Some(file) <==> names_file(extensions, file),
{
}

/// The assignment that is found for a session ID is the last with that ID.
proof fn lemma_found_by_id(assignments: Seq<AssignmentView>, session_id: Seq<char>)
    ensures
        match holder_by_id(assignments, session_id) {
            Some(i) => {
                &&& 0 <= i < assignments.len()
                &&& assignments[i].session_id == session_id
                &&& forall|j: int|
                    i < j < assignments.len() ==> (#[trigger] assignments[j]).session_id
                        != session_id
            },
            None => forall|j: int|
                0 <= j < assignments.len() ==> (#[trigger] assignments[j]).session_id != session_id,
        },
    decreases assignments.len(),
{
    if assignments.len() > 0 && assignments.last().session_id != session_id {
        let front = assignments.drop_last();
        lemma_found_by_id(front, session_id);
        assert forall|j: int|
            0 <= j < assignments.len() && (holder_by_id(front, session_id) matches Some(i)
                ==> i < j) implies (#[trigger] assignments[j]).session_id != session_id by {
            if j < front.len() {
                assert(front[j] == assignments[j]);
            }
        }
    }
}

/// An agent belongs to an assignment exactly where it tells its session ID, or a file that
/// it alone names; it belongs to nobody where there is no such assignment.
pub proof fn lemma_agents_are_matched(assignments: Seq<AssignmentView>, agent: AgentView)
    ensures
        forall|i: int| #[trigger]
            is_agent_of(assignments, agent, i) <==> holder(assignments, agent) == Some(i),
{
    reveal_strlit("id");
    reveal_strlit("path");
    assert("id"@.len() != "path"@.len());
    assert forall|i: int| #[trigger] is_agent_of(assignments, agent, i) <==> holder(
        assignments,
        agent,
    ) == Some(i) by {
        if agent.agent_session is Some {
            let value = agent.agent_session->0.value;
            lemma_found_by_id(assignments, value);
            assert forall|j: int| 0 <= j < assignments.len() implies (session_file(
                (#[trigger] assignments[j]).extensions,
            ) == Some(value)) == names_file(assignments[j].extensions, value) by {
                lemma_file_named(assignments[j].extensions, value);
            }
            if is_agent_of(assignments, agent, i) {
                if tells_session(agent, "id"@, assignments[i].session_id) {
                    assert(value == assignments[i].session_id);
                    let found = holder_by_id(assignments, value)->0;
                    if found != i {
                        assert(assignments[found].session_id == value);
                    }
                } else {
                    let file = choose|file: Seq<char>|
                        {
                            &&& #[trigger] tells_session(agent, "path"@, file)
                            &&& names_file(assignments[i].extensions, file)
                            &&& forall|j: int|
                                0 <= j < assignments.len() && j != i ==> !names_file(
                                    (#[trigger] assignments[j]).extensions,
                                    file,
                                )
                        };
                    assert(file == value);
                    assert(only_holder(assignments, value, i));
                    let m = choose|m: int| only_holder(assignments, value, m);
                    assert(only_holder(assignments, value, m));
                    if m != i {
                        assert(session_file(assignments[i].extensions) != Some(value));
                    }
                }
            }
            if holder(assignments, agent) == Some(i) {
                let session = agent.agent_session->0;
                if session.kind == "id"@ {
                    assert(tells_session(agent, "id"@, assignments[i].session_id));
                } else {
                    assert(only_holder(assignments, value, i));
                    assert(tells_session(agent, "path"@, value));
                    assert forall|j: int| 0 <= j < assignments.len() && j != i implies !names_file(
                        (#[trigger] assignments[j]).extensions,
                        value,
                    ) by {
                        assert(session_file(assignments[j].extensions) != Some(value));
                    }
                }
            }
        }
    }
}

/// Where all session IDs differ, an agent that tells the session ID of an assignment is its
/// agent, wherever in the list the assignment stands; one that tells another ID is nobody's.
pub proof fn lemma_agents_tell_their_session(
    assignments: Seq<AssignmentView>,
    agent: AgentView,
    value: Seq<char>,
)
    requires
        forall|i: int, j: int|
            0 <= i < j < assignments.len() ==> (#[trigger] assignments[i]).session_id != (
            #[trigger] assignments[j]).session_id,
        tells_session(agent, "id"@, value),
    ensures
        forall|i: int|
            0 <= i < assignments.len() && (#[trigger] assignments[i]).session_id == value
                ==> holder(assignments, agent) == Some(i),
        (forall|i: int|
            0 <= i < assignments.len() ==> (#[trigger] assignments[i]).session_id != value)
            ==> holder(assignments, agent) is None,
{
    lemma_agents_are_matched(assignments, agent);
    assert forall|i: int|
        0 <= i < assignments.len() && (#[trigger] assignments[i]).session_id
            == value implies holder(assignments, agent) == Some(i) by {
        assert(is_agent_of(assignments, agent, i));
    }
    if let Some(i) = holder(assignments, agent) {
        lemma_found_by_id(assignments, value);
        assert(assignments[i].session_id == value);
    }
}

/// An agent that tells a file is the agent of the assignment that names it, where no other
/// does; where none or several name it, it is nobody's.
pub proof fn lemma_agents_tell_their_file(
    assignments: Seq<AssignmentView>,
    agent: AgentView,
    file: Seq<char>,
    i: int,
)
    requires
        tells_session(agent, "path"@, file),
        0 <= i < assignments.len(),
        names_file(assignments[i].extensions, file),
    ensures
        (forall|j: int|
            0 <= j < assignments.len() && j != i ==> !names_file(
                (#[trigger] assignments[j]).extensions,
                file,
            )) ==> holder(assignments, agent) == Some(i),
        (exists|j: int|
            0 <= j < assignments.len() && j != i && names_file(
                (#[trigger] assignments[j]).extensions,
                file,
            )) ==> holder(assignments, agent) is None,
{
    reveal_strlit("id");
    reveal_strlit("path");
    assert("id"@.len() != "path"@.len());
    lemma_agents_are_matched(assignments, agent);
    if forall|j: int|
        0 <= j < assignments.len() && j != i ==> !names_file(
            (#[trigger] assignments[j]).extensions,
            file,
        ) {
        assert(is_agent_of(assignments, agent, i));
    } else if let Some(k) = holder(assignments, agent) {
        lemma_file_named(assignments[i].extensions, file);
        let j = choose|j: int|
            0 <= j < assignments.len() && j != i && names_file(
                (#[trigger] assignments[j]).extensions,
                file,
            );
        lemma_file_named(assignments[j].extensions, file);
        assert(only_holder(assignments, file, k));
        if k != i {
            assert(session_file(assignments[i].extensions) != Some(file));
        } else {
            assert(session_file(assignments[j].extensions) != Some(file));
        }
    }
}

// ---------------------------------------------------------------------------
// Where agents run
// ---------------------------------------------------------------------------
/// The label of a tab is that of the last tab with its ID.
proof fn lemma_tab_label(tabs: Seq<TabView>, tab_id: Seq<char>)
    ensures
        match label_of_tab(tabs, tab_id) {
            Some(label) => exists|k: int|
                {
                    &&& 0 <= k < tabs.len()
                    &&& (#[trigger] tabs[k]).tab_id == tab_id
                    &&& tabs[k].label == label
                    &&& forall|j: int| k < j < tabs.len() ==> (#[trigger] tabs[j]).tab_id != tab_id
                },
            None => forall|j: int| 0 <= j < tabs.len() ==> (#[trigger] tabs[j]).tab_id != tab_id,
        },
    decreases tabs.len(),
{
    if tabs.len() > 0 {
        let n = tabs.len() - 1;
        if tabs.last().tab_id == tab_id {
            assert(tabs[n].tab_id == tab_id);
        } else {
            let front = tabs.drop_last();
            lemma_tab_label(front, tab_id);
            match label_of_tab(front, tab_id) {
                Some(label) => {
                    let k = choose|k: int|
                        {
                            &&& 0 <= k < front.len()
                            &&& (#[trigger] front[k]).tab_id == tab_id
                            &&& front[k].label == label
                            &&& forall|j: int|
                                k < j < front.len() ==> (#[trigger] front[j]).tab_id != tab_id
                        };
                    assert(tabs[k] == front[k]);
                    assert forall|j: int| k < j < tabs.len() implies (#[trigger] tabs[j]).tab_id
                        != tab_id by {
                        if j < n {
                            assert(tabs[j] == front[j]);
                        }
                    }
                },
                None => {
                    assert forall|j: int| 0 <= j < tabs.len() implies (#[trigger] tabs[j]).tab_id
                        != tab_id by {
                        if j < n {
                            assert(tabs[j] == front[j]);
                        }
                    }
                },
            }
        }
    }
}

/// A workspace is the last with its ID.
proof fn lemma_workspace(workspaces: Seq<WorkspaceView>, workspace_id: Seq<char>)
    ensures
        match workspace_of(workspaces, workspace_id) {
            Some(workspace) => exists|k: int|
                {
                    &&& 0 <= k < workspaces.len()
                    &&& (#[trigger] workspaces[k]) == workspace
                    &&& workspace.workspace_id == workspace_id
                    &&& forall|j: int|
                        k < j < workspaces.len() ==> (#[trigger] workspaces[j]).workspace_id
                            != workspace_id
                },
            None => forall|j: int|
                0 <= j < workspaces.len() ==> (#[trigger] workspaces[j]).workspace_id
                    != workspace_id,
        },
    decreases workspaces.len(),
{
    if workspaces.len() > 0 {
        let n = workspaces.len() - 1;
        if workspaces.last().workspace_id == workspace_id {
            assert(workspaces[n] == workspaces.last());
        } else {
            let front = workspaces.drop_last();
            lemma_workspace(front, workspace_id);
            match workspace_of(front, workspace_id) {
                Some(workspace) => {
                    let k = choose|k: int|
                        {
                            &&& 0 <= k < front.len()
                            &&& (#[trigger] front[k]) == workspace
                            &&& workspace.workspace_id == workspace_id
                            &&& forall|j: int|
                                k < j < front.len() ==> (#[trigger] front[j]).workspace_id
                                    != workspace_id
                        };
                    assert(workspaces[k] == front[k]);
                    assert forall|j: int| k < j < workspaces.len() implies (
                    #[trigger] workspaces[j]).workspace_id != workspace_id by {
                        if j < n {
                            assert(workspaces[j] == front[j]);
                        }
                    }
                },
                None => {
                    assert forall|j: int| 0 <= j < workspaces.len() implies (
                    #[trigger] workspaces[j]).workspace_id != workspace_id by {
                        if j < n {
                            assert(workspaces[j] == front[j]);
                        }
                    }
                },
            }
        }
    }
}

/// The place of an agent says what Herdr tells of the agent, the label of its tab, and the
/// label and working tree of its workspace, as they were told last.
pub proof fn lemma_places_are_told(snapshot: SnapshotView, agent: AgentView)
    ensures
        ({
            let place = location_of(snapshot, agent);
            let tabs = snapshot.tabs;
            let workspaces = snapshot.workspaces;
            &&& place.agent_status == agent.agent_status
            &&& place.pane_id == agent.pane_id
            &&& place.tab_id == agent.tab_id
            &&& place.workspace_id == agent.workspace_id
            &&& place.cwd == agent.cwd
            &&& place.foreground_cwd == agent.foreground_cwd
            &&& forall|k: int|
                0 <= k < tabs.len() && (#[trigger] tabs[k]).tab_id == agent.tab_id && (forall|
                    j: int,
                |
                    k < j < tabs.len() ==> (#[trigger] tabs[j]).tab_id != agent.tab_id)
                    ==> place.tab_label == Some(tabs[k].label)
            &&& (forall|k: int|
                0 <= k < tabs.len() ==> (#[trigger] tabs[k]).tab_id != agent.tab_id)
                ==> place.tab_label is None
            &&& forall|k: int|
                0 <= k < workspaces.len() && (#[trigger] workspaces[k]).workspace_id
                    == agent.workspace_id && (forall|j: int|
                    k < j < workspaces.len() ==> (#[trigger] workspaces[j]).workspace_id
                        != agent.workspace_id) ==> place.workspace_label == Some(
                    workspaces[k].label,
                ) && place.worktree == workspaces[k].worktree
            &&& (forall|k: int|
                0 <= k < workspaces.len() ==> (#[trigger] workspaces[k]).workspace_id
                    != agent.workspace_id) ==> place.workspace_label is None && place.worktree
                is None
        }),
{
    lemma_tab_label(snapshot.tabs, agent.tab_id);
    lemma_workspace(snapshot.workspaces, agent.workspace_id);
    let tabs = snapshot.tabs;
    let workspaces = snapshot.workspaces;
    if let Some(label) = label_of_tab(tabs, agent.tab_id) {
        let m = choose|m: int|
            {
                &&& 0 <= m < tabs.len()
                &&& (#[trigger] tabs[m]).tab_id == agent.tab_id
                &&& tabs[m].label == label
                &&& forall|j: int|
                    m < j < tabs.len() ==> (#[trigger] tabs[j]).tab_id != agent.tab_id
            };
        assert(tabs[m].tab_id == agent.tab_id);
    }
    if let Some(workspace) = workspace_of(workspaces, agent.workspace_id) {
        let m = choose|m: int|
            {
                &&& 0 <= m < workspaces.len()
                &&& (#[trigger] workspaces[m]) == workspace
                &&& workspace.workspace_id == agent.workspace_id
                &&& forall|j: int|
                    m < j < workspaces.len() ==> (#[trigger] workspaces[j]).workspace_id
                        != agent.workspace_id
            };
        assert(workspaces[m].workspace_id == agent.workspace_id);
    }
}

/// Whether two places are in the same pane.
pub open spec fn same_pane(left: LocationView, right: LocationView) -> bool {
    &&& left.workspace_id == right.workspace_id
    &&& left.tab_id == right.tab_id
    &&& left.pane_id == right.pane_id
}

/// The places in one pane.
pub open spec fn in_pane(places: Seq<LocationView>, place: LocationView) -> Seq<LocationView> {
    places.filter(|other: LocationView| same_pane(other, place))
}

/// Places are in the order of their workspaces, within one of their tabs, and within one of
/// their panes.
pub proof fn lemma_order_of_places(left: LocationView, right: LocationView)
    ensures
        left.workspace_id != right.workspace_id ==> location_before(left, right) == text_less(
            left.workspace_id,
            right.workspace_id,
        ),
        left.workspace_id == right.workspace_id && left.tab_id != right.tab_id ==> location_before(
            left,
            right,
        ) == text_less(left.tab_id, right.tab_id),
        left.workspace_id == right.workspace_id && left.tab_id == right.tab_id ==> location_before(
            left,
            right,
        ) == text_less(left.pane_id, right.pane_id),
{
    lemma_text_less_irreflexive(left.workspace_id);
    lemma_text_less_irreflexive(left.tab_id);
}

/// The order of places is one.
proof fn lemma_places_order_is_order()
    ensures
        is_order(|a: LocationView, b: LocationView| location_before(a, b)),
{
    let order = |a: LocationView, b: LocationView| location_before(a, b);
    assert forall|a: LocationView| !#[trigger] order(a, a) by {
        lemma_text_less_irreflexive(a.workspace_id);
        lemma_text_less_irreflexive(a.tab_id);
        lemma_text_less_irreflexive(a.pane_id);
    }
    assert forall|a: LocationView, b: LocationView, c: LocationView|
        #![trigger order(a, b), order(b, c)]
        order(a, b) && order(b, c) implies order(a, c) by {
        if text_less(a.workspace_id, b.workspace_id) && text_less(b.workspace_id, c.workspace_id) {
            lemma_text_less_transitive(a.workspace_id, b.workspace_id, c.workspace_id);
        }
        if text_less(a.tab_id, b.tab_id) && text_less(b.tab_id, c.tab_id) {
            lemma_text_less_transitive(a.tab_id, b.tab_id, c.tab_id);
        }
        if text_less(a.pane_id, b.pane_id) && text_less(b.pane_id, c.pane_id) {
            lemma_text_less_transitive(a.pane_id, b.pane_id, c.pane_id);
        }
    }
    assert forall|a: LocationView, b: LocationView, c: LocationView|
        #![trigger order(a, b), order(a, c)]
        order(a, b) implies order(a, c) || order(c, b) by {
        lemma_text_less_total(a.workspace_id, c.workspace_id);
        lemma_text_less_total(a.tab_id, c.tab_id);
        lemma_text_less_total(a.pane_id, c.pane_id);
        if text_less(c.workspace_id, a.workspace_id) && text_less(a.workspace_id, b.workspace_id) {
            lemma_text_less_transitive(c.workspace_id, a.workspace_id, b.workspace_id);
        }
        if text_less(c.tab_id, a.tab_id) && text_less(a.tab_id, b.tab_id) {
            lemma_text_less_transitive(c.tab_id, a.tab_id, b.tab_id);
        }
        if text_less(c.pane_id, a.pane_id) && text_less(a.pane_id, b.pane_id) {
            lemma_text_less_transitive(c.pane_id, a.pane_id, b.pane_id);
        }
    }
}

// ---------------------------------------------------------------------------
// What is known of an assignment
// ---------------------------------------------------------------------------
/// The agents of an assignment, in the order in which they are told.
pub open spec fn agents_of(
    assignments: Seq<AssignmentView>,
    snapshot: SnapshotView,
    i: int,
) -> Seq<AgentView> {
    snapshot.agents.filter(|agent: AgentView| is_agent_of(assignments, agent, i))
}

/// The places of the agents of an assignment, in the order in which the agents are told.
proof fn lemma_places_of_agents(
    assignments: Seq<AssignmentView>,
    snapshot: SnapshotView,
    agents: Seq<AgentView>,
    i: int,
)
    ensures
        places_of(assignments, snapshot, agents, i) == agents.filter(
            |agent: AgentView| is_agent_of(assignments, agent, i),
        ).map_values(|agent: AgentView| location_of(snapshot, agent)),
    decreases agents.len(),
{
    reveal(Seq::filter);
    let mine = |agent: AgentView| is_agent_of(assignments, agent, i);
    let place = |agent: AgentView| location_of(snapshot, agent);
    if agents.len() > 0 {
        lemma_places_of_agents(assignments, snapshot, agents.drop_last(), i);
        lemma_agents_are_matched(assignments, agents.last());
        let front = agents.drop_last().filter(mine);
        if mine(agents.last()) {
            assert(agents.filter(mine) =~= front.push(agents.last()));
            assert(front.push(agents.last()).map_values(place) =~= front.map_values(place).push(
                place(agents.last()),
            ));
        } else {
            assert(agents.filter(mine) =~= front);
        }
        assert(places_of(assignments, snapshot, agents, i) =~= agents.filter(mine).map_values(
            place,
        ));
    } else {
        assert(places_of(assignments, snapshot, agents, i) =~= agents.filter(mine).map_values(
            place,
        ));
    }
}

/// What is known of an assignment is where its agents run: all of them and no others, in
/// the order of the places, and in one pane in the order in which they are told. Where none
/// runs, nothing is known. Where one does, the activity is what the agent in the first place
/// tells, and all else of the assignment is as it was.
pub proof fn lemma_runtime_is_told(
    assignments: Seq<AssignmentView>,
    snapshot: SnapshotView,
    observed_at: Timestamp,
    i: int,
)
    requires
        0 <= i < assignments.len(),
    ensures
        ({
            let records = snapshot_joined(assignments, snapshot, observed_at);
            let record = records[i];
            let agents = agents_of(assignments, snapshot, i);
            &&& records.len() == assignments.len()
            &&& agents.len() == 0 ==> record == (DiscoveredView {
                assignment: assignments[i],
                runtime: None,
            })
            &&& agents.len() > 0 ==> {
                &&& record.runtime matches Some(runtime)
                &&& runtime.provider == "herdr"@
                &&& runtime.observed_at == observed_at
                &&& runtime.locations.len() == agents.len()
                &&& runtime.locations.to_multiset() == agents.map_values(
                    |agent: AgentView| location_of(snapshot, agent),
                ).to_multiset()
                &&& forall|k: int, l: int|
                    0 <= k < l < runtime.locations.len() ==> !location_before(
                        #[trigger] runtime.locations[l],
                        #[trigger] runtime.locations[k],
                    )
                &&& forall|place: LocationView| #[trigger]
                    in_pane(runtime.locations, place) == in_pane(
                        agents.map_values(|agent: AgentView| location_of(snapshot, agent)),
                        place,
                    )
                &&& runtime.state == runtime.locations[0].agent_status
                &&& record.assignment == (AssignmentView {
                    state: ActivityState {
                        value: ActivityStateValue::external(runtime.state),
                        updated_at: observed_at,
                    },
                    ..assignments[i]
                })
            }
        }),
{
    let agents = agents_of(assignments, snapshot, i);
    let order = |a: LocationView, b: LocationView| location_before(a, b);
    let places = places_of(assignments, snapshot, snapshot.agents, i);
    let sorted = locations_of(assignments, snapshot, i);
    lemma_places_of_agents(assignments, snapshot, snapshot.agents, i);
    lemma_sorted_multiset(places, order);
    lemma_places_order_is_order();
    lemma_sorted_in_order(places, order);
    assert forall|k: int, l: int| 0 <= k < l < sorted.len() implies !location_before(
        #[trigger] sorted[l],
        #[trigger] sorted[k],
    ) by {
        assert(!order(sorted[l], sorted[k]));
    }
    assert forall|place: LocationView| #[trigger] in_pane(sorted, place) == in_pane(
        places,
        place,
    ) by {
        let alike = |other: LocationView| same_pane(other, place);
        assert forall|a: LocationView, b: LocationView| alike(a) && alike(b) implies !#[trigger] order(
            a,
            b,
        ) by {
            lemma_text_less_irreflexive(place.workspace_id);
            lemma_text_less_irreflexive(place.tab_id);
            lemma_text_less_irreflexive(place.pane_id);
        }
        lemma_sorted_stable(places, order, alike);
    }
}

/// What is shown with what Herdr tells: where it tells nothing, every assignment as it is;
/// where all are asked for, every assignment with what is known of it; and otherwise those
/// with a running agent, in their order.
pub proof fn lemma_shown_with_runtime(
    assignments: Seq<AssignmentView>,
    snapshot: SnapshotView,
    observed_at: Timestamp,
    include_all: bool,
    i: int,
)
    ensures
        augmented(assignments, None, include_all, observed_at).len() == assignments.len(),
        0 <= i < assignments.len() ==> augmented(assignments, None, include_all, observed_at)[i]
            == (DiscoveredView { assignment: assignments[i], runtime: None }),
        augmented(assignments, Some(snapshot), true, observed_at) == snapshot_joined(
            assignments,
            snapshot,
            observed_at,
        ),
        augmented(assignments, Some(snapshot), false, observed_at) == snapshot_joined(
            assignments,
            snapshot,
            observed_at,
        ).filter(|record: DiscoveredView| record.runtime is Some),
{
    let records = snapshot_joined(assignments, snapshot, observed_at);
    let left = |record: DiscoveredView| record.runtime is Some;
    let right = |record: DiscoveredView| crate::herdr::runs(record);
    assert(left =~= right);
}

/// A running agent brings its session to light: where all session IDs differ and an agent
/// tells one of them, the assignment is shown by default, with the pane of that agent.
pub proof fn lemma_running_is_shown(
    assignments: Seq<AssignmentView>,
    snapshot: SnapshotView,
    observed_at: Timestamp,
    i: int,
    n: int,
)
    requires
        0 <= i < assignments.len(),
        0 <= n < snapshot.agents.len(),
        tells_session(snapshot.agents[n], "id"@, assignments[i].session_id),
        forall|j: int|
            0 <= j < assignments.len() && j != i ==> (#[trigger] assignments[j]).session_id
                != assignments[i].session_id,
    ensures
        ({
            let record = snapshot_joined(assignments, snapshot, observed_at)[i];
            &&& record.runtime matches Some(runtime)
            &&& runtime.locations.contains(location_of(snapshot, snapshot.agents[n]))
            &&& augmented(assignments, Some(snapshot), false, observed_at).contains(record)
        }),
{
    broadcast use vstd::seq_lib::group_to_multiset_ensures;

    let agents = agents_of(assignments, snapshot, i);
    let mine = |agent: AgentView| is_agent_of(assignments, agent, i);
    let place = |agent: AgentView| location_of(snapshot, agent);
    let records = snapshot_joined(assignments, snapshot, observed_at);
    assert(mine(snapshot.agents[n]));
    snapshot.agents.lemma_filter_contains(mine, n);
    assert(agents.contains(snapshot.agents[n]));
    lemma_runtime_is_told(assignments, snapshot, observed_at, i);
    lemma_shown_with_runtime(assignments, snapshot, observed_at, false, i);
    let k = agents.index_of(snapshot.agents[n]);
    assert(agents.map_values(place)[k] == place(snapshot.agents[n]));
    assert(agents.map_values(place).contains(place(snapshot.agents[n])));
    let locations = records[i].runtime->0.locations;
    assert(locations.to_multiset().count(place(snapshot.agents[n])) > 0);
    let live = |record: DiscoveredView| record.runtime is Some;
    lemma_kept(records, live);
    assert(records.contains(records[i]));
}

/// The environment is that of Herdr where its marker is `1` and a socket is named.
pub proof fn lemma_herdr_is_there(marker: Option<Seq<char>>, socket_path: Option<Seq<char>>)
    ensures
        inside_herdr(marker, socket_path) <==> marker == Some(seq!['1']) && socket_path is Some
            && socket_path->0.len() > 0,
{
    reveal_strlit("1");
    assert("1"@ =~= seq!['1']);
}

} // verus!
