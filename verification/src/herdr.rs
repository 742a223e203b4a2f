//! Where agents run, as the terminal workspace Herdr tells it.

use crate::activity::{ActivityState, ActivityStateValue};
use crate::assignment::{
    copy_option, option_view, Assignment, AssignmentView, ExtensionView, OMP_EXTENSION_OWNER,
};
use crate::json::{Json, JsonView};
use crate::order::{lemma_kept, lemma_sorted_multiset, seq_view, stable_sort, stably_sorted};
use crate::text::{is_text_less, same_text, slice_view, text_less};
use crate::timestamp::Timestamp;
use vstd::prelude::*;

verus! {

// ---------------------------------------------------------------------------
// What Herdr tells
// ---------------------------------------------------------------------------
/// A working tree of a repository.
#[derive(Debug, PartialEq, Eq)]
pub struct HerdrWorktree {
    pub repo_key: String,
    pub repo_name: String,
    pub repo_root: String,
    pub checkout_path: String,
    pub is_linked_worktree: bool,
}

/// A place in which an agent runs.
#[derive(Debug, Clone, PartialEq, Eq)]
pub struct HerdrLocation {
    pub agent_status: String,
    pub pane_id: String,
    pub tab_id: String,
    pub workspace_id: String,
    pub tab_label: Option<String>,
    pub workspace_label: Option<String>,
    pub cwd: Option<String>,
    pub foreground_cwd: Option<String>,
    pub worktree: Option<HerdrWorktree>,
}

/// What is known of a running agent.
#[derive(Debug, Clone, PartialEq, Eq)]
pub struct RuntimeProjection {
    pub provider: &'static str,
    pub state: String,
    pub observed_at: Timestamp,
    pub locations: Vec<HerdrLocation>,
}

/// An assignment, and what is known of its agent if it runs.
#[derive(Debug, Clone, PartialEq, Eq)]
pub struct DiscoveredAssignment {
    pub assignment: Assignment,
    pub runtime: Option<RuntimeProjection>,
}

/// The session of an agent.
#[derive(Debug)]
pub struct AgentSession {
    pub agent: String,
    pub kind: String,
    pub source: String,
    pub value: String,
}

/// An agent in a pane.
#[derive(Debug)]
pub struct AgentInfo {
    pub agent: Option<String>,
    pub agent_session: Option<AgentSession>,
    pub agent_status: String,
    pub cwd: Option<String>,
    pub foreground_cwd: Option<String>,
    pub pane_id: String,
    pub tab_id: String,
    pub workspace_id: String,
}

/// A tab.
#[derive(Debug)]
pub struct TabInfo {
    pub tab_id: String,
    pub label: String,
}

/// A workspace.
#[derive(Debug)]
pub struct WorkspaceInfo {
    pub workspace_id: String,
    pub label: String,
    pub worktree: Option<HerdrWorktree>,
}

/// All that Herdr tells at a time.
#[derive(Debug)]
pub struct Snapshot {
    pub agents: Vec<AgentInfo>,
    pub tabs: Vec<TabInfo>,
    pub workspaces: Vec<WorkspaceInfo>,
}

pub struct WorktreeView {
    pub repo_key: Seq<char>,
    pub repo_name: Seq<char>,
    pub repo_root: Seq<char>,
    pub checkout_path: Seq<char>,
    pub is_linked_worktree: bool,
}

pub struct LocationView {
    pub agent_status: Seq<char>,
    pub pane_id: Seq<char>,
    pub tab_id: Seq<char>,
    pub workspace_id: Seq<char>,
    pub tab_label: Option<Seq<char>>,
    pub workspace_label: Option<Seq<char>>,
    pub cwd: Option<Seq<char>>,
    pub foreground_cwd: Option<Seq<char>>,
    pub worktree: Option<WorktreeView>,
}

pub struct RuntimeView {
    pub provider: Seq<char>,
    pub state: Seq<char>,
    pub observed_at: Timestamp,
    pub locations: Seq<LocationView>,
}

pub struct DiscoveredView {
    pub assignment: AssignmentView,
    pub runtime: Option<RuntimeView>,
}

pub struct AgentSessionView {
    pub agent: Seq<char>,
    pub kind: Seq<char>,
    pub source: Seq<char>,
    pub value: Seq<char>,
}

pub struct AgentView {
    pub agent: Option<Seq<char>>,
    pub agent_session: Option<AgentSessionView>,
    pub agent_status: Seq<char>,
    pub cwd: Option<Seq<char>>,
    pub foreground_cwd: Option<Seq<char>>,
    pub pane_id: Seq<char>,
    pub tab_id: Seq<char>,
    pub workspace_id: Seq<char>,
}

pub struct TabView {
    pub tab_id: Seq<char>,
    pub label: Seq<char>,
}

pub struct WorkspaceView {
    pub workspace_id: Seq<char>,
    pub label: Seq<char>,
    pub worktree: Option<WorktreeView>,
}

pub struct SnapshotView {
    pub agents: Seq<AgentView>,
    pub tabs: Seq<TabView>,
    pub workspaces: Seq<WorkspaceView>,
}

impl View for HerdrWorktree {
    type V = WorktreeView;

    open spec fn view(&self) -> WorktreeView {
        WorktreeView {
            repo_key: self.repo_key@,
            repo_name: self.repo_name@,
            repo_root: self.repo_root@,
            checkout_path: self.checkout_path@,
            is_linked_worktree: self.is_linked_worktree,
        }
    }
}

pub open spec fn worktree_view(worktree: Option<HerdrWorktree>) -> Option<WorktreeView> {
    match worktree {
        Some(worktree) => Some(worktree@),
        None => None,
    }
}

impl View for HerdrLocation {
    type V = LocationView;

    open spec fn view(&self) -> LocationView {
        LocationView {
            agent_status: self.agent_status@,
            pane_id: self.pane_id@,
            tab_id: self.tab_id@,
            workspace_id: self.workspace_id@,
            tab_label: option_view(self.tab_label),
            workspace_label: option_view(self.workspace_label),
            cwd: option_view(self.cwd),
            foreground_cwd: option_view(self.foreground_cwd),
            worktree: worktree_view(self.worktree),
        }
    }
}

impl View for RuntimeProjection {
    type V = RuntimeView;

    open spec fn view(&self) -> RuntimeView {
        RuntimeView {
            provider: self.provider@,
            state: self.state@,
            observed_at: self.observed_at,
            locations: seq_view(self.locations@),
        }
    }
}

impl View for DiscoveredAssignment {
    type V = DiscoveredView;

    open spec fn view(&self) -> DiscoveredView {
        DiscoveredView {
            assignment: self.assignment@,
            runtime: match self.runtime {
                Some(runtime) => Some(runtime@),
                None => None,
            },
        }
    }
}

impl View for AgentSession {
    type V = AgentSessionView;

    open spec fn view(&self) -> AgentSessionView {
        AgentSessionView {
            agent: self.agent@,
            kind: self.kind@,
            source: self.source@,
            value: self.value@,
        }
    }
}

impl View for AgentInfo {
    type V = AgentView;

    open spec fn view(&self) -> AgentView {
        AgentView {
            agent: option_view(self.agent),
            agent_session: match self.agent_session {
                Some(session) => Some(session@),
                None => None,
            },
            agent_status: self.agent_status@,
            cwd: option_view(self.cwd),
            foreground_cwd: option_view(self.foreground_cwd),
            pane_id: self.pane_id@,
            tab_id: self.tab_id@,
            workspace_id: self.workspace_id@,
        }
    }
}

impl View for TabInfo {
    type V = TabView;

    open spec fn view(&self) -> TabView {
        TabView { tab_id: self.tab_id@, label: self.label@ }
    }
}

impl View for WorkspaceInfo {
    type V = WorkspaceView;

    open spec fn view(&self) -> WorkspaceView {
        WorkspaceView {
            workspace_id: self.workspace_id@,
            label: self.label@,
            worktree: worktree_view(self.worktree),
        }
    }
}

impl View for Snapshot {
    type V = SnapshotView;

    open spec fn view(&self) -> SnapshotView {
        SnapshotView {
            agents: seq_view(self.agents@),
            tabs: seq_view(self.tabs@),
            workspaces: seq_view(self.workspaces@),
        }
    }
}

impl Clone for HerdrWorktree {
    fn clone(&self) -> (copy: Self)
        ensures
            copy@ == self@,
    {
        HerdrWorktree {
            repo_key: self.repo_key.clone(),
            repo_name: self.repo_name.clone(),
            repo_root: self.repo_root.clone(),
            checkout_path: self.checkout_path.clone(),
            is_linked_worktree: self.is_linked_worktree,
        }
    }
}

// ---------------------------------------------------------------------------
// Which agent has which assignment
// ---------------------------------------------------------------------------
/// The session file that the extension of an assignment names.
pub open spec fn session_file(extensions: Map<Seq<char>, ExtensionView>) -> Option<Seq<char>> {
    if extensions.contains_key(OMP_EXTENSION_OWNER@) {
        match extensions[OMP_EXTENSION_OWNER@].data.field("session_file"@) {
            Some(JsonView::Text(file)) => Some(file),
            _ => None,
        }
    } else {
        None
    }
}

/// The session file that the extension of an assignment names.
pub fn omp_session_file(assignment: &Assignment) -> (file: Option<&String>)
    ensures
        match file {
            Some(file) => session_file(assignment@.extensions) == Some(file@),
            None => session_file(assignment@.extensions) is None,
        },
{
    match assignment.extensions.get(OMP_EXTENSION_OWNER) {
        Some(metadata) => match metadata.data.field("session_file") {
            Some(Json::Text(file)) => Some(file),
            _ => None,
        },
        None => None,
    }
}

/// The last assignment of a session.
pub open spec fn holder_by_id(assignments: Seq<AssignmentView>, session_id: Seq<char>) -> Option<
    int,
>
    decreases assignments.len(),
{
    if assignments.len() == 0 {
        None
    } else if assignments.last().session_id == session_id {
        Some(assignments.len() - 1)
    } else {
        holder_by_id(assignments.drop_last(), session_id)
    }
}

/// Whether an assignment, and no other, names a session file.
pub open spec fn only_holder(assignments: Seq<AssignmentView>, file: Seq<char>, i: int) -> bool {
    &&& 0 <= i < assignments.len()
    &&& session_file(assignments[i].extensions) == Some(file)
    &&& forall|j: int|
        0 <= j < assignments.len() && j != i ==> session_file(
            (#[trigger] assignments[j]).extensions,
        ) != Some(file)
}

/// The assignment that alone names a session file.
pub open spec fn holder_by_file(assignments: Seq<AssignmentView>, file: Seq<char>) -> Option<int> {
    if exists|i: int| only_holder(assignments, file, i) {
        Some(choose|i: int| only_holder(assignments, file, i))
    } else {
        None
    }
}

/// The assignment of an agent, if it has one.
pub open spec fn holder(assignments: Seq<AssignmentView>, agent: AgentView) -> Option<int> {
    match agent.agent_session {
        None => None,
        Some(session) => if agent.agent != Some("omp"@) || session.agent != "omp"@ || session.source
            != "herdr:omp"@ {
            None
        } else if session.kind == "id"@ {
            holder_by_id(assignments, session.value)
        } else if session.kind == "path"@ {
            holder_by_file(assignments, session.value)
        } else {
            None
        },
    }
}

/// An index over `int`.
pub open spec fn index_view(index: Option<usize>) -> Option<int> {
    match index {
        Some(index) => Some(index as int),
        None => None,
    }
}

/// The last assignment of a session.
fn find_by_id(assignments: &Vec<Assignment>, session_id: &str) -> (found: Option<usize>)
    ensures
        index_view(found) == holder_by_id(seq_view(assignments@), session_id@),
{
    let ghost all = seq_view(assignments@);
    let mut i: usize = assignments.len();
    assert(all.take(i as int) =~= all);
    while i > 0
        invariant
            i <= assignments@.len(),
            all == seq_view(assignments@),
            holder_by_id(all, session_id@) == holder_by_id(all.take(i as int), session_id@),
        decreases i,
    {
        assert(all.take(i as int).drop_last() =~= all.take(i - 1));
        i = i - 1;
        if same_text(assignments[i].session_id.as_str(), session_id) {
            return Some(i);
        }
    }
    None
}

/// The assignment that alone names a session file.
fn find_by_file(assignments: &Vec<Assignment>, file: &str) -> (found: Option<usize>)
    ensures
        index_view(found) == holder_by_file(seq_view(assignments@), file@),
{
    let ghost all = seq_view(assignments@);
    let mut found: Option<usize> = None;
    let mut i: usize = 0;
    while i < assignments.len()
        invariant
            i <= assignments@.len(),
            all == seq_view(assignments@),
            match found {
                Some(n) => n < i && session_file(all[n as int].extensions) == Some(file@)
                    && forall|j: int|
                    0 <= j < i && j != n ==> session_file((#[trigger] all[j]).extensions) != Some(
                        file@,
                    ),
                None => forall|j: int|
                    0 <= j < i ==> session_file((#[trigger] all[j]).extensions) != Some(file@),
            },
        decreases assignments@.len() - i,
    {
        assert(all[i as int] == assignments@[i as int]@);
        if let Some(named) = omp_session_file(&assignments[i]) {
            if same_text(named.as_str(), file) {
                match found {
                    Some(first) => {
                        proof {
                            let a = all[first as int];
                            let b = all[i as int];
                            assert forall|n: int| !only_holder(all, file@, n) by {
                                if only_holder(all, file@, n) {
                                    if n != first {
                                        assert(session_file(a.extensions) != Some(file@));
                                    } else {
                                        assert(session_file(b.extensions) != Some(file@));
                                    }
                                }
                            }
                        }
                        return None;
                    },
                    None => {
                        found = Some(i);
                    },
                }
            }
        }
        i = i + 1;
    }
    proof {
        match found {
            Some(n) => {
                assert(only_holder(all, file@, n as int));
                let m = choose|m: int| only_holder(all, file@, m);
                assert(only_holder(all, file@, m));
                if m != n {
                    assert(session_file(all[n as int].extensions) != Some(file@));
                }
            },
            None => {
                assert forall|n: int| !only_holder(all, file@, n) by {
                    if only_holder(all, file@, n) {
                        assert(session_file(all[n].extensions) == Some(file@));
                    }
                }
            },
        }
    }
    found
}

/// The assignment of an agent, if it has one.
fn find_holder(assignments: &Vec<Assignment>, agent: &AgentInfo) -> (found: Option<usize>)
    ensures
        index_view(found) == holder(seq_view(assignments@), agent@),
{
    let session = match &agent.agent_session {
        Some(session) => session,
        None => return None,
    };
    let is_omp = match &agent.agent {
        Some(name) => same_text(name.as_str(), "omp"),
        None => false,
    };
    if !is_omp || !same_text(session.agent.as_str(), "omp") || !same_text(
        session.source.as_str(),
        "herdr:omp",
    ) {
        return None;
    }
    if same_text(session.kind.as_str(), "id") {
        find_by_id(assignments, session.value.as_str())
    } else if same_text(session.kind.as_str(), "path") {
        find_by_file(assignments, session.value.as_str())
    } else {
        None
    }
}

// ---------------------------------------------------------------------------
// Where an agent runs
// ---------------------------------------------------------------------------
/// The label of a tab: the last that is told.
pub open spec fn label_of_tab(tabs: Seq<TabView>, tab_id: Seq<char>) -> Option<Seq<char>>
    decreases tabs.len(),
{
    if tabs.len() == 0 {
        None
    } else if tabs.last().tab_id == tab_id {
        Some(tabs.last().label)
    } else {
        label_of_tab(tabs.drop_last(), tab_id)
    }
}

/// A workspace: the last that is told.
pub open spec fn workspace_of(workspaces: Seq<WorkspaceView>, workspace_id: Seq<char>) -> Option<
    WorkspaceView,
>
    decreases workspaces.len(),
{
    if workspaces.len() == 0 {
        None
    } else if workspaces.last().workspace_id == workspace_id {
        Some(workspaces.last())
    } else {
        workspace_of(workspaces.drop_last(), workspace_id)
    }
}

/// The place in which an agent runs.
pub open spec fn location_of(snapshot: SnapshotView, agent: AgentView) -> LocationView {
    let workspace = workspace_of(snapshot.workspaces, agent.workspace_id);
    LocationView {
        agent_status: agent.agent_status,
        pane_id: agent.pane_id,
        tab_id: agent.tab_id,
        workspace_id: agent.workspace_id,
        tab_label: label_of_tab(snapshot.tabs, agent.tab_id),
        workspace_label: match workspace {
            Some(workspace) => Some(workspace.label),
            None => None,
        },
        cwd: agent.cwd,
        foreground_cwd: agent.foreground_cwd,
        worktree: match workspace {
            Some(workspace) => workspace.worktree,
            None => None,
        },
    }
}

/// The label of a tab: the last that is told.
fn find_tab_label(tabs: &Vec<TabInfo>, tab_id: &str) -> (label: Option<String>)
    ensures
        option_view(label) == label_of_tab(seq_view(tabs@), tab_id@),
{
    let ghost all = seq_view(tabs@);
    let mut i: usize = tabs.len();
    assert(all.take(i as int) =~= all);
    while i > 0
        invariant
            i <= tabs@.len(),
            all == seq_view(tabs@),
            label_of_tab(all, tab_id@) == label_of_tab(all.take(i as int), tab_id@),
        decreases i,
    {
        assert(all.take(i as int).drop_last() =~= all.take(i - 1));
        i = i - 1;
        if same_text(tabs[i].tab_id.as_str(), tab_id) {
            return Some(tabs[i].label.clone());
        }
    }
    None
}

/// A workspace: the last that is told.
fn find_workspace<'a>(workspaces: &'a Vec<WorkspaceInfo>, workspace_id: &str) -> (found: Option<
    &'a WorkspaceInfo,
>)
    ensures
        match found {
            Some(workspace) => workspace_of(seq_view(workspaces@), workspace_id@) == Some(
                workspace@,
            ),
            None => workspace_of(seq_view(workspaces@), workspace_id@) is None,
        },
{
    let ghost all = seq_view(workspaces@);
    let mut i: usize = workspaces.len();
    assert(all.take(i as int) =~= all);
    while i > 0
        invariant
            i <= workspaces@.len(),
            all == seq_view(workspaces@),
            workspace_of(all, workspace_id@) == workspace_of(all.take(i as int), workspace_id@),
        decreases i,
    {
        assert(all.take(i as int).drop_last() =~= all.take(i - 1));
        i = i - 1;
        if same_text(workspaces[i].workspace_id.as_str(), workspace_id) {
            return Some(&workspaces[i]);
        }
    }
    None
}

/// The place in which an agent runs.
fn locate(snapshot: &Snapshot, agent: &AgentInfo) -> (location: HerdrLocation)
    ensures
        location@ == location_of(snapshot@, agent@),
{
    let (workspace_label, worktree) = match find_workspace(
        &snapshot.workspaces,
        agent.workspace_id.as_str(),
    ) {
        Some(workspace) => (
            Some(workspace.label.clone()),
            match &workspace.worktree {
                Some(worktree) => Some(worktree.clone()),
                None => None,
            },
        ),
        None => (None, None),
    };
    HerdrLocation {
        agent_status: agent.agent_status.clone(),
        pane_id: agent.pane_id.clone(),
        tab_id: agent.tab_id.clone(),
        workspace_id: agent.workspace_id.clone(),
        tab_label: find_tab_label(&snapshot.tabs, agent.tab_id.as_str()),
        workspace_label,
        cwd: copy_option(&agent.cwd),
        foreground_cwd: copy_option(&agent.foreground_cwd),
        worktree,
    }
}

/// The order of places: by workspace, then tab, then pane.
pub open spec fn location_before(left: LocationView, right: LocationView) -> bool {
    ||| text_less(left.workspace_id, right.workspace_id)
    ||| left.workspace_id == right.workspace_id && text_less(left.tab_id, right.tab_id)
    ||| left.workspace_id == right.workspace_id && left.tab_id == right.tab_id && text_less(
        left.pane_id,
        right.pane_id,
    )
}

/// The order of places: by workspace, then tab, then pane.
fn is_location_before(left: &HerdrLocation, right: &HerdrLocation) -> (yes: bool)
    ensures
        yes == location_before(left@, right@),
{
    is_text_less(left.workspace_id.as_str(), right.workspace_id.as_str()) || (same_text(
        left.workspace_id.as_str(),
        right.workspace_id.as_str(),
    ) && (is_text_less(left.tab_id.as_str(), right.tab_id.as_str()) || (same_text(
        left.tab_id.as_str(),
        right.tab_id.as_str(),
    ) && is_text_less(left.pane_id.as_str(), right.pane_id.as_str()))))
}

// ---------------------------------------------------------------------------
// Assignments with what is known of their agents
// ---------------------------------------------------------------------------
/// The places of the first agents that have an assignment, in the order of the
/// agents.
pub open spec fn places_of(
    assignments: Seq<AssignmentView>,
    snapshot: SnapshotView,
    agents: Seq<AgentView>,
    i: int,
) -> Seq<LocationView>
    decreases agents.len(),
{
    if agents.len() == 0 {
        Seq::empty()
    } else {
        let before = places_of(assignments, snapshot, agents.drop_last(), i);
        if holder(assignments, agents.last()) == Some(i) {
            before.push(location_of(snapshot, agents.last()))
        } else {
            before
        }
    }
}

/// The places in which the agents of an assignment run, in order.
pub open spec fn locations_of(
    assignments: Seq<AssignmentView>,
    snapshot: SnapshotView,
    i: int,
) -> Seq<LocationView> {
    stably_sorted(
        places_of(assignments, snapshot, snapshot.agents, i),
        |a: LocationView, b: LocationView| location_before(a, b),
    )
}

/// An assignment with the places in which its agents run. Where there is one, the
/// activity is what the agent in the first place tells.
pub open spec fn with_runtime(
    assignment: AssignmentView,
    locations: Seq<LocationView>,
    observed_at: Timestamp,
) -> DiscoveredView {
    if locations.len() == 0 {
        DiscoveredView { assignment, runtime: None }
    } else {
        DiscoveredView {
            assignment: AssignmentView {
                state: ActivityState {
                    value: ActivityStateValue::external(locations[0].agent_status),
                    updated_at: observed_at,
                },
                ..assignment
            },
            runtime: Some(
                RuntimeView {
                    provider: "herdr"@,
                    state: locations[0].agent_status,
                    observed_at,
                    locations,
                },
            ),
        }
    }
}

/// Assignments with the places in which their agents run.
pub open spec fn snapshot_joined(
    assignments: Seq<AssignmentView>,
    snapshot: SnapshotView,
    observed_at: Timestamp,
) -> Seq<DiscoveredView> {
    Seq::new(
        assignments.len(),
        |i: int| with_runtime(assignments[i], locations_of(assignments, snapshot, i), observed_at),
    )
}

/// The places in which the agents of an assignment run, in order.
fn gather_locations(
    assignments: &Vec<Assignment>,
    holders: &Vec<Option<usize>>,
    snapshot: &Snapshot,
    i: usize,
) -> (locations: Vec<HerdrLocation>)
    requires
        i < assignments@.len(),
        holders@.len() == snapshot.agents@.len(),
        forall|j: int|
            0 <= j < holders@.len() ==> index_view(#[trigger] holders@[j]) == holder(
                seq_view(assignments@),
                snapshot.agents@[j]@,
            ),
    ensures
        seq_view(locations@) == locations_of(seq_view(assignments@), snapshot@, i as int),
{
    let ghost all = seq_view(assignments@);
    let ghost agents = snapshot@.agents;
    let mut places: Vec<HerdrLocation> = Vec::new();
    let mut n: usize = 0;
    assert(seq_view(places@) =~= places_of(all, snapshot@, agents.take(0), i as int));
    while n < snapshot.agents.len()
        invariant
            n <= snapshot.agents@.len(),
            i < assignments@.len(),
            all == seq_view(assignments@),
            agents == snapshot@.agents,
            holders@.len() == snapshot.agents@.len(),
            forall|j: int|
                0 <= j < holders@.len() ==> index_view(#[trigger] holders@[j]) == holder(
                    all,
                    snapshot.agents@[j]@,
                ),
            seq_view(places@) == places_of(all, snapshot@, agents.take(n as int), i as int),
        decreases snapshot.agents@.len() - n,
    {
        let ghost before = seq_view(places@);
        proof {
            assert(agents.take(n + 1).drop_last() =~= agents.take(n as int));
            assert(agents.take(n + 1).last() == snapshot.agents@[n as int]@);
            assert(index_view(holders@[n as int]) == holder(all, snapshot.agents@[n as int]@));
        }
        let held = match holders[n] {
            Some(index) => index == i,
            None => false,
        };
        if held {
            let location = locate(snapshot, &snapshot.agents[n]);
            places.push(location);
            assert(seq_view(places@) =~= before.push(location@));
        }
        n = n + 1;
    }
    assert(agents.take(n as int) =~= agents);
    let ghost order = |a: LocationView, b: LocationView| location_before(a, b);
    stable_sort(places, is_location_before, Ghost(order))
}

/// An assignment with the places in which its agents run.
fn attach_runtime(
    assignment: Assignment,
    locations: Vec<HerdrLocation>,
    observed_at: Timestamp,
) -> (record: DiscoveredAssignment)
    ensures
        record@ == with_runtime(assignment@, seq_view(locations@), observed_at),
{
    if locations.len() == 0 {
        return DiscoveredAssignment { assignment, runtime: None };
    }
    let mut assignment = assignment;
    let state = locations[0].agent_status.clone();
    assignment.state = ActivityState::from_external(state.as_str(), observed_at);
    DiscoveredAssignment {
        assignment,
        runtime: Some(RuntimeProjection { provider: "herdr", state, observed_at, locations }),
    }
}

/// Assignments with the places in which their agents run.
pub fn join_snapshot(
    assignments: Vec<Assignment>,
    snapshot: Snapshot,
    observed_at: Timestamp,
) -> (records: Vec<DiscoveredAssignment>)
    ensures
        seq_view(records@) == snapshot_joined(seq_view(assignments@), snapshot@, observed_at),
{
    let ghost all = seq_view(assignments@);
    let mut holders: Vec<Option<usize>> = Vec::new();
    let mut n: usize = 0;
    while n < snapshot.agents.len()
        invariant
            n <= snapshot.agents@.len(),
            all == seq_view(assignments@),
            holders@.len() == n,
            forall|j: int|
                0 <= j < n ==> index_view(#[trigger] holders@[j]) == holder(
                    all,
                    snapshot.agents@[j]@,
                ),
        decreases snapshot.agents@.len() - n,
    {
        holders.push(find_holder(&assignments, &snapshot.agents[n]));
        n = n + 1;
    }
    let mut gathered: Vec<Vec<HerdrLocation>> = Vec::new();
    let mut i: usize = assignments.len();
    while i > 0
        invariant
            i + gathered@.len() == assignments@.len(),
            all == seq_view(assignments@),
            holders@.len() == snapshot.agents@.len(),
            forall|j: int|
                0 <= j < holders@.len() ==> index_view(#[trigger] holders@[j]) == holder(
                    all,
                    snapshot.agents@[j]@,
                ),
            forall|j: int|
                0 <= j < gathered@.len() ==> seq_view((#[trigger] gathered@[j])@) == locations_of(
                    all,
                    snapshot@,
                    all.len() - 1 - j,
                ),
        decreases i,
    {
        i = i - 1;
        gathered.push(gather_locations(&assignments, &holders, &snapshot, i));
    }
    let ghost joined = snapshot_joined(all, snapshot@, observed_at);
    let ghost given = assignments@;
    let mut records: Vec<DiscoveredAssignment> = Vec::new();
    for assignment in it: assignments
        invariant
            it.seq() == given,
            all == seq_view(given),
            joined == snapshot_joined(all, snapshot@, observed_at),
            records@.len() == it.index(),
            gathered@.len() + it.index() == all.len(),
            forall|j: int|
                0 <= j < gathered@.len() ==> seq_view((#[trigger] gathered@[j])@) == locations_of(
                    all,
                    snapshot@,
                    all.len() - 1 - j,
                ),
            forall|j: int| 0 <= j < records@.len() ==> (#[trigger] records@[j])@ == joined[j],
    {
        let ghost last = gathered@.len() - 1;
        assert(seq_view(gathered@[last]@) == locations_of(all, snapshot@, all.len() - 1 - last));
        if let Some(locations) = gathered.pop() {
            records.push(attach_runtime(assignment, locations, observed_at));
        }
    }
    assert(seq_view(records@) =~= joined);
    records
}

// ---------------------------------------------------------------------------
// Discovery with or without Herdr
// ---------------------------------------------------------------------------
/// Assignments of whose agents nothing is known.
pub open spec fn bare_records(assignments: Seq<AssignmentView>) -> Seq<DiscoveredView> {
    Seq::new(
        assignments.len(),
        |i: int| DiscoveredView { assignment: assignments[i], runtime: None },
    )
}

/// Whether an agent of the assignment runs.
pub open spec fn runs(record: DiscoveredView) -> bool {
    record.runtime is Some
}

/// Assignments with what is known of their agents. Where Herdr tells of them, the
/// assignments without a running agent stay only where all are asked for.
pub open spec fn augmented(
    assignments: Seq<AssignmentView>,
    snapshot: Option<SnapshotView>,
    include_all: bool,
    observed_at: Timestamp,
) -> Seq<DiscoveredView> {
    match snapshot {
        None => bare_records(assignments),
        Some(snapshot) => {
            let records = snapshot_joined(assignments, snapshot, observed_at);
            if include_all {
                records
            } else {
                records.filter(|record: DiscoveredView| runs(record))
            }
        },
    }
}

/// Whether the environment is that of Herdr.
pub open spec fn inside_herdr(marker: Option<Seq<char>>, socket_path: Option<Seq<char>>) -> bool {
    marker == Some("1"@) && socket_path is Some && socket_path->0.len() > 0
}

/// Whether the environment is that of Herdr: its marker is `1`, and there is a path
/// of its socket.
pub fn herdr_environment(marker: Option<&str>, socket_path: Option<&str>) -> (yes: bool)
    ensures
        yes == inside_herdr(slice_view(marker), slice_view(socket_path)),
{
    let marked = match marker {
        Some(marker) => same_text(marker, "1"),
        None => false,
    };
    let connected = match socket_path {
        Some(path) => !path.is_empty(),
        None => false,
    };
    marked && connected
}

/// Assignments of whose agents nothing is known.
pub fn base_records(assignments: Vec<Assignment>) -> (records: Vec<DiscoveredAssignment>)
    ensures
        seq_view(records@) == bare_records(seq_view(assignments@)),
{
    let ghost given = assignments@;
    let mut records: Vec<DiscoveredAssignment> = Vec::new();
    for assignment in it: assignments
        invariant
            it.seq() == given,
            records@.len() == it.index(),
            forall|i: int|
                0 <= i < records@.len() ==> (#[trigger] records@[i])@ == (DiscoveredView {
                    assignment: given[i]@,
                    runtime: None,
                }),
    {
        records.push(DiscoveredAssignment { assignment, runtime: None });
    }
    assert(seq_view(records@) =~= bare_records(seq_view(given)));
    records
}

/// Assignments with what is known of their agents.
pub fn augment_discovery(
    assignments: Vec<Assignment>,
    snapshot: Option<Snapshot>,
    include_all: bool,
    observed_at: Timestamp,
) -> (records: Vec<DiscoveredAssignment>)
    ensures
        seq_view(records@) == augmented(
            seq_view(assignments@),
            match snapshot {
                Some(snapshot) => Some(snapshot@),
                None => None,
            },
            include_all,
            observed_at,
        ),
{
    let snapshot = match snapshot {
        Some(snapshot) => snapshot,
        None => return base_records(assignments),
    };
    let records = join_snapshot(assignments, snapshot, observed_at);
    if include_all {
        return records;
    }
    let ghost given = records@;
    let ghost all = seq_view(given);
    let ghost running = |record: DiscoveredView| runs(record);
    let mut kept: Vec<DiscoveredAssignment> = Vec::new();
    proof {
        reveal(Seq::filter);
        assert(seq_view(kept@) =~= all.take(0).filter(running));
    }
    for record in it: records
        invariant
            it.seq() == given,
            all == seq_view(given),
            running == (|record: DiscoveredView| runs(record)),
            seq_view(kept@) == all.take(it.index()).filter(running),
    {
        let ghost before = seq_view(kept@);
        proof {
            reveal(Seq::filter);
            assert(all.take(it.index() + 1).drop_last() =~= all.take(it.index()));
        }
        if record.runtime.is_some() {
            kept.push(record);
            assert(seq_view(kept@) =~= before.push(record@));
        }
    }
    assert(all.take(all.len() as int) =~= all);
    kept
}

// ---------------------------------------------------------------------------
// Laws of the runtime
// ---------------------------------------------------------------------------
/// What Herdr tells changes nothing of an assignment but its activity, and keeps the
/// order. Where an agent of it runs, the activity is the one that Herdr tells; where none
/// does, the assignment stays as it is.
pub proof fn lemma_join_keeps_identities(
    assignments: Seq<AssignmentView>,
    snapshot: SnapshotView,
    observed_at: Timestamp,
    i: int,
)
    requires
        0 <= i < assignments.len(),
    ensures
        snapshot_joined(assignments, snapshot, observed_at).len() == assignments.len(),
        ({
            let record = snapshot_joined(assignments, snapshot, observed_at)[i];
            &&& record.assignment == (AssignmentView {
                state: record.assignment.state,
                ..assignments[i]
            })
            &&& record.runtime is None ==> record.assignment == assignments[i]
            &&& record.runtime matches Some(runtime) ==> {
                &&& runtime.provider == "herdr"@
                &&& runtime.observed_at == observed_at
                &&& runtime.locations == locations_of(assignments, snapshot, i)
                &&& runtime.locations.len() > 0
                &&& runtime.state == runtime.locations[0].agent_status
                &&& record.assignment.state == (ActivityState {
                    value: ActivityStateValue::external(runtime.state),
                    updated_at: observed_at,
                })
            }
        }),
{
}

/// An assignment has a runtime exactly where some agent is an agent of it.
pub proof fn lemma_runtime_is_matched(
    assignments: Seq<AssignmentView>,
    snapshot: SnapshotView,
    observed_at: Timestamp,
    i: int,
)
    requires
        0 <= i < assignments.len(),
    ensures
        snapshot_joined(assignments, snapshot, observed_at)[i].runtime is Some <==> exists|n: int|
            0 <= n < snapshot.agents.len() && holder(assignments, #[trigger] snapshot.agents[n])
                == Some(i),
{
    let agents = snapshot.agents;
    lemma_places_matched(assignments, snapshot, agents, i);
    lemma_sorted_multiset(
        places_of(assignments, snapshot, agents, i),
        |a: LocationView, b: LocationView| location_before(a, b),
    );
}

/// There are places of an assignment exactly where some of the agents is an agent of it.
proof fn lemma_places_matched(
    assignments: Seq<AssignmentView>,
    snapshot: SnapshotView,
    agents: Seq<AgentView>,
    i: int,
)
    ensures
        places_of(assignments, snapshot, agents, i).len() > 0 <==> exists|n: int|
            0 <= n < agents.len() && holder(assignments, #[trigger] agents[n]) == Some(i),
    decreases agents.len(),
{
    if agents.len() > 0 {
        let front = agents.drop_last();
        lemma_places_matched(assignments, snapshot, front, i);
        if holder(assignments, agents.last()) == Some(i) {
            assert(holder(assignments, agents[agents.len() - 1]) == Some(i));
        } else {
            if exists|n: int|
                0 <= n < agents.len() && holder(assignments, #[trigger] agents[n]) == Some(i) {
                let n = choose|n: int|
                    0 <= n < agents.len() && holder(assignments, #[trigger] agents[n]) == Some(i);
                assert(front[n] == agents[n]);
            }
            if exists|n: int|
                0 <= n < front.len() && holder(assignments, #[trigger] front[n]) == Some(i) {
                let n = choose|n: int|
                    0 <= n < front.len() && holder(assignments, #[trigger] front[n]) == Some(i);
                assert(agents[n] == front[n]);
            }
        }
    }
}

/// Where Herdr tells of the agents, and not all assignments are asked for, exactly those
/// with a running agent are left.
pub proof fn lemma_only_running_are_left(
    assignments: Seq<AssignmentView>,
    snapshot: SnapshotView,
    observed_at: Timestamp,
)
    ensures
        forall|record: DiscoveredView| #[trigger]
            augmented(assignments, Some(snapshot), false, observed_at).contains(record)
                <==> snapshot_joined(assignments, snapshot, observed_at).contains(record)
                && record.runtime is Some,
        augmented(assignments, Some(snapshot), true, observed_at) == snapshot_joined(
            assignments,
            snapshot,
            observed_at,
        ),
{
    lemma_kept(
        snapshot_joined(assignments, snapshot, observed_at),
        |record: DiscoveredView| runs(record),
    );
}

/// A session file that two assignments name, or none, is no agent's way to an assignment:
/// nothing is guessed.
pub proof fn lemma_no_guessing(assignments: Seq<AssignmentView>, file: Seq<char>)
    ensures
        holder_by_file(assignments, file) matches Some(i) ==> only_holder(assignments, file, i),
        forall|i: int, j: int|
            0 <= i < j < assignments.len() && session_file((#[trigger] assignments[i]).extensions)
                == Some(file) && session_file((#[trigger] assignments[j]).extensions) == Some(file)
                ==> holder_by_file(assignments, file) is None,
        (forall|i: int|
            0 <= i < assignments.len() ==> session_file((#[trigger] assignments[i]).extensions)
                != Some(file)) ==> holder_by_file(assignments, file) is None,
{
}

} // verus!
