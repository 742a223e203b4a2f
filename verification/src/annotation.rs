//! Annotating an identity: what an agent works on, how it is doing and where, and what
//! extensions keep.

use crate::activity::{ActivityState, ActivityStateValue};
use crate::assignment::{
    clear_omp_activity_state, extension_views, lemma_extension_views_insert,
    lemma_extension_views_remove, materialize_omp_activity_state, materialized_state,
    normalize_omp_activity_state, option_view, persisted_assignment, record_of,
    set_omp_activity_state, state_spelt_out, with_state, without_state, ActivitySummary, Assignment,
    AssignmentView, ExtensionMetadata, ExtensionView, SummaryView, OMP_EXTENSION_OWNER,
};
use crate::error::{Error, ErrorView};
use crate::host::{PlaceView, Reply, ReplyView, Request, RequestView, Step, StepView};
use crate::json::{json_views, lemma_json_views_insert, Json, JsonView};
use crate::lookup::{claim_record, own_assignment};
use crate::registry::{session_place, Registry};
use crate::text::{lemma_text_less_irreflexive, lemma_text_less_transitive, text_less};
use crate::text_map::{entry_map, has_key, key_index, lemma_entry_at, lemma_one_more, TextMap};
use crate::timestamp::Timestamp;
use crate::validation::{
    cwd_text, normalize_cwd, normalize_summary, session_id, summary_text, validate_session_id,
};
use vstd::prelude::*;

verus! {

// ---------------------------------------------------------------------------
// Updates
// ---------------------------------------------------------------------------
/// What is to be changed of an identity.
#[derive(Debug)]
pub struct ActivityUpdate {
    pub summary: Option<String>,
    pub clear_summary: bool,
    pub state: Option<ActivityStateValue>,
    pub clear_state: bool,
    pub cwd: Option<String>,
    pub clear_cwd: bool,
    pub extensions: TextMap<Json>,
    pub clear_extensions: TextMap<()>,
}

pub struct UpdateView {
    pub summary: Option<Seq<char>>,
    pub clear_summary: bool,
    pub state: Option<ActivityStateValue>,
    pub clear_state: bool,
    pub cwd: Option<Seq<char>>,
    pub clear_cwd: bool,
    pub extensions: Map<Seq<char>, JsonView>,
    pub clear_extensions: Set<Seq<char>>,
}

impl View for ActivityUpdate {
    type V = UpdateView;

    open spec fn view(&self) -> UpdateView {
        UpdateView {
            summary: option_view(self.summary),
            clear_summary: self.clear_summary,
            state: self.state,
            clear_state: self.clear_state,
            cwd: option_view(self.cwd),
            clear_cwd: self.clear_cwd,
            extensions: json_views(self.extensions@),
            clear_extensions: self.clear_extensions@.dom(),
        }
    }
}

/// Whether an update changes nothing.
pub open spec fn changes_nothing(update: UpdateView) -> bool {
    &&& update.summary is None && !update.clear_summary
    &&& update.state is None && !update.clear_state
    &&& update.cwd is None && !update.clear_cwd
    &&& update.extensions == Map::<Seq<char>, JsonView>::empty()
    &&& update.clear_extensions == Set::<Seq<char>>::empty()
}

/// Whether the extension of an owner is set and cleared together.
pub open spec fn set_and_cleared(update: UpdateView, owner: Seq<char>) -> bool {
    update.extensions.contains_key(owner) && update.clear_extensions.contains(owner)
}

/// Whether an owner is the first whose extension is set and cleared together.
pub open spec fn first_set_and_cleared(update: UpdateView, owner: Seq<char>) -> bool {
    &&& set_and_cleared(update, owner)
    &&& forall|other: Seq<char>| #[trigger]
        set_and_cleared(update, other) ==> !text_less(other, owner)
}

/// The first owner whose extension is set and cleared together.
pub open spec fn extension_conflict(update: UpdateView) -> Option<Seq<char>> {
    if exists|owner: Seq<char>| first_set_and_cleared(update, owner) {
        Some(choose|owner: Seq<char>| first_set_and_cleared(update, owner))
    } else {
        None
    }
}

/// What is wrong with an update, whatever it is to update.
pub open spec fn update_error(update: UpdateView) -> Option<ErrorView> {
    if changes_nothing(update) {
        Some(ErrorView::NoUpdate)
    } else if update.summary is Some && update.clear_summary {
        Some(ErrorView::SummaryConflict)
    } else if update.state is Some && update.clear_state {
        Some(ErrorView::StateConflict)
    } else if update.cwd is Some && update.clear_cwd {
        Some(ErrorView::CwdConflict)
    } else {
        match extension_conflict(update) {
            Some(owner) => Some(ErrorView::ExtensionConflict { owner }),
            None => None,
        }
    }
}

/// An update with its summary and working directory in the form in which they are
/// kept.
pub open spec fn update_settled(update: UpdateView) -> Result<UpdateView, ErrorView> {
    let summary = match update.summary {
        Some(text) => match summary_text(text) {
            Ok(text) => Ok(Some(text)),
            Err(error) => Err(error),
        },
        None => Ok(None),
    };
    let cwd = match update.cwd {
        Some(text) => match cwd_text(text) {
            Ok(text) => Ok(Some(text)),
            Err(error) => Err(error),
        },
        None => Ok(None),
    };
    match (summary, cwd) {
        (Err(error), _) => Err(error),
        (Ok(_), Err(error)) => Err(error),
        (Ok(summary), Ok(cwd)) => Ok(UpdateView { summary, cwd, ..update }),
    }
}

/// Some extensions with others that are set, or set anew, at an instant.
pub open spec fn extensions_set(
    extensions: Map<Seq<char>, ExtensionView>,
    data: Map<Seq<char>, JsonView>,
    now: Timestamp,
) -> Map<Seq<char>, ExtensionView> {
    extensions.union_prefer_right(
        data.map_values(|data: JsonView| ExtensionView { data, updated_at: now }),
    )
}

/// The extensions of an identity after an update. Where the update sets the extension
/// that tells the activity, a bare word of the activity is spelt out.
pub open spec fn extensions_updated(
    extensions: Map<Seq<char>, ExtensionView>,
    update: UpdateView,
    now: Timestamp,
) -> Map<Seq<char>, ExtensionView> {
    let changed = extensions_set(extensions, update.extensions, now).remove_keys(
        update.clear_extensions,
    );
    let stated = match update.state {
        Some(value) => with_state(changed, value, now),
        None => if update.clear_state {
            without_state(changed, now)
        } else {
            changed
        },
    };
    if update.extensions.contains_key(OMP_EXTENSION_OWNER@) {
        state_spelt_out(stated, now)
    } else {
        stated
    }
}

/// An assignment after an update whose summary and working directory are in the form
/// in which they are kept.
pub open spec fn annotated(
    assignment: AssignmentView,
    update: UpdateView,
    now: Timestamp,
) -> AssignmentView {
    let extensions = extensions_updated(assignment.extensions, update, now);
    AssignmentView {
        summary: match update.summary {
            Some(text) => Some(SummaryView { text, updated_at: now }),
            None => if update.clear_summary {
                None
            } else {
                assignment.summary
            },
        },
        cwd: match update.cwd {
            Some(text) => Some(text),
            None => if update.clear_cwd {
                None
            } else {
                assignment.cwd
            },
        },
        extensions,
        state: materialized_state(extensions, now),
        updated_at: now,
        ..assignment
    }
}

/// No JSON values are told by no JSON values.
proof fn lemma_no_json_views(fields: Map<Seq<char>, Json>)
    ensures
        (json_views(fields) == Map::<Seq<char>, JsonView>::empty()) == (fields == Map::<
            Seq<char>,
            Json,
        >::empty()),
{
    if fields == Map::<Seq<char>, Json>::empty() {
        assert(json_views(fields) =~= Map::<Seq<char>, JsonView>::empty());
    }
    if json_views(fields) == Map::<Seq<char>, JsonView>::empty() {
        assert forall|key: Seq<char>| !fields.contains_key(key) by {
            assert(!json_views(fields).contains_key(key));
        }
        assert(fields =~= Map::<Seq<char>, Json>::empty());
    }
}

/// There is only one first owner.
proof fn lemma_first_is_only(update: UpdateView, owner: Seq<char>)
    requires
        first_set_and_cleared(update, owner),
    ensures
        extension_conflict(update) == Some(owner),
{
    let other = extension_conflict(update)->0;
    assert(first_set_and_cleared(update, other));
    crate::text::lemma_text_less_total(owner, other);
}

/// The first owner whose extension is set and cleared together.
fn find_conflict(update: &ActivityUpdate) -> (found: Option<String>)
    ensures
        option_view(found) == extension_conflict(update@),
{
    let entries = update.extensions.entries();
    let mut i: usize = 0;
    while i < entries.len()
        invariant
            i <= entries@.len(),
            crate::text_map::ascending(entries@),
            entry_map(entries@) == update.extensions@,
            forall|j: int|
                0 <= j < i ==> !update@.clear_extensions.contains(#[trigger] entries@[j].0@),
        decreases entries@.len() - i,
    {
        let owner = &entries[i].0;
        if update.clear_extensions.contains_key(owner.as_str()) {
            proof {
                lemma_entry_at(entries@, i as int);
                assert forall|other: Seq<char>| #[trigger]
                    set_and_cleared(update@, other) implies !text_less(other, owner@) by {
                    assert(has_key(entries@, other));
                    let k = key_index(entries@, other);
                    assert(entries@[k].0@ == other);
                    lemma_text_less_irreflexive(owner@);
                    if text_less(other, owner@) && i < k {
                        lemma_text_less_transitive(other, owner@, entries@[k].0@);
                        lemma_text_less_irreflexive(other);
                    }
                }
                lemma_first_is_only(update@, owner@);
            }
            return Some(owner.clone());
        }
        i = i + 1;
    }
    proof {
        if extension_conflict(update@) is Some {
            let owner = extension_conflict(update@)->0;
            assert(first_set_and_cleared(update@, owner));
            assert(has_key(entries@, owner));
            let k = key_index(entries@, owner);
            assert(entries@[k].0@ == owner);
        }
    }
    None
}

/// What is wrong with an update, whatever it is to update.
fn find_update_error(update: &ActivityUpdate) -> (found: Option<Error>)
    ensures
        match found {
            Some(error) => update_error(update@) == Some(error@),
            None => update_error(update@) is None,
        },
{
    let nothing = update.summary.is_none() && !update.clear_summary && update.state.is_none()
        && !update.clear_state && update.cwd.is_none() && !update.clear_cwd
        && update.extensions.is_empty() && update.clear_extensions.is_empty();
    proof {
        lemma_no_json_views(update.extensions@);
        let cleared = update.clear_extensions@;
        if cleared.dom() == Set::<Seq<char>>::empty() {
            assert(cleared =~= Map::<Seq<char>, ()>::empty());
        }
        if cleared == Map::<Seq<char>, ()>::empty() {
            assert(cleared.dom() =~= Set::<Seq<char>>::empty());
        }
    }
    if nothing {
        return Some(Error::NoUpdate);
    }
    if update.summary.is_some() && update.clear_summary {
        return Some(Error::SummaryConflict);
    }
    if update.state.is_some() && update.clear_state {
        return Some(Error::StateConflict);
    }
    if update.cwd.is_some() && update.clear_cwd {
        return Some(Error::CwdConflict);
    }
    match find_conflict(update) {
        Some(owner) => Some(Error::ExtensionConflict { owner }),
        None => None,
    }
}

/// An update with its summary and working directory in the form in which they are
/// kept.
fn settle_update(update: ActivityUpdate) -> (settled: Result<ActivityUpdate, Error>)
    ensures
        match settled {
            Ok(settled) => update_settled(update@) == Ok::<UpdateView, ErrorView>(settled@),
            Err(error) => update_settled(update@) == Err::<UpdateView, ErrorView>(error@),
        },
{
    let summary = match &update.summary {
        Some(text) => match normalize_summary(text.as_str()) {
            Ok(text) => Some(text),
            Err(error) => return Err(error),
        },
        None => None,
    };
    let cwd = match &update.cwd {
        Some(text) => match normalize_cwd(text.as_str()) {
            Ok(text) => Some(text),
            Err(error) => return Err(error),
        },
        None => None,
    };
    Ok(ActivityUpdate { summary, cwd, ..update })
}

/// Sets some extensions at an instant.
fn set_extensions(
    extensions: &mut TextMap<ExtensionMetadata>,
    data: TextMap<Json>,
    now: Timestamp,
)
    ensures
        extension_views(final(extensions)@) == extensions_set(
            extension_views(old(extensions)@),
            json_views(data@),
            now,
        ),
{
    let ghost start = extension_views(extensions@);
    let entries = data.into_entries();
    let ghost given = entries@;
    assert(extension_views(extensions@) =~= extensions_set(
        start,
        json_views(entry_map(given.take(0))),
        now,
    ));
    for entry in it: entries
        invariant
            it.seq() == given,
            crate::text_map::ascending(given),
            extension_views(extensions@) == extensions_set(
                start,
                json_views(entry_map(given.take(it.index()))),
                now,
            ),
    {
        let ghost before = extension_views(extensions@);
        let ghost set = json_views(entry_map(given.take(it.index())));
        let (owner, data) = entry;
        let metadata = ExtensionMetadata { data, updated_at: now };
        proof {
            lemma_one_more(given, it.index());
            lemma_json_views_insert(entry_map(given.take(it.index())), owner@, data);
            lemma_extension_views_insert(extensions@, owner@, metadata);
            assert(extensions_set(start, set.insert(owner@, data@), now) =~= before.insert(
                owner@,
                metadata@,
            ));
        }
        extensions.insert(owner, metadata);
    }
    assert(given.take(given.len() as int) =~= given);
}

/// Clears the extensions of some owners.
fn clear_extensions(extensions: &mut TextMap<ExtensionMetadata>, owners: &TextMap<()>)
    ensures
        extension_views(final(extensions)@) == extension_views(old(extensions)@).remove_keys(
            owners@.dom(),
        ),
{
    let ghost start = extension_views(extensions@);
    let entries = owners.entries();
    let mut i: usize = 0;
    assert(extension_views(extensions@) =~= start.remove_keys(entry_map(entries@.take(0)).dom()));
    while i < entries.len()
        invariant
            i <= entries@.len(),
            crate::text_map::ascending(entries@),
            extension_views(extensions@) == start.remove_keys(
                entry_map(entries@.take(i as int)).dom(),
            ),
        decreases entries@.len() - i,
    {
        let owner = &entries[i].0;
        let ghost before = extension_views(extensions@);
        proof {
            lemma_one_more(entries@, i as int);
            lemma_extension_views_remove(extensions@, owner@);
            assert(start.remove_keys(entry_map(entries@.take(i + 1)).dom()) =~= before.remove(
                owner@,
            ));
        }
        extensions.remove(owner.as_str());
        i = i + 1;
    }
    assert(entries@.take(i as int) =~= entries@);
}

/// Updates an assignment at an instant. An activity that is set is the one that the
/// assignment then has.
pub fn apply_update(assignment: Assignment, update: ActivityUpdate, now: Timestamp) -> (updated:
    Assignment)
    ensures
        updated@ == annotated(assignment@, update@, now),
        update.state is Some ==> updated@.state == (ActivityState {
            value: update.state->0,
            updated_at: now,
        }),
{
    let mut extensions = assignment.extensions;
    let told = update.extensions.contains_key(OMP_EXTENSION_OWNER);
    set_extensions(&mut extensions, update.extensions, now);
    clear_extensions(&mut extensions, &update.clear_extensions);
    if let Some(value) = update.state {
        set_omp_activity_state(&mut extensions, value, now);
    } else if update.clear_state {
        clear_omp_activity_state(&mut extensions, now);
    }
    if told {
        normalize_omp_activity_state(&mut extensions, now);
    }
    let state = materialize_omp_activity_state(&extensions, now);
    let summary = match update.summary {
        Some(text) => Some(ActivitySummary { text, updated_at: now }),
        None => if update.clear_summary {
            None
        } else {
            assignment.summary
        },
    };
    let cwd = match update.cwd {
        Some(text) => Some(text),
        None => if update.clear_cwd {
            None
        } else {
            assignment.cwd
        },
    };
    Assignment {
        version: assignment.version,
        session_id: assignment.session_id,
        name: assignment.name,
        slug: assignment.slug,
        first_name: assignment.first_name,
        family_name: assignment.family_name,
        realm: assignment.realm,
        summary,
        state,
        cwd,
        extensions,
        created_at: assignment.created_at,
        updated_at: now,
    }
}

// ---------------------------------------------------------------------------
// The task
// ---------------------------------------------------------------------------
/// The annotation of an identity.
pub struct Annotation {
    pub registry: Registry,
    pub session_id: String,
    pub stage: AnnotationStage,
}

/// What an annotation waits for.
pub enum AnnotationStage {
    /// The record of the session.
    Finding { update: ActivityUpdate },
    /// The time.
    Dating { assignment: Assignment, update: ActivityUpdate },
    /// The record, to be replaced.
    Replacing { assignment: Assignment },
}

pub struct AnnotationView {
    pub registry: PlaceView,
    pub session_id: Seq<char>,
    pub stage: AnnotationStageView,
}

pub enum AnnotationStageView {
    Finding { update: UpdateView },
    Dating { assignment: AssignmentView, update: UpdateView },
    Replacing { assignment: AssignmentView },
}

impl View for AnnotationStage {
    type V = AnnotationStageView;

    open spec fn view(&self) -> AnnotationStageView {
        match *self {
            AnnotationStage::Finding { update } => AnnotationStageView::Finding { update: update@ },
            AnnotationStage::Dating { assignment, update } => AnnotationStageView::Dating {
                assignment: assignment@,
                update: update@,
            },
            AnnotationStage::Replacing { assignment } => AnnotationStageView::Replacing {
                assignment: assignment@,
            },
        }
    }
}

impl View for Annotation {
    type V = AnnotationView;

    open spec fn view(&self) -> AnnotationView {
        AnnotationView {
            registry: self.registry@,
            session_id: self.session_id@,
            stage: self.stage@,
        }
    }
}

pub type AnnotationStep = Step<Annotation, Assignment>;

pub type AnnotationStepView = StepView<AnnotationView, AssignmentView>;

/// An annotation starts with the record of the session, where nothing is wrong with
/// the session ID and the update.
pub open spec fn annotation_begun(
    registry: PlaceView,
    session: Seq<char>,
    update: UpdateView,
) -> AnnotationStepView {
    match (session_id(session), update_error(update)) {
        (Err(error), _) => StepView::failure(error),
        (Ok(_), Some(error)) => StepView::failure(error),
        (Ok(id), None) => StepView::Ask {
            request: RequestView::FindSession {
                session_id: id,
                place: session_place(registry, id),
            },
            then: AnnotationView {
                registry,
                session_id: id,
                stage: AnnotationStageView::Finding { update },
            },
        },
    }
}

/// How an annotation goes on with a reply.
pub open spec fn annotation_resumed(task: AnnotationView, reply: ReplyView) -> AnnotationStepView {
    let registry = task.registry;
    let id = task.session_id;
    match (task.stage, reply) {
        (AnnotationStageView::Finding { .. }, ReplyView::Missing) => StepView::failure(
            ErrorView::NotRegistered { session_id: id },
        ),
        (AnnotationStageView::Finding { update }, ReplyView::Session { record }) => match (
            own_assignment(id, record),
            update_settled(update),
        ) {
            (Err(error), _) => StepView::failure(error),
            (Ok(_), Err(error)) => StepView::failure(error),
            (Ok(assignment), Ok(update)) => StepView::Ask {
                request: RequestView::ReadClock,
                then: AnnotationView {
                    registry,
                    session_id: id,
                    stage: AnnotationStageView::Dating { assignment, update },
                },
            },
        },
        (AnnotationStageView::Dating { assignment, update }, ReplyView::Instant { now }) => {
            StepView::Ask {
                request: RequestView::ReplaceSession {
                    session_id: id,
                    place: session_place(registry, id),
                    record: record_of(annotated(assignment, update, now)),
                },
                then: AnnotationView {
                    registry,
                    session_id: id,
                    stage: AnnotationStageView::Replacing {
                        assignment: annotated(assignment, update, now),
                    },
                },
            }
        },
        (AnnotationStageView::Replacing { assignment }, ReplyView::Performed) => StepView::Over {
            result: Ok(assignment),
        },
        _ => StepView::failure(ErrorView::OutOfTurn),
    }
}

/// Starts the annotation of an identity.
pub fn begin_annotation(registry: Registry, session: &str, update: ActivityUpdate) -> (step:
    AnnotationStep)
    ensures
        step@ == annotation_begun(registry@, session@, update@),
{
    let id = match validate_session_id(session) {
        Ok(id) => id,
        Err(error) => return Step::Over { result: Err(error) },
    };
    if let Some(error) = find_update_error(&update) {
        return Step::Over { result: Err(error) };
    }
    Step::Ask {
        request: Request::FindSession {
            session_id: id.clone(),
            place: registry.session_path(id.as_str()),
        },
        then: Annotation { registry, session_id: id, stage: AnnotationStage::Finding { update } },
    }
}

impl Annotation {
    /// Goes on with a reply.
    pub fn resume(self, reply: Reply) -> (step: AnnotationStep)
        ensures
            step@ == annotation_resumed(self@, reply@),
    {
        let Annotation { registry, session_id: id, stage } = self;
        match (stage, reply) {
            (AnnotationStage::Finding { .. }, Reply::Missing) => Step::Over {
                result: Err(Error::NotRegistered { session_id: id }),
            },
            (AnnotationStage::Finding { update }, Reply::Session { record }) => {
                let assignment = match claim_record(id.as_str(), record) {
                    Ok(assignment) => assignment,
                    Err(error) => return Step::Over { result: Err(error) },
                };
                let update = match settle_update(update) {
                    Ok(update) => update,
                    Err(error) => return Step::Over { result: Err(error) },
                };
                Step::Ask {
                    request: Request::ReadClock,
                    then: Annotation {
                        registry,
                        session_id: id,
                        stage: AnnotationStage::Dating { assignment, update },
                    },
                }
            },
            (AnnotationStage::Dating { assignment, update }, Reply::Instant { now }) => {
                let assignment = apply_update(assignment, update, now);
                Step::Ask {
                    request: Request::ReplaceSession {
                        session_id: id.clone(),
                        place: registry.session_path(id.as_str()),
                        record: persisted_assignment(&assignment),
                    },
                    then: Annotation {
                        registry,
                        session_id: id,
                        stage: AnnotationStage::Replacing { assignment },
                    },
                }
            },
            (AnnotationStage::Replacing { assignment }, Reply::Performed) => Step::Over {
                result: Ok(assignment),
            },
            _ => Step::Over { result: Err(Error::OutOfTurn) },
        }
    }
}

} // verus!
