//! Registering a session: the search for a name that is free, and the record of it.

use crate::activity::ActivityState;
use crate::assignment::{
    assignment_of, extension_views, option_view, persisted_assignment, record_of, Assignment,
    AssignmentView, ExtensionMetadata, ExtensionView,
};
use crate::error::{Error, ErrorView};
use crate::host::{PlaceView, Reply, ReplyView, Request, RequestView, Step, StepView};
use crate::identity::{
    candidate, component, full_name, is_component, name_text, names_tried, normalize_component,
    slug, slug_of, valid_component,
};
use crate::registry::{claim_place, names_place, session_place, sessions_place, Registry};
use crate::text::{same_text, slice_view, title_word, titled, trim, trimmed, views};
use crate::text_map::TextMap;
use crate::timestamp::Timestamp;
use crate::validation::{session_id, validate_session_id};
use vstd::prelude::*;
use vstd::string::StringExecFns;

verus! {

/// The most names that are tried for a session.
pub const MAX_ATTEMPTS: u64 = 100_000;

// ---------------------------------------------------------------------------
// Names
// ---------------------------------------------------------------------------
/// The names to choose from.
pub struct NameLists {
    pub first_names: Vec<String>,
    pub family_names: Vec<String>,
}

pub struct NameListsView {
    pub first_names: Seq<Seq<char>>,
    pub family_names: Seq<Seq<char>>,
}

impl View for NameLists {
    type V = NameListsView;

    open spec fn view(&self) -> NameListsView {
        NameListsView {
            first_names: views(self.first_names@),
            family_names: views(self.family_names@),
        }
    }
}

/// Whether some texts can be parts of a name.
pub open spec fn all_components(texts: Seq<Seq<char>>) -> bool {
    forall|i: int| 0 <= i < texts.len() ==> is_component(#[trigger] texts[i])
}

/// Whether the names to choose from can be parts of a name.
pub open spec fn proper_names(names: NameListsView) -> bool {
    all_components(names.first_names) && all_components(names.family_names)
}

/// Whether some texts can be parts of a name.
fn are_components(texts: &Vec<String>) -> (yes: bool)
    ensures
        yes == all_components(views(texts@)),
{
    let mut i: usize = 0;
    while i < texts.len()
        invariant
            i <= texts@.len(),
            forall|j: int| 0 <= j < i ==> is_component(#[trigger] views(texts@)[j]),
        decreases texts@.len() - i,
    {
        assert(views(texts@)[i as int] == texts@[i as int]@);
        if !valid_component(texts[i].as_str()) {
            return false;
        }
        i = i + 1;
    }
    true
}

impl NameLists {
    /// Whether the names can be parts of a name.
    pub fn are_proper(&self) -> (yes: bool)
        ensures
            yes == proper_names(self@),
    {
        are_components(&self.first_names) && are_components(&self.family_names)
    }
}

/// The parts of a name.
pub struct FullName {
    pub first_name: String,
    pub family_name: String,
    pub realm: String,
}

pub struct FullNameView {
    pub first_name: Seq<char>,
    pub family_name: Seq<char>,
    pub realm: Seq<char>,
}

impl View for FullName {
    type V = FullNameView;

    open spec fn view(&self) -> FullNameView {
        FullNameView {
            first_name: self.first_name@,
            family_name: self.family_name@,
            realm: self.realm@,
        }
    }
}

impl FullNameView {
    /// The slug of the name.
    pub open spec fn slug(self) -> Seq<char> {
        slug_of(self.first_name, self.family_name, self.realm)
    }
}

/// What a name is sought with: the family name that was asked for, the realm, and the
/// names to choose from, of which there are some.
pub struct Search {
    family: Option<String>,
    realm: String,
    names: NameLists,
}

pub struct SearchView {
    pub family: Option<Seq<char>>,
    pub realm: Seq<char>,
    pub names: NameListsView,
}

impl View for Search {
    type V = SearchView;

    closed spec fn view(&self) -> SearchView {
        SearchView { family: option_view(self.family), realm: self.realm@, names: self.names@ }
    }
}

impl Search {
    #[verifier::type_invariant]
    closed spec fn valid(self) -> bool {
        has_names(self.names@)
    }
}

/// Whether there are names to choose from.
pub open spec fn has_names(names: NameListsView) -> bool {
    names.first_names.len() > 0 && names.family_names.len() > 0
}

/// The name that an attempt gives a session. An attempt that chooses the same first
/// name and family name gives none.
pub open spec fn name_tried(
    session_id: Seq<char>,
    search: SearchView,
    attempt: nat,
) -> Option<FullNameView> {
    let (first, family) = names_tried(
        session_id,
        attempt,
        search.names.first_names,
        search.names.family_names,
        search.family,
    );
    if first == family {
        None
    } else {
        Some(
            FullNameView {
                first_name: titled(first),
                family_name: titled(family),
                realm: search.realm,
            },
        )
    }
}

/// The first attempt, from some attempt on, that gives a name, and the name.
pub open spec fn next_name(
    session_id: Seq<char>,
    search: SearchView,
    attempt: nat,
) -> Option<(nat, FullNameView)>
    decreases MAX_ATTEMPTS - attempt,
{
    if attempt >= MAX_ATTEMPTS {
        None
    } else {
        match name_tried(session_id, search, attempt) {
            Some(name) => Some((attempt, name)),
            None => next_name(session_id, search, attempt + 1),
        }
    }
}

/// What the claim of a name holds.
pub open spec fn claim_text(session_id: Seq<char>) -> Seq<char> {
    session_id + "\n"@
}

/// A new assignment.
pub open spec fn new_assignment(
    session_id: Seq<char>,
    name: FullNameView,
    now: Timestamp,
) -> AssignmentView {
    AssignmentView {
        version: 1,
        session_id,
        name: full_name(name.first_name, name.family_name, name.realm),
        slug: name.slug(),
        first_name: name.first_name,
        family_name: name.family_name,
        realm: name.realm,
        summary: None,
        state: ActivityState::nothing_known(now),
        cwd: None,
        extensions: Map::empty(),
        created_at: now,
        updated_at: now,
    }
}

/// An assignment that is updated.
pub open spec fn touched(assignment: AssignmentView, now: Timestamp) -> AssignmentView {
    AssignmentView { updated_at: now, ..assignment }
}

// ---------------------------------------------------------------------------
// The task
// ---------------------------------------------------------------------------
/// The registration of a session.
pub struct Registration {
    pub registry: Registry,
    pub session_id: String,
    pub stage: RegistrationStage,
}

/// What a registration waits for.
pub enum RegistrationStage {
    /// The record of the session, where there is one.
    Finding { family: Option<String>, realm: String, names: NameLists },
    /// The time, for the record that there is.
    Renewing { assignment: Assignment },
    /// The record, to be replaced.
    Replacing { assignment: Assignment },
    /// The directories.
    Preparing { search: Search },
    /// The claim of a name.
    Claiming { search: Search, attempt: u64, name: FullName },
    /// The time, for a new record.
    Naming { name: FullName },
    /// The new record, to be written.
    Creating { assignment: Assignment },
}

pub struct RegistrationView {
    pub registry: PlaceView,
    pub session_id: Seq<char>,
    pub stage: RegistrationStageView,
}

pub enum RegistrationStageView {
    Finding { family: Option<Seq<char>>, realm: Seq<char>, names: NameListsView },
    Renewing { assignment: AssignmentView },
    Replacing { assignment: AssignmentView },
    Preparing { search: SearchView },
    Claiming { search: SearchView, attempt: nat, name: FullNameView },
    Naming { name: FullNameView },
    Creating { assignment: AssignmentView },
}

impl View for RegistrationStage {
    type V = RegistrationStageView;

    open spec fn view(&self) -> RegistrationStageView {
        match *self {
            RegistrationStage::Finding { family, realm, names } => RegistrationStageView::Finding {
                family: option_view(family),
                realm: realm@,
                names: names@,
            },
            RegistrationStage::Renewing { assignment } => RegistrationStageView::Renewing {
                assignment: assignment@,
            },
            RegistrationStage::Replacing { assignment } => RegistrationStageView::Replacing {
                assignment: assignment@,
            },
            RegistrationStage::Preparing { search } => RegistrationStageView::Preparing {
                search: search@,
            },
            RegistrationStage::Claiming { search, attempt, name } => {
                RegistrationStageView::Claiming {
                    search: search@,
                    attempt: attempt as nat,
                    name: name@,
                }
            },
            RegistrationStage::Naming { name } => RegistrationStageView::Naming { name: name@ },
            RegistrationStage::Creating { assignment } => RegistrationStageView::Creating {
                assignment: assignment@,
            },
        }
    }
}

impl View for Registration {
    type V = RegistrationView;

    open spec fn view(&self) -> RegistrationView {
        RegistrationView {
            registry: self.registry@,
            session_id: self.session_id@,
            stage: self.stage@,
        }
    }
}

pub type RegistrationStep = Step<Registration, Assignment>;

pub type RegistrationStepView = StepView<RegistrationView, AssignmentView>;

/// A registration starts by looking for a record of the session.
pub open spec fn registration_begun(
    registry: PlaceView,
    session: Seq<char>,
    family: Option<Seq<char>>,
    realm: Seq<char>,
    names: NameListsView,
) -> RegistrationStepView {
    match session_id(session) {
        Err(error) => StepView::failure(error),
        Ok(id) => StepView::Ask {
            request: RequestView::FindSession {
                session_id: id,
                place: session_place(registry, id),
            },
            then: RegistrationView {
                registry,
                session_id: id,
                stage: RegistrationStageView::Finding { family, realm, names },
            },
        },
    }
}

/// A session without a record is given one, once its realm and family name are known
/// to be parts of a name.
pub open spec fn search_begun(
    registry: PlaceView,
    id: Seq<char>,
    family: Option<Seq<char>>,
    realm: Seq<char>,
    names: NameListsView,
) -> RegistrationStepView {
    if component(realm) is None {
        StepView::failure(ErrorView::InvalidComponent { kind: "realm"@ })
    } else if family is Some && component(family->0) is None {
        StepView::failure(ErrorView::InvalidComponent { kind: "family name"@ })
    } else if !has_names(names) {
        StepView::failure(ErrorView::NoNames)
    } else {
        let search = SearchView {
            family: match family {
                Some(family) => component(family),
                None => None,
            },
            realm: component(realm)->0,
            names,
        };
        StepView::Ask {
            request: RequestView::PrepareDirectories {
                sessions: sessions_place(registry),
                names: names_place(registry),
            },
            then: RegistrationView {
                registry,
                session_id: id,
                stage: RegistrationStageView::Preparing { search },
            },
        }
    }
}

/// From some attempt on, the first name is claimed.
pub open spec fn search_continued(
    registry: PlaceView,
    id: Seq<char>,
    search: SearchView,
    attempt: nat,
) -> RegistrationStepView {
    match next_name(id, search, attempt) {
        None => StepView::failure(ErrorView::NamesExhausted { realm: search.realm }),
        Some((attempt, name)) => StepView::Ask {
            request: RequestView::ClaimName {
                slug: name.slug(),
                place: claim_place(registry, name.slug()),
                contents: claim_text(id),
            },
            then: RegistrationView {
                registry,
                session_id: id,
                stage: RegistrationStageView::Claiming { search, attempt, name },
            },
        },
    }
}

/// How a registration goes on with a reply.
pub open spec fn registration_resumed(
    task: RegistrationView,
    reply: ReplyView,
) -> RegistrationStepView {
    let registry = task.registry;
    let id = task.session_id;
    let ask = |request: RequestView, stage: RegistrationStageView|
        StepView::Ask {
            request,
            then: RegistrationView { registry, session_id: id, stage },
        };
    match (task.stage, reply) {
        (RegistrationStageView::Finding { .. }, ReplyView::Session { record }) => ask(
            RequestView::ReadClock,
            RegistrationStageView::Renewing { assignment: assignment_of(record) },
        ),
        (RegistrationStageView::Finding { family, realm, names }, ReplyView::Missing) => {
            search_begun(registry, id, family, realm, names)
        },
        (RegistrationStageView::Renewing { assignment }, ReplyView::Instant { now }) => ask(
            RequestView::ReplaceSession {
                session_id: id,
                place: session_place(registry, id),
                record: record_of(touched(assignment, now)),
            },
            RegistrationStageView::Replacing { assignment: touched(assignment, now) },
        ),
        (RegistrationStageView::Replacing { assignment }, ReplyView::Performed) => StepView::Over {
            result: Ok(assignment),
        },
        (RegistrationStageView::Preparing { search }, ReplyView::Performed) => search_continued(
            registry,
            id,
            search,
            0,
        ),
        (RegistrationStageView::Claiming { name, .. }, ReplyView::Performed) => ask(
            RequestView::ReadClock,
            RegistrationStageView::Naming { name },
        ),
        (
            RegistrationStageView::Claiming { search, attempt, name },
            ReplyView::Exists { text },
        ) => if trimmed(text) == id {
            ask(RequestView::ReadClock, RegistrationStageView::Naming { name })
        } else {
            search_continued(registry, id, search, attempt + 1)
        },
        (RegistrationStageView::Naming { name }, ReplyView::Instant { now }) => ask(
            RequestView::CreateSession {
                session_id: id,
                place: session_place(registry, id),
                record: record_of(new_assignment(id, name, now)),
            },
            RegistrationStageView::Creating { assignment: new_assignment(id, name, now) },
        ),
        (RegistrationStageView::Creating { assignment }, ReplyView::Performed) => StepView::Over {
            result: Ok(assignment),
        },
        (RegistrationStageView::Creating { .. }, ReplyView::Exists { .. }) => StepView::failure(
            ErrorView::AlreadyRegistered { session_id: id },
        ),
        _ => StepView::failure(ErrorView::OutOfTurn),
    }
}

/// Starts the registration of a session.
pub fn begin_registration(
    registry: Registry,
    session: &str,
    family: Option<String>,
    realm: String,
    names: NameLists,
) -> (step: RegistrationStep)
    ensures
        step@ == registration_begun(registry@, session@, option_view(family), realm@, names@),
{
    match validate_session_id(session) {
        Err(error) => Step::Over { result: Err(error) },
        Ok(id) => Step::Ask {
            request: Request::FindSession {
                session_id: id.clone(),
                place: registry.session_path(id.as_str()),
            },
            then: Registration {
                registry,
                session_id: id,
                stage: RegistrationStage::Finding { family, realm, names },
            },
        },
    }
}

/// The first attempt, from some attempt on, that gives a name, and the name.
fn seek_name(id: &str, search: &Search, from: u64) -> (found: Option<(u64, FullName)>)
    ensures
        match found {
            Some((attempt, name)) => next_name(id@, search@, from as nat) == Some(
                (attempt as nat, name@),
            ),
            None => next_name(id@, search@, from as nat) is None,
        },
{
    proof {
        use_type_invariant(search);
    }
    let requested = match &search.family {
        Some(family) => Some(family.as_str()),
        None => None,
    };
    let mut attempt: u64 = from;
    while attempt < MAX_ATTEMPTS
        invariant
            has_names(search.names@),
            search@.family == slice_view(requested),
            next_name(id@, search@, from as nat) == next_name(id@, search@, attempt as nat),
        decreases MAX_ATTEMPTS - attempt,
    {
        let (first, family) = candidate(
            id,
            attempt,
            &search.names.first_names,
            &search.names.family_names,
            requested,
        );
        if !same_text(first.as_str(), family.as_str()) {
            return Some(
                (
                    attempt,
                    FullName {
                        first_name: title_word(first.as_str()),
                        family_name: title_word(family.as_str()),
                        realm: search.realm.clone(),
                    },
                ),
            );
        }
        attempt = attempt + 1;
    }
    None
}

/// Claims the first name from some attempt on.
fn continue_search(registry: Registry, id: String, search: Search, from: u64) -> (step:
    RegistrationStep)
    ensures
        step@ == search_continued(registry@, id@, search@, from as nat),
{
    match seek_name(id.as_str(), &search, from) {
        None => Step::Over { result: Err(Error::NamesExhausted { realm: search.realm }) },
        Some((attempt, name)) => {
            let slug = slug(
                name.first_name.as_str(),
                name.family_name.as_str(),
                name.realm.as_str(),
            );
            let place = registry.claim_path(slug.as_str());
            let mut contents = id.clone();
            contents.append("\n");
            Step::Ask {
                request: Request::ClaimName { slug, place, contents },
                then: Registration {
                    registry,
                    session_id: id,
                    stage: RegistrationStage::Claiming { search, attempt, name },
                },
            }
        },
    }
}

/// Starts the search for a name.
fn begin_search(
    registry: Registry,
    id: String,
    family: Option<String>,
    realm: String,
    names: NameLists,
) -> (step: RegistrationStep)
    ensures
        step@ == search_begun(registry@, id@, option_view(family), realm@, names@),
{
    let realm = match normalize_component(realm.as_str(), "realm") {
        Ok(realm) => realm,
        Err(error) => return Step::Over { result: Err(error) },
    };
    let family = match family {
        Some(family) => match normalize_component(family.as_str(), "family name") {
            Ok(family) => Some(family),
            Err(error) => return Step::Over { result: Err(error) },
        },
        None => None,
    };
    if names.first_names.len() == 0 || names.family_names.len() == 0 {
        return Step::Over { result: Err(Error::NoNames) };
    }
    Step::Ask {
        request: Request::PrepareDirectories {
            sessions: registry.sessions_path(),
            names: registry.names_path(),
        },
        then: Registration {
            registry,
            session_id: id,
            stage: RegistrationStage::Preparing { search: Search { family, realm, names } },
        },
    }
}

/// A new assignment.
fn assign(session_id: &str, name: FullName, now: Timestamp) -> (assignment: Assignment)
    ensures
        assignment@ == new_assignment(session_id@, name@, now),
{
    let extensions: TextMap<ExtensionMetadata> = TextMap::new();
    assert(extension_views(extensions@) =~= Map::<Seq<char>, ExtensionView>::empty());
    Assignment {
        version: 1,
        session_id: session_id.to_owned(),
        name: name_text(
            name.first_name.as_str(),
            name.family_name.as_str(),
            name.realm.as_str(),
        ),
        slug: slug(name.first_name.as_str(), name.family_name.as_str(), name.realm.as_str()),
        first_name: name.first_name,
        family_name: name.family_name,
        realm: name.realm,
        summary: None,
        state: ActivityState::unknown(now),
        cwd: None,
        extensions,
        created_at: now,
        updated_at: now,
    }
}

impl Registration {
    /// Goes on with a reply.
    pub fn resume(self, reply: Reply) -> (step: RegistrationStep)
        ensures
            step@ == registration_resumed(self@, reply@),
    {
        let Registration { registry, session_id: id, stage } = self;
        match (stage, reply) {
            (RegistrationStage::Finding { .. }, Reply::Session { record }) => Step::Ask {
                request: Request::ReadClock,
                then: Registration {
                    registry,
                    session_id: id,
                    stage: RegistrationStage::Renewing { assignment: record.into_assignment() },
                },
            },
            (RegistrationStage::Finding { family, realm, names }, Reply::Missing) => {
                begin_search(registry, id, family, realm, names)
            },
            (RegistrationStage::Renewing { assignment }, Reply::Instant { now }) => {
                let mut assignment = assignment;
                assignment.updated_at = now;
                Step::Ask {
                    request: Request::ReplaceSession {
                        session_id: id.clone(),
                        place: registry.session_path(id.as_str()),
                        record: persisted_assignment(&assignment),
                    },
                    then: Registration {
                        registry,
                        session_id: id,
                        stage: RegistrationStage::Replacing { assignment },
                    },
                }
            },
            (RegistrationStage::Replacing { assignment }, Reply::Performed) => Step::Over {
                result: Ok(assignment),
            },
            (RegistrationStage::Preparing { search }, Reply::Performed) => continue_search(
                registry,
                id,
                search,
                0,
            ),
            (RegistrationStage::Claiming { name, .. }, Reply::Performed) => Step::Ask {
                request: Request::ReadClock,
                then: Registration {
                    registry,
                    session_id: id,
                    stage: RegistrationStage::Naming { name },
                },
            },
            (RegistrationStage::Claiming { search, attempt, name }, Reply::Exists { text }) => {
                if same_text(trim(text.as_str()).as_str(), id.as_str()) {
                    return Step::Ask {
                        request: Request::ReadClock,
                        then: Registration {
                            registry,
                            session_id: id,
                            stage: RegistrationStage::Naming { name },
                        },
                    };
                }
                if attempt >= MAX_ATTEMPTS {
                    return continue_search(registry, id, search, MAX_ATTEMPTS);
                }
                continue_search(registry, id, search, attempt + 1)
            },
            (RegistrationStage::Naming { name }, Reply::Instant { now }) => {
                let assignment = assign(id.as_str(), name, now);
                Step::Ask {
                    request: Request::CreateSession {
                        session_id: id.clone(),
                        place: registry.session_path(id.as_str()),
                        record: persisted_assignment(&assignment),
                    },
                    then: Registration {
                        registry,
                        session_id: id,
                        stage: RegistrationStage::Creating { assignment },
                    },
                }
            },
            (RegistrationStage::Creating { assignment }, Reply::Performed) => Step::Over {
                result: Ok(assignment),
            },
            (RegistrationStage::Creating { .. }, Reply::Exists { .. }) => Step::Over {
                result: Err(Error::AlreadyRegistered { session_id: id }),
            },
            _ => Step::Over { result: Err(Error::OutOfTurn) },
        }
    }
}

} // verus!
