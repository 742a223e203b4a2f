//! A model of the host: one registry whose files are read and written without faults,
//! and by nobody else meanwhile. What the tasks come to is stated and proved over it.

use crate::annotation::{
    annotated, annotation_begun, annotation_resumed, update_error, update_settled, AnnotationView,
    UpdateView,
};
use crate::assignment::{assignment_of, record_of, AssignmentView, RecordView};
use crate::discovery::{
    assignments_of, discovered, discovery_begun, discovery_resumed, DiscoveryView,
};
use crate::error::ErrorView;
use crate::herdr::SnapshotView;
use crate::host::{EnvironmentView, PlaceView, ReplyView, RequestView, StepView};
use crate::identity::{
    component, lemma_component_idempotent, lemma_part_is_word, slugs_for, text_digest,
};
use crate::lookup::{
    claim_followed, lookup_begun, lookup_resumed, names_searched, own_assignment, within_claim,
    LookupView,
};
use crate::realm::{
    chance_text, realm_begun, realm_chosen, realm_given, realm_place, realm_resumed, realm_written,
    ChanceView, RealmResolutionView,
};
use crate::registration::{
    claim_text, has_names, name_tried, new_assignment, next_name, registration_begun,
    registration_resumed, search_begun, search_continued, touched, FullNameView, NameListsView,
    RegistrationView, SearchView, MAX_ATTEMPTS,
};
use crate::text::{lemma_one_word, lemma_trim_is_trimmed, lemma_trimmed_after, trimmed};
use crate::timestamp::Timestamp;
use crate::validation::{nonempty, said, session_id};
use vstd::prelude::*;

verus! {

// ---------------------------------------------------------------------------
// The host
// ---------------------------------------------------------------------------
/// What the host keeps and knows.
pub struct World {
    /// The records of the sessions.
    pub sessions: Map<Seq<char>, RecordView>,
    /// What the claims of the slugs hold.
    pub claims: Map<Seq<char>, Seq<char>>,
    /// The order in which the sessions are listed.
    pub listing: Seq<Seq<char>>,
    /// What the file of the realm holds.
    pub realm: Option<Seq<char>>,
    /// What Herdr tells.
    pub snapshot: Option<SnapshotView>,
    /// What time it is.
    pub now: Timestamp,
}

/// A world with the record of a session.
pub open spec fn with_session(world: World, id: Seq<char>, record: RecordView) -> World {
    World {
        sessions: world.sessions.insert(id, record),
        listing: if world.sessions.contains_key(id) {
            world.listing
        } else {
            world.listing.push(id)
        },
        ..world
    }
}

/// Whether a session is another one.
pub open spec fn other_than(id: Seq<char>) -> spec_fn(Seq<char>) -> bool {
    |other: Seq<char>| other != id
}

/// A world without the record of a session.
pub open spec fn without_session(world: World, id: Seq<char>) -> World {
    World {
        sessions: world.sessions.remove(id),
        listing: world.listing.filter(other_than(id)),
        ..world
    }
}

/// Something as it is told, where it is there.
pub open spec fn contents_of(text: Option<Seq<char>>) -> ReplyView {
    match text {
        Some(text) => ReplyView::Contents { path: Seq::empty(), text },
        None => ReplyView::Missing,
    }
}

/// What the claim of a slug holds, where there is one.
pub open spec fn claim_in(world: World, slug: Seq<char>) -> Option<Seq<char>> {
    if world.claims.contains_key(slug) {
        Some(world.claims[slug])
    } else {
        None
    }
}

/// What the host does when it is asked for something, and what it replies.
pub open spec fn performed(world: World, request: RequestView) -> (World, ReplyView) {
    let failed = ReplyView::Failed { path: Seq::empty(), error: Seq::empty() };
    match request {
        RequestView::FindSession { session_id, .. } => (
            world,
            if world.sessions.contains_key(session_id) {
                ReplyView::Session { record: world.sessions[session_id] }
            } else {
                ReplyView::Missing
            },
        ),
        RequestView::ListSessions { .. } => (
            world,
            ReplyView::Sessions {
                records: world.listing.map_values(|id: Seq<char>| world.sessions[id]),
            },
        ),
        RequestView::ReplaceSession { session_id, record, .. } => (
            with_session(world, session_id, record),
            ReplyView::Performed,
        ),
        RequestView::CreateSession { session_id, record, .. } => if world.sessions.contains_key(
            session_id,
        ) {
            (world, ReplyView::Exists { text: Seq::empty() })
        } else {
            (with_session(world, session_id, record), ReplyView::Performed)
        },
        RequestView::RemoveSession { session_id, .. } => if world.sessions.contains_key(
            session_id,
        ) {
            (without_session(world, session_id), ReplyView::Performed)
        } else {
            (world, failed)
        },
        RequestView::PrepareDirectories { .. } => (world, ReplyView::Performed),
        RequestView::ClaimName { slug, contents, .. } => match claim_in(world, slug) {
            Some(text) => (world, ReplyView::Exists { text }),
            None => (
                World { claims: world.claims.insert(slug, contents), ..world },
                ReplyView::Performed,
            ),
        },
        RequestView::FindClaim { slug, .. } => (world, contents_of(claim_in(world, slug))),
        RequestView::ReadClaim { slug, .. } => (world, contents_of(claim_in(world, slug))),
        RequestView::RemoveClaim { slug, .. } => if world.claims.contains_key(slug) {
            (World { claims: world.claims.remove(slug), ..world }, ReplyView::Performed)
        } else {
            (world, failed)
        },
        RequestView::FindRealm { .. } => (world, contents_of(world.realm)),
        RequestView::CreateRealm { contents, .. } => match world.realm {
            Some(text) => (world, ReplyView::Exists { text }),
            None => (World { realm: Some(contents), ..world }, ReplyView::Performed),
        },
        RequestView::ReadClock => (world, ReplyView::Instant { now: world.now }),
        RequestView::LoadSnapshot => (
            world,
            match world.snapshot {
                Some(snapshot) => ReplyView::Runtime { snapshot },
                None => ReplyView::Missing,
            },
        ),
    }
}

// ---------------------------------------------------------------------------
// Running a task
// ---------------------------------------------------------------------------
/// Where a task and the world are after a number of requests, and the result of the
/// task, if it is over.
pub open spec fn run<K, T>(
    step: StepView<K, T>,
    resume: spec_fn(K, ReplyView) -> StepView<K, T>,
    world: World,
    requests: nat,
) -> (World, Option<Result<T, ErrorView>>)
    decreases requests,
{
    match step {
        StepView::Over { result } => (world, Some(result)),
        StepView::Ask { request, then } => if requests == 0 {
            (world, None)
        } else {
            let (next, reply) = performed(world, request);
            run(resume(then, reply), resume, next, (requests - 1) as nat)
        },
    }
}

/// Whether a task, from some step on, ends with a world and a result.
pub open spec fn comes_to<K, T>(
    step: StepView<K, T>,
    resume: spec_fn(K, ReplyView) -> StepView<K, T>,
    world: World,
    outcome: (World, Result<T, ErrorView>),
) -> bool {
    exists|requests: nat| #[trigger]
        run(step, resume, world, requests) == (outcome.0, Some(outcome.1))
}

/// A task that is over has come to its end.
pub proof fn lemma_over<K, T>(
    step: StepView<K, T>,
    resume: spec_fn(K, ReplyView) -> StepView<K, T>,
    world: World,
)
    requires
        step is Over,
    ensures
        comes_to(step, resume, world, (world, step->Over_result)),
{
    assert(run(step, resume, world, 0) == (world, Some(step->Over_result)));
}

/// A task that asks for something comes to what it comes to with the reply.
pub proof fn lemma_ask<K, T>(
    step: StepView<K, T>,
    resume: spec_fn(K, ReplyView) -> StepView<K, T>,
    world: World,
    outcome: (World, Result<T, ErrorView>),
)
    requires
        step is Ask,
        comes_to(
            resume(step->then, performed(world, step->request).1),
            resume,
            performed(world, step->request).0,
            outcome,
        ),
    ensures
        comes_to(step, resume, world, outcome),
{
    let next = resume(step->then, performed(world, step->request).1);
    let there = performed(world, step->request).0;
    let requests = choose|requests: nat| #[trigger]
        run(next, resume, there, requests) == (outcome.0, Some(outcome.1));
    assert(run(step, resume, world, requests + 1) == run(next, resume, there, requests));
}

/// A task comes to one end.
pub proof fn lemma_one_outcome<K, T>(
    step: StepView<K, T>,
    resume: spec_fn(K, ReplyView) -> StepView<K, T>,
    world: World,
    left: (World, Result<T, ErrorView>),
    right: (World, Result<T, ErrorView>),
)
    requires
        comes_to(step, resume, world, left),
        comes_to(step, resume, world, right),
    ensures
        left == right,
{
    let m = choose|requests: nat| #[trigger]
        run(step, resume, world, requests) == (left.0, Some(left.1));
    let n = choose|requests: nat| #[trigger]
        run(step, resume, world, requests) == (right.0, Some(right.1));
    if m <= n {
        lemma_more_requests(step, resume, world, m, n);
    } else {
        lemma_more_requests(step, resume, world, n, m);
    }
}

/// More requests change nothing once a task is over.
proof fn lemma_more_requests<K, T>(
    step: StepView<K, T>,
    resume: spec_fn(K, ReplyView) -> StepView<K, T>,
    world: World,
    m: nat,
    n: nat,
)
    requires
        m <= n,
        run(step, resume, world, m).1 is Some,
    ensures
        run(step, resume, world, n) == run(step, resume, world, m),
    decreases m,
{
    if step is Ask {
        let (next, reply) = performed(world, step->request);
        lemma_more_requests(
            resume(step->then, reply),
            resume,
            next,
            (m - 1) as nat,
            (n - 1) as nat,
        );
    }
}

// ---------------------------------------------------------------------------
// Registration
// ---------------------------------------------------------------------------
/// How a registration goes on.
pub open spec fn registration_resume() -> spec_fn(RegistrationView, ReplyView) -> StepView<
    RegistrationView,
    AssignmentView,
> {
    |task: RegistrationView, reply: ReplyView| registration_resumed(task, reply)
}

/// Whether nobody but a session has claimed a slug.
pub open spec fn free_for(world: World, id: Seq<char>, slug: Seq<char>) -> bool {
    world.claims.contains_key(slug) ==> trimmed(world.claims[slug]) == id
}

/// The name of the first attempt, from some attempt on, that nobody else has.
pub open spec fn free_name(
    world: World,
    id: Seq<char>,
    search: SearchView,
    attempt: nat,
) -> Option<FullNameView>
    decreases MAX_ATTEMPTS - attempt,
{
    if attempt >= MAX_ATTEMPTS {
        None
    } else {
        match name_tried(id, search, attempt) {
            Some(name) => if free_for(world, id, name.slug()) {
                Some(name)
            } else {
                free_name(world, id, search, attempt + 1)
            },
            None => free_name(world, id, search, attempt + 1),
        }
    }
}

/// A world in which a session claims a name and has a record of it.
pub open spec fn assigned(world: World, id: Seq<char>, name: FullNameView) -> World {
    let slug = name.slug();
    with_session(
        World {
            claims: if world.claims.contains_key(slug) {
                world.claims
            } else {
                world.claims.insert(slug, claim_text(id))
            },
            ..world
        },
        id,
        record_of(new_assignment(id, name, world.now)),
    )
}

/// What the search for a name comes to, from some attempt on.
pub open spec fn search_outcome(world: World, id: Seq<char>, search: SearchView, attempt: nat) -> (
    World,
    Result<AssignmentView, ErrorView>,
) {
    match free_name(world, id, search, attempt) {
        None => (world, Err(ErrorView::NamesExhausted { realm: search.realm })),
        Some(name) => (assigned(world, id, name), Ok(new_assignment(id, name, world.now))),
    }
}

/// What the registration of a session comes to: the session keeps its identity, or is
/// given the first name that nobody else has.
pub open spec fn registered(
    world: World,
    session: Seq<char>,
    family: Option<Seq<char>>,
    realm: Seq<char>,
    names: NameListsView,
) -> (World, Result<AssignmentView, ErrorView>) {
    match session_id(session) {
        Err(error) => (world, Err(error)),
        Ok(id) => if world.sessions.contains_key(id) {
            let assignment = touched(assignment_of(world.sessions[id]), world.now);
            (with_session(world, id, record_of(assignment)), Ok(assignment))
        } else if component(realm) is None {
            (world, Err(ErrorView::InvalidComponent { kind: "realm"@ }))
        } else if family is Some && component(family->0) is None {
            (world, Err(ErrorView::InvalidComponent { kind: "family name"@ }))
        } else if !has_names(names) {
            (world, Err(ErrorView::NoNames))
        } else {
            search_outcome(
                world,
                id,
                SearchView {
                    family: match family {
                        Some(family) => component(family),
                        None => None,
                    },
                    realm: component(realm)->0,
                    names,
                },
                0,
            )
        },
    }
}

/// The attempts that give no name, or one that another has, do not matter.
proof fn lemma_free_name_skips(world: World, id: Seq<char>, search: SearchView, from: nat)
    ensures
        match next_name(id, search, from) {
            None => free_name(world, id, search, from) is None,
            Some((attempt, name)) => {
                &&& from <= attempt < MAX_ATTEMPTS
                &&& name_tried(id, search, attempt) == Some(name)
                &&& free_name(world, id, search, from) == free_name(world, id, search, attempt)
            },
        },
    decreases MAX_ATTEMPTS - from,
{
    if from < MAX_ATTEMPTS && name_tried(id, search, from) is None {
        lemma_free_name_skips(world, id, search, from + 1);
    }
}

/// The search for a name comes to the first one that nobody else has.
proof fn lemma_search(
    world: World,
    registry: PlaceView,
    id: Seq<char>,
    search: SearchView,
    from: nat,
)
    requires
        !world.sessions.contains_key(id),
    ensures
        comes_to(
            search_continued(registry, id, search, from),
            registration_resume(),
            world,
            search_outcome(world, id, search, from),
        ),
    decreases MAX_ATTEMPTS - from,
{
    let resume = registration_resume();
    let s0 = search_continued(registry, id, search, from);
    let outcome = search_outcome(world, id, search, from);
    lemma_free_name_skips(world, id, search, from);
    match next_name(id, search, from) {
        None => {
            lemma_over(s0, resume, world);
        },
        Some((attempt, name)) => {
            let (w1, r1) = performed(world, s0->request);
            let s1 = resume(s0->then, r1);
            if free_for(world, id, name.slug()) {
                let (w2, r2) = performed(w1, s1->request);
                let s2 = resume(s1->then, r2);
                let (w3, r3) = performed(w2, s2->request);
                let s3 = resume(s2->then, r3);
                assert(w3 == assigned(world, id, name));
                lemma_over(s3, resume, w3);
                lemma_ask(s2, resume, w2, outcome);
                lemma_ask(s1, resume, w1, outcome);
            } else {
                lemma_search(world, registry, id, search, attempt + 1);
            }
            lemma_ask(s0, resume, world, outcome);
        },
    }
}

/// A registration comes to what `registered` says.
pub proof fn lemma_registration(
    world: World,
    registry: PlaceView,
    session: Seq<char>,
    family: Option<Seq<char>>,
    realm: Seq<char>,
    names: NameListsView,
)
    ensures
        comes_to(
            registration_begun(registry, session, family, realm, names),
            registration_resume(),
            world,
            registered(world, session, family, realm, names),
        ),
{
    let resume = registration_resume();
    let s0 = registration_begun(registry, session, family, realm, names);
    let outcome = registered(world, session, family, realm, names);
    if s0 is Over {
        lemma_over(s0, resume, world);
    } else {
        let id = session_id(session)->Ok_0;
        let (w1, r1) = performed(world, s0->request);
        let s1 = resume(s0->then, r1);
        if world.sessions.contains_key(id) {
            let (w2, r2) = performed(w1, s1->request);
            let s2 = resume(s1->then, r2);
            let (w3, r3) = performed(w2, s2->request);
            let s3 = resume(s2->then, r3);
            lemma_over(s3, resume, w3);
            lemma_ask(s2, resume, w2, outcome);
            lemma_ask(s1, resume, w1, outcome);
        } else {
            assert(s1 == search_begun(registry, id, family, realm, names));
            if s1 is Over {
                lemma_over(s1, resume, w1);
            } else {
                let search = s1->then.stage->Preparing_search;
                lemma_search(world, registry, id, search, 0);
                lemma_ask(s1, resume, w1, outcome);
            }
        }
        lemma_ask(s0, resume, world, outcome);
    }
}

// ---------------------------------------------------------------------------
// Lookup
// ---------------------------------------------------------------------------
/// How a lookup goes on.
pub open spec fn lookup_resume() -> spec_fn(LookupView, ReplyView) -> StepView<
    LookupView,
    AssignmentView,
> {
    |task: LookupView, reply: ReplyView| lookup_resumed(task, reply)
}

/// What the claim of a slug leads to.
pub open spec fn claim_resolved(world: World, slug: Seq<char>, text: Seq<char>) -> Result<
    AssignmentView,
    ErrorView,
> {
    match nonempty(text, "claimed session ID"@) {
        Err(error) => Err(error),
        Ok(claimed) => within_claim(
            slug,
            match session_id(claimed) {
                Err(error) => Err(error),
                Ok(id) => if world.sessions.contains_key(id) {
                    own_assignment(id, world.sessions[id])
                } else {
                    Err(ErrorView::NotRegistered { session_id: id })
                },
            },
        ),
    }
}

/// What a lookup by name comes to: the first of some slugs that is claimed decides.
pub open spec fn found_by_name(
    world: World,
    input: Seq<char>,
    slugs: Seq<Seq<char>>,
    at: nat,
) -> Result<AssignmentView, ErrorView>
    decreases slugs.len() - at,
{
    if at < slugs.len() {
        match claim_in(world, slugs[at as int]) {
            Some(text) => claim_resolved(world, slugs[at as int], text),
            None => found_by_name(world, input, slugs, at + 1),
        }
    } else {
        Err(ErrorView::NoIdentity { input })
    }
}

/// What a lookup comes to: a session of that ID, or else a name.
pub open spec fn looked_up(world: World, input: Seq<char>) -> Result<AssignmentView, ErrorView> {
    match nonempty(input, "lookup identifier"@) {
        Err(error) => Err(error),
        Ok(text) => match session_id(text) {
            Ok(id) => if world.sessions.contains_key(id) {
                own_assignment(id, world.sessions[id])
            } else {
                found_by_name(world, text, slugs_for(text), 0)
            },
            Err(_) => found_by_name(world, text, slugs_for(text), 0),
        },
    }
}

/// A lookup by name comes to what `found_by_name` says.
proof fn lemma_lookup_by_name(
    world: World,
    registry: PlaceView,
    input: Seq<char>,
    slugs: Seq<Seq<char>>,
    at: nat,
)
    ensures
        comes_to(
            names_searched(registry, input, slugs, at),
            lookup_resume(),
            world,
            (world, found_by_name(world, input, slugs, at)),
        ),
    decreases slugs.len() - at,
{
    let resume = lookup_resume();
    let s0 = names_searched(registry, input, slugs, at);
    let outcome = (world, found_by_name(world, input, slugs, at));
    if at < slugs.len() {
        let slug = slugs[at as int];
        let (w1, r1) = performed(world, s0->request);
        let s1 = resume(s0->then, r1);
        match claim_in(world, slug) {
            None => {
                lemma_lookup_by_name(world, registry, input, slugs, at + 1);
            },
            Some(text) => {
                assert(s1 == claim_followed(registry, input, slug, text));
                if s1 is Over {
                    lemma_over(s1, resume, world);
                } else {
                    let (w2, r2) = performed(world, s1->request);
                    let s2 = resume(s1->then, r2);
                    lemma_over(s2, resume, world);
                    lemma_ask(s1, resume, world, outcome);
                }
            },
        }
        lemma_ask(s0, resume, world, outcome);
    } else {
        lemma_over(s0, resume, world);
    }
}

/// A lookup comes to what `looked_up` says, and changes nothing.
pub proof fn lemma_lookup(world: World, registry: PlaceView, input: Seq<char>)
    ensures
        comes_to(
            lookup_begun(registry, input),
            lookup_resume(),
            world,
            (world, looked_up(world, input)),
        ),
{
    let resume = lookup_resume();
    let s0 = lookup_begun(registry, input);
    let outcome = (world, looked_up(world, input));
    match nonempty(input, "lookup identifier"@) {
        Err(_) => {
            lemma_over(s0, resume, world);
        },
        Ok(text) => {
            lemma_lookup_by_name(world, registry, text, slugs_for(text), 0);
            if session_id(text) is Ok {
                let (w1, r1) = performed(world, s0->request);
                let s1 = resume(s0->then, r1);
                if world.sessions.contains_key(session_id(text)->Ok_0) {
                    lemma_over(s1, resume, world);
                }
                lemma_ask(s0, resume, world, outcome);
            }
        },
    }
}

// ---------------------------------------------------------------------------
// Annotation
// ---------------------------------------------------------------------------
/// How an annotation goes on.
pub open spec fn annotation_resume() -> spec_fn(AnnotationView, ReplyView) -> StepView<
    AnnotationView,
    AssignmentView,
> {
    |task: AnnotationView, reply: ReplyView| annotation_resumed(task, reply)
}

/// What an annotation comes to.
pub open spec fn noted_down(world: World, session: Seq<char>, update: UpdateView) -> (
    World,
    Result<AssignmentView, ErrorView>,
) {
    match (session_id(session), update_error(update)) {
        (Err(error), _) => (world, Err(error)),
        (Ok(_), Some(error)) => (world, Err(error)),
        (Ok(id), None) => if world.sessions.contains_key(id) {
            match (own_assignment(id, world.sessions[id]), update_settled(update)) {
                (Err(error), _) => (world, Err(error)),
                (Ok(_), Err(error)) => (world, Err(error)),
                (Ok(assignment), Ok(update)) => {
                    let after = annotated(assignment, update, world.now);
                    (with_session(world, id, record_of(after)), Ok(after))
                },
            }
        } else {
            (world, Err(ErrorView::NotRegistered { session_id: id }))
        },
    }
}

/// An annotation comes to what `noted_down` says.
pub proof fn lemma_annotation(
    world: World,
    registry: PlaceView,
    session: Seq<char>,
    update: UpdateView,
)
    ensures
        comes_to(
            annotation_begun(registry, session, update),
            annotation_resume(),
            world,
            noted_down(world, session, update),
        ),
{
    let resume = annotation_resume();
    let s0 = annotation_begun(registry, session, update);
    let outcome = noted_down(world, session, update);
    if s0 is Over {
        lemma_over(s0, resume, world);
    } else {
        let (w1, r1) = performed(world, s0->request);
        let s1 = resume(s0->then, r1);
        if s1 is Over {
            lemma_over(s1, resume, world);
        } else {
            let (w2, r2) = performed(w1, s1->request);
            let s2 = resume(s1->then, r2);
            let (w3, r3) = performed(w2, s2->request);
            let s3 = resume(s2->then, r3);
            lemma_over(s3, resume, w3);
            lemma_ask(s2, resume, w2, outcome);
            lemma_ask(s1, resume, w1, outcome);
        }
        lemma_ask(s0, resume, world, outcome);
    }
}

// ---------------------------------------------------------------------------
// Discovery
// ---------------------------------------------------------------------------
/// How a discovery goes on.
pub open spec fn discovery_resume() -> spec_fn(DiscoveryView, ReplyView) -> StepView<
    DiscoveryView,
    Seq<AssignmentView>,
> {
    |task: DiscoveryView, reply: ReplyView| discovery_resumed(task, reply)
}

/// The assignments of all sessions, in the order in which they are listed.
pub open spec fn all_assignments(world: World) -> Seq<AssignmentView> {
    assignments_of(world.listing.map_values(|id: Seq<char>| world.sessions[id]))
}

/// The instant before which a discovery that looks some hours back finds nothing.
pub open spec fn cutoff_of(world: World, recent_hours: Option<i64>) -> Option<Timestamp> {
    match recent_hours {
        Some(hours) => Some(world.now.earlier_by(hours as int)),
        None => None,
    }
}

/// What a discovery comes to.
pub open spec fn found_in(
    world: World,
    recent_hours: Option<i64>,
    realm: Option<Seq<char>>,
) -> Result<Seq<AssignmentView>, ErrorView> {
    let part = match realm {
        Some(realm) => component(realm),
        None => None,
    };
    if recent_hours is Some && recent_hours->0 < 0 {
        Err(ErrorView::NegativeRecent)
    } else if realm is Some && part is None {
        Err(ErrorView::InvalidComponent { kind: "realm"@ })
    } else {
        Ok(discovered(all_assignments(world), part, cutoff_of(world, recent_hours)))
    }
}

/// A discovery comes to what `found_in` says, and changes nothing. The hours that it looks
/// back reach no further than instants do.
pub proof fn lemma_discovery(
    world: World,
    registry: PlaceView,
    recent_hours: Option<i64>,
    realm: Option<Seq<char>>,
)
    requires
        recent_hours matches Some(hours) ==> hours < 0 || world.now.reaches_back(hours as int),
    ensures
        comes_to(
            discovery_begun(registry, recent_hours, realm),
            discovery_resume(),
            world,
            (world, found_in(world, recent_hours, realm)),
        ),
{
    let resume = discovery_resume();
    let s0 = discovery_begun(registry, recent_hours, realm);
    let outcome = (world, found_in(world, recent_hours, realm));
    if s0 is Over {
        lemma_over(s0, resume, world);
    } else {
        let s1 = resume(s0->then, performed(world, s0->request).1);
        if recent_hours is Some {
            let s2 = resume(s1->then, performed(world, s1->request).1);
            lemma_over(s2, resume, world);
            lemma_ask(s1, resume, world, outcome);
        } else {
            lemma_over(s1, resume, world);
        }
        lemma_ask(s0, resume, world, outcome);
    }
}

// ---------------------------------------------------------------------------
// Realm
// ---------------------------------------------------------------------------
/// How the resolution of the realm goes on.
pub open spec fn realm_resume() -> spec_fn(RealmResolutionView, ReplyView) -> StepView<
    RealmResolutionView,
    Seq<char>,
> {
    |task: RealmResolutionView, reply: ReplyView| realm_resumed(task, reply)
}

/// What the writing of a realm that some digest chooses comes to: the realm is kept in
/// the file, unless there is one already, whose realm then holds.
pub open spec fn realm_created(
    world: World,
    candidates: Seq<Seq<char>>,
    digest: Seq<u8>,
) -> (World, Result<Seq<char>, ErrorView>) {
    if candidates.len() == 0 {
        (world, Err(ErrorView::NoRealms))
    } else {
        match (realm_given(realm_chosen(digest, candidates)), world.realm) {
            (Err(error), _) => (world, Err(error)),
            (Ok(_), Some(text)) => (world, realm_given(text)),
            (Ok(realm), None) => (World { realm: Some(realm + "\n"@), ..world }, Ok(realm)),
        }
    }
}

/// The writing of a realm comes to what `realm_created` says.
pub proof fn lemma_realm_created(
    world: World,
    place: PlaceView,
    candidates: Seq<Seq<char>>,
    digest: Seq<u8>,
)
    ensures
        comes_to(
            realm_written(place, candidates, digest),
            realm_resume(),
            world,
            realm_created(world, candidates, digest),
        ),
{
    let resume = realm_resume();
    let s0 = realm_written(place, candidates, digest);
    if s0 is Over {
        lemma_over(s0, resume, world);
    } else {
        let (w1, r1) = performed(world, s0->request);
        let s1 = resume(s0->then, r1);
        lemma_over(s1, resume, w1);
        lemma_ask(s0, resume, world, realm_created(world, candidates, digest));
    }
}

/// A realm that was written once is the realm from then on: to write another one, if it
/// can be a realm at all, gives the realm of the file, and leaves the file as it is.
pub proof fn lemma_realm_is_created_once(
    world: World,
    candidates: Seq<Seq<char>>,
    digest: Seq<u8>,
    later_candidates: Seq<Seq<char>>,
    later_digest: Seq<u8>,
)
    requires
        realm_created(world, candidates, digest).1 is Ok,
        later_candidates.len() > 0,
        realm_given(realm_chosen(later_digest, later_candidates)) is Ok,
    ensures
        ({
            let (after, realm) = realm_created(world, candidates, digest);
            realm_created(after, later_candidates, later_digest) == (after, realm)
        }),
{
    if world.realm is None {
        lemma_realm_reads_back(realm_chosen(digest, candidates));
    }
}

/// What a resolution that reads the file of the realm comes to: the realm of the file,
/// or a realm that is chosen and then kept there.
pub open spec fn realm_kept(
    world: World,
    candidates: Seq<Seq<char>>,
    chance: ChanceView,
) -> (World, Result<Seq<char>, ErrorView>) {
    match world.realm {
        Some(text) => (world, realm_given(text)),
        None => realm_created(world, candidates, text_digest(chance_text(chance))),
    }
}

/// What the resolution of the realm comes to.
pub open spec fn realm_resolved(
    world: World,
    explicit: Option<Seq<char>>,
    environment: EnvironmentView,
    candidates: Seq<Seq<char>>,
    chance: ChanceView,
) -> (World, Result<Seq<char>, ErrorView>) {
    if said(explicit) {
        (world, realm_given(explicit->0))
    } else if said(environment.realm) {
        (world, realm_given(environment.realm->0))
    } else if realm_place(environment) is None {
        (world, Err(ErrorView::NoHome))
    } else {
        realm_kept(world, candidates, chance)
    }
}

/// The resolution of the realm comes to what `realm_resolved` says.
pub proof fn lemma_realm(
    world: World,
    explicit: Option<Seq<char>>,
    environment: EnvironmentView,
    candidates: Seq<Seq<char>>,
    chance: ChanceView,
)
    ensures
        comes_to(
            realm_begun(explicit, environment, candidates, chance),
            realm_resume(),
            world,
            realm_resolved(world, explicit, environment, candidates, chance),
        ),
{
    let resume = realm_resume();
    let s0 = realm_begun(explicit, environment, candidates, chance);
    let outcome = realm_resolved(world, explicit, environment, candidates, chance);
    if s0 is Over {
        lemma_over(s0, resume, world);
    } else {
        let s1 = resume(s0->then, performed(world, s0->request).1);
        if s1 is Over {
            lemma_over(s1, resume, world);
        } else {
            let (w2, r2) = performed(world, s1->request);
            let s2 = resume(s1->then, r2);
            lemma_over(s2, resume, w2);
            lemma_ask(s1, resume, world, outcome);
        }
        lemma_ask(s0, resume, world, outcome);
    }
}

/// A realm that was chosen once is the realm from then on, whatever chance says later.
pub proof fn lemma_realm_is_reused(
    world: World,
    candidates: Seq<Seq<char>>,
    chance: ChanceView,
    later_candidates: Seq<Seq<char>>,
    later_chance: ChanceView,
)
    requires
        realm_kept(world, candidates, chance).1 is Ok,
    ensures
        ({
            let (after, realm) = realm_kept(world, candidates, chance);
            realm_kept(after, later_candidates, later_chance) == (after, realm)
        }),
{
    let (after, realm) = realm_kept(world, candidates, chance);
    if world.realm is None {
        let chosen = realm_chosen(text_digest(chance_text(chance)), candidates);
        lemma_realm_reads_back(chosen);
    }
}

/// What is written of a realm is read back as that realm: a process that finds the file
/// written by another has the realm of the other.
pub proof fn lemma_realm_reads_back(chosen: Seq<char>)
    requires
        realm_given(chosen) is Ok,
    ensures
        realm_given(realm_given(chosen)->Ok_0 + "\n"@) == realm_given(chosen),
{
    let realm = realm_given(chosen)->Ok_0;
    lemma_component_idempotent(chosen);
    lemma_part_is_word(realm);
    lemma_one_word(realm);
    lemma_trim_is_trimmed(realm);
    reveal_strlit("\n");
    assert(realm + "\n"@ =~= realm.push('\n'));
    lemma_trimmed_after(realm, '\n');
}

} // verus!
