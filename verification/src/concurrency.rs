//! What holds when several processes have turns at one registry, in any order.

use crate::assignment::{record_of, AssignmentView, RecordView};
use crate::error::ErrorView;
use crate::guarantees::{
    canonical, consistent, lemma_names_are_unique, lemma_tried_parts, lemma_with_session_listed,
    listed, settled,
};
use crate::host::{EnvironmentView, PlaceView, ReplyView, RequestView, StepView};
use crate::identity::{component, is_part, lemma_component_idempotent, text_digest};
use crate::realm::{
    chance_text, realm_begun, realm_chosen, realm_given, realm_place, realm_resumed, realm_written,
    ChanceView, RealmStageView, RealmStepView,
};
use crate::registration::{
    claim_text, has_names, name_tried, next_name, proper_names, registration_begun,
    registration_resumed, FullNameView, NameListsView, RegistrationStageView, RegistrationStepView,
    SearchView, MAX_ATTEMPTS,
};
use crate::text::{lemma_one_word, lemma_trimmed_after, trimmed};
use crate::validation::{
    is_session_id, lemma_session_id_accepted, lemma_session_id_stays, said, session_id,
};
use crate::world::{lemma_realm_reads_back, performed, realm_resume, registration_resume, World};
use vstd::prelude::*;

verus! {

// ---------------------------------------------------------------------------
// Turns
// ---------------------------------------------------------------------------
/// Where some tasks and the world are after one of the tasks had its turn: the host
/// answered what it asked for.
pub open spec fn turn_taken<K, T>(
    tasks: Seq<StepView<K, T>>,
    resume: spec_fn(K, ReplyView) -> StepView<K, T>,
    world: World,
    who: int,
) -> (World, Seq<StepView<K, T>>) {
    match tasks[who] {
        StepView::Over { .. } => (world, tasks),
        StepView::Ask { request, then } => {
            let (next, reply) = performed(world, request);
            (next, tasks.update(who, resume(then, reply)))
        },
    }
}

/// Where some tasks and the world are after a number of turns, each of one of the tasks.
pub open spec fn interleaved<K, T>(
    tasks: Seq<StepView<K, T>>,
    resume: spec_fn(K, ReplyView) -> StepView<K, T>,
    world: World,
    turns: Seq<int>,
) -> (World, Seq<StepView<K, T>>)
    decreases turns.len(),
{
    if turns.len() == 0 {
        (world, tasks)
    } else {
        let (next, left) = turn_taken(tasks, resume, world, turns.first());
        interleaved(left, resume, next, turns.drop_first())
    }
}

/// How many of some turns a task has.
pub open spec fn turns_of(turns: Seq<int>, who: int) -> nat
    decreases turns.len(),
{
    if turns.len() == 0 {
        0
    } else {
        turns_of(turns.drop_first(), who) + if turns.first() == who {
            1nat
        } else {
            0
        }
    }
}

// ---------------------------------------------------------------------------
// One realm
// ---------------------------------------------------------------------------
/// Whether a task is about to look for the file of the realm, with a choice that can be a
/// realm where there is no file, or about to write one that is a realm to the file.
pub open spec fn seeks_realm(step: RealmStepView) -> bool {
    match step {
        StepView::Over { .. } => false,
        StepView::Ask { request, then } => match (request, then.stage) {
            (RequestView::FindRealm { .. }, RealmStageView::Finding { candidates, chance }) => {
                &&& candidates.len() > 0
                &&& realm_given(realm_chosen(text_digest(chance_text(chance)), candidates)) is Ok
            },
            (RequestView::CreateRealm { contents, .. }, RealmStageView::Creating { realm }) => {
                &&& contents == realm + "\n"@
                &&& realm_given(realm) == Ok::<_, ErrorView>(realm)
            },
            _ => false,
        },
    }
}

/// How many turns such a task needs at most.
pub open spec fn turns_needed(step: RealmStepView) -> nat {
    match step {
        StepView::Over { .. } => 0,
        StepView::Ask { then, .. } => match then.stage {
            RealmStageView::Finding { .. } => 2,
            RealmStageView::Creating { .. } => 1,
        },
    }
}

/// Whether a task is over, with the realm of the file.
pub open spec fn has_realm(world: World, step: RealmStepView) -> bool {
    &&& step matches StepView::Over { result }
    &&& world.realm matches Some(text)
    &&& result == realm_given(text)
}

/// The resolution of a realm that nobody says seeks the realm, and so does the writing of
/// one, where what is chosen can be a realm.
pub proof fn lemma_seekers(
    environment: EnvironmentView,
    place: PlaceView,
    candidates: Seq<Seq<char>>,
    chance: ChanceView,
)
    requires
        !said(environment.realm),
        realm_place(environment) is Some,
        candidates.len() > 0,
        realm_given(realm_chosen(text_digest(chance_text(chance)), candidates)) is Ok,
    ensures
        seeks_realm(realm_begun(None, environment, candidates, chance)),
        seeks_realm(realm_written(place, candidates, text_digest(chance_text(chance)))),
{
    lemma_component_idempotent(realm_chosen(text_digest(chance_text(chance)), candidates));
}

/// A task that seeks the realm still does after its turn, or is over with the realm of the
/// file; and it comes closer to its end.
proof fn lemma_seeker_turn(world: World, step: RealmStepView)
    requires
        seeks_realm(step),
    ensures
        ({
            let (next, reply) = performed(world, step->request);
            let left = realm_resumed(step->then, reply);
            &&& seeks_realm(left) || has_realm(next, left)
            &&& turns_needed(left) < turns_needed(step)
            &&& world.realm is Some ==> next.realm == world.realm
            &&& next.realm is Some && world.realm is None ==> realm_given(next.realm->0) is Ok
        }),
{
    match step->then.stage {
        RealmStageView::Finding { candidates, chance } => {
            lemma_component_idempotent(realm_chosen(text_digest(chance_text(chance)), candidates));
        },
        RealmStageView::Creating { realm } => {
            lemma_realm_reads_back(realm);
        },
    }
}

/// However the turns of several processes that seek the realm fall, those that are over
/// all have the realm of the file, which is the realm of the process that wrote it first:
/// a file that is there is never changed. A process that had two turns is over, and with a
/// realm, unless the file was there at first and held none.
pub proof fn lemma_one_realm(world: World, tasks: Seq<RealmStepView>, turns: Seq<int>)
    requires
        forall|i: int|
            0 <= i < tasks.len() ==> seeks_realm(#[trigger] tasks[i]) || has_realm(world, tasks[i]),
        forall|k: int| 0 <= k < turns.len() ==> 0 <= #[trigger] turns[k] < tasks.len(),
    ensures
        ({
            let (after, left) = interleaved(tasks, realm_resume(), world, turns);
            &&& left.len() == tasks.len()
            &&& world.realm is Some ==> after.realm == world.realm
            &&& after.realm is Some && world.realm is None ==> realm_given(after.realm->0) is Ok
            &&& forall|i: int|
                0 <= i < tasks.len() && (#[trigger] left[i]) is Over ==> has_realm(after, left[i])
            &&& forall|i: int|
                0 <= i < tasks.len() && turns_of(turns, i) >= 2 ==> (#[trigger] left[i]) is Over
        }),
{
    lemma_turns_suffice(world, tasks, turns);
}

/// The law, with the number of turns that each task needs.
proof fn lemma_turns_suffice(world: World, tasks: Seq<RealmStepView>, turns: Seq<int>)
    requires
        forall|i: int|
            0 <= i < tasks.len() ==> seeks_realm(#[trigger] tasks[i]) || has_realm(world, tasks[i]),
        forall|k: int| 0 <= k < turns.len() ==> 0 <= #[trigger] turns[k] < tasks.len(),
    ensures
        ({
            let (after, left) = interleaved(tasks, realm_resume(), world, turns);
            &&& left.len() == tasks.len()
            &&& world.realm is Some ==> after.realm == world.realm
            &&& after.realm is Some && world.realm is None ==> realm_given(after.realm->0) is Ok
            &&& forall|i: int|
                0 <= i < tasks.len() ==> seeks_realm(#[trigger] left[i]) || has_realm(
                    after,
                    left[i],
                )
            &&& forall|i: int|
                0 <= i < tasks.len() && turns_of(turns, i) >= turns_needed(tasks[i]) ==> (
                #[trigger] left[i]) is Over
        }),
    decreases turns.len(),
{
    let resume = realm_resume();
    if turns.len() == 0 {
        assert forall|i: int| 0 <= i < tasks.len() && turns_of(turns, i) >= turns_needed(
            tasks[i],
        ) implies (#[trigger] tasks[i]) is Over by {
            assert(turns_of(turns, i) == 0);
        }
    } else {
        let who = turns.first();
        let rest = turns.drop_first();
        let (next, left) = turn_taken(tasks, resume, world, who);
        assert(who == turns[0]);
        if tasks[who] is Ask {
            lemma_seeker_turn(world, tasks[who]);
        }
        assert forall|i: int| 0 <= i < left.len() implies seeks_realm(#[trigger] left[i])
            || has_realm(next, left[i]) by {
            assert(seeks_realm(tasks[i]) || has_realm(world, tasks[i]));
        }
        assert forall|k: int| 0 <= k < rest.len() implies 0 <= #[trigger] rest[k] < left.len() by {
            assert(rest[k] == turns[k + 1]);
        }
        lemma_turns_suffice(next, left, rest);
        let ends = interleaved(left, resume, next, rest).1;
        assert forall|i: int| 0 <= i < tasks.len() && turns_of(turns, i) >= turns_needed(
            tasks[i],
        ) implies (#[trigger] ends[i]) is Over by {
            assert(turns_of(rest, i) >= turns_needed(left[i]));
        }
    }
}

// ---------------------------------------------------------------------------
// Several registrations
// ---------------------------------------------------------------------------
/// What a registration is asked for.
pub struct Application {
    pub session: Seq<char>,
    pub family: Option<Seq<char>>,
    pub realm: Seq<char>,
    pub names: NameListsView,
}

/// Some registrations, each at its start.
pub open spec fn registrations_begun(
    registry: PlaceView,
    applications: Seq<Application>,
) -> Seq<RegistrationStepView> {
    applications.map_values(
        |application: Application|
            registration_begun(
                registry,
                application.session,
                application.family,
                application.realm,
                application.names,
            ),
    )
}

/// Whether two records are of one identity.
pub open spec fn same_identity(left: RecordView, right: RecordView) -> bool {
    &&& left.session_id == right.session_id
    &&& left.name == right.name
    &&& left.slug == right.slug
    &&& left.first_name == right.first_name
    &&& left.family_name == right.family_name
    &&& left.realm == right.realm
    &&& left.created_at == right.created_at
}

/// Whether a session has the identity of an assignment, with a name that it has claimed.
pub open spec fn has_identity(world: World, id: Seq<char>, assignment: AssignmentView) -> bool {
    &&& world.sessions.contains_key(id)
    &&& settled(world, id)
    &&& same_identity(world.sessions[id], record_of(assignment))
}

/// Whether a session has claimed a slug.
pub open spec fn has_claimed(world: World, id: Seq<char>, slug: Seq<char>) -> bool {
    world.claims.contains_key(slug) && trimmed(world.claims[slug]) == id
}

/// Whether a session, if it has a record, has one of its own, with a name that it has
/// claimed.
pub open spec fn in_order_for(world: World, id: Seq<char>) -> bool {
    world.sessions.contains_key(id) ==> settled(world, id)
}

/// Whether what came first is kept in a later world: the claims, and the identities.
pub open spec fn kept_in(world: World, later: World) -> bool {
    &&& forall|slug: Seq<char>| #[trigger]
        world.claims.contains_key(slug) ==> later.claims.contains_key(slug)
            && later.claims[slug] == world.claims[slug]
    &&& forall|id: Seq<char>| #[trigger]
        world.sessions.contains_key(id) ==> later.sessions.contains_key(id)
    &&& listed(world) ==> listed(later)
    &&& later.realm == world.realm
}

/// How many turns a registration needs at most.
pub open spec fn registration_turns(step: RegistrationStepView) -> int {
    match step {
        StepView::Over { .. } => 0,
        StepView::Ask { then, .. } => match then.stage {
            RegistrationStageView::Finding { .. } => MAX_ATTEMPTS + 4,
            RegistrationStageView::Preparing { .. } => MAX_ATTEMPTS + 3,
            RegistrationStageView::Claiming { attempt, .. } => MAX_ATTEMPTS - attempt + 2,
            RegistrationStageView::Renewing { .. } => 2,
            RegistrationStageView::Naming { .. } => 2,
            RegistrationStageView::Replacing { .. } => 1,
            RegistrationStageView::Creating { .. } => 1,
        },
    }
}

/// Whether a search is for names of proper parts.
spec fn proper_search(search: SearchView) -> bool {
    &&& proper_names(search.names)
    &&& has_names(search.names)
    &&& search.family is Some ==> is_part(search.family->0)
    &&& is_part(search.realm)
}

/// Whether a name is made of proper parts.
spec fn proper_name(name: FullNameView) -> bool {
    is_part(name.first_name) && is_part(name.family_name) && is_part(name.realm)
}

/// Whether a registration asks for what its stage is about, and for its own session.
spec fn well_posed(step: RegistrationStepView, id: Seq<char>) -> bool {
    match step {
        StepView::Over { .. } => true,
        StepView::Ask { request, then } => {
            &&& then.session_id == id
            &&& is_session_id(id)
            &&& match then.stage {
                RegistrationStageView::Finding { names, .. } => {
                    &&& request matches RequestView::FindSession { session_id, .. }
                    &&& session_id == id
                    &&& proper_names(names)
                },
                RegistrationStageView::Renewing { .. } => request is ReadClock,
                RegistrationStageView::Replacing { assignment } => {
                    &&& request matches RequestView::ReplaceSession { session_id, record, .. }
                    &&& session_id == id
                    &&& record == record_of(assignment)
                },
                RegistrationStageView::Preparing { search } => {
                    request is PrepareDirectories && proper_search(search)
                },
                RegistrationStageView::Claiming { search, attempt, name } => {
                    &&& request matches RequestView::ClaimName { slug, contents, .. }
                    &&& slug == name.slug()
                    &&& contents == claim_text(id)
                    &&& attempt < MAX_ATTEMPTS
                    &&& proper_search(search)
                    &&& proper_name(name)
                },
                RegistrationStageView::Naming { name } => request is ReadClock && proper_name(name),
                RegistrationStageView::Creating { assignment } => {
                    &&& request matches RequestView::CreateSession { session_id, record, .. }
                    &&& session_id == id
                    &&& record == record_of(assignment)
                    &&& record.session_id == id
                    &&& canonical(record)
                },
            }
        },
    }
}

/// Whether the world is as a registration has found or made it: the identity that it read
/// or wrote is that of the session, and the name that it claimed is claimed.
spec fn borne_out(world: World, step: RegistrationStepView, id: Seq<char>) -> bool {
    match step {
        StepView::Over { result: Ok(assignment) } => has_identity(world, id, assignment),
        StepView::Over { result: Err(error) } => {
            &&& error != ErrorView::OutOfTurn
            &&& error is AlreadyRegistered ==> world.sessions.contains_key(id)
        },
        StepView::Ask { then, .. } => match then.stage {
            RegistrationStageView::Renewing { assignment }
            | RegistrationStageView::Replacing { assignment } => has_identity(
                world,
                id,
                assignment,
            ),
            RegistrationStageView::Naming { name } => has_claimed(world, id, name.slug()),
            RegistrationStageView::Creating { assignment } => has_claimed(
                world,
                id,
                assignment.slug,
            ),
            _ => true,
        },
    }
}

/// A claim is read back as that of the session.
proof fn lemma_claim_reads_back(id: Seq<char>)
    requires
        is_session_id(id),
    ensures
        trimmed(claim_text(id)) == id,
{
    lemma_session_id_accepted(id);
    lemma_one_word(id);
    assert(claim_text(id) =~= id.push('\n')) by {
        reveal_strlit("\n");
    }
    lemma_trimmed_after(id, '\n');
}

/// The next name of a proper search is one of proper parts.
proof fn lemma_next_name(id: Seq<char>, search: SearchView, from: nat)
    requires
        proper_search(search),
    ensures
        next_name(id, search, from) matches Some((attempt, name)) ==> {
            &&& from <= attempt < MAX_ATTEMPTS
            &&& proper_name(name)
        },
    decreases MAX_ATTEMPTS - from,
{
    if from < MAX_ATTEMPTS {
        if name_tried(id, search, from) is Some {
            lemma_tried_parts(id, search, from);
        } else {
            lemma_next_name(id, search, from + 1);
        }
    }
}

/// What a turn of a registration keeps, of its own session and of any session.
proof fn lemma_registration_turn(
    world: World,
    step: RegistrationStepView,
    who: Seq<char>,
    id: Seq<char>,
)
    requires
        step is Ask,
        well_posed(step, who),
    ensures
        ({
            let (next, reply) = performed(world, step->request);
            let left = registration_resumed(step->then, reply);
            &&& well_posed(left, who)
            &&& registration_turns(left) < registration_turns(step)
            &&& kept_in(world, next)
            &&& in_order_for(world, id) && (who == id ==> borne_out(world, step, id)) ==> {
                &&& in_order_for(next, id)
                &&& who == id ==> borne_out(next, left, id)
                &&& world.sessions.contains_key(id) ==> same_identity(
                    next.sessions[id],
                    world.sessions[id],
                )
            }
        }),
{
    let (next, reply) = performed(world, step->request);
    match step->then.stage {
        RegistrationStageView::Finding { family, realm, .. } => {
            if component(realm) is Some {
                lemma_component_idempotent(realm);
            }
            if family is Some && component(family->0) is Some {
                lemma_component_idempotent(family->0);
            }
        },
        RegistrationStageView::Preparing { search } => {
            lemma_next_name(who, search, 0);
        },
        RegistrationStageView::Claiming { search, attempt, .. } => {
            lemma_next_name(who, search, attempt + 1);
            lemma_claim_reads_back(who);
        },
        RegistrationStageView::Replacing { assignment } => {
            if listed(world) {
                lemma_with_session_listed(world, who, record_of(assignment));
            }
        },
        RegistrationStageView::Creating { assignment } => {
            if listed(world) {
                lemma_with_session_listed(world, who, record_of(assignment));
            }
        },
        _ => {},
    }
}

/// What is kept for a registration is kept later.
proof fn lemma_borne_out_later(
    world: World,
    later: World,
    step: RegistrationStepView,
    id: Seq<char>,
)
    requires
        borne_out(world, step, id),
        in_order_for(later, id),
        kept_in(world, later),
        world.sessions.contains_key(id) ==> same_identity(later.sessions[id], world.sessions[id]),
    ensures
        borne_out(later, step, id),
{
}

/// The session that is meant with one of some applications.
spec fn session_meant(applications: Seq<Application>, i: int) -> Seq<char> {
    session_id(applications[i].session)->Ok_0
}

/// Whether the world is as the registrations of a session have found or made it.
spec fn all_borne_out(
    world: World,
    applications: Seq<Application>,
    tasks: Seq<RegistrationStepView>,
    id: Seq<char>,
) -> bool {
    forall|i: int|
        0 <= i < tasks.len() && session_meant(applications, i) == id ==> borne_out(
            world,
            #[trigger] tasks[i],
            id,
        )
}

/// What turns of some registrations keep, of all sessions and of one that is in order.
proof fn lemma_turns_keep(
    world: World,
    applications: Seq<Application>,
    tasks: Seq<RegistrationStepView>,
    turns: Seq<int>,
    id: Seq<char>,
)
    requires
        tasks.len() == applications.len(),
        forall|i: int|
            0 <= i < tasks.len() ==> well_posed(#[trigger] tasks[i], session_meant(applications, i)),
        forall|k: int| 0 <= k < turns.len() ==> 0 <= #[trigger] turns[k] < tasks.len(),
    ensures
        ({
            let (after, left) = interleaved(tasks, registration_resume(), world, turns);
            &&& left.len() == tasks.len()
            &&& kept_in(world, after)
            &&& forall|i: int|
                0 <= i < tasks.len() && tasks[i] is Over ==> #[trigger] left[i] == tasks[i]
            &&& forall|i: int|
                0 <= i < tasks.len() && turns_of(turns, i) >= registration_turns(tasks[i]) ==> (
                #[trigger] left[i]) is Over
            &&& in_order_for(world, id) && all_borne_out(world, applications, tasks, id) ==> {
                &&& in_order_for(after, id)
                &&& all_borne_out(after, applications, left, id)
                &&& world.sessions.contains_key(id) ==> same_identity(
                    after.sessions[id],
                    world.sessions[id],
                )
            }
        }),
    decreases turns.len(),
{
    let resume = registration_resume();
    if turns.len() == 0 {
        assert forall|i: int| 0 <= i < tasks.len() && turns_of(turns, i) >= registration_turns(
            tasks[i],
        ) implies (#[trigger] tasks[i]) is Over by {
            assert(well_posed(tasks[i], session_meant(applications, i)));
        }
    } else {
        let who = turns.first();
        let rest = turns.drop_first();
        let (next, left) = turn_taken(tasks, resume, world, who);
        assert(who == turns[0]);
        assert(well_posed(tasks[who], session_meant(applications, who)));
        if tasks[who] is Ask {
            lemma_registration_turn(world, tasks[who], session_meant(applications, who), id);
        }
        assert forall|i: int| 0 <= i < left.len() implies well_posed(
            #[trigger] left[i],
            session_meant(applications, i),
        ) by {
            assert(well_posed(tasks[i], session_meant(applications, i)));
        }
        if in_order_for(world, id) && all_borne_out(world, applications, tasks, id) {
            assert forall|i: int| 0 <= i < left.len() && session_meant(applications, i)
                == id implies borne_out(next, #[trigger] left[i], id) by {
                assert(borne_out(world, tasks[i], id));
                if i != who {
                    lemma_borne_out_later(world, next, tasks[i], id);
                }
            }
        }
        assert forall|k: int| 0 <= k < rest.len() implies 0 <= #[trigger] rest[k] < left.len() by {
            assert(rest[k] == turns[k + 1]);
        }
        lemma_turns_keep(next, applications, left, rest, id);
        let ends = interleaved(left, resume, next, rest).1;
        assert forall|i: int| 0 <= i < tasks.len() && turns_of(turns, i) >= registration_turns(
            tasks[i],
        ) implies (#[trigger] ends[i]) is Over by {
            assert(well_posed(tasks[i], session_meant(applications, i)));
            assert(turns_of(rest, i) >= registration_turns(left[i]));
        }
    }
}

/// Registrations at their start are well posed, and take nothing for granted.
proof fn lemma_begun_is_well_posed(world: World, registry: PlaceView, applications: Seq<Application>)
    requires
        forall|i: int|
            0 <= i < applications.len() ==> proper_names((#[trigger] applications[i]).names),
    ensures
        ({
            let tasks = registrations_begun(registry, applications);
            &&& tasks.len() == applications.len()
            &&& forall|i: int|
                0 <= i < tasks.len() ==> {
                    &&& well_posed(#[trigger] tasks[i], session_meant(applications, i))
                    &&& borne_out(world, tasks[i], session_meant(applications, i))
                    &&& registration_turns(tasks[i]) <= MAX_ATTEMPTS + 4
                }
        }),
{
    let tasks = registrations_begun(registry, applications);
    assert forall|i: int| 0 <= i < tasks.len() implies {
        &&& well_posed(#[trigger] tasks[i], session_meant(applications, i))
        &&& borne_out(world, tasks[i], session_meant(applications, i))
        &&& registration_turns(tasks[i]) <= MAX_ATTEMPTS + 4
    } by {
        let application = applications[i];
        if session_id(application.session) is Ok {
            lemma_session_id_stays(application.session);
        }
    }
}

/// However the turns of several registrations fall, a consistent registry stays
/// consistent, and the claims and identities that there were are kept. A registration that
/// is over with an identity has given its session that identity, with a name that the
/// session has claimed; one that is refused since its session is registered is refused
/// rightly. Every registration is over after a bounded number of turns of its own.
///
/// What is said of one registration holds in any registry in which its session, if it has a
/// record, has one of its own with a name that it has claimed.
pub proof fn lemma_registrations_at_once(
    world: World,
    registry: PlaceView,
    applications: Seq<Application>,
    turns: Seq<int>,
)
    requires
        forall|i: int|
            0 <= i < applications.len() ==> proper_names((#[trigger] applications[i]).names),
        forall|k: int| 0 <= k < turns.len() ==> 0 <= #[trigger] turns[k] < applications.len(),
    ensures
        ({
            let tasks = registrations_begun(registry, applications);
            let (after, left) = interleaved(tasks, registration_resume(), world, turns);
            &&& left.len() == applications.len()
            &&& consistent(world) ==> consistent(after)
            &&& kept_in(world, after)
            &&& forall|id: Seq<char>| #[trigger]
                world.sessions.contains_key(id) && settled(world, id) ==> same_identity(
                    after.sessions[id],
                    world.sessions[id],
                )
            &&& forall|i: int|
                #![trigger left[i]]
                0 <= i < left.len() && session_id(applications[i].session) is Ok && in_order_for(
                    world,
                    session_id(applications[i].session)->Ok_0,
                ) ==> {
                    let id = session_id(applications[i].session)->Ok_0;
                    &&& left[i] matches StepView::Over { result: Ok(assignment) } ==> {
                        &&& assignment.session_id == id
                        &&& has_identity(after, id, assignment)
                        &&& has_claimed(after, id, assignment.slug)
                    }
                    &&& left[i] matches StepView::Over { result: Err(error) } ==> {
                        &&& error != ErrorView::OutOfTurn
                        &&& error is AlreadyRegistered ==> after.sessions.contains_key(id)
                    }
                }
            &&& forall|i: int|
                0 <= i < left.len() && session_id(applications[i].session) is Err
                    ==> #[trigger] left[i] == RegistrationStepView::failure(
                    session_id(applications[i].session)->Err_0,
                )
            &&& forall|i: int|
                0 <= i < left.len() && turns_of(turns, i) >= MAX_ATTEMPTS + 4 ==> (
                #[trigger] left[i]) is Over
        }),
{
    let tasks = registrations_begun(registry, applications);
    let (after, left) = interleaved(tasks, registration_resume(), world, turns);
    lemma_begun_is_well_posed(world, registry, applications);
    assert forall|id: Seq<char>| in_order_for(world, id) implies {
        &&& #[trigger] in_order_for(after, id)
        &&& world.sessions.contains_key(id) ==> same_identity(
            after.sessions[id],
            world.sessions[id],
        )
    } by {
        lemma_turns_keep(world, applications, tasks, turns, id);
    }
    if consistent(world) {
        assert forall|id: Seq<char>| #[trigger] after.sessions.contains_key(id) implies settled(
            after,
            id,
        ) by {
            assert(in_order_for(world, id));
            assert(in_order_for(after, id));
        }
    }
    assert forall|id: Seq<char>| #[trigger]
        world.sessions.contains_key(id) && settled(world, id) implies same_identity(
        after.sessions[id],
        world.sessions[id],
    ) by {
        assert(in_order_for(after, id));
    }
    lemma_turns_keep(world, applications, tasks, turns, Seq::empty());
    assert forall|i: int|
        #![trigger left[i]]
        0 <= i < left.len() && session_id(applications[i].session) is Ok && in_order_for(
            world,
            session_id(applications[i].session)->Ok_0,
        ) implies {
        let id = session_id(applications[i].session)->Ok_0;
        &&& left[i] matches StepView::Over { result: Ok(assignment) } ==> {
            &&& assignment.session_id == id
            &&& has_identity(after, id, assignment)
            &&& has_claimed(after, id, assignment.slug)
        }
        &&& left[i] matches StepView::Over { result: Err(error) } ==> {
            &&& error != ErrorView::OutOfTurn
            &&& error is AlreadyRegistered ==> after.sessions.contains_key(id)
        }
    } by {
        let id = session_meant(applications, i);
        lemma_turns_keep(world, applications, tasks, turns, id);
        assert(borne_out(after, left[i], id));
    }
}

/// Registrations of different sessions that are over with an identity have different
/// names and slugs, and those of one session the same ones.
pub proof fn lemma_registrations_share_no_name(
    world: World,
    registry: PlaceView,
    applications: Seq<Application>,
    turns: Seq<int>,
    i: int,
    j: int,
)
    requires
        forall|i: int|
            0 <= i < applications.len() ==> proper_names((#[trigger] applications[i]).names),
        forall|k: int| 0 <= k < turns.len() ==> 0 <= #[trigger] turns[k] < applications.len(),
        0 <= i < applications.len(),
        0 <= j < applications.len(),
        in_order_for(world, session_id(applications[i].session)->Ok_0),
        in_order_for(world, session_id(applications[j].session)->Ok_0),
    ensures
        ({
            let tasks = registrations_begun(registry, applications);
            let left = interleaved(tasks, registration_resume(), world, turns).1;
            (left[i], left[j]) matches (
                StepView::Over { result: Ok(a) },
                StepView::Over { result: Ok(b) },
            ) ==> {
                &&& a.session_id == b.session_id <==> a.slug == b.slug
                &&& a.session_id == b.session_id <==> a.name == b.name
            }
        }),
{
    let tasks = registrations_begun(registry, applications);
    let (after, left) = interleaved(tasks, registration_resume(), world, turns);
    lemma_registrations_at_once(world, registry, applications, turns);
    if left[i] is Over && left[i]->Over_result is Ok && left[j] is Over && left[j]->Over_result
        is Ok {
        let a = left[i]->Over_result->Ok_0;
        let b = left[j]->Over_result->Ok_0;
        if a.slug == b.slug || a.name == b.name {
            lemma_names_are_unique(after, a.session_id, b.session_id);
        }
    }
}

} // verus!
