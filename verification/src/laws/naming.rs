//! Which name a session is given.

use crate::activity::{ActivityState, ActivityStateValue};
use crate::assignment::{assignment_of, option_view, record_of, AssignmentView, ExtensionView};
use crate::commands::{register_begun, session_meant, PrintedView, RegisterArgs};
use crate::error::ErrorView;
use crate::host::{EnvironmentView, PlaceView};
use crate::identity::{
    big_endian, chosen_index, component, full_name, names_tried, sha256_digest, slug_of,
};
use crate::outcomes::{lemma_register_command, register_outcome, register_resume};
use crate::realm::ChanceView;
use crate::registration::{name_tried, registration_begun, NameListsView, SearchView};
use crate::text::{decimal, titled, trimmed};
use crate::validation::session_id;
use crate::world::{
    comes_to, free_for, free_name, lemma_one_outcome, lemma_registration, realm_resolved,
    registered, registration_resume, World,
};
use vstd::prelude::*;
use vstd::utf8::encode_utf8;

verus! {

// ---------------------------------------------------------------------------
// The choice
// ---------------------------------------------------------------------------
/// The number that eight bytes tell, the first counting most.
pub open spec fn number_of_bytes(bytes: Seq<u8>, from: int) -> int {
    bytes[from] * 0x100_0000_0000_0000 + bytes[from + 1] * 0x1_0000_0000_0000 + bytes[from + 2]
        * 0x100_0000_0000 + bytes[from + 3] * 0x1_0000_0000 + bytes[from + 4] * 0x100_0000
        + bytes[from + 5] * 0x1_0000 + bytes[from + 6] * 0x100 + bytes[from + 7]
}

/// The place in a list that eight bytes choose: their number, wrapped round the list. Where
/// a `usize` cannot hold the number, zero stands for it.
pub open spec fn place_chosen(bytes: Seq<u8>, from: int, length: int) -> int {
    (if number_of_bytes(bytes, from) <= usize::MAX {
        number_of_bytes(bytes, from)
    } else {
        0
    }) % length
}

/// Eight bytes tell their number.
proof fn lemma_eight_bytes(bytes: Seq<u8>)
    requires
        bytes.len() == 8,
    ensures
        big_endian(bytes) == number_of_bytes(bytes, 0),
{
    reveal_with_fuel(big_endian, 9);
    let b7 = bytes.drop_last();
    let b6 = b7.drop_last();
    let b5 = b6.drop_last();
    let b4 = b5.drop_last();
    let b3 = b4.drop_last();
    let b2 = b3.drop_last();
    let b1 = b2.drop_last();
    let b0 = b1.drop_last();
    assert(big_endian(b0) == 0);
    assert(big_endian(b1) == bytes[0]);
    assert(big_endian(b2) == 256 * big_endian(b1) + bytes[1]);
    assert(big_endian(b3) == 256 * big_endian(b2) + bytes[2]);
    assert(big_endian(b4) == 256 * big_endian(b3) + bytes[3]);
    assert(big_endian(b5) == 256 * big_endian(b4) + bytes[4]);
    assert(big_endian(b6) == 256 * big_endian(b5) + bytes[5]);
    assert(big_endian(b7) == 256 * big_endian(b6) + bytes[6]);
    assert(big_endian(bytes) == 256 * big_endian(b7) + bytes[7]);
}

/// Eight bytes of a digest choose a place in a list.
pub proof fn lemma_digest_chooses(digest: Seq<u8>, from: int, length: nat)
    requires
        0 <= from,
        from + 8 <= digest.len(),
        length > 0,
    ensures
        chosen_index(digest.subrange(from, from + 8), length) == place_chosen(
            digest,
            from,
            length as int,
        ),
        0 <= place_chosen(digest, from, length as int) < length,
{
    lemma_eight_bytes(digest.subrange(from, from + 8));
}

/// The digest that an attempt goes by: that of the session ID, a colon and the number of
/// the attempt.
pub open spec fn attempt_digest(id: Seq<char>, attempt: nat) -> Seq<u8> {
    sha256_digest(encode_utf8(id + seq![':'] + decimal(attempt)))
}

/// The names of an attempt: the first eight bytes of its digest choose the first name, and
/// the next eight the family name, unless one is asked for.
pub proof fn lemma_names_of_attempt(
    id: Seq<char>,
    attempt: nat,
    names: NameListsView,
    family: Option<Seq<char>>,
)
    requires
        names.first_names.len() > 0,
        names.family_names.len() > 0,
        attempt_digest(id, attempt).len() >= 16,
    ensures
        ({
            let digest = attempt_digest(id, attempt);
            names_tried(id, attempt, names.first_names, names.family_names, family) == (
                names.first_names[place_chosen(digest, 0, names.first_names.len() as int)],
                if family is Some {
                    family->0
                } else {
                    names.family_names[place_chosen(digest, 8, names.family_names.len() as int)]
                },
            )
        }),
{
    reveal_strlit(":");
    assert(":"@ =~= seq![':']);
    let digest = attempt_digest(id, attempt);
    lemma_digest_chooses(digest, 0, names.first_names.len());
    lemma_digest_chooses(digest, 8, names.family_names.len());
}

// ---------------------------------------------------------------------------
// The first free name
// ---------------------------------------------------------------------------
/// Whether an attempt gives a session a name: its first name and family name differ, and
/// nobody else has claimed the slug of it.
pub open spec fn attempt_serves(
    world: World,
    id: Seq<char>,
    attempt: nat,
    family: Option<Seq<char>>,
    realm: Seq<char>,
    names: NameListsView,
) -> bool {
    let (first, last) = names_tried(
        id,
        attempt,
        names.first_names,
        names.family_names,
        family,
    );
    let slug = slug_of(titled(first), titled(last), realm);
    first != last && (world.claims.contains_key(slug) ==> trimmed(world.claims[slug]) == id)
}

/// The name that is found is that of the first attempt that serves.
proof fn lemma_first_attempt(world: World, id: Seq<char>, search: SearchView, from: nat)
    requires
        from <= 100_000,
    ensures
        match free_name(world, id, search, from) {
            Some(name) => exists|k: nat|
                {
                    &&& from <= k < 100_000
                    &&& #[trigger] attempt_serves(
                        world,
                        id,
                        k,
                        search.family,
                        search.realm,
                        search.names,
                    )
                    &&& name_tried(id, search, k) == Some(name)
                    &&& forall|j: nat|
                        from <= j < k ==> !#[trigger] attempt_serves(
                            world,
                            id,
                            j,
                            search.family,
                            search.realm,
                            search.names,
                        )
                },
            None => forall|j: nat|
                from <= j < 100_000 ==> !#[trigger] attempt_serves(
                    world,
                    id,
                    j,
                    search.family,
                    search.realm,
                    search.names,
                ),
        },
    decreases 100_000 - from,
{
    if from < 100_000 {
        let serves = |k: nat|
            attempt_serves(world, id, k, search.family, search.realm, search.names);
        if attempt_serves(world, id, from, search.family, search.realm, search.names) {
            assert(name_tried(id, search, from) is Some);
            assert(free_for(world, id, name_tried(id, search, from)->0.slug()));
        } else {
            lemma_first_attempt(world, id, search, from + 1);
            assert(free_name(world, id, search, from) == free_name(world, id, search, from + 1));
            if free_name(world, id, search, from) is Some {
                let name = free_name(world, id, search, from)->0;
                let k = choose|k: nat|
                    {
                        &&& from + 1 <= k < 100_000
                        &&& #[trigger] attempt_serves(
                            world,
                            id,
                            k,
                            search.family,
                            search.realm,
                            search.names,
                        )
                        &&& name_tried(id, search, k) == Some(name)
                        &&& forall|j: nat|
                            from + 1 <= j < k ==> !#[trigger] attempt_serves(
                                world,
                                id,
                                j,
                                search.family,
                                search.realm,
                                search.names,
                            )
                    };
                assert(attempt_serves(world, id, k, search.family, search.realm, search.names));
                assert forall|j: nat| from <= j < k implies !#[trigger] attempt_serves(
                    world,
                    id,
                    j,
                    search.family,
                    search.realm,
                    search.names,
                ) by {}
            }
        }
    }
}

/// Whether an assignment is that of a session which was just given the name of an attempt.
pub open spec fn is_given_name(
    assignment: AssignmentView,
    id: Seq<char>,
    first: Seq<char>,
    family: Seq<char>,
    realm: Seq<char>,
    now: crate::timestamp::Timestamp,
) -> bool {
    &&& assignment.version == 1
    &&& assignment.session_id == id
    &&& assignment.first_name == titled(first)
    &&& assignment.family_name == titled(family)
    &&& assignment.realm == realm
    &&& assignment.name == full_name(titled(first), titled(family), realm)
    &&& assignment.slug == slug_of(titled(first), titled(family), realm)
    &&& assignment.summary is None
    &&& assignment.cwd is None
    &&& assignment.extensions == Map::<Seq<char>, ExtensionView>::empty()
    &&& assignment.created_at == now
    &&& assignment.updated_at == now
    &&& assignment.state == (ActivityState { value: ActivityStateValue::Unknown, updated_at: now })
}

/// Whether no attempt gives a session a name.
pub open spec fn none_serves(
    world: World,
    id: Seq<char>,
    family: Option<Seq<char>>,
    realm: Seq<char>,
    names: NameListsView,
) -> bool {
    forall|j: nat| j < 100_000 ==> !#[trigger] attempt_serves(world, id, j, family, realm, names)
}

/// Whether an attempt is the first of those that are made which gives a session a name.
pub open spec fn serves_first(
    world: World,
    id: Seq<char>,
    attempt: nat,
    family: Option<Seq<char>>,
    realm: Seq<char>,
    names: NameListsView,
) -> bool {
    &&& attempt < 100_000
    &&& attempt_serves(world, id, attempt, family, realm, names)
    &&& forall|j: nat|
        j < attempt ==> !#[trigger] attempt_serves(world, id, j, family, realm, names)
}

/// Whether an assignment is that of a session which was just given the name of the first
/// attempt that serves.
pub open spec fn has_first_name(
    world: World,
    id: Seq<char>,
    family: Option<Seq<char>>,
    realm: Seq<char>,
    names: NameListsView,
    assignment: AssignmentView,
) -> bool {
    exists|attempt: nat|
        {
            let (first, last) = names_tried(
                id,
                attempt,
                names.first_names,
                names.family_names,
                family,
            );
            &&& #[trigger] serves_first(world, id, attempt, family, realm, names)
            &&& is_given_name(assignment, id, first, last, realm, world.now)
        }
}

/// What registering a session without a record comes to, whatever the host holds: refused
/// where the realm or the family name that is asked for is no part of a name, where there
/// are no names to choose from, or where no attempt serves; and otherwise the session is
/// given the name of the first attempt that serves, claims it, and has a record of it.
pub proof fn lemma_registration_gives_name(
    world: World,
    registry: PlaceView,
    session: Seq<char>,
    family: Option<Seq<char>>,
    realm: Seq<char>,
    names: NameListsView,
    after: World,
    result: Result<AssignmentView, ErrorView>,
)
    requires
        comes_to(
            registration_begun(registry, session, family, realm, names),
            registration_resume(),
            world,
            (after, result),
        ),
        session_id(session) is Ok,
        !world.sessions.contains_key(session_id(session)->Ok_0),
    ensures
        ({
            let id = session_id(session)->Ok_0;
            let asked = match family {
                Some(family) => component(family),
                None => None,
            };
            let place = component(realm)->0;
            &&& result is Err ==> after == world
            &&& if component(realm) is None {
                result == Err::<AssignmentView, _>(ErrorView::InvalidComponent { kind: "realm"@ })
            } else if family is Some && asked is None {
                result == Err::<AssignmentView, _>(
                    ErrorView::InvalidComponent { kind: "family name"@ },
                )
            } else if names.first_names.len() == 0 || names.family_names.len() == 0 {
                result == Err::<AssignmentView, _>(ErrorView::NoNames)
            } else if none_serves(world, id, asked, place, names) {
                result == Err::<AssignmentView, _>(ErrorView::NamesExhausted { realm: place })
            } else {
                &&& result matches Ok(assignment)
                &&& has_first_name(world, id, asked, place, names, assignment)
                &&& after.sessions == world.sessions.insert(id, record_of(assignment))
                &&& after.listing == world.listing.push(id)
                &&& after.claims == if world.claims.contains_key(assignment.slug) {
                    world.claims
                } else {
                    world.claims.insert(assignment.slug, id + seq!['\n'])
                }
                &&& after.realm == world.realm
            }
        }),
{
    lemma_registration(world, registry, session, family, realm, names);
    lemma_one_outcome(
        registration_begun(registry, session, family, realm, names),
        registration_resume(),
        world,
        (after, result),
        registered(world, session, family, realm, names),
    );
    reveal_strlit("\n");
    assert("\n"@ =~= seq!['\n']);
    let id = session_id(session)->Ok_0;
    let asked = match family {
        Some(family) => component(family),
        None => None,
    };
    let search = SearchView { family: asked, realm: component(realm)->0, names };
    lemma_first_attempt(world, id, search, 0);
    if component(realm) is Some && !(family is Some && asked is None) && names.first_names.len() > 0
        && names.family_names.len() > 0 && free_name(world, id, search, 0) is Some {
        let name = free_name(world, id, search, 0)->0;
        let k = choose|k: nat|
            {
                &&& k < 100_000
                &&& #[trigger] attempt_serves(
                    world,
                    id,
                    k,
                    search.family,
                    search.realm,
                    search.names,
                )
                &&& name_tried(id, search, k) == Some(name)
                &&& forall|j: nat|
                    j < k ==> !#[trigger] attempt_serves(
                        world,
                        id,
                        j,
                        search.family,
                        search.realm,
                        search.names,
                    )
            };
        assert(serves_first(world, id, k, asked, search.realm, names));
        assert(crate::registration::claim_text(id) =~= id + seq!['\n']);
        let (first, last) = names_tried(
            id,
            k,
            names.first_names,
            names.family_names,
            asked,
        );
        assert(is_given_name(result->Ok_0, id, first, last, search.realm, world.now));
        assert(has_first_name(world, id, asked, search.realm, names, result->Ok_0));
        assert(!none_serves(world, id, asked, search.realm, names));
        assert(after.claims == if world.claims.contains_key(result->Ok_0.slug) {
            world.claims
        } else {
            world.claims.insert(result->Ok_0.slug, id + seq!['\n'])
        });
        assert(after.sessions == world.sessions.insert(id, record_of(result->Ok_0)));
        assert(after.listing == world.listing.push(id));
    } else if free_name(world, id, search, 0) is None {
        assert(none_serves(world, id, asked, search.realm, names));
    }
}

/// A session that has a record keeps its identity when it is registered again, whatever
/// family name and realm are asked for; only the time of its update is new.
pub proof fn lemma_registration_keeps_name(
    world: World,
    registry: PlaceView,
    session: Seq<char>,
    family: Option<Seq<char>>,
    realm: Seq<char>,
    names: NameListsView,
    after: World,
    result: Result<AssignmentView, ErrorView>,
)
    requires
        comes_to(
            registration_begun(registry, session, family, realm, names),
            registration_resume(),
            world,
            (after, result),
        ),
        session_id(session) is Ok,
        world.sessions.contains_key(session_id(session)->Ok_0),
    ensures
        ({
            let id = session_id(session)->Ok_0;
            let record = world.sessions[id];
            &&& result == Ok::<_, ErrorView>(
                AssignmentView { updated_at: world.now, ..assignment_of(record) },
            )
            &&& after.sessions == world.sessions.insert(
                id,
                crate::assignment::RecordView { updated_at: world.now, ..record },
            )
            &&& after.listing == world.listing
            &&& after.claims == world.claims
            &&& after.realm == world.realm
        }),
{
    lemma_registration(world, registry, session, family, realm, names);
    lemma_one_outcome(
        registration_begun(registry, session, family, realm, names),
        registration_resume(),
        world,
        (after, result),
        registered(world, session, family, realm, names),
    );
}

/// What is no session ID is not registered.
pub proof fn lemma_registration_needs_session(
    world: World,
    registry: PlaceView,
    session: Seq<char>,
    family: Option<Seq<char>>,
    realm: Seq<char>,
    names: NameListsView,
    after: World,
    result: Result<AssignmentView, ErrorView>,
)
    requires
        comes_to(
            registration_begun(registry, session, family, realm, names),
            registration_resume(),
            world,
            (after, result),
        ),
        session_id(session) is Err,
    ensures
        after == world,
        result == Err::<AssignmentView, _>(session_id(session)->Err_0),
{
    lemma_registration(world, registry, session, family, realm, names);
    lemma_one_outcome(
        registration_begun(registry, session, family, realm, names),
        registration_resume(),
        world,
        (after, result),
        registered(world, session, family, realm, names),
    );
}

// ---------------------------------------------------------------------------
// The command
// ---------------------------------------------------------------------------
/// The command registers the session that is named, or else that of the environment, in the
/// realm that is resolved and with the family name that is asked for, and prints the
/// identity. Without a session nothing is done.
pub proof fn lemma_register_does(
    world: World,
    args: RegisterArgs,
    environment: EnvironmentView,
    names: NameListsView,
    realms: Seq<Seq<char>>,
    chance: ChanceView,
    after: World,
    result: Result<PrintedView, ErrorView>,
)
    requires
        comes_to(
            register_begun(args, environment, names, realms, chance),
            register_resume(),
            world,
            (after, result),
        ),
    ensures
        ({
            let session = session_meant(option_view(args.session), environment);
            let resolved = realm_resolved(
                world,
                option_view(args.realm),
                environment,
                realms,
                chance,
            );
            let homeless = environment.registry_home is None && environment.data_home is None
                && environment.home is None;
            if session is Err {
                after == world && result == Err::<PrintedView, _>(session->Err_0)
            } else if resolved.1 is Err {
                after == resolved.0 && result == Err::<PrintedView, _>(resolved.1->Err_0)
            } else if homeless {
                after == resolved.0 && result == Err::<PrintedView, _>(ErrorView::NoHome)
            } else {
                let given = registered(
                    resolved.0,
                    session->Ok_0,
                    option_view(args.family),
                    resolved.1->Ok_0,
                    names,
                );
                &&& after == given.0
                &&& result == match given.1 {
                    Ok(assignment) => Ok(
                        if args.json {
                            PrintedView::Document { assignment }
                        } else {
                            PrintedView::Line { text: assignment.name }
                        },
                    ),
                    Err(error) => Err(error),
                }
            }
        }),
{
    lemma_register_command(world, args, environment, names, realms, chance);
    lemma_one_outcome(
        register_begun(args, environment, names, realms, chance),
        register_resume(),
        world,
        (after, result),
        register_outcome(world, args, environment, names, realms, chance),
    );
}

} // verus!
