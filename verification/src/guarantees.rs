//! What the registry guarantees, over the model of the host: whose name is whose, what
//! is found again, and what each operation leaves as it was.

use crate::activity::{ActivityState, ActivityStateValue};
use crate::annotation::{annotated, extensions_set, extensions_updated, UpdateView};
use crate::assignment::{
    assignment_of, materialized_state, omp_state, record_of, state_field, with_state, without_state,
    AssignmentView, ExtensionView, RecordView, SummaryView, OMP_EXTENSION_OWNER, OMP_STATE_KEY,
};
use crate::commands::{lively, records_shown};
use crate::discovery::{assignments_of, discovered, newer, sought};
use crate::error::ErrorView;
use crate::herdr::DiscoveredView;
use crate::host::{PlaceView, ReplyView, RequestView, StepView};
use crate::identity::{
    component, full_name, is_component, is_part, lemma_component_idempotent, lemma_name_spells_slug,
    lemma_part_is_word, lemma_slug_is_sought, lemma_titled_component, names_tried, slug_of,
    slugs_for,
};
use crate::order::{
    is_order, lemma_kept, lemma_sorted_in_order, lemma_sorted_multiset, lemma_sorted_same,
};
use crate::pruning::{
    empty_report, error_at, expired, foreign_claim, older, pruning_begun, pruning_resumed,
    removal_continued, with_error, with_removed, PrunedView, PruningStageView, PruningStepView,
    PruningView, ReportView,
};
use crate::registration::{
    claim_text, name_tried, proper_names, FullNameView, NameListsView, SearchView, MAX_ATTEMPTS,
};
use crate::text::{
    lemma_one_word, lemma_trim_is_trimmed, lemma_trimmed_after, lemma_trimmed_is_trim, titled,
    trimmed,
};
use crate::timestamp::Timestamp;
use crate::validation::{
    is_session_id, lemma_session_id_accepted, lemma_session_id_stays, nonempty, session_id,
    session_id_char,
};
use crate::world::{
    all_assignments, assigned, comes_to, found_by_name, free_for, free_name, lemma_ask, lemma_over,
    looked_up, noted_down, other_than, performed, registered, with_session, without_session, World,
};
use vstd::prelude::*;

verus! {

// ---------------------------------------------------------------------------
// Consistent worlds
// ---------------------------------------------------------------------------
/// Whether the name of a record is made of its parts, and its slug of its name.
pub open spec fn canonical(record: RecordView) -> bool {
    &&& is_part(record.first_name)
    &&& is_part(record.family_name)
    &&& is_part(record.realm)
    &&& record.name == full_name(record.first_name, record.family_name, record.realm)
    &&& record.slug == slug_of(record.first_name, record.family_name, record.realm)
}

/// Whether a session has a record of its own, with a name that it has claimed.
pub open spec fn settled(world: World, id: Seq<char>) -> bool {
    let record = world.sessions[id];
    &&& is_session_id(id)
    &&& record.session_id == id
    &&& canonical(record)
    &&& world.claims.contains_key(record.slug)
    &&& trimmed(world.claims[record.slug]) == id
}

/// Whether every session has a record of its own, with a name that it has claimed.
pub open spec fn consistent(world: World) -> bool {
    forall|id: Seq<char>| #[trigger] world.sessions.contains_key(id) ==> settled(world, id)
}

/// Whether the listing names every session, and none twice.
pub open spec fn listed(world: World) -> bool {
    &&& world.listing.no_duplicates()
    &&& forall|id: Seq<char>| #[trigger]
        world.listing.contains(id) <==> world.sessions.contains_key(id)
}

/// A world with a session more lists it too.
pub proof fn lemma_with_session_listed(world: World, id: Seq<char>, record: RecordView)
    requires
        listed(world),
    ensures
        listed(with_session(world, id, record)),
{
    let after = with_session(world, id, record);
    if !world.sessions.contains_key(id) {
        assert(!world.listing.contains(id));
        assert(after.listing[after.listing.len() - 1] == id);
        assert forall|other: Seq<char>| #[trigger]
            after.listing.contains(other) <==> after.sessions.contains_key(other) by {
            if world.listing.contains(other) {
                let i = world.listing.index_of(other);
                assert(after.listing[i] == other);
            }
            if after.listing.contains(other) && other != id {
                let i = after.listing.index_of(other);
                assert(world.listing[i] == other);
            }
            assert(world.listing.contains(other) <==> world.sessions.contains_key(other));
        }
    }
}

/// A registry without sessions is consistent, and lists what it has.
pub proof fn lemma_no_sessions(world: World)
    requires
        world.sessions == Map::<Seq<char>, RecordView>::empty(),
        world.listing == Seq::<Seq<char>>::empty(),
    ensures
        consistent(world),
        listed(world),
{
}

/// No two sessions that have claimed their names have the same slug, nor the same name.
pub proof fn lemma_names_are_unique(world: World, left: Seq<char>, right: Seq<char>)
    requires
        settled(world, left),
        settled(world, right),
        world.sessions.contains_key(left),
        world.sessions.contains_key(right),
        world.sessions[left].slug == world.sessions[right].slug || world.sessions[left].name
            == world.sessions[right].name,
    ensures
        left == right,
{
    let a = world.sessions[left];
    let b = world.sessions[right];
    lemma_name_spells_slug(a.first_name, a.family_name, a.realm);
    lemma_name_spells_slug(b.first_name, b.family_name, b.realm);
}

/// A full name is no session ID.
proof fn lemma_name_is_no_session_id(first: Seq<char>, family: Seq<char>, realm: Seq<char>)
    requires
        is_part(first),
        is_part(family),
        is_part(realm),
    ensures
        session_id(full_name(first, family, realm)) is Err,
{
    let name = full_name(first, family, realm);
    reveal_strlit(" ");
    lemma_part_is_word(first);
    lemma_name_spells_slug(first, family, realm);
    assert(name[first.len() as int] == ' ');
    assert(!session_id_char(name[first.len() as int]));
}

/// A session that has a record of its own is found by its ID.
pub proof fn lemma_found_by_id(world: World, id: Seq<char>)
    requires
        is_session_id(id),
        world.sessions.contains_key(id),
        world.sessions[id].session_id == id,
    ensures
        looked_up(world, id) == Ok::<_, ErrorView>(assignment_of(world.sessions[id])),
{
    lemma_session_id_accepted(id);
    lemma_one_word(id);
    lemma_trim_is_trimmed(id);
}

/// A session that has a record of its own, with a name that it has claimed, is found: by
/// its ID, by its name, and by its slug unless that is the ID of another session.
pub proof fn lemma_sessions_are_found(world: World, id: Seq<char>)
    requires
        settled(world, id),
        world.sessions.contains_key(id),
    ensures
        looked_up(world, id) == Ok::<_, ErrorView>(assignment_of(world.sessions[id])),
        looked_up(world, world.sessions[id].name) == Ok::<_, ErrorView>(
            assignment_of(world.sessions[id]),
        ),
        !world.sessions.contains_key(world.sessions[id].slug) || world.sessions[id].slug == id
            ==> looked_up(world, world.sessions[id].slug) == Ok::<_, ErrorView>(
            assignment_of(world.sessions[id]),
        ),
{
    let record = world.sessions[id];
    let (first, family, realm) = (record.first_name, record.family_name, record.realm);
    lemma_found_by_id(world, id);
    lemma_session_id_accepted(id);
    lemma_one_word(id);
    lemma_trim_is_trimmed(id);
    // The claim of the slug leads to the session.
    let text = world.claims[record.slug];
    assert(nonempty(text, "claimed session ID"@) == Ok::<Seq<char>, ErrorView>(id));
    // The name is no session ID, and has one slug.
    lemma_name_spells_slug(first, family, realm);
    lemma_name_is_no_session_id(first, family, realm);
    assert(slugs_for(record.name)[0] == record.slug);
    // The slug has one slug, itself.
    lemma_slug_is_sought(first, family, realm);
    assert(slugs_for(record.slug)[0] == record.slug);
    lemma_one_word(record.slug);
    if session_id(record.slug) is Ok {
        assert(session_id(record.slug)->Ok_0 == record.slug);
    }
}

/// A name that is found leads to a session that has claimed one of its slugs; where none
/// of them is claimed, nothing is found.
proof fn lemma_found_by_name(world: World, input: Seq<char>, slugs: Seq<Seq<char>>, at: nat)
    requires
        consistent(world),
    ensures
        found_by_name(world, input, slugs, at) matches Ok(a) ==> {
            &&& world.sessions.contains_key(a.session_id)
            &&& a == assignment_of(world.sessions[a.session_id])
            &&& exists|i: int|
                at <= i < slugs.len() && world.claims.contains_key(#[trigger] slugs[i]) && trimmed(
                    world.claims[slugs[i]],
                ) == a.session_id
        },
        (forall|i: int| at <= i < slugs.len() ==> !world.claims.contains_key(#[trigger] slugs[i]))
            ==> found_by_name(world, input, slugs, at) == Err::<AssignmentView, _>(
            ErrorView::NoIdentity { input },
        ),
    decreases slugs.len() - at,
{
    if at < slugs.len() {
        let slug = slugs[at as int];
        lemma_found_by_name(world, input, slugs, at + 1);
        if world.claims.contains_key(slug) {
            let text = world.claims[slug];
            lemma_trimmed_is_trim(text);
            lemma_trim_is_trimmed(trimmed(text));
        }
    }
}

/// What a lookup finds is the identity of a registered session: of the session whose ID
/// is looked up, or of one that has claimed a slug of what is looked up. Where there is
/// no such session and no such claim, nothing is found.
pub proof fn lemma_lookup_is_sound(world: World, input: Seq<char>)
    requires
        consistent(world),
    ensures
        looked_up(world, input) matches Ok(a) ==> {
            &&& world.sessions.contains_key(a.session_id)
            &&& a == assignment_of(world.sessions[a.session_id])
            &&& a.session_id == trimmed(input) || exists|i: int|
                0 <= i < slugs_for(trimmed(input)).len() && world.claims.contains_key(
                    #[trigger] slugs_for(trimmed(input))[i],
                ) && trimmed(world.claims[slugs_for(trimmed(input))[i]]) == a.session_id
        },
        trimmed(input).len() > 0 && !world.sessions.contains_key(trimmed(input)) && (forall|i: int|
            0 <= i < slugs_for(trimmed(input)).len() ==> !world.claims.contains_key(
                #[trigger] slugs_for(trimmed(input))[i],
            )) ==> looked_up(world, input) == Err::<AssignmentView, _>(
            ErrorView::NoIdentity { input: trimmed(input) },
        ),
{
    let text = trimmed(input);
    lemma_trimmed_is_trim(input);
    lemma_trim_is_trimmed(text);
    lemma_found_by_name(world, text, slugs_for(text), 0);
    if world.sessions.contains_key(text) {
        assert(settled(world, text));
    }
}

// ---------------------------------------------------------------------------
// Registration
// ---------------------------------------------------------------------------
/// A part of a name in title case is a part in the form in which it is kept.
proof fn lemma_titled_part(text: Seq<char>)
    requires
        is_component(text),
    ensures
        is_part(titled(text)),
{
    lemma_titled_component(text);
    lemma_one_word(titled(text));
    lemma_trim_is_trimmed(titled(text));
}

/// The names that are tried are made of proper parts.
pub proof fn lemma_tried_parts(id: Seq<char>, search: SearchView, attempt: nat)
    requires
        proper_names(search.names),
        search.names.first_names.len() > 0,
        search.names.family_names.len() > 0,
        search.family is Some ==> is_part(search.family->0),
        name_tried(id, search, attempt) is Some,
    ensures
        is_part(name_tried(id, search, attempt)->0.first_name),
        is_part(name_tried(id, search, attempt)->0.family_name),
        name_tried(id, search, attempt)->0.realm == search.realm,
{
    let (first, family) = names_tried(
        id,
        attempt,
        search.names.first_names,
        search.names.family_names,
        search.family,
    );
    lemma_titled_part(first);
    if search.family is Some {
        lemma_part_is_word(family);
    }
    lemma_titled_part(family);
}

/// The name that is found is made of proper parts, and nobody else has it.
proof fn lemma_free_name(world: World, id: Seq<char>, search: SearchView, attempt: nat)
    requires
        proper_names(search.names),
        search.names.first_names.len() > 0,
        search.names.family_names.len() > 0,
        search.family is Some ==> is_part(search.family->0),
        free_name(world, id, search, attempt) is Some,
    ensures
        is_part(free_name(world, id, search, attempt)->0.first_name),
        is_part(free_name(world, id, search, attempt)->0.family_name),
        free_name(world, id, search, attempt)->0.realm == search.realm,
        free_for(world, id, free_name(world, id, search, attempt)->0.slug()),
        search.family is Some ==> free_name(world, id, search, attempt)->0.family_name
            == search.family->0,
    decreases MAX_ATTEMPTS - attempt,
{
    match name_tried(id, search, attempt) {
        Some(name) => {
            lemma_tried_parts(id, search, attempt);
            if free_for(world, id, name.slug()) {
                if search.family is Some {
                    let family = search.family->0;
                    lemma_part_is_word(family);
                    lemma_one_word(family);
                    lemma_trim_is_trimmed(family);
                }
            } else {
                lemma_free_name(world, id, search, attempt + 1);
            }
        },
        None => {
            lemma_free_name(world, id, search, attempt + 1);
        },
    }
}

/// A world in which a session has claimed a free name is consistent.
proof fn lemma_assigned_consistent(world: World, id: Seq<char>, name: FullNameView)
    requires
        consistent(world),
        is_session_id(id),
        !world.sessions.contains_key(id),
        is_part(name.first_name),
        is_part(name.family_name),
        is_part(name.realm),
        free_for(world, id, name.slug()),
    ensures
        consistent(assigned(world, id, name)),
{
    let after = assigned(world, id, name);
    lemma_session_id_accepted(id);
    lemma_one_word(id);
    assert(claim_text(id) =~= id.push('\n')) by {
        reveal_strlit("\n");
    }
    lemma_trimmed_after(id, '\n');
    assert forall|other: Seq<char>| #[trigger] after.sessions.contains_key(other) implies settled(
        after,
        other,
    ) by {
        if other != id {
            assert(world.sessions.contains_key(other));
            assert(settled(world, other));
        }
    }
}

/// Registering a session leaves a consistent world consistent, and a listed one listed.
pub proof fn lemma_registration_is_consistent(
    world: World,
    session: Seq<char>,
    family: Option<Seq<char>>,
    realm: Seq<char>,
    names: NameListsView,
)
    requires
        consistent(world),
        proper_names(names),
    ensures
        consistent(registered(world, session, family, realm, names).0),
        listed(world) ==> listed(registered(world, session, family, realm, names).0),
{
    let (after, result) = registered(world, session, family, realm, names);
    if result is Ok {
        let id = session_id(session)->Ok_0;
        lemma_session_id_stays(session);
        if world.sessions.contains_key(id) {
            assert forall|other: Seq<char>| #[trigger]
                after.sessions.contains_key(other) implies settled(after, other) by {
                assert(world.sessions.contains_key(other));
                assert(settled(world, other));
            }
        } else {
            lemma_new_name(world, session, family, realm, names);
        }
        if listed(world) {
            let record = after.sessions[id];
            let claimed = World { claims: after.claims, ..world };
            assert(after == with_session(claimed, id, record));
            lemma_with_session_listed(claimed, id, record);
        }
    }
}

/// The search with which a session is registered.
pub open spec fn search_for(
    family: Option<Seq<char>>,
    realm: Seq<char>,
    names: NameListsView,
) -> SearchView {
    SearchView {
        family: match family {
            Some(family) => component(family),
            None => None,
        },
        realm: component(realm)->0,
        names,
    }
}

/// A session that is registered for the first time is given a name of proper parts, with
/// the realm and the family name that were asked for.
proof fn lemma_new_name(
    world: World,
    session: Seq<char>,
    family: Option<Seq<char>>,
    realm: Seq<char>,
    names: NameListsView,
)
    requires
        proper_names(names),
        registered(world, session, family, realm, names).1 is Ok,
        !world.sessions.contains_key(session_id(session)->Ok_0),
    ensures
        ({
            let id = session_id(session)->Ok_0;
            let after = registered(world, session, family, realm, names).0;
            let name = free_name(world, id, search_for(family, realm, names), 0)->0;
            &&& is_session_id(id)
            &&& after == assigned(world, id, name)
            &&& is_part(name.first_name)
            &&& is_part(name.family_name)
            &&& is_part(name.realm)
            &&& component(realm) == Some(name.realm)
            &&& family is Some ==> component(family->0) == Some(name.family_name)
            &&& free_for(world, id, name.slug())
            &&& consistent(world) ==> consistent(after)
        }),
{
    let id = session_id(session)->Ok_0;
    let search = search_for(family, realm, names);
    lemma_session_id_stays(session);
    lemma_component_idempotent(realm);
    if family is Some {
        lemma_component_idempotent(family->0);
    }
    lemma_free_name(world, id, search, 0);
    let name = free_name(world, id, search, 0)->0;
    if consistent(world) {
        lemma_assigned_consistent(world, id, name);
    }
}

/// A session that is registered for the first time has the canonical name of its parts,
/// the realm and the family name that were asked for, and is found: by its ID, by its
/// name, and by its slug unless that is the ID of another session.
pub proof fn lemma_registered_is_found(
    world: World,
    session: Seq<char>,
    family: Option<Seq<char>>,
    realm: Seq<char>,
    names: NameListsView,
)
    requires
        proper_names(names),
        registered(world, session, family, realm, names).1 is Ok,
        !world.sessions.contains_key(session_id(session)->Ok_0),
    ensures
        ({
            let (after, result) = registered(world, session, family, realm, names);
            let assignment = result->Ok_0;
            &&& session_id(session) == Ok::<_, ErrorView>(assignment.session_id)
            &&& canonical(record_of(assignment))
            &&& component(realm) == Some(assignment.realm)
            &&& family is Some ==> component(family->0) == Some(assignment.family_name)
            &&& looked_up(after, assignment.session_id) == result
            &&& looked_up(after, assignment.name) == result
            &&& !world.sessions.contains_key(assignment.slug) ==> looked_up(
                after,
                assignment.slug,
            ) == result
        }),
{
    let (after, result) = registered(world, session, family, realm, names);
    let id = session_id(session)->Ok_0;
    lemma_new_name(world, session, family, realm, names);
    // The part of the world that is about this session is consistent on its own.
    let name = free_name(world, id, search_for(family, realm, names), 0)->0;
    let alone = World {
        sessions: Map::empty(),
        claims: world.claims,
        listing: Seq::empty(),
        ..world
    };
    lemma_assigned_consistent(alone, id, name);
    let small = assigned(alone, id, name);
    assert(small.sessions.contains_key(id));
    assert(settled(small, id));
    lemma_sessions_are_found(small, id);
    lemma_same_lookup(small, after, id, id);
    lemma_name_spells_slug(name.first_name, name.family_name, name.realm);
    lemma_name_is_no_session_id(name.first_name, name.family_name, name.realm);
    lemma_same_lookup(small, after, id, result->Ok_0.name);
    if !world.sessions.contains_key(result->Ok_0.slug) {
        lemma_same_lookup(small, after, id, result->Ok_0.slug);
    }
}

/// A lookup that ends at a session does so in a world with more sessions, unless the
/// input is the ID of one of those.
proof fn lemma_same_lookup(small: World, large: World, id: Seq<char>, input: Seq<char>)
    requires
        small.claims == large.claims,
        forall|other: Seq<char>| #[trigger] small.sessions.contains_key(other) <==> other == id,
        large.sessions.contains_key(id),
        large.sessions[id] == small.sessions[id],
        looked_up(small, input) is Ok,
        session_id(trimmed(input)) is Ok && large.sessions.contains_key(trimmed(input))
            ==> trimmed(input) == id,
    ensures
        looked_up(large, input) == looked_up(small, input),
{
    let text = trimmed(input);
    if session_id(text) is Ok {
        lemma_trimmed_is_trim(input);
        lemma_trim_is_trimmed(text);
    }
    lemma_same_found(small, large, id, text, slugs_for(text), 0);
}

/// A name that leads to a session does so in a world with more sessions.
proof fn lemma_same_found(
    small: World,
    large: World,
    id: Seq<char>,
    input: Seq<char>,
    slugs: Seq<Seq<char>>,
    at: nat,
)
    requires
        small.claims == large.claims,
        forall|other: Seq<char>| #[trigger] small.sessions.contains_key(other) <==> other == id,
        large.sessions.contains_key(id),
        large.sessions[id] == small.sessions[id],
    ensures
        found_by_name(small, input, slugs, at) is Ok
            ==> found_by_name(large, input, slugs, at)
            == found_by_name(small, input, slugs, at),
    decreases slugs.len() - at,
{
    if at < slugs.len() {
        lemma_same_found(small, large, id, input, slugs, at + 1);
    }
}

/// A session that is registered again keeps its identity, and is found with it: by its
/// ID where its record is its own, and by its name where it has claimed that too. Only
/// the time of its update is new.
pub proof fn lemma_registered_again(
    world: World,
    session: Seq<char>,
    family: Option<Seq<char>>,
    realm: Seq<char>,
    names: NameListsView,
)
    requires
        session_id(session) is Ok,
        world.sessions.contains_key(session_id(session)->Ok_0),
    ensures
        ({
            let id = session_id(session)->Ok_0;
            let before = assignment_of(world.sessions[id]);
            let (after, result) = registered(world, session, family, realm, names);
            let found = Ok::<_, ErrorView>(
                AssignmentView {
                    updated_at: world.now,
                    state: materialized_state(before.extensions, world.now),
                    ..before
                },
            );
            &&& result == Ok::<_, ErrorView>(AssignmentView { updated_at: world.now, ..before })
            &&& after.claims == world.claims
            &&& before.session_id == id ==> looked_up(after, id) == found
            &&& settled(world, id) ==> settled(after, id) && looked_up(after, before.name) == found
        }),
{
    let id = session_id(session)->Ok_0;
    let (after, result) = registered(world, session, family, realm, names);
    lemma_session_id_stays(session);
    if world.sessions[id].session_id == id {
        lemma_found_by_id(after, id);
    }
    if settled(world, id) {
        lemma_sessions_are_found(after, id);
    }
}

/// Registering a session leaves the records of the others and the claims that there are
/// as they were, and adds at most one claim; where it is refused, it changes nothing.
pub proof fn lemma_registration_spares_others(
    world: World,
    session: Seq<char>,
    family: Option<Seq<char>>,
    realm: Seq<char>,
    names: NameListsView,
    other: Seq<char>,
)
    ensures
        ({
            let (after, result) = registered(world, session, family, realm, names);
            &&& result is Err ==> after == world
            &&& session_id(session) != Ok::<_, ErrorView>(other) ==> {
                &&& after.sessions.contains_key(other) == world.sessions.contains_key(other)
                &&& world.sessions.contains_key(other) ==> after.sessions[other]
                    == world.sessions[other]
            }
            &&& world.claims.contains_key(other) ==> after.claims.contains_key(other)
                && after.claims[other] == world.claims[other]
            &&& after.claims.contains_key(other) && !world.claims.contains_key(other) ==> result
                is Ok && other == result->Ok_0.slug
            &&& after.realm == world.realm
        }),
{
}

// ---------------------------------------------------------------------------
// Annotation
// ---------------------------------------------------------------------------
/// An update leaves the identity of an assignment, and the summary and working directory
/// that it does not mention, as they were; a summary that it sets is dated.
pub proof fn lemma_annotation_keeps_identity(
    assignment: AssignmentView,
    update: UpdateView,
    now: Timestamp,
)
    ensures
        ({
            let after = annotated(assignment, update, now);
            &&& after.version == assignment.version
            &&& after.session_id == assignment.session_id
            &&& after.name == assignment.name
            &&& after.slug == assignment.slug
            &&& after.first_name == assignment.first_name
            &&& after.family_name == assignment.family_name
            &&& after.realm == assignment.realm
            &&& after.created_at == assignment.created_at
            &&& after.updated_at == now
            &&& update.summary is None && !update.clear_summary ==> after.summary
                == assignment.summary
            &&& update.summary is Some ==> after.summary == Some(
                SummaryView { text: update.summary->0, updated_at: now },
            )
            &&& update.cwd is None && !update.clear_cwd ==> after.cwd == assignment.cwd
        }),
{
}

/// An update sets the extensions that it mentions, clears those that it is to clear, and
/// leaves the others as they were. The extension that tells the activity counts as
/// mentioned where the update sets or clears an activity.
pub proof fn lemma_annotation_of_extensions(
    extensions: Map<Seq<char>, ExtensionView>,
    update: UpdateView,
    now: Timestamp,
    owner: Seq<char>,
)
    ensures
        ({
            let after = extensions_updated(extensions, update, now);
            let mentioned = update.extensions.contains_key(owner);
            let cleared = update.clear_extensions.contains(owner);
            let aside = owner != OMP_EXTENSION_OWNER@;
            let quiet = update.state is None && !update.clear_state;
            &&& aside && mentioned && !cleared ==> after.contains_key(owner) && after[owner] == (
            ExtensionView { data: update.extensions[owner], updated_at: now })
            &&& aside && cleared ==> !after.contains_key(owner)
            &&& (aside || quiet) && !mentioned && !cleared ==> {
                &&& after.contains_key(owner) == extensions.contains_key(owner)
                &&& extensions.contains_key(owner) ==> after[owner] == extensions[owner]
            }
        }),
{
    let set = extensions_set(extensions, update.extensions, now);
    let changed = set.remove_keys(update.clear_extensions);
    let stated = match update.state {
        Some(value) => with_state(changed, value, now),
        None => if update.clear_state {
            without_state(changed, now)
        } else {
            changed
        },
    };
    if owner != OMP_EXTENSION_OWNER@ {
        assert(stated.contains_key(owner) == changed.contains_key(owner));
    }
}

/// An update that clears the activity leaves none: it is unknown since then.
pub proof fn lemma_annotation_clears_state(
    assignment: AssignmentView,
    update: UpdateView,
    now: Timestamp,
)
    requires
        update.state is None,
        update.clear_state,
    ensures
        annotated(assignment, update, now).state == ActivityState::nothing_known(now),
{
    let changed = extensions_set(assignment.extensions, update.extensions, now).remove_keys(
        update.clear_extensions,
    );
    let stated = without_state(changed, now);
    assert(state_field(stated) is None) by {
        if changed.contains_key(OMP_EXTENSION_OWNER@) && changed[OMP_EXTENSION_OWNER@].data
            is Object {
            assert(!stated[OMP_EXTENSION_OWNER@].data.fields().contains_key(OMP_STATE_KEY@));
        }
    }
}

/// The activity of a record is the one that its extension tells, and is unknown, since
/// the record was updated, where the extension tells none.
pub proof fn lemma_activity_is_told(record: RecordView)
    ensures
        omp_state(record.extensions) matches Some(state) ==> assignment_of(record).state == state,
        omp_state(record.extensions) is None ==> assignment_of(record).state
            == ActivityState::nothing_known(record.updated_at),
{
}

/// What is written of an annotated assignment is read back as it is.
pub proof fn lemma_annotation_reads_back(
    assignment: AssignmentView,
    update: UpdateView,
    now: Timestamp,
)
    ensures
        assignment_of(record_of(annotated(assignment, update, now))) == annotated(
            assignment,
            update,
            now,
        ),
{
}

/// An identity that is annotated is found with its annotations by its session, and, where
/// the session has claimed its name, by its name and its slug, as before; a consistent
/// world stays consistent.
pub proof fn lemma_annotated_is_found(world: World, session: Seq<char>, update: UpdateView)
    requires
        noted_down(world, session, update).1 is Ok,
    ensures
        ({
            let (after, result) = noted_down(world, session, update);
            let assignment = result->Ok_0;
            &&& consistent(world) ==> consistent(after)
            &&& listed(world) ==> listed(after)
            &&& session_id(session) == Ok::<_, ErrorView>(assignment.session_id)
            &&& looked_up(after, assignment.session_id) == result
            &&& settled(world, assignment.session_id) ==> {
                &&& settled(after, assignment.session_id)
                &&& looked_up(after, assignment.name) == result
                &&& !world.sessions.contains_key(assignment.slug) || assignment.slug
                    == assignment.session_id ==> looked_up(after, assignment.slug) == result
            }
        }),
{
    let (after, result) = noted_down(world, session, update);
    let id = session_id(session)->Ok_0;
    lemma_session_id_stays(session);
    lemma_found_by_id(after, id);
    if settled(world, id) {
        lemma_sessions_are_found(after, id);
    }
    if consistent(world) {
        assert forall|other: Seq<char>| #[trigger]
            after.sessions.contains_key(other) implies settled(after, other) by {
            assert(world.sessions.contains_key(other));
            assert(settled(world, other));
        }
    }
}

/// Annotating an identity leaves the other records and all claims as they were; where it
/// is refused, it changes nothing.
pub proof fn lemma_annotation_spares_others(
    world: World,
    session: Seq<char>,
    update: UpdateView,
    other: Seq<char>,
)
    ensures
        ({
            let (after, result) = noted_down(world, session, update);
            &&& result is Err ==> after == world
            &&& after.claims == world.claims
            &&& after.sessions.contains_key(other) == world.sessions.contains_key(other)
            &&& world.sessions.contains_key(other) && session_id(session) != Ok::<_, ErrorView>(
                other,
            ) ==> after.sessions[other] == world.sessions[other]
        }),
{
}

// ---------------------------------------------------------------------------
// Discovery
// ---------------------------------------------------------------------------
/// The assignments of all sessions are those of the sessions, each once.
proof fn lemma_all_assignments(world: World)
    requires
        consistent(world),
        listed(world),
    ensures
        all_assignments(world).no_duplicates(),
        forall|a: AssignmentView| #[trigger]
            all_assignments(world).contains(a) <==> world.sessions.contains_key(a.session_id) && a
                == assignment_of(world.sessions[a.session_id]),
{
    let all = all_assignments(world);
    assert forall|i: int| 0 <= i < all.len() implies (#[trigger] all[i]).session_id
        == world.listing[i] && all[i] == assignment_of(world.sessions[world.listing[i]]) by {
        assert(world.listing.contains(world.listing[i]));
        assert(settled(world, world.listing[i]));
    }
    assert forall|a: AssignmentView| #[trigger]
        all.contains(a) <==> world.sessions.contains_key(a.session_id) && a == assignment_of(
            world.sessions[a.session_id],
        ) by {
        if all.contains(a) {
            let i = all.index_of(a);
            assert(world.listing.contains(world.listing[i]));
        }
        if world.sessions.contains_key(a.session_id) && a == assignment_of(
            world.sessions[a.session_id],
        ) {
            assert(world.listing.contains(a.session_id));
            let i = world.listing.index_of(a.session_id);
            assert(all[i] == a);
        }
    }
}

/// The order of discovery is one.
proof fn lemma_newer_is_order()
    ensures
        is_order(|a: AssignmentView, b: AssignmentView| newer(a, b)),
{
}

/// A discovery finds the assignments of the realm that is asked for, if one is, that were
/// not updated before the cutoff, if there is one: all of them, and nothing else, each as
/// often as it is listed, those updated last first. In a consistent registry these are
/// the assignments of the sessions, each once.
pub proof fn lemma_discovery_is_exact(
    world: World,
    realm: Option<Seq<char>>,
    cutoff: Option<Timestamp>,
)
    ensures
        ({
            let all = all_assignments(world);
            let found = discovered(all, realm, cutoff);
            &&& found.to_multiset() == all.filter(
                |a: AssignmentView| sought(a, realm, cutoff),
            ).to_multiset()
            &&& forall|a: AssignmentView| #[trigger]
                found.contains(a) <==> all.contains(a) && sought(a, realm, cutoff)
            &&& consistent(world) && listed(world) ==> {
                &&& forall|a: AssignmentView| #[trigger]
                    found.contains(a) <==> {
                        &&& world.sessions.contains_key(a.session_id)
                        &&& a == assignment_of(world.sessions[a.session_id])
                        &&& realm is Some ==> a.realm == realm->0
                        &&& cutoff is Some ==> !a.updated_at.before(cutoff->0)
                    }
                &&& found.no_duplicates()
            }
            &&& forall|i: int, j: int|
                0 <= i < j < found.len() ==> !(#[trigger] found[i]).updated_at.before(
                    (#[trigger] found[j]).updated_at,
                )
        }),
{
    let all = all_assignments(world);
    let wanted = |a: AssignmentView| sought(a, realm, cutoff);
    let order = |a: AssignmentView, b: AssignmentView| newer(a, b);
    if consistent(world) && listed(world) {
        lemma_all_assignments(world);
    }
    lemma_kept(all, wanted);
    lemma_sorted_multiset(all.filter(wanted), order);
    lemma_sorted_same(all.filter(wanted), order);
    lemma_newer_is_order();
    lemma_sorted_in_order(all.filter(wanted), order);
    let found = discovered(all, realm, cutoff);
    assert forall|i: int, j: int| 0 <= i < j < found.len() implies !(
    #[trigger] found[i]).updated_at.before((#[trigger] found[j]).updated_at) by {
        assert(!order(found[j], found[i]));
    }
}

/// What is shown of some records: no more than the limit, where there is one, the first
/// of those that are to be shown, and no stopped one unless all are asked for.
pub proof fn lemma_shown_records(records: Seq<DiscoveredView>, all: bool, limit: nat)
    ensures
        ({
            let shown = records_shown(records, all, limit);
            &&& limit > 0 ==> shown.len() <= limit
            &&& forall|i: int|
                0 <= i < shown.len() ==> records.contains(#[trigger] shown[i]) && (all
                    || shown[i].assignment.state.value != ActivityStateValue::Stopped)
            &&& limit == 0 ==> forall|record: DiscoveredView|
                records.contains(record) && (all || record.assignment.state.value
                    != ActivityStateValue::Stopped) ==> #[trigger] shown.contains(record)
        }),
{
    let alive = |record: DiscoveredView| lively(record);
    let shown = records_shown(records, all, limit);
    lemma_kept(records, alive);
    assert forall|i: int| 0 <= i < shown.len() implies records.contains(#[trigger] shown[i]) && (
    all || shown[i].assignment.state.value != ActivityStateValue::Stopped) by {
        if all {
            assert(shown[i] == records[i]);
        } else {
            assert(shown[i] == records.filter(alive)[i]);
            assert(records.filter(alive).contains(shown[i]));
        }
    }
}

// ---------------------------------------------------------------------------
// Pruning
// ---------------------------------------------------------------------------
/// How a pruning goes on.
pub open spec fn pruning_resume() -> spec_fn(PruningView, ReplyView) -> StepView<
    PruningView,
    ReportView,
> {
    |task: PruningView, reply: ReplyView| pruning_resumed(task, reply)
}

/// A world without a session and the claim of its name.
pub open spec fn forgotten(world: World, assignment: AssignmentView) -> World {
    World {
        claims: world.claims.remove(assignment.slug),
        ..without_session(world, assignment.session_id)
    }
}

/// A world without the first of some sessions and the claims of their names.
pub open spec fn all_forgotten(world: World, candidates: Seq<AssignmentView>, n: nat) -> World
    decreases n,
{
    if n == 0 {
        world
    } else {
        forgotten(
            all_forgotten(world, candidates, (n - 1) as nat),
            candidates[n - 1],
        )
    }
}

/// The identities that some candidates become, when their claims are removed too.
pub open spec fn all_pruned(candidates: Seq<AssignmentView>) -> Seq<PrunedView> {
    candidates.map_values(
        |a: AssignmentView|
            PrunedView {
                session_id: a.session_id,
                name: a.name,
                slug: a.slug,
                updated_at: a.updated_at,
                claim_removed: true,
            },
    )
}

/// What a pruning comes to.
pub open spec fn pruned(world: World, cutoff: Timestamp, dry_run: bool) -> (World, ReportView) {
    let candidates = expired(all_assignments(world), cutoff);
    let report = ReportView {
        cutoff,
        dry_run,
        candidates,
        removed: if dry_run {
            Seq::empty()
        } else {
            all_pruned(candidates)
        },
        errors: Seq::empty(),
    };
    (
        if dry_run {
            world
        } else {
            all_forgotten(world, candidates, candidates.len())
        },
        report,
    )
}

/// The sessions that expired are those updated before the cutoff, each once, those
/// updated first first.
proof fn lemma_expired(world: World, cutoff: Timestamp)
    requires
        consistent(world),
        listed(world),
    ensures
        ({
            let found = expired(all_assignments(world), cutoff);
            &&& forall|a: AssignmentView| #[trigger]
                found.contains(a) <==> {
                    &&& world.sessions.contains_key(a.session_id)
                    &&& a == assignment_of(world.sessions[a.session_id])
                    &&& a.updated_at.before(cutoff)
                }
            &&& forall|i: int, j: int|
                0 <= i < found.len() && 0 <= j < found.len() && i != j ==> (
                #[trigger] found[i]).session_id != (#[trigger] found[j]).session_id
                    && found[i].slug != found[j].slug
        }),
{
    let all = all_assignments(world);
    let late = |a: AssignmentView| a.updated_at.before(cutoff);
    let order = |a: AssignmentView, b: AssignmentView| older(a, b);
    lemma_all_assignments(world);
    lemma_kept(all, late);
    lemma_sorted_same(all.filter(late), order);
    let found = expired(all, cutoff);
    assert forall|i: int, j: int|
        0 <= i < found.len() && 0 <= j < found.len() && i != j implies (
    #[trigger] found[i]).session_id != (#[trigger] found[j]).session_id && found[i].slug
        != found[j].slug by {
        assert(found.contains(found[i]));
        assert(found.contains(found[j]));
        if found[i].slug == found[j].slug {
            assert(settled(world, found[i].session_id));
            assert(settled(world, found[j].session_id));
            lemma_names_are_unique(world, found[i].session_id, found[j].session_id);
        }
    }
}

/// What is left when the first of some sessions are gone.
pub proof fn lemma_all_forgotten(world: World, candidates: Seq<AssignmentView>, n: nat)
    requires
        n <= candidates.len(),
    ensures
        ({
            let after = all_forgotten(world, candidates, n);
            &&& forall|id: Seq<char>| #[trigger]
                after.sessions.contains_key(id) <==> world.sessions.contains_key(id) && forall|
                    j: int,
                |
                    0 <= j < n ==> (#[trigger] candidates[j]).session_id != id
            &&& forall|id: Seq<char>| #[trigger]
                after.sessions.contains_key(id) ==> after.sessions[id] == world.sessions[id]
            &&& forall|slug: Seq<char>| #[trigger]
                after.claims.contains_key(slug) <==> world.claims.contains_key(slug) && forall|
                    j: int,
                |
                    0 <= j < n ==> (#[trigger] candidates[j]).slug != slug
            &&& forall|slug: Seq<char>| #[trigger]
                after.claims.contains_key(slug) ==> after.claims[slug] == world.claims[slug]
            &&& listed(world) ==> listed(after)
            &&& after.now == world.now
            &&& after.realm == world.realm
        }),
    decreases n,
{
    if n > 0 {
        let m = (n - 1) as nat;
        let before = all_forgotten(world, candidates, m);
        let after = all_forgotten(world, candidates, n);
        lemma_all_forgotten(world, candidates, m);
        let gone = candidates[m as int];
        assert forall|id: Seq<char>| #[trigger]
            after.sessions.contains_key(id) <==> world.sessions.contains_key(id) && forall|j: int|
                0 <= j < n ==> (#[trigger] candidates[j]).session_id != id by {
            if after.sessions.contains_key(id) {
                assert(before.sessions.contains_key(id));
            }
            if world.sessions.contains_key(id) && forall|j: int|
                0 <= j < n ==> (#[trigger] candidates[j]).session_id != id {
                assert(before.sessions.contains_key(id));
                assert(candidates[m as int].session_id != id);
            }
        }
        assert forall|id: Seq<char>| #[trigger] after.sessions.contains_key(id) implies after.sessions[id]
            == world.sessions[id] by {
            assert(before.sessions.contains_key(id));
        }
        assert forall|slug: Seq<char>| #[trigger]
            after.claims.contains_key(slug) <==> world.claims.contains_key(slug) && forall|j: int|
                0 <= j < n ==> (#[trigger] candidates[j]).slug != slug by {
            if after.claims.contains_key(slug) {
                assert(before.claims.contains_key(slug));
            }
            if world.claims.contains_key(slug) && forall|j: int|
                0 <= j < n ==> (#[trigger] candidates[j]).slug != slug {
                assert(before.claims.contains_key(slug));
                assert(candidates[m as int].slug != slug);
            }
        }
        assert forall|slug: Seq<char>| #[trigger] after.claims.contains_key(slug) implies after.claims[slug]
            == world.claims[slug] by {
            assert(before.claims.contains_key(slug));
        }
        if listed(world) {
            lemma_without_session_listed(before, gone.session_id);
        }
    }
}

/// A listing without a session lists the others.
proof fn lemma_without_session_listed(world: World, id: Seq<char>)
    requires
        listed(world),
    ensures
        listed(without_session(world, id)),
{
    let after = without_session(world, id);
    lemma_kept(world.listing, other_than(id));
    assert forall|other: Seq<char>| #[trigger]
        after.listing.contains(other) <==> after.sessions.contains_key(other) by {
        assert(world.listing.contains(other) <==> world.sessions.contains_key(other));
    }
}

/// The removal of the candidates comes to a world without them.
proof fn lemma_removal(
    world: World,
    registry: PlaceView,
    cutoff: Timestamp,
    candidates: Seq<AssignmentView>,
    at: nat,
)
    requires
        consistent(world),
        listed(world),
        candidates == expired(all_assignments(world), cutoff),
        at <= candidates.len(),
    ensures
        comes_to(
            removal_continued(
                registry,
                ReportView {
                    cutoff,
                    dry_run: false,
                    candidates,
                    removed: all_pruned(candidates).take(at as int),
                    errors: Seq::empty(),
                },
                at as int,
            ),
            pruning_resume(),
            all_forgotten(world, candidates, at),
            (
                all_forgotten(world, candidates, candidates.len()),
                Ok(pruned(world, cutoff, false).1),
            ),
        ),
    decreases candidates.len() - at,
{
    let resume = pruning_resume();
    let report = ReportView {
        cutoff,
        dry_run: false,
        candidates,
        removed: all_pruned(candidates).take(at as int),
        errors: Seq::empty(),
    };
    let w0 = all_forgotten(world, candidates, at);
    let s0 = removal_continued(registry, report, at as int);
    let outcome = (
        all_forgotten(world, candidates, candidates.len()),
        Ok::<_, ErrorView>(pruned(world, cutoff, false).1),
    );
    if at == candidates.len() {
        assert(all_pruned(candidates).take(at as int) =~= all_pruned(candidates));
        lemma_over(s0, resume, w0);
    } else {
        let assignment = candidates[at as int];
        let id = assignment.session_id;
        lemma_expired(world, cutoff);
        lemma_all_forgotten(world, candidates, at);
        assert(candidates.contains(assignment));
        assert(settled(world, id));
        assert(w0.sessions.contains_key(id));
        assert(w0.claims.contains_key(assignment.slug));
        assert(trimmed(w0.claims[assignment.slug]) == id);
        let (w1, r1) = performed(w0, s0->request);
        let s1 = resume(s0->then, r1);
        let (w2, r2) = performed(w1, s1->request);
        let s2 = resume(s1->then, r2);
        let (w3, r3) = performed(w2, s2->request);
        let s3 = resume(s2->then, r3);
        assert(w3 == all_forgotten(world, candidates, at + 1));
        assert(with_removed(report, at as int, true).removed =~= all_pruned(candidates).take(
            at as int + 1,
        ));
        lemma_removal(world, registry, cutoff, candidates, at + 1);
        lemma_ask(s2, resume, w2, outcome);
        lemma_ask(s1, resume, w1, outcome);
        lemma_ask(s0, resume, w0, outcome);
    }
}

/// A pruning of a consistent world comes to what `pruned` says.
pub proof fn lemma_pruning(world: World, registry: PlaceView, cutoff: Timestamp, dry_run: bool)
    requires
        consistent(world),
        listed(world),
    ensures
        comes_to(
            pruning_begun(registry, cutoff, dry_run),
            pruning_resume(),
            world,
            (pruned(world, cutoff, dry_run).0, Ok(pruned(world, cutoff, dry_run).1)),
        ),
{
    let resume = pruning_resume();
    let s0 = pruning_begun(registry, cutoff, dry_run);
    let candidates = expired(all_assignments(world), cutoff);
    let outcome = (
        pruned(world, cutoff, dry_run).0,
        Ok::<_, ErrorView>(pruned(world, cutoff, dry_run).1),
    );
    let (w1, r1) = performed(world, s0->request);
    let s1 = resume(s0->then, r1);
    if dry_run {
        lemma_over(s1, resume, world);
    } else {
        assert(all_pruned(candidates).take(0) =~= Seq::empty());
        lemma_removal(world, registry, cutoff, candidates, 0);
    }
    lemma_ask(s0, resume, world, outcome);
}

/// A dry run changes nothing, and names the sessions that a pruning removes.
pub proof fn lemma_dry_run(world: World, cutoff: Timestamp)
    ensures
        pruned(world, cutoff, true).0 == world,
        pruned(world, cutoff, true).1.candidates == pruned(world, cutoff, false).1.candidates,
        pruned(world, cutoff, true).1.removed.len() == 0,
{
}

/// A pruning removes the sessions that were updated before the cutoff, with the claims
/// of their names, and leaves all others as they were.
pub proof fn lemma_pruning_is_exact(world: World, cutoff: Timestamp)
    requires
        consistent(world),
        listed(world),
    ensures
        ({
            let (after, report) = pruned(world, cutoff, false);
            &&& consistent(after)
            &&& listed(after)
            &&& forall|id: Seq<char>| #[trigger]
                after.sessions.contains_key(id) <==> world.sessions.contains_key(id)
                    && !world.sessions[id].updated_at.before(cutoff)
            &&& forall|id: Seq<char>| #[trigger]
                after.sessions.contains_key(id) ==> after.sessions[id] == world.sessions[id]
            &&& forall|slug: Seq<char>| #[trigger]
                after.claims.contains_key(slug) ==> world.claims.contains_key(slug)
                    && after.claims[slug] == world.claims[slug]
            &&& forall|id: Seq<char>|
                world.sessions.contains_key(id) ==> (after.claims.contains_key(
                    (#[trigger] world.sessions[id]).slug,
                ) <==> !world.sessions[id].updated_at.before(cutoff))
            &&& report.removed.len() == report.candidates.len()
            &&& report.errors.len() == 0
            &&& forall|a: AssignmentView| #[trigger]
                report.candidates.contains(a) <==> {
                    &&& world.sessions.contains_key(a.session_id)
                    &&& a == assignment_of(world.sessions[a.session_id])
                    &&& a.updated_at.before(cutoff)
                }
        }),
{
    let (after, report) = pruned(world, cutoff, false);
    let candidates = report.candidates;
    lemma_expired(world, cutoff);
    lemma_all_forgotten(world, candidates, candidates.len());
    assert forall|id: Seq<char>| #[trigger]
        after.sessions.contains_key(id) <==> world.sessions.contains_key(id)
            && !world.sessions[id].updated_at.before(cutoff) by {
        if world.sessions.contains_key(id) {
            assert(settled(world, id));
            let assignment = assignment_of(world.sessions[id]);
            if assignment.updated_at.before(cutoff) {
                assert(candidates.contains(assignment));
                let j = candidates.index_of(assignment);
                assert(candidates[j].session_id == id);
            } else {
                assert forall|j: int| 0 <= j < candidates.len() implies (
                #[trigger] candidates[j]).session_id != id by {
                    assert(candidates.contains(candidates[j]));
                }
            }
        }
    }
    assert forall|id: Seq<char>| world.sessions.contains_key(id) implies (
    after.claims.contains_key((#[trigger] world.sessions[id]).slug)
        <==> !world.sessions[id].updated_at.before(cutoff)) by {
        assert(settled(world, id));
        let assignment = assignment_of(world.sessions[id]);
        if assignment.updated_at.before(cutoff) {
            assert(candidates.contains(assignment));
            let j = candidates.index_of(assignment);
            assert(candidates[j].slug == assignment.slug);
        } else {
            assert forall|j: int| 0 <= j < candidates.len() implies (
            #[trigger] candidates[j]).slug != assignment.slug by {
                assert(candidates.contains(candidates[j]));
                if candidates[j].slug == assignment.slug {
                    assert(settled(world, candidates[j].session_id));
                    lemma_names_are_unique(world, candidates[j].session_id, id);
                }
            }
        }
    }
    assert forall|id: Seq<char>| #[trigger] after.sessions.contains_key(id) implies settled(
        after,
        id,
    ) by {
        assert(world.sessions.contains_key(id));
        assert(settled(world, id));
    }
}

/// The name of a session that was pruned is found no more.
pub proof fn lemma_pruned_is_gone(world: World, cutoff: Timestamp, id: Seq<char>)
    requires
        consistent(world),
        listed(world),
        world.sessions.contains_key(id),
        world.sessions[id].updated_at.before(cutoff),
    ensures
        looked_up(pruned(world, cutoff, false).0, world.sessions[id].name) == Err::<
            AssignmentView,
            _,
        >(ErrorView::NoIdentity { input: world.sessions[id].name }),
{
    let after = pruned(world, cutoff, false).0;
    let record = world.sessions[id];
    assert(settled(world, id));
    lemma_pruning_is_exact(world, cutoff);
    lemma_name_spells_slug(record.first_name, record.family_name, record.realm);
    lemma_name_is_no_session_id(record.first_name, record.family_name, record.realm);
    assert(!after.claims.contains_key(record.slug));
    assert(slugs_for(record.name)[0] == record.slug);
    assert(found_by_name(after, record.name, slugs_for(record.name), 1) == Err::<
        AssignmentView,
        _,
    >(ErrorView::NoIdentity { input: record.name }));
}

// ---------------------------------------------------------------------------
// Pruning with faults
// ---------------------------------------------------------------------------
/// Where a pruning is after some replies of a host, whatever they are.
pub open spec fn answered(step: PruningStepView, replies: Seq<ReplyView>) -> PruningStepView
    decreases replies.len(),
{
    match step {
        StepView::Ask { then, .. } if replies.len() > 0 => answered(
            pruning_resumed(then, replies.first()),
            replies.drop_first(),
        ),
        _ => step,
    }
}

/// The sessions whose records are removed meanwhile, in turn: those whose removal is
/// answered with that it was performed.
pub open spec fn records_removed(step: PruningStepView, replies: Seq<ReplyView>) -> Seq<Seq<char>>
    decreases replies.len(),
{
    match step {
        StepView::Ask { request, then } if replies.len() > 0 => {
            let removed = match (request, replies.first()) {
                (RequestView::RemoveSession { session_id, .. }, ReplyView::Performed) => seq![
                    session_id,
                ],
                _ => Seq::empty(),
            };
            removed + records_removed(
                pruning_resumed(then, replies.first()),
                replies.drop_first(),
            )
        },
        _ => Seq::empty(),
    }
}

/// The slugs whose claims are removed meanwhile, in turn.
pub open spec fn claims_removed(step: PruningStepView, replies: Seq<ReplyView>) -> Seq<Seq<char>>
    decreases replies.len(),
{
    match step {
        StepView::Ask { request, then } if replies.len() > 0 => {
            let removed = match (request, replies.first()) {
                (RequestView::RemoveClaim { slug, .. }, ReplyView::Performed) => seq![slug],
                _ => Seq::empty(),
            };
            removed + claims_removed(
                pruning_resumed(then, replies.first()),
                replies.drop_first(),
            )
        },
        _ => Seq::empty(),
    }
}

/// The sessions of some identities that were removed.
pub open spec fn removed_sessions(removed: Seq<PrunedView>) -> Seq<Seq<char>> {
    removed.map_values(|identity: PrunedView| identity.session_id)
}

/// The slugs of the identities whose claims were removed too.
pub open spec fn removed_claims(removed: Seq<PrunedView>) -> Seq<Seq<char>>
    decreases removed.len(),
{
    if removed.len() == 0 {
        Seq::empty()
    } else if removed.last().claim_removed {
        removed_claims(removed.drop_last()).push(removed.last().slug)
    } else {
        removed_claims(removed.drop_last())
    }
}

/// Whether an identity that was removed is that of an assignment.
pub open spec fn removal_of(identity: PrunedView, assignment: AssignmentView) -> bool {
    &&& identity.session_id == assignment.session_id
    &&& identity.name == assignment.name
    &&& identity.slug == assignment.slug
    &&& identity.updated_at == assignment.updated_at
}

/// Whether some identities are those of some of the first candidates, in their order,
/// each candidate's at most once.
pub open spec fn removed_in_turn(
    removed: Seq<PrunedView>,
    candidates: Seq<AssignmentView>,
    n: nat,
) -> bool
    decreases n,
{
    if n == 0 {
        removed.len() == 0
    } else {
        ||| removed_in_turn(removed, candidates, (n - 1) as nat)
        ||| removed.len() > 0 && removal_of(removed.last(), candidates[n - 1]) && removed_in_turn(
            removed.drop_last(),
            candidates,
            (n - 1) as nat,
        )
    }
}

/// Whether a pruning is at one of the candidates, with some report.
spec fn at_candidate(
    step: PruningStepView,
    registry: PlaceView,
    report: ReportView,
    at: int,
) -> bool {
    &&& 0 <= at <= report.candidates.len()
    &&& step == removal_continued(registry, report, at) || {
        &&& at < report.candidates.len()
        &&& step matches StepView::Ask { request, then }
        &&& then.report == report
        &&& then.registry == registry
        &&& {
            ||| request is ReadClaim && then.stage == (PruningStageView::Reading { at: at as nat })
            ||| request matches RequestView::RemoveClaim { slug, .. } && slug
                == report.candidates[at].slug && then.stage == (PruningStageView::Unclaiming {
                at: at as nat,
            })
        }
    }
}

/// The session of the candidate at which a pruning is, where its record is removed and it
/// is not reported yet.
spec fn unreported(step: PruningStepView) -> Seq<Seq<char>> {
    match step {
        StepView::Ask { then, .. } => match then.stage {
            PruningStageView::Reading { at } | PruningStageView::Unclaiming { at } => seq![
                then.report.candidates[at as int].session_id,
            ],
            _ => Seq::empty(),
        },
        StepView::Over { .. } => Seq::empty(),
    }
}

/// One more identity that was removed.
proof fn lemma_with_removed(report: ReportView, at: int, claim_removed: bool)
    requires
        0 <= at < report.candidates.len(),
    ensures
        ({
            let after = with_removed(report, at, claim_removed);
            let assignment = report.candidates[at];
            &&& removed_sessions(after.removed) == removed_sessions(report.removed).push(
                assignment.session_id,
            )
            &&& removed_claims(after.removed) == if claim_removed {
                removed_claims(report.removed).push(assignment.slug)
            } else {
                removed_claims(report.removed)
            }
            &&& removed_in_turn(report.removed, report.candidates, at as nat) ==> removed_in_turn(
                after.removed,
                report.candidates,
                (at + 1) as nat,
            )
        }),
{
    let after = with_removed(report, at, claim_removed);
    assert(after.removed.drop_last() =~= report.removed);
    assert(removed_sessions(after.removed) =~= removed_sessions(report.removed).push(
        report.candidates[at].session_id,
    ));
}

/// What a pruning that is at one of the candidates reports in the end.
proof fn lemma_answered(
    step: PruningStepView,
    replies: Seq<ReplyView>,
    registry: PlaceView,
    report: ReportView,
    at: int,
)
    requires
        at_candidate(step, registry, report, at),
        removed_in_turn(report.removed, report.candidates, at as nat),
        at <= report.removed.len() + report.errors.len(),
        answered(step, replies) matches StepView::Over { result } && result is Ok,
    ensures
        ({
            let end = answered(step, replies)->Over_result->Ok_0;
            &&& end.candidates == report.candidates
            &&& removed_sessions(end.removed) == removed_sessions(report.removed) + unreported(step)
                + records_removed(step, replies)
            &&& removed_claims(end.removed) == removed_claims(report.removed) + claims_removed(
                step,
                replies,
            )
            &&& removed_in_turn(end.removed, end.candidates, end.candidates.len())
            &&& end.candidates.len() <= end.removed.len() + end.errors.len()
        }),
    decreases replies.len(),
{
    if step is Ask {
        let reply = replies.first();
        let rest = replies.drop_first();
        let next = pruning_resumed(step->then, reply);
        let stage = step->then.stage;
        if let PruningStageView::Removing { .. } = stage {
            if let ReplyView::Failed { path, error } = reply {
                let noted = with_error(report, error_at("remove "@, path, error));
                lemma_answered(next, rest, registry, noted, at + 1);
            } else {
                lemma_answered(next, rest, registry, report, at);
            }
        } else {
            lemma_with_removed(report, at, stage is Unclaiming && reply is Performed);
            match (stage, reply) {
                (PruningStageView::Reading { .. }, ReplyView::Contents { path, text }) => {
                    if trimmed(text) == report.candidates[at].session_id {
                        lemma_answered(next, rest, registry, report, at);
                    } else {
                        let noted = with_error(
                            report,
                            foreign_claim(path, trimmed(text), report.candidates[at].session_id),
                        );
                        lemma_with_removed(noted, at, false);
                        lemma_answered(next, rest, registry, with_removed(noted, at, false), at + 1);
                    }
                },
                (PruningStageView::Reading { .. }, ReplyView::Failed { path, error }) => {
                    let noted = with_error(report, error_at("read name claim "@, path, error));
                    lemma_with_removed(noted, at, false);
                    lemma_answered(next, rest, registry, with_removed(noted, at, false), at + 1);
                },
                (PruningStageView::Unclaiming { .. }, ReplyView::Failed { path, error }) => {
                    let noted = with_error(report, error_at("remove name claim "@, path, error));
                    lemma_with_removed(noted, at, false);
                    lemma_answered(next, rest, registry, with_removed(noted, at, false), at + 1);
                },
                _ => {
                    let claim_removed = stage is Unclaiming;
                    lemma_answered(
                        next,
                        rest,
                        registry,
                        with_removed(report, at, claim_removed),
                        at + 1,
                    );
                },
            }
        }
        let end = answered(step, replies)->Over_result->Ok_0;
        assert(removed_sessions(end.removed) =~= removed_sessions(report.removed) + unreported(step)
            + records_removed(step, replies));
        assert(removed_claims(end.removed) =~= removed_claims(report.removed) + claims_removed(
            step,
            replies,
        ));
    } else {
        assert(removed_sessions(report.removed) + unreported(step) + records_removed(step, replies)
            =~= removed_sessions(report.removed));
        assert(removed_claims(report.removed) + claims_removed(step, replies) =~= removed_claims(
            report.removed,
        ));
    }
}

/// Whatever a host replies, the identities that a pruning reports as removed are those of
/// the candidates whose records were removed, in their order, and a claim is reported as
/// removed if and only if it was. There is an error for each candidate that is left. A dry
/// run removes nothing.
pub proof fn lemma_removed_is_reported(
    registry: PlaceView,
    cutoff: Timestamp,
    dry_run: bool,
    replies: Seq<ReplyView>,
)
    requires
        answered(pruning_begun(registry, cutoff, dry_run), replies) matches StepView::Over {
            result,
        } && result is Ok,
    ensures
        ({
            let begun = pruning_begun(registry, cutoff, dry_run);
            let report = answered(begun, replies)->Over_result->Ok_0;
            &&& report.candidates == match replies.first() {
                ReplyView::Sessions { records } => expired(assignments_of(records), cutoff),
                _ => Seq::empty(),
            }
            &&& removed_sessions(report.removed) == records_removed(begun, replies)
            &&& removed_claims(report.removed) == claims_removed(begun, replies)
            &&& removed_in_turn(report.removed, report.candidates, report.candidates.len())
            &&& dry_run ==> report.removed.len() == 0
            &&& !dry_run ==> report.candidates.len() <= report.removed.len() + report.errors.len()
        }),
{
    let begun = pruning_begun(registry, cutoff, dry_run);
    let next = pruning_resumed(begun->then, replies.first());
    let rest = replies.drop_first();
    let nothing = Seq::<PrunedView>::empty();
    assert(removed_sessions(nothing) =~= Seq::empty());
    assert(records_removed(begun, replies) =~= records_removed(next, rest));
    assert(claims_removed(begun, replies) =~= claims_removed(next, rest));
    if let ReplyView::Sessions { records } = replies.first() {
        let candidates = expired(assignments_of(records), cutoff);
        let report = ReportView { candidates, ..empty_report(cutoff, dry_run) };
        lemma_none_in_turn(candidates, candidates.len());
        if !dry_run {
            lemma_answered(next, rest, registry, report, 0);
            let end = answered(begun, replies)->Over_result->Ok_0;
            assert(unreported(next) =~= Seq::empty());
            assert(removed_sessions(end.removed) =~= records_removed(begun, replies));
            assert(removed_claims(end.removed) =~= claims_removed(begun, replies));
        }
    }
}

/// No identities are in the order of any candidates.
proof fn lemma_none_in_turn(candidates: Seq<AssignmentView>, n: nat)
    ensures
        removed_in_turn(Seq::empty(), candidates, n),
    decreases n,
{
    if n > 0 {
        lemma_none_in_turn(candidates, (n - 1) as nat);
    }
}

} // verus!
