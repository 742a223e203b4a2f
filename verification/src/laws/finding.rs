//! Which session a command is about, and which identity is found for what is looked up.

use crate::assignment::{assignment_of, AssignmentView};
use crate::commands::{lookup_command_begun, session_meant, PrintedView};
use crate::error::ErrorView;
use crate::guarantees::{lemma_found_by_id, settled};
use crate::host::{EnvironmentView, PlaceView};
use crate::identity::{component, full_name, slug_of, slugs_for};
use crate::laws::text::{
    blank, folded_char, lemma_lower_case, lemma_trimmed_parts, letter, same_letters,
};
use crate::laws::values::{lemma_parts_agree, lemma_session_ids_accepted};
use crate::lookup::lookup_begun;
use crate::outcomes::{lemma_lookup_command, printing_resume, result_printed};
use crate::text::{
    lemma_one_word, lemma_trim_is_trimmed, lemma_words_are_words, lowered, trimmed, white_space,
    words,
};
use crate::validation::{lemma_session_id_accepted, session_id};
use crate::world::{
    comes_to, found_by_name, lemma_lookup, lemma_one_outcome, looked_up, lookup_resume, World,
};
use vstd::prelude::*;

verus! {

// ---------------------------------------------------------------------------
// The session that is meant
// ---------------------------------------------------------------------------
/// A text that is given and not blank is what a command is about, whatever the environment
/// says; only where it is missing or blank the session of the environment is; and where
/// that is missing or blank too, none.
pub proof fn lemma_explicit_comes_first(
    explicit: Option<Seq<char>>,
    environment: EnvironmentView,
)
    ensures
        explicit is Some && !blank(explicit->0) ==> session_meant(explicit, environment) == Ok::<
            _,
            ErrorView,
        >(trimmed(explicit->0)),
        (explicit is Some ==> blank(explicit->0)) && environment.session_id is Some && !blank(
            environment.session_id->0,
        ) ==> session_meant(explicit, environment) == Ok::<_, ErrorView>(
            trimmed(environment.session_id->0),
        ),
        (explicit is Some ==> blank(explicit->0)) && (environment.session_id is Some ==> blank(
            environment.session_id->0,
        )) ==> session_meant(explicit, environment) == Err::<Seq<char>, _>(ErrorView::NoSession),
{
    if explicit is Some {
        let (before, after) = lemma_trimmed_parts(explicit->0);
    }
    if environment.session_id is Some {
        let (before, after) = lemma_trimmed_parts(environment.session_id->0);
    }
}

// ---------------------------------------------------------------------------
// Slugs
// ---------------------------------------------------------------------------
/// A slug is its name in lower case, with hyphens between the parts and in place of spaces,
/// apostrophes and underscores.
pub proof fn lemma_slug_spells(first: Seq<char>, family: Seq<char>, realm: Seq<char>)
    ensures
        ({
            let parts = first + seq!['-'] + family + seq!['-'] + realm;
            let slug = slug_of(first, family, realm);
            &&& slug.len() == parts.len()
            &&& forall|i: int|
                #![trigger slug[i]]
                0 <= i < slug.len() ==> slug[i] as int == if parts[i] == ' ' || parts[i] == '\''
                    || parts[i] == '_' {
                    '-' as int
                } else {
                    folded_char(parts[i])
                }
        }),
        full_name(first, family, realm) == first + seq![' '] + family + seq![' ', 'o', 'f', ' ']
            + realm,
{
    reveal_strlit("-");
    reveal_strlit(" ");
    reveal_strlit(" of ");
    assert(" "@ =~= seq![' ']);
    assert(" of "@ =~= seq![' ', 'o', 'f', ' ']);
    let parts = first + seq!['-'] + family + seq!['-'] + realm;
    let slug = slug_of(first, family, realm);
    let m = first.len() as int;
    let n = m + 1 + family.len();
    assert forall|i: int|
        #![trigger slug[i]]
        0 <= i < slug.len() implies slug[i] as int == if parts[i] == ' ' || parts[i] == '\''
        || parts[i] == '_' {
        '-' as int
    } else {
        folded_char(parts[i])
    } by {
        if i < m {
            assert(slug[i] == crate::identity::slug_char(first[i]));
            assert(parts[i] == first[i]);
        } else if i == m {
            assert(parts[i] == '-');
        } else if i < n {
            assert(slug[i] == crate::identity::slug_char(family[i - m - 1]));
            assert(parts[i] == family[i - m - 1]);
        } else if i == n {
            assert(parts[i] == '-');
        } else {
            assert(slug[i] == crate::identity::slug_char(realm[i - n - 1]));
            assert(parts[i] == realm[i - n - 1]);
        }
    }
}

/// Whether a text has the form of a slug: letters, digits and hyphens, with no hyphen at
/// either end.
pub open spec fn like_a_slug(text: Seq<char>) -> bool {
    &&& text.len() > 0
    &&& text[0] != '-'
    &&& text[text.len() - 1] != '-'
    &&& forall|i: int|
        0 <= i < text.len() ==> letter(#[trigger] text[i]) || '0' <= text[i] <= '9' || text[i]
            == '-'
}

/// Whether a text spells a name out: a first name, a family name, the word `of`, in any
/// case, and a realm.
pub open spec fn spells_name(
    text: Seq<char>,
    first: Seq<char>,
    family: Seq<char>,
    realm: Seq<char>,
) -> bool {
    &&& words(text).len() == 4
    &&& component(words(text)[0]) == Some(first)
    &&& component(words(text)[1]) == Some(family)
    &&& same_letters(words(text)[2], seq!['o', 'f'])
    &&& component(words(text)[3]) == Some(realm)
}

/// The slugs that are looked for are the text itself in lower case, where it has the form
/// of a slug, and then that of the name which the text spells out, if it spells one; no
/// others.
pub proof fn lemma_slugs_looked_for(input: Seq<char>)
    ensures
        ({
            let text = trimmed(input);
            let slugs = slugs_for(input);
            &&& like_a_slug(text) ==> slugs.len() > 0 && slugs[0] == lowered(text)
            &&& forall|first: Seq<char>, family: Seq<char>, realm: Seq<char>| #[trigger]
                spells_name(text, first, family, realm) ==> slugs.contains(
                    slug_of(first, family, realm),
                )
            &&& forall|i: int|
                #![trigger slugs[i]]
                0 <= i < slugs.len() ==> (i == 0 && like_a_slug(text) && slugs[i] == lowered(text))
                    || exists|first: Seq<char>, family: Seq<char>, realm: Seq<char>|
                    #[trigger] spells_name(text, first, family, realm) && slugs[i] == slug_of(
                        first,
                        family,
                        realm,
                    )
        }),
{
    reveal_strlit("of");
    let text = trimmed(input);
    let slugs = slugs_for(input);
    let of = seq!['o', 'f'];
    assert("of"@ =~= of);
    assert(lowered(of) =~= of);
    lemma_lower_case(of);
    assert(like_a_slug(text) == crate::identity::slug_shaped(text)) by {
        if text.len() > 0 {
            assert(text.last() == text[text.len() - 1]);
        }
        if like_a_slug(text) {
            assert forall|i: int| 0 <= i < text.len() implies crate::text::ascii_letter(
                #[trigger] text[i],
            ) || crate::text::ascii_digit(text[i]) || text[i] == '-' by {
                assert(letter(text[i]) || '0' <= text[i] <= '9' || text[i] == '-');
            }
        }
        if crate::identity::slug_shaped(text) {
            assert forall|i: int| 0 <= i < text.len() implies letter(#[trigger] text[i]) || '0'
                <= text[i] <= '9' || text[i] == '-' by {
                assert(crate::text::ascii_letter(text[i]) || crate::text::ascii_digit(text[i])
                    || text[i] == '-');
            }
        }
    }
    let parts = words(text);
    if parts.len() == 4 {
        lemma_lower_case(parts[2]);
        assert(lowered(parts[2]) == of <==> same_letters(parts[2], of)) by {
            if lowered(parts[2]) == of {
                assert(same_letters(of, parts[2]));
                assert forall|i: int|
                    #![trigger parts[2][i]]
                    #![trigger of[i]]
                    0 <= i < parts[2].len() implies folded_char(parts[2][i]) == folded_char(
                    of[i],
                ) by {}
            }
        }
    }
    assert forall|first: Seq<char>, family: Seq<char>, realm: Seq<char>| #[trigger]
        spells_name(text, first, family, realm) implies crate::identity::name_slug(text) == Some(
        slug_of(first, family, realm),
    ) by {}
    if let Some(spelled) = crate::identity::name_slug(text) {
        let shaped = if crate::identity::slug_shaped(text) {
            seq![lowered(text)]
        } else {
            Seq::empty()
        };
        assert(spells_name(
            text,
            component(parts[0])->0,
            component(parts[1])->0,
            component(parts[3])->0,
        ));
        if !shaped.contains(spelled) {
            assert(slugs[shaped.len() as int] == spelled);
        }
        assert(slugs.contains(spelled));
    }
}

// ---------------------------------------------------------------------------
// Lookups
// ---------------------------------------------------------------------------
/// What the claim of a slug leads to: the identity of the session that it names, or what is
/// wrong with the claim.
pub open spec fn claim_leads_to(world: World, slug: Seq<char>) -> Result<
    AssignmentView,
    ErrorView,
> {
    let claimed = trimmed(world.claims[slug]);
    let id = session_id(claimed);
    let broken = |failure: ErrorView| ErrorView::BrokenClaim { slug, failure: Box::new(failure) };
    if blank(world.claims[slug]) {
        Err(ErrorView::Empty { kind: "claimed session ID"@ })
    } else if id is Err {
        Err(broken(id->Err_0))
    } else if !world.sessions.contains_key(claimed) {
        Err(broken(ErrorView::NotRegistered { session_id: claimed }))
    } else if world.sessions[claimed].session_id != claimed {
        Err(broken(ErrorView::ForeignRecord { session_id: claimed }))
    } else {
        Ok(assignment_of(world.sessions[claimed]))
    }
}

/// What a lookup comes to, whatever the host holds. A session with that ID comes first; then
/// the claim of the first slug that is looked for and claimed. Nothing is changed.
pub proof fn lemma_lookup_comes_to(
    world: World,
    registry: PlaceView,
    input: Seq<char>,
    after: World,
    result: Result<AssignmentView, ErrorView>,
)
    requires
        comes_to(lookup_begun(registry, input), lookup_resume(), world, (after, result)),
    ensures
        after == world,
        ({
            let text = trimmed(input);
            let slugs = slugs_for(input);
            let unclaimed = forall|i: int|
                0 <= i < slugs.len() ==> !world.claims.contains_key(#[trigger] slugs[i]);
            if blank(input) {
                result == Err::<AssignmentView, _>(ErrorView::Empty { kind: "lookup identifier"@ })
            } else if session_id(input) is Ok && world.sessions.contains_key(text) {
                result == if world.sessions[text].session_id == text {
                    Ok::<_, ErrorView>(assignment_of(world.sessions[text]))
                } else {
                    Err(ErrorView::ForeignRecord { session_id: text })
                }
            } else if unclaimed {
                result == Err::<AssignmentView, _>(ErrorView::NoIdentity { input: text })
            } else {
                exists|i: int|
                    {
                        &&& 0 <= i < slugs.len()
                        &&& world.claims.contains_key(#[trigger] slugs[i])
                        &&& forall|j: int|
                            0 <= j < i ==> !world.claims.contains_key(#[trigger] slugs[j])
                        &&& result == claim_leads_to(world, slugs[i])
                    }
            }
        }),
{
    lemma_lookup(world, registry, input);
    lemma_one_outcome(
        lookup_begun(registry, input),
        lookup_resume(),
        world,
        (after, result),
        (world, looked_up(world, input)),
    );
    let text = trimmed(input);
    let (before, behind) = lemma_trimmed_parts(input);
    lemma_trim_is_trimmed(text);
    assert(session_id(text) == session_id(input));
    assert(slugs_for(text) == slugs_for(input));
    lemma_session_ids_accepted(input);
    lemma_first_claim(world, text, slugs_for(input), 0);
}

/// A name is found by the first of its slugs that is claimed.
proof fn lemma_first_claim(world: World, input: Seq<char>, slugs: Seq<Seq<char>>, at: nat)
    ensures
        (forall|i: int| at <= i < slugs.len() ==> !world.claims.contains_key(#[trigger] slugs[i]))
            ==> found_by_name(world, input, slugs, at) == Err::<AssignmentView, _>(
            ErrorView::NoIdentity { input },
        ),
        !(forall|i: int| at <= i < slugs.len() ==> !world.claims.contains_key(#[trigger] slugs[i]))
            ==> exists|i: int|
            {
                &&& at <= i < slugs.len()
                &&& world.claims.contains_key(#[trigger] slugs[i])
                &&& forall|j: int| at <= j < i ==> !world.claims.contains_key(#[trigger] slugs[j])
                &&& found_by_name(world, input, slugs, at) == claim_leads_to(world, slugs[i])
            },
    decreases slugs.len() - at,
{
    if at < slugs.len() {
        let slug = slugs[at as int];
        lemma_first_claim(world, input, slugs, at + 1);
        if world.claims.contains_key(slug) {
            let text = world.claims[slug];
            let (before, after) = lemma_trimmed_parts(text);
            lemma_trim_is_trimmed(trimmed(text));
            lemma_session_ids_accepted(trimmed(text));
            assert(found_by_name(world, input, slugs, at) == claim_leads_to(world, slug));
            assert(world.claims.contains_key(slugs[at as int]));
        } else if exists|i: int|
            at + 1 <= i < slugs.len() && world.claims.contains_key(#[trigger] slugs[i]) {
            let i = choose|i: int|
                {
                    &&& at + 1 <= i < slugs.len()
                    &&& world.claims.contains_key(#[trigger] slugs[i])
                    &&& forall|j: int|
                        at + 1 <= j < i ==> !world.claims.contains_key(#[trigger] slugs[j])
                    &&& found_by_name(world, input, slugs, at + 1) == claim_leads_to(
                        world,
                        slugs[i],
                    )
                };
            assert forall|j: int| at <= j < i implies !world.claims.contains_key(
                #[trigger] slugs[j],
            ) by {}
            assert(world.claims.contains_key(slugs[i]));
        }
    }
}

/// A session that has claimed its name is found by that name, in any case and with any
/// white space between and around its words; and by its slug, in any case, unless that is
/// the ID of another session.
pub proof fn lemma_found_however_written(world: World, id: Seq<char>, input: Seq<char>)
    requires
        world.sessions.contains_key(id),
        settled(world, id),
    ensures
        ({
            let record = world.sessions[id];
            let found = Ok::<_, ErrorView>(assignment_of(record));
            let names = words(trimmed(input));
            &&& names.len() == 4 && same_letters(names[0], record.first_name) && same_letters(
                names[1],
                record.family_name,
            ) && same_letters(names[2], seq!['o', 'f']) && same_letters(names[3], record.realm)
                ==> looked_up(world, input) == found
            &&& same_letters(trimmed(input), record.slug) && !world.sessions.contains_key(
                trimmed(input),
            ) ==> looked_up(world, input) == found
            &&& trimmed(input) == id ==> looked_up(world, input) == found
        }),
{
    let record = world.sessions[id];
    let text = trimmed(input);
    let names = words(text);
    let (first, family, realm) = (record.first_name, record.family_name, record.realm);
    let slug = record.slug;
    let (before, after) = lemma_trimmed_parts(input);
    lemma_trim_is_trimmed(text);
    lemma_words_are_words(text);
    crate::identity::lemma_part_is_word(first);
    crate::identity::lemma_part_is_word(family);
    crate::identity::lemma_part_is_word(realm);
    lemma_session_id_accepted(id);
    lemma_slugs_looked_for(input);
    // The claim of the slug leads to the session.
    let claim = world.claims[slug];
    let (left, right) = lemma_trimmed_parts(claim);
    lemma_one_word(id);
    lemma_trim_is_trimmed(id);
    assert(claim_leads_to(world, slug) == Ok::<_, ErrorView>(assignment_of(record)));
    if text == id {
        lemma_found_by_id(world, id);
        assert(looked_up(world, input) == looked_up(world, id));
    }
    if names.len() == 4 && same_letters(names[0], first) && same_letters(names[1], family)
        && same_letters(names[2], seq!['o', 'f']) && same_letters(names[3], realm) {
        assert(crate::text::is_word(names[0]) && crate::text::is_word(names[1])
            && crate::text::is_word(names[3]));
        lemma_word_is_trim(names[0]);
        lemma_word_is_trim(names[1]);
        lemma_word_is_trim(names[3]);
        lemma_word_is_trim(first);
        lemma_word_is_trim(family);
        lemma_word_is_trim(realm);
        lemma_parts_agree(names[0], first);
        lemma_parts_agree(names[1], family);
        lemma_parts_agree(names[3], realm);
        assert(spells_name(text, first, family, realm));
        lemma_several_words(text);
        let slugs = slugs_for(input);
        assert(slugs.contains(slug));
        lemma_first_claim(world, text, slugs, 0);
        assert(slugs =~= seq![slug]) by {
            assert forall|i: int| 0 <= i < slugs.len() implies slugs[i] == slug by {
                let (a, b, c) = choose|a: Seq<char>, b: Seq<char>, c: Seq<char>|
                    #[trigger] spells_name(text, a, b, c) && slugs[i] == slug_of(a, b, c);
                assert(a == first && b == family && c == realm);
            }
            if slugs.len() > 1 {
                assert(false) by {
                    lemma_one_slug(text);
                }
            }
        }
        assert(world.claims.contains_key(slugs[0]));
        assert(looked_up(world, input) == found_by_name(world, text, slugs, 0));
    }
    if same_letters(text, slug) && !world.sessions.contains_key(text) {
        crate::identity::lemma_slug_letters(first, family, realm);
        crate::identity::lemma_slug_is_sought(first, family, realm);
        assert forall|i: int| 0 <= i < text.len() implies letter(#[trigger] text[i]) || text[i]
            == '-' by {
            assert(folded_char(text[i]) == folded_char(slug[i]));
        }
        assert(folded_char(text[0]) == folded_char(slug[0]));
        assert(folded_char(text[text.len() - 1]) == folded_char(slug[slug.len() - 1]));
        assert(slug.last() == slug[slug.len() - 1]);
        assert(like_a_slug(text));
        lemma_lower_case(slug);
        assert(lowered(slug) =~= slug);
        let slugs = slugs_for(input);
        assert(slugs[0] == slug);
        lemma_first_claim(world, text, slugs, 0);
        assert(world.claims.contains_key(slugs[0]));
        assert(looked_up(world, input) == found_by_name(world, text, slugs, 0));
    }
}

/// A word has no white space to trim.
proof fn lemma_word_is_trim(word: Seq<char>)
    requires
        crate::text::is_word(word),
    ensures
        trimmed(word) == word,
{
    lemma_one_word(word);
    lemma_trim_is_trimmed(word);
}

/// A text of four words is no session ID, and has not the form of a slug.
proof fn lemma_several_words(text: Seq<char>)
    requires
        words(text).len() == 4,
        trimmed(text) == text,
    ensures
        session_id(text) is Err,
        !like_a_slug(text),
{
    if forall|i: int| 0 <= i < text.len() ==> !white_space(#[trigger] text[i]) {
        if text.len() > 0 {
            lemma_one_word(text);
        }
        assert(false);
    }
    let i = choose|i: int| 0 <= i < text.len() && white_space(#[trigger] text[i]);
    if session_id(text) is Ok {
        assert(crate::validation::session_id_char(text[i]));
    }
}

/// A text that has not the form of a slug has one slug at most.
proof fn lemma_one_slug(text: Seq<char>)
    requires
        !like_a_slug(text),
        trimmed(text) == text,
    ensures
        slugs_for(text).len() <= 1,
{
    lemma_slugs_looked_for(text);
    if crate::identity::slug_shaped(text) {
        assert forall|i: int| 0 <= i < text.len() implies letter(#[trigger] text[i]) || '0'
            <= text[i] <= '9' || text[i] == '-' by {
            assert(crate::text::ascii_letter(text[i]) || crate::text::ascii_digit(text[i])
                || text[i] == '-');
        }
        assert(text.last() == text[text.len() - 1]);
    }
}

// ---------------------------------------------------------------------------
// The commands
// ---------------------------------------------------------------------------
/// What is named is looked up, or else the session of the environment, in the registry that
/// the environment gives; the identity is printed, and nothing is changed.
pub proof fn lemma_lookup_does(
    world: World,
    explicit: Option<Seq<char>>,
    json: bool,
    environment: EnvironmentView,
    after: World,
    result: Result<PrintedView, ErrorView>,
)
    requires
        comes_to(
            lookup_command_begun(explicit, json, environment),
            printing_resume(lookup_resume()),
            world,
            (after, result),
        ),
    ensures
        after == world,
        ({
            let homeless = environment.registry_home is None && environment.data_home is None
                && environment.home is None;
            let session = session_meant(explicit, environment);
            result == if session is Err {
                Err(session->Err_0)
            } else if homeless {
                Err(ErrorView::NoHome)
            } else {
                match looked_up(world, session->Ok_0) {
                    Ok(assignment) => Ok(
                        if json {
                            PrintedView::Document { assignment }
                        } else {
                            PrintedView::Line { text: assignment.name }
                        },
                    ),
                    Err(error) => Err(error),
                }
            }
        }),
{
    lemma_lookup_command(world, explicit, json, environment);
    lemma_one_outcome(
        lookup_command_begun(explicit, json, environment),
        printing_resume(lookup_resume()),
        world,
        (after, result),
        (
            world,
            match (session_meant(explicit, environment), crate::registry::registry_home(
                environment,
            )) {
                (Err(error), _) => Err(error),
                (Ok(_), None) => Err(ErrorView::NoHome),
                (Ok(input), Some(_)) => result_printed(looked_up(world, input), json),
            },
        ),
    );
}

/// In every environment that has a registry, whichever session it names: looking up the ID
/// or the name of a session explicitly prints that session's identity.
pub proof fn lemma_explicit_lookup_prints(
    world: World,
    id: Seq<char>,
    explicit: Seq<char>,
    environment: EnvironmentView,
    after: World,
    result: Result<PrintedView, ErrorView>,
)
    requires
        world.sessions.contains_key(id),
        settled(world, id),
        trimmed(explicit) == id || explicit == world.sessions[id].name,
        environment.registry_home is Some || environment.data_home is Some || environment.home
            is Some,
        comes_to(
            lookup_command_begun(Some(explicit), false, environment),
            printing_resume(lookup_resume()),
            world,
            (after, result),
        ),
    ensures
        result == Ok::<_, ErrorView>(PrintedView::Line { text: world.sessions[id].name }),
{
    let record = world.sessions[id];
    let (before, behind) = lemma_trimmed_parts(explicit);
    lemma_session_id_accepted(id);
    crate::guarantees::lemma_sessions_are_found(world, id);
    crate::identity::lemma_name_spells_slug(record.first_name, record.family_name, record.realm);
    crate::identity::lemma_part_is_word(record.first_name);
    assert(!blank(explicit));
    lemma_explicit_comes_first(Some(explicit), environment);
    lemma_lookup_does(world, Some(explicit), false, environment, after, result);
}

} // verus!
