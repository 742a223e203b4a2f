//! Which realm it is.

use crate::error::ErrorView;
use crate::host::{EnvironmentView, ReplyView, StepView};
use crate::identity::{component, sha256_digest};
use crate::laws::naming::{lemma_digest_chooses, place_chosen};
use crate::laws::text::{blank, lemma_trimmed_parts};
use crate::realm::{realm_begun, realm_resumed, ChanceView, RealmResolutionView};
use crate::text::decimal;
use crate::world::{
    comes_to, lemma_one_outcome, lemma_realm, realm_resolved, realm_resume, World,
};
use vstd::prelude::*;
use vstd::utf8::encode_utf8;

verus! {

/// The realm that a text gives: its part of a name, where it is one.
pub open spec fn realm_from(text: Seq<char>) -> Result<Seq<char>, ErrorView> {
    if component(text) is Some {
        Ok(component(text)->0)
    } else {
        Err(ErrorView::InvalidComponent { kind: "realm"@ })
    }
}

/// The digest that a choice goes by: that of the time, the process and the machine, with
/// colons between them.
pub open spec fn chance_digest(chance: ChanceView) -> Seq<u8> {
    sha256_digest(
        encode_utf8(
            decimal(chance.nanoseconds as nat) + seq![':'] + decimal(chance.process_id as nat)
                + seq![':'] + chance.hostname,
        ),
    )
}

/// The realm is the one that is asked for; or else the one that the environment says; or
/// else the one that the file keeps; and only where there is no file, one of the candidates
/// is chosen by chance, and written to the file with a line end. A text that is missing or
/// blank does not count. Nothing else is changed.
pub proof fn lemma_realm_is_resolved(
    world: World,
    explicit: Option<Seq<char>>,
    environment: EnvironmentView,
    candidates: Seq<Seq<char>>,
    chance: ChanceView,
    after: World,
    result: Result<Seq<char>, ErrorView>,
)
    requires
        comes_to(
            realm_begun(explicit, environment, candidates, chance),
            realm_resume(),
            world,
            (after, result),
        ),
        chance_digest(chance).len() >= 8,
    ensures
        (after, result) == realm_resolved(world, explicit, environment, candidates, chance),
        ({
            let said = environment.realm;
            let chosen = candidates[place_chosen(
                chance_digest(chance),
                0,
                candidates.len() as int,
            )];
            if explicit is Some && !blank(explicit->0) {
                after == world && result == realm_from(explicit->0)
            } else if said is Some && !blank(said->0) {
                after == world && result == realm_from(said->0)
            } else if environment.home is None {
                after == world && result == Err::<Seq<char>, _>(ErrorView::NoHome)
            } else if world.realm is Some {
                after == world && result == realm_from(world.realm->0)
            } else if candidates.len() == 0 {
                after == world && result == Err::<Seq<char>, _>(ErrorView::NoRealms)
            } else if component(chosen) is None {
                after == world && result == realm_from(chosen)
            } else {
                let realm = component(chosen)->0;
                &&& result == Ok::<_, ErrorView>(realm)
                &&& after == (World { realm: Some(realm + seq!['\n']), ..world })
            }
        }),
{
    lemma_realm(world, explicit, environment, candidates, chance);
    lemma_one_outcome(
        realm_begun(explicit, environment, candidates, chance),
        realm_resume(),
        world,
        (after, result),
        realm_resolved(world, explicit, environment, candidates, chance),
    );
    reveal_strlit(":");
    reveal_strlit("\n");
    assert(":"@ =~= seq![':']);
    assert("\n"@ =~= seq!['\n']);
    if explicit is Some {
        let (before, behind) = lemma_trimmed_parts(explicit->0);
    }
    if environment.realm is Some {
        let (before, behind) = lemma_trimmed_parts(environment.realm->0);
    }
    if candidates.len() > 0 {
        lemma_digest_chooses(chance_digest(chance), 0, candidates.len());
    }
}

/// Where another process wrote the file meanwhile, its realm holds, and not the one that
/// was chosen.
pub proof fn lemma_realm_of_another_holds(task: RealmResolutionView, text: Seq<char>)
    requires
        task.stage is Creating,
    ensures
        realm_resumed(task, ReplyView::Exists { text }) == (StepView::Over::<
            RealmResolutionView,
            Seq<char>,
        > { result: realm_from(text) }),
        realm_resumed(task, ReplyView::Performed) == (StepView::Over::<
            RealmResolutionView,
            Seq<char>,
        > { result: Ok(task.stage->realm) }),
{
}

} // verus!
