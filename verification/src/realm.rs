//! The realm of the machine: the one that is asked for, or the one that a file keeps,
//! which is chosen once.

use crate::error::{Error, ErrorView};
use crate::host::{
    Environment, EnvironmentView, Place, PlaceView, Reply, ReplyView, Request, RequestView, Step,
    StepView,
};
use crate::identity::{
    choose_index, chosen_index, component, digest_of_text, normalize_component, text_digest,
};
use crate::text::{decimal, decimal_text, slice_view, views};
use crate::validation::{as_slice, said, spoken, text_outcome};
use vstd::prelude::*;
use vstd::string::StringExecFns;

verus! {

/// What the choice of a realm is made from.
pub struct Chance {
    /// The nanoseconds since the start of 1970.
    pub nanoseconds: u128,
    pub process_id: u32,
    pub hostname: String,
}

pub struct ChanceView {
    pub nanoseconds: u128,
    pub process_id: u32,
    pub hostname: Seq<char>,
}

impl View for Chance {
    type V = ChanceView;

    open spec fn view(&self) -> ChanceView {
        ChanceView {
            nanoseconds: self.nanoseconds,
            process_id: self.process_id,
            hostname: self.hostname@,
        }
    }
}

/// The text whose digest chooses a realm.
pub open spec fn chance_text(chance: ChanceView) -> Seq<char> {
    decimal(chance.nanoseconds as nat) + ":"@ + decimal(chance.process_id as nat) + ":"@
        + chance.hostname
}

/// The realm that a digest chooses.
pub open spec fn realm_chosen(digest: Seq<u8>, candidates: Seq<Seq<char>>) -> Seq<char> {
    candidates[chosen_index(digest.subrange(0, 8), candidates.len()) as int]
}

/// The realm that a digest chooses.
pub fn choose_realm(digest: &Vec<u8>, candidates: &Vec<String>) -> (realm: String)
    requires
        digest@.len() >= 8,
        candidates@.len() > 0,
    ensures
        realm@ == realm_chosen(digest@, views(candidates@)),
{
    let index = choose_index(digest, 0, candidates.len());
    candidates[index].clone()
}

/// The realm that a text gives.
pub open spec fn realm_given(text: Seq<char>) -> Result<Seq<char>, ErrorView> {
    match component(text) {
        Some(realm) => Ok(realm),
        None => Err(ErrorView::InvalidComponent { kind: "realm"@ }),
    }
}

/// The realm that a text gives.
fn normalize_realm(text: &str) -> (realm: Result<String, Error>)
    ensures
        text_outcome(realm) == realm_given(text@),
{
    normalize_component(text, "realm")
}

/// The file that keeps the realm.
pub open spec fn realm_place(environment: EnvironmentView) -> Option<PlaceView> {
    match (environment.home, environment.config_home) {
        (None, _) => None,
        (Some(_), Some(path)) => Some(PlaceView { base: path, below: "agent-id/realm"@ }),
        (Some(home), None) => Some(PlaceView { base: home, below: ".config/agent-id/realm"@ }),
    }
}

/// The file that keeps the realm.
pub fn realm_path(environment: &Environment) -> (place: Result<Place, Error>)
    ensures
        match place {
            Ok(place) => realm_place(environment@) == Some(place@),
            Err(error) => realm_place(environment@) is None && error@ == ErrorView::NoHome,
        },
{
    match (&environment.home, &environment.config_home) {
        (None, _) => Err(Error::NoHome),
        (Some(_), Some(path)) => Ok(
            Place { base: path.clone(), below: "agent-id/realm".to_owned() },
        ),
        (Some(home), None) => Ok(
            Place { base: home.clone(), below: ".config/agent-id/realm".to_owned() },
        ),
    }
}

// ---------------------------------------------------------------------------
// The task
// ---------------------------------------------------------------------------
/// The resolution of the realm.
pub struct RealmResolution {
    pub place: Place,
    pub stage: RealmStage,
}

/// What the resolution of the realm waits for.
pub enum RealmStage {
    /// What the file holds, where there is one.
    Finding { candidates: Vec<String>, chance: Chance },
    /// The file, to be written with a realm.
    Creating { realm: String },
}

pub struct RealmResolutionView {
    pub place: PlaceView,
    pub stage: RealmStageView,
}

pub enum RealmStageView {
    Finding { candidates: Seq<Seq<char>>, chance: ChanceView },
    Creating { realm: Seq<char> },
}

impl View for RealmStage {
    type V = RealmStageView;

    open spec fn view(&self) -> RealmStageView {
        match *self {
            RealmStage::Finding { candidates, chance } => RealmStageView::Finding {
                candidates: views(candidates@),
                chance: chance@,
            },
            RealmStage::Creating { realm } => RealmStageView::Creating { realm: realm@ },
        }
    }
}

impl View for RealmResolution {
    type V = RealmResolutionView;

    open spec fn view(&self) -> RealmResolutionView {
        RealmResolutionView { place: self.place@, stage: self.stage@ }
    }
}

pub type RealmStep = Step<RealmResolution, String>;

pub type RealmStepView = StepView<RealmResolutionView, Seq<char>>;

/// The realm is the one that is asked for, or the one that the environment says; or
/// else a file is read.
pub open spec fn realm_begun(
    explicit: Option<Seq<char>>,
    environment: EnvironmentView,
    candidates: Seq<Seq<char>>,
    chance: ChanceView,
) -> RealmStepView {
    if said(explicit) {
        StepView::Over { result: realm_given(explicit->0) }
    } else if said(environment.realm) {
        StepView::Over { result: realm_given(environment.realm->0) }
    } else {
        match realm_place(environment) {
            None => StepView::failure(ErrorView::NoHome),
            Some(place) => StepView::Ask {
                request: RequestView::FindRealm { place },
                then: RealmResolutionView {
                    place,
                    stage: RealmStageView::Finding { candidates, chance },
                },
            },
        }
    }
}

/// A realm that some digest chooses is written to the file.
pub open spec fn realm_written(
    place: PlaceView,
    candidates: Seq<Seq<char>>,
    digest: Seq<u8>,
) -> RealmStepView {
    if candidates.len() == 0 {
        StepView::failure(ErrorView::NoRealms)
    } else {
        match realm_given(realm_chosen(digest, candidates)) {
            Err(error) => StepView::failure(error),
            Ok(realm) => StepView::Ask {
                request: RequestView::CreateRealm { place, contents: realm + "\n"@ },
                then: RealmResolutionView { place, stage: RealmStageView::Creating { realm } },
            },
        }
    }
}

/// How the resolution of the realm goes on with a reply. Where another process wrote
/// the file meanwhile, its realm holds.
pub open spec fn realm_resumed(task: RealmResolutionView, reply: ReplyView) -> RealmStepView {
    match (task.stage, reply) {
        (RealmStageView::Finding { .. }, ReplyView::Contents { text, .. }) => StepView::Over {
            result: realm_given(text),
        },
        (RealmStageView::Finding { candidates, chance }, ReplyView::Missing) => realm_written(
            task.place,
            candidates,
            text_digest(chance_text(chance)),
        ),
        (RealmStageView::Creating { realm }, ReplyView::Performed) => StepView::Over {
            result: Ok(realm),
        },
        (RealmStageView::Creating { .. }, ReplyView::Exists { text }) => StepView::Over {
            result: realm_given(text),
        },
        _ => StepView::failure(ErrorView::OutOfTurn),
    }
}

/// Starts the resolution of the realm.
pub fn resolve_realm(
    explicit: Option<&str>,
    environment: &Environment,
    candidates: Vec<String>,
    chance: Chance,
) -> (step: RealmStep)
    ensures
        step@ == realm_begun(
            slice_view(explicit),
            environment@,
            views(candidates@),
            chance@,
        ),
{
    if let Some(text) = spoken(explicit) {
        return Step::Over { result: normalize_realm(text) };
    }
    if let Some(text) = spoken(as_slice(&environment.realm)) {
        return Step::Over { result: normalize_realm(text) };
    }
    match realm_path(environment) {
        Err(error) => Step::Over { result: Err(error) },
        Ok(place) => Step::Ask {
            request: Request::FindRealm { place: place.clone() },
            then: RealmResolution { place, stage: RealmStage::Finding { candidates, chance } },
        },
    }
}

/// Writes the realm that some digest chooses to the file.
pub fn write_realm(place: Place, candidates: &Vec<String>, digest: &Vec<u8>) -> (step: RealmStep)
    requires
        digest@.len() >= 8,
    ensures
        step@ == realm_written(place@, views(candidates@), digest@),
{
    if candidates.len() == 0 {
        return Step::Over { result: Err(Error::NoRealms) };
    }
    match normalize_realm(choose_realm(digest, candidates).as_str()) {
        Err(error) => Step::Over { result: Err(error) },
        Ok(realm) => {
            let mut contents = realm.clone();
            contents.append("\n");
            Step::Ask {
                request: Request::CreateRealm { place: place.clone(), contents },
                then: RealmResolution { place, stage: RealmStage::Creating { realm } },
            }
        },
    }
}

/// Chooses a realm and writes it to the file.
pub fn auto_create_realm(place: Place, candidates: &Vec<String>, chance: &Chance) -> (step:
    RealmStep)
    ensures
        step@ == realm_written(place@, views(candidates@), text_digest(chance_text(chance@))),
{
    let mut text = decimal_text(chance.nanoseconds);
    text.append(":");
    text.append(decimal_text(chance.process_id as u128).as_str());
    text.append(":");
    text.append(chance.hostname.as_str());
    let digest = digest_of_text(text.as_str());
    write_realm(place, candidates, &digest)
}

impl RealmResolution {
    /// Goes on with a reply.
    pub fn resume(self, reply: Reply) -> (step: RealmStep)
        ensures
            step@ == realm_resumed(self@, reply@),
    {
        let RealmResolution { place, stage } = self;
        match (stage, reply) {
            (RealmStage::Finding { .. }, Reply::Contents { text, .. }) => Step::Over {
                result: normalize_realm(text.as_str()),
            },
            (RealmStage::Finding { candidates, chance }, Reply::Missing) => auto_create_realm(
                place,
                &candidates,
                &chance,
            ),
            (RealmStage::Creating { realm }, Reply::Performed) => Step::Over { result: Ok(realm) },
            (RealmStage::Creating { .. }, Reply::Exists { text }) => Step::Over {
                result: normalize_realm(text.as_str()),
            },
            _ => Step::Over { result: Err(Error::OutOfTurn) },
        }
    }
}

} // verus!
