//! The registry of identities: where its files stand, and what can be done with it.

use crate::annotation::{annotation_begun, begin_annotation, ActivityUpdate, AnnotationStep};
use crate::discovery::{begin_discovery, discovery_begun, DiscoveryStep};
use crate::error::{Error, ErrorView};
use crate::host::{is_absolute, place_below, Environment, EnvironmentView, Place, PlaceView};
use crate::lookup::{begin_lookup, lookup_begun, LookupStep};
use crate::pruning::{begin_pruning, pruning_begun, PruningStep};
use crate::registration::{begin_registration, registration_begun, NameLists, RegistrationStep};
use crate::text::slice_view;
use crate::timestamp::Timestamp;
use std::path::PathBuf;
use vstd::prelude::*;
use vstd::string::StringExecFns;

verus! {

/// The registry of identities below a directory.
#[derive(Debug)]
pub struct Registry {
    root: Place,
}

impl View for Registry {
    type V = PlaceView;

    closed spec fn view(&self) -> PlaceView {
        self.root@
    }
}

impl Clone for Registry {
    fn clone(&self) -> (copy: Self)
        ensures
            copy@ == self@,
    {
        Registry { root: self.root.clone() }
    }
}

/// The directory of the records.
pub open spec fn sessions_place(registry: PlaceView) -> PlaceView {
    place_below(registry, "by-session"@)
}

/// The directory of the claims of names.
pub open spec fn names_place(registry: PlaceView) -> PlaceView {
    place_below(registry, "by-name"@)
}

/// The file of a session's record.
pub open spec fn session_place(registry: PlaceView, session_id: Seq<char>) -> PlaceView {
    place_below(sessions_place(registry), session_id + ".json"@)
}

/// The file of a name's claim.
pub open spec fn claim_place(registry: PlaceView, slug: Seq<char>) -> PlaceView {
    place_below(names_place(registry), slug)
}

/// The directory that the environment gives the registry.
pub open spec fn registry_home(environment: EnvironmentView) -> Option<PlaceView> {
    match (environment.registry_home, environment.data_home, environment.home) {
        (Some(path), _, _) => Some(PlaceView { base: path, below: ""@ }),
        (None, Some(path), _) => Some(PlaceView { base: path, below: "agent-id"@ }),
        (None, None, Some(path)) => Some(PlaceView { base: path, below: ".local/share/agent-id"@ }),
        (None, None, None) => None,
    }
}

impl Registry {
    /// The registry that the environment gives: `AGENT_ID_HOME`, or a directory below
    /// `XDG_DATA_HOME`, or else one below `HOME`.
    pub fn from_env(environment: &Environment) -> (registry: Result<Registry, Error>)
        ensures
            match registry {
                Ok(registry) => registry_home(environment@) == Some(registry@),
                Err(error) => registry_home(environment@) is None && error@ == ErrorView::NoHome,
            },
    {
        if let Some(path) = &environment.registry_home {
            return Ok(Registry::new(path.clone()));
        }
        if let Some(path) = &environment.data_home {
            return Ok(
                Registry { root: Place { base: path.clone(), below: "agent-id".to_owned() } },
            );
        }
        match &environment.home {
            Some(path) => Ok(
                Registry {
                    root: Place { base: path.clone(), below: ".local/share/agent-id".to_owned() },
                },
            ),
            None => Err(Error::NoHome),
        }
    }

    /// The registry below a directory.
    pub fn new(root: PathBuf) -> (registry: Registry)
        ensures
            registry@ == (PlaceView { base: root, below: ""@ }),
    {
        Registry { root: Place { base: root, below: "".to_owned() } }
    }

    /// Starts the registration of a session: it keeps the identity that it has, or is
    /// given a name that nobody has.
    pub fn register(
        &self,
        session_id: &str,
        family_name: Option<&str>,
        realm: &str,
        names: NameLists,
    ) -> (step: RegistrationStep)
        ensures
            step@ == registration_begun(
                self@,
                session_id@,
                slice_view(family_name),
                realm@,
                names@,
            ),
    {
        let family = match family_name {
            Some(family) => Some(family.to_owned()),
            None => None,
        };
        begin_registration(self.clone(), session_id, family, realm.to_owned(), names)
    }

    /// Starts a lookup by a session ID, a name or a slug.
    pub fn lookup(&self, input: &str) -> (step: LookupStep)
        ensures
            step@ == lookup_begun(self@, input@),
    {
        begin_lookup(self.clone(), input)
    }

    /// Starts the annotation of a session's identity.
    pub fn annotate(&self, session_id: &str, update: ActivityUpdate) -> (step: AnnotationStep)
        ensures
            step@ == annotation_begun(self@, session_id@, update@),
    {
        begin_annotation(self.clone(), session_id, update)
    }

    /// Starts the discovery of the identities of a realm, where one is given, that
    /// were updated in a number of hours, where one is given.
    pub fn discover(&self, recent_hours: Option<i64>, realm: Option<&str>) -> (step: DiscoveryStep)
        ensures
            step@ == discovery_begun(self@, recent_hours, slice_view(realm)),
    {
        let realm = match realm {
            Some(realm) => Some(realm.to_owned()),
            None => None,
        };
        begin_discovery(self.clone(), recent_hours, realm)
    }

    /// Starts the pruning of the identities that were updated before a cutoff.
    pub fn prune(&self, cutoff: Timestamp, dry_run: bool) -> (step: PruningStep)
        ensures
            step@ == pruning_begun(self@, cutoff, dry_run),
    {
        begin_pruning(self.clone(), cutoff, dry_run)
    }

    /// The directory of the records.
    pub fn sessions_path(&self) -> (place: Place)
        ensures
            place@ == sessions_place(self@),
    {
        self.root.join("by-session")
    }

    /// The directory of the claims of names.
    pub fn names_path(&self) -> (place: Place)
        ensures
            place@ == names_place(self@),
    {
        self.root.join("by-name")
    }

    /// The file of a session's record.
    pub fn session_path(&self, session_id: &str) -> (place: Place)
        ensures
            place@ == session_place(self@, session_id@),
    {
        let mut name = session_id.to_owned();
        name.append(".json");
        self.sessions_path().join(name.as_str())
    }

    /// The file of a name's claim.
    pub fn claim_path(&self, slug: &str) -> (place: Place)
        ensures
            place@ == claim_place(self@, slug@),
    {
        self.names_path().join(slug)
    }
}

/// Different sessions have different files of their records, and different slugs
/// different files of their claims, unless they start at the root.
pub proof fn lemma_places_differ(registry: PlaceView, left: Seq<char>, right: Seq<char>)
    requires
        left != right,
        !is_absolute(left),
        !is_absolute(right),
    ensures
        session_place(registry, left) != session_place(registry, right),
        claim_place(registry, left) != claim_place(registry, right),
{
    reveal_strlit("/");
    reveal_strlit("by-session");
    reveal_strlit("by-name");
    reveal_strlit(".json");
    assert(!is_absolute(left + ".json"@));
    assert(!is_absolute(right + ".json"@));
    if session_place(registry, left) == session_place(registry, right) {
        let directory = sessions_place(registry).below;
        let text = session_place(registry, left).below;
        let n = directory.len() as int + 1;
        assert(text.subrange(n, text.len() - 5) =~= left);
        assert(text.subrange(n, text.len() - 5) =~= right);
    }
    if claim_place(registry, left) == claim_place(registry, right) {
        let directory = names_place(registry).below;
        let text = claim_place(registry, left).below;
        let n = directory.len() as int + 1;
        assert(text.skip(n) =~= left);
        assert(text.skip(n) =~= right);
    }
}

} // verus!
