use std::collections::BTreeMap;
use std::path::{Path, PathBuf};

use agent_id_cli::activity::{ActivityState, ActivityStateValue};
use agent_id_cli::annotation::ActivityUpdate;
use agent_id_cli::assignment::{
    copy_extensions, copy_option, copy_summary, persisted_assignment, Assignment,
    ExtensionMetadata, StoredAssignment,
};
use agent_id_cli::commands::{
    execute_annotate, execute_current, execute_discover, execute_lookup, execute_prune,
    execute_register, AnnotateArgs, CurrentArgs, DiscoverArgs, DiscoverOutput, LookupArgs, Printed,
    PruneArgs, PruneOutput, PrunePrinted, RegisterArgs,
};
use agent_id_cli::discovery::is_record_name;
use agent_id_cli::error::Error;
use agent_id_cli::herdr::{
    AgentInfo, AgentSession, DiscoveredAssignment, HerdrWorktree, Snapshot, TabInfo, WorkspaceInfo,
};
use agent_id_cli::host::{Environment, Place, Reply, Request, Step};
use agent_id_cli::json::Json;
use agent_id_cli::pruning::PruneReport;
use agent_id_cli::realm::{auto_create_realm, resolve_realm, Chance};
use agent_id_cli::registration::NameLists;
use agent_id_cli::registry::Registry;
use agent_id_cli::text_map::TextMap;
use agent_id_cli::timestamp::Timestamp;

// A host that keeps its files in memory.
struct Host {
    records: BTreeMap<PathBuf, StoredAssignment>,
    texts: BTreeMap<PathBuf, String>,
    directories: Vec<PathBuf>,
    snapshot: Option<Snapshot>,
    seconds: i64,
    unremovable: Vec<PathBuf>,
    unreadable: Vec<PathBuf>,
}

fn path_of(place: &Place) -> PathBuf {
    if place.below.is_empty() {
        place.base.clone()
    } else {
        place.base.join(&place.below)
    }
}

fn copy_record(record: &StoredAssignment) -> StoredAssignment {
    StoredAssignment {
        version: record.version,
        session_id: record.session_id.clone(),
        name: record.name.clone(),
        slug: record.slug.clone(),
        first_name: record.first_name.clone(),
        family_name: record.family_name.clone(),
        realm: record.realm.clone(),
        summary: copy_summary(&record.summary),
        cwd: copy_option(&record.cwd),
        extensions: copy_extensions(&record.extensions),
        created_at: record.created_at,
        updated_at: record.updated_at,
    }
}

impl Host {
    fn new() -> Host {
        Host {
            records: BTreeMap::new(),
            texts: BTreeMap::new(),
            directories: Vec::new(),
            snapshot: None,
            seconds: 1_700_000_000,
            unremovable: Vec::new(),
            unreadable: Vec::new(),
        }
    }

    fn contents(&self, path: PathBuf) -> Reply {
        match self.texts.get(&path) {
            Some(text) => Reply::Contents {
                path: path.display().to_string(),
                text: text.clone(),
            },
            None => Reply::Missing,
        }
    }

    fn create(&mut self, path: PathBuf, contents: String) -> Reply {
        if let Some(text) = self.texts.get(&path) {
            return Reply::Exists { text: text.clone() };
        }
        self.texts.insert(path, contents);
        Reply::Performed
    }

    fn fault(path: PathBuf) -> Reply {
        Reply::Failed {
            path: path.display().to_string(),
            error: "denied".to_string(),
        }
    }

    fn perform(&mut self, request: Request) -> Reply {
        match request {
            Request::FindSession { place, .. } => match self.records.get(&path_of(&place)) {
                Some(record) => Reply::Session { record: copy_record(record) },
                None => Reply::Missing,
            },
            Request::ListSessions { place } => {
                let directory = path_of(&place);
                if !self.directories.contains(&directory) {
                    return Reply::Missing;
                }
                let mut records = Vec::new();
                for (path, record) in &self.records {
                    if path.parent() == Some(directory.as_path()) {
                        assert!(is_record_name(path.file_name().unwrap().to_str().unwrap()));
                        records.push(copy_record(record));
                    }
                }
                Reply::Sessions { records }
            }
            Request::ReplaceSession { place, record, .. } => {
                self.records.insert(path_of(&place), record);
                Reply::Performed
            }
            Request::CreateSession { place, record, .. } => {
                if self.records.contains_key(&path_of(&place)) {
                    return Reply::Exists { text: String::new() };
                }
                self.records.insert(path_of(&place), record);
                Reply::Performed
            }
            Request::RemoveSession { place, .. } => {
                let path = path_of(&place);
                if self.unremovable.contains(&path) || self.records.remove(&path).is_none() {
                    return Host::fault(path);
                }
                Reply::Performed
            }
            Request::PrepareDirectories { sessions, names } => {
                self.directories.push(path_of(&sessions));
                self.directories.push(path_of(&names));
                Reply::Performed
            }
            Request::ClaimName { place, contents, .. } => self.create(path_of(&place), contents),
            Request::FindClaim { place, .. } => self.contents(path_of(&place)),
            Request::ReadClaim { place, .. } => {
                let path = path_of(&place);
                if self.unreadable.contains(&path) {
                    return Host::fault(path);
                }
                self.contents(path)
            }
            Request::RemoveClaim { place, .. } => {
                let path = path_of(&place);
                if self.unremovable.contains(&path) || self.texts.remove(&path).is_none() {
                    return Host::fault(path);
                }
                Reply::Performed
            }
            Request::FindRealm { place } => self.contents(path_of(&place)),
            Request::CreateRealm { place, contents } => self.create(path_of(&place), contents),
            Request::ReadClock => {
                self.seconds += 1;
                Reply::Instant { now: Timestamp::new(self.seconds, 0).unwrap() }
            }
            Request::LoadSnapshot => match self.snapshot.take() {
                Some(snapshot) => Reply::Runtime { snapshot },
                None => Reply::Missing,
            },
        }
    }

    fn drive<K, T>(
        &mut self,
        step: Step<K, T>,
        resume: impl Fn(K, Reply) -> Step<K, T>,
    ) -> Result<T, Error> {
        let mut step = step;
        loop {
            match step {
                Step::Over { result } => return result,
                Step::Ask { request, then } => {
                    let reply = self.perform(request);
                    step = resume(then, reply);
                }
            }
        }
    }

    fn register(
        &mut self,
        session_id: &str,
        family: Option<&str>,
        realm: &str,
    ) -> Result<Assignment, Error> {
        let step = registry().register(session_id, family, realm, names());
        self.drive(step, |task, reply| task.resume(reply))
    }

    fn lookup(&mut self, input: &str) -> Result<Assignment, Error> {
        self.drive(registry().lookup(input), |task, reply| task.resume(reply))
    }

    fn annotate(&mut self, session_id: &str, update: ActivityUpdate) -> Result<Assignment, Error> {
        let step = registry().annotate(session_id, update);
        self.drive(step, |task, reply| task.resume(reply))
    }

    fn discover(
        &mut self,
        recent: Option<i64>,
        realm: Option<&str>,
    ) -> Result<Vec<Assignment>, Error> {
        let step = registry().discover(recent, realm);
        let found = self.drive(step, |task, reply| {
            assert!(task.can_resume(&reply));
            task.resume(reply)
        })?;
        Ok(found.assignments)
    }

    fn prune(&mut self, cutoff: Timestamp, dry_run: bool) -> Result<PruneReport, Error> {
        let step = registry().prune(cutoff, dry_run);
        self.drive(step, |task, reply| task.resume(reply))
    }

    fn run_register(
        &mut self,
        args: &RegisterArgs,
        environment: &Environment,
    ) -> Result<Printed, Error> {
        let step = execute_register(args, environment, names(), realms(), chance(1));
        self.drive(step, |command, reply| command.resume(reply))
    }

    fn run_lookup(&mut self, args: &LookupArgs, environment: &Environment) -> Result<Printed, Error> {
        let step = execute_lookup(args, environment);
        self.drive(step, |command, reply| command.resume(reply))
    }

    fn run_current(&mut self, json: bool, environment: &Environment) -> Result<Printed, Error> {
        let step = execute_current(&CurrentArgs { json }, environment);
        self.drive(step, |command, reply| command.resume(reply))
    }

    fn run_annotate(&mut self, args: AnnotateArgs) -> Result<Assignment, Error> {
        let step = execute_annotate(&args, &environment());
        match self.drive(step, |command, reply| command.resume(reply))? {
            Printed::Document { assignment } => Ok(assignment),
            Printed::Line { text } => panic!("{text}"),
        }
    }

    fn run_discover(
        &mut self,
        args: DiscoverArgs,
        environment: &Environment,
    ) -> Result<DiscoverOutput, Error> {
        let step = execute_discover(&args, environment);
        self.drive(step, |command, reply| {
            assert!(command.can_resume(&reply));
            command.resume(reply)
        })
    }

    fn run_prune(&mut self, args: PruneArgs) -> Result<PruneOutput, Error> {
        let step = execute_prune(&args, &environment());
        self.drive(step, |command, reply| command.resume(reply))
    }

    // The record of a session, as JSON output shows it.
    fn registered(&mut self, session_id: &str) -> Assignment {
        let args = RegisterArgs {
            session: Some(session_id.to_string()),
            family: None,
            realm: None,
            json: true,
        };
        document(self.run_register(&args, &environment()))
    }

    fn discovered(&mut self, args: DiscoverArgs) -> Vec<DiscoveredAssignment> {
        match self.run_discover(args, &environment()).unwrap() {
            DiscoverOutput::Document { records } => records,
            DiscoverOutput::Lines { lines } => panic!("{lines:?}"),
        }
    }

    fn discovered_lines(&mut self) -> Vec<String> {
        let args = DiscoverArgs { json: false, ..discover_args() };
        match self.run_discover(args, &environment()).unwrap() {
            DiscoverOutput::Lines { lines } => lines,
            DiscoverOutput::Document { records } => panic!("{records:?}"),
        }
    }
}

fn root() -> &'static Path {
    Path::new("/registry")
}

fn registry() -> Registry {
    Registry::new(root().to_path_buf())
}

fn texts(values: &[&str]) -> Vec<String> {
    values.iter().map(|value| value.to_string()).collect()
}

fn names() -> NameLists {
    NameLists {
        first_names: texts(&["spring", "ash", "ivy", "rowan", "wren", "hazel", "reed"]),
        family_names: texts(&["oak", "stone", "brook", "vale", "fern"]),
    }
}

fn realms() -> Vec<String> {
    texts(&["Darkwood", "Highmoor", "Stillwater"])
}

fn chance(nanoseconds: u128) -> Chance {
    Chance { nanoseconds, process_id: 7, hostname: "host".to_string() }
}

fn environment() -> Environment {
    Environment {
        session_id: None,
        realm: Some("Darkwood".to_string()),
        registry_home: Some(root().to_path_buf()),
        data_home: None,
        config_home: None,
        home: None,
        herdr_marker: None,
        herdr_socket_path: None,
    }
}

// The environment that some variables make.
fn environment_of(variables: &[(&str, &str)]) -> Environment {
    let text = |name: &str| {
        variables
            .iter()
            .find(|(variable, _)| *variable == name)
            .map(|(_, value)| value.to_string())
    };
    Environment {
        session_id: text("AGENT_ID_SESSION_ID"),
        realm: text("AGENT_REALM"),
        registry_home: text("AGENT_ID_HOME").map(PathBuf::from),
        data_home: text("XDG_DATA_HOME").map(PathBuf::from),
        config_home: text("XDG_CONFIG_HOME").map(PathBuf::from),
        home: text("HOME").map(PathBuf::from),
        herdr_marker: text("HERDR_ENV"),
        herdr_socket_path: text("HERDR_SOCKET_PATH"),
    }
}

fn session_environment(session_id: &str) -> Environment {
    Environment { session_id: Some(session_id.to_string()), ..environment() }
}

fn herdr_environment() -> Environment {
    Environment {
        herdr_marker: Some("1".to_string()),
        herdr_socket_path: Some("/tmp/herdr.sock".to_string()),
        ..environment()
    }
}

fn update() -> ActivityUpdate {
    ActivityUpdate {
        summary: None,
        clear_summary: false,
        state: None,
        clear_state: false,
        cwd: None,
        clear_cwd: false,
        extensions: TextMap::new(),
        clear_extensions: TextMap::new(),
    }
}

fn annotate_args(session_id: &str) -> AnnotateArgs {
    AnnotateArgs {
        session: Some(session_id.to_string()),
        summary: None,
        clear_summary: false,
        state: None,
        clear_state: false,
        cwd: None,
        clear_cwd: false,
        extensions: Vec::new(),
        clear_extensions: Vec::new(),
        json: true,
    }
}

fn discover_args() -> DiscoverArgs {
    DiscoverArgs { limit: 20, recent: None, realm: None, all: false, json: true }
}

fn lookup_args(input: &str, json: bool) -> LookupArgs {
    LookupArgs { input: Some(input.to_string()), json }
}

fn document(printed: Result<Printed, Error>) -> Assignment {
    match printed.unwrap() {
        Printed::Document { assignment } => assignment,
        Printed::Line { text } => panic!("{text}"),
    }
}

fn line(printed: Result<Printed, Error>) -> String {
    match printed.unwrap() {
        Printed::Line { text } => text,
        Printed::Document { assignment } => panic!("{assignment:?}"),
    }
}

fn later(left: &Timestamp, right: &Timestamp) -> bool {
    !left.is_before(right)
}

fn instant(seconds: i64) -> Timestamp {
    Timestamp::new(seconds, 0).unwrap()
}

// ---------------------------------------------------------------------------
// The registry
// ---------------------------------------------------------------------------

#[test]
fn generated_identity_has_canonical_parts() {
    let mut host = Host::new();
    let assignment = host.register("session-1", Some("Oak"), "Darkwood").unwrap();

    assert_eq!(assignment.family_name, "Oak");
    assert_eq!(assignment.realm, "Darkwood");
    assert_eq!(
        assignment.slug,
        format!("{}-oak-darkwood", assignment.first_name.to_ascii_lowercase())
    );
    assert_eq!(assignment.name, format!("{} Oak of Darkwood", assignment.first_name));
}

#[test]
fn session_id_is_the_registry_filename() {
    let mut host = Host::new();
    host.register("session-visible", None, "Darkwood").unwrap();

    assert!(host
        .records
        .contains_key(&root().join("by-session/session-visible.json")));
}

#[test]
fn unsafe_session_ids_are_rejected() {
    let mut host = Host::new();
    let error = host.register("../escape", None, "Darkwood").unwrap_err();
    assert!(error.message().contains("filename-safe"));
    assert!(host.records.is_empty());
}

#[test]
fn lookup_accepts_session_name_and_slug() {
    let mut host = Host::new();
    let assignment = host.register("session-lookup", Some("Oak"), "Darkwood").unwrap();

    assert_eq!(host.lookup(&assignment.session_id).unwrap(), assignment);
    assert_eq!(host.lookup(&assignment.name).unwrap(), assignment);
    assert_eq!(host.lookup(&assignment.slug).unwrap(), assignment);
    assert_eq!(host.lookup(&assignment.name.to_uppercase()).unwrap(), assignment);
    assert_eq!(host.lookup(&format!("  {}\n", assignment.slug)).unwrap(), assignment);
}

#[test]
fn missing_realm_is_auto_created_and_reused() {
    let mut host = Host::new();
    let place = || Place {
        base: PathBuf::from("/config"),
        below: "agent-id/realm".to_string(),
    };
    let realm_file = path_of(&place());
    assert!(!host.texts.contains_key(&realm_file));

    let step = auto_create_realm(place(), &realms(), &chance(1));
    let first = host.drive(step, |task, reply| task.resume(reply)).unwrap();
    assert!(host.texts.contains_key(&realm_file));
    let contents = host.texts[&realm_file].clone();
    assert_eq!(contents.trim(), first);

    for nanoseconds in 2..20 {
        let step = auto_create_realm(place(), &realms(), &chance(nanoseconds));
        let second = host.drive(step, |task, reply| task.resume(reply)).unwrap();
        assert_eq!(second, first);
        assert_eq!(host.texts[&realm_file], contents);
    }

    let step = auto_create_realm(place(), &texts(&["1"]), &chance(1));
    assert_eq!(
        host.drive(step, |task, reply| task.resume(reply)).unwrap_err(),
        Error::InvalidComponent { kind: "realm".to_string() }
    );
}

#[test]
fn processes_that_take_turns_have_one_realm() {
    let home = Environment {
        realm: None,
        home: Some(PathBuf::from("/home/me")),
        ..environment()
    };
    let realm_file = PathBuf::from("/home/me/.config/agent-id/realm");
    for first in 0..3 {
        let mut host = Host::new();
        let mut steps: Vec<_> = (0..3)
            .map(|i| resolve_realm(None, &home, texts(&[realms()[i].as_str()]), chance(1)))
            .collect();
        // Nobody finds a file; then the first writes it, and so do the others after it.
        for turn in [0, 1, 2, first, 0, 1, 2] {
            let step = steps.remove(turn);
            let next = match step {
                Step::Over { result } => Step::Over { result },
                Step::Ask { request, then } => then.resume(host.perform(request)),
            };
            steps.insert(turn, next);
        }
        for step in steps {
            match step {
                Step::Over { result } => assert_eq!(result.unwrap(), realms()[first]),
                Step::Ask { .. } => panic!("not over"),
            }
        }
        assert_eq!(host.texts[&realm_file], format!("{}\n", realms()[first]));
    }
}

#[test]
fn concurrent_realm_creation_keeps_one_value() {
    let mut host = Host::new();
    let mut asked = Vec::new();
    for nanoseconds in 0..8 {
        let place = Place {
            base: PathBuf::from("/config"),
            below: "agent-id/realm".to_string(),
        };
        asked.push(auto_create_realm(place, &realms(), &chance(nanoseconds)));
    }
    let mut created = Vec::new();
    for step in asked {
        created.push(host.drive(step, |task, reply| task.resume(reply)).unwrap());
    }
    for realm in &created {
        assert_eq!(realm, &created[0]);
    }
}

#[test]
fn registering_a_session_updates_existing_identity() {
    let mut host = Host::new();
    let first = host.register("session-1", None, "Darkwood").unwrap();
    let second = host.register("session-1", None, "Darkwood").unwrap();

    assert_eq!(second.name, first.name);
    assert_eq!(second.session_id, first.session_id);
    assert_eq!(second.created_at, first.created_at);
    assert!(later(&second.updated_at, &first.updated_at));
    assert!(first.updated_at.is_before(&second.updated_at));
}

#[test]
fn lookup_requires_a_registered_session() {
    let mut host = Host::new();
    let error = host.lookup("missing").unwrap_err();
    assert!(error.message().contains("no identity found"));
    assert_eq!(error, Error::NoIdentity { input: "missing".to_string() });
}

#[test]
fn sessions_never_share_a_name() {
    let mut host = Host::new();
    let mut slugs = Vec::new();
    for n in 0..30 {
        let assignment = host.register(&format!("many-{n}"), None, "Darkwood").unwrap();
        assert_ne!(assignment.first_name, assignment.family_name);
        slugs.push(assignment.slug);
    }
    slugs.sort();
    let count = slugs.len();
    slugs.dedup();
    assert_eq!(slugs.len(), count);
}

// The results of some registrations that take turns; none is left with something to do.
fn take_turns(
    host: &mut Host,
    applications: &[(&str, Option<&str>)],
    turns: &[usize],
) -> Vec<Result<Assignment, Error>> {
    let mut steps: Vec<_> = applications
        .iter()
        .map(|(session_id, family)| registry().register(session_id, *family, "Darkwood", names()))
        .collect();
    for turn in turns {
        let next = match steps.remove(*turn) {
            Step::Over { result } => Step::Over { result },
            Step::Ask { request, then } => then.resume(host.perform(request)),
        };
        steps.insert(*turn, next);
    }
    steps
        .into_iter()
        .map(|step| host.drive(step, |task, reply| task.resume(reply)))
        .collect()
}

#[test]
fn registrations_that_take_turns_share_no_name() {
    // With one family name, the seven first names are soon tried by two sessions.
    let applications: Vec<(String, Option<&str>)> =
        (0..7).map(|i| (format!("session-{i}"), Some("Yew"))).collect();
    let applications: Vec<(&str, Option<&str>)> = applications
        .iter()
        .map(|(session_id, family)| (session_id.as_str(), *family))
        .collect();
    for turns in [
        (0..70).map(|k| k % 7).collect::<Vec<usize>>(),
        (0..70).map(|k| 6 - k % 7).collect(),
        (0..70).map(|k| (k * k) % 7).collect(),
        Vec::new(),
    ] {
        let mut host = Host::new();
        let results = take_turns(&mut host, &applications, &turns);
        let mut slugs: Vec<String> = Vec::new();
        for ((session_id, _), result) in applications.iter().zip(results) {
            let assignment = result.unwrap();
            assert_eq!(assignment.session_id, *session_id);
            assert_eq!(host.lookup(session_id).unwrap(), assignment);
            assert_eq!(host.lookup(&assignment.name).unwrap(), assignment);
            let claim = &host.texts[&root().join("by-name").join(&assignment.slug)];
            assert_eq!(claim.trim(), *session_id);
            slugs.push(assignment.slug);
        }
        slugs.sort();
        slugs.dedup();
        assert_eq!(slugs.len(), 7);
    }
}

#[test]
fn one_session_that_registers_twice_at_once_has_one_name() {
    // Both find no record and claim a name; the second to write its record is refused.
    let mut host = Host::new();
    let applications = [("s", Some("Oak")), ("s", Some("Stone"))];
    let mut results = take_turns(&mut host, &applications, &[0, 1, 0, 1, 0, 1, 0, 1, 1, 0]);
    let second = results.remove(1).unwrap();
    assert_eq!(second.family_name, "Stone");
    assert_eq!(
        results.remove(0).unwrap_err(),
        Error::AlreadyRegistered { session_id: "s".to_string() }
    );
    assert_eq!(host.lookup("s").unwrap(), second);
    assert_eq!(host.lookup(&second.name).unwrap(), second);

    // One that starts after the record is written keeps the name.
    let mut host = Host::new();
    let mut results = take_turns(&mut host, &applications, &[0, 0, 0, 0, 0, 1]);
    let second = results.remove(1).unwrap();
    let first = results.remove(0).unwrap();
    assert_eq!((&second.name, &second.slug), (&first.name, &first.slug));
    assert_eq!(second.created_at, first.created_at);

    let mut host = Host::new();
    let results = take_turns(&mut host, &[("../s", None), ("t", None)], &[0, 1, 0, 1]);
    assert!(results[0].is_err() && results[1].is_ok());
}

#[test]
fn names_run_out() {
    let mut host = Host::new();
    let few = || NameLists { first_names: texts(&["ash", "oak"]), family_names: texts(&["oak"]) };
    let step = registry().register("first", None, "Darkwood", few());
    let only = host.drive(step, |task, reply| task.resume(reply)).unwrap();
    assert_eq!(only.name, "Ash Oak of Darkwood");

    // The one name is tried and found taken once; the many other attempts choose "oak" twice.
    let step = registry().register("second", None, "Darkwood", NameLists {
        first_names: texts(&["oak"]),
        family_names: texts(&["oak"]),
    });
    let error = host.drive(step, |task, reply| task.resume(reply)).unwrap_err();
    assert_eq!(error, Error::NamesExhausted { realm: "Darkwood".to_string() });
    assert!(!host.records.contains_key(&root().join("by-session/second.json")));
}

#[test]
fn a_name_that_the_session_has_claimed_is_taken_up_again() {
    let mut host = Host::new();
    let first = host.register("again", None, "Darkwood").unwrap();
    host.records.clear();
    let second = host.register("again", None, "Darkwood").unwrap();
    assert_eq!(second.name, first.name);
    assert_eq!(host.texts[&root().join("by-name").join(&first.slug)], "again\n");
}

#[test]
fn registration_refuses_what_is_no_part_of_a_name() {
    let mut host = Host::new();
    let realm = host.register("s", None, "Dark wood").unwrap_err();
    assert_eq!(realm, Error::InvalidComponent { kind: "realm".to_string() });
    assert_eq!(realm.message(), "realm must contain only letters, apostrophes, or hyphens");
    let family = host.register("s", Some("Oak3"), "Darkwood").unwrap_err();
    assert_eq!(family, Error::InvalidComponent { kind: "family name".to_string() });
    let step = registry().register("s", None, "Darkwood", NameLists {
        first_names: Vec::new(),
        family_names: texts(&["oak"]),
    });
    let nothing = host.drive(step, |task, reply| task.resume(reply)).unwrap_err();
    assert_eq!(nothing, Error::NoNames);
    let blank = host.register("  ", None, "Darkwood").unwrap_err();
    assert_eq!(blank, Error::Empty { kind: "session ID".to_string() });
    assert_eq!(blank.message(), "session ID cannot be empty");
    assert!(host.records.is_empty() && host.texts.is_empty());
}

#[test]
fn a_record_written_meanwhile_is_kept() {
    let mut host = Host::new();
    let other = host.register("other", None, "Darkwood").unwrap();
    let step = registry().register("raced", None, "Darkwood", names());
    let mut step = step;
    let error = loop {
        match step {
            Step::Over { result } => break result.unwrap_err(),
            Step::Ask { request, then } => {
                if let Request::CreateSession { place, .. } = &request {
                    host.records.insert(path_of(place), persisted_assignment(&other));
                }
                let reply = host.perform(request);
                step = then.resume(reply);
            }
        }
    };
    assert_eq!(error, Error::AlreadyRegistered { session_id: "raced".to_string() });
    assert_eq!(error.message(), "session raced already has a registered identity");
}

#[test]
fn lookup_tells_what_is_wrong_with_a_claim() {
    let mut host = Host::new();
    let assignment = host.register("owner", None, "Darkwood").unwrap();
    let claim = root().join("by-name").join(&assignment.slug);
    let record = root().join("by-session/owner.json");

    host.texts.insert(claim.clone(), " \n".to_string());
    assert_eq!(
        host.lookup(&assignment.name).unwrap_err(),
        Error::Empty { kind: "claimed session ID".to_string() }
    );

    host.texts.insert(claim.clone(), "../owner".to_string());
    let unsafe_claim = host.lookup(&assignment.slug).unwrap_err();
    assert_eq!(
        unsafe_claim,
        Error::BrokenClaim {
            slug: assignment.slug.clone(),
            failure: Box::new(Error::UnsafeSessionId)
        }
    );

    host.texts.insert(claim.clone(), "nobody\n".to_string());
    let broken = host.lookup(&assignment.slug).unwrap_err();
    assert_eq!(
        broken.message(),
        format!(
            "resolve name claim {}: no identity registered for session nobody; run `agent-id register nobody`",
            assignment.slug
        )
    );

    host.texts.insert(claim, "owner\n".to_string());
    let mut foreign = persisted_assignment(&assignment);
    foreign.session_id = "somebody".to_string();
    host.records.insert(record, foreign);
    assert_eq!(
        host.lookup("owner").unwrap_err(),
        Error::ForeignRecord { session_id: "owner".to_string() }
    );
    assert_eq!(
        host.lookup(&assignment.slug).unwrap_err().message(),
        format!(
            "resolve name claim {}: identity registry entry does not belong to session owner",
            assignment.slug
        )
    );
    assert_eq!(
        host.lookup(" ").unwrap_err().message(),
        "lookup identifier cannot be empty"
    );
}

#[test]
fn replies_out_of_turn_are_refused() {
    let step = registry().lookup("someone");
    match step {
        Step::Ask { then, .. } => match then.resume(Reply::Performed) {
            Step::Over { result } => assert_eq!(result.unwrap_err(), Error::OutOfTurn),
            Step::Ask { .. } => panic!("asked"),
        },
        Step::Over { .. } => panic!("over"),
    }
}

#[test]
fn annotation_refuses_updates_that_contradict_themselves() {
    let mut host = Host::new();
    host.register("s", None, "Darkwood").unwrap();
    assert_eq!(host.annotate("s", update()).unwrap_err(), Error::NoUpdate);
    let both = ActivityUpdate {
        summary: Some("x".to_string()),
        clear_summary: true,
        ..update()
    };
    assert_eq!(host.annotate("s", both).unwrap_err(), Error::SummaryConflict);
    let both = ActivityUpdate {
        state: Some(ActivityStateValue::Idle),
        clear_state: true,
        ..update()
    };
    assert_eq!(host.annotate("s", both).unwrap_err(), Error::StateConflict);
    let both = ActivityUpdate { cwd: Some("/".to_string()), clear_cwd: true, ..update() };
    assert_eq!(host.annotate("s", both).unwrap_err(), Error::CwdConflict);
    let mut both = update();
    for owner in ["b", "a", "c"] {
        both.extensions.insert(owner.to_string(), Json::Null);
    }
    for owner in ["c", "b"] {
        both.clear_extensions.insert(owner.to_string(), ());
    }
    let conflict = host.annotate("s", both).unwrap_err();
    assert_eq!(conflict, Error::ExtensionConflict { owner: "b".to_string() });
    assert_eq!(conflict.message(), "extension b cannot be set and cleared together");
    let unknown = ActivityUpdate { clear_cwd: true, ..update() };
    let missing = host.annotate("nobody", unknown).unwrap_err();
    assert_eq!(missing, Error::NotRegistered { session_id: "nobody".to_string() });
    let long = ActivityUpdate { summary: Some("x".repeat(241)), ..update() };
    assert_eq!(host.annotate("s", long).unwrap_err(), Error::SummaryTooLong);
    let control = ActivityUpdate { cwd: Some("/a\u{7}b".to_string()), ..update() };
    assert_eq!(host.annotate("s", control).unwrap_err(), Error::CwdControl);
    let long = ActivityUpdate { cwd: Some("x".repeat(4097)), ..update() };
    assert_eq!(host.annotate("s", long).unwrap_err(), Error::CwdTooLong);
}

#[test]
fn annotation_keeps_what_it_does_not_mention() {
    let mut host = Host::new();
    let registered = host.register("s", None, "Darkwood").unwrap();
    let mut change = ActivityUpdate {
        summary: Some("  one \t two ".to_string()),
        cwd: Some("/work".to_string()),
        state: Some(ActivityStateValue::Blocked),
        ..update()
    };
    change.extensions.insert("tool".to_string(), Json::Bool(true));
    let first = host.annotate("s", change).unwrap();
    assert_eq!(first.summary.as_ref().unwrap().text, "one two");
    assert_eq!(
        first.state,
        ActivityState { value: ActivityStateValue::Blocked, updated_at: first.updated_at }
    );

    let mut change = update();
    change.extensions.insert("other".to_string(), Json::Number("1.5".to_string()));
    let second = host.annotate("s", change).unwrap();
    assert_eq!(second.summary, first.summary);
    assert_eq!(second.cwd, first.cwd);
    assert_eq!(second.state, first.state);
    assert_eq!(second.extensions.get("tool"), first.extensions.get("tool"));
    assert_eq!(second.extensions.get("omp"), first.extensions.get("omp"));
    assert_eq!(second.name, registered.name);
    assert_eq!(second.created_at, registered.created_at);
    assert!(first.updated_at.is_before(&second.updated_at));
    assert_eq!(host.lookup("s").unwrap(), second);
    assert_eq!(host.lookup(&second.name).unwrap(), second);
    assert_eq!(host.lookup(&second.slug).unwrap(), second);

    let cleared = host
        .annotate("s", ActivityUpdate { clear_state: true, ..update() })
        .unwrap();
    assert_eq!(cleared.state, ActivityState::unknown(cleared.updated_at));
    assert_eq!(cleared.summary, first.summary);
}

#[test]
fn a_bare_word_of_activity_is_spelt_out() {
    let mut host = Host::new();
    host.register("s", None, "Darkwood").unwrap();
    let args = AnnotateArgs {
        extensions: texts(&[r#"omp={"state":"waiting","kept":1}"#]),
        ..annotate_args("s")
    };
    let annotated = host.run_annotate(args).unwrap();
    assert_eq!(annotated.state.value, ActivityStateValue::Waiting);
    assert_eq!(annotated.state.updated_at, annotated.updated_at);
    let data = &annotated.extensions.get("omp").unwrap().data;
    let state = data.field("state").unwrap();
    assert_eq!(state.field("value").unwrap().as_text().unwrap(), "waiting");
    assert_eq!(data.field("kept"), Some(&Json::Number("1".to_string())));

    let args = AnnotateArgs { extensions: texts(&[r#"omp={"state":"odd"}"#]), ..annotate_args("s") };
    assert_eq!(host.run_annotate(args).unwrap().state.value, ActivityStateValue::Unknown);
}

#[test]
fn an_update_without_the_extension_leaves_its_bare_word() {
    let mut host = Host::new();
    host.register("s", None, "Darkwood").unwrap();
    let args = AnnotateArgs { extensions: texts(&[r#"omp=7"#]), ..annotate_args("s") };
    host.run_annotate(args).unwrap();
    let record = host.records.get_mut(&root().join("by-session/s.json")).unwrap();
    let mut fields = TextMap::new();
    fields.insert("state".to_string(), Json::Text("waiting".to_string()));
    let mut extensions = TextMap::new();
    extensions.insert(
        "omp".to_string(),
        ExtensionMetadata { data: Json::Object(fields), updated_at: instant(5) },
    );
    record.extensions = extensions;

    let before = host.lookup("s").unwrap();
    assert_eq!(
        before.state,
        ActivityState { value: ActivityStateValue::Waiting, updated_at: instant(5) }
    );
    let change = ActivityUpdate { summary: Some("busy".to_string()), ..update() };
    let after = host.annotate("s", change).unwrap();
    assert_eq!(after.extensions, before.extensions);
    assert_eq!(after.state, before.state);
    assert_eq!(after.summary.as_ref().unwrap().text, "busy");
    assert_eq!(host.lookup("s").unwrap(), after);
}

#[test]
fn discovery_is_newest_first_and_bounded_in_time() {
    let mut host = Host::new();
    host.register("old", None, "Darkwood").unwrap();
    host.seconds += 3 * 3600;
    host.register("elsewhere", None, "Highmoor").unwrap();
    host.register("new", None, "Darkwood").unwrap();

    let ids = |found: Vec<Assignment>| {
        found.into_iter().map(|found| found.session_id).collect::<Vec<_>>()
    };
    assert_eq!(ids(host.discover(None, None).unwrap()), vec!["new", "elsewhere", "old"]);
    assert_eq!(ids(host.discover(None, Some(" darkwood ")).unwrap()), vec!["new", "old"]);
    assert_eq!(ids(host.discover(Some(1), None).unwrap()), vec!["new", "elsewhere"]);
    assert_eq!(ids(host.discover(Some(4), None).unwrap()).len(), 3);
    assert_eq!(ids(host.discover(Some(0), None).unwrap()).len(), 0);
    assert_eq!(host.discover(Some(-1), None).unwrap_err(), Error::NegativeRecent);
    assert_eq!(
        host.discover(None, Some("1")).unwrap_err(),
        Error::InvalidComponent { kind: "realm".to_string() }
    );
    assert_eq!(Host::new().discover(Some(1), None).unwrap().len(), 0);
}

#[test]
fn pruning_removes_exactly_what_is_old() {
    let mut host = Host::new();
    let old = host.register("old", None, "Darkwood").unwrap();
    let older_claim = root().join("by-name").join(&old.slug);
    host.seconds += 1000;
    let new = host.register("new", None, "Darkwood").unwrap();
    let cutoff = instant(host.seconds - 500);

    let preview = host.prune(cutoff, true).unwrap();
    assert!(preview.dry_run && preview.removed.is_empty() && preview.errors.is_empty());
    assert_eq!(preview.candidates, vec![old.clone()]);
    assert!(host.texts.contains_key(&older_claim));

    let report = host.prune(cutoff, false).unwrap();
    assert_eq!(report.candidates, vec![old.clone()]);
    assert_eq!(report.removed.len(), 1);
    assert!(report.removed[0].claim_removed);
    assert_eq!(report.removed[0].session_id, "old");
    assert_eq!(report.removed[0].name, old.name);
    assert_eq!(report.removed[0].slug, old.slug);
    assert_eq!(report.removed[0].updated_at, old.updated_at);
    assert!(!host.texts.contains_key(&older_claim));
    assert!(host.lookup(&old.name).is_err());
    assert_eq!(host.lookup(&new.name).unwrap(), new);
    assert!(Host::new().prune(cutoff, false).unwrap().candidates.is_empty());
}

#[test]
fn pruning_reports_what_goes_wrong() {
    let mut host = Host::new();
    let mut slugs = Vec::new();
    for session_id in ["a", "b", "c", "d", "e"] {
        slugs.push(host.register(session_id, None, "Darkwood").unwrap().slug);
    }
    let claim = |slug: &String| root().join("by-name").join(slug);
    host.unremovable.push(root().join("by-session/a.json"));
    host.texts.insert(claim(&slugs[1]), "z\n".to_string());
    host.texts.remove(&claim(&slugs[2]));
    host.unreadable.push(claim(&slugs[3]));
    host.unremovable.push(claim(&slugs[4]));

    let report = host.prune(instant(host.seconds + 1), false).unwrap();
    assert_eq!(report.candidates.len(), 5);
    let removed: Vec<(&str, bool)> = report
        .removed
        .iter()
        .map(|removed| (removed.session_id.as_str(), removed.claim_removed))
        .collect();
    assert_eq!(removed, vec![("b", false), ("c", false), ("d", false), ("e", false)]);
    assert_eq!(
        report.errors,
        vec![
            "remove /registry/by-session/a.json: denied".to_string(),
            format!("name claim /registry/by-name/{} belongs to z, not b", slugs[1]),
            format!("read name claim /registry/by-name/{}: denied", slugs[3]),
            format!("remove name claim /registry/by-name/{}: denied", slugs[4]),
        ]
    );
}

#[test]
fn realm_comes_from_argument_environment_or_file() {
    let mut host = Host::new();
    let mut from = |explicit: Option<&str>, environment: &Environment| {
        let step = resolve_realm(explicit, environment, realms(), chance(5));
        host.drive(step, |task, reply| task.resume(reply))
    };
    assert_eq!(from(Some(" stillwater "), &environment()).unwrap(), "Stillwater");
    assert_eq!(from(Some("  "), &environment()).unwrap(), "Darkwood");
    assert_eq!(
        from(Some("x1"), &environment()).unwrap_err(),
        Error::InvalidComponent { kind: "realm".to_string() }
    );
    let bare = || Environment { realm: None, ..environment() };
    assert_eq!(from(None, &bare()).unwrap_err(), Error::NoHome);
    let home = Environment { home: Some(PathBuf::from("/home/me")), ..bare() };
    let chosen = from(None, &home).unwrap();
    assert_eq!(from(None, &home).unwrap(), chosen);
    assert_eq!(
        host.texts[&PathBuf::from("/home/me/.config/agent-id/realm")],
        format!("{chosen}\n")
    );
    let step = resolve_realm(
        None,
        &Environment { config_home: Some(PathBuf::from("/config")), ..home },
        Vec::new(),
        chance(5),
    );
    let error = host.drive(step, |task, reply| task.resume(reply)).unwrap_err();
    assert_eq!(error, Error::NoRealms);
}

#[test]
fn registry_home_comes_from_the_environment() {
    let at = |environment: Environment| match Registry::from_env(&environment) {
        Ok(registry) => Ok(path_of(&registry.session_path("s"))),
        Err(error) => Err(error),
    };
    let none = || Environment { registry_home: None, ..environment() };
    assert_eq!(at(environment()).unwrap(), Path::new("/registry/by-session/s.json"));
    assert_eq!(
        at(Environment { data_home: Some(PathBuf::from("/data")), ..none() }).unwrap(),
        Path::new("/data/agent-id/by-session/s.json")
    );
    assert_eq!(
        at(Environment { home: Some(PathBuf::from("/home/me")), ..none() }).unwrap(),
        Path::new("/home/me/.local/share/agent-id/by-session/s.json")
    );
    assert_eq!(at(none()).unwrap_err(), Error::NoHome);
}

#[test]
fn sessions_and_names_have_files_of_their_own() {
    let registry = registry();
    let ids = ["a", "b", "a.json", "json", "a-b"];
    for left in ids {
        for right in ids {
            let same = path_of(&registry.session_path(left)) == path_of(&registry.session_path(right));
            assert_eq!(same, left == right);
            let same = path_of(&registry.claim_path(left)) == path_of(&registry.claim_path(right));
            assert_eq!(same, left == right);
        }
    }
    assert_eq!(path_of(&registry.claim_path("a-b")), Path::new("/registry/by-name/a-b"));
    assert_eq!(path_of(&registry.sessions_path()), Path::new("/registry/by-session"));
    assert_eq!(path_of(&registry.names_path()), Path::new("/registry/by-name"));
}

#[test]
fn a_slug_that_is_a_session_id_leads_to_that_session() {
    let mut host = Host::new();
    let first = host.register("first", None, "Darkwood").unwrap();
    let second = host.register(&first.slug, None, "Darkwood").unwrap();
    assert_eq!(host.lookup(&first.slug).unwrap(), second);
    assert_eq!(host.lookup(&first.name).unwrap(), first);
}

// ---------------------------------------------------------------------------
// The commands
// ---------------------------------------------------------------------------

#[test]
fn register_and_lookup_print_the_same_name() {
    let mut host = Host::new();
    let args = RegisterArgs {
        session: Some("session-1".to_string()),
        family: Some("Oak".to_string()),
        realm: None,
        json: false,
    };
    let name = line(host.run_register(&args, &environment()));
    assert!(name.ends_with(" Oak of Darkwood"), "{name:?}");

    let looked_up = line(host.run_lookup(&lookup_args("session-1", false), &environment()));
    assert_eq!(looked_up, name);
}

#[test]
fn json_contains_the_canonical_assignment() {
    let mut host = Host::new();
    let args = RegisterArgs {
        session: Some("session-2".to_string()),
        family: Some("Oak".to_string()),
        realm: None,
        json: true,
    };
    let assignment = document(host.run_register(&args, &environment()));
    assert_eq!(assignment.version, 1);
    assert_eq!(assignment.session_id, "session-2");
    assert_eq!(assignment.family_name, "Oak");
    assert_eq!(assignment.realm, "Darkwood");
    assert_eq!(assignment.state.value.label(), "unknown");
    assert!(host
        .records
        .contains_key(&root().join("by-session/session-2.json")));
    assert_eq!(
        assignment.slug,
        format!("{}-oak-darkwood", assignment.first_name.to_ascii_lowercase())
    );

    let looked_up = document(host.run_lookup(&lookup_args("session-2", true), &environment()));
    assert_eq!(looked_up, assignment);

    for identifier in [assignment.name.as_str(), assignment.slug.as_str()] {
        let looked_up = document(host.run_lookup(&lookup_args(identifier, true), &environment()));
        assert_eq!(looked_up, assignment);
    }
}

#[test]
fn annotate_updates_discovers_and_clears_summary() {
    let mut host = Host::new();
    let registered = host.registered("summary-session");

    let annotated = host
        .run_annotate(AnnotateArgs {
            summary: Some("  Implementing\n  activity summaries  ".to_string()),
            ..annotate_args("summary-session")
        })
        .unwrap();
    let summary = annotated.summary.as_ref().unwrap();
    assert_eq!(summary.text, "Implementing activity summaries");
    assert!(later(&summary.updated_at, &registered.updated_at));
    assert_eq!(annotated.name, registered.name);
    assert_eq!(annotated.created_at, registered.created_at);

    let looked_up = document(host.run_lookup(&lookup_args("summary-session", true), &environment()));
    assert_eq!(looked_up, annotated);

    let discovered = host.discovered(discover_args());
    assert_eq!(
        discovered,
        vec![DiscoveredAssignment { assignment: annotated.clone(), runtime: None }]
    );

    assert_eq!(
        host.discovered_lines(),
        vec![format!(
            "{}\t{}\tstate:unknown\tsummary:Implementing activity summaries",
            annotated.name, annotated.session_id
        )]
    );

    let cleared = host
        .run_annotate(AnnotateArgs { clear_summary: true, ..annotate_args("summary-session") })
        .unwrap();
    assert_eq!(cleared.summary, None);
    assert_eq!(cleared.name, registered.name);
    assert_eq!(cleared.created_at, registered.created_at);

    assert_eq!(
        host.discovered_lines(),
        vec![format!("{}\t{}\tstate:unknown", cleared.name, cleared.session_id)]
    );
}

#[test]
fn annotate_updates_state_independently_from_summary() {
    let mut host = Host::new();
    let registered = host.registered("state-session");

    let working = host
        .run_annotate(AnnotateArgs {
            state: Some(ActivityStateValue::Working),
            ..annotate_args("state-session")
        })
        .unwrap();
    assert_eq!(working.state.value.label(), "working");
    let value_of = |data: &Json| {
        data.field("state").unwrap().field("value").unwrap().as_text().unwrap().clone()
    };
    assert_eq!(value_of(&working.extensions.get("omp").unwrap().data), "working");
    let persisted = &host.records[&root().join("by-session/state-session.json")];
    assert_eq!(value_of(&persisted.extensions.get("omp").unwrap().data), "working");
    assert_eq!(working.summary, None);
    assert_eq!(working.name, registered.name);
    assert_eq!(working.created_at, registered.created_at);
    assert!(later(&working.updated_at, &registered.updated_at));

    let waiting = host
        .run_annotate(AnnotateArgs {
            summary: Some("Waiting for review".to_string()),
            state: Some(ActivityStateValue::Waiting),
            ..annotate_args("state-session")
        })
        .unwrap();
    assert_eq!(waiting.summary.as_ref().unwrap().text, "Waiting for review");
    assert_eq!(waiting.state.value.label(), "waiting");

    assert_eq!(
        host.discovered_lines(),
        vec![format!(
            "{}\t{}\tstate:waiting\tsummary:Waiting for review",
            waiting.name, waiting.session_id
        )]
    );

    let cleared = host
        .run_annotate(AnnotateArgs { clear_state: true, ..annotate_args("state-session") })
        .unwrap();
    assert_eq!(cleared.state.value.label(), "unknown");
    assert!(cleared.extensions.get("omp").unwrap().data.field("state").is_none());
    assert_eq!(cleared.summary.as_ref().unwrap().text, "Waiting for review");

    assert_eq!(ActivityStateValue::from_label("not-a-state"), None);
}

#[test]
fn annotate_updates_and_clears_cwd_metadata() {
    let mut host = Host::new();
    let registered = host.registered("cwd-session");

    let annotated = host
        .run_annotate(AnnotateArgs {
            cwd: Some("  /work/agent-id  ".to_string()),
            ..annotate_args("cwd-session")
        })
        .unwrap();
    assert_eq!(annotated.cwd.as_deref(), Some("/work/agent-id"));
    assert_eq!(annotated.name, registered.name);
    assert_eq!(annotated.created_at, registered.created_at);

    assert_eq!(
        host.discovered_lines(),
        vec![format!(
            "{}\t{}\tstate:unknown\tcwd:/work/agent-id",
            annotated.name, annotated.session_id
        )]
    );

    let stateful = host
        .run_annotate(AnnotateArgs {
            state: Some(ActivityStateValue::Working),
            ..annotate_args("cwd-session")
        })
        .unwrap();
    assert_eq!(stateful.cwd.as_deref(), Some("/work/agent-id"));
    assert_eq!(stateful.state.value.label(), "working");
    let cleared = host
        .run_annotate(AnnotateArgs { clear_cwd: true, ..annotate_args("cwd-session") })
        .unwrap();
    assert_eq!(cleared.cwd, None);
    assert_eq!(cleared.state.value.label(), "working");

    let invalid = host.run_annotate(AnnotateArgs {
        cwd: Some("/work\nagent-id".to_string()),
        ..annotate_args("cwd-session")
    });
    assert!(invalid.is_err());
}

#[test]
fn annotate_updates_and_clears_namespaced_extension_metadata() {
    let mut host = Host::new();
    host.registered("extension-session");

    let annotated = host
        .run_annotate(AnnotateArgs {
            extensions: texts(&[
                r#"omp={"session_file":"/tmp/extension-session.jsonl"}"#,
                "counter=42",
            ]),
            ..annotate_args("extension-session")
        })
        .unwrap();
    assert_eq!(
        annotated.extensions.get("omp").unwrap().data.field("session_file").unwrap(),
        &Json::Text("/tmp/extension-session.jsonl".to_string())
    );
    assert_eq!(
        annotated.extensions.get("counter").unwrap().data,
        Json::Number("42".to_string())
    );

    let cleared = host
        .run_annotate(AnnotateArgs {
            clear_extensions: texts(&["counter"]),
            ..annotate_args("extension-session")
        })
        .unwrap();
    assert!(!cleared.extensions.contains_key("counter"));
    assert!(cleared.extensions.contains_key("omp"));

    for extension in ["Missing={}", "missing-json", "omp={"] {
        let invalid = host.run_annotate(AnnotateArgs {
            extensions: texts(&[extension]),
            ..annotate_args("extension-session")
        });
        assert!(invalid.is_err(), "{extension}: {invalid:?}");
    }

    let conflicting = host.run_annotate(AnnotateArgs {
        extensions: texts(&["omp={}"]),
        clear_extensions: texts(&["omp"]),
        ..annotate_args("extension-session")
    });
    assert!(conflicting.is_err(), "{conflicting:?}");
}

#[test]
fn register_returns_and_updates_an_existing_identity() {
    let mut host = Host::new();
    let first = host.registered("session-3");
    let second = host.registered("session-3");

    assert_eq!(second.name, first.name);
    assert_eq!(second.created_at, first.created_at);
    assert!(later(&second.updated_at, &first.updated_at));
}

#[test]
fn commands_discover_session_id_from_environment() {
    let mut host = Host::new();
    let args = RegisterArgs {
        session: None,
        family: Some("Oak".to_string()),
        realm: None,
        json: false,
    };
    let registered = line(host.run_register(&args, &session_environment("env-session")));
    let none = LookupArgs { input: None, json: false };
    let looked_up = line(host.run_lookup(&none, &session_environment("env-session")));
    assert_eq!(looked_up, registered);
    let blank = lookup_args("  ", false);
    assert_eq!(line(host.run_lookup(&blank, &session_environment(" env-session "))), registered);
}

#[test]
fn current_reads_the_session_id_from_environment() {
    let mut host = Host::new();
    let args = RegisterArgs {
        session: None,
        family: Some("Oak".to_string()),
        realm: None,
        json: true,
    };
    let registered = document(host.run_register(&args, &session_environment("current-session")));
    let assignment = document(host.run_current(true, &session_environment("current-session")));
    assert_eq!(assignment, registered);
}

#[test]
fn current_fails_without_a_session_environment() {
    let mut host = Host::new();
    let error = host.run_current(false, &environment()).unwrap_err();
    assert!(error.message().contains("no session ID found"));
}

#[test]
fn current_never_registers_a_missing_identity() {
    let mut host = Host::new();
    let error = host.run_current(false, &session_environment("absent")).unwrap_err();
    assert_eq!(error, Error::NoIdentity { input: "absent".to_string() });
    assert!(host.records.is_empty() && host.texts.is_empty());
}

#[test]
fn legacy_session_environment_names_are_ignored() {
    let mut host = Host::new();
    let none = LookupArgs { input: None, json: false };
    for (key, value) in [("OMP_SESSION_ID", "omp-session"), ("PI_SESSION_ID", "pi-session")] {
        let variables = environment_of(&[("AGENT_ID_HOME", "/registry"), (key, value)]);
        let error = host.run_lookup(&none, &variables).unwrap_err();
        assert!(error.message().contains("no session ID found"));
    }
    let variables = environment_of(&[
        ("AGENT_ID_HOME", "/registry"),
        ("AGENT_ID_SESSION_ID", "own-session"),
    ]);
    let error = host.run_lookup(&none, &variables).unwrap_err();
    assert_eq!(error, Error::NoIdentity { input: "own-session".to_string() });
}

#[test]
fn lookup_fails_before_registration() {
    let mut host = Host::new();
    let error = host.run_lookup(&lookup_args("missing", false), &environment()).unwrap_err();
    assert!(error.message().contains("no identity found"));
}

#[test]
fn discover_lists_recent_assignments() {
    let mut host = Host::new();
    for session_id in ["discover-one", "discover-two"] {
        host.registered(session_id);
    }

    let records = host.discovered(DiscoverArgs {
        realm: Some("Darkwood".to_string()),
        limit: 1,
        ..discover_args()
    });
    assert_eq!(records.len(), 1);
    assert_eq!(records[0].assignment.realm, "Darkwood");

    let records = host.discovered(DiscoverArgs { recent: Some(1), ..discover_args() });
    assert_eq!(records.len(), 2);
    assert!(later(&records[0].assignment.updated_at, &records[1].assignment.updated_at));
    assert_eq!(records[0].assignment.session_id, "discover-two");
    assert_eq!(host.discovered(DiscoverArgs { limit: 0, ..discover_args() }).len(), 2);
}

#[test]
fn discover_says_when_there_is_nothing() {
    assert_eq!(Host::new().discovered_lines(), vec!["(no identities)".to_string()]);
}

#[test]
fn discover_excludes_only_stopped_assignments_by_default() {
    let mut host = Host::new();
    for session_id in [
        "unset-session",
        "working-session",
        "idle-session",
        "waiting-session",
        "blocked-session",
        "stopped-session",
    ] {
        host.registered(session_id);
    }
    for (session_id, state) in [
        ("working-session", "working"),
        ("idle-session", "idle"),
        ("waiting-session", "waiting"),
        ("blocked-session", "blocked"),
        ("stopped-session", "stopped"),
    ] {
        host.run_annotate(AnnotateArgs {
            state: ActivityStateValue::from_label(state),
            ..annotate_args(session_id)
        })
        .unwrap();
    }

    let records = host.discovered(discover_args());
    let mut session_ids: Vec<_> = records
        .iter()
        .map(|record| record.assignment.session_id.as_str())
        .collect();
    session_ids.sort_unstable();
    assert_eq!(
        session_ids,
        vec![
            "blocked-session",
            "idle-session",
            "unset-session",
            "waiting-session",
            "working-session",
        ]
    );

    let records = host.discovered(DiscoverArgs { all: true, ..discover_args() });
    assert_eq!(records.len(), 6);
    assert!(records
        .iter()
        .any(|record| record.assignment.session_id == "stopped-session"));
}

fn runtime_snapshot() -> Snapshot {
    Snapshot {
        agents: vec![AgentInfo {
            agent: Some("omp".to_string()),
            agent_session: Some(AgentSession {
                agent: "omp".to_string(),
                kind: "path".to_string(),
                source: "herdr:omp".to_string(),
                value: "/tmp/runtime-session.jsonl".to_string(),
            }),
            agent_status: "working".to_string(),
            cwd: Some("/work/agent-id".to_string()),
            foreground_cwd: Some("/work/agent-id".to_string()),
            pane_id: "w1:p1".to_string(),
            tab_id: "w1:t1".to_string(),
            workspace_id: "w1".to_string(),
        }],
        tabs: vec![TabInfo { tab_id: "w1:t1".to_string(), label: "agents".to_string() }],
        workspaces: vec![WorkspaceInfo {
            workspace_id: "w1".to_string(),
            label: "agent-id".to_string(),
            worktree: Some(HerdrWorktree {
                repo_key: "repo".to_string(),
                repo_name: "agent-id".to_string(),
                repo_root: "/work/agent-id".to_string(),
                checkout_path: "/work/agent-id".to_string(),
                is_linked_worktree: false,
            }),
        }],
    }
}

#[test]
fn discover_overlays_matching_herdr_runtime_without_persisting_it() {
    let mut host = Host::new();
    host.registered("runtime-session");
    host.run_annotate(AnnotateArgs {
        state: Some(ActivityStateValue::Idle),
        extensions: texts(&[r#"omp={"session_file":"/tmp/runtime-session.jsonl"}"#]),
        ..annotate_args("runtime-session")
    })
    .unwrap();
    host.registered("unmatched-session");

    host.snapshot = Some(runtime_snapshot());
    let records = match host.run_discover(discover_args(), &herdr_environment()).unwrap() {
        DiscoverOutput::Document { records } => records,
        DiscoverOutput::Lines { lines } => panic!("{lines:?}"),
    };
    assert_eq!(records.len(), 1);
    let runtime = records[0].runtime.as_ref().unwrap();
    assert_eq!(records[0].assignment.state.value.label(), "working");
    assert_eq!(records[0].assignment.state.updated_at, runtime.observed_at);
    assert_eq!(runtime.provider, "herdr");
    assert_eq!(runtime.state, "working");
    assert_eq!(runtime.locations[0].agent_status, "working");
    assert_eq!(runtime.locations[0].pane_id, "w1:p1");
    assert_eq!(runtime.locations[0].workspace_label.as_deref(), Some("agent-id"));
    assert_eq!(
        runtime.locations[0].worktree.as_ref().unwrap().checkout_path,
        "/work/agent-id"
    );

    host.snapshot = Some(runtime_snapshot());
    let args = DiscoverArgs { json: false, ..discover_args() };
    match host.run_discover(args, &herdr_environment()).unwrap() {
        DiscoverOutput::Lines { lines } => {
            assert!(lines[0].contains("herdr:working pane:w1:p1 workspace:agent-id"));
        }
        DiscoverOutput::Document { records } => panic!("{records:?}"),
    }

    host.snapshot = Some(runtime_snapshot());
    let args = DiscoverArgs { all: true, ..discover_args() };
    match host.run_discover(args, &herdr_environment()).unwrap() {
        DiscoverOutput::Document { records } => assert_eq!(records.len(), 2),
        DiscoverOutput::Lines { lines } => panic!("{lines:?}"),
    }

    let assignment = document(host.run_lookup(&lookup_args("runtime-session", true), &environment()));
    assert_eq!(assignment.state.value.label(), "idle");

    host.snapshot = None;
    let records = match host.run_discover(discover_args(), &herdr_environment()).unwrap() {
        DiscoverOutput::Document { records } => records,
        DiscoverOutput::Lines { lines } => panic!("{lines:?}"),
    };
    assert_eq!(records.len(), 2);
    let degraded = records
        .iter()
        .find(|record| record.assignment.session_id == "runtime-session")
        .unwrap();
    assert_eq!(degraded.assignment.state.value.label(), "idle");
    assert!(degraded.runtime.is_none());
}

#[test]
fn discover_inside_herdr_is_limited_to_live_agents_without_session_files() {
    let mut host = Host::new();
    host.registered("live");
    host.registered("gone");
    let live = || {
        let mut snapshot = runtime_snapshot();
        let session = snapshot.agents[0].agent_session.as_mut().unwrap();
        session.kind = "id".to_string();
        session.value = "live".to_string();
        snapshot
    };
    let mut found = |snapshot: Option<Snapshot>, all: bool| {
        host.snapshot = snapshot;
        let args = DiscoverArgs { all, ..discover_args() };
        let records = match host.run_discover(args, &herdr_environment()).unwrap() {
            DiscoverOutput::Document { records } => records,
            DiscoverOutput::Lines { lines } => panic!("{lines:?}"),
        };
        let found: Vec<(String, bool)> = records
            .into_iter()
            .map(|record| (record.assignment.session_id, record.runtime.is_some()))
            .collect();
        found
    };
    let record = |session_id: &str, runs: bool| (session_id.to_string(), runs);
    assert_eq!(found(Some(live()), false), vec![record("live", true)]);
    assert_eq!(found(Some(live()), true), vec![record("gone", false), record("live", true)]);
    assert_eq!(found(Some(runtime_snapshot()), false), vec![]);
    assert_eq!(found(None, false), vec![record("gone", false), record("live", false)]);
}

#[test]
fn prune_defaults_to_apply_and_dry_run_previews() {
    let mut host = Host::new();
    let assignment = host.registered("prune-session");
    let args = |dry_run: bool, json: bool| PruneArgs {
        before: "2100-01-01T00:00:00Z".to_string(),
        dry_run,
        json,
    };
    let report = |output: PruneOutput| match output.printed {
        PrunePrinted::Document { report } => report,
        PrunePrinted::Lines { lines, .. } => panic!("{lines:?}"),
    };

    let dry_run = report(host.run_prune(args(true, true)).unwrap());
    assert!(dry_run.dry_run);
    assert_eq!(dry_run.candidates.len(), 1);

    assert!(host.run_lookup(&lookup_args(&assignment.session_id, false), &environment()).is_ok());

    let applied = report(host.run_prune(args(false, true)).unwrap());
    assert!(!applied.dry_run);
    assert_eq!(applied.removed.len(), 1);

    assert!(host.run_lookup(&lookup_args(&assignment.session_id, false), &environment()).is_err());
    assert!(!host
        .texts
        .contains_key(&root().join(format!("by-name/{}.json", assignment.slug))));
    assert!(!host.texts.contains_key(&root().join(format!("by-name/{}", assignment.slug))));
}

#[test]
fn prune_prints_lines_and_fails_after_errors() {
    let mut host = Host::new();
    host.seconds = 1_767_225_599;
    let assignment = host.registered("prune-lines");
    host.unremovable.push(root().join("by-session/prune-lines.json"));
    let args = |dry_run: bool| PruneArgs {
        before: "2100-01-01T02:00:00+02:00".to_string(),
        dry_run,
        json: false,
    };
    let lines = |verb: &str| {
        vec![
            format!("{verb} 1 identities before 2100-01-01 00:00:00 UTC"),
            format!("{}\tprune-lines\tupdated:2026-01-01 00:00:00 UTC", assignment.name),
        ]
    };
    let preview = host.run_prune(args(true)).unwrap();
    assert_eq!(preview.failure, None);
    match preview.printed {
        PrunePrinted::Lines { lines: printed, complaints } => {
            assert_eq!(printed, lines("would prune"));
            assert!(complaints.is_empty());
        }
        PrunePrinted::Document { .. } => panic!("document"),
    }
    let applied = host.run_prune(args(false)).unwrap();
    assert_eq!(applied.failure, Some(Error::PruneIncomplete { count: 1 }));
    assert_eq!(applied.failure.unwrap().message(), "prune completed with 1 errors");
    match applied.printed {
        PrunePrinted::Lines { lines: printed, complaints } => {
            assert_eq!(printed, lines("pruned"));
            assert_eq!(
                complaints,
                vec!["agent-id: remove /registry/by-session/prune-lines.json: denied".to_string()]
            );
        }
        PrunePrinted::Document { .. } => panic!("document"),
    }
    let bad = PruneArgs { before: "yesterday".to_string(), dry_run: true, json: false };
    match host.run_prune(bad) {
        Err(Error::PruneTimestamp { before, cause }) => {
            assert_eq!(before, "yesterday");
            assert_eq!(cause, "premature end of input");
        }
        _ => panic!("accepted"),
    }
}

#[test]
fn registration_auto_creates_realm_when_missing() {
    let mut host = Host::new();
    let environment = Environment {
        realm: None,
        config_home: Some(PathBuf::from("/config")),
        home: Some(PathBuf::from("/home/me")),
        ..environment()
    };
    let args = RegisterArgs {
        session: Some("session-auto-realm".to_string()),
        family: None,
        realm: None,
        json: true,
    };
    let assignment = document(host.run_register(&args, &environment));
    let persisted = &host.texts[&PathBuf::from("/config/agent-id/realm")];
    assert_eq!(persisted.trim(), assignment.realm);
}

#[test]
fn commands_need_a_home() {
    let mut host = Host::new();
    let nowhere = Environment { registry_home: None, ..environment() };
    let register = RegisterArgs {
        session: Some("s".to_string()),
        family: None,
        realm: None,
        json: false,
    };
    assert_eq!(host.run_register(&register, &nowhere).unwrap_err(), Error::NoHome);
    assert_eq!(host.run_lookup(&lookup_args("s", true), &nowhere).unwrap_err(), Error::NoHome);
    assert_eq!(host.run_discover(discover_args(), &nowhere).unwrap_err(), Error::NoHome);
    let error = host.run_current(true, &session_environment("  ")).unwrap_err();
    assert_eq!(
        error.message(),
        "no session ID found; pass SESSION_ID or --session-id, or set AGENT_ID_SESSION_ID"
    );
}
