//! The commands: from arguments and environment to what is printed.

use crate::activity::ActivityStateValue;
use crate::annotation::{
    annotation_begun, annotation_resumed, ActivityUpdate, Annotation, AnnotationView, UpdateView,
};
use crate::assignment::{copy_option, option_view, Assignment, AssignmentView};
use crate::discovery::{
    discovery_answerable, discovery_begun, discovery_resumed, AssignmentList, Discovery,
    DiscoveryStepView, DiscoveryView,
};
use crate::error::{Error, ErrorView};
use crate::herdr::{
    augment_discovery, augmented, bare_records, base_records, herdr_environment, inside_herdr,
    DiscoveredAssignment, DiscoveredView, HerdrLocation, LocationView, Snapshot, SnapshotView,
};
use crate::host::{
    Environment, EnvironmentView, PlaceView, Reply, ReplyView, Request, RequestView, Step, StepView,
};
use crate::lookup::{lookup_begun, lookup_resumed, Lookup, LookupView};
use crate::order::seq_view;
use crate::pruning::{pruning_begun, pruning_resumed, PruneReport, Pruning, PruningView, ReportView};
use crate::realm::{
    realm_begun, realm_resumed, resolve_realm, Chance, ChanceView, RealmResolution,
    RealmResolutionView, RealmStep, RealmStepView,
};
use crate::registration::{
    registration_begun, registration_resumed, NameLists, NameListsView, Registration,
    RegistrationView,
};
use crate::registry::{registry_home, Registry};
use crate::text::{decimal, decimal_text, join_texts, joined, slice_view, trim, trimmed, views};
use crate::timestamp::{shown_instant, Timestamp};
use crate::validation::{
    as_slice, extensions_parsed, owners_parsed, parse_extension_owners, parse_extension_updates,
    said, spoken, text_outcome,
};
use vstd::prelude::*;
use vstd::string::StringExecFns;

verus! {

// ---------------------------------------------------------------------------
// The session
// ---------------------------------------------------------------------------
/// The session that a command is about: the one that is named, or else the one of the
/// environment.
pub open spec fn session_meant(explicit: Option<Seq<char>>, environment: EnvironmentView) -> Result<
    Seq<char>,
    ErrorView,
> {
    if said(explicit) {
        Ok(trimmed(explicit->0))
    } else if said(environment.session_id) {
        Ok(trimmed(environment.session_id->0))
    } else {
        Err(ErrorView::NoSession)
    }
}

/// The session that a command is about.
pub fn resolve_session(explicit: Option<&str>, environment: &Environment) -> (session: Result<
    String,
    Error,
>)
    ensures
        text_outcome(session) == session_meant(slice_view(explicit), environment@),
{
    if let Some(text) = spoken(explicit) {
        return Ok(trim(text));
    }
    if let Some(text) = spoken(as_slice(&environment.session_id)) {
        return Ok(trim(text));
    }
    Err(Error::NoSession)
}

// ---------------------------------------------------------------------------
// Printing an assignment
// ---------------------------------------------------------------------------
/// What is printed of an assignment.
#[derive(Debug, PartialEq, Eq)]
pub enum Printed {
    /// The name on a line.
    Line { text: String },
    /// All of it as JSON.
    Document { assignment: Assignment },
}

pub enum PrintedView {
    Line { text: Seq<char> },
    Document { assignment: AssignmentView },
}

impl View for Printed {
    type V = PrintedView;

    open spec fn view(&self) -> PrintedView {
        match *self {
            Printed::Line { text } => PrintedView::Line { text: text@ },
            Printed::Document { assignment } => PrintedView::Document { assignment: assignment@ },
        }
    }
}

/// What is printed of an assignment.
pub open spec fn assignment_printed(assignment: AssignmentView, json: bool) -> PrintedView {
    if json {
        PrintedView::Document { assignment }
    } else {
        PrintedView::Line { text: assignment.name }
    }
}

/// What is printed of an assignment.
pub fn print_assignment(assignment: Assignment, json: bool) -> (printed: Printed)
    ensures
        printed@ == assignment_printed(assignment@, json),
{
    if json {
        Printed::Document { assignment }
    } else {
        Printed::Line { text: assignment.name }
    }
}

/// A task whose assignment is printed.
pub struct Printing<K> {
    pub task: K,
    pub json: bool,
}

pub struct PrintingView<K> {
    pub task: K,
    pub json: bool,
}

impl<K: View> View for Printing<K> {
    type V = PrintingView<K::V>;

    open spec fn view(&self) -> PrintingView<K::V> {
        PrintingView { task: self.task@, json: self.json }
    }
}

/// The step of a task, whose assignment is printed.
pub open spec fn step_printed<K>(step: StepView<K, AssignmentView>, json: bool) -> StepView<
    PrintingView<K>,
    PrintedView,
> {
    match step {
        StepView::Ask { request, then } => StepView::Ask {
            request,
            then: PrintingView { task: then, json },
        },
        StepView::Over { result: Err(error) } => StepView::failure(error),
        StepView::Over { result: Ok(assignment) } => StepView::Over {
            result: Ok(assignment_printed(assignment, json)),
        },
    }
}

/// The step of a task, whose assignment is printed.
fn print_step<K: View>(step: Step<K, Assignment>, json: bool) -> (printing: Step<
    Printing<K>,
    Printed,
>)
    ensures
        printing@ == step_printed(step@, json),
{
    match step {
        Step::Ask { request, then } => Step::Ask { request, then: Printing { task: then, json } },
        Step::Over { result: Err(error) } => Step::Over { result: Err(error) },
        Step::Over { result: Ok(assignment) } => Step::Over {
            result: Ok(print_assignment(assignment, json)),
        },
    }
}

// ---------------------------------------------------------------------------
// Register
// ---------------------------------------------------------------------------
/// The arguments of the command that registers a session.
pub struct RegisterArgs {
    pub session: Option<String>,
    pub family: Option<String>,
    pub realm: Option<String>,
    pub json: bool,
}

/// What a registration needs besides the realm.
pub struct Registrant {
    pub session_id: String,
    pub family: Option<String>,
    pub names: NameLists,
    pub registry: Option<Registry>,
    pub json: bool,
}

pub struct RegistrantView {
    pub session_id: Seq<char>,
    pub family: Option<Seq<char>>,
    pub names: NameListsView,
    pub registry: Option<PlaceView>,
    pub json: bool,
}

impl View for Registrant {
    type V = RegistrantView;

    open spec fn view(&self) -> RegistrantView {
        RegistrantView {
            session_id: self.session_id@,
            family: option_view(self.family),
            names: self.names@,
            registry: match self.registry {
                Some(registry) => Some(registry@),
                None => None,
            },
            json: self.json,
        }
    }
}

/// The command that registers a session.
pub enum RegisterCommand {
    /// The realm is resolved.
    Resolving { resolution: RealmResolution, registrant: Registrant },
    /// The session is registered.
    Registering { printing: Printing<Registration> },
}

pub enum RegisterCommandView {
    Resolving { resolution: RealmResolutionView, registrant: RegistrantView },
    Registering { printing: PrintingView<RegistrationView> },
}

impl View for RegisterCommand {
    type V = RegisterCommandView;

    open spec fn view(&self) -> RegisterCommandView {
        match *self {
            RegisterCommand::Resolving { resolution, registrant } => {
                RegisterCommandView::Resolving {
                    resolution: resolution@,
                    registrant: registrant@,
                }
            },
            RegisterCommand::Registering { printing } => RegisterCommandView::Registering {
                printing: printing@,
            },
        }
    }
}

pub type RegisterCommandStep = Step<RegisterCommand, Printed>;

pub type RegisterCommandStepView = StepView<RegisterCommandView, PrintedView>;

/// The step of a registration as a step of the command.
pub open spec fn registration_commanded(
    step: StepView<PrintingView<RegistrationView>, PrintedView>,
) -> RegisterCommandStepView {
    match step {
        StepView::Ask { request, then } => StepView::Ask {
            request,
            then: RegisterCommandView::Registering { printing: then },
        },
        StepView::Over { result } => StepView::Over { result },
    }
}

/// The step of the realm's resolution as a step of the command: once there is a realm,
/// the session is registered in the registry that the environment gives.
pub open spec fn realm_commanded(
    step: RealmStepView,
    registrant: RegistrantView,
) -> RegisterCommandStepView {
    match step {
        StepView::Ask { request, then } => StepView::Ask {
            request,
            then: RegisterCommandView::Resolving { resolution: then, registrant },
        },
        StepView::Over { result: Err(error) } => StepView::failure(error),
        StepView::Over { result: Ok(realm) } => match registrant.registry {
            None => StepView::failure(ErrorView::NoHome),
            Some(registry) => registration_commanded(
                step_printed(
                    registration_begun(
                        registry,
                        registrant.session_id,
                        registrant.family,
                        realm,
                        registrant.names,
                    ),
                    registrant.json,
                ),
            ),
        },
    }
}

/// The command starts with the realm, once it is known which session is meant.
pub open spec fn register_begun(
    args: RegisterArgs,
    environment: EnvironmentView,
    names: NameListsView,
    realms: Seq<Seq<char>>,
    chance: ChanceView,
) -> RegisterCommandStepView {
    match session_meant(option_view(args.session), environment) {
        Err(error) => StepView::failure(error),
        Ok(session_id) => realm_commanded(
            realm_begun(option_view(args.realm), environment, realms, chance),
            RegistrantView {
                session_id,
                family: option_view(args.family),
                names,
                registry: registry_home(environment),
                json: args.json,
            },
        ),
    }
}

/// How the command goes on with a reply.
pub open spec fn register_resumed(
    command: RegisterCommandView,
    reply: ReplyView,
) -> RegisterCommandStepView {
    match command {
        RegisterCommandView::Resolving { resolution, registrant } => realm_commanded(
            realm_resumed(resolution, reply),
            registrant,
        ),
        RegisterCommandView::Registering { printing } => registration_commanded(
            step_printed(registration_resumed(printing.task, reply), printing.json),
        ),
    }
}

/// The step of a registration as a step of the command.
fn command_registration(step: Step<Printing<Registration>, Printed>) -> (command:
    RegisterCommandStep)
    ensures
        command@ == registration_commanded(step@),
{
    match step {
        Step::Ask { request, then } => Step::Ask {
            request,
            then: RegisterCommand::Registering { printing: then },
        },
        Step::Over { result } => Step::Over { result },
    }
}

/// The step of the realm's resolution as a step of the command.
fn command_realm(step: RealmStep, registrant: Registrant) -> (command: RegisterCommandStep)
    ensures
        command@ == realm_commanded(step@, registrant@),
{
    let realm = match step {
        Step::Ask { request, then } => return Step::Ask {
            request,
            then: RegisterCommand::Resolving { resolution: then, registrant },
        },
        Step::Over { result: Err(error) } => return Step::Over { result: Err(error) },
        Step::Over { result: Ok(realm) } => realm,
    };
    match registrant.registry {
        None => Step::Over { result: Err(Error::NoHome) },
        Some(registry) => {
            let step = registry.register(
                registrant.session_id.as_str(),
                as_slice(&registrant.family),
                realm.as_str(),
                registrant.names,
            );
            command_registration(print_step(step, registrant.json))
        },
    }
}

/// Starts the command that registers a session.
pub fn execute_register(
    args: &RegisterArgs,
    environment: &Environment,
    names: NameLists,
    realms: Vec<String>,
    chance: Chance,
) -> (step: RegisterCommandStep)
    ensures
        step@ == register_begun(*args, environment@, names@, views(realms@), chance@),
{
    let session_id = match resolve_session(as_slice(&args.session), environment) {
        Ok(session_id) => session_id,
        Err(error) => return Step::Over { result: Err(error) },
    };
    let registry = match Registry::from_env(environment) {
        Ok(registry) => Some(registry),
        Err(_) => None,
    };
    let registrant = Registrant {
        session_id,
        family: copy_option(&args.family),
        names,
        registry,
        json: args.json,
    };
    command_realm(
        resolve_realm(as_slice(&args.realm), environment, realms, chance),
        registrant,
    )
}

impl RegisterCommand {
    /// Goes on with a reply.
    pub fn resume(self, reply: Reply) -> (step: RegisterCommandStep)
        ensures
            step@ == register_resumed(self@, reply@),
    {
        match self {
            RegisterCommand::Resolving { resolution, registrant } => command_realm(
                resolution.resume(reply),
                registrant,
            ),
            RegisterCommand::Registering { printing } => command_registration(
                print_step(printing.task.resume(reply), printing.json),
            ),
        }
    }
}

// ---------------------------------------------------------------------------
// Lookup and current
// ---------------------------------------------------------------------------
/// The arguments of the command that looks an identity up.
pub struct LookupArgs {
    pub input: Option<String>,
    pub json: bool,
}

/// The arguments of the command that tells the identity of the current session.
pub struct CurrentArgs {
    pub json: bool,
}

pub type LookupCommandStep = Step<Printing<Lookup>, Printed>;

pub type LookupCommandStepView = StepView<PrintingView<LookupView>, PrintedView>;

/// What is named, or else the session of the environment, is looked up in the registry
/// that the environment gives.
pub open spec fn lookup_command_begun(
    explicit: Option<Seq<char>>,
    json: bool,
    environment: EnvironmentView,
) -> LookupCommandStepView {
    match (session_meant(explicit, environment), registry_home(environment)) {
        (Err(error), _) => StepView::failure(error),
        (Ok(_), None) => StepView::failure(ErrorView::NoHome),
        (Ok(input), Some(registry)) => step_printed(lookup_begun(registry, input), json),
    }
}

/// Starts a lookup of what is named, or else of the session of the environment.
fn command_lookup(explicit: Option<&str>, json: bool, environment: &Environment) -> (step:
    LookupCommandStep)
    ensures
        step@ == lookup_command_begun(slice_view(explicit), json, environment@),
{
    let input = match resolve_session(explicit, environment) {
        Ok(input) => input,
        Err(error) => return Step::Over { result: Err(error) },
    };
    match Registry::from_env(environment) {
        Err(error) => Step::Over { result: Err(error) },
        Ok(registry) => print_step(registry.lookup(input.as_str()), json),
    }
}

/// Starts the command that looks an identity up.
pub fn execute_lookup(args: &LookupArgs, environment: &Environment) -> (step: LookupCommandStep)
    ensures
        step@ == lookup_command_begun(option_view(args.input), args.json, environment@),
{
    command_lookup(as_slice(&args.input), args.json, environment)
}

/// Starts the command that tells the identity of the current session.
pub fn execute_current(args: &CurrentArgs, environment: &Environment) -> (step: LookupCommandStep)
    ensures
        step@ == lookup_command_begun(None, args.json, environment@),
{
    command_lookup(None, args.json, environment)
}

impl Printing<Lookup> {
    /// Goes on with a reply.
    pub fn resume(self, reply: Reply) -> (step: LookupCommandStep)
        ensures
            step@ == step_printed(lookup_resumed(self@.task, reply@), self@.json),
    {
        print_step(self.task.resume(reply), self.json)
    }
}

// ---------------------------------------------------------------------------
// Annotate
// ---------------------------------------------------------------------------
/// The arguments of the command that annotates an identity.
pub struct AnnotateArgs {
    pub session: Option<String>,
    pub summary: Option<String>,
    pub clear_summary: bool,
    pub state: Option<ActivityStateValue>,
    pub clear_state: bool,
    pub cwd: Option<String>,
    pub clear_cwd: bool,
    pub extensions: Vec<String>,
    pub clear_extensions: Vec<String>,
    pub json: bool,
}

pub type AnnotateCommandStep = Step<Printing<Annotation>, Printed>;

pub type AnnotateCommandStepView = StepView<PrintingView<AnnotationView>, PrintedView>;

/// The update that some arguments ask for.
pub open spec fn update_asked(args: AnnotateArgs) -> Result<UpdateView, ErrorView> {
    match (extensions_parsed(views(args.extensions@)), owners_parsed(
        views(args.clear_extensions@),
    )) {
        (Err(error), _) => Err(error),
        (Ok(_), Err(error)) => Err(error),
        (Ok(extensions), Ok(owners)) => Ok(
            UpdateView {
                summary: option_view(args.summary),
                clear_summary: args.clear_summary,
                state: args.state,
                clear_state: args.clear_state,
                cwd: option_view(args.cwd),
                clear_cwd: args.clear_cwd,
                extensions,
                clear_extensions: owners.dom(),
            },
        ),
    }
}

/// The command starts with the annotation, once it is known which session is meant and
/// which update is asked for.
pub open spec fn annotate_begun(
    args: AnnotateArgs,
    environment: EnvironmentView,
) -> AnnotateCommandStepView {
    match (
        session_meant(option_view(args.session), environment),
        update_asked(args),
        registry_home(environment),
    ) {
        (Err(error), _, _) => StepView::failure(error),
        (Ok(_), Err(error), _) => StepView::failure(error),
        (Ok(_), Ok(_), None) => StepView::failure(ErrorView::NoHome),
        (Ok(session_id), Ok(update), Some(registry)) => step_printed(
            annotation_begun(registry, session_id, update),
            args.json,
        ),
    }
}

/// The update that some arguments ask for.
fn ask_update(args: &AnnotateArgs) -> (update: Result<ActivityUpdate, Error>)
    ensures
        match update {
            Ok(update) => update_asked(*args) == Ok::<UpdateView, ErrorView>(update@),
            Err(error) => update_asked(*args) == Err::<UpdateView, ErrorView>(error@),
        },
{
    let extensions = match parse_extension_updates(&args.extensions) {
        Ok(extensions) => extensions,
        Err(error) => return Err(error),
    };
    let clear_extensions = match parse_extension_owners(&args.clear_extensions) {
        Ok(owners) => owners,
        Err(error) => return Err(error),
    };
    Ok(
        ActivityUpdate {
            summary: copy_option(&args.summary),
            clear_summary: args.clear_summary,
            state: args.state,
            clear_state: args.clear_state,
            cwd: copy_option(&args.cwd),
            clear_cwd: args.clear_cwd,
            extensions,
            clear_extensions,
        },
    )
}

/// Starts the command that annotates an identity.
pub fn execute_annotate(args: &AnnotateArgs, environment: &Environment) -> (step:
    AnnotateCommandStep)
    ensures
        step@ == annotate_begun(*args, environment@),
{
    let session_id = match resolve_session(as_slice(&args.session), environment) {
        Ok(session_id) => session_id,
        Err(error) => return Step::Over { result: Err(error) },
    };
    let update = match ask_update(args) {
        Ok(update) => update,
        Err(error) => return Step::Over { result: Err(error) },
    };
    match Registry::from_env(environment) {
        Err(error) => Step::Over { result: Err(error) },
        Ok(registry) => print_step(registry.annotate(session_id.as_str(), update), args.json),
    }
}

impl Printing<Annotation> {
    /// Goes on with a reply.
    pub fn resume(self, reply: Reply) -> (step: AnnotateCommandStep)
        ensures
            step@ == step_printed(annotation_resumed(self@.task, reply@), self@.json),
    {
        print_step(self.task.resume(reply), self.json)
    }
}

// ---------------------------------------------------------------------------
// Discover
// ---------------------------------------------------------------------------
/// The arguments of the command that discovers identities.
pub struct DiscoverArgs {
    pub limit: usize,
    pub recent: Option<i64>,
    pub realm: Option<String>,
    pub all: bool,
    pub json: bool,
}

/// How what is discovered is shown.
#[derive(Clone, Copy)]
pub struct Display {
    /// The most records, or zero for all.
    pub limit: usize,
    /// Whether stopped identities, and those that do not run in Herdr, are shown too.
    pub all: bool,
    /// Whether the records are printed as JSON.
    pub json: bool,
    /// Whether the environment is that of Herdr.
    pub in_herdr: bool,
}

/// What is printed of a discovery.
#[derive(Debug, PartialEq, Eq)]
pub enum DiscoverOutput {
    Lines { lines: Vec<String> },
    Document { records: Vec<DiscoveredAssignment> },
}

pub enum DiscoverOutputView {
    Lines { lines: Seq<Seq<char>> },
    Document { records: Seq<DiscoveredView> },
}

impl View for DiscoverOutput {
    type V = DiscoverOutputView;

    open spec fn view(&self) -> DiscoverOutputView {
        match *self {
            DiscoverOutput::Lines { lines } => DiscoverOutputView::Lines { lines: views(lines@) },
            DiscoverOutput::Document { records } => DiscoverOutputView::Document {
                records: seq_view(records@),
            },
        }
    }
}

/// Whether an assignment is not stopped.
pub open spec fn lively(record: DiscoveredView) -> bool {
    record.assignment.state.value != ActivityStateValue::Stopped
}

/// The records that are shown: all, or those that are not stopped; up to a limit that
/// is not zero.
pub open spec fn records_shown(records: Seq<DiscoveredView>, all: bool, limit: nat) -> Seq<
    DiscoveredView,
> {
    let kept = if all {
        records
    } else {
        records.filter(|record: DiscoveredView| lively(record))
    };
    if 0 < limit < kept.len() {
        kept.take(limit as int)
    } else {
        kept
    }
}

/// The note on a place in which an agent runs.
pub open spec fn location_note(location: LocationView) -> Seq<char> {
    "herdr:"@ + location.agent_status + " pane:"@ + location.pane_id + " workspace:"@ + (
    match location.workspace_label {
        Some(label) => label,
        None => location.workspace_id,
    })
}

/// The notes on a record: its state, its summary, its working directory, and the places
/// in which its agents run.
pub open spec fn notes_on(record: DiscoveredView) -> Seq<Seq<char>> {
    let assignment = record.assignment;
    let state = seq!["state:"@ + assignment.state.value.word()];
    let summary = match assignment.summary {
        Some(summary) => seq!["summary:"@ + summary.text],
        None => Seq::empty(),
    };
    let cwd = match assignment.cwd {
        Some(cwd) => seq!["cwd:"@ + cwd],
        None => Seq::empty(),
    };
    let places = match record.runtime {
        Some(runtime) => runtime.locations.map_values(
            |location: LocationView| location_note(location),
        ),
        None => Seq::empty(),
    };
    state + summary + cwd + places
}

/// The line of a record.
pub open spec fn record_line(record: DiscoveredView) -> Seq<char> {
    record.assignment.name + "\t"@ + record.assignment.session_id + "\t"@ + joined(
        notes_on(record),
        "\t"@,
    )
}

/// The lines of some records.
pub open spec fn record_lines(records: Seq<DiscoveredView>) -> Seq<Seq<char>> {
    if records.len() == 0 {
        seq!["(no identities)"@]
    } else {
        records.map_values(|record: DiscoveredView| record_line(record))
    }
}

/// What is printed of some records.
pub open spec fn records_printed(
    records: Seq<DiscoveredView>,
    display: Display,
) -> DiscoverOutputView {
    let shown = records_shown(records, display.all, display.limit as nat);
    if display.json {
        DiscoverOutputView::Document { records: shown }
    } else {
        DiscoverOutputView::Lines { lines: record_lines(shown) }
    }
}

/// The records that are shown.
pub fn show_records(records: Vec<DiscoveredAssignment>, all: bool, limit: usize) -> (shown: Vec<
    DiscoveredAssignment,
>)
    ensures
        seq_view(shown@) == records_shown(seq_view(records@), all, limit as nat),
{
    let ghost given = records@;
    let ghost whole = seq_view(given);
    let ghost alive = |record: DiscoveredView| lively(record);
    let mut kept: Vec<DiscoveredAssignment> = Vec::new();
    if all {
        kept = records;
    } else {
        proof {
            reveal(Seq::filter);
            assert(seq_view(kept@) =~= whole.take(0).filter(alive));
        }
        for record in it: records
            invariant
                it.seq() == given,
                whole == seq_view(given),
                alive == (|record: DiscoveredView| lively(record)),
                seq_view(kept@) == whole.take(it.index()).filter(alive),
        {
            let ghost before = seq_view(kept@);
            proof {
                reveal(Seq::filter);
                assert(whole.take(it.index() + 1).drop_last() =~= whole.take(it.index()));
            }
            if record.assignment.state.value != ActivityStateValue::Stopped {
                kept.push(record);
                assert(seq_view(kept@) =~= before.push(record@));
            }
        }
        assert(whole.take(whole.len() as int) =~= whole);
    }
    let ghost before = seq_view(kept@);
    if limit > 0 && limit < kept.len() {
        kept.truncate(limit);
        assert(seq_view(kept@) =~= before.take(limit as int));
    }
    kept
}

/// A text with another before it.
fn noted(label: &str, text: &str) -> (note: String)
    ensures
        note@ == label@ + text@,
{
    let mut note = label.to_owned();
    note.append(text);
    note
}

/// The note on a place in which an agent runs.
fn note_location(location: &HerdrLocation) -> (note: String)
    ensures
        note@ == location_note(location@),
{
    let mut note = noted("herdr:", location.agent_status.as_str());
    note.append(" pane:");
    note.append(location.pane_id.as_str());
    note.append(" workspace:");
    match &location.workspace_label {
        Some(label) => note.append(label.as_str()),
        None => note.append(location.workspace_id.as_str()),
    }
    note
}

/// The line of a record.
pub fn line_of_record(record: &DiscoveredAssignment) -> (line: String)
    ensures
        line@ == record_line(record@),
{
    let assignment = &record.assignment;
    let mut notes: Vec<String> = Vec::new();
    notes.push(noted("state:", assignment.state.value.label()));
    if let Some(summary) = &assignment.summary {
        notes.push(noted("summary:", summary.text.as_str()));
    }
    if let Some(cwd) = &assignment.cwd {
        notes.push(noted("cwd:", cwd.as_str()));
    }
    let ghost start = views(notes@);
    let ghost places = match record@.runtime {
        Some(runtime) => runtime.locations.map_values(
            |location: LocationView| location_note(location),
        ),
        None => Seq::empty(),
    };
    assert(notes_on(record@) =~= start + places);
    if let Some(runtime) = &record.runtime {
        let mut i: usize = 0;
        assert(views(notes@) =~= start + places.take(0));
        while i < runtime.locations.len()
            invariant
                i <= runtime.locations@.len(),
                places == seq_view(runtime.locations@).map_values(
                    |location: LocationView| location_note(location),
                ),
                views(notes@) == start + places.take(i as int),
            decreases runtime.locations@.len() - i,
        {
            let ghost before = views(notes@);
            let note = note_location(&runtime.locations[i]);
            notes.push(note);
            assert(views(notes@) =~= before.push(note@));
            assert(start + places.take(i + 1) =~= before.push(note@));
            i = i + 1;
        }
        assert(places.take(i as int) =~= places);
    } else {
        assert(start + places =~= start);
    }
    let mut line = assignment.name.clone();
    line.append("\t");
    line.append(assignment.session_id.as_str());
    line.append("\t");
    line.append(join_texts(&notes, "\t").as_str());
    line
}

/// The lines of some records.
pub fn lines_of_records(records: &Vec<DiscoveredAssignment>) -> (lines: Vec<String>)
    ensures
        views(lines@) == record_lines(seq_view(records@)),
{
    let mut lines: Vec<String> = Vec::new();
    if records.len() == 0 {
        lines.push("(no identities)".to_owned());
        assert(views(lines@) =~= seq!["(no identities)"@]);
        return lines;
    }
    let mut i: usize = 0;
    while i < records.len()
        invariant
            i <= records@.len(),
            lines@.len() == i,
            forall|j: int| 0 <= j < i ==> (#[trigger] lines@[j])@ == record_line(records@[j]@),
        decreases records@.len() - i,
    {
        lines.push(line_of_record(&records[i]));
        i = i + 1;
    }
    assert(views(lines@) =~= record_lines(seq_view(records@)));
    lines
}

/// What is printed of some records.
pub fn print_records(records: Vec<DiscoveredAssignment>, display: Display) -> (output:
    DiscoverOutput)
    ensures
        output@ == records_printed(seq_view(records@), display),
{
    let shown = show_records(records, display.all, display.limit);
    if display.json {
        DiscoverOutput::Document { records: shown }
    } else {
        DiscoverOutput::Lines { lines: lines_of_records(&shown) }
    }
}

/// The command that discovers identities.
pub struct DiscoverCommand {
    pub display: Display,
    pub stage: DiscoverStage,
}

pub enum DiscoverStage {
    /// The identities are discovered.
    Discovering { task: Discovery },
    /// Herdr is asked of the agents.
    Loading { assignments: Vec<Assignment> },
    /// The time is asked for, at which Herdr told of the agents.
    Dating { assignments: Vec<Assignment>, snapshot: Snapshot },
}

pub struct DiscoverCommandView {
    pub display: Display,
    pub stage: DiscoverStageView,
}

pub enum DiscoverStageView {
    Discovering { task: DiscoveryView },
    Loading { assignments: Seq<AssignmentView> },
    Dating { assignments: Seq<AssignmentView>, snapshot: SnapshotView },
}

impl View for DiscoverStage {
    type V = DiscoverStageView;

    open spec fn view(&self) -> DiscoverStageView {
        match *self {
            DiscoverStage::Discovering { task } => DiscoverStageView::Discovering { task: task@ },
            DiscoverStage::Loading { assignments } => DiscoverStageView::Loading {
                assignments: seq_view(assignments@),
            },
            DiscoverStage::Dating { assignments, snapshot } => DiscoverStageView::Dating {
                assignments: seq_view(assignments@),
                snapshot: snapshot@,
            },
        }
    }
}

impl View for DiscoverCommand {
    type V = DiscoverCommandView;

    open spec fn view(&self) -> DiscoverCommandView {
        DiscoverCommandView { display: self.display, stage: self.stage@ }
    }
}

pub type DiscoverCommandStep = Step<DiscoverCommand, DiscoverOutput>;

pub type DiscoverCommandStepView = StepView<DiscoverCommandView, DiscoverOutputView>;

/// The step of a discovery as a step of the command: of what is found, Herdr is asked
/// where it can tell something.
pub open spec fn discovery_commanded(
    step: DiscoveryStepView,
    display: Display,
) -> DiscoverCommandStepView {
    match step {
        StepView::Ask { request, then } => StepView::Ask {
            request,
            then: DiscoverCommandView {
                display,
                stage: DiscoverStageView::Discovering { task: then },
            },
        },
        StepView::Over { result: Err(error) } => StepView::failure(error),
        StepView::Over { result: Ok(assignments) } => if display.in_herdr {
            StepView::Ask {
                request: RequestView::LoadSnapshot,
                then: DiscoverCommandView {
                    display,
                    stage: DiscoverStageView::Loading { assignments },
                },
            }
        } else {
            StepView::Over { result: Ok(records_printed(bare_records(assignments), display)) }
        },
    }
}

/// The command starts with the discovery in the registry that the environment gives.
pub open spec fn discover_begun(
    args: DiscoverArgs,
    environment: EnvironmentView,
) -> DiscoverCommandStepView {
    match registry_home(environment) {
        None => StepView::failure(ErrorView::NoHome),
        Some(registry) => discovery_commanded(
            discovery_begun(registry, args.recent, option_view(args.realm)),
            Display {
                limit: args.limit,
                all: args.all,
                json: args.json,
                in_herdr: inside_herdr(environment.herdr_marker, environment.herdr_socket_path),
            },
        ),
    }
}

/// Whether the hours that the command looks back, if it waits for the time, reach an
/// instant.
pub open spec fn discover_answerable(command: DiscoverCommandView, reply: ReplyView) -> bool {
    command.stage matches DiscoverStageView::Discovering { task } ==> discovery_answerable(
        task,
        reply,
    )
}

/// How the command goes on with a reply. Where Herdr tells nothing, the records are
/// shown without it.
pub open spec fn discover_resumed(
    command: DiscoverCommandView,
    reply: ReplyView,
) -> DiscoverCommandStepView {
    let display = command.display;
    match (command.stage, reply) {
        (DiscoverStageView::Discovering { task }, reply) => discovery_commanded(
            discovery_resumed(task, reply),
            display,
        ),
        (DiscoverStageView::Loading { assignments }, ReplyView::Missing) => StepView::Over {
            result: Ok(records_printed(bare_records(assignments), display)),
        },
        (DiscoverStageView::Loading { assignments }, ReplyView::Runtime { snapshot }) => {
            StepView::Ask {
                request: RequestView::ReadClock,
                then: DiscoverCommandView {
                    display,
                    stage: DiscoverStageView::Dating { assignments, snapshot },
                },
            }
        },
        (DiscoverStageView::Dating { assignments, snapshot }, ReplyView::Instant { now }) => {
            StepView::Over {
                result: Ok(
                    records_printed(
                        augmented(assignments, Some(snapshot), display.all, now),
                        display,
                    ),
                ),
            }
        },
        _ => StepView::failure(ErrorView::OutOfTurn),
    }
}

/// The step of a discovery as a step of the command.
fn command_discovery(step: Step<Discovery, AssignmentList>, display: Display) -> (command:
    DiscoverCommandStep)
    ensures
        command@ == discovery_commanded(step@, display),
{
    let list = match step {
        Step::Ask { request, then } => return Step::Ask {
            request,
            then: DiscoverCommand { display, stage: DiscoverStage::Discovering { task: then } },
        },
        Step::Over { result: Err(error) } => return Step::Over { result: Err(error) },
        Step::Over { result: Ok(list) } => list,
    };
    let assignments = list.assignments;
    if display.in_herdr {
        return Step::Ask {
            request: Request::LoadSnapshot,
            then: DiscoverCommand { display, stage: DiscoverStage::Loading { assignments } },
        };
    }
    Step::Over { result: Ok(print_records(base_records(assignments), display)) }
}

/// Starts the command that discovers identities.
pub fn execute_discover(args: &DiscoverArgs, environment: &Environment) -> (step:
    DiscoverCommandStep)
    ensures
        step@ == discover_begun(*args, environment@),
{
    let registry = match Registry::from_env(environment) {
        Ok(registry) => registry,
        Err(error) => return Step::Over { result: Err(error) },
    };
    let display = Display {
        limit: args.limit,
        all: args.all,
        json: args.json,
        in_herdr: herdr_environment(
            as_slice(&environment.herdr_marker),
            as_slice(&environment.herdr_socket_path),
        ),
    };
    command_discovery(registry.discover(args.recent, as_slice(&args.realm)), display)
}

impl DiscoverCommand {
    /// Whether the command can go on with a reply: the hours that it looks back reach an
    /// instant.
    pub fn can_resume(&self, reply: &Reply) -> (yes: bool)
        ensures
            yes == discover_answerable(self@, reply@),
    {
        match &self.stage {
            DiscoverStage::Discovering { task } => task.can_resume(reply),
            _ => true,
        }
    }

    /// Goes on with a reply.
    pub fn resume(self, reply: Reply) -> (step: DiscoverCommandStep)
        requires
            discover_answerable(self@, reply@),
        ensures
            step@ == discover_resumed(self@, reply@),
    {
        let DiscoverCommand { display, stage } = self;
        match (stage, reply) {
            (DiscoverStage::Discovering { task }, reply) => command_discovery(
                task.resume(reply),
                display,
            ),
            (DiscoverStage::Loading { assignments }, Reply::Missing) => Step::Over {
                result: Ok(print_records(base_records(assignments), display)),
            },
            (DiscoverStage::Loading { assignments }, Reply::Runtime { snapshot }) => Step::Ask {
                request: Request::ReadClock,
                then: DiscoverCommand {
                    display,
                    stage: DiscoverStage::Dating { assignments, snapshot },
                },
            },
            (DiscoverStage::Dating { assignments, snapshot }, Reply::Instant { now }) => {
                let records = augment_discovery(assignments, Some(snapshot), display.all, now);
                Step::Over { result: Ok(print_records(records, display)) }
            },
            _ => Step::Over { result: Err(Error::OutOfTurn) },
        }
    }
}

// ---------------------------------------------------------------------------
// Prune
// ---------------------------------------------------------------------------
/// The arguments of the command that prunes the registry.
pub struct PruneArgs {
    pub before: String,
    pub dry_run: bool,
    pub json: bool,
}

/// What is printed of a pruning, and what it fails with thereafter.
pub struct PruneOutput {
    pub printed: PrunePrinted,
    pub failure: Option<Error>,
}

pub enum PrunePrinted {
    /// Lines, and lines on the errors for the error output.
    Lines { lines: Vec<String>, complaints: Vec<String> },
    /// The report as JSON.
    Document { report: PruneReport },
}

pub struct PruneOutputView {
    pub printed: PrunePrintedView,
    pub failure: Option<ErrorView>,
}

pub enum PrunePrintedView {
    Lines { lines: Seq<Seq<char>>, complaints: Seq<Seq<char>> },
    Document { report: ReportView },
}

impl View for PrunePrinted {
    type V = PrunePrintedView;

    open spec fn view(&self) -> PrunePrintedView {
        match *self {
            PrunePrinted::Lines { lines, complaints } => PrunePrintedView::Lines {
                lines: views(lines@),
                complaints: views(complaints@),
            },
            PrunePrinted::Document { report } => PrunePrintedView::Document { report: report@ },
        }
    }
}

impl View for PruneOutput {
    type V = PruneOutputView;

    open spec fn view(&self) -> PruneOutputView {
        PruneOutputView {
            printed: self.printed@,
            failure: match self.failure {
                Some(error) => Some(error@),
                None => None,
            },
        }
    }
}

/// The first line on a pruning.
pub open spec fn prune_heading(report: ReportView) -> Seq<char> {
    (if report.dry_run {
        "would prune"@
    } else {
        "pruned"@
    }) + " "@ + decimal(report.candidates.len()) + " identities before "@ + shown_instant(
        report.cutoff.secs(),
        report.cutoff.nanos(),
    )
}

/// The line of an identity that is pruned.
pub open spec fn prune_line(assignment: AssignmentView) -> Seq<char> {
    assignment.name + "\t"@ + assignment.session_id + "\tupdated:"@ + shown_instant(
        assignment.updated_at.secs(),
        assignment.updated_at.nanos(),
    )
}

/// The lines on a pruning.
pub open spec fn prune_lines(report: ReportView) -> Seq<Seq<char>> {
    seq![prune_heading(report)] + report.candidates.map_values(
        |assignment: AssignmentView| prune_line(assignment),
    )
}

/// What is printed of a pruning, which fails where there were errors.
pub open spec fn report_printed(report: ReportView, json: bool) -> PruneOutputView {
    PruneOutputView {
        printed: if json {
            PrunePrintedView::Document { report }
        } else {
            PrunePrintedView::Lines {
                lines: prune_lines(report),
                complaints: report.errors.map_values(|error: Seq<char>| "agent-id: "@ + error),
            }
        },
        failure: if report.errors.len() == 0 {
            None
        } else {
            Some(ErrorView::PruneIncomplete { count: report.errors.len() as usize })
        },
    }
}

/// The first line on a pruning.
fn head_prune(report: &PruneReport) -> (line: String)
    ensures
        line@ == prune_heading(report@),
{
    let mut line = if report.dry_run {
        "would prune".to_owned()
    } else {
        "pruned".to_owned()
    };
    line.append(" ");
    line.append(decimal_text(report.candidates.len() as u128).as_str());
    line.append(" identities before ");
    line.append(report.cutoff.shown().as_str());
    line
}

/// The line of an identity that is pruned.
fn line_of_pruned(assignment: &Assignment) -> (line: String)
    ensures
        line@ == prune_line(assignment@),
{
    let mut line = assignment.name.clone();
    line.append("\t");
    line.append(assignment.session_id.as_str());
    line.append("\tupdated:");
    line.append(assignment.updated_at.shown().as_str());
    line
}

/// The lines on a pruning.
pub fn lines_of_pruning(report: &PruneReport) -> (lines: Vec<String>)
    ensures
        views(lines@) == prune_lines(report@),
{
    let mut lines: Vec<String> = Vec::new();
    lines.push(head_prune(report));
    let mut i: usize = 0;
    while i < report.candidates.len()
        invariant
            i <= report.candidates@.len(),
            lines@.len() == i + 1,
            lines@[0]@ == prune_heading(report@),
            forall|j: int|
                0 < j <= i ==> (#[trigger] lines@[j])@ == prune_line(report.candidates@[j - 1]@),
        decreases report.candidates@.len() - i,
    {
        lines.push(line_of_pruned(&report.candidates[i]));
        i = i + 1;
    }
    assert(views(lines@) =~= prune_lines(report@));
    lines
}

/// The lines on the errors of a pruning.
fn complain(errors: &Vec<String>) -> (complaints: Vec<String>)
    ensures
        views(complaints@) == views(errors@).map_values(|error: Seq<char>| "agent-id: "@ + error),
{
    let mut complaints: Vec<String> = Vec::new();
    let mut i: usize = 0;
    while i < errors.len()
        invariant
            i <= errors@.len(),
            complaints@.len() == i,
            forall|j: int|
                0 <= j < i ==> (#[trigger] complaints@[j])@ == "agent-id: "@ + errors@[j]@,
        decreases errors@.len() - i,
    {
        complaints.push(noted("agent-id: ", errors[i].as_str()));
        i = i + 1;
    }
    assert(views(complaints@) =~= views(errors@).map_values(
        |error: Seq<char>| "agent-id: "@ + error,
    ));
    complaints
}

/// What is printed of a pruning, which fails where there were errors.
pub fn print_report(report: PruneReport, json: bool) -> (output: PruneOutput)
    ensures
        output@ == report_printed(report@, json),
{
    let count: usize = report.errors.len();
    let failure = if count == 0 {
        None
    } else {
        Some(Error::PruneIncomplete { count })
    };
    let printed = if json {
        PrunePrinted::Document { report }
    } else {
        PrunePrinted::Lines {
            lines: lines_of_pruning(&report),
            complaints: complain(&report.errors),
        }
    };
    PruneOutput { printed, failure }
}

/// The command that prunes the registry.
pub struct PruneCommand {
    pub task: Pruning,
    pub json: bool,
}

pub struct PruneCommandView {
    pub task: PruningView,
    pub json: bool,
}

impl View for PruneCommand {
    type V = PruneCommandView;

    open spec fn view(&self) -> PruneCommandView {
        PruneCommandView { task: self.task@, json: self.json }
    }
}

pub type PruneCommandStep = Step<PruneCommand, PruneOutput>;

pub type PruneCommandStepView = StepView<PruneCommandView, PruneOutputView>;

/// The step of a pruning as a step of the command.
pub open spec fn pruning_commanded(
    step: StepView<PruningView, ReportView>,
    json: bool,
) -> PruneCommandStepView {
    match step {
        StepView::Ask { request, then } => StepView::Ask {
            request,
            then: PruneCommandView { task: then, json },
        },
        StepView::Over { result: Err(error) } => StepView::failure(error),
        StepView::Over { result: Ok(report) } => StepView::Over {
            result: Ok(report_printed(report, json)),
        },
    }
}

/// The command starts with the pruning in the registry that the environment gives, once
/// the cutoff is read.
pub open spec fn prune_begun(
    args: PruneArgs,
    cutoff: Result<Timestamp, Seq<char>>,
    environment: EnvironmentView,
) -> PruneCommandStepView {
    match (cutoff, registry_home(environment)) {
        (Err(cause), _) => StepView::failure(
            ErrorView::PruneTimestamp { before: args.before@, cause },
        ),
        (Ok(_), None) => StepView::failure(ErrorView::NoHome),
        (Ok(cutoff), Some(registry)) => pruning_commanded(
            pruning_begun(registry, cutoff, args.dry_run),
            args.json,
        ),
    }
}

/// The step of a pruning as a step of the command.
fn command_pruning(step: Step<Pruning, PruneReport>, json: bool) -> (command: PruneCommandStep)
    ensures
        command@ == pruning_commanded(step@, json),
{
    match step {
        Step::Ask { request, then } => Step::Ask {
            request,
            then: PruneCommand { task: then, json },
        },
        Step::Over { result: Err(error) } => Step::Over { result: Err(error) },
        Step::Over { result: Ok(report) } => Step::Over { result: Ok(print_report(report, json)) },
    }
}

/// Starts the command that prunes the registry, with the cutoff that was read.
pub fn begin_prune(
    args: &PruneArgs,
    cutoff: Result<Timestamp, String>,
    environment: &Environment,
) -> (step: PruneCommandStep)
    ensures
        step@ == prune_begun(
            *args,
            match cutoff {
                Ok(cutoff) => Ok(cutoff),
                Err(cause) => Err(cause@),
            },
            environment@,
        ),
{
    let cutoff = match cutoff {
        Ok(cutoff) => cutoff,
        Err(cause) => return Step::Over {
            result: Err(Error::PruneTimestamp { before: args.before.clone(), cause }),
        },
    };
    match Registry::from_env(environment) {
        Err(error) => Step::Over { result: Err(error) },
        Ok(registry) => command_pruning(registry.prune(cutoff, args.dry_run), args.json),
    }
}

/// Starts the command that prunes the registry.
pub fn execute_prune(args: &PruneArgs, environment: &Environment) -> (step: PruneCommandStep)
    ensures
        step@ == prune_begun(*args, Timestamp::rfc3339(args.before@), environment@),
{
    begin_prune(args, Timestamp::from_rfc3339(args.before.as_str()), environment)
}

impl PruneCommand {
    /// Goes on with a reply.
    pub fn resume(self, reply: Reply) -> (step: PruneCommandStep)
        ensures
            step@ == pruning_commanded(pruning_resumed(self@.task, reply@), self@.json),
    {
        command_pruning(self.task.resume(reply), self.json)
    }
}

} // verus!
