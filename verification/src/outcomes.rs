//! What the commands come to, over the model of the host.

use crate::activity::ActivityStateValue;
use crate::annotation::annotation_begun;
use crate::assignment::{option_view, AssignmentView};
use crate::commands::{
    annotate_begun, assignment_printed, discover_begun, discover_resumed, discovery_commanded,
    lookup_command_begun, prune_begun, pruning_commanded, realm_commanded, record_lines,
    records_printed, records_shown, register_begun, register_resumed, registration_commanded,
    report_printed, session_meant, step_printed, update_asked, AnnotateArgs, DiscoverArgs,
    DiscoverCommandView, DiscoverOutputView, Display, PrintedView, PrintingView, PruneArgs,
    PruneCommandView, PruneOutputView, RegisterArgs, RegisterCommandView, RegistrantView,
};
use crate::discovery::{discovery_begun, DiscoveryView};
use crate::error::ErrorView;
use crate::guarantees::{
    consistent, lemma_pruning, lemma_registered_is_found, lemma_shown_records, listed, pruned,
    pruning_resume,
};
use crate::herdr::{
    augmented, inside_herdr, lemma_only_running_are_left, snapshot_joined, DiscoveredView,
};
use crate::host::{EnvironmentView, ReplyView, RequestView, StepView};
use crate::lookup::lookup_begun;
use crate::pruning::{pruning_begun, pruning_resumed, PruningView, ReportView};
use crate::realm::{realm_begun, ChanceView, RealmResolutionView};
use crate::registration::{proper_names, registration_begun, NameListsView, RegistrationView};
use crate::registry::registry_home;
use crate::timestamp::Timestamp;
use crate::validation::session_id;
use crate::world::{
    annotation_resume, comes_to, discovery_resume, found_in, lemma_annotation, lemma_ask,
    lemma_discovery, lemma_lookup, lemma_over, lemma_realm, lemma_registration, looked_up,
    lookup_resume, noted_down, performed, realm_resolved, realm_resume, registered,
    registration_resume, run, World,
};
use vstd::prelude::*;

verus! {

// ---------------------------------------------------------------------------
// Tasks inside tasks
// ---------------------------------------------------------------------------
/// Whether a task goes on as another one does inside it: it asks for what the other asks
/// for, and takes the replies to the other.
pub open spec fn wraps<K, T, L, U>(
    wrap: spec_fn(StepView<K, T>) -> StepView<L, U>,
    inner: spec_fn(K, ReplyView) -> StepView<K, T>,
    outer: spec_fn(L, ReplyView) -> StepView<L, U>,
) -> bool {
    forall|request: RequestView, then: K, reply: ReplyView|
        #![trigger wrap(StepView::Ask { request, then }), inner(then, reply)]
        {
            let step = wrap(StepView::Ask { request, then });
            &&& step is Ask
            &&& step->request == request
            &&& outer(step->then, reply) == wrap(inner(then, reply))
        }
}

/// A task comes to what it comes to once the one inside it is over.
pub proof fn lemma_wrapped<K, T, L, U>(
    step: StepView<K, T>,
    wrap: spec_fn(StepView<K, T>) -> StepView<L, U>,
    inner: spec_fn(K, ReplyView) -> StepView<K, T>,
    outer: spec_fn(L, ReplyView) -> StepView<L, U>,
    world: World,
    between: (World, Result<T, ErrorView>),
    outcome: (World, Result<U, ErrorView>),
)
    requires
        wraps(wrap, inner, outer),
        comes_to(step, inner, world, between),
        comes_to(wrap(StepView::Over { result: between.1 }), outer, between.0, outcome),
    ensures
        comes_to(wrap(step), outer, world, outcome),
{
    let requests = choose|requests: nat| #[trigger]
        run(step, inner, world, requests) == (between.0, Some(between.1));
    lemma_wrapped_run(step, wrap, inner, outer, world, requests, between, outcome);
}

/// The same, by the number of requests.
proof fn lemma_wrapped_run<K, T, L, U>(
    step: StepView<K, T>,
    wrap: spec_fn(StepView<K, T>) -> StepView<L, U>,
    inner: spec_fn(K, ReplyView) -> StepView<K, T>,
    outer: spec_fn(L, ReplyView) -> StepView<L, U>,
    world: World,
    requests: nat,
    between: (World, Result<T, ErrorView>),
    outcome: (World, Result<U, ErrorView>),
)
    requires
        wraps(wrap, inner, outer),
        run(step, inner, world, requests) == (between.0, Some(between.1)),
        comes_to(wrap(StepView::Over { result: between.1 }), outer, between.0, outcome),
    ensures
        comes_to(wrap(step), outer, world, outcome),
    decreases requests,
{
    match step {
        StepView::Over { result } => {},
        StepView::Ask { request, then } => {
            let (next, reply) = performed(world, request);
            assert(wrap(step) == wrap(StepView::Ask { request, then }));
            lemma_wrapped_run(
                inner(then, reply),
                wrap,
                inner,
                outer,
                next,
                (requests - 1) as nat,
                between,
                outcome,
            );
            lemma_ask(wrap(step), outer, world, outcome);
        },
    }
}

// ---------------------------------------------------------------------------
// Commands that print an assignment
// ---------------------------------------------------------------------------
/// How a task goes on whose assignment is printed.
pub open spec fn printing_resume<K>(
    inner: spec_fn(K, ReplyView) -> StepView<K, AssignmentView>,
) -> spec_fn(PrintingView<K>, ReplyView) -> StepView<PrintingView<K>, PrintedView> {
    |task: PrintingView<K>, reply: ReplyView| step_printed(inner(task.task, reply), task.json)
}

/// What is printed of a result.
pub open spec fn result_printed(result: Result<AssignmentView, ErrorView>, json: bool) -> Result<
    PrintedView,
    ErrorView,
> {
    match result {
        Ok(assignment) => Ok(assignment_printed(assignment, json)),
        Err(error) => Err(error),
    }
}

/// A task whose assignment is printed changes the world as the task does, and prints
/// what the task comes to.
pub proof fn lemma_printing<K>(
    step: StepView<K, AssignmentView>,
    inner: spec_fn(K, ReplyView) -> StepView<K, AssignmentView>,
    json: bool,
    world: World,
    outcome: (World, Result<AssignmentView, ErrorView>),
)
    requires
        comes_to(step, inner, world, outcome),
    ensures
        comes_to(
            step_printed(step, json),
            printing_resume(inner),
            world,
            (outcome.0, result_printed(outcome.1, json)),
        ),
{
    let wrap = |step: StepView<K, AssignmentView>| step_printed(step, json);
    let outer = printing_resume(inner);
    lemma_over(wrap(StepView::Over { result: outcome.1 }), outer, outcome.0);
    lemma_wrapped(
        step,
        wrap,
        inner,
        outer,
        world,
        outcome,
        (outcome.0, result_printed(outcome.1, json)),
    );
}

/// The commands that look an identity up never change anything: nothing is registered
/// that is missing.
pub proof fn lemma_lookup_command(
    world: World,
    explicit: Option<Seq<char>>,
    json: bool,
    environment: EnvironmentView,
)
    ensures
        comes_to(
            lookup_command_begun(explicit, json, environment),
            printing_resume(lookup_resume()),
            world,
            (
                world,
                match (session_meant(explicit, environment), registry_home(environment)) {
                    (Err(error), _) => Err(error),
                    (Ok(_), None) => Err(ErrorView::NoHome),
                    (Ok(input), Some(_)) => result_printed(looked_up(world, input), json),
                },
            ),
        ),
{
    match (session_meant(explicit, environment), registry_home(environment)) {
        (Ok(input), Some(registry)) => {
            lemma_lookup(world, registry, input);
            lemma_printing(
                lookup_begun(registry, input),
                lookup_resume(),
                json,
                world,
                (world, looked_up(world, input)),
            );
        },
        _ => {
            lemma_over(
                lookup_command_begun(explicit, json, environment),
                printing_resume(lookup_resume()),
                world,
            );
        },
    }
}

/// What the command that annotates an identity comes to.
pub open spec fn annotate_outcome(
    world: World,
    args: AnnotateArgs,
    environment: EnvironmentView,
) -> (World, Result<PrintedView, ErrorView>) {
    match (
        session_meant(option_view(args.session), environment),
        update_asked(args),
        registry_home(environment),
    ) {
        (Err(error), _, _) => (world, Err(error)),
        (Ok(_), Err(error), _) => (world, Err(error)),
        (Ok(_), Ok(_), None) => (world, Err(ErrorView::NoHome)),
        (Ok(session), Ok(update), Some(_)) => {
            let (after, result) = noted_down(world, session, update);
            (after, result_printed(result, args.json))
        },
    }
}

/// The command that annotates an identity comes to what `annotate_outcome` says.
pub proof fn lemma_annotate_command(
    world: World,
    args: AnnotateArgs,
    environment: EnvironmentView,
)
    ensures
        comes_to(
            annotate_begun(args, environment),
            printing_resume(annotation_resume()),
            world,
            annotate_outcome(world, args, environment),
        ),
{
    match (
        session_meant(option_view(args.session), environment),
        update_asked(args),
        registry_home(environment),
    ) {
        (Ok(session), Ok(update), Some(registry)) => {
            lemma_annotation(world, registry, session, update);
            lemma_printing(
                annotation_begun(registry, session, update),
                annotation_resume(),
                args.json,
                world,
                noted_down(world, session, update),
            );
        },
        _ => {
            lemma_over(
                annotate_begun(args, environment),
                printing_resume(annotation_resume()),
                world,
            );
        },
    }
}

// ---------------------------------------------------------------------------
// Register
// ---------------------------------------------------------------------------
/// How the command that registers a session goes on.
pub open spec fn register_resume() -> spec_fn(RegisterCommandView, ReplyView) -> StepView<
    RegisterCommandView,
    PrintedView,
> {
    |command: RegisterCommandView, reply: ReplyView| register_resumed(command, reply)
}

/// What the command that registers a session comes to: the realm is resolved, then the
/// session is registered in it.
pub open spec fn register_outcome(
    world: World,
    args: RegisterArgs,
    environment: EnvironmentView,
    names: NameListsView,
    realms: Seq<Seq<char>>,
    chance: ChanceView,
) -> (World, Result<PrintedView, ErrorView>) {
    match session_meant(option_view(args.session), environment) {
        Err(error) => (world, Err(error)),
        Ok(session) => {
            let (between, realm) = realm_resolved(
                world,
                option_view(args.realm),
                environment,
                realms,
                chance,
            );
            match (realm, registry_home(environment)) {
                (Err(error), _) => (between, Err(error)),
                (Ok(_), None) => (between, Err(ErrorView::NoHome)),
                (Ok(realm), Some(_)) => {
                    let (after, result) = registered(
                        between,
                        session,
                        option_view(args.family),
                        realm,
                        names,
                    );
                    (after, result_printed(result, args.json))
                },
            }
        },
    }
}

/// A registration inside the command comes to what is printed of it.
proof fn lemma_commanded_registration(
    world: World,
    step: StepView<RegistrationView, AssignmentView>,
    json: bool,
    outcome: (World, Result<AssignmentView, ErrorView>),
)
    requires
        comes_to(step, registration_resume(), world, outcome),
    ensures
        comes_to(
            registration_commanded(step_printed(step, json)),
            register_resume(),
            world,
            (outcome.0, result_printed(outcome.1, json)),
        ),
{
    let wrap = |step: StepView<RegistrationView, AssignmentView>|
        registration_commanded(step_printed(step, json));
    lemma_over(wrap(StepView::Over { result: outcome.1 }), register_resume(), outcome.0);
    lemma_wrapped(
        step,
        wrap,
        registration_resume(),
        register_resume(),
        world,
        outcome,
        (outcome.0, result_printed(outcome.1, json)),
    );
}

/// The command that registers a session comes to what `register_outcome` says.
pub proof fn lemma_register_command(
    world: World,
    args: RegisterArgs,
    environment: EnvironmentView,
    names: NameListsView,
    realms: Seq<Seq<char>>,
    chance: ChanceView,
)
    ensures
        comes_to(
            register_begun(args, environment, names, realms, chance),
            register_resume(),
            world,
            register_outcome(world, args, environment, names, realms, chance),
        ),
{
    let outcome = register_outcome(world, args, environment, names, realms, chance);
    match session_meant(option_view(args.session), environment) {
        Err(_) => {
            lemma_over(
                register_begun(args, environment, names, realms, chance),
                register_resume(),
                world,
            );
        },
        Ok(session) => {
            let family = option_view(args.family);
            let explicit = option_view(args.realm);
            let registrant = RegistrantView {
                session_id: session,
                family,
                names,
                registry: registry_home(environment),
                json: args.json,
            };
            let wrap = |step: StepView<RealmResolutionView, Seq<char>>|
                realm_commanded(step, registrant);
            let between = realm_resolved(world, explicit, environment, realms, chance);
            let rest = wrap(StepView::Over { result: between.1 });
            lemma_realm(world, explicit, environment, realms, chance);
            match (between.1, registry_home(environment)) {
                (Ok(realm), Some(registry)) => {
                    lemma_registration(between.0, registry, session, family, realm, names);
                    lemma_commanded_registration(
                        between.0,
                        registration_begun(registry, session, family, realm, names),
                        args.json,
                        registered(between.0, session, family, realm, names),
                    );
                },
                _ => {
                    lemma_over(rest, register_resume(), between.0);
                },
            }
            lemma_wrapped(
                realm_begun(explicit, environment, realms, chance),
                wrap,
                realm_resume(),
                register_resume(),
                world,
                between,
                outcome,
            );
        },
    }
}

/// A session that is registered for the first time, and then looked up, is printed the
/// same both times.
pub proof fn lemma_lookup_prints_what_register_printed(
    world: World,
    args: RegisterArgs,
    environment: EnvironmentView,
    names: NameListsView,
    realms: Seq<Seq<char>>,
    chance: ChanceView,
)
    requires
        proper_names(names),
        register_outcome(world, args, environment, names, realms, chance).1 is Ok,
        !world.sessions.contains_key(
            session_id(session_meant(option_view(args.session), environment)->Ok_0)->Ok_0,
        ),
    ensures
        ({
            let (after, printed) = register_outcome(
                world,
                args,
                environment,
                names,
                realms,
                chance,
            );
            let session = session_meant(option_view(args.session), environment)->Ok_0;
            result_printed(looked_up(after, session), args.json) == printed
        }),
{
    let session = session_meant(option_view(args.session), environment)->Ok_0;
    let (between, realm) = realm_resolved(
        world,
        option_view(args.realm),
        environment,
        realms,
        chance,
    );
    lemma_registered_is_found(
        between,
        session,
        option_view(args.family),
        realm->Ok_0,
        names,
    );
    let after = register_outcome(world, args, environment, names, realms, chance).0;
    let id = session_id(session)->Ok_0;
    crate::text::lemma_trimmed_is_trim(session);
    crate::validation::lemma_session_id_stays(session);
    assert(looked_up(after, session) == looked_up(after, id));
}

// ---------------------------------------------------------------------------
// Discover
// ---------------------------------------------------------------------------
/// How the command that discovers identities goes on.
pub open spec fn discover_resume() -> spec_fn(DiscoverCommandView, ReplyView) -> StepView<
    DiscoverCommandView,
    DiscoverOutputView,
> {
    |command: DiscoverCommandView, reply: ReplyView| discover_resumed(command, reply)
}

/// How the command shows what it discovers.
pub open spec fn display_of(args: DiscoverArgs, environment: EnvironmentView) -> Display {
    Display {
        limit: args.limit,
        all: args.all,
        json: args.json,
        in_herdr: inside_herdr(environment.herdr_marker, environment.herdr_socket_path),
    }
}

/// What is printed of the assignments that are discovered: with what Herdr tells, where
/// it is asked and tells something.
pub open spec fn discovery_printed(
    world: World,
    assignments: Seq<AssignmentView>,
    display: Display,
) -> DiscoverOutputView {
    let snapshot = if display.in_herdr {
        world.snapshot
    } else {
        None
    };
    records_printed(augmented(assignments, snapshot, display.all, world.now), display)
}

/// Inside Herdr, where Herdr tells of the agents, what is shown unless all is asked for are
/// assignments with a running agent that are not stopped; where there is no limit, all of
/// them are.
pub proof fn lemma_default_discovery_is_live(
    world: World,
    assignments: Seq<AssignmentView>,
    display: Display,
)
    requires
        display.in_herdr,
        !display.all,
        world.snapshot is Some,
    ensures
        ({
            let joined = snapshot_joined(assignments, world.snapshot->0, world.now);
            let live = |record: DiscoveredView|
                record.runtime is Some && record.assignment.state.value
                    != ActivityStateValue::Stopped;
            let document = Display { json: true, ..display };
            &&& discovery_printed(world, assignments, document) matches
                DiscoverOutputView::Document { records }
            &&& forall|record: DiscoveredView| #[trigger]
                records.contains(record) ==> joined.contains(record) && live(record)
            &&& display.limit == 0 ==> forall|record: DiscoveredView|
                joined.contains(record) && live(record) ==> #[trigger] records.contains(record)
            &&& !display.json ==> discovery_printed(world, assignments, display)
                == (DiscoverOutputView::Lines { lines: record_lines(records) })
        }),
{
    let snapshot = world.snapshot->0;
    let told = augmented(assignments, Some(snapshot), false, world.now);
    lemma_only_running_are_left(assignments, snapshot, world.now);
    lemma_shown_records(told, false, display.limit as nat);
    let shown = records_shown(told, false, display.limit as nat);
    assert forall|record: DiscoveredView| #[trigger] shown.contains(record) implies told.contains(
        record,
    ) && record.assignment.state.value != ActivityStateValue::Stopped by {
        let i = shown.index_of(record);
        assert(told.contains(shown[i]));
    }
}

/// What the command that discovers identities comes to. It changes nothing.
pub open spec fn discover_outcome(
    world: World,
    args: DiscoverArgs,
    environment: EnvironmentView,
) -> Result<DiscoverOutputView, ErrorView> {
    match (
        registry_home(environment),
        found_in(world, args.recent, option_view(args.realm)),
    ) {
        (None, _) => Err(ErrorView::NoHome),
        (Some(_), Err(error)) => Err(error),
        (Some(_), Ok(assignments)) => Ok(
            discovery_printed(world, assignments, display_of(args, environment)),
        ),
    }
}

/// The command that discovers identities comes to what `discover_outcome` says. The hours
/// that it looks back reach no further than instants do.
pub proof fn lemma_discover_command(
    world: World,
    args: DiscoverArgs,
    environment: EnvironmentView,
)
    requires
        args.recent matches Some(hours) ==> hours < 0 || world.now.reaches_back(hours as int),
    ensures
        comes_to(
            discover_begun(args, environment),
            discover_resume(),
            world,
            (world, discover_outcome(world, args, environment)),
        ),
{
    let outcome = (world, discover_outcome(world, args, environment));
    let outer = discover_resume();
    match registry_home(environment) {
        None => {
            lemma_over(discover_begun(args, environment), outer, world);
        },
        Some(registry) => {
            let realm = option_view(args.realm);
            let display = display_of(args, environment);
            let wrap = |step: StepView<DiscoveryView, Seq<AssignmentView>>|
                discovery_commanded(step, display);
            let found = found_in(world, args.recent, realm);
            lemma_discovery(world, registry, args.recent, realm);
            let s0 = wrap(StepView::Over { result: found });
            if s0 is Over {
                lemma_over(s0, outer, world);
            } else {
                let s1 = outer(s0->then, performed(world, s0->request).1);
                if world.snapshot is None {
                    lemma_over(s1, outer, world);
                } else {
                    let s2 = outer(s1->then, performed(world, s1->request).1);
                    lemma_over(s2, outer, world);
                    lemma_ask(s1, outer, world, outcome);
                }
                lemma_ask(s0, outer, world, outcome);
            }
            lemma_wrapped(
                discovery_begun(registry, args.recent, realm),
                wrap,
                discovery_resume(),
                outer,
                world,
                (world, found),
                outcome,
            );
        },
    }
}

// ---------------------------------------------------------------------------
// Prune
// ---------------------------------------------------------------------------
/// How the command that prunes the registry goes on.
pub open spec fn prune_resume() -> spec_fn(PruneCommandView, ReplyView) -> StepView<
    PruneCommandView,
    PruneOutputView,
> {
    |command: PruneCommandView, reply: ReplyView|
        pruning_commanded(pruning_resumed(command.task, reply), command.json)
}

/// What the command that prunes the registry comes to.
pub open spec fn prune_outcome(
    world: World,
    args: PruneArgs,
    cutoff: Result<Timestamp, Seq<char>>,
    environment: EnvironmentView,
) -> (World, Result<PruneOutputView, ErrorView>) {
    match (cutoff, registry_home(environment)) {
        (Err(cause), _) => (
            world,
            Err(ErrorView::PruneTimestamp { before: args.before@, cause }),
        ),
        (Ok(_), None) => (world, Err(ErrorView::NoHome)),
        (Ok(cutoff), Some(_)) => {
            let (after, report) = pruned(world, cutoff, args.dry_run);
            (after, Ok(report_printed(report, args.json)))
        },
    }
}

/// The command that prunes the registry comes, in a consistent world, to what
/// `prune_outcome` says.
pub proof fn lemma_prune_command(
    world: World,
    args: PruneArgs,
    cutoff: Result<Timestamp, Seq<char>>,
    environment: EnvironmentView,
)
    requires
        consistent(world),
        listed(world),
    ensures
        comes_to(
            prune_begun(args, cutoff, environment),
            prune_resume(),
            world,
            prune_outcome(world, args, cutoff, environment),
        ),
{
    let outcome = prune_outcome(world, args, cutoff, environment);
    match (cutoff, registry_home(environment)) {
        (Ok(cutoff), Some(registry)) => {
            let wrap = |step: StepView<PruningView, ReportView>|
                pruning_commanded(step, args.json);
            let (after, report) = pruned(world, cutoff, args.dry_run);
            lemma_pruning(world, registry, cutoff, args.dry_run);
            lemma_over(wrap(StepView::Over { result: Ok(report) }), prune_resume(), after);
            lemma_wrapped(
                pruning_begun(registry, cutoff, args.dry_run),
                wrap,
                pruning_resume(),
                prune_resume(),
                world,
                (after, Ok(report)),
                outcome,
            );
        },
        _ => {
            lemma_over(prune_begun(args, cutoff, environment), prune_resume(), world);
        },
    }
}

} // verus!
