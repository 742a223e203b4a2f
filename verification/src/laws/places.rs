//! Which files are read and written: those of the registry that the environment names,
//! and the file of the realm.

use crate::annotation::{annotation_begun, annotation_resumed, AnnotationView, UpdateView};
use crate::assignment::option_view;
use crate::commands::{
    annotate_begun, discover_begun, discover_resumed, lookup_command_begun, prune_begun,
    pruning_commanded, register_begun, register_resumed, step_printed, AnnotateArgs, DiscoverArgs,
    DiscoverCommandView, DiscoverOutputView, DiscoverStageView, PrintedView, PrintingView,
    PruneArgs, PruneCommandView, PruneOutputView, RegisterArgs, RegisterCommandView,
};
use crate::discovery::{discovery_begun, discovery_resumed, DiscoveryView};
use crate::host::{EnvironmentView, PlaceView, ReplyView, RequestView, StepView};
use crate::lookup::{lookup_begun, lookup_resumed, LookupView};
use crate::outcomes::{discover_resume, printing_resume, prune_resume, register_resume};
use crate::pruning::{pruning_begun, pruning_resumed, PruningView};
use crate::realm::{realm_begun, realm_place, realm_resumed, ChanceView, RealmResolutionView};
use crate::registration::{
    registration_begun, registration_resumed, NameListsView, RegistrationView,
};
use crate::registry::registry_home;
use crate::timestamp::Timestamp;
use crate::world::{annotation_resume, lookup_resume};
use std::path::PathBuf;
use vstd::prelude::*;

verus! {

// ---------------------------------------------------------------------------
// Where the registry and the realm are
// ---------------------------------------------------------------------------
/// The registry is the directory that `AGENT_ID_HOME` names, whatever else is set; where
/// that is not set it is `agent-id` in the directory that `XDG_DATA_HOME` names; and only
/// where neither is set it is `.local/share/agent-id` in the home directory.
pub proof fn lemma_registry_is_where_it_is_asked_for(environment: EnvironmentView, path: PathBuf)
    ensures
        environment.registry_home == Some(path) ==> registry_home(environment) == Some(
            PlaceView { base: path, below: Seq::empty() },
        ),
        environment.registry_home is None && environment.data_home == Some(path) ==> registry_home(
            environment,
        ) == Some(PlaceView { base: path, below: "agent-id"@ }),
        environment.registry_home is None && environment.data_home is None && environment.home
            == Some(path) ==> registry_home(environment) == Some(
            PlaceView { base: path, below: ".local/share/agent-id"@ },
        ),
        registry_home(environment) is None <==> environment.registry_home is None
            && environment.data_home is None && environment.home is None,
{
    reveal_strlit("");
    assert(""@ =~= Seq::<char>::empty());
}

/// The realm is kept in `agent-id/realm` in the directory that `XDG_CONFIG_HOME` names, or
/// else in `.config/agent-id/realm` in the home directory, without which there is none.
pub proof fn lemma_realm_is_where_it_is_asked_for(environment: EnvironmentView, path: PathBuf)
    ensures
        environment.home is Some && environment.config_home == Some(path) ==> realm_place(
            environment,
        ) == Some(PlaceView { base: path, below: "agent-id/realm"@ }),
        environment.home == Some(path) && environment.config_home is None ==> realm_place(
            environment,
        ) == Some(PlaceView { base: path, below: ".config/agent-id/realm"@ }),
        realm_place(environment) is None <==> environment.home is None,
{
}

/// A path below another, which can be the starting point itself.
pub open spec fn path_below(path: Seq<char>, name: Seq<char>) -> Seq<char> {
    if path.len() == 0 {
        name
    } else {
        path + "/"@ + name
    }
}

/// Whether a place is the file of a session's record in a registry.
pub open spec fn is_record_file(
    place: PlaceView,
    registry: PlaceView,
    session_id: Seq<char>,
) -> bool {
    &&& place.base == registry.base
    &&& !(session_id.len() > 0 && session_id[0] == '/') ==> place.below == path_below(
        registry.below,
        "by-session"@,
    ) + "/"@ + session_id + ".json"@
}

/// Whether a place is the file of a slug's claim in a registry.
pub open spec fn is_claim_file(place: PlaceView, registry: PlaceView, slug: Seq<char>) -> bool {
    &&& place.base == registry.base
    &&& !(slug.len() > 0 && slug[0] == '/') ==> place.below == path_below(
        registry.below,
        "by-name"@,
    ) + "/"@ + slug
}

/// Whether what is asked for is in a registry: each record and each claim in its own file.
pub open spec fn asks_within(request: RequestView, registry: PlaceView) -> bool {
    let sessions = PlaceView { base: registry.base, below: path_below(registry.below, "by-session"@) };
    let claims = PlaceView { base: registry.base, below: path_below(registry.below, "by-name"@) };
    match request {
        RequestView::FindSession { session_id, place } => is_record_file(
            place,
            registry,
            session_id,
        ),
        RequestView::ReplaceSession { session_id, place, .. } => is_record_file(
            place,
            registry,
            session_id,
        ),
        RequestView::CreateSession { session_id, place, .. } => is_record_file(
            place,
            registry,
            session_id,
        ),
        RequestView::RemoveSession { session_id, place } => is_record_file(
            place,
            registry,
            session_id,
        ),
        RequestView::ListSessions { place } => place == sessions,
        RequestView::PrepareDirectories { sessions: made, names } => made == sessions && names
            == claims,
        RequestView::ClaimName { slug, place, .. } => is_claim_file(place, registry, slug),
        RequestView::FindClaim { slug, place } => is_claim_file(place, registry, slug),
        RequestView::ReadClaim { slug, place } => is_claim_file(place, registry, slug),
        RequestView::RemoveClaim { slug, place } => is_claim_file(place, registry, slug),
        RequestView::FindRealm { .. } => false,
        RequestView::CreateRealm { .. } => false,
        RequestView::ReadClock => true,
        RequestView::LoadSnapshot => true,
    }
}

/// The files of a registry are where they are said to be.
proof fn lemma_files(registry: PlaceView, name: Seq<char>)
    ensures
        crate::registry::sessions_place(registry) == (PlaceView {
            base: registry.base,
            below: path_below(registry.below, "by-session"@),
        }),
        crate::registry::names_place(registry) == (PlaceView {
            base: registry.base,
            below: path_below(registry.below, "by-name"@),
        }),
        is_record_file(crate::registry::session_place(registry, name), registry, name),
        is_claim_file(crate::registry::claim_place(registry, name), registry, name),
{
    reveal_strlit("/");
    reveal_strlit("by-session");
    reveal_strlit("by-name");
    reveal_strlit(".json");
    let sessions = crate::registry::sessions_place(registry);
    assert(sessions.below.len() > 0);
    assert((name + ".json"@)[0] == if name.len() > 0 {
        name[0]
    } else {
        '.'
    });
    assert(sessions.below + "/"@ + (name + ".json"@) =~= sessions.below + "/"@ + name + ".json"@);
}

// ---------------------------------------------------------------------------
// The tasks keep to their registry
// ---------------------------------------------------------------------------
/// A registration asks for nothing outside its registry, and of records only for that of
/// its session.
pub proof fn lemma_registration_keeps_to_registry(
    registry: PlaceView,
    session: Seq<char>,
    family: Option<Seq<char>>,
    realm: Seq<char>,
    names: NameListsView,
    task: RegistrationView,
    reply: ReplyView,
)
    ensures
        registration_begun(registry, session, family, realm, names) matches StepView::Ask {
            request,
            then,
        } ==> asks_within(request, registry) && then.registry == registry,
        registration_resumed(task, reply) matches StepView::Ask { request, then } ==> {
            &&& asks_within(request, task.registry)
            &&& then.registry == task.registry
            &&& then.session_id == task.session_id
            &&& request matches RequestView::CreateSession { session_id, .. } ==> session_id
                == task.session_id
            &&& request matches RequestView::ReplaceSession { session_id, .. } ==> session_id
                == task.session_id
        },
{
    assert forall|place: PlaceView, name: Seq<char>|
        #![trigger crate::registry::session_place(place, name)]
        is_record_file(crate::registry::session_place(place, name), place, name) by {
        lemma_files(place, name);
    }
    assert forall|place: PlaceView, name: Seq<char>|
        #![trigger crate::registry::claim_place(place, name)]
        is_claim_file(crate::registry::claim_place(place, name), place, name) by {
        lemma_files(place, name);
    }
    lemma_files(registry, Seq::empty());
    lemma_files(task.registry, Seq::empty());
}

/// A lookup asks for nothing outside its registry, and for nothing but to read.
pub proof fn lemma_lookup_keeps_to_registry(
    registry: PlaceView,
    input: Seq<char>,
    task: LookupView,
    reply: ReplyView,
)
    ensures
        lookup_begun(registry, input) matches StepView::Ask { request, then } ==> asks_within(
            request,
            registry,
        ) && then.registry == registry && (request is FindSession || request is FindClaim),
        lookup_resumed(task, reply) matches StepView::Ask { request, then } ==> asks_within(
            request,
            task.registry,
        ) && then.registry == task.registry && (request is FindSession || request is FindClaim),
{
    assert forall|place: PlaceView, name: Seq<char>|
        #![trigger crate::registry::session_place(place, name)]
        is_record_file(crate::registry::session_place(place, name), place, name) by {
        lemma_files(place, name);
    }
    assert forall|place: PlaceView, name: Seq<char>|
        #![trigger crate::registry::claim_place(place, name)]
        is_claim_file(crate::registry::claim_place(place, name), place, name) by {
        lemma_files(place, name);
    }
}

/// An annotation asks for nothing outside its registry, and writes nothing but the record
/// of its session.
pub proof fn lemma_annotation_keeps_to_registry(
    registry: PlaceView,
    session: Seq<char>,
    update: UpdateView,
    task: AnnotationView,
    reply: ReplyView,
)
    ensures
        annotation_begun(registry, session, update) matches StepView::Ask { request, then }
            ==> asks_within(request, registry) && then.registry == registry && request
            is FindSession,
        annotation_resumed(task, reply) matches StepView::Ask { request, then } ==> {
            &&& asks_within(request, task.registry)
            &&& then.registry == task.registry
            &&& then.session_id == task.session_id
            &&& request is ReadClock || (request matches RequestView::ReplaceSession {
                session_id,
                ..
            } && session_id == task.session_id)
        },
{
    assert forall|place: PlaceView, name: Seq<char>|
        #![trigger crate::registry::session_place(place, name)]
        is_record_file(crate::registry::session_place(place, name), place, name) by {
        lemma_files(place, name);
    }
}

/// A discovery asks for nothing outside its registry, and for nothing but to read.
pub proof fn lemma_discovery_keeps_to_registry(
    registry: PlaceView,
    recent_hours: Option<i64>,
    realm: Option<Seq<char>>,
    task: DiscoveryView,
    reply: ReplyView,
)
    ensures
        discovery_begun(registry, recent_hours, realm) matches StepView::Ask { request, then }
            ==> asks_within(request, registry) && then.registry == registry && (request is ReadClock
            || request is ListSessions),
        discovery_resumed(task, reply) matches StepView::Ask { request, then } ==> asks_within(
            request,
            task.registry,
        ) && then.registry == task.registry && request is ListSessions,
{
    lemma_files(registry, Seq::empty());
    lemma_files(task.registry, Seq::empty());
}

/// A pruning asks for nothing outside its registry, and in a dry run for nothing but the
/// records.
pub proof fn lemma_pruning_keeps_to_registry(
    registry: PlaceView,
    cutoff: Timestamp,
    dry_run: bool,
    task: PruningView,
    reply: ReplyView,
)
    ensures
        pruning_begun(registry, cutoff, dry_run) matches StepView::Ask { request, then }
            ==> asks_within(request, registry) && then.registry == registry && request
            is ListSessions && then.report.dry_run == dry_run && then.report.cutoff == cutoff,
        pruning_resumed(task, reply) matches StepView::Ask { request, then } ==> {
            &&& asks_within(request, task.registry)
            &&& then.registry == task.registry
            &&& request is RemoveSession || request is ReadClaim || request is RemoveClaim
        },
        task.stage is Listing && task.report.dry_run ==> pruning_resumed(task, reply) is Over,
{
    assert forall|place: PlaceView, name: Seq<char>|
        #![trigger crate::registry::session_place(place, name)]
        is_record_file(crate::registry::session_place(place, name), place, name) by {
        lemma_files(place, name);
    }
    assert forall|place: PlaceView, name: Seq<char>|
        #![trigger crate::registry::claim_place(place, name)]
        is_claim_file(crate::registry::claim_place(place, name), place, name) by {
        lemma_files(place, name);
    }
    lemma_files(registry, Seq::empty());
}

/// The resolution of the realm asks for nothing but the file of the realm.
pub proof fn lemma_realm_keeps_to_file(
    explicit: Option<Seq<char>>,
    environment: EnvironmentView,
    candidates: Seq<Seq<char>>,
    chance: ChanceView,
    task: RealmResolutionView,
    reply: ReplyView,
)
    ensures
        realm_begun(explicit, environment, candidates, chance) matches StepView::Ask {
            request,
            then,
        } ==> {
            &&& request matches RequestView::FindRealm { place }
            &&& realm_place(environment) == Some(place)
            &&& then.place == place
        },
        realm_resumed(task, reply) matches StepView::Ask { request, then } ==> {
            &&& request matches RequestView::CreateRealm { place, .. }
            &&& place == task.place
            &&& then.place == task.place
        },
{
}

// ---------------------------------------------------------------------------
// The commands keep to the registry that the environment names
// ---------------------------------------------------------------------------
/// Where a task is after some replies, whatever they are.
pub open spec fn after_replies<K, T>(
    step: StepView<K, T>,
    resume: spec_fn(K, ReplyView) -> StepView<K, T>,
    replies: Seq<ReplyView>,
) -> StepView<K, T>
    decreases replies.len(),
{
    match step {
        StepView::Ask { then, .. } if replies.len() > 0 => after_replies(
            resume(then, replies.first()),
            resume,
            replies.drop_first(),
        ),
        _ => step,
    }
}

/// The registry that the environment names: `AGENT_ID_HOME` before `XDG_DATA_HOME` before
/// `HOME`.
pub open spec fn registry_named(environment: EnvironmentView) -> PlaceView {
    if environment.registry_home is Some {
        PlaceView { base: environment.registry_home->0, below: Seq::empty() }
    } else if environment.data_home is Some {
        PlaceView { base: environment.data_home->0, below: "agent-id"@ }
    } else {
        PlaceView { base: environment.home->0, below: ".local/share/agent-id"@ }
    }
}

/// The registry of a command is the one that the environment names.
proof fn lemma_registry_named(environment: EnvironmentView)
    ensures
        registry_home(environment) matches Some(registry) ==> registry == registry_named(
            environment,
        ),
{
    reveal_strlit("");
    assert(""@ =~= Seq::<char>::empty());
}

/// Whether a step of the command that registers is about a registry and the realm's file.
spec fn register_is_in(
    step: StepView<RegisterCommandView, PrintedView>,
    registry: PlaceView,
    environment: EnvironmentView,
) -> bool {
    step matches StepView::Ask { request, then } ==> match then {
        RegisterCommandView::Resolving { resolution, registrant } => {
            &&& registrant.registry is Some ==> registrant.registry == Some(registry)
            &&& Some(resolution.place) == realm_place(environment)
            &&& (request matches RequestView::FindRealm { place } && place == resolution.place) || (
            request matches RequestView::CreateRealm { place, .. } && place == resolution.place)
        },
        RegisterCommandView::Registering { printing } => {
            &&& printing.task.registry == registry
            &&& asks_within(request, registry)
        },
    }
}

/// Whatever the host replies, registering a session asks for nothing outside the registry
/// that the environment names and the file of the realm.
pub proof fn lemma_register_keeps_to_registry(
    args: RegisterArgs,
    environment: EnvironmentView,
    names: NameListsView,
    realms: Seq<Seq<char>>,
    chance: ChanceView,
    replies: Seq<ReplyView>,
)
    ensures
        after_replies(
            register_begun(args, environment, names, realms, chance),
            register_resume(),
            replies,
        ) matches StepView::Ask { request, then } ==> {
            ||| asks_within(request, registry_named(environment))
            ||| request matches RequestView::FindRealm { place } && Some(place) == realm_place(
                environment,
            )
            ||| request matches RequestView::CreateRealm { place, .. } && Some(place)
                == realm_place(environment)
        },
{
    let begun = register_begun(args, environment, names, realms, chance);
    let registry = registry_named(environment);
    lemma_registry_named(environment);
    assert forall|session: Seq<char>, family: Option<Seq<char>>, realm: Seq<char>|
        #![trigger registration_begun(registry, session, family, realm, names)]
        registration_begun(registry, session, family, realm, names) matches StepView::Ask {
            request,
            then,
        } ==> asks_within(request, registry) && then.registry == registry by {
        lemma_registration_keeps_to_registry(
            registry,
            session,
            family,
            realm,
            names,
            arbitrary(),
            ReplyView::Missing,
        );
    }
    assert(register_is_in(begun, registry, environment));
    lemma_register_stays(begun, registry, environment, replies);
}

/// The command that registers stays in its registry.
proof fn lemma_register_stays(
    step: StepView<RegisterCommandView, PrintedView>,
    registry: PlaceView,
    environment: EnvironmentView,
    replies: Seq<ReplyView>,
)
    requires
        register_is_in(step, registry, environment),
    ensures
        register_is_in(
            after_replies(step, register_resume(), replies),
            registry,
            environment,
        ),
    decreases replies.len(),
{
    if step is Ask && replies.len() > 0 {
        let reply = replies.first();
        let next = register_resumed(step->then, reply);
        match step->then {
            RegisterCommandView::Resolving { resolution, registrant } => {
                lemma_realm_keeps_to_file(
                    None,
                    environment,
                    Seq::empty(),
                    arbitrary(),
                    resolution,
                    reply,
                );
                if realm_resumed(resolution, reply) is Over && realm_resumed(
                    resolution,
                    reply,
                )->Over_result is Ok {
                    lemma_registration_keeps_to_registry(
                        registry,
                        registrant.session_id,
                        registrant.family,
                        realm_resumed(resolution, reply)->Over_result->Ok_0,
                        registrant.names,
                        arbitrary(),
                        reply,
                    );
                }
            },
            RegisterCommandView::Registering { printing } => {
                lemma_registration_keeps_to_registry(
                    registry,
                    Seq::empty(),
                    None,
                    Seq::empty(),
                    arbitrary(),
                    printing.task,
                    reply,
                );
            },
        }
        assert(register_is_in(next, registry, environment));
        lemma_register_stays(next, registry, environment, replies.drop_first());
    }
}

/// Whatever the host replies, looking an identity up reads in the registry that the
/// environment names, and writes nothing.
pub proof fn lemma_lookup_command_keeps_to_registry(
    explicit: Option<Seq<char>>,
    json: bool,
    environment: EnvironmentView,
    replies: Seq<ReplyView>,
)
    ensures
        after_replies(
            lookup_command_begun(explicit, json, environment),
            printing_resume(lookup_resume()),
            replies,
        ) matches StepView::Ask { request, .. } ==> {
            &&& asks_within(request, registry_named(environment))
            &&& request is FindSession || request is FindClaim
        },
{
    let begun = lookup_command_begun(explicit, json, environment);
    let registry = registry_named(environment);
    lemma_registry_named(environment);
    if begun is Ask {
        lemma_lookup_keeps_to_registry(
            registry,
            crate::commands::session_meant(explicit, environment)->Ok_0,
            arbitrary(),
            ReplyView::Missing,
        );
    }
    lemma_lookup_stays(begun, registry, replies);
}

/// The command that looks up stays in its registry.
proof fn lemma_lookup_stays(
    step: StepView<PrintingView<LookupView>, PrintedView>,
    registry: PlaceView,
    replies: Seq<ReplyView>,
)
    requires
        step matches StepView::Ask { request, then } ==> asks_within(request, registry)
            && then.task.registry == registry && (request is FindSession || request is FindClaim),
    ensures
        after_replies(step, printing_resume(lookup_resume()), replies) matches StepView::Ask {
            request,
            ..
        } ==> asks_within(request, registry) && (request is FindSession || request is FindClaim),
    decreases replies.len(),
{
    if step is Ask && replies.len() > 0 {
        let reply = replies.first();
        let task = step->then;
        lemma_lookup_keeps_to_registry(registry, Seq::empty(), task.task, reply);
        let next = step_printed(lookup_resumed(task.task, reply), task.json);
        lemma_lookup_stays(next, registry, replies.drop_first());
    }
}

/// Whatever the host replies, annotating an identity asks for nothing outside the registry
/// that the environment names, and writes nothing but records.
pub proof fn lemma_annotate_keeps_to_registry(
    args: AnnotateArgs,
    environment: EnvironmentView,
    replies: Seq<ReplyView>,
)
    ensures
        after_replies(
            annotate_begun(args, environment),
            printing_resume(annotation_resume()),
            replies,
        ) matches StepView::Ask { request, .. } ==> {
            &&& asks_within(request, registry_named(environment))
            &&& request is FindSession || request is ReadClock || request is ReplaceSession
        },
{
    let begun = annotate_begun(args, environment);
    let registry = registry_named(environment);
    lemma_registry_named(environment);
    if begun is Ask {
        lemma_annotation_keeps_to_registry(
            registry,
            crate::commands::session_meant(option_view(args.session), environment)->Ok_0,
            crate::commands::update_asked(args)->Ok_0,
            arbitrary(),
            ReplyView::Missing,
        );
    }
    lemma_annotate_stays(begun, registry, replies);
}

/// The command that annotates stays in its registry.
proof fn lemma_annotate_stays(
    step: StepView<PrintingView<AnnotationView>, PrintedView>,
    registry: PlaceView,
    replies: Seq<ReplyView>,
)
    requires
        step matches StepView::Ask { request, then } ==> asks_within(request, registry)
            && then.task.registry == registry && (request is FindSession || request is ReadClock
            || request is ReplaceSession),
    ensures
        after_replies(step, printing_resume(annotation_resume()), replies) matches StepView::Ask {
            request,
            ..
        } ==> asks_within(request, registry) && (request is FindSession || request is ReadClock
            || request is ReplaceSession),
    decreases replies.len(),
{
    if step is Ask && replies.len() > 0 {
        let reply = replies.first();
        let task = step->then;
        lemma_annotation_keeps_to_registry(
            registry,
            Seq::empty(),
            arbitrary(),
            task.task,
            reply,
        );
        let next = step_printed(annotation_resumed(task.task, reply), task.json);
        lemma_annotate_stays(next, registry, replies.drop_first());
    }
}

/// Whatever the host replies, discovering identities reads in the registry that the
/// environment names, and writes nothing.
pub proof fn lemma_discover_keeps_to_registry(
    args: DiscoverArgs,
    environment: EnvironmentView,
    replies: Seq<ReplyView>,
)
    ensures
        after_replies(discover_begun(args, environment), discover_resume(), replies) matches
            StepView::Ask { request, .. } ==> {
            &&& asks_within(request, registry_named(environment))
            &&& request is ListSessions || request is ReadClock || request is LoadSnapshot
        },
{
    let begun = discover_begun(args, environment);
    let registry = registry_named(environment);
    lemma_registry_named(environment);
    lemma_discovery_keeps_to_registry(
        registry,
        args.recent,
        option_view(args.realm),
        arbitrary(),
        ReplyView::Missing,
    );
    lemma_discover_stays(begun, registry, replies);
}

/// The command that discovers stays in its registry.
proof fn lemma_discover_stays(
    step: StepView<DiscoverCommandView, DiscoverOutputView>,
    registry: PlaceView,
    replies: Seq<ReplyView>,
)
    requires
        step matches StepView::Ask { request, then } ==> asks_within(request, registry) && (
        then.stage matches DiscoverStageView::Discovering { task } ==> task.registry == registry)
            && (request is ListSessions || request is ReadClock || request is LoadSnapshot),
    ensures
        after_replies(step, discover_resume(), replies) matches StepView::Ask { request, .. }
            ==> asks_within(request, registry) && (request is ListSessions || request is ReadClock
            || request is LoadSnapshot),
    decreases replies.len(),
{
    if step is Ask && replies.len() > 0 {
        let reply = replies.first();
        if let DiscoverStageView::Discovering { task } = step->then.stage {
            lemma_discovery_keeps_to_registry(registry, None, None, task, reply);
        }
        let next = discover_resumed(step->then, reply);
        lemma_discover_stays(next, registry, replies.drop_first());
    }
}

/// Whatever the host replies, pruning asks for nothing outside the registry that the
/// environment names, and where it is a dry run for nothing but the records.
pub proof fn lemma_prune_keeps_to_registry(
    args: PruneArgs,
    cutoff: Result<Timestamp, Seq<char>>,
    environment: EnvironmentView,
    replies: Seq<ReplyView>,
)
    ensures
        after_replies(prune_begun(args, cutoff, environment), prune_resume(), replies) matches
            StepView::Ask { request, .. } ==> {
            &&& asks_within(request, registry_named(environment))
            &&& args.dry_run ==> request is ListSessions
        },
{
    let begun = prune_begun(args, cutoff, environment);
    let registry = registry_named(environment);
    lemma_registry_named(environment);
    if begun is Ask {
        lemma_pruning_keeps_to_registry(
            registry,
            cutoff->Ok_0,
            args.dry_run,
            arbitrary(),
            ReplyView::Missing,
        );
    }
    if args.dry_run && begun is Ask && replies.len() > 0 {
        let task = begun->then.task;
        lemma_pruning_keeps_to_registry(
            registry,
            cutoff->Ok_0,
            args.dry_run,
            task,
            replies.first(),
        );
        let next = prune_resume()(begun->then, replies.first());
        assert(next is Over);
        assert(after_replies(next, prune_resume(), replies.drop_first()) == next);
    } else {
        lemma_prune_stays(begun, registry, replies);
    }
}

/// The command that prunes stays in its registry.
proof fn lemma_prune_stays(
    step: StepView<PruneCommandView, PruneOutputView>,
    registry: PlaceView,
    replies: Seq<ReplyView>,
)
    requires
        step matches StepView::Ask { request, then } ==> asks_within(request, registry)
            && then.task.registry == registry,
    ensures
        after_replies(step, prune_resume(), replies) matches StepView::Ask { request, .. }
            ==> asks_within(request, registry),
    decreases replies.len(),
{
    if step is Ask && replies.len() > 0 {
        let reply = replies.first();
        let command = step->then;
        lemma_pruning_keeps_to_registry(registry, arbitrary(), false, command.task, reply);
        let next = pruning_commanded(pruning_resumed(command.task, reply), command.json);
        lemma_prune_stays(next, registry, replies.drop_first());
    }
}

} // verus!
