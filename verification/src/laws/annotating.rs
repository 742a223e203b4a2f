//! What an annotation changes, and what it leaves as it was.

use crate::activity::{ActivityState, ActivityStateValue};
use crate::annotation::{
    annotated, annotation_begun, extension_conflict, extensions_updated, first_set_and_cleared,
    set_and_cleared, update_error, update_settled, UpdateView,
};
use crate::assignment::{
    assignment_of, option_view, record_of, state_json, AssignmentView, ExtensionView, RecordView,
    SummaryView,
};
use crate::commands::{annotate_begun, session_meant, AnnotateArgs, PrintedView};
use crate::error::ErrorView;
use crate::host::{EnvironmentView, PlaceView};
use crate::json::JsonView;
use crate::outcomes::{annotate_outcome, lemma_annotate_command, printing_resume};
use crate::text::{lemma_text_less_total, lemma_text_less_transitive, text_less, views};
use crate::timestamp::Timestamp;
use crate::validation::{cwd_text, extensions_parsed, owners_parsed, session_id, summary_text};
use crate::world::{
    annotation_resume, comes_to, lemma_annotation, lemma_one_outcome, noted_down, World,
};
use vstd::prelude::*;

verus! {

// ---------------------------------------------------------------------------
// Records
// ---------------------------------------------------------------------------
/// A record says of an assignment all but the activity, which is told anew when the record
/// is read.
pub proof fn lemma_record_keeps_all(assignment: AssignmentView, record: RecordView)
    ensures
        record == record_of(assignment) <==> {
            &&& record.version == assignment.version
            &&& record.session_id == assignment.session_id
            &&& record.name == assignment.name
            &&& record.slug == assignment.slug
            &&& record.first_name == assignment.first_name
            &&& record.family_name == assignment.family_name
            &&& record.realm == assignment.realm
            &&& record.summary == assignment.summary
            &&& record.cwd == assignment.cwd
            &&& record.extensions == assignment.extensions
            &&& record.created_at == assignment.created_at
            &&& record.updated_at == assignment.updated_at
        },
        record_of(assignment_of(record)) == record,
        assignment_of(record_of(assignment)) == (AssignmentView {
            state: assignment_of(record_of(assignment)).state,
            ..assignment
        }),
{
}

// ---------------------------------------------------------------------------
// Activity
// ---------------------------------------------------------------------------
/// What the extension `omp` says in its field `state`, if it says something there.
pub open spec fn state_said(extensions: Map<Seq<char>, ExtensionView>) -> Option<JsonView> {
    if extensions.contains_key("omp"@) {
        match extensions["omp"@].data {
            JsonView::Object(fields) => if fields.contains_key("state"@) {
                Some(fields["state"@])
            } else {
                None
            },
            _ => None,
        }
    } else {
        None
    }
}

/// The activity is what the extension `omp` says in its field `state`: a word, since the
/// extension was updated; or an object with a familiar word and an instant, since then.
/// Where it says nothing of the kind the activity is unknown.
pub proof fn lemma_activity_is_said(record: RecordView)
    ensures
        ({
            let state = assignment_of(record).state;
            match state_said(record.extensions) {
                Some(JsonView::Text(word)) => state == (ActivityState {
                    value: ActivityStateValue::external(word),
                    updated_at: record.extensions["omp"@].updated_at,
                }),
                Some(JsonView::Object(fields)) => match (
                    fields.contains_key("value"@) && fields["value"@] is Text,
                    fields.contains_key("updated_at"@) && fields["updated_at"@] is Text,
                ) {
                    (true, true) => match (
                        ActivityStateValue::worded(fields["value"@]->Text_0),
                        Timestamp::told_by(fields["updated_at"@]->Text_0),
                    ) {
                        (Some(value), Some(updated_at)) => state == (ActivityState {
                            value,
                            updated_at,
                        }),
                        _ => state == (ActivityState {
                            value: ActivityStateValue::Unknown,
                            updated_at: record.updated_at,
                        }),
                    },
                    _ => state == (ActivityState {
                        value: ActivityStateValue::Unknown,
                        updated_at: record.updated_at,
                    }),
                },
                _ => state == (ActivityState {
                    value: ActivityStateValue::Unknown,
                    updated_at: record.updated_at,
                }),
            }
        }),
{
}

/// An activity as an extension says it: an object with its word and the instant, and
/// nothing else.
pub open spec fn says_activity(
    json: JsonView,
    value: ActivityStateValue,
    updated_at: Timestamp,
) -> bool {
    &&& json matches JsonView::Object(fields)
    &&& forall|key: Seq<char>| #[trigger]
        fields.contains_key(key) <==> key == "value"@ || key == "updated_at"@
    &&& fields["value"@] == JsonView::Text(value.word())
    &&& fields["updated_at"@] == JsonView::Text(updated_at.telling())
}

/// An activity that is put in its place is said in full.
proof fn lemma_says_activity(value: ActivityStateValue, updated_at: Timestamp)
    ensures
        says_activity(state_json(value, updated_at), value, updated_at),
{
    reveal_strlit("value");
    reveal_strlit("updated_at");
    assert("value"@.len() != "updated_at"@.len());
}

// ---------------------------------------------------------------------------
// Extensions
// ---------------------------------------------------------------------------
/// The extension of an owner as an update sets, clears or leaves it, before the activity
/// counts.
pub open spec fn extension_left(
    extensions: Map<Seq<char>, ExtensionView>,
    update: UpdateView,
    now: Timestamp,
    owner: Seq<char>,
) -> Option<ExtensionView> {
    if update.clear_extensions.contains(owner) {
        None
    } else if update.extensions.contains_key(owner) {
        Some(ExtensionView { data: update.extensions[owner], updated_at: now })
    } else if extensions.contains_key(owner) {
        Some(extensions[owner])
    } else {
        None
    }
}

/// Whether an object has the fields of another, but for one.
pub open spec fn same_but(
    left: Map<Seq<char>, JsonView>,
    right: Map<Seq<char>, JsonView>,
    but: Seq<char>,
) -> bool {
    forall|key: Seq<char>|
        key != but ==> {
            &&& #[trigger] left.contains_key(key) == right.contains_key(key)
            &&& left.contains_key(key) ==> left[key] == right[key]
        }
}

/// The fields of an extension, if it is an object.
pub open spec fn fields_of(extension: Option<ExtensionView>) -> Map<Seq<char>, JsonView> {
    match extension {
        Some(extension) => match extension.data {
            JsonView::Object(fields) => fields,
            _ => Map::empty(),
        },
        None => Map::empty(),
    }
}

/// An update sets the extensions that it gives, clears those that it is to clear, and
/// leaves the others exactly as they were.
pub proof fn lemma_extensions_are_independent(
    extensions: Map<Seq<char>, ExtensionView>,
    update: UpdateView,
    now: Timestamp,
    owner: Seq<char>,
)
    requires
        owner != "omp"@,
    ensures
        ({
            let after = extensions_updated(extensions, update, now);
            match extension_left(extensions, update, now, owner) {
                Some(extension) => after.contains_key(owner) && after[owner] == extension,
                None => !after.contains_key(owner),
            }
        }),
{
}

/// An update that sets an activity puts it in the field `state` of the extension `omp`, and
/// leaves the other fields there as they were, or as the update gives them.
pub proof fn lemma_state_is_set(
    extensions: Map<Seq<char>, ExtensionView>,
    update: UpdateView,
    now: Timestamp,
)
    requires
        update.state is Some,
    ensures
        ({
            let after = extensions_updated(extensions, update, now);
            let left = extension_left(extensions, update, now, "omp"@);
            &&& after.contains_key("omp"@)
            &&& after["omp"@].updated_at == now
            &&& after["omp"@].data matches JsonView::Object(fields)
            &&& fields.contains_key("state"@)
            &&& says_activity(fields["state"@], update.state->0, now)
            &&& same_but(fields, fields_of(left), "state"@)
        }),
{
    lemma_says_activity(update.state->0, now);
}

/// An update that clears the activity takes the field `state` out of the extension `omp`,
/// and leaves the other fields there as they were, or as the update gives them. Where the
/// extension is no object, or there is none, it stays so.
pub proof fn lemma_state_is_cleared(
    extensions: Map<Seq<char>, ExtensionView>,
    update: UpdateView,
    now: Timestamp,
)
    requires
        update.state is None,
        update.clear_state,
    ensures
        ({
            let after = extensions_updated(extensions, update, now);
            match extension_left(extensions, update, now, "omp"@) {
                None => !after.contains_key("omp"@),
                Some(left) => {
                    &&& after.contains_key("omp"@)
                    &&& left.data is Object ==> {
                        &&& after["omp"@].updated_at == now
                        &&& after["omp"@].data matches JsonView::Object(fields)
                        &&& !fields.contains_key("state"@)
                        &&& same_but(fields, left.data->Object_0, "state"@)
                    }
                    &&& !(left.data is Object) ==> after["omp"@] == left
                },
            }
        }),
{
    let changed = crate::annotation::extensions_set(
        extensions,
        update.extensions,
        now,
    ).remove_keys(update.clear_extensions);
    let stated = crate::assignment::without_state(changed, now);
    if changed.contains_key("omp"@) && changed["omp"@].data is Object {
        assert(!stated["omp"@].data.fields().contains_key("state"@));
    }
    assert(crate::assignment::state_field(stated) is None);
}

/// An update that neither sets nor clears an activity leaves the extension `omp` as it was,
/// or as the update gives it; only a bare word that the update gives for the activity is
/// said in full, and the other fields stay as they are given.
pub proof fn lemma_state_is_left(
    extensions: Map<Seq<char>, ExtensionView>,
    update: UpdateView,
    now: Timestamp,
)
    requires
        update.state is None,
        !update.clear_state,
    ensures
        ({
            let after = extensions_updated(extensions, update, now);
            let left = extension_left(extensions, update, now, "omp"@);
            match left {
                None => !after.contains_key("omp"@),
                Some(left) => {
                    let given = update.extensions.contains_key("omp"@);
                    let bare = given && left.data is Object && left.data->Object_0.contains_key(
                        "state"@,
                    ) && left.data->Object_0["state"@] is Text;
                    &&& after.contains_key("omp"@)
                    &&& !bare ==> after["omp"@] == left
                    &&& bare ==> {
                        &&& after["omp"@].updated_at == now
                        &&& after["omp"@].data matches JsonView::Object(fields)
                        &&& fields.contains_key("state"@)
                        &&& says_activity(
                            fields["state"@],
                            ActivityStateValue::external(
                                left.data->Object_0["state"@]->Text_0,
                            ),
                            now,
                        )
                        &&& same_but(fields, left.data->Object_0, "state"@)
                    }
                },
            }
        }),
{
    let changed = crate::annotation::extensions_set(
        extensions,
        update.extensions,
        now,
    ).remove_keys(update.clear_extensions);
    if let Some(JsonView::Text(word)) = crate::assignment::state_field(changed) {
        lemma_says_activity(ActivityStateValue::external(word), now);
    }
}

// ---------------------------------------------------------------------------
// Updates
// ---------------------------------------------------------------------------
/// An update sets or clears the summary and the working directory where it says so, each by
/// itself, dates what it sets, and leaves the identity as it was.
pub proof fn lemma_update_is_applied(
    assignment: AssignmentView,
    update: UpdateView,
    now: Timestamp,
)
    ensures
        ({
            let after = annotated(assignment, update, now);
            &&& after.version == assignment.version
            &&& after.session_id == assignment.session_id
            &&& after.name == assignment.name
            &&& after.slug == assignment.slug
            &&& after.first_name == assignment.first_name
            &&& after.family_name == assignment.family_name
            &&& after.realm == assignment.realm
            &&& after.created_at == assignment.created_at
            &&& after.updated_at == now
            &&& update.summary matches Some(text) ==> after.summary == Some(
                SummaryView { text, updated_at: now },
            )
            &&& update.summary is None ==> after.summary == if update.clear_summary {
                None
            } else {
                assignment.summary
            }
            &&& update.cwd is Some ==> after.cwd == update.cwd
            &&& update.cwd is None ==> after.cwd == if update.clear_cwd {
                None
            } else {
                assignment.cwd
            }
            &&& after.extensions == extensions_updated(assignment.extensions, update, now)
            &&& after.state == assignment_of(record_of(after)).state
        }),
{
}

/// The least of some owners.
proof fn lemma_least_owner(owners: Set<Seq<char>>) -> (least: Seq<char>)
    requires
        owners.finite(),
        owners.len() > 0,
    ensures
        owners.contains(least),
        forall|other: Seq<char>| #[trigger] owners.contains(other) ==> !text_less(other, least),
    decreases owners.len(),
{
    let some = owners.choose();
    assert(owners.contains(some));
    let rest = owners.remove(some);
    if rest.len() == 0 {
        crate::text::lemma_text_less_irreflexive(some);
        assert forall|other: Seq<char>| #[trigger] owners.contains(other) implies !text_less(
            other,
            some,
        ) by {
            if other != some {
                assert(rest.contains(other));
            }
        }
        some
    } else {
        let least = lemma_least_owner(rest);
        lemma_text_less_total(some, least);
        crate::text::lemma_text_less_irreflexive(some);
        if text_less(some, least) {
            assert forall|other: Seq<char>| #[trigger] owners.contains(other) implies !text_less(
                other,
                some,
            ) by {
                if other != some && text_less(other, some) {
                    assert(rest.contains(other));
                    lemma_text_less_transitive(other, some, least);
                }
            }
            some
        } else {
            assert forall|other: Seq<char>| #[trigger] owners.contains(other) implies !text_less(
                other,
                least,
            ) by {
                if other != some {
                    assert(rest.contains(other));
                }
            }
            least
        }
    }
}

/// An update is refused that changes nothing, or that sets and clears the same thing; of
/// several owners whose extension it sets and clears, the first is named.
pub proof fn lemma_update_is_refused(update: UpdateView)
    requires
        update.extensions.dom().finite(),
    ensures
        ({
            let nothing = update.summary is None && !update.clear_summary && update.state is None
                && !update.clear_state && update.cwd is None && !update.clear_cwd && (forall|
                owner: Seq<char>,
            |
                !#[trigger] update.extensions.contains_key(owner)) && (forall|owner: Seq<char>|
                !#[trigger] update.clear_extensions.contains(owner));
            let clash = exists|owner: Seq<char>|
                #[trigger] update.extensions.contains_key(owner)
                    && update.clear_extensions.contains(owner);
            let error = update_error(update);
            if nothing {
                error == Some(ErrorView::NoUpdate)
            } else if update.summary is Some && update.clear_summary {
                error == Some(ErrorView::SummaryConflict)
            } else if update.state is Some && update.clear_state {
                error == Some(ErrorView::StateConflict)
            } else if update.cwd is Some && update.clear_cwd {
                error == Some(ErrorView::CwdConflict)
            } else if clash {
                &&& error matches Some(ErrorView::ExtensionConflict { owner })
                &&& update.extensions.contains_key(owner)
                &&& update.clear_extensions.contains(owner)
                &&& forall|other: Seq<char>|
                    #[trigger] update.extensions.contains_key(other)
                        && update.clear_extensions.contains(other) ==> !text_less(other, owner)
            } else {
                error is None
            }
        }),
{
    if forall|owner: Seq<char>| !#[trigger] update.extensions.contains_key(owner) {
        assert(update.extensions =~= Map::<Seq<char>, JsonView>::empty());
    }
    if forall|owner: Seq<char>| !#[trigger] update.clear_extensions.contains(owner) {
        assert(update.clear_extensions =~= Set::<Seq<char>>::empty());
    }
    if exists|owner: Seq<char>|
        #[trigger] update.extensions.contains_key(owner) && update.clear_extensions.contains(
            owner,
        ) {
        let clashes = update.extensions.dom().intersect(update.clear_extensions);
        let owner = choose|owner: Seq<char>|
            #[trigger] update.extensions.contains_key(owner) && update.clear_extensions.contains(
                owner,
            );
        assert(clashes.contains(owner));
        vstd::set_lib::lemma_len_intersect(update.extensions.dom(), update.clear_extensions);
        let least = lemma_least_owner(clashes);
        assert forall|other: Seq<char>| #[trigger] set_and_cleared(update, other) implies !text_less(
            other,
            least,
        ) by {
            assert(clashes.contains(other));
        }
        assert(first_set_and_cleared(update, least));
        let named = extension_conflict(update)->0;
        assert(first_set_and_cleared(update, named));
        assert forall|other: Seq<char>|
            #[trigger] update.extensions.contains_key(other) && update.clear_extensions.contains(
                other,
            ) implies !text_less(other, named) by {
            assert(set_and_cleared(update, other));
        }
    } else if extension_conflict(update) is Some {
        let named = extension_conflict(update)->0;
        assert(first_set_and_cleared(update, named));
        assert(set_and_cleared(update, named));
    }
}

/// The summary and the working directory of an update are kept in the form in which they
/// are accepted, and all else of the update as it is.
pub proof fn lemma_update_is_settled(update: UpdateView)
    ensures
        update_settled(update) matches Ok(settled) ==> {
            &&& settled == (UpdateView { summary: settled.summary, cwd: settled.cwd, ..update })
            &&& update.summary is None <==> settled.summary is None
            &&& update.summary is Some ==> summary_text(update.summary->0) == Ok::<_, ErrorView>(
                settled.summary->0,
            )
            &&& update.cwd is None <==> settled.cwd is None
            &&& update.cwd is Some ==> cwd_text(update.cwd->0) == Ok::<_, ErrorView>(
                settled.cwd->0,
            )
        },
        update_settled(update) matches Err(error) ==> {
            ||| update.summary is Some && summary_text(update.summary->0) == Err::<Seq<char>, _>(
                error,
            )
            ||| (update.summary is Some ==> summary_text(update.summary->0) is Ok) && update.cwd
                is Some && cwd_text(update.cwd->0) == Err::<Seq<char>, _>(error)
        },
{
}

/// What annotating a session comes to, whatever the host holds: refused where the session
/// ID or the update is, where the session has no record of its own, or where its summary or
/// working directory is; and otherwise the record of the session is replaced by what the
/// update makes of it, and nothing else is changed.
pub proof fn lemma_annotation_comes_to(
    world: World,
    registry: PlaceView,
    session: Seq<char>,
    update: UpdateView,
    after: World,
    result: Result<AssignmentView, ErrorView>,
)
    requires
        comes_to(
            annotation_begun(registry, session, update),
            annotation_resume(),
            world,
            (after, result),
        ),
    ensures
        result is Err ==> after == world,
        session_id(session) matches Err(error) ==> result == Err::<AssignmentView, _>(error),
        session_id(session) matches Ok(id) ==> {
            let record = world.sessions[id];
            if update_error(update) is Some {
                result == Err::<AssignmentView, _>(update_error(update)->0)
            } else if !world.sessions.contains_key(id) {
                result == Err::<AssignmentView, _>(ErrorView::NotRegistered { session_id: id })
            } else if record.session_id != id {
                result == Err::<AssignmentView, _>(ErrorView::ForeignRecord { session_id: id })
            } else if update_settled(update) is Err {
                result == Err::<AssignmentView, _>(update_settled(update)->Err_0)
            } else {
                let updated = annotated(
                    assignment_of(record),
                    update_settled(update)->Ok_0,
                    world.now,
                );
                &&& result == Ok::<_, ErrorView>(updated)
                &&& after.sessions == world.sessions.insert(id, record_of(updated))
                &&& after.listing == world.listing
                &&& after.claims == world.claims
                &&& after.realm == world.realm
            }
        },
{
    lemma_annotation(world, registry, session, update);
    lemma_one_outcome(
        annotation_begun(registry, session, update),
        annotation_resume(),
        world,
        (after, result),
        noted_down(world, session, update),
    );
}

// ---------------------------------------------------------------------------
// The command
// ---------------------------------------------------------------------------
/// The command annotates the session that is named, or else that of the environment, with
/// the update that its arguments ask for, each for itself, and prints the identity.
pub proof fn lemma_annotate_does(
    world: World,
    args: AnnotateArgs,
    environment: EnvironmentView,
    after: World,
    result: Result<PrintedView, ErrorView>,
)
    requires
        comes_to(
            annotate_begun(args, environment),
            printing_resume(annotation_resume()),
            world,
            (after, result),
        ),
    ensures
        ({
            let extensions = extensions_parsed(views(args.extensions@));
            let cleared = owners_parsed(views(args.clear_extensions@));
            let session = session_meant(option_view(args.session), environment);
            if session is Err {
                after == world && result == Err::<PrintedView, _>(session->Err_0)
            } else if extensions is Err {
                after == world && result == Err::<PrintedView, _>(extensions->Err_0)
            } else if cleared is Err {
                after == world && result == Err::<PrintedView, _>(cleared->Err_0)
            } else if environment.registry_home is None && environment.data_home is None
                && environment.home is None {
                after == world && result == Err::<PrintedView, _>(ErrorView::NoHome)
            } else {
                let update = UpdateView {
                    summary: match args.summary {
                        Some(text) => Some(text@),
                        None => None,
                    },
                    clear_summary: args.clear_summary,
                    state: args.state,
                    clear_state: args.clear_state,
                    cwd: match args.cwd {
                        Some(text) => Some(text@),
                        None => None,
                    },
                    clear_cwd: args.clear_cwd,
                    extensions: extensions->Ok_0,
                    clear_extensions: cleared->Ok_0.dom(),
                };
                let noted = noted_down(world, session->Ok_0, update);
                &&& after == noted.0
                &&& result == match noted.1 {
                    Ok(assignment) => Ok(
                        if args.json {
                            PrintedView::Document { assignment }
                        } else {
                            PrintedView::Line { text: assignment.name }
                        },
                    ),
                    Err(error) => Err(error),
                }
            }
        }),
{
    lemma_annotate_command(world, args, environment);
    lemma_one_outcome(
        annotate_begun(args, environment),
        printing_resume(annotation_resume()),
        world,
        (after, result),
        annotate_outcome(world, args, environment),
    );
}

} // verus!
