//! Assignments of identities to sessions, and the records in which they are kept.

use crate::activity::{ActivityState, ActivityStateValue};
use crate::json::{json_views, lemma_json_views_insert, lemma_object_view, Json, JsonView};
use crate::text_map::{ascending, entry_map, lemma_one_more, TextMap};
use crate::timestamp::Timestamp;
use vstd::prelude::*;

verus! {

// ---------------------------------------------------------------------------
// Assignments and records
// ---------------------------------------------------------------------------
/// What an agent is working on.
#[derive(Debug, PartialEq, Eq)]
pub struct ActivitySummary {
    pub text: String,
    pub updated_at: Timestamp,
}

/// What the owner of an extension keeps with an identity.
#[derive(Debug, PartialEq, Eq)]
pub struct ExtensionMetadata {
    pub data: Json,
    pub updated_at: Timestamp,
}

/// The identity of a session, and what is known of it.
#[derive(Debug, PartialEq, Eq)]
pub struct Assignment {
    pub version: u8,
    pub session_id: String,
    pub name: String,
    pub slug: String,
    pub first_name: String,
    pub family_name: String,
    pub realm: String,
    pub summary: Option<ActivitySummary>,
    pub state: ActivityState,
    pub cwd: Option<String>,
    pub extensions: TextMap<ExtensionMetadata>,
    pub created_at: Timestamp,
    pub updated_at: Timestamp,
}

/// An assignment as it is kept: without the activity, which the extensions tell.
#[derive(Debug, PartialEq, Eq)]
pub struct StoredAssignment {
    pub version: u8,
    pub session_id: String,
    pub name: String,
    pub slug: String,
    pub first_name: String,
    pub family_name: String,
    pub realm: String,
    pub summary: Option<ActivitySummary>,
    pub cwd: Option<String>,
    pub extensions: TextMap<ExtensionMetadata>,
    pub created_at: Timestamp,
    pub updated_at: Timestamp,
}

/// What a summary says.
pub struct SummaryView {
    pub text: Seq<char>,
    pub updated_at: Timestamp,
}

/// What an extension says.
pub struct ExtensionView {
    pub data: JsonView,
    pub updated_at: Timestamp,
}

/// What an assignment says.
pub struct AssignmentView {
    pub version: u8,
    pub session_id: Seq<char>,
    pub name: Seq<char>,
    pub slug: Seq<char>,
    pub first_name: Seq<char>,
    pub family_name: Seq<char>,
    pub realm: Seq<char>,
    pub summary: Option<SummaryView>,
    pub state: ActivityState,
    pub cwd: Option<Seq<char>>,
    pub extensions: Map<Seq<char>, ExtensionView>,
    pub created_at: Timestamp,
    pub updated_at: Timestamp,
}

/// What a record says.
pub struct RecordView {
    pub version: u8,
    pub session_id: Seq<char>,
    pub name: Seq<char>,
    pub slug: Seq<char>,
    pub first_name: Seq<char>,
    pub family_name: Seq<char>,
    pub realm: Seq<char>,
    pub summary: Option<SummaryView>,
    pub cwd: Option<Seq<char>>,
    pub extensions: Map<Seq<char>, ExtensionView>,
    pub created_at: Timestamp,
    pub updated_at: Timestamp,
}

impl View for ActivitySummary {
    type V = SummaryView;

    open spec fn view(&self) -> SummaryView {
        SummaryView { text: self.text@, updated_at: self.updated_at }
    }
}

impl View for ExtensionMetadata {
    type V = ExtensionView;

    open spec fn view(&self) -> ExtensionView {
        ExtensionView { data: self.data@, updated_at: self.updated_at }
    }
}

/// What some extensions say.
pub open spec fn extension_views(extensions: Map<Seq<char>, ExtensionMetadata>) -> Map<
    Seq<char>,
    ExtensionView,
> {
    Map::new(
        |owner: Seq<char>| extensions.contains_key(owner),
        |owner: Seq<char>| extensions[owner]@,
    )
}

/// What an optional summary says.
pub open spec fn summary_view(summary: Option<ActivitySummary>) -> Option<SummaryView> {
    match summary {
        Some(summary) => Some(summary@),
        None => None,
    }
}

/// What an optional text says.
pub open spec fn option_view(text: Option<String>) -> Option<Seq<char>> {
    match text {
        Some(text) => Some(text@),
        None => None,
    }
}

impl View for Assignment {
    type V = AssignmentView;

    open spec fn view(&self) -> AssignmentView {
        AssignmentView {
            version: self.version,
            session_id: self.session_id@,
            name: self.name@,
            slug: self.slug@,
            first_name: self.first_name@,
            family_name: self.family_name@,
            realm: self.realm@,
            summary: summary_view(self.summary),
            state: self.state,
            cwd: option_view(self.cwd),
            extensions: extension_views(self.extensions@),
            created_at: self.created_at,
            updated_at: self.updated_at,
        }
    }
}

impl View for StoredAssignment {
    type V = RecordView;

    open spec fn view(&self) -> RecordView {
        RecordView {
            version: self.version,
            session_id: self.session_id@,
            name: self.name@,
            slug: self.slug@,
            first_name: self.first_name@,
            family_name: self.family_name@,
            realm: self.realm@,
            summary: summary_view(self.summary),
            cwd: option_view(self.cwd),
            extensions: extension_views(self.extensions@),
            created_at: self.created_at,
            updated_at: self.updated_at,
        }
    }
}

/// What some extensions say when one of them is new.
pub proof fn lemma_extension_views_insert(
    extensions: Map<Seq<char>, ExtensionMetadata>,
    owner: Seq<char>,
    extension: ExtensionMetadata,
)
    ensures
        extension_views(extensions.insert(owner, extension)) == extension_views(extensions).insert(
            owner,
            extension@,
        ),
{
    assert(extension_views(extensions.insert(owner, extension)) =~= extension_views(
        extensions,
    ).insert(owner, extension@));
}

/// What some extensions say when one of them is gone.
pub proof fn lemma_extension_views_remove(
    extensions: Map<Seq<char>, ExtensionMetadata>,
    owner: Seq<char>,
)
    ensures
        extension_views(extensions.remove(owner)) == extension_views(extensions).remove(owner),
{
    assert(extension_views(extensions.remove(owner)) =~= extension_views(extensions).remove(
        owner,
    ));
}

impl Clone for ActivitySummary {
    fn clone(&self) -> (copy: Self)
        ensures
            copy@ == self@,
    {
        ActivitySummary { text: self.text.clone(), updated_at: self.updated_at }
    }
}

impl Clone for ExtensionMetadata {
    fn clone(&self) -> (copy: Self)
        ensures
            copy@ == self@,
    {
        ExtensionMetadata { data: self.data.clone(), updated_at: self.updated_at }
    }
}

/// A copy of some extensions.
pub fn copy_extensions(extensions: &TextMap<ExtensionMetadata>) -> (copies: TextMap<
    ExtensionMetadata,
>)
    ensures
        extension_views(copies@) == extension_views(extensions@),
{
    let entries = extensions.entries();
    let mut copies: TextMap<ExtensionMetadata> = TextMap::new();
    let mut i: usize = 0;
    assert(extension_views(copies@) =~= extension_views(entry_map(entries@.take(0))));
    while i < entries.len()
        invariant
            i <= entries@.len(),
            ascending(entries@),
            extension_views(copies@) == extension_views(entry_map(entries@.take(i as int))),
        decreases entries@.len() - i,
    {
        let entry = &entries[i];
        let copy = entry.1.clone();
        proof {
            lemma_one_more(entries@, i as int);
            lemma_extension_views_insert(copies@, entry.0@, copy);
            lemma_extension_views_insert(entry_map(entries@.take(i as int)), entry.0@, entry.1);
        }
        copies.insert(entry.0.clone(), copy);
        i = i + 1;
    }
    assert(entries@.take(i as int) =~= entries@);
    copies
}

/// A copy of an optional summary.
pub fn copy_summary(summary: &Option<ActivitySummary>) -> (copy: Option<ActivitySummary>)
    ensures
        summary_view(copy) == summary_view(*summary),
{
    match summary {
        Some(summary) => Some(summary.clone()),
        None => None,
    }
}

/// A copy of an optional text.
pub fn copy_option(text: &Option<String>) -> (copy: Option<String>)
    ensures
        option_view(copy) == option_view(*text),
{
    match text {
        Some(text) => Some(text.clone()),
        None => None,
    }
}

impl Clone for Assignment {
    fn clone(&self) -> (copy: Self)
        ensures
            copy@ == self@,
    {
        Assignment {
            version: self.version,
            session_id: self.session_id.clone(),
            name: self.name.clone(),
            slug: self.slug.clone(),
            first_name: self.first_name.clone(),
            family_name: self.family_name.clone(),
            realm: self.realm.clone(),
            summary: copy_summary(&self.summary),
            state: self.state,
            cwd: copy_option(&self.cwd),
            extensions: copy_extensions(&self.extensions),
            created_at: self.created_at,
            updated_at: self.updated_at,
        }
    }
}

// ---------------------------------------------------------------------------
// From an assignment to its record, and back
// ---------------------------------------------------------------------------
/// The record of an assignment.
pub open spec fn record_of(assignment: AssignmentView) -> RecordView {
    RecordView {
        version: assignment.version,
        session_id: assignment.session_id,
        name: assignment.name,
        slug: assignment.slug,
        first_name: assignment.first_name,
        family_name: assignment.family_name,
        realm: assignment.realm,
        summary: assignment.summary,
        cwd: assignment.cwd,
        extensions: assignment.extensions,
        created_at: assignment.created_at,
        updated_at: assignment.updated_at,
    }
}

/// The assignment that a record tells: the activity is that of the extensions, or
/// unknown since the record was updated.
pub open spec fn assignment_of(record: RecordView) -> AssignmentView {
    AssignmentView {
        version: record.version,
        session_id: record.session_id,
        name: record.name,
        slug: record.slug,
        first_name: record.first_name,
        family_name: record.family_name,
        realm: record.realm,
        summary: record.summary,
        state: materialized_state(record.extensions, record.updated_at),
        cwd: record.cwd,
        extensions: record.extensions,
        created_at: record.created_at,
        updated_at: record.updated_at,
    }
}

/// The record of an assignment.
pub fn persisted_assignment(assignment: &Assignment) -> (record: StoredAssignment)
    ensures
        record@ == record_of(assignment@),
{
    StoredAssignment {
        version: assignment.version,
        session_id: assignment.session_id.clone(),
        name: assignment.name.clone(),
        slug: assignment.slug.clone(),
        first_name: assignment.first_name.clone(),
        family_name: assignment.family_name.clone(),
        realm: assignment.realm.clone(),
        summary: copy_summary(&assignment.summary),
        cwd: copy_option(&assignment.cwd),
        extensions: copy_extensions(&assignment.extensions),
        created_at: assignment.created_at,
        updated_at: assignment.updated_at,
    }
}

impl StoredAssignment {
    /// The assignment that the record tells.
    pub fn into_assignment(self) -> (assignment: Assignment)
        ensures
            assignment@ == assignment_of(self@),
    {
        let state = materialize_omp_activity_state(&self.extensions, self.updated_at);
        Assignment {
            version: self.version,
            session_id: self.session_id,
            name: self.name,
            slug: self.slug,
            first_name: self.first_name,
            family_name: self.family_name,
            realm: self.realm,
            summary: self.summary,
            state,
            cwd: self.cwd,
            extensions: self.extensions,
            created_at: self.created_at,
            updated_at: self.updated_at,
        }
    }
}

// ---------------------------------------------------------------------------
// The activity that an extension tells
// ---------------------------------------------------------------------------
/// The owner of the extension that tells the activity.
pub const OMP_EXTENSION_OWNER: &'static str = "omp";

/// The field of that extension in which the activity stands.
pub const OMP_STATE_KEY: &'static str = "state";

/// The activity as it stands in an extension.
pub open spec fn state_json(value: ActivityStateValue, updated_at: Timestamp) -> JsonView {
    JsonView::Object(
        Map::empty().insert("value"@, JsonView::Text(value.word())).insert(
            "updated_at"@,
            JsonView::Text(updated_at.telling()),
        ),
    )
}

/// The activity that a JSON value tells, if it tells one.
pub open spec fn state_told(json: JsonView) -> Option<ActivityState> {
    match (json.field("value"@), json.field("updated_at"@)) {
        (Some(JsonView::Text(word)), Some(JsonView::Text(instant))) => match (
            ActivityStateValue::worded(word),
            Timestamp::told_by(instant),
        ) {
            (Some(value), Some(updated_at)) => Some(ActivityState { value, updated_at }),
            _ => None,
        },
        _ => None,
    }
}

/// The field in which the activity stands.
pub open spec fn state_field(extensions: Map<Seq<char>, ExtensionView>) -> Option<JsonView> {
    if extensions.contains_key(OMP_EXTENSION_OWNER@) {
        extensions[OMP_EXTENSION_OWNER@].data.field(OMP_STATE_KEY@)
    } else {
        None
    }
}

/// The activity that some extensions tell, if they tell one: a word of it since the
/// extension was updated, or an object that tells both.
pub open spec fn omp_state(extensions: Map<Seq<char>, ExtensionView>) -> Option<ActivityState> {
    match state_field(extensions) {
        Some(JsonView::Text(word)) => Some(
            ActivityState {
                value: ActivityStateValue::external(word),
                updated_at: extensions[OMP_EXTENSION_OWNER@].updated_at,
            },
        ),
        Some(json) => state_told(json),
        None => None,
    }
}

/// The activity that some extensions tell, or else the unknown.
pub open spec fn materialized_state(
    extensions: Map<Seq<char>, ExtensionView>,
    fallback_updated_at: Timestamp,
) -> ActivityState {
    match omp_state(extensions) {
        Some(state) => state,
        None => ActivityState::nothing_known(fallback_updated_at),
    }
}

/// Some extensions with an activity in its place.
pub open spec fn with_state(
    extensions: Map<Seq<char>, ExtensionView>,
    value: ActivityStateValue,
    updated_at: Timestamp,
) -> Map<Seq<char>, ExtensionView> {
    let fields = if extensions.contains_key(OMP_EXTENSION_OWNER@) {
        extensions[OMP_EXTENSION_OWNER@].data.fields()
    } else {
        Map::empty()
    };
    extensions.insert(
        OMP_EXTENSION_OWNER@,
        ExtensionView {
            data: JsonView::Object(
                fields.insert(OMP_STATE_KEY@, state_json(value, updated_at)),
            ),
            updated_at,
        },
    )
}

/// Some extensions with no activity in its place.
pub open spec fn without_state(
    extensions: Map<Seq<char>, ExtensionView>,
    updated_at: Timestamp,
) -> Map<Seq<char>, ExtensionView> {
    if extensions.contains_key(OMP_EXTENSION_OWNER@) && extensions[OMP_EXTENSION_OWNER@].data
        is Object {
        extensions.insert(
            OMP_EXTENSION_OWNER@,
            ExtensionView {
                data: JsonView::Object(
                    extensions[OMP_EXTENSION_OWNER@].data.fields().remove(OMP_STATE_KEY@),
                ),
                updated_at,
            },
        )
    } else {
        extensions
    }
}

/// Some extensions with a bare word of the activity spelt out as an object.
pub open spec fn state_spelt_out(
    extensions: Map<Seq<char>, ExtensionView>,
    updated_at: Timestamp,
) -> Map<Seq<char>, ExtensionView> {
    match state_field(extensions) {
        Some(JsonView::Text(word)) => with_state(
            extensions,
            ActivityStateValue::external(word),
            updated_at,
        ),
        _ => extensions,
    }
}

/// The activity that a JSON value tells, if it tells one.
pub fn state_from_json(json: &Json) -> (state: Option<ActivityState>)
    ensures
        state == state_told(json@),
{
    let value = match json.field("value") {
        Some(Json::Text(word)) => ActivityStateValue::from_label(word.as_str()),
        _ => return None,
    };
    let updated_at = match json.field("updated_at") {
        Some(Json::Text(instant)) => Timestamp::from_record_text(instant.as_str()),
        _ => return None,
    };
    match (value, updated_at) {
        (Some(value), Some(updated_at)) => Some(ActivityState { value, updated_at }),
        _ => None,
    }
}

/// The activity as it stands in an extension, which tells it back.
pub fn state_to_json(value: ActivityStateValue, updated_at: Timestamp) -> (json: Json)
    ensures
        json@ == state_json(value, updated_at),
        state_told(json@) == Some(ActivityState { value, updated_at }),
{
    let mut fields: TextMap<Json> = TextMap::new();
    let word = Json::Text(value.label().to_owned());
    let instant = Json::Text(updated_at.record_text());
    proof {
        assert(json_views(fields@) =~= Map::<Seq<char>, JsonView>::empty());
        lemma_json_views_insert(fields@, "value"@, word);
        lemma_json_views_insert(fields@.insert("value"@, word), "updated_at"@, instant);
    }
    fields.insert("value".to_owned(), word);
    fields.insert("updated_at".to_owned(), instant);
    proof {
        lemma_object_view(fields);
        value.lemma_words();
        reveal_strlit("value");
        reveal_strlit("updated_at");
        assert("value"@.len() != "updated_at"@.len());
    }
    Json::Object(fields)
}

/// The activity that some extensions tell, if they tell one.
pub fn omp_activity_state(extensions: &TextMap<ExtensionMetadata>) -> (state: Option<ActivityState>)
    ensures
        state == omp_state(extension_views(extensions@)),
{
    let metadata = match extensions.get(OMP_EXTENSION_OWNER) {
        Some(metadata) => metadata,
        None => return None,
    };
    let state = match metadata.data.field(OMP_STATE_KEY) {
        Some(state) => state,
        None => return None,
    };
    match state {
        Json::Text(word) => Some(ActivityState::from_external(word.as_str(), metadata.updated_at)),
        _ => state_from_json(state),
    }
}

/// The activity that some extensions tell, or else the unknown.
pub fn materialize_omp_activity_state(
    extensions: &TextMap<ExtensionMetadata>,
    fallback_updated_at: Timestamp,
) -> (state: ActivityState)
    ensures
        state == materialized_state(extension_views(extensions@), fallback_updated_at),
{
    match omp_activity_state(extensions) {
        Some(state) => state,
        None => ActivityState::unknown(fallback_updated_at),
    }
}

/// Puts an activity in its place among some extensions, which then tell it.
pub fn set_omp_activity_state(
    extensions: &mut TextMap<ExtensionMetadata>,
    value: ActivityStateValue,
    updated_at: Timestamp,
)
    ensures
        extension_views(final(extensions)@) == with_state(
            extension_views(old(extensions)@),
            value,
            updated_at,
        ),
        omp_state(extension_views(final(extensions)@)) == Some(
            ActivityState { value, updated_at },
        ),
{
    let ghost start = extension_views(extensions@);
    let ghost map = extensions@;
    let before = extensions.remove(OMP_EXTENSION_OWNER);
    let mut fields: TextMap<Json> = match before {
        Some(ExtensionMetadata { data: Json::Object(fields), updated_at: _ }) => fields,
        _ => TextMap::new(),
    };
    proof {
        lemma_object_view(fields);
        if before is Some && before->0.data is Object {
            lemma_object_view(before->0.data->Object_0);
        } else {
            assert(json_views(fields@) =~= Map::<Seq<char>, JsonView>::empty());
        }
        lemma_extension_views_remove(map, OMP_EXTENSION_OWNER@);
    }
    let state = state_to_json(value, updated_at);
    proof {
        lemma_json_views_insert(fields@, OMP_STATE_KEY@, state);
    }
    fields.insert(OMP_STATE_KEY.to_owned(), state);
    let metadata = ExtensionMetadata { data: Json::Object(fields), updated_at };
    proof {
        lemma_object_view(fields);
        lemma_extension_views_insert(extensions@, OMP_EXTENSION_OWNER@, metadata);
    }
    extensions.insert(OMP_EXTENSION_OWNER.to_owned(), metadata);
    assert(extension_views(extensions@) =~= with_state(start, value, updated_at));
}

/// Takes the activity out of its place among some extensions.
pub fn clear_omp_activity_state(
    extensions: &mut TextMap<ExtensionMetadata>,
    updated_at: Timestamp,
)
    ensures
        extension_views(final(extensions)@) == without_state(
            extension_views(old(extensions)@),
            updated_at,
        ),
{
    let ghost start = extension_views(extensions@);
    let ghost map = extensions@;
    let before = extensions.remove(OMP_EXTENSION_OWNER);
    proof {
        lemma_extension_views_remove(map, OMP_EXTENSION_OWNER@);
    }
    match before {
        None => {
            assert(extension_views(extensions@) =~= start);
        },
        Some(ExtensionMetadata { data: Json::Object(fields), updated_at: _ }) => {
            let mut fields = fields;
            let ghost all = fields@;
            proof {
                lemma_object_view(fields);
            }
            fields.remove(OMP_STATE_KEY);
            let metadata = ExtensionMetadata { data: Json::Object(fields), updated_at };
            proof {
                lemma_object_view(fields);
                assert(json_views(fields@) =~= json_views(all).remove(OMP_STATE_KEY@));
                lemma_extension_views_insert(extensions@, OMP_EXTENSION_OWNER@, metadata);
            }
            extensions.insert(OMP_EXTENSION_OWNER.to_owned(), metadata);
            assert(extension_views(extensions@) =~= without_state(start, updated_at));
        },
        Some(metadata) => {
            proof {
                lemma_extension_views_insert(extensions@, OMP_EXTENSION_OWNER@, metadata);
            }
            extensions.insert(OMP_EXTENSION_OWNER.to_owned(), metadata);
            assert(extension_views(extensions@) =~= start);
        },
    }
}

/// Spells a bare word of the activity out as an object. The extensions then tell the
/// activity of that word.
pub fn normalize_omp_activity_state(
    extensions: &mut TextMap<ExtensionMetadata>,
    updated_at: Timestamp,
)
    ensures
        extension_views(final(extensions)@) == state_spelt_out(
            extension_views(old(extensions)@),
            updated_at,
        ),
        state_field(extension_views(old(extensions)@)) matches Some(JsonView::Text(word))
            ==> omp_state(extension_views(final(extensions)@)) == Some(
            ActivityState { value: ActivityStateValue::external(word), updated_at },
        ),
{
    let value = match extensions.get(OMP_EXTENSION_OWNER) {
        Some(metadata) => match metadata.data.field(OMP_STATE_KEY) {
            Some(Json::Text(word)) => Some(ActivityStateValue::from_external(word.as_str())),
            _ => None,
        },
        None => None,
    };
    if let Some(value) = value {
        set_omp_activity_state(extensions, value, updated_at);
    }
}

} // verus!
