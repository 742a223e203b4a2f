//! JSON values, and their reading from text.

use crate::text_map::{ascending, entry_map, has_key, key_index, lemma_one_more, TextMap};
use vstd::prelude::*;

verus! {

/// A JSON value. A number is held as its decimal text.
#[derive(Debug, PartialEq, Eq)]
pub enum Json {
    Null,
    Bool(bool),
    Number(String),
    Text(String),
    Array(Vec<Json>),
    Object(TextMap<Json>),
}

/// What a JSON value says.
pub enum JsonView {
    Null,
    Bool(bool),
    Number(Seq<char>),
    Text(Seq<char>),
    Array(Seq<JsonView>),
    Object(Map<Seq<char>, JsonView>),
}

impl JsonView {
    /// The value of an object's field.
    pub open spec fn field(self, key: Seq<char>) -> Option<JsonView> {
        match self {
            JsonView::Object(fields) => if fields.contains_key(key) {
                Some(fields[key])
            } else {
                None
            },
            _ => None,
        }
    }

    /// The fields of an object; none of any other value.
    pub open spec fn fields(self) -> Map<Seq<char>, JsonView> {
        match self {
            JsonView::Object(fields) => fields,
            _ => Map::empty(),
        }
    }

    /// The text that a JSON string holds.
    pub open spec fn text(self) -> Option<Seq<char>> {
        match self {
            JsonView::Text(text) => Some(text),
            _ => None,
        }
    }
}

/// What a JSON value says.
pub open spec fn json_view(json: Json) -> JsonView
    decreases json,
{
    match json {
        Json::Null => JsonView::Null,
        Json::Bool(flag) => JsonView::Bool(flag),
        Json::Number(number) => JsonView::Number(number@),
        Json::Text(text) => JsonView::Text(text@),
        Json::Array(items) => JsonView::Array(
            Seq::new(
                items@.len(),
                |i: int| if 0 <= i < items@.len() { json_view(items@[i]) } else { arbitrary() },
            ),
        ),
        Json::Object(fields) => {
            proof {
                assert forall|key: Seq<char>| fields@.contains_key(key) implies decreases_to!(
                    json => fields@[key]
                ) by {
                    fields.lemma_smaller(key);
                }
            }
            JsonView::Object(
                Map::new(
                    |key: Seq<char>| fields@.contains_key(key),
                    |key: Seq<char>|
                        if fields@.contains_key(key) {
                            json_view(fields@[key])
                        } else {
                            arbitrary()
                        },
                ),
            )
        },
    }
}

impl View for Json {
    type V = JsonView;

    open spec fn view(&self) -> JsonView {
        json_view(*self)
    }
}

/// What the values of a map of JSON values say.
pub open spec fn json_views(fields: Map<Seq<char>, Json>) -> Map<Seq<char>, JsonView> {
    Map::new(|key: Seq<char>| fields.contains_key(key), |key: Seq<char>| fields[key]@)
}

/// An object says what its fields say.
pub proof fn lemma_object_view(fields: TextMap<Json>)
    ensures
        Json::Object(fields)@ == JsonView::Object(json_views(fields@)),
{
    assert(Json::Object(fields)@->Object_0 =~= json_views(fields@));
}

impl Clone for Json {
    fn clone(&self) -> (copy: Self)
        ensures
            copy@ == self@,
        decreases self,
    {
        match self {
            Json::Null => Json::Null,
            Json::Bool(flag) => Json::Bool(*flag),
            Json::Number(number) => Json::Number(number.clone()),
            Json::Text(text) => Json::Text(text.clone()),
            Json::Array(items) => {
                let mut copies: Vec<Json> = Vec::new();
                let mut i: usize = 0;
                while i < items.len()
                    invariant
                        i <= items@.len(),
                        decreases_to!(*self => *items),
                        copies@.len() == i,
                        forall|j: int| 0 <= j < i ==> (#[trigger] copies@[j])@ == items@[j]@,
                    decreases items@.len() - i,
                {
                    assert(decreases_to!(*items => items@));
                    assert(decreases_to!(items@ => items@[i as int]));
                    let item = &items[i];
                    copies.push(item.clone());
                    i = i + 1;
                }
                let copy = Json::Array(copies);
                assert(copy@->Array_0 =~= self@->Array_0);
                copy
            },
            Json::Object(fields) => {
                let entries = fields.entries();
                let mut copies: TextMap<Json> = TextMap::new();
                let mut i: usize = 0;
                assert(json_views(copies@) =~= json_views(entry_map(entries@.take(0))));
                while i < entries.len()
                    invariant
                        i <= entries@.len(),
                        ascending(entries@),
                        decreases_to!(*self => *fields),
                        decreases_to!(*fields => entries@),
                        json_views(copies@) == json_views(entry_map(entries@.take(i as int))),
                    decreases entries@.len() - i,
                {
                    assert(decreases_to!(entries@ => entries@[i as int]));
                    assert(decreases_to!(entries@[i as int] => entries@[i as int].1));
                    let entry = &entries[i];
                    let copy = entry.1.clone();
                    proof {
                        lemma_one_more(entries@, i as int);
                        lemma_json_views_insert(copies@, entry.0@, copy);
                        lemma_json_views_insert(
                            entry_map(entries@.take(i as int)),
                            entry.0@,
                            entry.1,
                        );
                    }
                    copies.insert(entry.0.clone(), copy);
                    i = i + 1;
                }
                proof {
                    assert(entries@.take(i as int) =~= entries@);
                    lemma_object_view(copies);
                    lemma_object_view(*fields);
                }
                Json::Object(copies)
            },
        }
    }
}

/// A new value for a key says what it says.
pub proof fn lemma_json_views_insert(fields: Map<Seq<char>, Json>, key: Seq<char>, value: Json)
    ensures
        json_views(fields.insert(key, value)) == json_views(fields).insert(key, value@),
{
    assert(json_views(fields.insert(key, value)) =~= json_views(fields).insert(key, value@));
}

impl Json {
    /// The value of an object's field.
    pub fn field(&self, key: &str) -> (value: Option<&Json>)
        ensures
            match value {
                Some(found) => self@.field(key@) == Some(found@),
                None => self@.field(key@) is None,
            },
    {
        match self {
            Json::Object(fields) => {
                proof {
                    lemma_object_view(*fields);
                }
                fields.get(key)
            },
            _ => None,
        }
    }

    /// The text that a JSON string holds.
    pub fn as_text(&self) -> (text: Option<&String>)
        ensures
            match text {
                Some(found) => self@.text() == Some(found@),
                None => self@.text() is None,
            },
    {
        match self {
            Json::Text(text) => Some(text),
            _ => None,
        }
    }
}

// ---------------------------------------------------------------------------
// Reading JSON text
// ---------------------------------------------------------------------------
/// A JSON value as the crate `serde_json` holds it.
#[verifier::external_type_specification]
#[verifier::external_body]
pub struct ExValue(serde_json::Value);

/// The tree of values that a `serde_json::Value` holds, with each number as
/// `serde_json::Number` displays it.
pub uninterp spec fn value_tree(value: serde_json::Value) -> JsonView;

/// What `serde_json::from_str` makes of a text: the tree of values, or the message
/// of its error.
pub uninterp spec fn parsed_json(text: Seq<char>) -> Result<JsonView, Seq<char>>;

/// Calls `serde_json::from_str` for a `serde_json::Value`. What comes back, the
/// tree of values or the error's message, depends on the text alone.
#[verifier::external_body]
fn value_from_text(text: &str) -> (parsed: Result<serde_json::Value, String>)
    ensures
        match parsed {
            Ok(value) => parsed_json(text@) == Ok::<JsonView, Seq<char>>(value_tree(value)),
            Err(cause) => parsed_json(text@) == Err::<JsonView, Seq<char>>(cause@),
        },
{
    serde_json::from_str::<serde_json::Value>(text).map_err(|error| error.to_string())
}

/// One layer of a `serde_json::Value`.
enum Layer {
    Null,
    Bool(bool),
    Number(String),
    Text(String),
    Array(Vec<serde_json::Value>),
    Object(Vec<(String, serde_json::Value)>),
}

/// Whether each key occurs once among some fields.
spec fn distinct_keys(fields: Seq<(String, serde_json::Value)>) -> bool {
    forall|i: int, j: int|
        0 <= i < j < fields.len() ==> #[trigger] fields[i].0@ != #[trigger] fields[j].0@
}

/// The trees of some fields, by their keys.
spec fn field_trees(fields: Seq<(String, serde_json::Value)>) -> Map<Seq<char>, JsonView> {
    Map::new(
        |key: Seq<char>| has_key(fields, key),
        |key: Seq<char>| value_tree(fields[key_index(fields, key)].1),
    )
}

/// The tree that starts with a layer.
spec fn layer_tree(layer: Layer) -> JsonView {
    match layer {
        Layer::Null => JsonView::Null,
        Layer::Bool(flag) => JsonView::Bool(flag),
        Layer::Number(number) => JsonView::Number(number@),
        Layer::Text(text) => JsonView::Text(text@),
        Layer::Array(items) => JsonView::Array(
            Seq::new(items@.len(), |i: int| value_tree(items@[i])),
        ),
        Layer::Object(fields) => JsonView::Object(field_trees(fields@)),
    }
}

/// Tells the variants of `serde_json::Value` apart and hands out what each holds:
/// the items of an array in their order, and the fields of an object, of which no
/// two have one key. A number is displayed with `serde_json::Number`.
#[verifier::external_body]
fn top_layer(value: serde_json::Value) -> (layer: Layer)
    ensures
        layer_tree(layer) == value_tree(value),
        layer matches Layer::Object(fields) ==> distinct_keys(fields@),
{
    match value {
        serde_json::Value::Null => Layer::Null,
        serde_json::Value::Bool(flag) => Layer::Bool(flag),
        serde_json::Value::Number(number) => Layer::Number(number.to_string()),
        serde_json::Value::String(text) => Layer::Text(text),
        serde_json::Value::Array(items) => Layer::Array(items),
        serde_json::Value::Object(fields) => Layer::Object(fields.into_iter().collect()),
    }
}

/// Takes a `serde_json::Value` over, layer by layer.
fn json_from_value(value: serde_json::Value) -> (json: Json)
    ensures
        json@ == value_tree(value),
    decreases value_tree(value),
{
    let ghost tree = value_tree(value);
    match top_layer(value) {
        Layer::Null => Json::Null,
        Layer::Bool(flag) => Json::Bool(flag),
        Layer::Number(number) => Json::Number(number),
        Layer::Text(text) => Json::Text(text),
        Layer::Array(items) => {
            let ghost trees = tree->Array_0;
            let ghost given = items@;
            let mut taken: Vec<Json> = Vec::new();
            for item in it: items
                invariant
                    it.seq() == given,
                    tree == value_tree(value),
                    tree == JsonView::Array(trees),
                    trees == Seq::new(given.len(), |i: int| value_tree(given[i])),
                    taken@.len() == it.index(),
                    forall|i: int| 0 <= i < taken@.len() ==> (#[trigger] taken@[i])@ == trees[i],
            {
                assert(decreases_to!(tree => tree->Array_0));
                assert(decreases_to!(trees => trees[it.index() as int]));
                taken.push(json_from_value(item));
            }
            let json = Json::Array(taken);
            assert(json@->Array_0 =~= trees);
            json
        },
        Layer::Object(fields) => {
            let ghost all = fields@;
            let ghost trees = tree->Object_0;
            let mut taken: TextMap<Json> = TextMap::new();
            assert(json_views(taken@) =~= field_trees(all.take(0)));
            for entry in it: fields
                invariant
                    it.seq() == all,
                    tree == value_tree(value),
                    tree == JsonView::Object(trees),
                    trees == field_trees(all),
                    distinct_keys(all),
                    json_views(taken@) == field_trees(all.take(it.index())),
            {
                let (key, field) = entry;
                let ghost at = it.index();
                proof {
                    lemma_field_tree(all, at);
                    assert(decreases_to!(tree => tree->Object_0[all[at].0@]));
                    lemma_field_trees(all, at);
                }
                let json = json_from_value(field);
                proof {
                    lemma_json_views_insert(taken@, key@, json);
                }
                taken.insert(key, json);
            }
            proof {
                assert(all.take(all.len() as int) =~= all);
                lemma_object_view(taken);
            }
            Json::Object(taken)
        },
    }
}

/// Among distinct keys the tree of each is that of its field.
proof fn lemma_field_tree(fields: Seq<(String, serde_json::Value)>, at: int)
    requires
        distinct_keys(fields),
        0 <= at < fields.len(),
    ensures
        field_trees(fields).contains_key(fields[at].0@),
        field_trees(fields)[fields[at].0@] == value_tree(fields[at].1),
{
    let key = fields[at].0@;
    assert(has_key(fields, key));
    let i = key_index(fields, key);
    assert(fields[i].0@ == key);
    if i < at {
        assert(fields[i].0@ != fields[at].0@);
    } else if at < i {
        assert(fields[at].0@ != fields[i].0@);
    }
}

/// One field more adds one key.
proof fn lemma_field_trees(fields: Seq<(String, serde_json::Value)>, at: int)
    requires
        distinct_keys(fields),
        0 <= at < fields.len(),
    ensures
        field_trees(fields.take(at + 1)) == field_trees(fields.take(at)).insert(
            fields[at].0@,
            value_tree(fields[at].1),
        ),
{
    let shorter = fields.take(at);
    let longer = fields.take(at + 1);
    assert forall|key: Seq<char>|
        has_key(longer, key) == (has_key(shorter, key) || key == fields[at].0@) by {
        if has_key(longer, key) {
            let i = key_index(longer, key);
            if i < at {
                assert(shorter[i].0@ == key);
            }
        }
        if has_key(shorter, key) {
            let i = key_index(shorter, key);
            assert(longer[i].0@ == key);
        }
        if key == fields[at].0@ {
            assert(longer[at].0@ == key);
        }
    }
    assert forall|key: Seq<char>| has_key(longer, key) implies field_trees(longer)[key] == (if key
        == fields[at].0@ {
        value_tree(fields[at].1)
    } else {
        field_trees(shorter)[key]
    }) by {
        let i = key_index(longer, key);
        assert(longer[i].0@ == key);
        lemma_field_tree(longer, i);
        lemma_field_tree(longer, at);
        if i < at {
            lemma_field_tree(shorter, i);
        }
    }
    assert(field_trees(longer) =~= field_trees(shorter).insert(
        fields[at].0@,
        value_tree(fields[at].1),
    ));
}

impl Json {
    /// Takes a `serde_json::Value` over.
    pub fn from_value(value: serde_json::Value) -> (json: Json)
        ensures
            json@ == value_tree(value),
    {
        json_from_value(value)
    }

    /// Reads a JSON text, as `serde_json::from_str` does.
    pub fn parse(text: &str) -> (parsed: Result<Json, String>)
        ensures
            match parsed {
                Ok(json) => parsed_json(text@) == Ok::<JsonView, Seq<char>>(json@),
                Err(cause) => parsed_json(text@) == Err::<JsonView, Seq<char>>(cause@),
            },
    {
        match value_from_text(text) {
            Ok(value) => Ok(json_from_value(value)),
            Err(cause) => Err(cause),
        }
    }
}

} // verus!
