//! JSON documents as plain values.

use crate::text::{same, Text};
use vstd::prelude::*;

verus! {

/// A JSON document. An object keeps its members in order.
#[derive(Debug, PartialEq, Eq)]
pub enum Json {
    Null,
    Bool(bool),
    /// A number, as its decimal text.
    Number(String),
    Text(String),
    Array(Vec<Json>),
    Object(Vec<(String, Json)>),
}

/// The mathematical value of a [`Json`].
pub enum JsonView {
    Null,
    Bool(bool),
    Number(Text),
    Text(Text),
    Array(Seq<JsonView>),
    Object(Seq<(Text, JsonView)>),
}

/// What `json` means as a document.
pub open spec fn document(json: Json) -> JsonView
    decreases json,
{
    match json {
        Json::Null => JsonView::Null,
        Json::Bool(b) => JsonView::Bool(b),
        Json::Number(t) => JsonView::Number(t@),
        Json::Text(t) => JsonView::Text(t@),
        Json::Array(items) => JsonView::Array(
            Seq::new(
                items@.len(),
                |i: int| if 0 <= i < items@.len() { document(items@[i]) } else { JsonView::Null },
            ),
        ),
        Json::Object(members) => JsonView::Object(
            Seq::new(
                members@.len(),
                |i: int|
                    if 0 <= i < members@.len() {
                        (members@[i].0@, document(members@[i].1))
                    } else {
                        (Seq::<char>::empty(), JsonView::Null)
                    },
            ),
        ),
    }
}

impl View for Json {
    type V = JsonView;

    open spec fn view(&self) -> JsonView {
        document(*self)
    }
}

/// The documents of a list.
pub open spec fn documents(list: Seq<Json>) -> Seq<JsonView> {
    Seq::new(list.len(), |i: int| list[i]@)
}

/// The members of an object's list.
pub open spec fn members(list: Seq<(String, Json)>) -> Seq<(Text, JsonView)> {
    Seq::new(list.len(), |i: int| (list[i].0@, list[i].1@))
}

/// The value of the first member called `key`.
pub open spec fn find_member(list: Seq<(Text, JsonView)>, key: Text) -> Option<JsonView>
    decreases list.len(),
{
    if list.len() == 0 {
        None
    } else if list[0].0 == key {
        Some(list[0].1)
    } else {
        find_member(list.skip(1), key)
    }
}

/// The member `key` of a document; only an object has members.
pub open spec fn member(doc: JsonView, key: Text) -> Option<JsonView> {
    match doc {
        JsonView::Object(list) => find_member(list, key),
        _ => None,
    }
}

/// The text of a document that is a string.
pub open spec fn as_text(doc: Option<JsonView>) -> Option<Text> {
    match doc {
        Some(JsonView::Text(text)) => Some(text),
        _ => None,
    }
}

/// The items of a document that is an array.
pub open spec fn as_items(doc: Option<JsonView>) -> Option<Seq<JsonView>> {
    match doc {
        Some(JsonView::Array(items)) => Some(items),
        _ => None,
    }
}

/// The members of a document that is an object.
pub open spec fn as_members(doc: Option<JsonView>) -> Option<Seq<(Text, JsonView)>> {
    match doc {
        Some(JsonView::Object(list)) => Some(list),
        _ => None,
    }
}

/// The string member `key` of a document.
pub open spec fn text_member(doc: JsonView, key: Text) -> Option<Text> {
    as_text(member(doc, key))
}

/// The strings among `items`, in order.
pub open spec fn strings(items: Seq<JsonView>) -> Seq<Text>
    decreases items.len(),
{
    if items.len() == 0 {
        Seq::empty()
    } else {
        match items.last() {
            JsonView::Text(text) => strings(items.drop_last()).push(text),
            _ => strings(items.drop_last()),
        }
    }
}

/// The strings of an optional array; nothing when there is none.
pub open spec fn string_list(doc: Option<JsonView>) -> Seq<Text> {
    match as_items(doc) {
        Some(items) => strings(items),
        None => Seq::empty(),
    }
}

#[verifier::external_type_specification]
#[verifier::external_body]
pub struct ExValue(serde_json::Value);

#[verifier::external_type_specification]
#[verifier::external_body]
pub struct ExError(serde_json::Error);

/// What `serde_json::from_slice` reads from `bytes`: the document, or the error's message.
pub uninterp spec fn json_document(bytes: Seq<u8>) -> Result<JsonView, Text>;

/// A `serde_json::Value` as a [`Json`], variant by variant: a number as the text it prints
/// as, an object as its members in the order in which the map yields them.
#[verifier::external_body]
fn json_of(value: serde_json::Value) -> (r: Json) {
    match value {
        serde_json::Value::Null => Json::Null,
        serde_json::Value::Bool(b) => Json::Bool(b),
        serde_json::Value::Number(n) => Json::Number(n.to_string()),
        serde_json::Value::String(s) => Json::Text(s),
        serde_json::Value::Array(items) => Json::Array(items.into_iter().map(json_of).collect()),
        serde_json::Value::Object(map) => {
            Json::Object(map.into_iter().map(|(key, item)| (key, json_of(item))).collect())
        },
    }
}

/// `serde_json::from_slice` into a `serde_json::Value`, handed out as a [`Json`]. The outcome
/// depends on the bytes alone; the JSON grammar itself is left to `serde_json`.
#[verifier::external_body]
fn read_json(bytes: &[u8]) -> (r: Result<Json, String>)
    ensures
        match r {
            Ok(json) => json_document(bytes@) == Ok::<JsonView, Text>(json@),
            Err(message) => json_document(bytes@) == Err::<JsonView, Text>(message@),
        },
{
    match serde_json::from_slice::<serde_json::Value>(bytes) {
        Ok(value) => Ok(json_of(value)),
        Err(error) => Err(error.to_string()),
    }
}

/// What `serde_json::to_vec` writes for `doc`: its bytes, or the error's message where a number
/// of it is none.
pub uninterp spec fn json_bytes(doc: JsonView) -> Result<Seq<u8>, Text>;

/// A [`Json`] as a `serde_json::Value`, variant by variant: a number as `serde_json` reads its
/// text, an object as the map of its members.
#[verifier::external_body]
fn value_of(doc: &Json) -> (r: Result<serde_json::Value, serde_json::Error>) {
    Ok(match doc {
        Json::Null => serde_json::Value::Null,
        Json::Bool(b) => serde_json::Value::Bool(*b),
        Json::Number(n) => serde_json::from_str(n)?,
        Json::Text(s) => serde_json::Value::String(s.clone()),
        Json::Array(items) => items.iter().map(value_of).collect::<Result<_, _>>()?,
        Json::Object(list) => {
            let members = list.iter().map(|m| Ok((m.0.clone(), value_of(&m.1)?)));
            serde_json::Value::Object(members.collect::<Result<_, serde_json::Error>>()?)
        },
    })
}

/// `serde_json::to_vec` of a document. The outcome depends on the document alone; how JSON is
/// spelled is left to `serde_json`.
#[verifier::external_body]
fn write_json(doc: &Json) -> (r: Result<Vec<u8>, String>)
    ensures
        match r {
            Ok(bytes) => json_bytes(doc@) == Ok::<Seq<u8>, Text>(bytes@),
            Err(message) => json_bytes(doc@) == Err::<Seq<u8>, Text>(message@),
        },
{
    match value_of(doc).and_then(|value| serde_json::to_vec(&value)) {
        Ok(bytes) => Ok(bytes),
        Err(error) => Err(error.to_string()),
    }
}

impl Json {
    /// Read a document from its bytes.
    pub fn parse(bytes: &[u8]) -> (r: Result<Json, String>)
        ensures
            match r {
                Ok(json) => json_document(bytes@) == Ok::<JsonView, Text>(json@),
                Err(message) => json_document(bytes@) == Err::<JsonView, Text>(message@),
            },
    {
        read_json(bytes)
    }

    /// Write the document as bytes.
    pub fn to_bytes(&self) -> (r: Result<Vec<u8>, String>)
        ensures
            match r {
                Ok(bytes) => json_bytes(self@) == Ok::<Seq<u8>, Text>(bytes@),
                Err(message) => json_bytes(self@) == Err::<Seq<u8>, Text>(message@),
            },
    {
        write_json(self)
    }

    /// The member `key`; `None` when there is none or this is no object.
    pub fn get(&self, key: &str) -> (r: Option<&Json>)
        ensures
            match member(self@, key@) {
                Some(value) => r matches Some(json) && json@ == value,
                None => r is None,
            },
    {
        match self {
            Json::Object(list) => {
                let ghost all = members(list@);
                assert(self@->Object_0 == all);
                assert(all.skip(0) == all);
                let mut i: usize = 0;
                while i < list.len()
                    invariant
                        i <= list@.len(),
                        all == members(list@),
                        find_member(all, key@) == find_member(all.skip(i as int), key@),
                        member(self@, key@) == find_member(all, key@),
                    decreases list@.len() - i,
                {
                    if same(list[i].0.as_str(), key) {
                        return Some(&list[i].1);
                    }
                    assert(all.skip(i as int).skip(1) == all.skip(i + 1));
                    i = i + 1;
                }
                None
            },
            _ => None,
        }
    }

    /// The text of a string.
    pub fn as_str(&self) -> (r: Option<&str>)
        ensures
            match as_text(Some(self@)) {
                Some(text) => r matches Some(s) && s@ == text,
                None => r is None,
            },
    {
        match self {
            Json::Text(text) => Some(text.as_str()),
            _ => None,
        }
    }

    /// The items of an array.
    pub fn as_array(&self) -> (r: Option<&Vec<Json>>)
        ensures
            match as_items(Some(self@)) {
                Some(items) => r matches Some(list) && documents(list@) == items,
                None => r is None,
            },
    {
        match self {
            Json::Array(list) => {
                assert(self@->Array_0 == documents(list@));
                Some(list)
            },
            _ => None,
        }
    }

    /// The members of an object, in order.
    pub fn as_object(&self) -> (r: Option<&Vec<(String, Json)>>)
        ensures
            match as_members(Some(self@)) {
                Some(all) => r matches Some(list) && members(list@) == all,
                None => r is None,
            },
    {
        match self {
            Json::Object(list) => {
                assert(self@->Object_0 == members(list@));
                Some(list)
            },
            _ => None,
        }
    }

    /// Whether the member `key` is `true`.
    pub fn is_true_at(&self, key: &str) -> (r: bool)
        ensures
            r == (member(self@, key@) == Some(JsonView::Bool(true))),
    {
        match self.get(key) {
            Some(Json::Bool(value)) => *value,
            _ => false,
        }
    }

    /// The string member `key`.
    pub fn text_at(&self, key: &str) -> (r: Option<String>)
        ensures
            crate::text::optional_text(r) == text_member(self@, key@),
    {
        match self.get(key) {
            Some(json) => match json.as_str() {
                Some(text) => Some(text.to_owned()),
                None => None,
            },
            None => None,
        }
    }

    /// The items of the array member `key`.
    pub fn array_at(&self, key: &str) -> (r: Option<&Vec<Json>>)
        ensures
            match as_items(member(self@, key@)) {
                Some(items) => r matches Some(list) && documents(list@) == items,
                None => r is None,
            },
    {
        match self.get(key) {
            Some(json) => json.as_array(),
            None => None,
        }
    }

    /// The strings of the array member `key`; nothing when there is no such array.
    pub fn strings_at(&self, key: &str) -> (r: Vec<String>)
        ensures
            crate::text::texts(r@) == string_list(member(self@, key@)),
    {
        let mut out: Vec<String> = Vec::new();
        match self.array_at(key) {
            Some(list) => {
                let ghost all = documents(list@);
                let mut i: usize = 0;
                assert(crate::text::texts(out@) == strings(all.take(0)));
                while i < list.len()
                    invariant
                        i <= list@.len(),
                        all == documents(list@),
                        crate::text::texts(out@) == strings(all.take(i as int)),
                    decreases list@.len() - i,
                {
                    let ghost before = out@;
                    assert(all.take(i + 1).drop_last() == all.take(i as int));
                    assert(all.take(i + 1).last() == list@[i as int]@);
                    if let Some(text) = list[i].as_str() {
                        out.push(text.to_owned());
                        assert(crate::text::texts(out@) == crate::text::texts(before).push(text@));
                    }
                    i = i + 1;
                }
                assert(all.take(i as int) == all);
            },
            None => {
                assert(crate::text::texts(out@) == Seq::<Text>::empty());
            },
        }
        out
    }
}

// ---------------------------------------------------------------------------
// Laws
// ---------------------------------------------------------------------------

/// Looking a member up gives the value of the first member of that name, and nothing where there
/// is none.
pub proof fn law_members_are_looked_up_by_name(list: Seq<(Text, JsonView)>, key: Text)
    ensures
        match member(JsonView::Object(list), key) {
            Some(value) => exists|i: int|
                0 <= i < list.len() && #[trigger] list[i] == (key, value) && (forall|j: int|
                    0 <= j < i ==> (#[trigger] list[j]).0 != key),
            None => forall|i: int| 0 <= i < list.len() ==> (#[trigger] list[i]).0 != key,
        },
    decreases list.len(),
{
    if list.len() > 0 {
        if list[0].0 == key {
            assert(list[0] == (key, list[0].1));
        } else {
            let rest = list.skip(1);
            law_members_are_looked_up_by_name(rest, key);
            if let Some(value) = find_member(rest, key) {
                let i = choose|i: int|
                    0 <= i < rest.len() && #[trigger] rest[i] == (key, value) && (forall|j: int|
                        0 <= j < i ==> (#[trigger] rest[j]).0 != key);
                assert(list[i + 1] == (key, value));
                assert forall|j: int| 0 <= j < i + 1 implies (#[trigger] list[j]).0 != key by {
                    if j > 0 {
                        assert(rest[j - 1] == list[j]);
                    }
                }
            } else {
                assert forall|i: int| 0 <= i < list.len() implies (#[trigger] list[i]).0
                    != key by {
                    if i > 0 {
                        assert(rest[i - 1] == list[i]);
                    }
                }
            }
        }
    }
}

/// Only an object has members.
pub proof fn law_only_objects_have_members(doc: JsonView, key: Text)
    ensures
        member(doc, key) is Some ==> doc is Object,
{
}

/// The strings of an array are all of its texts, in order, and nothing else.
pub proof fn law_strings_are_the_texts(items: Seq<JsonView>)
    ensures
        string_list(Some(JsonView::Array(items))) == items.filter_map(
            |d: JsonView|
                match d {
                    JsonView::Text(t) => Some(t),
                    _ => None,
                },
        ),
    decreases items.len(),
{
    reveal(Seq::filter_map);
    if items.len() > 0 {
        law_strings_are_the_texts(items.drop_last());
    }
}

/// What is no array has no strings.
pub proof fn law_only_arrays_have_strings(doc: Option<JsonView>)
    ensures
        string_list(doc).len() > 0 ==> doc matches Some(JsonView::Array(_)),
{
}

/// A document is whole: an array has every item and an object every member, in order, and a
/// string is its text.
pub proof fn law_documents_are_whole(json: Json)
    ensures
        json is Null <==> json@ is Null,
        json matches Json::Bool(b) ==> json@ == JsonView::Bool(b),
        json matches Json::Number(t) ==> json@ == JsonView::Number(t@),
        json matches Json::Text(t) ==> json@ == JsonView::Text(t@),
        json matches Json::Array(items) ==> (json@ matches JsonView::Array(list) && list.len()
            == items@.len() && forall|i: int| 0 <= i < list.len() ==> #[trigger] list[i]
            == items@[i]@),
        json matches Json::Object(items) ==> (json@ matches JsonView::Object(list) && list.len()
            == items@.len() && forall|i: int|
            0 <= i < list.len() ==> #[trigger] list[i] == (items@[i].0@, items@[i].1@)),
{
}

}
