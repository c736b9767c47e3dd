//! JSON documents as trees of plain values.

use vstd::prelude::*;
use vstd::string::*;
use crate::text::{lemma_text_less_irreflexive, same, text_less};

verus! {

/// A JSON value. The entries of an object stand in the order of their keys.
#[derive(Debug)]
pub enum Json {
    Null,
    Bool(bool),
    /// A number in decimal notation.
    Number(String),
    Text(String),
    Array(Vec<Json>),
    Object(Vec<(String, Json)>),
}

/// `Json` over mathematical text and sequences.
#[verifier::ext_equal]
pub enum JsonView {
    Null,
    Bool(bool),
    Number(Seq<char>),
    Text(Seq<char>),
    Array(Seq<JsonView>),
    Object(Seq<(Seq<char>, JsonView)>),
}

/// What `key` stands for among the entries of an object.
pub open spec fn entry(entries: Seq<(Seq<char>, JsonView)>, key: Seq<char>) -> Option<JsonView>
    decreases entries.len(),
{
    if entries.len() == 0 {
        None
    } else if entries[0].0 == key {
        Some(entries[0].1)
    } else {
        entry(entries.skip(1), key)
    }
}

/// The keys of an object ascend.
pub open spec fn ascending(entries: Seq<(Seq<char>, JsonView)>) -> bool {
    forall|i: int, j: int|
        0 <= i < j < entries.len() ==> text_less(#[trigger] entries[i].0, #[trigger] entries[j].0)
}

impl JsonView {
    /// What `key` stands for in an object; a value of another kind has no keys.
    pub open spec fn get(self, key: Seq<char>) -> Option<JsonView> {
        match self {
            JsonView::Object(entries) => entry(entries, key),
            _ => None,
        }
    }

    /// The text that a value is.
    pub open spec fn text(self) -> Option<Seq<char>> {
        match self {
            JsonView::Text(s) => Some(s),
            _ => None,
        }
    }

    /// The text that `key` stands for in an object.
    pub open spec fn text_at(self, key: Seq<char>) -> Option<Seq<char>> {
        match self.get(key) {
            Some(value) => value.text(),
            None => None,
        }
    }

    /// The entries of the object that a value is.
    pub open spec fn entries(self) -> Option<Seq<(Seq<char>, JsonView)>> {
        match self {
            JsonView::Object(entries) => Some(entries),
            _ => None,
        }
    }

    /// The keys of every object in the tree ascend.
    pub open spec fn well_formed(self) -> bool
        decreases self,
    {
        match self {
            JsonView::Array(items) => forall|i: int|
                0 <= i < items.len() ==> (#[trigger] items[i]).well_formed(),
            JsonView::Object(entries) => {
                &&& ascending(entries)
                &&& forall|i: int|
                    0 <= i < entries.len() ==> (#[trigger] entries[i]).1.well_formed()
            },
            _ => true,
        }
    }
}

/// The tree of `json`.
pub open spec fn json_view(json: Json) -> JsonView
    decreases json,
{
    match json {
        Json::Null => JsonView::Null,
        Json::Bool(b) => JsonView::Bool(b),
        Json::Number(n) => JsonView::Number(n@),
        Json::Text(s) => JsonView::Text(s@),
        Json::Array(items) => JsonView::Array(
            Seq::new(
                items@.len(),
                |i: int|
                    if 0 <= i < items@.len() {
                        json_view(items@[i])
                    } else {
                        JsonView::Null
                    },
            ),
        ),
        Json::Object(entries) => JsonView::Object(
            Seq::new(
                entries@.len(),
                |i: int|
                    if 0 <= i < entries@.len() {
                        (entries@[i].0@, json_view(entries@[i].1))
                    } else {
                        (seq![], JsonView::Null)
                    },
            ),
        ),
    }
}

impl View for Json {
    type V = JsonView;

    open spec fn view(&self) -> JsonView {
        json_view(*self)
    }
}

impl Json {
    /// What `key` stands for in an object; a value of another kind has no keys.
    pub fn get(&self, key: &str) -> (res: Option<&Json>)
        ensures
            match res {
                Some(value) => self@.get(key@) == Some(value@),
                None => self@.get(key@) is None,
            },
    {
        match self {
            Json::Object(entries) => {
                let ghost all = self@->Object_0;
                let mut i: usize = 0;
                assert(all.skip(0) =~= all);
                while i < entries.len()
                    invariant
                        i <= entries@.len() == all.len(),
                        self@ == JsonView::Object(all),
                        forall|j: int|
                            0 <= j < all.len() ==> #[trigger] all[j] == (
                                entries@[j].0@,
                                entries@[j].1@,
                            ),
                        entry(all, key@) == entry(all.skip(i as int), key@),
                    decreases entries.len() - i,
                {
                    assert(all.skip(i as int)[0] == all[i as int]);
                    if same(entries[i].0.as_str(), key) {
                        return Some(&entries[i].1);
                    }
                    assert(all.skip(i as int).skip(1) =~= all.skip(i + 1));
                    i += 1;
                }
                None
            },
            _ => None,
        }
    }

    /// The text that a value is.
    pub fn as_str(&self) -> (res: Option<&str>)
        ensures
            match res {
                Some(text) => self@.text() == Some(text@),
                None => self@.text() is None,
            },
    {
        match self {
            Json::Text(s) => Some(s.as_str()),
            _ => None,
        }
    }

    /// The text that `key` stands for in an object.
    pub fn str_at(&self, key: &str) -> (res: Option<&str>)
        ensures
            match res {
                Some(text) => self@.text_at(key@) == Some(text@),
                None => self@.text_at(key@) is None,
            },
    {
        match self.get(key) {
            Some(value) => value.as_str(),
            None => None,
        }
    }

    /// The entries of the object that a value is.
    pub fn as_object(&self) -> (res: Option<&Vec<(String, Json)>>)
        ensures
            match res {
                Some(entries) => self@.entries() == Some(
                    Seq::new(entries@.len(), |i: int| (entries@[i].0@, entries@[i].1@)),
                ),
                None => self@.entries() is None,
            },
    {
        match self {
            Json::Object(entries) => {
                assert(self@->Object_0 =~= Seq::new(
                    entries@.len(),
                    |i: int| (entries@[i].0@, entries@[i].1@),
                ));
                Some(entries)
            },
            _ => None,
        }
    }
}

/// `serde_json::Value`.
#[verifier::external_type_specification]
#[verifier::external_body]
pub struct ExValue(serde_json::Value);

/// `serde_json::Error`.
#[verifier::external_type_specification]
#[verifier::external_body]
pub struct ExJsonError(serde_json::Error);

/// The tree that a `serde_json::Value` holds.
pub uninterp spec fn json_tree(value: serde_json::Value) -> JsonView;

/// The document that `serde_json` reads from bytes, where they are one.
pub uninterp spec fn json_document(bytes: Seq<u8>) -> Option<JsonView>;

/// One level of a `serde_json::Value`.
enum JsonNode<'a> {
    Null,
    Bool(bool),
    Number(String),
    Text(String),
    Array(Vec<&'a serde_json::Value>),
    Object(Vec<(&'a String, &'a serde_json::Value)>),
}

impl<'a> JsonNode<'a> {
    /// The tree whose top level this is.
    spec fn tree(self) -> JsonView {
        match self {
            JsonNode::Null => JsonView::Null,
            JsonNode::Bool(b) => JsonView::Bool(b),
            JsonNode::Number(n) => JsonView::Number(n@),
            JsonNode::Text(s) => JsonView::Text(s@),
            JsonNode::Array(items) => JsonView::Array(
                items@.map_values(|item: &serde_json::Value| json_tree(*item)),
            ),
            JsonNode::Object(entries) => JsonView::Object(
                entries@.map_values(
                    |e: (&String, &serde_json::Value)| (e.0@, json_tree(*e.1)),
                ),
            ),
        }
    }
}

/// `serde_json::from_slice`: reads one JSON document from `bytes`. Whether they are one, and which
/// tree it holds, is a function of the bytes.
#[verifier::external_body]
fn json_from_slice(bytes: &[u8]) -> (res: Result<serde_json::Value, serde_json::Error>)
    ensures
        match res {
            Ok(value) => json_document(bytes@) == Some(json_tree(value)),
            Err(_) => json_document(bytes@) is None,
        },
{
    serde_json::from_slice(bytes)
}

/// The variant of a `serde_json::Value` and what it holds, a number as its `Display` writes it. The
/// `serde_json::Map` of an object is a `BTreeMap`: `iter` goes by the order of the keys, each of
/// which it holds once, and the order of UTF-8 text is that of its code points.
#[verifier::external_body]
fn json_node(value: &serde_json::Value) -> (res: JsonNode<'_>)
    ensures
        res.tree() == json_tree(*value),
        res.tree() matches JsonView::Object(entries) ==> ascending(entries),
{
    match value {
        serde_json::Value::Null => JsonNode::Null,
        serde_json::Value::Bool(b) => JsonNode::Bool(*b),
        serde_json::Value::Number(n) => JsonNode::Number(n.to_string()),
        serde_json::Value::String(s) => JsonNode::Text(s.clone()),
        serde_json::Value::Array(items) => JsonNode::Array(items.iter().collect()),
        serde_json::Value::Object(entries) => JsonNode::Object(entries.iter().collect()),
    }
}

/// The tree of `value` as plain values.
fn json_from_value(value: &serde_json::Value) -> (res: Json)
    ensures
        res@ == json_tree(*value),
        res@.well_formed(),
    decreases json_tree(*value),
{
    match json_node(value) {
        JsonNode::Null => Json::Null,
        JsonNode::Bool(b) => Json::Bool(b),
        JsonNode::Number(n) => Json::Number(n),
        JsonNode::Text(s) => Json::Text(s),
        JsonNode::Array(nodes) => {
            let mut items: Vec<Json> = Vec::new();
            let ghost trees = json_tree(*value)->Array_0;
            let mut i: usize = 0;
            while i < nodes.len()
                invariant
                    i <= nodes@.len() == trees.len(),
                    items@.len() == i,
                    json_tree(*value) == JsonView::Array(trees),
                    forall|j: int|
                        0 <= j < trees.len() ==> #[trigger] trees[j] == json_tree(*nodes@[j]),
                    forall|j: int|
                        0 <= j < i ==> (#[trigger] items@[j])@ == trees[j]
                            && items@[j]@.well_formed(),
                decreases nodes.len() - i,
            {
                assert(decreases_to!(json_tree(*value) => json_tree(*value)->Array_0));
                assert(decreases_to!(trees => trees[i as int]));
                items.push(json_from_value(nodes[i]));
                i += 1;
            }
            let res: Json = Json::Array(items);
            assert(res@->Array_0 =~= trees);
            res
        },
        JsonNode::Object(nodes) => {
            let mut entries: Vec<(String, Json)> = Vec::new();
            let ghost trees = json_tree(*value)->Object_0;
            let mut i: usize = 0;
            while i < nodes.len()
                invariant
                    i <= nodes@.len() == trees.len(),
                    entries@.len() == i,
                    json_tree(*value) == JsonView::Object(trees),
                    forall|j: int|
                        0 <= j < trees.len() ==> #[trigger] trees[j] == (
                            nodes@[j].0@,
                            json_tree(*nodes@[j].1),
                        ),
                    forall|j: int|
                        0 <= j < i ==> ((#[trigger] entries@[j]).0@, entries@[j].1@) == trees[j]
                            && entries@[j].1@.well_formed(),
                decreases nodes.len() - i,
            {
                assert(decreases_to!(json_tree(*value) => json_tree(*value)->Object_0));
                assert(decreases_to!(trees => trees[i as int]));
                assert(decreases_to!(trees[i as int] => trees[i as int].1));
                entries.push((nodes[i].0.clone(), json_from_value(nodes[i].1)));
                i += 1;
            }
            let res: Json = Json::Object(entries);
            assert(res@->Object_0 =~= trees);
            res
        },
    }
}

/// Reads one JSON document from `bytes`.
pub fn parse_json(bytes: &[u8]) -> (res: Option<Json>)
    ensures
        match res {
            Some(document) => json_document(bytes@) == Some(document@) && document@.well_formed(),
            None => json_document(bytes@) is None,
        },
{
    match json_from_slice(bytes) {
        Ok(value) => Some(json_from_value(&value)),
        Err(_) => None,
    }
}

/// In a well-formed object a key stands for a value exactly where the two are an entry.
pub proof fn law_get_finds_the_entry(
    entries: Seq<(Seq<char>, JsonView)>,
    key: Seq<char>,
    value: JsonView,
)
    requires
        JsonView::Object(entries).well_formed(),
    ensures
        JsonView::Object(entries).get(key) == Some(value) <==> entries.contains((key, value)),
{
    lemma_entry(entries, key, value);
}

proof fn lemma_entry(entries: Seq<(Seq<char>, JsonView)>, key: Seq<char>, value: JsonView)
    requires
        ascending(entries),
    ensures
        entry(entries, key) == Some(value) <==> entries.contains((key, value)),
    decreases entries.len(),
{
    if entries.len() > 0 {
        let rest = entries.skip(1);
        assert(entries =~= seq![entries[0]] + rest);
        assert forall|i: int, j: int| 0 <= i < j < rest.len() implies text_less(
            #[trigger] rest[i].0,
            #[trigger] rest[j].0,
        ) by {
            assert(rest[i] == entries[i + 1]);
            assert(rest[j] == entries[j + 1]);
        }
        lemma_entry(rest, key, value);
        if entries[0].0 == key {
            assert(entries.contains(entries[0]));
            if entries.contains((key, value)) {
                let i = choose|i: int| 0 <= i < entries.len() && entries[i] == (key, value);
                lemma_text_less_irreflexive(key);
                assert(i > 0 ==> text_less(entries[0].0, entries[i].0));
            }
        } else {
            if rest.contains((key, value)) {
                let i = choose|i: int| 0 <= i < rest.len() && rest[i] == (key, value);
                assert(entries[i + 1] == (key, value));
            }
            if entries.contains((key, value)) {
                let i = choose|i: int| 0 <= i < entries.len() && entries[i] == (key, value);
                assert(rest[i - 1] == (key, value));
            }
        }
    }
}

/// Among entries with different keys a key stands for a value exactly where the two are an entry,
/// wherever the entry stands.
pub proof fn law_get_finds_any_entry(
    entries: Seq<(Seq<char>, JsonView)>,
    key: Seq<char>,
    value: JsonView,
)
    requires
        forall|i: int, j: int|
            0 <= i < j < entries.len() ==> (#[trigger] entries[i]).0 != (#[trigger] entries[j]).0,
    ensures
        JsonView::Object(entries).get(key) == Some(value) <==> entries.contains((key, value)),
    decreases entries.len(),
{
    if entries.len() > 0 {
        let rest = entries.skip(1);
        assert forall|i: int, j: int| 0 <= i < j < rest.len() implies (#[trigger] rest[i]).0 != (
        #[trigger] rest[j]).0 by {
            assert(rest[i] == entries[i + 1]);
            assert(rest[j] == entries[j + 1]);
        }
        law_get_finds_any_entry(rest, key, value);
        assert(entries.contains(entries[0]));
        if rest.contains((key, value)) {
            let i = choose|i: int| 0 <= i < rest.len() && rest[i] == (key, value);
            assert(entries[i + 1] == (key, value));
        }
        if entries.contains((key, value)) {
            let i = choose|i: int| 0 <= i < entries.len() && entries[i] == (key, value);
            if i > 0 {
                assert(rest[i - 1] == (key, value));
                assert(entries[0].0 != entries[i].0);
            }
        }
    }
}

/// Only objects have keys and entries, only text is text, and what is had by a key as text is what
/// the key stands for.
pub proof fn law_values_are_of_one_kind(value: JsonView, key: Seq<char>)
    ensures
        value.get(key) is Some ==> value is Object,
        match value.entries() {
            Some(entries) => value == JsonView::Object(entries),
            None => value !is Object,
        },
        match value.text() {
            Some(text) => value == JsonView::Text(text),
            None => value !is Text,
        },
        match value.text_at(key) {
            Some(text) => value.get(key) == Some(JsonView::Text(text)),
            None => value.get(key) matches Some(found) ==> found !is Text,
        },
{
}

/// A value is seen as what it is, and the items and entries in it as what they are.
pub proof fn law_values_are_seen_as_they_are(json: Json)
    ensures
        match json {
            Json::Null => json@ == JsonView::Null,
            Json::Bool(b) => json@ == JsonView::Bool(b),
            Json::Number(n) => json@ == JsonView::Number(n@),
            Json::Text(s) => json@ == JsonView::Text(s@),
            Json::Array(items) => json@ matches JsonView::Array(seen) && seen.len() == items@.len()
                && forall|i: int| 0 <= i < items@.len() ==> #[trigger] seen[i] == items@[i]@,
            Json::Object(entries) => json@ matches JsonView::Object(seen) && seen.len()
                == entries@.len() && forall|i: int|
                0 <= i < entries@.len() ==> #[trigger] seen[i] == (
                    entries@[i].0@,
                    entries@[i].1@,
                ),
        },
{
}

} // verus!
