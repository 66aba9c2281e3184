//! Values that are written as JSON.

use std::rc::Rc;

use vstd::prelude::*;

use crate::text::surround;
use crate::value::{ArrayForm, ArrayValueOrRef, MapValueOrRef, OwnedMapValue, ValueOrRef};

verus! {

/// A value of `serde_json`.
#[verifier::external_type_specification]
#[verifier::external_body]
pub struct ExJsonValue(serde_json::Value);

/// What a JSON text says. A number is told as an integer, as the bits of a double, and as it is
/// written.
pub ghost enum JsonTree {
    Null,
    Bool(bool),
    Number { integer: Option<i64>, double: Option<u64>, text: Seq<char> },
    Text(Seq<char>),
    Items(Seq<JsonTree>),
    Entries(Seq<(Seq<char>, JsonTree)>),
}

/// What a value of `serde_json` holds.
pub uninterp spec fn json_contents(value: serde_json::Value) -> JsonTree;

/// What `serde_json::from_str` reads a text as, or the error that it gives.
pub uninterp spec fn json_parsed(input: Seq<char>) -> Result<JsonTree, Seq<char>>;

/// One level of a value.
pub enum JsonNode<'a> {
    Null,
    Bool(bool),
    Number { integer: Option<i64>, double: Option<u64>, text: String },
    Text(String),
    Items(&'a Vec<serde_json::Value>),
    Entries(Vec<(&'a String, &'a serde_json::Value)>),
}

/// Whether a level is the first one of a tree. No key occurs twice in it.
pub open spec fn is_level(node: JsonNode<'_>, tree: JsonTree) -> bool {
    match node {
        JsonNode::Null => tree == JsonTree::Null,
        JsonNode::Bool(b) => tree == JsonTree::Bool(b),
        JsonNode::Number { integer, double, text } => tree == (JsonTree::Number {
            integer,
            double,
            text: text@,
        }),
        JsonNode::Text(text) => tree == JsonTree::Text(text@),
        JsonNode::Items(items) => tree == JsonTree::Items(
            Seq::new(items@.len(), |i: int| json_contents(items@[i])),
        ),
        JsonNode::Entries(entries) => {
            &&& tree == JsonTree::Entries(
                Seq::new(
                    entries@.len(),
                    |i: int| (entries@[i].0@, json_contents(*entries@[i].1)),
                ),
            )
            &&& forall|i: int, j: int|
                0 <= i < j < entries@.len() ==> (#[trigger] entries@[i]).0@ != (
                #[trigger] entries@[j]).0@
        },
    }
}

/// Tells the variants of a `serde_json::Value` apart. An object is a `serde_json::Map`, which holds
/// each key once.
#[verifier::external_body]
fn json_level<'a>(value: &'a serde_json::Value) -> (r: JsonNode<'a>)
    ensures
        is_level(r, json_contents(*value)),
{
    match value {
        serde_json::Value::Null => JsonNode::Null,
        serde_json::Value::Bool(b) => JsonNode::Bool(*b),
        serde_json::Value::Number(n) => JsonNode::Number {
            integer: n.as_i64(),
            double: n.as_f64().map(|d| d.to_bits()),
            text: n.to_string(),
        },
        serde_json::Value::String(s) => JsonNode::Text(s.clone()),
        serde_json::Value::Array(items) => JsonNode::Items(items),
        serde_json::Value::Object(entries) => JsonNode::Entries(entries.iter().collect()),
    }
}

/// Calls `serde_json::from_str`, which reads a JSON text; an error is told by its message.
#[verifier::external_body]
fn json_from_str(input: &str) -> (r: Result<serde_json::Value, String>)
    ensures
        match r {
            Ok(value) => json_parsed(input@) == Ok::<JsonTree, Seq<char>>(json_contents(value)),
            Err(text) => json_parsed(input@) == Err::<JsonTree, Seq<char>>(text@),
        },
{
    serde_json::from_str(input).map_err(|e| e.to_string())
}

/// The first number, in the order of the text, that is neither an integer nor a double.
pub open spec fn bad_number(tree: JsonTree) -> Option<Seq<char>>
    decreases tree,
{
    match tree {
        JsonTree::Number { integer: None, double: None, text } => Some(text),
        JsonTree::Items(items) => bad_in_items(items, items.len()),
        JsonTree::Entries(entries) => bad_in_entries(entries, entries.len()),
        _ => None,
    }
}

/// The first such number among the first `n` items.
pub open spec fn bad_in_items(items: Seq<JsonTree>, n: nat) -> Option<Seq<char>>
    decreases items, n,
{
    if n == 0 || n > items.len() {
        None
    } else {
        match bad_in_items(items, (n - 1) as nat) {
            Some(text) => Some(text),
            None => bad_number(items[n - 1]),
        }
    }
}

/// The first such number among the first `n` entries.
pub open spec fn bad_in_entries(entries: Seq<(Seq<char>, JsonTree)>, n: nat) -> Option<Seq<char>>
    decreases entries, n,
{
    if n == 0 || n > entries.len() {
        None
    } else {
        match bad_in_entries(entries, (n - 1) as nat) {
            Some(text) => Some(text),
            None => bad_number(entries[n - 1].1),
        }
    }
}

/// Whether a tree is that value.
pub open spec fn is_value(tree: JsonTree, value: ValueOrRef) -> bool
    decreases tree,
{
    match tree {
        JsonTree::Null => value is Null,
        JsonTree::Bool(b) => value == ValueOrRef::Boolean(b),
        JsonTree::Number { integer: Some(n), .. } => value == ValueOrRef::Integer(n),
        JsonTree::Number { integer: None, double: Some(bits), .. } => value
            == ValueOrRef::Double(bits),
        JsonTree::Number { .. } => false,
        JsonTree::Text(text) => value matches ValueOrRef::String(held) && held@ == text,
        JsonTree::Items(items) => {
            &&& value matches ValueOrRef::Array(ArrayValueOrRef::List(ArrayForm::Owned, held))
            &&& held@.len() == items.len()
            &&& forall|i: int| 0 <= i < items.len() ==> is_value(items[i], #[trigger] held@[i])
        },
        JsonTree::Entries(entries) => {
            &&& value matches ValueOrRef::MapValue(MapValueOrRef { owned: true, map })
            &&& forall|key: Seq<char>|
                #[trigger] map.contents().contains_key(key) == (exists|i: int|
                    0 <= i < entries.len() && (#[trigger] entries[i]).0 == key)
            &&& forall|i: int|
                0 <= i < entries.len() ==> is_value(
                    (#[trigger] entries[i]).1,
                    map.contents()[entries[i].0],
                )
        },
    }
}

/// The message about a number that cannot be read.
pub open spec fn number_error(text: Seq<char>) -> Seq<char> {
    "Input '"@ + text + "' could not be parsed as a number"@
}

/// Whether a tree comes out so: as a value, or with an error about the first number that cannot be
/// read.
pub open spec fn comes_out(tree: JsonTree, r: Result<ValueOrRef, String>) -> bool {
    match r {
        Ok(value) => bad_number(tree) is None && is_value(tree, value),
        Err(text) => bad_number(tree) matches Some(number) && text@ == number_error(number),
    }
}

proof fn lemma_bad_in_items(items: Seq<JsonTree>, k: nat, n: nat)
    requires
        k <= n <= items.len(),
        bad_in_items(items, k) is Some,
    ensures
        bad_in_items(items, n) == bad_in_items(items, k),
    decreases n - k,
{
    if k < n {
        lemma_bad_in_items(items, k, (n - 1) as nat);
    }
}

proof fn lemma_bad_in_entries(entries: Seq<(Seq<char>, JsonTree)>, k: nat, n: nat)
    requires
        k <= n <= entries.len(),
        bad_in_entries(entries, k) is Some,
    ensures
        bad_in_entries(entries, n) == bad_in_entries(entries, k),
    decreases n - k,
{
    if k < n {
        lemma_bad_in_entries(entries, k, (n - 1) as nat);
    }
}

/// The value that a value of `serde_json` is.
pub fn from_value(value: &serde_json::Value) -> (r: Result<ValueOrRef, String>)
    ensures
        comes_out(json_contents(*value), r),
    decreases json_contents(*value),
{
    let ghost tree = json_contents(*value);
    match json_level(value) {
        JsonNode::Null => Ok(ValueOrRef::Null),
        JsonNode::Bool(b) => Ok(ValueOrRef::Boolean(b)),
        JsonNode::Number { integer, double, text } => match integer {
            Some(n) => Ok(ValueOrRef::Integer(n)),
            None => match double {
                Some(bits) => Ok(ValueOrRef::Double(bits)),
                None => Err(
                    surround("Input '", text.as_str(), "' could not be parsed as a number"),
                ),
            },
        },
        JsonNode::Text(text) => Ok(ValueOrRef::String(Rc::new(text))),
        JsonNode::Items(list) => {
            let ghost items = Seq::new(list@.len(), |i: int| json_contents(list@[i]));
            let mut held: Vec<ValueOrRef> = Vec::new();
            let mut k: usize = 0;
            while k < list.len()
                invariant
                    k <= list@.len(),
                    tree == json_contents(*value),
                    tree == JsonTree::Items(items),
                    items == Seq::new(list@.len(), |i: int| json_contents(list@[i])),
                    held@.len() == k,
                    bad_in_items(items, k as nat) is None,
                    forall|i: int| 0 <= i < k ==> is_value(items[i], #[trigger] held@[i]),
                decreases list@.len() - k,
            {
                assert(items[k as int] == json_contents(list@[k as int]));
                assert(decreases_to!(tree => tree->Items_0));
                assert(decreases_to!(items => items[k as int]));
                match from_value(&list[k]) {
                    Ok(item) => {
                        held.push(item);
                    },
                    Err(text) => {
                        proof {
                            assert(bad_in_items(items, (k + 1) as nat) is Some);
                            lemma_bad_in_items(items, (k + 1) as nat, items.len());
                        }
                        return Err(text);
                    },
                }
                k = k + 1;
            }
            Ok(ValueOrRef::Array(ArrayValueOrRef::List(ArrayForm::Owned, Rc::new(held))))
        },
        JsonNode::Entries(list) => {
            let ghost entries = Seq::new(
                list@.len(),
                |i: int| (list@[i].0@, json_contents(*list@[i].1)),
            );
            let mut map: OwnedMapValue = OwnedMapValue::new();
            proof {
                assert forall|key: Seq<char>| !(#[trigger] map.contents().contains_key(key)) by {
                    assert(!map.has_key(key));
                }
            }
            let mut k: usize = 0;
            while k < list.len()
                invariant
                    k <= list@.len(),
                    tree == json_contents(*value),
                    tree == JsonTree::Entries(entries),
                    entries == Seq::new(
                        list@.len(),
                        |i: int| (list@[i].0@, json_contents(*list@[i].1)),
                    ),
                    forall|i: int, j: int|
                        0 <= i < j < list@.len() ==> (#[trigger] list@[i]).0@ != (
                        #[trigger] list@[j]).0@,
                    bad_in_entries(entries, k as nat) is None,
                    forall|key: Seq<char>|
                        #[trigger] map.contents().contains_key(key) == (exists|i: int|
                            0 <= i < k && (#[trigger] entries[i]).0 == key),
                    forall|i: int|
                        0 <= i < k ==> is_value(
                            (#[trigger] entries[i]).1,
                            map.contents()[entries[i].0],
                        ),
                decreases list@.len() - k,
            {
                let (key, inner) = list[k];
                let ghost before = map.contents();
                assert(entries[k as int] == (key@, json_contents(*inner)));
                assert(decreases_to!(tree => tree->Entries_0));
                assert(decreases_to!(entries => entries[k as int]));
                assert(decreases_to!(entries[k as int] => entries[k as int].1));
                match from_value(inner) {
                    Ok(item) => {
                        map.insert(&Rc::new(key.clone()), item);
                        proof {
                            assert forall|i: int| 0 <= i < k + 1 implies is_value(
                                (#[trigger] entries[i]).1,
                                map.contents()[entries[i].0],
                            ) by {
                                if i < k {
                                    assert(list@[i].0@ != list@[k as int].0@);
                                    assert(entries[i].0 != key@);
                                }
                            }
                            assert forall|name: Seq<char>|
                                #[trigger] map.contents().contains_key(name) == (exists|i: int|
                                    0 <= i < k + 1 && (#[trigger] entries[i]).0 == name) by {
                                if name == key@ {
                                    assert(entries[k as int].0 == name);
                                } else if before.contains_key(name) {
                                    let i = choose|i: int|
                                        0 <= i < k && (#[trigger] entries[i]).0 == name;
                                    assert(entries[i].0 == name);
                                }
                            }
                        }
                    },
                    Err(text) => {
                        proof {
                            assert(bad_in_entries(entries, (k + 1) as nat) is Some);
                            lemma_bad_in_entries(entries, (k + 1) as nat, entries.len());
                        }
                        return Err(text);
                    },
                }
                k = k + 1;
            }
            Ok(ValueOrRef::MapValue(MapValueOrRef::new_owned(map)))
        },
    }
}

impl ValueOrRef {
    /// The value that a JSON text says.
    pub fn from_json(input: &str) -> (r: Result<ValueOrRef, String>)
        ensures
            match json_parsed(input@) {
                Ok(tree) => comes_out(tree, r),
                Err(error) => r matches Err(text) && text@ == "Input could not be parsed as JSON: "@
                    + error,
            },
    {
        match json_from_str(input) {
            Ok(value) => from_value(&value),
            Err(error) => {
                let mut text: String = "Input could not be parsed as JSON: ".to_owned();
                text.append(error.as_str());
                Err(text)
            },
        }
    }
}

} // verus!
