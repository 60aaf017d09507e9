//! JSON values, as `serde_json` holds, writes and reads them.

use crate::text::texts;
use serde_json::Value;
use vstd::prelude::*;

verus! {

/// A JSON value, as `serde_json` holds it.
#[verifier::external_type_specification]
#[verifier::external_body]
pub struct ExValue(serde_json::Value);

/// What a JSON value is: a tree of plain values. A floating-point number is
/// held by its bit pattern.
pub enum JsonTree {
    Null,
    Bool(bool),
    Int(int),
    Float(u64),
    Text(Seq<char>),
    List(Seq<JsonTree>),
    Object(Map<Seq<char>, JsonTree>),
}

/// What the JSON value `value` holds.
pub uninterp spec fn json_tree(value: serde_json::Value) -> JsonTree;

/// What each value of `list` holds.
pub open spec fn json_trees(list: Seq<serde_json::Value>) -> Seq<JsonTree> {
    list.map_values(|v: serde_json::Value| json_tree(v))
}

/// The compact JSON text of `tree`.
pub uninterp spec fn json_encoding(tree: JsonTree) -> Seq<char>;

/// What the JSON text `text` denotes, if it is well formed.
pub uninterp spec fn json_parsed(text: Seq<char>) -> Option<JsonTree>;

/// The list of the strings in `list`.
pub open spec fn text_list(list: Seq<Seq<char>>) -> JsonTree {
    JsonTree::List(list.map_values(|s: Seq<char>| JsonTree::Text(s)))
}

/// The list of the integers in `list`.
pub open spec fn int_list(list: Seq<i64>) -> JsonTree {
    JsonTree::List(list.map_values(|n: i64| JsonTree::Int(n as int)))
}

/// A string or `null`.
pub open spec fn optional_text(s: Option<Seq<char>>) -> JsonTree {
    match s {
        Some(text) => JsonTree::Text(text),
        None => JsonTree::Null,
    }
}

/// The characters of an optional string.
pub open spec fn optional_view(s: Option<String>) -> Option<Seq<char>> {
    match s {
        Some(text) => Some(text@),
        None => None,
    }
}

/// The member `key` of an object.
pub open spec fn tree_member(tree: JsonTree, key: Seq<char>) -> Option<JsonTree> {
    match tree {
        JsonTree::Object(members) => if members.dom().contains(key) {
            Some(members[key])
        } else {
            None
        },
        _ => None,
    }
}

/// What indexing by `key` gives: the member of that name, or `null`.
pub open spec fn tree_index(tree: JsonTree, key: Seq<char>) -> JsonTree {
    match tree_member(tree, key) {
        Some(member) => member,
        None => JsonTree::Null,
    }
}

/// Whether `tree` is `null`, a truth value, an integer that fits 64 bits with
/// or without a sign, or a string.
pub open spec fn is_scalar(tree: JsonTree) -> bool {
    match tree {
        JsonTree::Null => true,
        JsonTree::Bool(_) => true,
        JsonTree::Int(n) => i64::MIN <= n <= u64::MAX,
        JsonTree::Text(_) => true,
        _ => false,
    }
}

/// Whether `tree` is a scalar, a list of scalars or an object of scalars.
pub open spec fn is_field(tree: JsonTree) -> bool {
    match tree {
        JsonTree::List(items) => forall|i: int|
            0 <= i < items.len() ==> is_scalar(#[trigger] items[i]),
        JsonTree::Object(members) => {
            &&& members.dom().finite()
            &&& forall|k: Seq<char>|
                members.dom().contains(k) ==> is_scalar(#[trigger] members[k])
        },
        _ => is_scalar(tree),
    }
}

/// Whether `tree` is an object of scalars, lists of scalars and objects of
/// scalars.
pub open spec fn is_record(tree: JsonTree) -> bool {
    match tree {
        JsonTree::Object(members) => {
            &&& members.dom().finite()
            &&& forall|k: Seq<char>|
                members.dom().contains(k) ==> is_field(#[trigger] members[k])
        },
        _ => false,
    }
}

/// `serde_json::Value::Null`.
#[verifier::external_body]
pub(crate) fn json_null() -> (r: Value)
    ensures
        json_tree(r) == JsonTree::Null,
{
    Value::Null
}

/// `serde_json::Value::from` on a truth value: the JSON value of it.
#[verifier::external_body]
pub(crate) fn json_bool(b: bool) -> (r: Value)
    ensures
        json_tree(r) == JsonTree::Bool(b),
{
    Value::from(b)
}

/// `serde_json::Value::from` on a signed integer: the number, exactly.
#[verifier::external_body]
pub(crate) fn json_int(n: i64) -> (r: Value)
    ensures
        json_tree(r) == JsonTree::Int(n as int),
{
    Value::from(n)
}

/// `serde_json::Value::from` on an unsigned integer: the number, exactly.
#[verifier::external_body]
pub(crate) fn json_count(n: u64) -> (r: Value)
    ensures
        json_tree(r) == JsonTree::Int(n as int),
{
    Value::from(n)
}

/// `serde_json::Value::from` on a string: the JSON string of its characters.
#[verifier::external_body]
pub(crate) fn json_text(s: &str) -> (r: Value)
    ensures
        json_tree(r) == JsonTree::Text(s@),
{
    Value::from(s)
}

/// `serde_json::Value::from` on a vector: the JSON array of its values, in
/// their order.
#[verifier::external_body]
pub(crate) fn json_list(items: Vec<Value>) -> (r: Value)
    ensures
        json_tree(r) == JsonTree::List(json_trees(items@)),
{
    Value::from(items)
}

/// `serde_json::Map::new`: the object without members.
#[verifier::external_body]
pub(crate) fn json_object() -> (r: Value)
    ensures
        json_tree(r) == JsonTree::Object(Map::empty()),
{
    Value::Object(serde_json::Map::new())
}

/// The `IndexMut` impl of `serde_json::Value` for a string key: on an object,
/// an assignment sets that member and leaves the others as they were.
#[verifier::external_body]
fn json_set(object: &mut Value, key: &str, value: Value)
    requires
        json_tree(*old(object)) is Object,
    ensures
        json_tree(*final(object)) == JsonTree::Object(
            json_tree(*old(object))->Object_0.insert(key@, json_tree(value)),
        ),
{
    object[key] = value;
}

/// The `Clone` impl of `serde_json::Value`: a value that holds the same.
pub assume_specification[ <serde_json::Value as Clone>::clone ](value: &serde_json::Value) -> (r:
    serde_json::Value)
    ensures
        json_tree(r) == json_tree(*value),
;

/// `serde_json::Value::get` with a string key: the member of that name, on an
/// object that has one.
#[verifier::external_body]
pub(crate) fn json_get<'a>(value: &'a Value, key: &str) -> (r: Option<&'a Value>)
    ensures
        match r {
            Some(member) => tree_member(json_tree(*value), key@) == Some(json_tree(*member)),
            None => tree_member(json_tree(*value), key@) is None,
        },
{
    value.get(key)
}

/// `serde_json::Value::as_str`: the characters of a string.
#[verifier::external_body]
pub(crate) fn json_as_str(value: &Value) -> (r: Option<&str>)
    ensures
        match r {
            Some(s) => json_tree(*value) == JsonTree::Text(s@),
            None => !(json_tree(*value) is Text),
        },
{
    value.as_str()
}

/// `serde_json::Value::as_array`: the items of an array.
#[verifier::external_body]
pub(crate) fn json_as_list(value: &Value) -> (r: Option<&Vec<Value>>)
    ensures
        match r {
            Some(items) => json_tree(*value) == JsonTree::List(json_trees(items@)),
            None => !(json_tree(*value) is List),
        },
{
    value.as_array()
}

/// `serde_json::Value::as_i64`: an integer that fits.
#[verifier::external_body]
pub(crate) fn json_as_int(value: &Value) -> (r: Option<i64>)
    ensures
        match r {
            Some(n) => json_tree(*value) == JsonTree::Int(n as int),
            None => json_tree(*value) matches JsonTree::Int(n) ==> !(i64::MIN <= n <= i64::MAX),
        },
{
    value.as_i64()
}

/// `serde_json::Value::is_null`.
#[verifier::external_body]
pub(crate) fn json_is_null(value: &Value) -> (r: bool)
    ensures
        r == (json_tree(*value) == JsonTree::Null),
{
    value.is_null()
}

/// `serde_json::Value::is_object`.
#[verifier::external_body]
pub(crate) fn json_is_object(value: &Value) -> (r: bool)
    ensures
        r == (json_tree(*value) is Object),
{
    value.is_object()
}

/// Whether `text` is what is written for `tree`: its compact JSON text, without
/// a control character; in braces where `tree` is an object; and read back as
/// `tree` where that is a record.
pub open spec fn is_json_of(text: Seq<char>, tree: JsonTree) -> bool {
    &&& text == json_encoding(tree)
    &&& forall|i: int| 0 <= i < text.len() ==> #[trigger] text[i] >= ' '
    &&& tree is Object ==> text.len() >= 2 && text[0] == '{' && text[text.len() - 1] == '}'
    &&& is_record(tree) ==> json_parsed(text) == Some(tree)
}

/// The `Display` impl of `serde_json::Value`, which writes compact JSON, the
/// members of an object in the order of their keys: each control character inside
/// a string is escaped and none is put between the tokens; an object is written
/// in braces; and a record, which has no floating point number and is not nested
/// deeply, reads back as itself.
#[verifier::external_body]
pub(crate) fn json_string(value: &Value) -> (r: String)
    ensures
        r@ == json_encoding(json_tree(*value)),
        is_json_of(r@, json_tree(*value)),
{
    value.to_string()
}

/// `serde_json::from_str`: the value that a JSON text denotes.
#[verifier::external_body]
pub(crate) fn json_parse(text: &str) -> (r: Option<Value>)
    ensures
        match r {
            Some(value) => json_parsed(text@) == Some(json_tree(value)),
            None => json_parsed(text@) is None,
        },
{
    serde_json::from_str(text).ok()
}

/// `object` with the member `key` set to `value`.
pub(crate) fn with(object: Value, key: &str, value: Value) -> (r: Value)
    requires
        json_tree(object) is Object,
    ensures
        json_tree(r) == JsonTree::Object(
            json_tree(object)->Object_0.insert(key@, json_tree(value)),
        ),
{
    let mut out = object;
    json_set(&mut out, key, value);
    out
}

/// A copy of the member `key` of `value`, or `null`.
pub(crate) fn json_index(value: &Value, key: &str) -> (r: Value)
    ensures
        json_tree(r) == tree_index(json_tree(*value), key@),
{
    match json_get(value, key) {
        Some(member) => member.clone(),
        None => json_null(),
    }
}

/// The JSON array of `list`.
pub fn json_texts(list: &Vec<String>) -> (r: Value)
    ensures
        json_tree(r) == text_list(texts(list@)),
{
    let mut items: Vec<Value> = Vec::new();
    let mut i: usize = 0;
    while i < list.len()
        invariant
            i <= list.len(),
            items.len() == i,
            forall|k: int| 0 <= k < i ==> json_tree(#[trigger] items@[k]) == JsonTree::Text(
                list@[k]@,
            ),
        decreases list.len() - i,
    {
        items.push(json_text(list[i].as_str()));
        i = i + 1;
    }
    proof {
        assert(json_trees(items@) =~= texts(list@).map_values(|s: Seq<char>| JsonTree::Text(s)));
    }
    json_list(items)
}

/// The JSON array of `list`.
pub fn json_ints(list: &Vec<i64>) -> (r: Value)
    ensures
        json_tree(r) == int_list(list@),
{
    let mut items: Vec<Value> = Vec::new();
    let mut i: usize = 0;
    while i < list.len()
        invariant
            i <= list.len(),
            items.len() == i,
            forall|k: int| 0 <= k < i ==> json_tree(#[trigger] items@[k]) == JsonTree::Int(
                list@[k] as int,
            ),
        decreases list.len() - i,
    {
        items.push(json_int(list[i]));
        i = i + 1;
    }
    proof {
        assert(json_trees(items@) =~= list@.map_values(|n: i64| JsonTree::Int(n as int)));
    }
    json_list(items)
}

/// The JSON string of `s`, or `null`.
pub fn json_optional_text(s: &Option<String>) -> (r: Value)
    ensures
        json_tree(r) == optional_text(optional_view(*s)),
{
    match s {
        Some(text) => json_text(text.as_str()),
        None => json_null(),
    }
}

} // verus!
