//! JSON values as the protocol uses them, and the bridge to `serde_json`.

use crate::text::same_text;
use vstd::prelude::*;

verus! {

/// `serde_json::Value`, opaque: what it holds is `value_tree`.
#[verifier::external_type_specification]
#[verifier::external_body]
pub struct ExJsonValue(serde_json::Value);

/// `serde_json::Number`, opaque and never looked into.
#[verifier::external_type_specification]
#[verifier::external_body]
pub struct ExJsonNumber(serde_json::Number);

/// A number that is no unsigned 64-bit integer, carried through unread.
pub struct OtherNumber {
    number: serde_json::Number,
}

/// A JSON value.
pub enum Json {
    Null,
    Bool(bool),
    Unsigned(u64),
    Number(OtherNumber),
    Text(String),
    Array(Vec<Json>),
    Object(Vec<(String, Json)>),
}

/// What a JSON value means: the order of an object's members does not count, and of
/// two members with one key the later one does.
pub ghost enum JsonTree {
    Null,
    Bool(bool),
    Unsigned(u64),
    Number(OtherNumber),
    Text(Seq<char>),
    Array(Seq<JsonTree>),
    Object(Map<Seq<char>, JsonTree>),
}

impl Json {
    pub open spec fn tree(&self) -> JsonTree
        decreases self,
    {
        match self {
            Json::Null => JsonTree::Null,
            Json::Bool(b) => JsonTree::Bool(*b),
            Json::Unsigned(n) => JsonTree::Unsigned(*n),
            Json::Number(n) => JsonTree::Number(*n),
            Json::Text(s) => JsonTree::Text(s@),
            Json::Array(items) => JsonTree::Array(elements(items@)),
            Json::Object(fields) => JsonTree::Object(members(fields@)),
        }
    }
}

impl View for Json {
    type V = JsonTree;

    open spec fn view(&self) -> JsonTree {
        self.tree()
    }
}

pub open spec fn elements(items: Seq<Json>) -> Seq<JsonTree>
    decreases items,
{
    Seq::new(items.len(), |i: int| if 0 <= i < items.len() { items[i].tree() } else { JsonTree::Null })
}

pub open spec fn members(fields: Seq<(String, Json)>) -> Map<Seq<char>, JsonTree>
    decreases fields,
{
    if fields.len() == 0 {
        Map::empty()
    } else {
        members(fields.drop_last()).insert(fields.last().0@, fields.last().1.tree())
    }
}

/// The tree that a `serde_json::Value` holds.
pub uninterp spec fn value_tree(value: serde_json::Value) -> JsonTree;

/// What `serde_json::from_str` reads in a text; `None` where the text is no JSON.
pub uninterp spec fn json_parsed(text: Seq<char>) -> Option<JsonTree>;

/// The compact text that `serde_json` writes for a value with this tree.
pub uninterp spec fn json_text(tree: JsonTree) -> Seq<char>;

/// One level of a `serde_json::Value`.
enum Shape {
    Null,
    Bool(bool),
    Unsigned(u64),
    Number(OtherNumber),
    Text(String),
    Array(Vec<serde_json::Value>),
    Object(Vec<(String, serde_json::Value)>),
}

spec fn value_elements(items: Seq<serde_json::Value>) -> Seq<JsonTree> {
    Seq::new(items.len(), |i: int| value_tree(items[i]))
}

spec fn value_members(fields: Seq<(String, serde_json::Value)>) -> Map<
    Seq<char>,
    JsonTree,
>
    decreases fields.len(),
{
    if fields.len() == 0 {
        Map::empty()
    } else {
        value_members(fields.drop_last()).insert(fields.last().0@, value_tree(fields.last().1))
    }
}

spec fn distinct_keys<V>(fields: Seq<(String, V)>) -> bool {
    forall|i: int, j: int| 0 <= i < j < fields.len() ==> fields[i].0@ != fields[j].0@
}

impl Shape {
    spec fn tree(&self) -> JsonTree {
        match self {
            Shape::Null => JsonTree::Null,
            Shape::Bool(b) => JsonTree::Bool(*b),
            Shape::Unsigned(n) => JsonTree::Unsigned(*n),
            Shape::Number(n) => JsonTree::Number(*n),
            Shape::Text(s) => JsonTree::Text(s@),
            Shape::Array(items) => JsonTree::Array(value_elements(items@)),
            Shape::Object(fields) => JsonTree::Object(value_members(fields@)),
        }
    }
}

/// `serde_json::from_str::<Value>`: the value that a text denotes, or nothing where the
/// text is no JSON document. Both depend on the text alone.
#[verifier::external_body]
fn parse_value(text: &str) -> (r: Option<serde_json::Value>)
    ensures
        r is Some <==> json_parsed(text@) is Some,
        r matches Some(value) ==> json_parsed(text@) == Some(value_tree(value)),
{
    serde_json::from_str::<serde_json::Value>(text).ok()
}

/// Takes a `serde_json::Value` apart by its variants, one level deep. A number is
/// unsigned exactly if `Number::as_u64` gives it; an object's keys are distinct.
#[verifier::external_body]
fn open_value(value: serde_json::Value) -> (r: Shape)
    ensures
        r.tree() == value_tree(value),
        r matches Shape::Object(fields) ==> distinct_keys(fields@),
{
    match value {
        serde_json::Value::Null => Shape::Null,
        serde_json::Value::Bool(b) => Shape::Bool(b),
        serde_json::Value::Number(number) => match number.as_u64() {
            Some(n) => Shape::Unsigned(n),
            None => Shape::Number(OtherNumber { number }),
        },
        serde_json::Value::String(s) => Shape::Text(s),
        serde_json::Value::Array(items) => Shape::Array(items),
        serde_json::Value::Object(fields) => Shape::Object(fields.into_iter().collect()),
    }
}

/// Builds the `serde_json::Value` of a given shape, the converse of `open_value`.
#[verifier::external_body]
fn close_value(shape: Shape) -> (r: serde_json::Value)
    requires
        shape matches Shape::Object(fields) ==> distinct_keys(fields@),
    ensures
        value_tree(r) == shape.tree(),
{
    match shape {
        Shape::Null => serde_json::Value::Null,
        Shape::Bool(b) => serde_json::Value::Bool(b),
        Shape::Unsigned(n) => serde_json::Value::from(n),
        Shape::Number(n) => serde_json::Value::Number(n.number),
        Shape::Text(s) => serde_json::Value::String(s),
        Shape::Array(items) => serde_json::Value::Array(items),
        Shape::Object(fields) => serde_json::Value::Object(fields.into_iter().collect()),
    }
}

/// `serde_json::Value`'s `Display`: the compact text of a value, which depends on what
/// the value holds alone (an object's members are written in the order of their keys).
#[verifier::external_body]
fn value_text(value: &serde_json::Value) -> (r: String)
    ensures
        r@ == json_text(value_tree(*value)),
{
    value.to_string()
}

proof fn lemma_value_members(fields: Seq<(String, serde_json::Value)>, i: int)
    requires
        distinct_keys(fields),
        0 <= i < fields.len(),
    ensures
        value_members(fields).dom().finite(),
        value_members(fields).dom().contains(fields[i].0@),
        value_members(fields)[fields[i].0@] == value_tree(fields[i].1),
    decreases fields.len(),
{
    lemma_value_members_finite(fields);
    if i < fields.len() - 1 {
        assert(fields.drop_last()[i] == fields[i]);
        lemma_value_members(fields.drop_last(), i);
    }
}

proof fn lemma_value_members_finite(fields: Seq<(String, serde_json::Value)>)
    ensures
        value_members(fields).dom().finite(),
    decreases fields.len(),
{
    if fields.len() > 0 {
        lemma_value_members_finite(fields.drop_last());
    }
}

/// Reads a `serde_json::Value` into the library's own type.
fn json_of(value: serde_json::Value) -> (r: Json)
    ensures
        r@ == value_tree(value),
    decreases value_tree(value),
{
    match open_value(value) {
        Shape::Null => Json::Null,
        Shape::Bool(b) => Json::Bool(b),
        Shape::Unsigned(n) => Json::Unsigned(n),
        Shape::Number(n) => Json::Number(n),
        Shape::Text(s) => Json::Text(s),
        Shape::Array(mut rest) => {
            let ghost all = rest@;
            let mut items: Vec<Json> = Vec::new();
            while rest.len() > 0
                invariant
                    value_tree(value) == JsonTree::Array(value_elements(all)),
                    rest.len() + items.len() == all.len(),
                    rest@ == all.skip(items.len() as int),
                    forall|i: int| 0 <= i < items.len() ==> items[i]@ == value_tree(all[i]),
                decreases rest.len(),
            {
                let item = rest.remove(0);
                proof {
                    let tree = value_tree(value);
                    assert(tree->Array_0[items.len() as int] == value_tree(item));
                    assert(decreases_to!(tree => tree->Array_0));
                    assert(decreases_to!(tree->Array_0 => tree->Array_0[items.len() as int]));
                }
                items.push(json_of(item));
            }
            proof {
                assert(elements(items@) =~= value_elements(all));
            }
            Json::Array(items)
        },
        Shape::Object(mut rest) => {
            let ghost all = rest@;
            let mut fields: Vec<(String, Json)> = Vec::new();
            while rest.len() > 0
                invariant
                    value_tree(value) == JsonTree::Object(value_members(all)),
                    distinct_keys(all),
                    rest.len() + fields.len() == all.len(),
                    rest@ == all.skip(fields.len() as int),
                    members(fields@) == value_members(all.take(fields.len() as int)),
                decreases rest.len(),
            {
                let ghost k = fields.len() as int;
                let (key, item) = rest.remove(0);
                proof {
                    lemma_value_members(all, k);
                    let tree = value_tree(value);
                    assert(tree->Object_0[key@] == value_tree(item));
                    assert(decreases_to!(tree => tree->Object_0));
                    assert(decreases_to!(tree->Object_0 => tree->Object_0[key@]));
                    assert(all.take(k + 1).drop_last() =~= all.take(k));
                }
                let field = (key, json_of(item));
                let ghost before = fields@;
                fields.push(field);
                proof {
                    assert(fields@.drop_last() =~= before);
                    assert(all.take(k + 1).last() == all[k]);
                    assert(members(fields@) == value_members(all.take(k + 1)));
                }
            }
            proof {
                assert(all.take(fields.len() as int) =~= all);
            }
            Json::Object(fields)
        },
    }
}

/// Sets a member, in place of an earlier one with its key.
fn put_member(fields: &mut Vec<(String, serde_json::Value)>, key: String, value: serde_json::Value)
    requires
        distinct_keys(old(fields)@),
    ensures
        distinct_keys(final(fields)@),
        value_members(final(fields)@) == value_members(old(fields)@).insert(
            key@,
            value_tree(value),
        ),
{
    let mut i: usize = 0;
    while i < fields.len()
        invariant
            i <= fields.len(),
            fields@ == old(fields)@,
            distinct_keys(fields@),
            forall|j: int| 0 <= j < i ==> fields[j].0@ != key@,
        decreases fields.len() - i,
    {
        if fields[i].0 == key {
            let ghost before = fields@;
            fields.remove(i);
            proof {
                lemma_value_members_remove(before, i as int);
                assert(fields@.push((key, value)).drop_last() =~= fields@);
                assert(value_members(before).remove(key@).insert(key@, value_tree(value))
                    =~= value_members(before).insert(key@, value_tree(value)));
            }
            let field = (key, value);
            fields.push(field);
            return ;
        }
        i = i + 1;
    }
    proof {
        assert(fields@.push((key, value)).drop_last() =~= fields@);
    }
    let field = (key, value);
    fields.push(field);
}

proof fn lemma_value_members_absent(fields: Seq<(String, serde_json::Value)>, key: Seq<char>)
    requires
        forall|i: int| 0 <= i < fields.len() ==> fields[i].0@ != key,
    ensures
        !value_members(fields).dom().contains(key),
    decreases fields.len(),
{
    if fields.len() > 0 {
        lemma_value_members_absent(fields.drop_last(), key);
    }
}

proof fn lemma_value_members_remove(fields: Seq<(String, serde_json::Value)>, i: int)
    requires
        distinct_keys(fields),
        0 <= i < fields.len(),
    ensures
        value_members(fields.remove(i)) == value_members(fields).remove(fields[i].0@),
    decreases fields.len(),
{
    let key = fields[i].0@;
    if i == fields.len() - 1 {
        assert(fields.remove(i) =~= fields.drop_last());
        lemma_value_members_absent(fields.drop_last(), key);
        assert(value_members(fields).remove(key) =~= value_members(fields.drop_last()));
    } else {
        let front = fields.drop_last();
        assert(front[i] == fields[i]);
        lemma_value_members_remove(front, i);
        assert(fields.remove(i).drop_last() =~= front.remove(i));
        assert(fields.remove(i).last() == fields.last());
        assert(value_members(fields.remove(i)) =~= value_members(fields).remove(key));
    }
}

/// Builds the `serde_json::Value` that a JSON value stands for.
fn value_of(json: Json) -> (r: serde_json::Value)
    ensures
        value_tree(r) == json@,
    decreases json,
{
    match json {
        Json::Null => close_value(Shape::Null),
        Json::Bool(b) => close_value(Shape::Bool(b)),
        Json::Unsigned(n) => close_value(Shape::Unsigned(n)),
        Json::Number(n) => close_value(Shape::Number(n)),
        Json::Text(s) => close_value(Shape::Text(s)),
        Json::Array(mut rest) => {
            let ghost all = rest@;
            let mut items: Vec<serde_json::Value> = Vec::new();
            while rest.len() > 0
                invariant
                    json matches Json::Array(list) && list@ == all,
                    rest.len() + items.len() == all.len(),
                    rest@ == all.skip(items.len() as int),
                    forall|i: int| 0 <= i < items.len() ==> value_tree(items[i]) == all[i]@,
                decreases rest.len(),
            {
                let item = rest.remove(0);
                proof {
                    let list = json->Array_0;
                    assert(item == list@[items.len() as int]);
                    assert(decreases_to!(json => list));
                    assert(decreases_to!(list => list@));
                    assert(decreases_to!(list@ => list@[items.len() as int]));
                }
                items.push(value_of(item));
            }
            proof {
                assert(value_elements(items@) =~= elements(all));
            }
            close_value(Shape::Array(items))
        },
        Json::Object(mut rest) => {
            let ghost all = rest@;
            let mut fields: Vec<(String, serde_json::Value)> = Vec::new();
            let ghost mut k: int = 0;
            while rest.len() > 0
                invariant
                    json matches Json::Object(list) && list@ == all,
                    rest.len() + k == all.len(),
                    k >= 0,
                    rest@ == all.skip(k),
                    distinct_keys(fields@),
                    value_members(fields@) == members(all.take(k)),
                decreases rest.len(),
            {
                let (key, item) = rest.remove(0);
                proof {
                    let list = json->Object_0;
                    assert(list@[k] == (key, item));
                    assert(decreases_to!(json => list));
                    assert(decreases_to!(list => list@));
                    assert(decreases_to!(list@ => list@[k]));
                    assert(decreases_to!(list@[k] => list@[k].1));
                    assert(all.take(k + 1).drop_last() =~= all.take(k));
                    k = k + 1;
                }
                let value = value_of(item);
                put_member(&mut fields, key, value);
            }
            proof {
                assert(all.take(k) =~= all);
            }
            close_value(Shape::Object(fields))
        },
    }
}

/// Reads a JSON text.
pub fn parse(text: &str) -> (r: Option<Json>)
    ensures
        r is Some <==> json_parsed(text@) is Some,
        r matches Some(json) ==> json_parsed(text@) == Some(json@),
{
    match parse_value(text) {
        Some(value) => Some(json_of(value)),
        None => None,
    }
}

/// Writes a JSON value as compact text.
pub fn render(json: Json) -> (r: String)
    ensures
        r@ == json_text(json@),
{
    value_text(&value_of(json))
}

impl JsonTree {
    /// The member of an object under `key`.
    pub open spec fn field(self, key: Seq<char>) -> Option<JsonTree> {
        match self {
            JsonTree::Object(map) if map.dom().contains(key) => Some(map[key]),
            _ => None,
        }
    }

    pub open spec fn text(self) -> Option<Seq<char>> {
        match self {
            JsonTree::Text(s) => Some(s),
            _ => None,
        }
    }

    pub open spec fn boolean(self) -> Option<bool> {
        match self {
            JsonTree::Bool(b) => Some(b),
            _ => None,
        }
    }

    pub open spec fn unsigned(self) -> Option<u64> {
        match self {
            JsonTree::Unsigned(n) => Some(n),
            _ => None,
        }
    }

    pub open spec fn array(self) -> Option<Seq<JsonTree>> {
        match self {
            JsonTree::Array(items) => Some(items),
            _ => None,
        }
    }

    /// The text under `key`.
    pub open spec fn text_field(self, key: Seq<char>) -> Option<Seq<char>> {
        match self.field(key) {
            Some(tree) => tree.text(),
            None => None,
        }
    }
}

/// A member of an object, seen from its place in the list.
proof fn lemma_members(fields: Seq<(String, Json)>, i: int)
    requires
        0 <= i < fields.len(),
        forall|j: int| i < j < fields.len() ==> fields[j].0@ != fields[i].0@,
    ensures
        members(fields).dom().contains(fields[i].0@),
        members(fields)[fields[i].0@] == fields[i].1@,
    decreases fields.len(),
{
    if i < fields.len() - 1 {
        assert(fields.drop_last()[i] == fields[i]);
        assert(fields.last() == fields[fields.len() - 1]);
        lemma_members(fields.drop_last(), i);
    }
}

proof fn lemma_members_absent(fields: Seq<(String, Json)>, key: Seq<char>)
    requires
        forall|i: int| 0 <= i < fields.len() ==> fields[i].0@ != key,
    ensures
        !members(fields).dom().contains(key),
    decreases fields.len(),
{
    if fields.len() > 0 {
        lemma_members_absent(fields.drop_last(), key);
    }
}

/// Sets a member of an object that is being built.
pub fn put(fields: &mut Vec<(String, Json)>, key: &str, value: Json)
    ensures
        members(final(fields)@) == members(old(fields)@).insert(key@, value@),
{
    let field = (key.to_owned(), value);
    let ghost before = fields@;
    fields.push(field);
    proof {
        assert(fields@.drop_last() =~= before);
    }
}

/// The place of the member that counts for `key`.
fn position(fields: &Vec<(String, Json)>, key: &str) -> (r: Option<usize>)
    ensures
        match r {
            Some(i) => {
                &&& i < fields.len()
                &&& members(fields@).dom().contains(key@)
                &&& members(fields@)[key@] == fields[i as int].1@
            },
            None => !members(fields@).dom().contains(key@),
        },
{
    let mut i: usize = fields.len();
    while i > 0
        invariant
            i <= fields.len(),
            forall|j: int| i <= j < fields.len() ==> fields[j].0@ != key@,
        decreases i,
    {
        i = i - 1;
        if same_text(fields[i].0.as_str(), key) {
            proof {
                lemma_members(fields@, i as int);
            }
            return Some(i);
        }
    }
    proof {
        lemma_members_absent(fields@, key@);
    }
    None
}

impl Json {
    /// The member of an object under `key`.
    pub fn get(&self, key: &str) -> (r: Option<&Json>)
        ensures
            r is Some <==> self@.field(key@) is Some,
            r matches Some(json) ==> self@.field(key@) == Some(json@),
    {
        match self {
            Json::Object(fields) => match position(fields, key) {
                Some(i) => Some(&fields[i].1),
                None => None,
            },
            _ => None,
        }
    }

    /// The member of an object under `key`, taken out.
    pub fn take(self, key: &str) -> (r: Option<Json>)
        ensures
            r is Some <==> self@.field(key@) is Some,
            r matches Some(json) ==> self@.field(key@) == Some(json@),
    {
        match self {
            Json::Object(mut fields) => match position(&fields, key) {
                Some(i) => {
                    let (_, json) = fields.swap_remove(i);
                    Some(json)
                },
                None => None,
            },
            _ => None,
        }
    }

    pub fn as_str(&self) -> (r: Option<&str>)
        ensures
            r is Some <==> self@.text() is Some,
            r matches Some(s) ==> self@.text() == Some(s@),
    {
        match self {
            Json::Text(s) => Some(s.as_str()),
            _ => None,
        }
    }

    pub fn as_bool(&self) -> (r: Option<bool>)
        ensures
            r == self@.boolean(),
    {
        match self {
            Json::Bool(b) => Some(*b),
            _ => None,
        }
    }

    pub fn as_u64(&self) -> (r: Option<u64>)
        ensures
            r == self@.unsigned(),
    {
        match self {
            Json::Unsigned(n) => Some(*n),
            _ => None,
        }
    }

    pub fn as_array(&self) -> (r: Option<&Vec<Json>>)
        ensures
            r is Some <==> self@.array() is Some,
            r matches Some(items) ==> self@.array() == Some(elements(items@)),
    {
        match self {
            Json::Array(items) => Some(items),
            _ => None,
        }
    }

    /// The text under `key`.
    pub fn get_str(&self, key: &str) -> (r: Option<&str>)
        ensures
            r is Some <==> self@.text_field(key@) is Some,
            r matches Some(s) ==> self@.text_field(key@) == Some(s@),
    {
        match self.get(key) {
            Some(json) => json.as_str(),
            None => None,
        }
    }
}

/// Only an object has members, and those of an object are the ones that it was given.
pub proof fn law_members_of_objects(map: Map<Seq<char>, JsonTree>, tree: JsonTree, key: Seq<char>)
    ensures
        map.dom().contains(key) ==> JsonTree::Object(map).field(key) == Some(map[key]),
        !map.dom().contains(key) ==> JsonTree::Object(map).field(key) is None,
        !(tree is Object) ==> tree.field(key) is None,
{
}

/// A value is read as what it is and as nothing else.
pub proof fn law_values_are_what_they_are(
    tree: JsonTree,
    text: Seq<char>,
    truth: bool,
    number: u64,
    items: Seq<JsonTree>,
)
    ensures
        tree.text() == Some(text) <==> tree == JsonTree::Text(text),
        tree.boolean() == Some(truth) <==> tree == JsonTree::Bool(truth),
        tree.unsigned() == Some(number) <==> tree == JsonTree::Unsigned(number),
        tree.array() == Some(items) <==> tree == JsonTree::Array(items),
{
}

/// The text under a key is a member that is text.
pub proof fn law_text_members(tree: JsonTree, key: Seq<char>, text: Seq<char>)
    ensures
        tree.text_field(key) == Some(text) <==> tree.field(key) == Some(JsonTree::Text(text)),
{
}

/// An object that is given one more member has that member, in place of an earlier one
/// with its key, and keeps all others.
pub proof fn law_later_member_counts(fields: Seq<(String, Json)>, field: (String, Json), key: Seq<char>)
    ensures
        members(fields.push(field)).dom().contains(field.0@),
        members(fields.push(field))[field.0@] == field.1@,
        key != field.0@ ==> members(fields.push(field)).dom().contains(key) == members(
            fields,
        ).dom().contains(key),
        key != field.0@ && members(fields).dom().contains(key) ==> members(
            fields.push(field),
        )[key] == members(fields)[key],
{
    assert(fields.push(field).drop_last() =~= fields);
}

/// A list is taken element by element, and a value by its kind and content.
pub proof fn law_values_by_content(json: Json, items: Seq<Json>, i: int)
    ensures
        elements(items).len() == items.len(),
        0 <= i < items.len() ==> elements(items)[i] == items[i]@,
        json is Null <==> json@ is Null,
        json matches Json::Bool(b) ==> json@ == JsonTree::Bool(b),
        json matches Json::Unsigned(n) ==> json@ == JsonTree::Unsigned(n),
        json matches Json::Number(n) ==> json@ == JsonTree::Number(n),
        json matches Json::Text(s) ==> json@ == JsonTree::Text(s@),
        json matches Json::Array(list) ==> json@ == JsonTree::Array(elements(list@)),
        json matches Json::Object(list) ==> json@ == JsonTree::Object(members(list@)),
{
}

} // verus!
