//! JSON values of `serde_json`, seen as trees.
use serde_json::{Number, Value};
use vstd::prelude::*;
use vstd::string::*;

use crate::model::frozen::with_entry;
use crate::number::signed_decimal;

verus! {

/// `serde_json::Value`, a JSON value.
#[verifier::external_type_specification]
#[verifier::external_body]
pub struct ExternalValue(serde_json::Value);

/// `serde_json::Number`, a finite JSON number.
#[verifier::external_type_specification]
#[verifier::external_body]
pub struct ExternalNumber(serde_json::Number);

/// `Clone` of `serde_json::Number` gives back the same number.
pub assume_specification[ <serde_json::Number as std::clone::Clone>::clone ](
    number: &serde_json::Number,
) -> (r: serde_json::Number)
    ensures
        r == *number,
;

/// What a JSON value holds. The members of an object stand in the order in
/// which they were added.
pub enum JsonTree {
    /// `null`
    Null,
    /// `true` or `false`
    Bool(bool),
    /// A whole number
    Integer(int),
    /// A number that is held with a fraction
    Number(Number),
    /// A string
    Text(Seq<char>),
    /// An array
    Array(Seq<JsonTree>),
    /// An object
    Object(Seq<(Seq<char>, JsonTree)>),
}

/// The whole number that a JSON number holds; nothing where it is held with a fraction.
pub uninterp spec fn whole_of(number: Number) -> Option<int>;

/// A finite number that is held with a fraction, even where that is zero.
#[derive(Debug, PartialEq)]
pub struct Fraction {
    number: Number,
}

impl View for Fraction {
    type V = Number;

    closed spec fn view(&self) -> Number {
        self.number
    }
}

impl Fraction {
    /// The number is no whole number.
    #[verifier::type_invariant]
    spec fn fractional(self) -> bool {
        whole_of(self.number) is None
    }

    /// The number, unless it is held as a whole number.
    pub fn new(number: Number) -> (r: Option<Fraction>)
        ensures
            match r {
                Some(fraction) => whole_of(number) is None && fraction@ == number,
                None => whole_of(number) is Some,
            },
    {
        if with_fraction(&number) {
            Some(Fraction { number })
        } else {
            None
        }
    }

    /// The number.
    pub fn number(&self) -> (r: &Number)
        ensures
            *r == self@,
            whole_of(*r) is None,
    {
        proof {
            use_type_invariant(self);
        }
        &self.number
    }

    /// Another that is the same.
    pub fn copy(&self) -> (r: Fraction)
        ensures
            r == *self,
    {
        proof {
            use_type_invariant(self);
        }
        Fraction { number: self.number.clone() }
    }
}

/// `serde_json::Number::is_f64`: whether the number is held with a fraction, which is
/// so where it holds no whole number.
#[verifier::external_body]
fn with_fraction(number: &Number) -> (r: bool)
    ensures
        r == (whole_of(*number) is None),
{
    number.is_f64()
}

/// The contents of a JSON value.
pub uninterp spec fn contents(value: Value) -> JsonTree;

/// The compact text of a JSON value.
pub uninterp spec fn compact(tree: JsonTree) -> Seq<char>;

/// The indented text of a JSON value.
pub uninterp spec fn indented(tree: JsonTree) -> Seq<char>;

/// Whether `serde_json::Number` holds two numbers to be equal.
pub uninterp spec fn equal_numbers(a: Number, b: Number) -> bool;

/// Whether two JSON values are equal. The order of the members of an object does not
/// count, and a whole number never equals one that is held with a fraction.
pub open spec fn equal(a: JsonTree, b: JsonTree) -> bool
    decreases a,
{
    match (a, b) {
        (JsonTree::Null, JsonTree::Null) => true,
        (JsonTree::Bool(a), JsonTree::Bool(b)) => a == b,
        (JsonTree::Integer(a), JsonTree::Integer(b)) => a == b,
        (JsonTree::Number(a), JsonTree::Number(b)) => equal_numbers(a, b),
        (JsonTree::Text(a), JsonTree::Text(b)) => a == b,
        (JsonTree::Array(a), JsonTree::Array(b)) => equal_items(a, b),
        (JsonTree::Object(a), JsonTree::Object(b)) => a.len() == b.len() && all_found(a, b),
        _ => false,
    }
}

/// Whether two lists of JSON values are equal, one by one.
pub open spec fn equal_items(a: Seq<JsonTree>, b: Seq<JsonTree>) -> bool
    decreases a,
{
    if a.len() == 0 || b.len() == 0 {
        a.len() == b.len()
    } else {
        equal(a.last(), b.last()) && equal_items(a.drop_last(), b.drop_last())
    }
}

/// Whether each member has an equal one under its key among others.
pub open spec fn all_found(
    members: Seq<(Seq<char>, JsonTree)>,
    others: Seq<(Seq<char>, JsonTree)>,
) -> bool
    decreases members,
{
    members.len() == 0 || match key_index(others, members.last().0) {
        Some(i) => equal(members.last().1, others[i].1) && all_found(members.drop_last(), others),
        None => false,
    }
}

/// A JSON value with the members of every object in the order of their keys.
pub open spec fn key_sorted(tree: JsonTree) -> JsonTree
    decreases tree,
{
    match tree {
        JsonTree::Array(items) => JsonTree::Array(items_key_sorted(items)),
        JsonTree::Object(members) => JsonTree::Object(members_key_sorted(members)),
        _ => tree,
    }
}

/// Each of the JSON values with the members of every object in the order of their keys.
pub open spec fn items_key_sorted(items: Seq<JsonTree>) -> Seq<JsonTree>
    decreases items,
{
    if items.len() == 0 {
        Seq::empty()
    } else {
        items_key_sorted(items.drop_last()).push(key_sorted(items.last()))
    }
}

/// Members in the order of their keys, in their values too.
pub open spec fn members_key_sorted(members: Seq<(Seq<char>, JsonTree)>) -> Seq<
    (Seq<char>, JsonTree),
>
    decreases members,
{
    if members.len() == 0 {
        Seq::empty()
    } else {
        with_entry(
            members_key_sorted(members.drop_last()),
            members.last().0,
            key_sorted(members.last().1),
        )
    }
}

/// The contents of each value of a list.
pub open spec fn all_contents(values: Seq<Value>) -> Seq<JsonTree> {
    values.map_values(|v: Value| contents(v))
}

/// The keys and contents of a list of members.
pub open spec fn member_contents(members: Seq<(String, Value)>) -> Seq<(Seq<char>, JsonTree)> {
    members.map_values(|m: (String, Value)| (m.0@, contents(m.1)))
}

/// Where a key stands among the members.
pub open spec fn key_index(members: Seq<(Seq<char>, JsonTree)>, key: Seq<char>) -> Option<int>
    decreases members.len(),
{
    if members.len() == 0 {
        None
    } else if members.last().0 == key {
        Some(members.len() - 1)
    } else {
        key_index(members.drop_last(), key)
    }
}

/// The members after one more is put in: a member of the same key keeps its
/// place and takes the new value.
pub open spec fn with_member(
    members: Seq<(Seq<char>, JsonTree)>,
    key: Seq<char>,
    value: JsonTree,
) -> Seq<(Seq<char>, JsonTree)> {
    match key_index(members, key) {
        Some(i) => members.update(i, (key, value)),
        None => members.push((key, value)),
    }
}

/// The members put in one after the other.
pub open spec fn collected(pairs: Seq<(Seq<char>, JsonTree)>) -> Seq<(Seq<char>, JsonTree)>
    decreases pairs.len(),
{
    if pairs.len() == 0 {
        Seq::empty()
    } else {
        with_member(collected(pairs.drop_last()), pairs.last().0, pairs.last().1)
    }
}

/// The object with these members.
pub open spec fn object_tree(pairs: Seq<(Seq<char>, JsonTree)>) -> JsonTree {
    JsonTree::Object(collected(pairs))
}

/// No members yet.
pub open spec fn no_members() -> Seq<(Seq<char>, JsonTree)> {
    Seq::empty()
}

/// A string, or `null` where there is none.
pub open spec fn optional_text(text: Option<String>) -> JsonTree {
    match text {
        Some(text) => JsonTree::Text(text@),
        None => JsonTree::Null,
    }
}

/// `serde_json::Value::Null`.
#[verifier::external_body]
pub(crate) fn null_value() -> (r: Value)
    ensures
        contents(r) == JsonTree::Null,
{
    Value::Null
}

/// `serde_json::Value::Bool` of a truth value.
#[verifier::external_body]
pub(crate) fn bool_value(value: bool) -> (r: Value)
    ensures
        contents(r) == JsonTree::Bool(value),
{
    Value::Bool(value)
}

/// `serde_json::Value::from` of a signed integer holds that integer.
#[verifier::external_body]
pub(crate) fn signed_value(value: i64) -> (r: Value)
    ensures
        contents(r) == JsonTree::Integer(value as int),
{
    Value::from(value)
}

/// `serde_json::Value::from` of an unsigned integer holds that integer.
#[verifier::external_body]
pub(crate) fn unsigned_value(value: u64) -> (r: Value)
    ensures
        contents(r) == JsonTree::Integer(value as int),
{
    Value::from(value)
}

/// `serde_json::Value::Number` of a clone of the number. Whether that holds a whole
/// number, and which, depends on the number alone.
#[verifier::external_body]
fn number_value(value: &Number) -> (r: Value)
    ensures
        match whole_of(*value) {
            Some(whole) => contents(r) == JsonTree::Integer(whole),
            None => contents(r) == JsonTree::Number(*value),
        },
{
    Value::Number(value.clone())
}

/// The JSON value of a number with a fraction.
pub(crate) fn fraction_value(value: &Fraction) -> (r: Value)
    ensures
        contents(r) == JsonTree::Number(value@),
{
    number_value(value.number())
}

/// `serde_json::Value::from` of a string holds its characters.
#[verifier::external_body]
pub(crate) fn text_value(value: &str) -> (r: Value)
    ensures
        contents(r) == JsonTree::Text(value@),
{
    Value::from(value)
}

/// `serde_json::Value::Array` holds the values in order.
#[verifier::external_body]
pub(crate) fn array_value(values: Vec<Value>) -> (r: Value)
    ensures
        contents(r) == JsonTree::Array(all_contents(values@)),
{
    Value::Array(values)
}

/// `serde_json::Map` collected from pairs, as a `serde_json::Value::Object`.
/// With the `preserve_order` feature the map keeps the order of insertion; a
/// repeated key keeps its place and takes the later value.
#[verifier::external_body]
pub(crate) fn object_value(members: Vec<(String, Value)>) -> (r: Value)
    ensures
        contents(r) == object_tree(member_contents(members@)),
{
    Value::Object(members.into_iter().collect())
}

/// `Display` of `serde_json::Value`: its compact JSON text, which depends on its
/// contents alone. A whole number is written in decimal.
#[verifier::external_body]
pub(crate) fn compact_text(value: &Value) -> (r: String)
    ensures
        r@ == compact(contents(*value)),
        contents(*value) matches JsonTree::Integer(whole) ==> r@ == signed_decimal(whole),
{
    value.to_string()
}

/// The alternate `Display` of `serde_json::Value`: its indented JSON text, which
/// depends on its contents alone.
#[verifier::external_body]
pub(crate) fn indented_text(value: &Value) -> (r: String)
    ensures
        r@ == indented(contents(*value)),
{
    format!("{value:#}")
}

/// `PartialEq` of `serde_json::Value`: the same variant, and equal contents, where
/// arrays are equal item by item and objects under each key. What it answers of two
/// numbers with a fraction is left to `serde_json::Number`. `Value` is `Eq`, so equal
/// contents are equal.
#[verifier::external_body]
pub(crate) fn equal_values(a: &Value, b: &Value) -> (r: bool)
    ensures
        r == equal(contents(*a), contents(*b)),
        contents(*a) == contents(*b) ==> r,
        contents(*a) is Number && contents(*b) is Number ==> r == equal_numbers(
            contents(*a)->Number_0,
            contents(*b)->Number_0,
        ),
{
    a == b
}

/// `serde_json::Value::sort_all_objects` puts the members of every object in the
/// order of their keys, at every depth. No two members of an object have the same key.
#[verifier::external_body]
pub(crate) fn sort_keys(value: Value) -> (r: Value)
    ensures
        contents(r) == key_sorted(contents(value)),
{
    let mut value = value;
    value.sort_all_objects();
    value
}

/// What `serde_json::from_slice` reads from bytes: the contents of a value, or what
/// it says where they are no JSON.
pub uninterp spec fn parsed(bytes: Seq<u8>) -> std::result::Result<JsonTree, Seq<char>>;

/// `serde_json::from_slice` into a `serde_json::Value`. What it reads, and the text
/// of its error, depend on the bytes alone.
#[verifier::external_body]
pub(crate) fn parse_json(bytes: &[u8]) -> (r: std::result::Result<Value, String>)
    ensures
        match r {
            Ok(value) => parsed(bytes@) == std::result::Result::<JsonTree, Seq<char>>::Ok(
                contents(value),
            ),
            Err(message) => parsed(bytes@) == std::result::Result::<JsonTree, Seq<char>>::Err(
                message@,
            ),
        },
{
    serde_json::from_slice(bytes).map_err(|error| error.to_string())
}

/// The member of an object under a key.
pub open spec fn member(tree: JsonTree, key: Seq<char>) -> Option<JsonTree> {
    match tree {
        JsonTree::Object(members) => match key_index(members, key) {
            Some(i) => Some(members[i].1),
            None => None,
        },
        _ => None,
    }
}

/// `serde_json::Value::get` with a string: the member of an object under that key,
/// and nothing where there is none or the value is no object.
#[verifier::external_body]
pub(crate) fn member_value<'a>(value: &'a Value, key: &str) -> (r: Option<&'a Value>)
    ensures
        match r {
            Some(inner) => member(contents(*value), key@) == Some(contents(*inner)),
            None => member(contents(*value), key@) is None,
        },
{
    value.get(key)
}

/// `serde_json::Value::as_array`: the items of an array, and nothing where the value
/// is something else.
#[verifier::external_body]
pub(crate) fn array_items(value: &Value) -> (r: Option<&Vec<Value>>)
    ensures
        match r {
            Some(items) => contents(*value) == JsonTree::Array(all_contents(items@)),
            None => !(contents(*value) is Array),
        },
{
    value.as_array()
}

/// `serde_json::Value::as_str`: the text of a string, and nothing where the value is
/// something else.
#[verifier::external_body]
pub(crate) fn value_text(value: &Value) -> (r: Option<&str>)
    ensures
        match r {
            Some(text) => contents(*value) == JsonTree::Text(text@),
            None => !(contents(*value) is Text),
        },
{
    value.as_str()
}

/// Adds a member at the end.
pub(crate) fn put(members: &mut Vec<(String, Value)>, key: &str, value: Value)
    ensures
        member_contents(final(members)@) == member_contents(old(members)@).push(
            (key@, contents(value)),
        ),
{
    members.push((key.to_owned(), value));
    assert(member_contents(members@) =~= member_contents(old(members)@).push(
        (key@, contents(value)),
    ));
}

/// No members yet.
pub(crate) fn members() -> (r: Vec<(String, Value)>)
    ensures
        member_contents(r@) == no_members(),
{
    let r: Vec<(String, Value)> = Vec::new();
    assert(member_contents(r@) =~= no_members());
    r
}

/// The JSON strings of a list of strings.
pub open spec fn text_trees(list: Seq<String>) -> Seq<JsonTree> {
    list.map_values(|s: String| JsonTree::Text(s@))
}

/// The JSON array of a list of strings.
pub(crate) fn texts_value(list: &Vec<String>) -> (r: Value)
    ensures
        contents(r) == JsonTree::Array(text_trees(list@)),
{
    let mut values: Vec<Value> = Vec::new();
    let mut i: usize = 0;
    while i < list.len()
        invariant
            0 <= i <= list@.len(),
            all_contents(values@) == text_trees(list@).take(i as int),
        decreases list@.len() - i,
    {
        let ghost held = values@;
        let next = text_value(list[i].as_str());
        values.push(next);
        assert(all_contents(values@) =~= all_contents(held).push(contents(next)));
        assert(text_trees(list@).take(i + 1) =~= text_trees(list@).take(i as int).push(
            JsonTree::Text(list@[i as int]@),
        ));
        i += 1;
    }
    assert(text_trees(list@).take(list@.len() as int) =~= text_trees(list@));
    array_value(values)
}

/// The JSON string of optional text, or `null`.
pub(crate) fn optional_value(text: &Option<String>) -> (r: Value)
    ensures
        contents(r) == optional_text(*text),
{
    match text {
        Some(text) => text_value(text.as_str()),
        None => null_value(),
    }
}

} // verus!
