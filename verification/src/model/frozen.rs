//! Owned values that cross the boundary to configuration code.
use serde_json::Value;
use vstd::prelude::*;
use vstd::string::*;

use crate::error::{fails_with, Problem, Result, WombatError};
use crate::json::{
    all_contents, array_value, bool_value, collected, contents, fraction_value, key_index,
    member_contents, null_value, object_tree, object_value, signed_value, text_value, Fraction,
    JsonTree,
};
use crate::order::{
    ascending, before, lemma_asymmetric, lemma_total, lemma_transitive, precedes,
};
use crate::text::{cat3, same};

verus! {

/// A value of the configuration, owned and free of cycles.
#[derive(Debug, PartialEq)]
pub enum FrozenValue {
    /// Nothing
    Null,
    /// A truth value
    Boolean(bool),
    /// A whole number
    Integer(i64),
    /// A finite number with a fraction
    Number(Fraction),
    /// Text
    String(String),
    /// An array
    Array(Vec<FrozenValue>),
    /// A map, its entries in the order of their keys
    Table(Vec<(String, FrozenValue)>),
}

impl FrozenValue {
    /// The JSON form of the value.
    pub open spec fn tree(self) -> JsonTree
        decreases self,
    {
        match self {
            FrozenValue::Null => JsonTree::Null,
            FrozenValue::Boolean(value) => JsonTree::Bool(value),
            FrozenValue::Integer(value) => JsonTree::Integer(value as int),
            FrozenValue::Number(value) => JsonTree::Number(value@),
            FrozenValue::String(value) => JsonTree::Text(value@),
            FrozenValue::Array(items) => JsonTree::Array(item_trees(items@)),
            FrozenValue::Table(entries) => object_tree(entry_trees(entries@)),
        }
    }
}

/// The JSON forms of a list of values.
pub open spec fn item_trees(items: Seq<FrozenValue>) -> Seq<JsonTree>
    decreases items,
{
    if items.len() == 0 {
        Seq::empty()
    } else {
        item_trees(items.drop_last()).push(items.last().tree())
    }
}

/// The keys and JSON forms of the entries of a map.
pub open spec fn entry_trees(entries: Seq<(String, FrozenValue)>) -> Seq<(Seq<char>, JsonTree)>
    decreases entries,
{
    if entries.len() == 0 {
        Seq::empty()
    } else {
        entry_trees(entries.drop_last()).push((entries.last().0@, entries.last().1.tree()))
    }
}

proof fn lemma_item_trees(items: Seq<FrozenValue>, count: int)
    requires
        0 <= count < items.len(),
    ensures
        item_trees(items.take(count + 1)) == item_trees(items.take(count)).push(
            items[count].tree(),
        ),
{
    assert(items.take(count + 1).drop_last() =~= items.take(count));
}

proof fn lemma_entry_trees(entries: Seq<(String, FrozenValue)>, count: int)
    requires
        0 <= count < entries.len(),
    ensures
        entry_trees(entries.take(count + 1)) == entry_trees(entries.take(count)).push(
            (entries[count].0@, entries[count].1.tree()),
        ),
{
    assert(entries.take(count + 1).drop_last() =~= entries.take(count));
}

/// The JSON value of a frozen value.
pub(crate) fn frozen_value(value: &FrozenValue) -> (r: Value)
    ensures
        contents(r) == value.tree(),
    decreases *value,
{
    match value {
        FrozenValue::Null => null_value(),
        FrozenValue::Boolean(value) => bool_value(*value),
        FrozenValue::Integer(value) => signed_value(*value),
        FrozenValue::Number(value) => fraction_value(value),
        FrozenValue::String(value) => text_value(value.as_str()),
        FrozenValue::Array(items) => {
            let mut values: Vec<Value> = Vec::new();
            let mut i: usize = 0;
            assert(all_contents(values@) =~= item_trees(items@.take(0)));
            while i < items.len()
                invariant
                    0 <= i <= items@.len(),
                    *value == FrozenValue::Array(*items),
                    all_contents(values@) == item_trees(items@.take(i as int)),
                decreases items@.len() - i,
            {
                assert(decreases_to!(*value => value->Array_0));
                assert(decreases_to!(value->Array_0 => value->Array_0@));
                assert(decreases_to!(items@ => items@[i as int]));
                let next = frozen_value(&items[i]);
                let ghost held = values@;
                values.push(next);
                proof {
                    lemma_item_trees(items@, i as int);
                    assert(all_contents(values@) =~= all_contents(held).push(contents(next)));
                }
                i += 1;
            }
            assert(items@.take(items@.len() as int) =~= items@);
            array_value(values)
        },
        FrozenValue::Table(entries) => {
            let mut members: Vec<(String, Value)> = Vec::new();
            let mut i: usize = 0;
            assert(member_contents(members@) =~= entry_trees(entries@.take(0)));
            while i < entries.len()
                invariant
                    0 <= i <= entries@.len(),
                    *value == FrozenValue::Table(*entries),
                    member_contents(members@) == entry_trees(entries@.take(i as int)),
                decreases entries@.len() - i,
            {
                assert(decreases_to!(entries@[i as int] => entries@[i as int].1));
                assert(decreases_to!(*value => value->Table_0));
                assert(decreases_to!(value->Table_0 => value->Table_0@));
                assert(decreases_to!(entries@ => entries@[i as int]));
                let next = frozen_value(&entries[i].1);
                let ghost held = members@;
                members.push((entries[i].0.clone(), next));
                proof {
                    lemma_entry_trees(entries@, i as int);
                    assert(member_contents(members@) =~= member_contents(held).push(
                        (entries@[i as int].0@, contents(next)),
                    ));
                }
                i += 1;
            }
            assert(entries@.take(entries@.len() as int) =~= entries@);
            object_value(members)
        },
    }
}

/// A value of the Lua state, its tables by their place in the heap.
#[derive(Debug, PartialEq)]
pub enum LuaValue {
    /// `nil`
    Nil,
    /// A truth value
    Boolean(bool),
    /// A whole number
    Integer(i64),
    /// A finite number with a fraction
    Number(Fraction),
    /// A number that is not finite
    NotFinite,
    /// A string of UTF-8 text
    Text(String),
    /// A string of other bytes, with what decoding it says
    Undecodable(String),
    /// A table
    Table(usize),
    /// The null pointer that stands for an absent value
    NullPointer,
    /// A value of another type, by the name of that type
    Other(String),
}

/// A table of the Lua state.
#[derive(Debug, PartialEq)]
pub struct LuaTable {
    /// Its keys and values, in the order of iteration
    pub pairs: Vec<(LuaValue, LuaValue)>,
    /// Whether its metatable marks it as an array
    pub marked_array: bool,
}

/// The tables of a Lua state.
#[derive(Debug, PartialEq)]
pub struct LuaHeap {
    /// The tables
    pub tables: Vec<LuaTable>,
}

/// Why a Lua value cannot be frozen.
pub enum FreezeProblem {
    /// A number is not finite
    NotFinite,
    /// A string is not UTF-8
    Undecodable(Seq<char>),
    /// A value is of a type that cannot cross
    Unsupported(Seq<char>),
    /// A table holds itself
    Cyclic,
    /// A table is neither an array nor a map
    Mixed,
    /// An array has a key that is no positive integer
    ArrayKeys,
    /// An array has a gap
    Sparse,
    /// An array has more items than can be counted
    TooLarge,
}

/// What freezing a Lua value should give.
pub enum Frozen {
    /// A value with this JSON form
    Value(JsonTree),
    /// An error
    Refused(FreezeProblem),
}

/// What freezing several Lua values should give.
pub enum FrozenItems {
    /// Values with these JSON forms
    Values(Seq<JsonTree>),
    /// The first error
    Refused(FreezeProblem),
}

/// What freezing the entries of a map should give.
pub enum FrozenEntries {
    /// Entries with these keys and JSON forms
    Entries(Seq<(Seq<char>, JsonTree)>),
    /// The first error
    Refused(FreezeProblem),
}

/// How a problem is reported.
pub open spec fn freeze_failure(problem: FreezeProblem) -> Problem {
    match problem {
        FreezeProblem::NotFinite => Problem::Configuration(
            "Lua numbers crossing the native boundary must be finite"@,
        ),
        FreezeProblem::Undecodable(reason) => Problem::Lua(reason),
        FreezeProblem::Unsupported(name) => Problem::Configuration(
            "unsupported Lua "@ + name
                + " value; expected nil, boolean, number, string, array, or string-keyed map"@,
        ),
        FreezeProblem::Cyclic => Problem::Configuration(
            "cyclic Lua tables cannot cross the native boundary"@,
        ),
        FreezeProblem::Mixed => Problem::Configuration(
            "Lua tables crossing the native boundary must be contiguous arrays or string-keyed maps"@,
        ),
        FreezeProblem::ArrayKeys => Problem::Configuration(
            "Lua arrays must contain only contiguous positive integer keys"@,
        ),
        FreezeProblem::Sparse => Problem::Configuration(
            "sparse Lua arrays cannot cross the native boundary"@,
        ),
        FreezeProblem::TooLarge => Problem::Configuration("Lua array is too large to represent"@),
    }
}

/// Why a Lua value cannot be frozen.
pub open spec fn freezing_problem(expected: Frozen) -> Option<Problem> {
    match expected {
        Frozen::Value(_) => None,
        Frozen::Refused(problem) => Some(freeze_failure(problem)),
    }
}

/// How many tables are not open.
pub open spec fn closed_count(open: Seq<bool>) -> nat
    decreases open.len(),
{
    if open.len() == 0 {
        0
    } else {
        closed_count(open.drop_last()) + if open.last() {
            0nat
        } else {
            1
        }
    }
}

/// Opening a table leaves one less closed.
pub proof fn lemma_opening(open: Seq<bool>, table: int)
    requires
        0 <= table < open.len(),
        !open[table],
    ensures
        closed_count(open.update(table, true)) + 1 == closed_count(open),
    decreases open.len(),
{
    let next = open.update(table, true);
    if table == open.len() - 1 {
        assert(next.drop_last() =~= open.drop_last());
    } else {
        assert(next.drop_last() =~= open.drop_last().update(table, true));
        lemma_opening(open.drop_last(), table);
    }
}

/// Whether a key is a positive integer.
pub open spec fn is_index(key: LuaValue) -> bool {
    key matches LuaValue::Integer(index) && index > 0
}

/// Whether a key is a string.
pub open spec fn is_name(key: LuaValue) -> bool {
    key is Text || key is Undecodable
}

/// Where a positive integer key first stands among the pairs.
pub open spec fn index_place(pairs: Seq<(LuaValue, LuaValue)>, index: int, place: int) -> bool {
    &&& 0 <= place < pairs.len()
    &&& pairs[place].0 == LuaValue::Integer(index as i64)
    &&& forall|j: int|
        0 <= j < place ==> (#[trigger] pairs[j]).0 != LuaValue::Integer(index as i64)
}

/// Whether a positive integer key stands among the pairs.
pub open spec fn has_index(pairs: Seq<(LuaValue, LuaValue)>, index: int) -> bool {
    exists|place: int| index_place(pairs, index, place)
}

/// Whether the keys of the pairs are one to their number.
pub open spec fn contiguous(pairs: Seq<(LuaValue, LuaValue)>) -> bool {
    forall|index: int| 1 <= index <= pairs.len() ==> #[trigger] has_index(pairs, index)
}

/// The value under a positive integer key.
pub open spec fn indexed(pairs: Seq<(LuaValue, LuaValue)>, index: int) -> LuaValue {
    pairs[choose|place: int| index_place(pairs, index, place)].1
}

/// The values of an array in the order of their keys.
pub open spec fn array_items(pairs: Seq<(LuaValue, LuaValue)>) -> Seq<LuaValue> {
    Seq::new(pairs.len(), |i: int| indexed(pairs, i + 1))
}

/// The entries after one more is put in: in the order of the keys, an entry of
/// the same key replaced.
pub open spec fn with_entry(
    entries: Seq<(Seq<char>, JsonTree)>,
    key: Seq<char>,
    value: JsonTree,
) -> Seq<(Seq<char>, JsonTree)>
    decreases entries.len(),
{
    if entries.len() == 0 {
        seq![(key, value)]
    } else if precedes(key, entries.last().0) {
        with_entry(entries.drop_last(), key, value).push(entries.last())
    } else if entries.last().0 == key {
        entries.drop_last().push((key, value))
    } else {
        entries.push((key, value))
    }
}

/// What freezing a Lua value gives while the marked tables are being frozen.
pub open spec fn frozen(tables: Seq<LuaTable>, value: LuaValue, open: Seq<bool>) -> Frozen
    decreases closed_count(open), 0nat,
{
    match value {
        LuaValue::Nil => Frozen::Value(JsonTree::Null),
        LuaValue::Boolean(value) => Frozen::Value(JsonTree::Bool(value)),
        LuaValue::Integer(value) => Frozen::Value(JsonTree::Integer(value as int)),
        LuaValue::Number(value) => Frozen::Value(JsonTree::Number(value@)),
        LuaValue::NotFinite => Frozen::Refused(FreezeProblem::NotFinite),
        LuaValue::Text(value) => Frozen::Value(JsonTree::Text(value@)),
        LuaValue::Undecodable(reason) => Frozen::Refused(FreezeProblem::Undecodable(reason@)),
        LuaValue::NullPointer => Frozen::Value(JsonTree::Null),
        LuaValue::Other(name) => Frozen::Refused(FreezeProblem::Unsupported(name@)),
        LuaValue::Table(table) => if table >= open.len() || open[table as int] {
            Frozen::Refused(FreezeProblem::Cyclic)
        } else {
            proof {
                lemma_opening(open, table as int);
            }
            let pairs = tables[table as int].pairs@;
            let inner = open.update(table as int, true);
            if tables[table as int].marked_array || (pairs.len() > 0 && forall|i: int|
                0 <= i < pairs.len() ==> is_index((#[trigger] pairs[i]).0)) {
                if !(forall|i: int| 0 <= i < pairs.len() ==> is_index((#[trigger] pairs[i]).0)) {
                    Frozen::Refused(FreezeProblem::ArrayKeys)
                } else if pairs.len() > i64::MAX {
                    Frozen::Refused(FreezeProblem::TooLarge)
                } else if !contiguous(pairs) {
                    Frozen::Refused(FreezeProblem::Sparse)
                } else {
                    match frozen_items(tables, array_items(pairs), inner) {
                        FrozenItems::Values(items) => Frozen::Value(JsonTree::Array(items)),
                        FrozenItems::Refused(problem) => Frozen::Refused(problem),
                    }
                }
            } else if forall|i: int| 0 <= i < pairs.len() ==> is_name((#[trigger] pairs[i]).0) {
                match frozen_entries(tables, pairs, inner) {
                    FrozenEntries::Entries(entries) => Frozen::Value(object_tree(entries)),
                    FrozenEntries::Refused(problem) => Frozen::Refused(problem),
                }
            } else {
                Frozen::Refused(FreezeProblem::Mixed)
            }
        },
    }
}

/// What freezing Lua values one after the other gives.
pub open spec fn frozen_items(
    tables: Seq<LuaTable>,
    values: Seq<LuaValue>,
    open: Seq<bool>,
) -> FrozenItems
    decreases closed_count(open), values.len() + 1,
{
    if values.len() == 0 {
        FrozenItems::Values(Seq::empty())
    } else {
        match frozen_items(tables, values.drop_last(), open) {
            FrozenItems::Refused(problem) => FrozenItems::Refused(problem),
            FrozenItems::Values(items) => match frozen(tables, values.last(), open) {
                Frozen::Refused(problem) => FrozenItems::Refused(problem),
                Frozen::Value(item) => FrozenItems::Values(items.push(item)),
            },
        }
    }
}

/// What freezing the pairs of a map one after the other gives.
pub open spec fn frozen_entries(
    tables: Seq<LuaTable>,
    pairs: Seq<(LuaValue, LuaValue)>,
    open: Seq<bool>,
) -> FrozenEntries
    decreases closed_count(open), pairs.len() + 1,
{
    if pairs.len() == 0 {
        FrozenEntries::Entries(Seq::empty())
    } else {
        match frozen_entries(tables, pairs.drop_last(), open) {
            FrozenEntries::Refused(problem) => FrozenEntries::Refused(problem),
            FrozenEntries::Entries(entries) => match pairs.last().0 {
                LuaValue::Text(key) => match frozen(tables, pairs.last().1, open) {
                    Frozen::Refused(problem) => FrozenEntries::Refused(problem),
                    Frozen::Value(item) => FrozenEntries::Entries(with_entry(entries, key@, item)),
                },
                LuaValue::Undecodable(reason) => FrozenEntries::Refused(
                    FreezeProblem::Undecodable(reason@),
                ),
                _ => FrozenEntries::Refused(FreezeProblem::Mixed),
            },
        }
    }
}

/// The keys of a map.
pub open spec fn keys(entries: Seq<(String, FrozenValue)>) -> Seq<Seq<char>> {
    entries.map_values(|e: (String, FrozenValue)| e.0@)
}

impl FrozenValue {
    /// Whether every map in the value has its keys in ascending order, and every
    /// array no more items than can be counted.
    pub open spec fn ordered(self) -> bool
        decreases self,
    {
        match self {
            FrozenValue::Array(items) => items@.len() <= i64::MAX && items_ordered(items@),
            FrozenValue::Table(entries) => ascending(keys(entries@)) && entries_ordered(entries@),
            _ => true,
        }
    }
}

/// Whether every value of a list is ordered.
pub open spec fn items_ordered(items: Seq<FrozenValue>) -> bool
    decreases items,
{
    items.len() == 0 || (items_ordered(items.drop_last()) && items.last().ordered())
}

/// Whether the value of every entry is ordered.
pub open spec fn entries_ordered(entries: Seq<(String, FrozenValue)>) -> bool
    decreases entries,
{
    entries.len() == 0 || (entries_ordered(entries.drop_last()) && entries.last().1.ordered())
}

/// The entries of a map, one by one.
pub proof fn lemma_entries(entries: Seq<(String, FrozenValue)>)
    ensures
        entry_trees(entries) == entries.map_values(
            |e: (String, FrozenValue)| (e.0@, e.1.tree()),
        ),
        entries_ordered(entries) <==> forall|i: int|
            0 <= i < entries.len() ==> (#[trigger] entries[i]).1.ordered(),
    decreases entries.len(),
{
    if entries.len() > 0 {
        lemma_entries(entries.drop_last());
        let shorter = entries.drop_last();
        assert forall|i: int| 0 <= i < shorter.len() implies (#[trigger] shorter[i])
            == entries[i] by {}
        if entries_ordered(entries) {
            assert forall|i: int| 0 <= i < entries.len() implies (#[trigger] entries[i]).1.ordered() by {
                if i < shorter.len() {
                    assert(shorter[i].1.ordered());
                }
            }
        }
        if forall|i: int| 0 <= i < entries.len() ==> (#[trigger] entries[i]).1.ordered() {
            assert forall|i: int| 0 <= i < shorter.len() implies (#[trigger] shorter[i]).1.ordered() by {
                assert(entries[i].1.ordered());
            }
            assert(entries[entries.len() - 1].1.ordered());
        }
    }
    assert(entry_trees(entries) =~= entries.map_values(
        |e: (String, FrozenValue)| (e.0@, e.1.tree()),
    ));
}

/// The items of an array, one by one.
pub proof fn lemma_items(items: Seq<FrozenValue>)
    ensures
        item_trees(items) == items.map_values(|v: FrozenValue| v.tree()),
        items_ordered(items) <==> forall|i: int|
            0 <= i < items.len() ==> (#[trigger] items[i]).ordered(),
    decreases items.len(),
{
    if items.len() > 0 {
        lemma_items(items.drop_last());
        let shorter = items.drop_last();
        if items_ordered(items) {
            assert forall|i: int| 0 <= i < items.len() implies (#[trigger] items[i]).ordered() by {
                if i < shorter.len() {
                    assert(shorter[i].ordered());
                }
            }
        }
        if forall|i: int| 0 <= i < items.len() ==> (#[trigger] items[i]).ordered() {
            assert forall|i: int| 0 <= i < shorter.len() implies (#[trigger] shorter[i]).ordered() by {
                assert(items[i].ordered());
            }
            assert(items[items.len() - 1].ordered());
        }
    }
    assert(item_trees(items) =~= items.map_values(|v: FrozenValue| v.tree()));
}

proof fn lemma_with_entry(
    entries: Seq<(Seq<char>, JsonTree)>,
    key: Seq<char>,
    value: JsonTree,
    place: int,
)
    requires
        0 <= place <= entries.len(),
        forall|j: int| place <= j < entries.len() ==> precedes(key, (#[trigger] entries[j]).0),
    ensures
        with_entry(entries, key, value) == with_entry(entries.take(place), key, value)
            + entries.skip(place),
    decreases entries.len(),
{
    if place == entries.len() {
        assert(entries.take(place) =~= entries);
        assert(with_entry(entries, key, value) + entries.skip(place) =~= with_entry(
            entries,
            key,
            value,
        ));
    } else {
        let shorter = entries.drop_last();
        assert forall|j: int| place <= j < shorter.len() implies precedes(
            key,
            (#[trigger] shorter[j]).0,
        ) by {
            assert(shorter[j] == entries[j]);
        }
        lemma_with_entry(shorter, key, value, place);
        assert(shorter.take(place) =~= entries.take(place));
        assert(precedes(key, entries[entries.len() - 1].0));
        assert(with_entry(shorter, key, value).push(entries.last()) =~= with_entry(
            entries.take(place),
            key,
            value,
        ) + entries.skip(place));
    }
}

/// Puts an entry into a map, in the order of the keys; an entry of the same key
/// is replaced.
pub fn insert_entry(entries: &mut Vec<(String, FrozenValue)>, key: String, value: FrozenValue)
    requires
        ascending(keys(old(entries)@)),
    ensures
        entry_trees(final(entries)@) == with_entry(
            entry_trees(old(entries)@),
            key@,
            value.tree(),
        ),
        ascending(keys(final(entries)@)),
        entries_ordered(old(entries)@) && value.ordered() ==> entries_ordered(final(entries)@),
        final(entries)@.len() <= old(entries)@.len() + 1,
{
    let ghost start = entries@;
    let ghost trees = entry_trees(start);
    let ghost names = keys(start);
    let ghost wanted = key@;
    let ghost added = value;
    proof {
        lemma_entries(start);
    }
    let mut i: usize = entries.len();
    while i > 0 && before(key.as_str(), entries[i - 1].0.as_str())
        invariant
            0 <= i <= entries@.len(),
            entries@ == start,
            names == keys(start),
            forall|j: int| i <= j < start.len() ==> precedes(key@, #[trigger] names[j]),
        decreases i,
    {
        assert(names[i - 1] == entries@[i - 1].0@);
        i -= 1;
    }
    proof {
        assert forall|j: int| i <= j < trees.len() implies precedes(
            wanted,
            (#[trigger] trees[j]).0,
        ) by {
            assert(trees[j].0 == names[j]);
        }
        lemma_with_entry(trees, wanted, added.tree(), i as int);
    }
    if i > 0 && same(entries[i - 1].0.as_str(), key.as_str()) {
        entries.set(i - 1, (key, value));
        proof {
            lemma_entries(entries@);
            assert(keys(entries@) =~= names);
            let short = trees.take(i as int);
            assert(short.last().0 == names[i - 1]);
            lemma_not_before_itself(wanted);
            assert(with_entry(short, wanted, added.tree()) == short.drop_last().push(
                (wanted, added.tree()),
            ));
            assert(entry_trees(entries@) =~= short.drop_last().push((wanted, added.tree()))
                + trees.skip(i as int));
        }
    } else {
        entries.insert(i, (key, value));
        proof {
            lemma_entries(entries@);
            let short = trees.take(i as int);
            if i > 0 {
                assert(short.last().0 == names[i - 1]);
                lemma_total(names[i - 1], wanted);
            }
            assert(with_entry(short, wanted, added.tree()) =~= short.push((wanted, added.tree())));
            assert(entry_trees(entries@) =~= short.push((wanted, added.tree())) + trees.skip(
                i as int,
            ));
            let grown = keys(entries@);
            assert(grown =~= names.insert(i as int, wanted));
            assert forall|a: int, b: int| 0 <= a < b < grown.len() implies precedes(
                #[trigger] grown[a],
                #[trigger] grown[b],
            ) by {
                if b < i {
                    assert(precedes(names[a], names[b]));
                } else if a > i {
                    assert(precedes(names[a - 1], names[b - 1]));
                } else if a == i {
                    assert(grown[b] == names[b - 1]);
                } else if b > i {
                    assert(precedes(names[a], names[b - 1]));
                } else if a < i - 1 {
                    assert(precedes(names[a], names[i - 1]));
                    lemma_transitive(names[a], names[i - 1], wanted);
                }
            }
        }
    }
    proof {
        if entries_ordered(start) && added.ordered() {
            assert forall|j: int| 0 <= j < entries@.len() implies (#[trigger] entries@[j]).1.ordered() by {
                if j < i && j < start.len() {
                    assert(start[j].1.ordered());
                }
                if j > 0 && j - 1 < start.len() {
                    assert(start[j - 1].1.ordered());
                }
                if j < start.len() {
                    assert(start[j].1.ordered());
                }
            }
        }
    }
}

proof fn lemma_not_before_itself(key: Seq<char>)
    ensures
        !precedes(key, key),
{
    crate::order::lemma_irreflexive(key);
}

/// Whether the outcome of freezing is what it should be.
pub open spec fn agrees(r: Result<FrozenValue>, expected: Frozen) -> bool {
    match r {
        Ok(value) => expected == Frozen::Value(value.tree()) && value.ordered(),
        Err(error) => expected is Refused && fails_with(
            error,
            freeze_failure(expected->Refused_0),
        ),
    }
}

fn find_index(pairs: &Vec<(LuaValue, LuaValue)>, index: i64) -> (r: Option<usize>)
    ensures
        r matches Some(place) ==> index_place(pairs@, index as int, place as int),
        r is None ==> !has_index(pairs@, index as int),
{
    let mut place: usize = 0;
    while place < pairs.len()
        invariant
            0 <= place <= pairs@.len(),
            forall|j: int| 0 <= j < place ==> (#[trigger] pairs@[j]).0 != LuaValue::Integer(index),
        decreases pairs@.len() - place,
    {
        if let LuaValue::Integer(found) = &pairs[place].0 {
            if *found == index {
                return Some(place);
            }
        }
        place += 1;
    }
    None
}

fn all_indexes(pairs: &Vec<(LuaValue, LuaValue)>) -> (r: bool)
    ensures
        r == forall|i: int| 0 <= i < pairs@.len() ==> is_index((#[trigger] pairs@[i]).0),
{
    let mut i: usize = 0;
    while i < pairs.len()
        invariant
            0 <= i <= pairs@.len(),
            forall|j: int| 0 <= j < i ==> is_index((#[trigger] pairs@[j]).0),
        decreases pairs@.len() - i,
    {
        let positive = match &pairs[i].0 {
            LuaValue::Integer(index) => *index > 0,
            _ => false,
        };
        if !positive {
            assert(!is_index(pairs@[i as int].0));
            return false;
        }
        i += 1;
    }
    true
}

fn all_names(pairs: &Vec<(LuaValue, LuaValue)>) -> (r: bool)
    ensures
        r == forall|i: int| 0 <= i < pairs@.len() ==> is_name((#[trigger] pairs@[i]).0),
{
    let mut i: usize = 0;
    while i < pairs.len()
        invariant
            0 <= i <= pairs@.len(),
            forall|j: int| 0 <= j < i ==> is_name((#[trigger] pairs@[j]).0),
        decreases pairs@.len() - i,
    {
        let name = match &pairs[i].0 {
            LuaValue::Text(_) => true,
            LuaValue::Undecodable(_) => true,
            _ => false,
        };
        if !name {
            assert(!is_name(pairs@[i as int].0));
            return false;
        }
        i += 1;
    }
    true
}

impl FrozenValue {
    /// A map without entries.
    pub fn empty_map() -> (r: FrozenValue)
        ensures
            r.tree() == object_tree(Seq::empty()),
            r is Table,
            r->Table_0@.len() == 0,
            r.ordered(),
    {
        let entries: Vec<(String, FrozenValue)> = Vec::new();
        assert(entry_trees(entries@) =~= Seq::empty());
        FrozenValue::Table(entries)
    }

    /// Freezes a Lua value. Tables are arrays where they are marked as such or
    /// where all their keys are positive integers, and maps where all their keys
    /// are strings.
    pub fn from_lua(heap: &LuaHeap, value: &LuaValue) -> (r: Result<FrozenValue>)
        ensures
            agrees(r, thawed_as(*heap, *value)),
    {
        let mut open: Vec<bool> = Vec::new();
        let mut i: usize = 0;
        while i < heap.tables.len()
            invariant
                0 <= i <= heap.tables@.len(),
                open@ == Seq::new(i as nat, |j: int| false),
            decreases heap.tables@.len() - i,
        {
            open.push(false);
            assert(open@ =~= Seq::new((i + 1) as nat, |j: int| false));
            i += 1;
        }
        freeze(heap, value, &mut open)
    }
}

/// What freezing a Lua value gives.
pub open spec fn thawed_as(heap: LuaHeap, value: LuaValue) -> Frozen {
    frozen(heap.tables@, value, Seq::new(heap.tables@.len(), |j: int| false))
}

/// Freezes a Lua value while the marked tables are being frozen.
fn freeze(heap: &LuaHeap, value: &LuaValue, open: &mut Vec<bool>) -> (r: Result<FrozenValue>)
    requires
        old(open)@.len() == heap.tables@.len(),
    ensures
        agrees(r, frozen(heap.tables@, *value, old(open)@)),
        r is Ok ==> final(open)@ == old(open)@,
        final(open)@.len() == old(open)@.len(),
    decreases closed_count(old(open)@), 0nat,
{
    match value {
        LuaValue::Nil => Ok(FrozenValue::Null),
        LuaValue::Boolean(value) => Ok(FrozenValue::Boolean(*value)),
        LuaValue::Integer(value) => Ok(FrozenValue::Integer(*value)),
        LuaValue::Number(value) => Ok(FrozenValue::Number(value.copy())),
        LuaValue::NotFinite => Err(
            WombatError::configuration("Lua numbers crossing the native boundary must be finite"),
        ),
        LuaValue::Text(value) => Ok(FrozenValue::String(value.clone())),
        LuaValue::Undecodable(reason) => Err(WombatError::Lua(reason.clone())),
        LuaValue::NullPointer => Ok(FrozenValue::Null),
        LuaValue::Other(name) => Err(
            WombatError::Configuration(
                cat3(
                    "unsupported Lua ",
                    name.as_str(),
                    " value; expected nil, boolean, number, string, array, or string-keyed map",
                ),
            ),
        ),
        LuaValue::Table(table) => {
            let ghost start = open@;
            let table: usize = *table;
            if table >= open.len() || open[table] {
                return Err(
                    WombatError::configuration("cyclic Lua tables cannot cross the native boundary"),
                );
            }
            proof {
                lemma_opening(start, table as int);
            }
            open.set(table, true);
            let pairs = &heap.tables[table].pairs;
            let indexes = all_indexes(pairs);
            let result = if heap.tables[table].marked_array || (pairs.len() > 0 && indexes) {
                if !indexes {
                    Err(
                        WombatError::configuration(
                            "Lua arrays must contain only contiguous positive integer keys",
                        ),
                    )
                } else {
                    freeze_array_pairs(heap, pairs, open)
                }
            } else if all_names(pairs) {
                freeze_map_pairs(heap, pairs, open)
            } else {
                Err(
                    WombatError::configuration(
                        "Lua tables crossing the native boundary must be contiguous arrays or string-keyed maps",
                    ),
                )
            };
            open.set(table, false);
            assert(result is Ok ==> open@ =~= start);
            result
        },
    }
}

/// Freezes the pairs of an array in the order of their keys.
fn freeze_array_pairs(
    heap: &LuaHeap,
    pairs: &Vec<(LuaValue, LuaValue)>,
    open: &mut Vec<bool>,
) -> (r: Result<FrozenValue>)
    requires
        old(open)@.len() == heap.tables@.len(),
        forall|i: int| 0 <= i < pairs@.len() ==> is_index((#[trigger] pairs@[i]).0),
    ensures
        agrees(
            r,
            if pairs@.len() > i64::MAX {
                Frozen::Refused(FreezeProblem::TooLarge)
            } else if !contiguous(pairs@) {
                Frozen::Refused(FreezeProblem::Sparse)
            } else {
                match frozen_items(heap.tables@, array_items(pairs@), old(open)@) {
                    FrozenItems::Values(items) => Frozen::Value(JsonTree::Array(items)),
                    FrozenItems::Refused(problem) => Frozen::Refused(problem),
                }
            },
        ),
        r is Ok ==> final(open)@ == old(open)@,
        final(open)@.len() == old(open)@.len(),
    decreases closed_count(old(open)@), 1nat,
{
    if pairs.len() as u64 > 9223372036854775807u64 {
        return Err(WombatError::configuration("Lua array is too large to represent"));
    }
    let mut places: Vec<usize> = Vec::new();
    let mut i: usize = 0;
    while i < pairs.len()
        invariant
            0 <= i <= pairs@.len() <= i64::MAX,
            places@.len() == i,
            forall|j: int|
                0 <= j < i ==> index_place(pairs@, j + 1, #[trigger] places@[j] as int),
        decreases pairs@.len() - i,
    {
        match find_index(pairs, (i + 1) as i64) {
            Some(place) => places.push(place),
            None => {
                assert(!has_index(pairs@, i + 1));
                return Err(
                    WombatError::configuration("sparse Lua arrays cannot cross the native boundary"),
                );
            },
        }
        i += 1;
    }
    assert forall|index: int| 1 <= index <= pairs@.len() implies #[trigger] has_index(
        pairs@,
        index,
    ) by {
        assert(index_place(pairs@, index, places@[index - 1] as int));
    }
    let ghost wanted = array_items(pairs@);
    let ghost start = open@;
    let mut items: Vec<FrozenValue> = Vec::new();
    let mut k: usize = 0;
    assert(wanted.take(0) =~= Seq::empty());
    assert(item_trees(items@) =~= Seq::empty());
    while k < places.len()
        invariant
            0 <= k <= places@.len(),
            places@.len() == pairs@.len() <= i64::MAX,
            open@ == start,
            start == old(open)@,
            open@.len() == heap.tables@.len(),
            wanted == array_items(pairs@),
            contiguous(pairs@),
            forall|j: int|
                0 <= j < places@.len() ==> index_place(
                    pairs@,
                    j + 1,
                    #[trigger] places@[j] as int,
                ),
            frozen_items(heap.tables@, wanted.take(k as int), start) == FrozenItems::Values(
                item_trees(items@),
            ),
            items_ordered(items@),
        decreases places@.len() - k,
    {
        let place: usize = places[k];
        proof {
            assert(index_place(pairs@, k + 1, place as int));
            let index: int = k + 1;
            let chosen = choose|place: int| index_place(pairs@, index, place);
            assert(index_place(pairs@, k + 1, chosen));
            assert(chosen == place) by {
                if chosen < place {
                    assert(pairs@[chosen].0 == LuaValue::Integer((k + 1) as i64));
                }
                if place < chosen {
                    assert(pairs@[place as int].0 == LuaValue::Integer((k + 1) as i64));
                }
            }
            assert(wanted[k as int] == pairs@[place as int].1);
            assert(wanted.take(k + 1).drop_last() =~= wanted.take(k as int));
            lemma_items_prefix_refused(heap.tables@, wanted, start, k + 1);
        }
        let item = freeze(heap, &pairs[place].1, open)?;
        let ghost held = items@;
        items.push(item);
        assert(items@.drop_last() =~= held);
        k += 1;
    }
    assert(wanted.take(k as int) =~= wanted);
    proof {
        lemma_items(items@);
        lemma_item_count(heap.tables@, wanted, start);
    }
    Ok(FrozenValue::Array(items))
}

/// What refuses a prefix refuses the whole.
proof fn lemma_items_prefix_refused(
    tables: Seq<LuaTable>,
    values: Seq<LuaValue>,
    open: Seq<bool>,
    count: int,
)
    requires
        0 <= count <= values.len(),
    ensures
        frozen_items(tables, values.take(count), open) is Refused ==> frozen_items(
            tables,
            values,
            open,
        ) == frozen_items(tables, values.take(count), open),
    decreases values.len() - count,
{
    if count < values.len() {
        lemma_items_prefix_refused(tables, values, open, count + 1);
        assert(values.take(count + 1).drop_last() =~= values.take(count));
    } else {
        assert(values.take(count) =~= values);
    }
}

/// What refuses a prefix refuses the whole.
proof fn lemma_entries_prefix_refused(
    tables: Seq<LuaTable>,
    pairs: Seq<(LuaValue, LuaValue)>,
    open: Seq<bool>,
    count: int,
)
    requires
        0 <= count <= pairs.len(),
    ensures
        frozen_entries(tables, pairs.take(count), open) is Refused ==> frozen_entries(
            tables,
            pairs,
            open,
        ) == frozen_entries(tables, pairs.take(count), open),
    decreases pairs.len() - count,
{
    if count < pairs.len() {
        lemma_entries_prefix_refused(tables, pairs, open, count + 1);
        assert(pairs.take(count + 1).drop_last() =~= pairs.take(count));
    } else {
        assert(pairs.take(count) =~= pairs);
    }
}

/// Freezes the pairs of a map.
fn freeze_map_pairs(
    heap: &LuaHeap,
    pairs: &Vec<(LuaValue, LuaValue)>,
    open: &mut Vec<bool>,
) -> (r: Result<FrozenValue>)
    requires
        old(open)@.len() == heap.tables@.len(),
        forall|i: int| 0 <= i < pairs@.len() ==> is_name((#[trigger] pairs@[i]).0),
    ensures
        agrees(
            r,
            match frozen_entries(heap.tables@, pairs@, old(open)@) {
                FrozenEntries::Entries(entries) => Frozen::Value(object_tree(entries)),
                FrozenEntries::Refused(problem) => Frozen::Refused(problem),
            },
        ),
        r is Ok ==> final(open)@ == old(open)@,
        final(open)@.len() == old(open)@.len(),
    decreases closed_count(old(open)@), 1nat,
{
    let ghost start = open@;
    let mut entries: Vec<(String, FrozenValue)> = Vec::new();
    let mut i: usize = 0;
    assert(pairs@.take(0) =~= Seq::empty());
    assert(entry_trees(entries@) =~= Seq::empty());
    while i < pairs.len()
        invariant
            0 <= i <= pairs@.len(),
            open@ == start,
            start == old(open)@,
            open@.len() == heap.tables@.len(),
            forall|i: int| 0 <= i < pairs@.len() ==> is_name((#[trigger] pairs@[i]).0),
            frozen_entries(heap.tables@, pairs@.take(i as int), start) == FrozenEntries::Entries(
                entry_trees(entries@),
            ),
            ascending(keys(entries@)),
            entries_ordered(entries@),
        decreases pairs@.len() - i,
    {
        proof {
            assert(pairs@.take(i + 1).drop_last() =~= pairs@.take(i as int));
            assert(pairs@.take(i + 1).last() == pairs@[i as int]);
            lemma_entries_prefix_refused(heap.tables@, pairs@, start, i + 1);
            assert(is_name(pairs@[i as int].0));
        }
        match &pairs[i].0 {
            LuaValue::Text(key) => {
                let value = freeze(heap, &pairs[i].1, open)?;
                insert_entry(&mut entries, key.clone(), value);
            },
            LuaValue::Undecodable(reason) => {
                return Err(WombatError::Lua(reason.clone()));
            },
            _ => {
                return Err(
                    WombatError::configuration(
                        "Lua tables crossing the native boundary must be contiguous arrays or string-keyed maps",
                    ),
                );
            },
        }
        i += 1;
    }
    assert(pairs@.take(i as int) =~= pairs@);
    Ok(FrozenValue::Table(entries))
}

proof fn lemma_item_count(tables: Seq<LuaTable>, values: Seq<LuaValue>, open: Seq<bool>)
    ensures
        frozen_items(tables, values, open) matches FrozenItems::Values(items) ==> items.len()
            == values.len(),
    decreases values.len(),
{
    if values.len() > 0 {
        lemma_item_count(tables, values.drop_last(), open);
    }
}

/// Whether a Lua value is a thawed form of a frozen value, all of its tables at
/// places of the heap from `low` to before `high`.
pub open spec fn represents(
    tables: Seq<LuaTable>,
    lua: LuaValue,
    value: FrozenValue,
    low: int,
    high: int,
) -> bool
    decreases value,
{
    match value {
        FrozenValue::Null => lua is NullPointer,
        FrozenValue::Boolean(value) => lua == LuaValue::Boolean(value),
        FrozenValue::Integer(value) => lua == LuaValue::Integer(value),
        FrozenValue::Number(value) => lua == LuaValue::Number(value),
        FrozenValue::String(value) => lua matches LuaValue::Text(text) && text@ == value@,
        FrozenValue::Array(items) => lua matches LuaValue::Table(table) && low <= table < high
            && table < tables.len() && tables[table as int].marked_array && represents_items(
            tables,
            tables[table as int].pairs@,
            items@,
            low,
            table as int,
        ),
        FrozenValue::Table(entries) => lua matches LuaValue::Table(table) && low <= table < high
            && table < tables.len() && !tables[table as int].marked_array && represents_entries(
            tables,
            tables[table as int].pairs@,
            entries@,
            low,
            table as int,
        ),
    }
}

/// Whether the pairs of a table are a thawed form of the items of an array.
pub open spec fn represents_items(
    tables: Seq<LuaTable>,
    pairs: Seq<(LuaValue, LuaValue)>,
    items: Seq<FrozenValue>,
    low: int,
    high: int,
) -> bool
    decreases items,
{
    &&& pairs.len() == items.len()
    &&& items.len() > 0 ==> {
        &&& represents_items(tables, pairs.drop_last(), items.drop_last(), low, high)
        &&& pairs.last().0 == LuaValue::Integer(items.len() as i64)
        &&& represents(tables, pairs.last().1, items.last(), low, high)
    }
}

/// Whether the pairs of a table are a thawed form of the entries of a map.
pub open spec fn represents_entries(
    tables: Seq<LuaTable>,
    pairs: Seq<(LuaValue, LuaValue)>,
    entries: Seq<(String, FrozenValue)>,
    low: int,
    high: int,
) -> bool
    decreases entries,
{
    &&& pairs.len() == entries.len()
    &&& entries.len() > 0 ==> {
        &&& represents_entries(tables, pairs.drop_last(), entries.drop_last(), low, high)
        &&& pairs.last().0 matches LuaValue::Text(key) && key@ == entries.last().0@
        &&& represents(tables, pairs.last().1, entries.last().1, low, high)
    }
}

/// A thawed form stays one when tables are added and the bounds are widened.
proof fn lemma_represents_grown(
    tables: Seq<LuaTable>,
    grown: Seq<LuaTable>,
    lua: LuaValue,
    value: FrozenValue,
    low: int,
    high: int,
    wide: int,
)
    requires
        represents(tables, lua, value, low, high),
        high <= wide,
        tables.len() <= grown.len(),
        forall|i: int| 0 <= i < tables.len() ==> #[trigger] grown[i] == tables[i],
        0 <= low,
    ensures
        represents(grown, lua, value, low, wide),
    decreases value,
{
    match value {
        FrozenValue::Array(items) => {
            let table = lua->Table_0;
            lemma_items_grown(
                tables,
                grown,
                tables[table as int].pairs@,
                items@,
                low,
                table as int,
                table as int,
            );
        },
        FrozenValue::Table(entries) => {
            let table = lua->Table_0;
            lemma_entries_grown(
                tables,
                grown,
                tables[table as int].pairs@,
                entries@,
                low,
                table as int,
                table as int,
            );
        },
        _ => {},
    }
}

proof fn lemma_items_grown(
    tables: Seq<LuaTable>,
    grown: Seq<LuaTable>,
    pairs: Seq<(LuaValue, LuaValue)>,
    items: Seq<FrozenValue>,
    low: int,
    high: int,
    wide: int,
)
    requires
        represents_items(tables, pairs, items, low, high),
        high <= wide,
        tables.len() <= grown.len(),
        forall|i: int| 0 <= i < tables.len() ==> #[trigger] grown[i] == tables[i],
        0 <= low,
    ensures
        represents_items(grown, pairs, items, low, wide),
    decreases items,
{
    if items.len() > 0 {
        lemma_items_grown(tables, grown, pairs.drop_last(), items.drop_last(), low, high, wide);
        lemma_represents_grown(tables, grown, pairs.last().1, items.last(), low, high, wide);
    }
}

proof fn lemma_entries_grown(
    tables: Seq<LuaTable>,
    grown: Seq<LuaTable>,
    pairs: Seq<(LuaValue, LuaValue)>,
    entries: Seq<(String, FrozenValue)>,
    low: int,
    high: int,
    wide: int,
)
    requires
        represents_entries(tables, pairs, entries, low, high),
        high <= wide,
        tables.len() <= grown.len(),
        forall|i: int| 0 <= i < tables.len() ==> #[trigger] grown[i] == tables[i],
        0 <= low,
    ensures
        represents_entries(grown, pairs, entries, low, wide),
    decreases entries,
{
    if entries.len() > 0 {
        lemma_entries_grown(
            tables,
            grown,
            pairs.drop_last(),
            entries.drop_last(),
            low,
            high,
            wide,
        );
        assert(decreases_to!(entries => entries.last()));
        lemma_represents_grown(tables, grown, pairs.last().1, entries.last().1, low, high, wide);
    }
}

/// A thawed value freezes to the same value again, whatever tables are being
/// frozen, as long as its own are not.
pub proof fn lemma_thawed_freezes(
    tables: Seq<LuaTable>,
    lua: LuaValue,
    value: FrozenValue,
    low: int,
    high: int,
    open: Seq<bool>,
)
    requires
        represents(tables, lua, value, low, high),
        value.ordered(),
        0 <= low,
        high <= tables.len(),
        open.len() == tables.len(),
        forall|i: int| low <= i < high ==> !#[trigger] open[i],
    ensures
        frozen(tables, lua, open) == Frozen::Value(value.tree()),
    decreases value,
{
    match value {
        FrozenValue::Array(items) => {
            let table = lua->Table_0;
            let pairs = tables[table as int].pairs@;
            let inner = open.update(table as int, true);
            lemma_item_keys(tables, pairs, items@, low, table as int);
            assert forall|i: int| 0 <= i < pairs.len() implies is_index((#[trigger] pairs[i]).0) by {
                assert(pairs[i].0 == LuaValue::Integer((i + 1) as i64));
            }
            assert forall|index: int| 1 <= index <= pairs.len() implies #[trigger] has_index(
                pairs,
                index,
            ) && indexed(pairs, index) == pairs[index - 1].1 by {
                let place = index - 1;
                assert(pairs[place].0 == LuaValue::Integer((place + 1) as i64));
                assert forall|j: int| 0 <= j < place implies (#[trigger] pairs[j]).0
                    != LuaValue::Integer(index as i64) by {
                    assert(pairs[j].0 == LuaValue::Integer((j + 1) as i64));
                }
                assert(index_place(pairs, index, place));
                let chosen = choose|p: int| index_place(pairs, index, p);
                assert(index_place(pairs, index, chosen));
                assert(pairs[chosen].0 == LuaValue::Integer((chosen + 1) as i64));
                assert(chosen == place);
            }
            assert(array_items(pairs) =~= pairs.map_values(|p: (LuaValue, LuaValue)| p.1)) by {
                assert forall|i: int| 0 <= i < pairs.len() implies array_items(pairs)[i]
                    == pairs[i].1 by {
                    assert(has_index(pairs, i + 1));
                }
            }
            lemma_thawed_items(tables, pairs, items@, low, table as int, inner);
        },
        FrozenValue::Table(entries) => {
            let table = lua->Table_0;
            let pairs = tables[table as int].pairs@;
            let inner = open.update(table as int, true);
            lemma_entry_keys(tables, pairs, entries@, low, table as int);
            if pairs.len() > 0 {
                assert(!is_index(pairs[0].0));
            }
            lemma_thawed_entries(tables, pairs, entries@, low, table as int, inner);
        },
        _ => {},
    }
}

proof fn lemma_item_keys(
    tables: Seq<LuaTable>,
    pairs: Seq<(LuaValue, LuaValue)>,
    items: Seq<FrozenValue>,
    low: int,
    high: int,
)
    requires
        represents_items(tables, pairs, items, low, high),
        items.len() <= i64::MAX,
    ensures
        forall|i: int|
            0 <= i < pairs.len() ==> (#[trigger] pairs[i]).0 == LuaValue::Integer((i + 1) as i64),
    decreases items,
{
    if items.len() > 0 {
        lemma_item_keys(tables, pairs.drop_last(), items.drop_last(), low, high);
        assert forall|i: int| 0 <= i < pairs.len() implies (#[trigger] pairs[i]).0
            == LuaValue::Integer((i + 1) as i64) by {
            if i < pairs.len() - 1 {
                assert(pairs.drop_last()[i] == pairs[i]);
            }
        }
    }
}

proof fn lemma_entry_keys(
    tables: Seq<LuaTable>,
    pairs: Seq<(LuaValue, LuaValue)>,
    entries: Seq<(String, FrozenValue)>,
    low: int,
    high: int,
)
    requires
        represents_entries(tables, pairs, entries, low, high),
    ensures
        forall|i: int| 0 <= i < pairs.len() ==> (#[trigger] pairs[i]).0 is Text,
    decreases entries,
{
    if entries.len() > 0 {
        lemma_entry_keys(tables, pairs.drop_last(), entries.drop_last(), low, high);
        assert forall|i: int| 0 <= i < pairs.len() implies (#[trigger] pairs[i]).0 is Text by {
            if i < pairs.len() - 1 {
                assert(pairs.drop_last()[i] == pairs[i]);
            }
        }
    }
}

proof fn lemma_thawed_items(
    tables: Seq<LuaTable>,
    pairs: Seq<(LuaValue, LuaValue)>,
    items: Seq<FrozenValue>,
    low: int,
    high: int,
    open: Seq<bool>,
)
    requires
        represents_items(tables, pairs, items, low, high),
        items_ordered(items),
        0 <= low,
        high <= tables.len(),
        open.len() == tables.len(),
        forall|i: int| low <= i < high ==> !#[trigger] open[i],
    ensures
        frozen_items(tables, pairs.map_values(|p: (LuaValue, LuaValue)| p.1), open)
            == FrozenItems::Values(item_trees(items)),
    decreases items,
{
    let values = pairs.map_values(|p: (LuaValue, LuaValue)| p.1);
    if items.len() > 0 {
        lemma_thawed_items(tables, pairs.drop_last(), items.drop_last(), low, high, open);
        assert(values.drop_last() =~= pairs.drop_last().map_values(
            |p: (LuaValue, LuaValue)| p.1,
        ));
        lemma_thawed_freezes(tables, pairs.last().1, items.last(), low, high, open);
    }
}

proof fn lemma_thawed_entries(
    tables: Seq<LuaTable>,
    pairs: Seq<(LuaValue, LuaValue)>,
    entries: Seq<(String, FrozenValue)>,
    low: int,
    high: int,
    open: Seq<bool>,
)
    requires
        represents_entries(tables, pairs, entries, low, high),
        entries_ordered(entries),
        ascending(keys(entries)),
        0 <= low,
        high <= tables.len(),
        open.len() == tables.len(),
        forall|i: int| low <= i < high ==> !#[trigger] open[i],
    ensures
        frozen_entries(tables, pairs, open) == FrozenEntries::Entries(entry_trees(entries)),
    decreases entries,
{
    if entries.len() > 0 {
        let shorter = entries.drop_last();
        assert(keys(shorter) =~= keys(entries).drop_last());
        assert forall|i: int, j: int| 0 <= i < j < keys(shorter).len() implies precedes(
            #[trigger] keys(shorter)[i],
            #[trigger] keys(shorter)[j],
        ) by {
            assert(precedes(keys(entries)[i], keys(entries)[j]));
        }
        lemma_thawed_entries(tables, pairs.drop_last(), shorter, low, high, open);
        assert(decreases_to!(entries => entries.last()));
        lemma_thawed_freezes(tables, pairs.last().1, entries.last().1, low, high, open);
        if shorter.len() > 0 {
            lemma_entries(shorter);
            assert(precedes(keys(entries)[entries.len() - 2], keys(entries)[entries.len() - 1]));
            lemma_asymmetric(shorter.last().0@, entries.last().0@);
            assert(entry_trees(shorter).last().0 == shorter.last().0@);
        }
        assert(with_entry(entry_trees(shorter), entries.last().0@, entries.last().1.tree())
            =~= entry_trees(shorter).push((entries.last().0@, entries.last().1.tree())));
    }
}

impl FrozenValue {
    /// Thaws the value into new tables of the heap. Arrays are marked as such, so
    /// that an empty one keeps its shape.
    pub fn to_lua(&self, heap: &mut LuaHeap) -> (r: LuaValue)
        requires
            self.ordered(),
        ensures
            old(heap).tables@.len() <= final(heap).tables@.len(),
            forall|i: int|
                0 <= i < old(heap).tables@.len() ==> #[trigger] final(heap).tables@[i] == old(
                    heap,
                ).tables@[i],
            represents(
                final(heap).tables@,
                r,
                *self,
                old(heap).tables@.len() as int,
                final(heap).tables@.len() as int,
            ),
        decreases *self,
    {
        let ghost start = heap.tables@;
        match self {
            FrozenValue::Null => LuaValue::NullPointer,
            FrozenValue::Boolean(value) => LuaValue::Boolean(*value),
            FrozenValue::Integer(value) => LuaValue::Integer(*value),
            FrozenValue::Number(value) => LuaValue::Number(value.copy()),
            FrozenValue::String(value) => LuaValue::Text(value.clone()),
            FrozenValue::Array(items) => {
                let mut pairs: Vec<(LuaValue, LuaValue)> = Vec::new();
                let mut i: usize = 0;
                proof {
                    lemma_items(items@);
                }
                while i < items.len()
                    invariant
                        0 <= i <= items@.len() <= i64::MAX,
                        *self == FrozenValue::Array(*items),
                        self.ordered(),
                        forall|j: int| 0 <= j < items@.len() ==> (#[trigger] items@[j]).ordered(),
                        start.len() <= heap.tables@.len(),
                        forall|j: int|
                            0 <= j < start.len() ==> #[trigger] heap.tables@[j] == start[j],
                        represents_items(
                            heap.tables@,
                            pairs@,
                            items@.take(i as int),
                            start.len() as int,
                            heap.tables@.len() as int,
                        ),
                    decreases items@.len() - i,
                {
                    let ghost before = heap.tables@;
                    let ghost held = pairs@;
                    assert(decreases_to!(*self => self->Array_0));
                    assert(decreases_to!(self->Array_0 => self->Array_0@));
                    assert(decreases_to!(items@ => items@[i as int]));
                    let value = items[i].to_lua(heap);
                    proof {
                        lemma_items_grown(
                            before,
                            heap.tables@,
                            held,
                            items@.take(i as int),
                            start.len() as int,
                            before.len() as int,
                            heap.tables@.len() as int,
                        );
                        lemma_represents_lower(
                            heap.tables@,
                            value,
                            items@[i as int],
                            before.len() as int,
                            heap.tables@.len() as int,
                            start.len() as int,
                        );
                        assert(items@.take(i + 1).drop_last() =~= items@.take(i as int));
                    }
                    pairs.push((LuaValue::Integer((i + 1) as i64), value));
                    assert(pairs@.drop_last() =~= held);
                    i += 1;
                }
                assert(items@.take(i as int) =~= items@);
                let table = heap.tables.len();
                let ghost before = heap.tables@;
                let ghost kept = pairs@;
                heap.tables.push(LuaTable { pairs, marked_array: true });
                proof {
                    lemma_items_grown(
                        before,
                        heap.tables@,
                        kept,
                        items@,
                        start.len() as int,
                        table as int,
                        table as int,
                    );
                }
                LuaValue::Table(table)
            },
            FrozenValue::Table(entries) => {
                let mut pairs: Vec<(LuaValue, LuaValue)> = Vec::new();
                let mut i: usize = 0;
                proof {
                    lemma_entries(entries@);
                }
                while i < entries.len()
                    invariant
                        0 <= i <= entries@.len(),
                        *self == FrozenValue::Table(*entries),
                        self.ordered(),
                        forall|j: int|
                            0 <= j < entries@.len() ==> (#[trigger] entries@[j]).1.ordered(),
                        start.len() <= heap.tables@.len(),
                        forall|j: int|
                            0 <= j < start.len() ==> #[trigger] heap.tables@[j] == start[j],
                        represents_entries(
                            heap.tables@,
                            pairs@,
                            entries@.take(i as int),
                            start.len() as int,
                            heap.tables@.len() as int,
                        ),
                    decreases entries@.len() - i,
                {
                    let ghost before = heap.tables@;
                    let ghost held = pairs@;
                    assert(decreases_to!(entries@[i as int] => entries@[i as int].1));
                    assert(decreases_to!(*self => self->Table_0));
                    assert(decreases_to!(self->Table_0 => self->Table_0@));
                    assert(decreases_to!(entries@ => entries@[i as int]));
                    let value = entries[i].1.to_lua(heap);
                    proof {
                        lemma_entries_grown(
                            before,
                            heap.tables@,
                            held,
                            entries@.take(i as int),
                            start.len() as int,
                            before.len() as int,
                            heap.tables@.len() as int,
                        );
                        lemma_represents_lower(
                            heap.tables@,
                            value,
                            entries@[i as int].1,
                            before.len() as int,
                            heap.tables@.len() as int,
                            start.len() as int,
                        );
                        assert(entries@.take(i + 1).drop_last() =~= entries@.take(i as int));
                    }
                    pairs.push((LuaValue::Text(entries[i].0.clone()), value));
                    assert(pairs@.drop_last() =~= held);
                    i += 1;
                }
                assert(entries@.take(i as int) =~= entries@);
                let table = heap.tables.len();
                let ghost before = heap.tables@;
                let ghost kept = pairs@;
                heap.tables.push(LuaTable { pairs, marked_array: false });
                proof {
                    lemma_entries_grown(
                        before,
                        heap.tables@,
                        kept,
                        entries@,
                        start.len() as int,
                        table as int,
                        table as int,
                    );
                }
                LuaValue::Table(table)
            },
        }
    }
}

/// A thawed form stays one when the lower bound is lowered.
proof fn lemma_represents_lower(
    tables: Seq<LuaTable>,
    lua: LuaValue,
    value: FrozenValue,
    low: int,
    high: int,
    lower: int,
)
    requires
        represents(tables, lua, value, low, high),
        0 <= lower <= low,
    ensures
        represents(tables, lua, value, lower, high),
    decreases value,
{
    match value {
        FrozenValue::Array(items) => {
            let table = lua->Table_0;
            lemma_items_lower(tables, tables[table as int].pairs@, items@, low, table as int, lower);
        },
        FrozenValue::Table(entries) => {
            let table = lua->Table_0;
            lemma_entries_lower(
                tables,
                tables[table as int].pairs@,
                entries@,
                low,
                table as int,
                lower,
            );
        },
        _ => {},
    }
}

proof fn lemma_items_lower(
    tables: Seq<LuaTable>,
    pairs: Seq<(LuaValue, LuaValue)>,
    items: Seq<FrozenValue>,
    low: int,
    high: int,
    lower: int,
)
    requires
        represents_items(tables, pairs, items, low, high),
        0 <= lower <= low,
    ensures
        represents_items(tables, pairs, items, lower, high),
    decreases items,
{
    if items.len() > 0 {
        lemma_items_lower(tables, pairs.drop_last(), items.drop_last(), low, high, lower);
        lemma_represents_lower(tables, pairs.last().1, items.last(), low, high, lower);
    }
}

proof fn lemma_entries_lower(
    tables: Seq<LuaTable>,
    pairs: Seq<(LuaValue, LuaValue)>,
    entries: Seq<(String, FrozenValue)>,
    low: int,
    high: int,
    lower: int,
)
    requires
        represents_entries(tables, pairs, entries, low, high),
        0 <= lower <= low,
    ensures
        represents_entries(tables, pairs, entries, lower, high),
    decreases entries,
{
    if entries.len() > 0 {
        lemma_entries_lower(tables, pairs.drop_last(), entries.drop_last(), low, high, lower);
        assert(decreases_to!(entries => entries.last()));
        lemma_represents_lower(tables, pairs.last().1, entries.last().1, low, high, lower);
    }
}

/// Freezing undoes thawing: whatever heap a value is thawed into, freezing what
/// came out gives the value back, an empty array as an array and an empty map as
/// a map.
pub proof fn law_freezing_undoes_thawing(
    heap: LuaHeap,
    lua: LuaValue,
    value: FrozenValue,
    low: int,
)
    requires
        value.ordered(),
        0 <= low,
        represents(heap.tables@, lua, value, low, heap.tables@.len() as int),
    ensures
        thawed_as(heap, lua) == Frozen::Value(value.tree()),
{
    let open = Seq::new(heap.tables@.len(), |j: int| false);
    lemma_thawed_freezes(heap.tables@, lua, value, low, heap.tables@.len() as int, open);
}

impl FrozenValue {
    /// Whether this is the very value that another is: of the same variant, with the same
    /// contents, at every depth.
    pub open spec fn alike(self, other: FrozenValue) -> bool
        decreases self,
    {
        match (self, other) {
            (FrozenValue::Null, FrozenValue::Null) => true,
            (FrozenValue::Boolean(a), FrozenValue::Boolean(b)) => a == b,
            (FrozenValue::Integer(a), FrozenValue::Integer(b)) => a == b,
            (FrozenValue::Number(a), FrozenValue::Number(b)) => a@ == b@,
            (FrozenValue::String(a), FrozenValue::String(b)) => a@ == b@,
            (FrozenValue::Array(a), FrozenValue::Array(b)) => items_alike(a@, b@),
            (FrozenValue::Table(a), FrozenValue::Table(b)) => entries_alike(a@, b@),
            _ => false,
        }
    }
}

/// Whether two lists hold the very same values.
pub open spec fn items_alike(a: Seq<FrozenValue>, b: Seq<FrozenValue>) -> bool
    decreases a,
{
    if a.len() == 0 || b.len() == 0 {
        a.len() == b.len()
    } else {
        items_alike(a.drop_last(), b.drop_last()) && a.last().alike(b.last())
    }
}

/// Whether two maps hold the very same values under the same keys.
pub open spec fn entries_alike(
    a: Seq<(String, FrozenValue)>,
    b: Seq<(String, FrozenValue)>,
) -> bool
    decreases a,
{
    if a.len() == 0 || b.len() == 0 {
        a.len() == b.len()
    } else {
        &&& entries_alike(a.drop_last(), b.drop_last())
        &&& a.last().0@ == b.last().0@
        &&& a.last().1.alike(b.last().1)
    }
}

proof fn lemma_items_alike(a: Seq<FrozenValue>, b: Seq<FrozenValue>)
    requires
        a.len() == b.len(),
        forall|j: int| 0 <= j < a.len() ==> (#[trigger] a[j]).alike(b[j]),
    ensures
        items_alike(a, b),
    decreases a.len(),
{
    if a.len() > 0 {
        assert forall|j: int| 0 <= j < a.drop_last().len() implies (
        #[trigger] a.drop_last()[j]).alike(b.drop_last()[j]) by {
            assert(a[j].alike(b[j]));
        }
        assert(a[a.len() - 1].alike(b[b.len() - 1]));
        lemma_items_alike(a.drop_last(), b.drop_last());
    }
}

proof fn lemma_entries_alike(a: Seq<(String, FrozenValue)>, b: Seq<(String, FrozenValue)>)
    requires
        a.len() == b.len(),
        forall|j: int|
            0 <= j < a.len() ==> (#[trigger] a[j]).0@ == b[j].0@ && a[j].1.alike(b[j].1),
    ensures
        entries_alike(a, b),
    decreases a.len(),
{
    if a.len() > 0 {
        assert forall|j: int| 0 <= j < a.drop_last().len() implies (
        #[trigger] a.drop_last()[j]).0@ == b.drop_last()[j].0@ && a.drop_last()[j].1.alike(
            b.drop_last()[j].1,
        ) by {
            assert(a[j].1.alike(b[j].1));
        }
        assert(a[a.len() - 1].1.alike(b[b.len() - 1].1));
        lemma_entries_alike(a.drop_last(), b.drop_last());
    }
}

/// The JSON form tells values apart: where it is the same, the values are the very same,
/// a whole number that is an integer in one an integer in the other.
pub proof fn law_forms_tell_values_apart(a: FrozenValue, b: FrozenValue)
    requires
        a.ordered(),
        b.ordered(),
        a.tree() == b.tree(),
    ensures
        a.alike(b),
    decreases a,
{
    match (a, b) {
        (FrozenValue::Array(x), FrozenValue::Array(y)) => {
            lemma_items_apart(x@, y@);
        },
        (FrozenValue::Table(x), FrozenValue::Table(y)) => {
            lemma_entries(x@);
            lemma_entries(y@);
            lemma_collected(x@);
            lemma_collected(y@);
            lemma_entries_apart(x@, y@);
        },
        _ => {},
    }
}

proof fn lemma_items_apart(a: Seq<FrozenValue>, b: Seq<FrozenValue>)
    requires
        items_ordered(a),
        items_ordered(b),
        item_trees(a) == item_trees(b),
    ensures
        items_alike(a, b),
    decreases a,
{
    lemma_items(a);
    lemma_items(b);
    assert(item_trees(a).len() == a.len());
    assert(item_trees(b).len() == b.len());
    if a.len() > 0 {
        assert(item_trees(a).drop_last() =~= item_trees(a.drop_last()));
        assert(item_trees(b).drop_last() =~= item_trees(b.drop_last()));
        assert(item_trees(a).last() == a.last().tree());
        assert(item_trees(b).last() == b.last().tree());
        lemma_items_apart(a.drop_last(), b.drop_last());
        law_forms_tell_values_apart(a.last(), b.last());
    }
}

proof fn lemma_entries_apart(a: Seq<(String, FrozenValue)>, b: Seq<(String, FrozenValue)>)
    requires
        entries_ordered(a),
        entries_ordered(b),
        entry_trees(a) == entry_trees(b),
    ensures
        entries_alike(a, b),
    decreases a,
{
    lemma_entries(a);
    lemma_entries(b);
    assert(entry_trees(a).len() == a.len());
    assert(entry_trees(b).len() == b.len());
    if a.len() > 0 {
        assert(entry_trees(a).drop_last() =~= entry_trees(a.drop_last()));
        assert(entry_trees(b).drop_last() =~= entry_trees(b.drop_last()));
        assert(entry_trees(a).last() == (a.last().0@, a.last().1.tree()));
        assert(entry_trees(b).last() == (b.last().0@, b.last().1.tree()));
        lemma_entries_apart(a.drop_last(), b.drop_last());
        assert(decreases_to!(a => a.last()));
        assert(decreases_to!(a.last() => a.last().1));
        law_forms_tell_values_apart(a.last().1, b.last().1);
    }
}

/// Entries in the order of their keys are the members of the object that they make up.
proof fn lemma_collected(entries: Seq<(String, FrozenValue)>)
    requires
        ascending(keys(entries)),
    ensures
        collected(entry_trees(entries)) == entry_trees(entries),
    decreases entries.len(),
{
    lemma_entries(entries);
    if entries.len() > 0 {
        let shorter = entries.drop_last();
        assert(keys(shorter) =~= keys(entries).drop_last());
        lemma_collected(shorter);
        lemma_entries(shorter);
        let trees = entry_trees(shorter);
        let last = entries.last().0@;
        assert forall|j: int| 0 <= j < trees.len() implies (#[trigger] trees[j]).0 != last by {
            assert(keys(entries)[j] == trees[j].0);
            assert(keys(entries)[entries.len() - 1] == last);
            lemma_not_before_itself(last);
        }
        lemma_no_index(trees, last);
        assert(entry_trees(entries).drop_last() =~= trees);
        assert(entry_trees(entries).last() == (last, entries.last().1.tree()));
        assert(entry_trees(entries) =~= trees.push((last, entries.last().1.tree())));
    }
}

proof fn lemma_no_index(members: Seq<(Seq<char>, JsonTree)>, key: Seq<char>)
    requires
        forall|j: int| 0 <= j < members.len() ==> (#[trigger] members[j]).0 != key,
    ensures
        key_index(members, key) is None,
    decreases members.len(),
{
    if members.len() > 0 {
        let shorter = members.drop_last();
        assert forall|j: int| 0 <= j < shorter.len() implies (#[trigger] shorter[j]).0 != key by {
            assert(members[j].0 != key);
        }
        assert(members[members.len() - 1].0 != key);
        lemma_no_index(shorter, key);
    }
}

/// What freezing gives of a thawed value is that very value, at every depth.
pub proof fn law_frozen_again_is_the_same(
    heap: LuaHeap,
    lua: LuaValue,
    value: FrozenValue,
    again: FrozenValue,
    low: int,
)
    requires
        value.ordered(),
        0 <= low,
        represents(heap.tables@, lua, value, low, heap.tables@.len() as int),
        agrees(Ok(again), thawed_as(heap, lua)),
    ensures
        again.alike(value),
{
    law_freezing_undoes_thawing(heap, lua, value, low);
    law_forms_tell_values_apart(again, value);
}

/// Two thawed values share no table: what was thawed later stands at places of
/// the heap that did not exist before.
pub proof fn law_thawed_values_share_no_table(
    earlier: LuaHeap,
    later: LuaHeap,
    a: LuaValue,
    first: FrozenValue,
    b: LuaValue,
    second: FrozenValue,
    low: int,
)
    requires
        represents(earlier.tables@, a, first, low, earlier.tables@.len() as int),
        represents(
            later.tables@,
            b,
            second,
            earlier.tables@.len() as int,
            later.tables@.len() as int,
        ),
    ensures
        a is Table && b is Table ==> a->Table_0 < b->Table_0,
{
}

impl FrozenValue {
    /// Another value that is the same.
    pub fn copy(&self) -> (r: FrozenValue)
        ensures
            r.alike(*self),
            r.tree() == self.tree(),
            r.ordered() == self.ordered(),
            r is String <==> *self is String,
            r is Table <==> *self is Table,
            r is Array <==> *self is Array,
            r is Null <==> *self is Null,
            r is Boolean <==> *self is Boolean,
            r is Integer <==> *self is Integer,
        decreases *self,
    {
        match self {
            FrozenValue::Null => FrozenValue::Null,
            FrozenValue::Boolean(value) => FrozenValue::Boolean(*value),
            FrozenValue::Integer(value) => FrozenValue::Integer(*value),
            FrozenValue::Number(value) => FrozenValue::Number(value.copy()),
            FrozenValue::String(value) => FrozenValue::String(value.clone()),
            FrozenValue::Array(items) => {
                let mut copied: Vec<FrozenValue> = Vec::new();
                let mut i: usize = 0;
                while i < items.len()
                    invariant
                        0 <= i <= items@.len(),
                        *self == FrozenValue::Array(*items),
                        copied@.len() == i,
                        forall|j: int|
                            0 <= j < i ==> (#[trigger] copied@[j]).alike(items@[j])
                                && copied@[j].tree() == items@[j].tree()
                                && copied@[j].ordered() == items@[j].ordered(),
                    decreases items@.len() - i,
                {
                    assert(decreases_to!(*self => self->Array_0));
                    assert(decreases_to!(self->Array_0 => self->Array_0@));
                    assert(decreases_to!(items@ => items@[i as int]));
                    copied.push(items[i].copy());
                    i += 1;
                }
                proof {
                    lemma_items(items@);
                    lemma_items(copied@);
                    lemma_items_alike(copied@, items@);
                    assert(item_trees(copied@) =~= item_trees(items@));
                    if items_ordered(copied@) {
                        assert forall|j: int| 0 <= j < items@.len() implies (#[trigger] items@[j]).ordered() by {
                            assert(copied@[j].ordered());
                        }
                    }
                }
                FrozenValue::Array(copied)
            },
            FrozenValue::Table(entries) => {
                let mut copied: Vec<(String, FrozenValue)> = Vec::new();
                let mut i: usize = 0;
                while i < entries.len()
                    invariant
                        0 <= i <= entries@.len(),
                        *self == FrozenValue::Table(*entries),
                        copied@.len() == i,
                        forall|j: int|
                            0 <= j < i ==> (#[trigger] copied@[j]).0@ == entries@[j].0@
                                && copied@[j].1.alike(entries@[j].1)
                                && copied@[j].1.tree() == entries@[j].1.tree()
                                && copied@[j].1.ordered() == entries@[j].1.ordered(),
                    decreases entries@.len() - i,
                {
                    assert(decreases_to!(entries@[i as int] => entries@[i as int].1));
                    assert(decreases_to!(*self => self->Table_0));
                    assert(decreases_to!(self->Table_0 => self->Table_0@));
                    assert(decreases_to!(entries@ => entries@[i as int]));
                    copied.push((entries[i].0.clone(), entries[i].1.copy()));
                    i += 1;
                }
                proof {
                    lemma_entries(entries@);
                    lemma_entries(copied@);
                    lemma_entries_alike(copied@, entries@);
                    assert(entry_trees(copied@) =~= entry_trees(entries@));
                    assert(keys(copied@) =~= keys(entries@));
                    if entries_ordered(copied@) {
                        assert forall|j: int| 0 <= j < entries@.len() implies (#[trigger] entries@[j]).1.ordered() by {
                            assert(copied@[j].1.ordered());
                        }
                    }
                }
                FrozenValue::Table(copied)
            },
        }
    }
}

} // verus!
