//! The order of declarations.
use vstd::prelude::*;
use vstd::string::*;

use crate::model::manifest::{Dependency, DependencyKind, SourceLocation, SourceTrace};
use crate::order::{before, precedes};
use crate::text::same;

verus! {

/// How one value stands to another.
#[derive(Clone, Copy, Debug, PartialEq, Eq, Structural)]
pub enum Order {
    /// It comes first
    Before,
    /// They are the same
    Same,
    /// It comes later
    After,
}

/// The second order where the first does not decide.
pub open spec fn then_by(a: Order, b: Order) -> Order {
    if a == Order::Same {
        b
    } else {
        a
    }
}

/// The order of strings.
pub open spec fn text_order(a: Seq<char>, b: Seq<char>) -> Order {
    if a == b {
        Order::Same
    } else if precedes(a, b) {
        Order::Before
    } else {
        Order::After
    }
}

/// The order of numbers.
pub open spec fn number_order(a: int, b: int) -> Order {
    if a == b {
        Order::Same
    } else if a < b {
        Order::Before
    } else {
        Order::After
    }
}

/// The order of optional numbers: none comes first.
pub open spec fn optional_order(a: Option<u32>, b: Option<u32>) -> Order {
    match (a, b) {
        (None, None) => Order::Same,
        (None, Some(_)) => Order::Before,
        (Some(_), None) => Order::After,
        (Some(x), Some(y)) => number_order(x as int, y as int),
    }
}

/// The order of places: by file, line and column.
pub open spec fn location_order(a: SourceLocation, b: SourceLocation) -> Order {
    then_by(
        text_order(a.source@, b.source@),
        then_by(optional_order(a.line, b.line), optional_order(a.column, b.column)),
    )
}

/// The order of lists of places: by the first that differs, a prefix first.
pub open spec fn locations_order(a: Seq<SourceLocation>, b: Seq<SourceLocation>) -> Order
    decreases a.len(),
{
    if a.len() == 0 {
        if b.len() == 0 {
            Order::Same
        } else {
            Order::Before
        }
    } else if b.len() == 0 {
        Order::After
    } else {
        then_by(location_order(a[0], b[0]), locations_order(a.skip(1), b.skip(1)))
    }
}

/// The order of declarations.
pub open spec fn trace_order(a: SourceTrace, b: SourceTrace) -> Order {
    then_by(location_order(a.primary, b.primary), locations_order(a.callers@, b.callers@))
}

/// The order of the kinds of dependency.
pub open spec fn kind_order(a: DependencyKind, b: DependencyKind) -> Order {
    if a == b {
        Order::Same
    } else if a == DependencyKind::Use {
        Order::Before
    } else {
        Order::After
    }
}

/// The order of dependencies: by kind, both ends and declaration.
pub open spec fn dependency_order(a: Dependency, b: Dependency) -> Order {
    then_by(
        kind_order(a.kind, b.kind),
        then_by(
            text_order(a.from@, b.from@),
            then_by(text_order(a.to@, b.to@), trace_order(a.declared_at, b.declared_at)),
        ),
    )
}

/// Compares two strings.
pub fn order_texts(a: &str, b: &str) -> (r: Order)
    ensures
        r == text_order(a@, b@),
{
    if same(a, b) {
        Order::Same
    } else if before(a, b) {
        Order::Before
    } else {
        Order::After
    }
}

fn order_optional(a: Option<u32>, b: Option<u32>) -> (r: Order)
    ensures
        r == optional_order(a, b),
{
    match a {
        None => match b {
            None => Order::Same,
            Some(_) => Order::Before,
        },
        Some(x) => match b {
            None => Order::After,
            Some(y) => if x == y {
                Order::Same
            } else if x < y {
                Order::Before
            } else {
                Order::After
            },
        },
    }
}

/// Compares two places.
pub fn order_locations_pair(a: &SourceLocation, b: &SourceLocation) -> (r: Order)
    ensures
        r == location_order(*a, *b),
{
    let first = order_texts(a.source.as_str(), b.source.as_str());
    if first != Order::Same {
        return first;
    }
    let second = order_optional(a.line, b.line);
    if second != Order::Same {
        return second;
    }
    order_optional(a.column, b.column)
}

fn order_location_lists(a: &Vec<SourceLocation>, b: &Vec<SourceLocation>) -> (r: Order)
    ensures
        r == locations_order(a@, b@),
{
    let mut i: usize = 0;
    assert(a@.skip(0) =~= a@);
    assert(b@.skip(0) =~= b@);
    while i < a.len() && i < b.len()
        invariant
            0 <= i <= a@.len(),
            i <= b@.len(),
            locations_order(a@, b@) == locations_order(a@.skip(i as int), b@.skip(i as int)),
        decreases a@.len() - i,
    {
        assert(a@.skip(i as int)[0] == a@[i as int]);
        assert(b@.skip(i as int)[0] == b@[i as int]);
        assert(a@.skip(i as int).skip(1) =~= a@.skip(i + 1));
        assert(b@.skip(i as int).skip(1) =~= b@.skip(i + 1));
        let next = order_locations_pair(&a[i], &b[i]);
        if next != Order::Same {
            return next;
        }
        i += 1;
    }
    if i == a.len() {
        if i == b.len() {
            Order::Same
        } else {
            Order::Before
        }
    } else {
        Order::After
    }
}

/// Compares two declarations.
pub fn order_traces(a: &SourceTrace, b: &SourceTrace) -> (r: Order)
    ensures
        r == trace_order(*a, *b),
{
    let first = order_locations_pair(&a.primary, &b.primary);
    if first != Order::Same {
        return first;
    }
    order_location_lists(&a.callers, &b.callers)
}

/// Compares two dependencies.
pub fn order_dependencies(a: &Dependency, b: &Dependency) -> (r: Order)
    ensures
        r == dependency_order(*a, *b),
{
    if a.kind != b.kind {
        return if a.kind == DependencyKind::Use {
            Order::Before
        } else {
            Order::After
        };
    }
    let from = order_texts(a.from.as_str(), b.from.as_str());
    if from != Order::Same {
        return from;
    }
    let to = order_texts(a.to.as_str(), b.to.as_str());
    if to != Order::Same {
        return to;
    }
    order_traces(&a.declared_at, &b.declared_at)
}

/// The dependencies after one more is put in, in their order; one that is there
/// already stays as it is.
pub open spec fn with_dependency(list: Seq<Dependency>, added: Dependency) -> Seq<Dependency>
    decreases list.len(),
{
    if list.len() == 0 {
        seq![added]
    } else {
        match dependency_order(added, list.last()) {
            Order::Before => with_dependency(list.drop_last(), added).push(list.last()),
            Order::Same => list,
            Order::After => list.push(added),
        }
    }
}

proof fn lemma_with_dependency(list: Seq<Dependency>, added: Dependency, place: int)
    requires
        0 <= place <= list.len(),
        forall|j: int|
            place <= j < list.len() ==> dependency_order(added, #[trigger] list[j])
                == Order::Before,
    ensures
        with_dependency(list, added) == with_dependency(list.take(place), added) + list.skip(
            place,
        ),
    decreases list.len(),
{
    if place == list.len() {
        assert(list.take(place) =~= list);
        assert(with_dependency(list, added) + list.skip(place) =~= with_dependency(list, added));
    } else {
        let shorter = list.drop_last();
        assert forall|j: int| place <= j < shorter.len() implies dependency_order(
            added,
            #[trigger] shorter[j],
        ) == Order::Before by {
            assert(shorter[j] == list[j]);
        }
        lemma_with_dependency(shorter, added, place);
        assert(shorter.take(place) =~= list.take(place));
        assert(dependency_order(added, list[list.len() - 1]) == Order::Before);
        assert(with_dependency(shorter, added).push(list.last()) =~= with_dependency(
            list.take(place),
            added,
        ) + list.skip(place));
    }
}

/// Puts a dependency in its place.
pub fn insert_dependency(list: &mut Vec<Dependency>, added: Dependency)
    ensures
        final(list)@ == with_dependency(old(list)@, added),
{
    let ghost start = list@;
    let ghost one = added;
    let mut i: usize = list.len();
    while i > 0 && order_dependencies(&added, &list[i - 1]) == Order::Before
        invariant
            0 <= i <= list@.len(),
            list@ == start,
            one == added,
            forall|j: int|
                i <= j < start.len() ==> dependency_order(one, #[trigger] start[j])
                    == Order::Before,
        decreases i,
    {
        i -= 1;
    }
    proof {
        lemma_with_dependency(start, one, i as int);
        if i > 0 {
            assert(start.take(i as int).last() == start[i - 1]);
        }
    }
    if i > 0 && order_dependencies(&added, &list[i - 1]) == Order::Same {
        assert(start.take(i as int) + start.skip(i as int) =~= start);
        return;
    }
    list.insert(i, added);
    assert(with_dependency(start.take(i as int), one) =~= start.take(i as int).push(one));
    assert(list@ =~= start.take(i as int).push(one) + start.skip(i as int));
}

} // verus!
