//! The order of strings: by their first differing character, a prefix first.
//! It is the order of their UTF-8 bytes.
use vstd::prelude::*;
use vstd::string::*;

use crate::text::{chars_of, holds, same, views};

verus! {

/// Whether `a` stands strictly before `b`.
pub open spec fn precedes(a: Seq<char>, b: Seq<char>) -> bool
    decreases a.len(),
{
    if b.len() == 0 {
        false
    } else if a.len() == 0 {
        true
    } else if a[0] != b[0] {
        a[0] < b[0]
    } else {
        precedes(a.skip(1), b.skip(1))
    }
}

/// Nothing stands before itself.
pub proof fn lemma_irreflexive(a: Seq<char>)
    ensures
        !precedes(a, a),
    decreases a.len(),
{
    if a.len() > 0 {
        lemma_irreflexive(a.skip(1));
    }
}

/// The order is transitive.
pub proof fn lemma_transitive(a: Seq<char>, b: Seq<char>, c: Seq<char>)
    requires
        precedes(a, b),
        precedes(b, c),
    ensures
        precedes(a, c),
    decreases a.len(),
{
    if a.len() > 0 && b.len() > 0 && c.len() > 0 && a[0] == b[0] && b[0] == c[0] {
        lemma_transitive(a.skip(1), b.skip(1), c.skip(1));
    }
}

/// Of two different strings one stands before the other.
pub proof fn lemma_total(a: Seq<char>, b: Seq<char>)
    ensures
        precedes(a, b) || a == b || precedes(b, a),
    decreases a.len(),
{
    if a.len() > 0 && b.len() > 0 && a[0] == b[0] {
        lemma_total(a.skip(1), b.skip(1));
        if a.skip(1) == b.skip(1) {
            assert(a =~= seq![a[0]] + a.skip(1));
            assert(b =~= seq![b[0]] + b.skip(1));
        }
    } else if a.len() == 0 && b.len() == 0 {
        assert(a =~= b);
    }
}

/// Of two strings at most one stands before the other, and only if they differ.
pub proof fn lemma_asymmetric(a: Seq<char>, b: Seq<char>)
    requires
        precedes(a, b),
    ensures
        !precedes(b, a),
        a != b,
{
    lemma_irreflexive(a);
    if precedes(b, a) {
        lemma_transitive(a, b, a);
    }
}

/// Whether `a` stands strictly before `b`.
pub fn before(a: &str, b: &str) -> (r: bool)
    ensures
        r == precedes(a@, b@),
{
    let x = chars_of(a);
    let y = chars_of(b);
    let mut i: usize = 0;
    assert(x@.skip(0) =~= a@);
    assert(y@.skip(0) =~= b@);
    while i < x.len() && i < y.len()
        invariant
            0 <= i <= x@.len(),
            i <= y@.len(),
            precedes(a@, b@) == precedes(x@.skip(i as int), y@.skip(i as int)),
        decreases x@.len() - i,
    {
        assert(x@.skip(i as int)[0] == x@[i as int]);
        assert(y@.skip(i as int)[0] == y@[i as int]);
        if x[i] != y[i] {
            return x[i] < y[i];
        }
        assert(x@.skip(i as int).skip(1) =~= x@.skip(i + 1));
        assert(y@.skip(i as int).skip(1) =~= y@.skip(i + 1));
        i += 1;
    }
    i < y.len()
}

/// Whether each string stands strictly before all that follow it.
pub open spec fn ascending(list: Seq<Seq<char>>) -> bool {
    forall|i: int, j: int|
        0 <= i < j < list.len() ==> precedes(#[trigger] list[i], #[trigger] list[j])
}

/// An ascending list holds nothing twice.
pub proof fn lemma_ascending_distinct(list: Seq<Seq<char>>)
    requires
        ascending(list),
    ensures
        list.no_duplicates(),
{
    assert forall|i: int, j: int| 0 <= i < list.len() && 0 <= j < list.len() && i != j implies list[i]
        != list[j] by {
        if i < j {
            lemma_asymmetric(list[i], list[j]);
        } else {
            lemma_asymmetric(list[j], list[i]);
        }
    }
}

/// Two ascending lists with the same members are the same list.
pub proof fn lemma_ascending_unique(a: Seq<Seq<char>>, b: Seq<Seq<char>>)
    requires
        ascending(a),
        ascending(b),
        a.to_set() == b.to_set(),
    ensures
        a == b,
    decreases a.len(),
{
    if a.len() == 0 {
        if b.len() > 0 {
            assert(b.to_set().contains(b[0]));
            assert(a.to_set().contains(b[0]));
        }
        assert(a =~= b);
    } else {
        assert(a.to_set().contains(a.last()));
        assert(b.to_set().contains(a.last()));
        assert(b.len() > 0);
        assert(b.to_set().contains(b.last()));
        assert(a.to_set().contains(b.last()));
        let i = choose|i: int| 0 <= i < b.len() && b[i] == a.last();
        let j = choose|j: int| 0 <= j < a.len() && a[j] == b.last();
        if i < b.len() - 1 && j < a.len() - 1 {
            assert(precedes(b[i], b[b.len() - 1]));
            assert(precedes(a[j], a[a.len() - 1]));
            lemma_asymmetric(a.last(), b.last());
        }
        assert(a.last() == b.last());
        lemma_ascending_distinct(a);
        lemma_ascending_distinct(b);
        let x = a.drop_last();
        let y = b.drop_last();
        assert(x.to_set() =~= y.to_set()) by {
            assert forall|s: Seq<char>| x.to_set().contains(s) implies y.to_set().contains(s) by {
                let k = choose|k: int| 0 <= k < x.len() && x[k] == s;
                assert(a[k] == s);
                assert(a.to_set().contains(s));
                assert(b.to_set().contains(s));
                let m = choose|m: int| 0 <= m < b.len() && b[m] == s;
                assert(m < b.len() - 1);
                assert(y[m] == s);
            }
            assert forall|s: Seq<char>| y.to_set().contains(s) implies x.to_set().contains(s) by {
                let k = choose|k: int| 0 <= k < y.len() && y[k] == s;
                assert(b[k] == s);
                assert(b.to_set().contains(s));
                assert(a.to_set().contains(s));
                let m = choose|m: int| 0 <= m < a.len() && a[m] == s;
                assert(m < a.len() - 1);
                assert(x[m] == s);
            }
        }
        lemma_ascending_unique(x, y);
        assert(a =~= x.push(a.last()));
        assert(b =~= y.push(b.last()));
    }
}

/// Puts `item` in its place in an ascending list, unless it is there already.
pub fn insert_sorted(list: &mut Vec<String>, item: &str)
    requires
        ascending(views(old(list)@)),
    ensures
        ascending(views(final(list)@)),
        views(final(list)@).to_set() == views(old(list)@).to_set().insert(item@),
{
    let ghost start = views(list@);
    let mut i: usize = 0;
    while i < list.len() && before(list[i].as_str(), item)
        invariant
            0 <= i <= list@.len(),
            start == views(list@),
            forall|j: int| 0 <= j < i ==> precedes(#[trigger] start[j], item@),
        decreases list@.len() - i,
    {
        i += 1;
    }
    if i < list.len() && same(list[i].as_str(), item) {
        assert(start[i as int] == item@);
        assert(start.to_set().insert(item@) =~= start.to_set());
        return;
    }
    proof {
        if i < list@.len() {
            lemma_total(start[i as int], item@);
            assert forall|j: int| i <= j < start.len() implies precedes(
                item@,
                #[trigger] start[j],
            ) by {
                if i < j {
                    lemma_transitive(item@, start[i as int], start[j]);
                }
            }
        }
    }
    let owned = item.to_owned();
    list.insert(i, owned);
    assert(views(list@) =~= start.insert(i as int, item@));
    let ghost grown = views(list@);
    assert forall|s: Seq<char>| grown.to_set().contains(s) == start.to_set().insert(
        item@,
    ).contains(s) by {
        if grown.to_set().contains(s) {
            let k = choose|k: int| 0 <= k < grown.len() && grown[k] == s;
            if k < i {
                assert(start[k] == s);
            } else if k > i {
                assert(start[k - 1] == s);
            }
        }
        if start.to_set().contains(s) {
            let k = choose|k: int| 0 <= k < start.len() && start[k] == s;
            if k < i {
                assert(grown[k] == s);
            } else {
                assert(grown[k + 1] == s);
            }
        }
        assert(grown[i as int] == item@);
    }
    assert(grown.to_set() =~= start.to_set().insert(item@));
    assert forall|a: int, b: int| 0 <= a < b < grown.len() implies precedes(
        #[trigger] grown[a],
        #[trigger] grown[b],
    ) by {
        if b < i {
            assert(precedes(start[a], start[b]));
        } else if a > i {
            assert(precedes(start[a - 1], start[b - 1]));
        } else if a == i {
            assert(grown[b] == start[b - 1]);
        } else if b > i {
            assert(precedes(start[a], start[b - 1]));
        } else {
            assert(grown[a] == start[a]);
        }
    }
}

/// The strings of `list` in ascending order, unless one stands there twice.
pub fn sorted_unique(list: &Vec<String>) -> (r: Option<Vec<String>>)
    ensures
        r is Some <==> views(list@).no_duplicates(),
        r matches Some(sorted) ==> ascending(views(sorted@)) && views(sorted@).to_set() == views(
            list@,
        ).to_set() && sorted@.len() == list@.len(),
{
    let mut sorted: Vec<String> = Vec::new();
    let mut i: usize = 0;
    let ghost all = views(list@);
    assert(views(sorted@).to_set() =~= all.take(0).to_set());
    while i < list.len()
        invariant
            0 <= i <= list@.len(),
            all == views(list@),
            ascending(views(sorted@)),
            views(sorted@).to_set() == all.take(i as int).to_set(),
            sorted@.len() == i,
            all.take(i as int).no_duplicates(),
        decreases list@.len() - i,
    {
        let ghost held = views(sorted@);
        let ghost item = list@[i as int]@;
        let ghost earlier = all.take(i as int);
        let ghost grown = all.take(i + 1);
        if holds(&sorted, list[i].as_str()) {
            proof {
                assert(held.to_set().contains(item));
                assert(earlier.to_set().contains(item));
                let k = choose|k: int| 0 <= k < earlier.len() && earlier[k] == item;
                assert(all[k] == all[i as int]);
            }
            return None;
        }
        insert_sorted(&mut sorted, list[i].as_str());
        proof {
            assert(grown =~= earlier.push(item));
            assert(!earlier.contains(item)) by {
                if earlier.contains(item) {
                    assert(earlier.to_set().contains(item));
                    assert(held.to_set().contains(item));
                }
            }
            assert(grown.to_set() =~= earlier.to_set().insert(item)) by {
                assert forall|s: Seq<char>| grown.to_set().contains(s) == earlier.to_set().insert(
                    item,
                ).contains(s) by {
                    if earlier.contains(s) {
                        let k = choose|k: int| 0 <= k < earlier.len() && earlier[k] == s;
                        assert(grown[k] == s);
                    }
                    assert(grown[i as int] == item);
                    if grown.contains(s) {
                        let k = choose|k: int| 0 <= k < grown.len() && grown[k] == s;
                        if k < i {
                            assert(earlier[k] == s);
                        }
                    }
                }
            }
            assert(grown.no_duplicates()) by {
                assert forall|a: int, b: int|
                    0 <= a < grown.len() && 0 <= b < grown.len() && a != b implies grown[a]
                    != grown[b] by {
                    if a < i && b < i {
                        assert(earlier[a] != earlier[b]);
                    } else if a < i {
                        assert(earlier.contains(earlier[a]));
                    } else if b < i {
                        assert(earlier.contains(earlier[b]));
                    }
                }
            }
            lemma_ascending_distinct(views(sorted@));
            lemma_ascending_distinct(held);
            views(sorted@).unique_seq_to_set();
            held.unique_seq_to_set();
            assert(held.len() == i);
            assert(views(sorted@).len() == sorted@.len());
            assert(!held.to_set().contains(item));
        }
        i += 1;
    }
    assert(all.take(i as int) =~= all);
    Some(sorted)
}

/// Names in their order with one more, where it is new.
pub open spec fn with_name(list: Seq<Seq<char>>, name: Seq<char>) -> Seq<Seq<char>>
    decreases list.len(),
{
    if list.len() == 0 {
        seq![name]
    } else if list.last() == name {
        list
    } else if precedes(list.last(), name) {
        list.push(name)
    } else {
        with_name(list.drop_last(), name).push(list.last())
    }
}

proof fn lemma_with_name(list: Seq<Seq<char>>, name: Seq<char>, at: int)
    requires
        0 <= at <= list.len(),
        forall|j: int|
            at <= j < list.len() ==> #[trigger] list[j] != name && !precedes(list[j], name),
        at > 0 ==> list[at - 1] == name || precedes(list[at - 1], name),
    ensures
        with_name(list, name) == if at > 0 && list[at - 1] == name {
            list
        } else {
            list.insert(at, name)
        },
    decreases list.len(),
{
    if at == list.len() {
        if at == 0 {
            assert(list.insert(at, name) =~= seq![name]);
        } else {
            assert(list.last() == list[at - 1]);
            assert(list.insert(at, name) =~= list.push(name));
        }
    } else {
        assert(list.last() == list[list.len() - 1]);
        lemma_with_name(list.drop_last(), name, at);
        assert(list.drop_last().push(list.last()) =~= list);
        assert(list.insert(at, name) =~= list.drop_last().insert(at, name).push(list.last()));
    }
}

/// Puts a name in its place, where it is new.
pub fn add_name(list: &mut Vec<String>, name: &str)
    ensures
        views(final(list)@) == with_name(views(old(list)@), name@),
{
    let ghost all = views(list@);
    let mut at: usize = list.len();
    let mut known = false;
    while at > 0
        invariant_except_break
            !known,
        invariant
            0 <= at <= list@.len(),
            list@ == old(list)@,
            all == views(list@),
            all.len() == list@.len(),
            forall|j: int|
                at <= j < list@.len() ==> #[trigger] all[j] != name@ && !precedes(all[j], name@),
        ensures
            at > 0 ==> all[at - 1] == name@ || precedes(all[at - 1], name@),
            known == (at > 0 && all[at - 1] == name@),
        decreases at,
    {
        assert(all[at - 1] == list@[at - 1]@);
        if same(list[at - 1].as_str(), name) {
            known = true;
            break;
        }
        if before(list[at - 1].as_str(), name) {
            break;
        }
        at -= 1;
    }
    proof {
        lemma_with_name(all, name@, at as int);
    }
    if !known {
        list.insert(at, name.to_string());
        assert(views(list@) =~= all.insert(at as int, name@));
    }
}

} // verus!
