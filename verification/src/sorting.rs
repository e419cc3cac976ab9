//! Stable sorting.
use vstd::prelude::*;

verus! {

/// What can be sorted.
pub trait Sortable: Sized {
    /// Whether it comes after another.
    spec fn after(self, other: Self) -> bool;

    /// Whether it comes after another.
    fn comes_after(&self, other: &Self) -> (r: bool)
        ensures
            r == self.after(*other),
    ;
}

/// A list with an item put behind all that do not come after it.
pub open spec fn placed<T: Sortable>(list: Seq<T>, item: T) -> Seq<T>
    decreases list.len(),
{
    if list.len() == 0 || !list.last().after(item) {
        list.push(item)
    } else {
        placed(list.drop_last(), item).push(list.last())
    }
}

/// A list in its order, items that none comes after in the order of the list.
pub open spec fn sorted<T: Sortable>(list: Seq<T>) -> Seq<T>
    decreases list.len(),
{
    if list.len() == 0 {
        list
    } else {
        placed(sorted(list.drop_last()), list.last())
    }
}

/// An item is put in at the place behind which all come after it.
pub proof fn lemma_placed<T: Sortable>(list: Seq<T>, item: T, at: int)
    requires
        0 <= at <= list.len(),
        at > 0 ==> !list[at - 1].after(item),
        forall|j: int| at <= j < list.len() ==> (#[trigger] list[j]).after(item),
    ensures
        placed(list, item) == list.insert(at, item),
    decreases list.len(),
{
    if at == list.len() {
        assert(list.insert(at, item) =~= list.push(item));
        if at > 0 {
            assert(list.last() == list[at - 1]);
        }
    } else {
        assert(list.last() == list[list.len() - 1]);
        lemma_placed(list.drop_last(), item, at);
        assert(list.insert(at, item) =~= list.drop_last().insert(at, item).push(list.last()));
    }
}

/// Sorting keeps every item, as often as it stands in the list.
pub proof fn lemma_sorted<T: Sortable>(list: Seq<T>)
    ensures
        sorted(list).len() == list.len(),
        sorted(list).to_multiset() == list.to_multiset(),
    decreases list.len(),
{
    broadcast use vstd::seq_lib::group_to_multiset_ensures;

    if list.len() > 0 {
        lemma_sorted(list.drop_last());
        lemma_placed_members(sorted(list.drop_last()), list.last());
        assert(list =~= list.drop_last().push(list.last()));
    }
}

proof fn lemma_placed_members<T: Sortable>(list: Seq<T>, item: T)
    ensures
        placed(list, item).len() == list.len() + 1,
        placed(list, item).to_multiset() == list.to_multiset().insert(item),
    decreases list.len(),
{
    broadcast use vstd::seq_lib::group_to_multiset_ensures;

    if list.len() == 0 || !list.last().after(item) {
    } else {
        lemma_placed_members(list.drop_last(), item);
        assert(list =~= list.drop_last().push(list.last()));
        assert(placed(list, item).to_multiset() =~= list.to_multiset().insert(item));
    }
}

/// Sorts a list.
pub fn sort<T: Sortable>(list: Vec<T>) -> (r: Vec<T>)
    ensures
        r@ == sorted(list@),
{
    let ghost all = list@;
    let mut rest = list;
    let mut r: Vec<T> = Vec::new();
    let ghost mut count: int = 0;
    assert(all.take(0) =~= Seq::empty());
    assert(all.skip(0) =~= all);
    while rest.len() > 0
        invariant
            0 <= count <= all.len(),
            rest@ == all.skip(count),
            r@ == sorted(all.take(count)),
        decreases rest@.len(),
    {
        let item = rest.remove(0);
        proof {
            assert(item == all[count]);
            assert(all.skip(count).remove(0) =~= all.skip(count + 1));
            assert(all.take(count + 1).drop_last() =~= all.take(count));
            assert(all.take(count + 1).last() == all[count]);
        }
        let ghost sofar = r@;
        let mut at: usize = r.len();
        while at > 0 && r[at - 1].comes_after(&item)
            invariant
                0 <= at <= r@.len(),
                r@ == sofar,
                forall|j: int| at <= j < r@.len() ==> (#[trigger] r@[j]).after(item),
            decreases at,
        {
            at -= 1;
        }
        proof {
            lemma_placed(sofar, item, at as int);
        }
        r.insert(at, item);
        proof {
            count = count + 1;
        }
    }
    assert(all.take(count) =~= all);
    r
}

} // verus!
