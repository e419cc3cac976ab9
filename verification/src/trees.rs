//! What equal JSON values have in common.
use vstd::prelude::*;
use vstd::set_lib::lemma_subset_equality;

use crate::json::{
    all_found, collected, equal, equal_items, key_index, member, object_tree, JsonTree,
};

verus! {

/// The value that was put in last under a key.
pub open spec fn pair_value(pairs: Seq<(Seq<char>, JsonTree)>, key: Seq<char>) -> Option<JsonTree>
    decreases pairs.len(),
{
    if pairs.len() == 0 {
        None
    } else if pairs.last().0 == key {
        Some(pairs.last().1)
    } else {
        pair_value(pairs.drop_last(), key)
    }
}

/// The value under a key once one more was put in.
pub broadcast proof fn lemma_pair_pushed(
    pairs: Seq<(Seq<char>, JsonTree)>,
    pair: (Seq<char>, JsonTree),
    key: Seq<char>,
)
    ensures
        #[trigger] pair_value(pairs.push(pair), key) == if pair.0 == key {
            Some(pair.1)
        } else {
            pair_value(pairs, key)
        },
{
    assert(pairs.push(pair).drop_last() =~= pairs);
}

/// Whether no two members have the same key.
pub open spec fn keys_apart(members: Seq<(Seq<char>, JsonTree)>) -> bool {
    forall|i: int, j: int|
        0 <= i < j < members.len() ==> (#[trigger] members[i]).0 != (#[trigger] members[j]).0
}

/// A key is found where it stands.
pub proof fn lemma_key_index(members: Seq<(Seq<char>, JsonTree)>, key: Seq<char>)
    ensures
        match key_index(members, key) {
            Some(i) => 0 <= i < members.len() && members[i].0 == key,
            None => forall|j: int| 0 <= j < members.len() ==> (#[trigger] members[j]).0 != key,
        },
    decreases members.len(),
{
    if members.len() > 0 && members.last().0 != key {
        let front = members.drop_last();
        lemma_key_index(front, key);
        if key_index(members, key) is None {
            assert forall|j: int| 0 <= j < members.len() implies (#[trigger] members[j]).0 != key by {
                if j < front.len() {
                    assert(front[j].0 != key);
                }
            }
        }
    }
}

/// An object holds under each key what was put in last.
pub proof fn lemma_collected(pairs: Seq<(Seq<char>, JsonTree)>)
    ensures
        keys_apart(collected(pairs)),
        forall|key: Seq<char>| #[trigger]
            member(object_tree(pairs), key) == pair_value(pairs, key),
    decreases pairs.len(),
{
    if pairs.len() > 0 {
        let front = pairs.drop_last();
        let held = collected(front);
        let all = collected(pairs);
        let last = pairs.last();
        lemma_collected(front);
        lemma_key_index(held, last.0);
        assert forall|i: int, j: int| 0 <= i < j < all.len() implies (#[trigger] all[i]).0 != (
        #[trigger] all[j]).0 by {
            if j < held.len() {
                assert(held[i].0 != held[j].0);
            } else {
                assert(held[i].0 != last.0);
            }
        }
        assert forall|key: Seq<char>| #[trigger] member(object_tree(pairs), key) == pair_value(
            pairs,
            key,
        ) by {
            assert(member(object_tree(front), key) == pair_value(front, key));
            lemma_key_index(all, key);
            lemma_key_index(held, key);
            match key_index(held, key) {
                Some(i) => {
                    assert(all[i].0 == key);
                },
                None => {},
            }
            if key == last.0 {
                match key_index(held, key) {
                    Some(i) => {
                        assert(all[i] == last);
                        lemma_index_apart(all, i);
                    },
                    None => {
                        assert(all[all.len() - 1] == last);
                        lemma_index_apart(all, all.len() - 1);
                    },
                }
            } else {
                match key_index(held, key) {
                    Some(i) => {
                        assert(all[i] == held[i]);
                        lemma_index_apart(all, i);
                    },
                    None => {
                        match key_index(all, key) {
                            Some(i) => {
                                if i < held.len() {
                                    assert(held[i].0 != key);
                                }
                            },
                            None => {},
                        }
                    },
                }
            }
        }
    }
}

/// Where keys are apart, a key is found at its only place.
pub proof fn lemma_index_apart(members: Seq<(Seq<char>, JsonTree)>, at: int)
    requires
        keys_apart(members),
        0 <= at < members.len(),
    ensures
        key_index(members, members[at].0) == Some(at),
{
    let key = members[at].0;
    lemma_key_index(members, key);
    match key_index(members, key) {
        Some(i) => {
            if i < at {
                assert(members[i].0 != members[at].0);
            } else if at < i {
                assert(members[at].0 != members[i].0);
            }
        },
        None => {
            assert(members[at].0 != key);
        },
    }
}

/// Equal lists are as long as each other and equal one by one.
pub proof fn lemma_equal_items(a: Seq<JsonTree>, b: Seq<JsonTree>)
    requires
        equal_items(a, b),
    ensures
        a.len() == b.len(),
        forall|i: int| 0 <= i < a.len() ==> equal(#[trigger] a[i], b[i]),
    decreases a.len(),
{
    if a.len() > 0 && b.len() > 0 {
        lemma_equal_items(a.drop_last(), b.drop_last());
        assert forall|i: int| 0 <= i < a.len() implies equal(#[trigger] a[i], b[i]) by {
            if i < a.len() - 1 {
                assert(equal(a.drop_last()[i], b.drop_last()[i]));
            }
        }
    }
}

proof fn lemma_all_found(
    members: Seq<(Seq<char>, JsonTree)>,
    others: Seq<(Seq<char>, JsonTree)>,
    at: int,
)
    requires
        all_found(members, others),
        0 <= at < members.len(),
    ensures
        key_index(others, members[at].0) matches Some(i) && equal(members[at].1, others[i].1),
    decreases members.len(),
{
    if at < members.len() - 1 {
        lemma_all_found(members.drop_last(), others, at);
    }
}

/// Whether a JSON value is an object without repeated keys.
pub open spec fn well_formed(tree: JsonTree) -> bool {
    tree matches JsonTree::Object(members) && keys_apart(members)
}

/// Equal objects have the same keys and equal values under each.
pub proof fn lemma_equal_trees(a: JsonTree, b: JsonTree, key: Seq<char>)
    requires
        equal(a, b),
        well_formed(a),
        well_formed(b),
    ensures
        match (member(a, key), member(b, key)) {
            (Some(x), Some(y)) => equal(x, y),
            (None, None) => true,
            _ => false,
        },
{
    let x = a->Object_0;
    let y = b->Object_0;
    lemma_key_index(x, key);
    lemma_key_index(y, key);
    match key_index(x, key) {
        Some(i) => {
            lemma_all_found(x, y, i);
        },
        None => {
            match key_index(y, key) {
                Some(j) => {
                    lemma_same_keys(x, y);
                    assert(keys_of(y)[j] == key);
                    assert(keys_of(y).to_set().contains(key));
                    assert(keys_of(x).to_set().contains(key));
                    let i = choose|i: int| 0 <= i < keys_of(x).len() && keys_of(x)[i] == key;
                    assert(x[i].0 != key);
                },
                None => {},
            }
        },
    }
}

/// What was put in under a key is the same in equal objects.
pub proof fn lemma_equal_objects(
    a: Seq<(Seq<char>, JsonTree)>,
    b: Seq<(Seq<char>, JsonTree)>,
    key: Seq<char>,
)
    requires
        equal(object_tree(a), object_tree(b)),
    ensures
        match (pair_value(a, key), pair_value(b, key)) {
            (Some(x), Some(y)) => equal(x, y),
            (None, None) => true,
            _ => false,
        },
{
    lemma_collected(a);
    lemma_collected(b);
    assert(member(object_tree(a), key) == pair_value(a, key));
    assert(member(object_tree(b), key) == pair_value(b, key));
    lemma_equal_trees(object_tree(a), object_tree(b), key);
}

/// The keys of members.
pub open spec fn keys_of(members: Seq<(Seq<char>, JsonTree)>) -> Seq<Seq<char>> {
    members.map_values(|m: (Seq<char>, JsonTree)| m.0)
}

proof fn lemma_same_keys(x: Seq<(Seq<char>, JsonTree)>, y: Seq<(Seq<char>, JsonTree)>)
    requires
        keys_apart(x),
        keys_apart(y),
        x.len() == y.len(),
        all_found(x, y),
    ensures
        keys_of(x).to_set() == keys_of(y).to_set(),
{
    let a = keys_of(x);
    let b = keys_of(y);
    assert(a.no_duplicates()) by {
        assert forall|i: int, j: int| 0 <= i < a.len() && 0 <= j < a.len() && i != j implies a[i]
            != a[j] by {
            if i < j {
                assert(x[i].0 != x[j].0);
            } else {
                assert(x[j].0 != x[i].0);
            }
        }
    }
    assert(b.no_duplicates()) by {
        assert forall|i: int, j: int| 0 <= i < b.len() && 0 <= j < b.len() && i != j implies b[i]
            != b[j] by {
            if i < j {
                assert(y[i].0 != y[j].0);
            } else {
                assert(y[j].0 != y[i].0);
            }
        }
    }
    a.unique_seq_to_set();
    b.unique_seq_to_set();
    assert forall|key: Seq<char>| a.to_set().contains(key) implies b.to_set().contains(key) by {
        let i = choose|i: int| 0 <= i < a.len() && a[i] == key;
        lemma_all_found(x, y, i);
        lemma_key_index(y, key);
        let j = key_index(y, key)->0;
        assert(b[j] == key);
    }
    lemma_subset_equality(a.to_set(), b.to_set());
}

} // verus!
