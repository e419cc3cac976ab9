//! What becomes of requirements that ask for the same.
use vstd::prelude::*;
use vstd::string::*;

use crate::inspection::items::chosen_exists;
use crate::json::{equal, no_members, object_tree, JsonTree};
use crate::lua::manifesting::{
    agree, chosen_name, climbed_before, disagreement, kind_order, merged, requirement_order,
    same_need,
};
use crate::model::ladder::ExecutionLadder;
use crate::model::manifest::{Requirement, RequirementCandidate, RequirementKind};
use crate::model::ordering::{text_order, then_by, Order};
use crate::model::wire::requirement_candidate_trees;
use crate::order::{lemma_asymmetric, lemma_total, lemma_transitive, precedes};
use crate::sorting::{lemma_sorted, placed, sorted, Sortable};
use crate::trees::{lemma_equal_items, lemma_equal_objects, lemma_pair_pushed, pair_value};

verus! {

/// Whether optional texts are the same.
pub open spec fn same_option(a: Option<String>, b: Option<String>) -> bool {
    match (a, b) {
        (Some(x), Some(y)) => x@ == y@,
        (None, None) => true,
        _ => false,
    }
}

/// Whether two candidates ask for the same: the same command or package, of the same
/// provider, in the same least version.
pub open spec fn same_candidate(a: RequirementCandidate, b: RequirementCandidate) -> bool {
    match (a, b) {
        (
            RequirementCandidate::Command { name: x, minimum: least },
            RequirementCandidate::Command { name: y, minimum: other },
        ) => x@ == y@ && same_option(least, other),
        (
            RequirementCandidate::Package { name: x, provider: from, minimum: least, .. },
            RequirementCandidate::Package { name: y, provider: by, minimum: other, .. },
        ) => x@ == y@ && same_option(from, by) && same_option(least, other),
        _ => false,
    }
}

/// Whether two requirements ask for the same candidates in the same way.
pub open spec fn same_wish(a: Requirement, b: Requirement) -> bool {
    &&& a.candidates@.len() == b.candidates@.len()
    &&& forall|i: int|
        0 <= i < a.candidates@.len() ==> same_candidate(
            #[trigger] a.candidates@[i],
            b.candidates@[i],
        )
    &&& a.choice == b.choice
}

/// Whether two requirements have the same subject: the kind, the chosen product, the
/// provider and what that knows it by.
pub open spec fn same_subject(a: Requirement, b: Requirement) -> bool {
    &&& a.kind == b.kind
    &&& a.candidates@[a.selected as int].product() == b.candidates@[b.selected as int].product()
    &&& a.binding.provider@ == b.binding.provider@
    &&& a.binding.identity@ == b.binding.identity@
}

/// Whether a requirement is kept in a list: the list has one of the same subject that asks
/// for the same candidates in the same way, and is waited for no later.
pub open spec fn kept_in(ladder: ExecutionLadder, list: Seq<Requirement>, item: Requirement) -> bool {
    exists|k: int|
        0 <= k < list.len() && same_subject(#[trigger] list[k], item) && same_wish(list[k], item)
            && !climbed_before(ladder, item.when, list[k].when)
}

/// Whether a requirement is another but for when it is waited for.
pub open spec fn taken_from(item: Requirement, other: Requirement) -> bool {
    item == (Requirement { when: item.when, ..other })
}

/// Whether a requirement is waited for when another of the same subject is.
pub open spec fn timed_as(item: Requirement, other: Requirement) -> bool {
    item.when == other.when && same_need(item, other)
}

/// Whether a requirement of a result stems from a list: it is one of the list, waited for
/// at the rung of one of the same subject.
pub open spec fn stems_from(list: Seq<Requirement>, item: Requirement) -> bool {
    &&& exists|i: int| 0 <= i < list.len() && #[trigger] taken_from(item, list[i])
    &&& exists|j: int| 0 <= j < list.len() && #[trigger] timed_as(item, list[j])
}

/// Making requirements one loses nothing that was asked: each is kept with its candidates,
/// their least versions among them, and its choice, and is waited for no later. Nothing
/// comes in that was not asked.
pub proof fn law_merging_keeps_what_was_asked(requirements: Seq<Requirement>, ladder: ExecutionLadder)
    requires
        forall|i: int| 0 <= i < requirements.len() ==> chosen_exists(#[trigger] requirements[i]),
    ensures
        merged(sorted(requirements), ladder) matches Ok(result) ==> {
            &&& forall|i: int|
                0 <= i < requirements.len() ==> #[trigger] kept_in(ladder, result, requirements[i])
            &&& forall|k: int|
                0 <= k < result.len() ==> #[trigger] stems_from(requirements, result[k])
        },
{
    let list = sorted(requirements);
    lemma_sorted(requirements);
    lemma_members(requirements, list);
    assert forall|i: int| 0 <= i < list.len() implies chosen_exists(#[trigger] list[i]) by {
        assert(requirements.contains(list[i]));
    }
    if let Ok(result) = merged(list, ladder) {
        lemma_merged(list, ladder);
        assert forall|i: int| 0 <= i < requirements.len() implies #[trigger] kept_in(
            ladder,
            result,
            requirements[i],
        ) by {
            assert(list.contains(requirements[i]));
            lemma_kept(ladder, result, requirements[i]);
        }
        assert forall|k: int| 0 <= k < result.len() implies #[trigger] stems_from(
            requirements,
            result[k],
        ) by {
            assert(stems_from(list, result[k]));
            let i = choose|i: int| 0 <= i < list.len() && #[trigger] taken_from(result[k], list[i]);
            let j = choose|j: int| 0 <= j < list.len() && #[trigger] timed_as(result[k], list[j]);
            assert(requirements.contains(list[i]));
            assert(requirements.contains(list[j]));
            let x = choose|x: int| 0 <= x < requirements.len() && requirements[x] == list[i];
            let y = choose|y: int| 0 <= y < requirements.len() && requirements[y] == list[j];
            assert(taken_from(result[k], requirements[x]));
            assert(timed_as(result[k], requirements[y]));
        }
    }
}

/// Whether a requirement is listed before another: commands before packages, and those of
/// one kind by the names of their products.
pub open spec fn listed_before(a: Requirement, b: Requirement) -> bool {
    let x = a.candidates@[a.selected as int].product();
    let y = b.candidates@[b.selected as int].product();
    if a.kind == b.kind {
        x == y || precedes(x, y)
    } else {
        a.kind == RequirementKind::Command
    }
}

/// Where one rung stands before another in a ladder, it is climbed before it and not the
/// other way round.
pub proof fn law_rungs_are_climbed_in_their_order(ladder: ExecutionLadder, i: int, j: int)
    requires
        0 <= i < j < ladder.flattened@.len(),
        forall|x: int, y: int|
            0 <= x < y < ladder.flattened@.len() ==> (#[trigger] ladder.flattened@[x]).id.name@ != (
            #[trigger] ladder.flattened@[y]).id.name@,
    ensures
        climbed_before(ladder, ladder.flattened@[i].id, ladder.flattened@[j].id),
        !climbed_before(ladder, ladder.flattened@[j].id, ladder.flattened@[i].id),
{
    let a = ladder.flattened@[i].id;
    let b = ladder.flattened@[j].id;
    assert(ladder.stands_at(a, i));
    assert(ladder.stands_at(b, j));
    let x = choose|x: int| ladder.stands_at(a, x);
    let y = choose|y: int| ladder.stands_at(b, y);
    assert(ladder.stands_at(a, x));
    assert(ladder.stands_at(b, y));
    assert(x == i) by {
        if x < i {
            assert(ladder.flattened@[x].id.name@ != ladder.flattened@[i].id.name@);
        } else if i < x {
            assert(ladder.flattened@[i].id.name@ != ladder.flattened@[x].id.name@);
        }
    }
    assert(y == j) by {
        if y < j {
            assert(ladder.flattened@[y].id.name@ != ladder.flattened@[j].id.name@);
        } else if j < y {
            assert(ladder.flattened@[j].id.name@ != ladder.flattened@[y].id.name@);
        }
    }
}

/// Requirements are refused exactly where two of the same subject ask for different
/// candidates, least versions or choices, and where they are accepted none is left twice.
pub proof fn law_conflicting_requirements_are_refused(
    requirements: Seq<Requirement>,
    ladder: ExecutionLadder,
)
    requires
        forall|i: int| 0 <= i < requirements.len() ==> chosen_exists(#[trigger] requirements[i]),
    ensures
        merged(sorted(requirements), ladder) matches Ok(result) ==> {
            &&& forall|i: int, j: int|
                0 <= i < requirements.len() && 0 <= j < requirements.len() && same_subject(
                    #[trigger] requirements[i],
                    #[trigger] requirements[j],
                ) ==> same_wish(requirements[i], requirements[j])
            &&& forall|k: int, m: int|
                0 <= k < m < result.len() ==> !same_subject(
                    #[trigger] result[k],
                    #[trigger] result[m],
                ) && listed_before(result[k], result[m])
        },
        merged(sorted(requirements), ladder) matches Err(message) ==> exists|i: int, j: int|
            0 <= i < requirements.len() && 0 <= j < requirements.len() && same_subject(
                #[trigger] requirements[i],
                #[trigger] requirements[j],
            ) && (requirements[i].choice != requirements[j].choice || !equal(
                JsonTree::Array(requirement_candidate_trees(requirements[i].candidates@)),
                JsonTree::Array(requirement_candidate_trees(requirements[j].candidates@)),
            )) && message == disagreement(requirements[i], requirements[j]),
{
    let list = sorted(requirements);
    lemma_sorted(requirements);
    lemma_members(requirements, list);
    lemma_in_order(requirements);
    assert forall|i: int| 0 <= i < list.len() implies chosen_exists(#[trigger] list[i]) by {
        assert(requirements.contains(list[i]));
    }
    match merged(list, ladder) {
        Ok(result) => {
            lemma_merged(list, ladder);
            lemma_apart(list, ladder);
            assert forall|k: int, m: int| 0 <= k < m < result.len() implies !same_subject(
                #[trigger] result[k],
                #[trigger] result[m],
            ) && listed_before(result[k], result[m]) by {
                lemma_chosen(list, result[k]);
                lemma_chosen(list, result[m]);
                assert(!same_need(result[k], result[m]) && no_later(result[k], result[m]));
            }
            assert forall|i: int, j: int|
                0 <= i < requirements.len() && 0 <= j < requirements.len() && same_subject(
                    #[trigger] requirements[i],
                    #[trigger] requirements[j],
                ) implies same_wish(requirements[i], requirements[j]) by {
                assert(list.contains(requirements[i]));
                assert(list.contains(requirements[j]));
                lemma_wishes(ladder, result, requirements[i], requirements[j]);
            }
        },
        Err(message) => {
            let (x, y) = lemma_refused(list, ladder);
            assert(requirements.contains(list[x]));
            assert(requirements.contains(list[y]));
            let i = choose|i: int| 0 <= i < requirements.len() && requirements[i] == list[x];
            let j = choose|j: int| 0 <= j < requirements.len() && requirements[j] == list[y];
            assert(same_subject(requirements[i], requirements[j]));
        },
    }
}

/// Whether a requirement stands for another.
#[verifier::opaque]
pub open spec fn stands_for(ladder: ExecutionLadder, held: Requirement, item: Requirement) -> bool {
    &&& same_need(held, item)
    &&& same_wish(held, item)
    &&& !climbed_before(ladder, item.when, held.when)
    &&& chosen_exists(held)
}

/// Whether a requirement is merged into a list.
pub open spec fn merged_into(
    ladder: ExecutionLadder,
    list: Seq<Requirement>,
    item: Requirement,
) -> bool {
    exists|k: int| 0 <= k < list.len() && #[trigger] stands_for(ladder, list[k], item)
}

proof fn lemma_kept(ladder: ExecutionLadder, list: Seq<Requirement>, item: Requirement)
    requires
        merged_into(ladder, list, item),
        chosen_exists(item),
    ensures
        kept_in(ladder, list, item),
{
    reveal(stands_for);
    let k = choose|k: int| 0 <= k < list.len() && #[trigger] stands_for(ladder, list[k], item);
    assert(same_subject(list[k], item));
}

proof fn lemma_chosen(list: Seq<Requirement>, item: Requirement)
    requires
        stems_from(list, item),
        forall|i: int| 0 <= i < list.len() ==> chosen_exists(#[trigger] list[i]),
    ensures
        chosen_exists(item),
{
    let i = choose|i: int| 0 <= i < list.len() && #[trigger] taken_from(item, list[i]);
    assert(chosen_exists(list[i]));
}

proof fn lemma_wishes(
    ladder: ExecutionLadder,
    result: Seq<Requirement>,
    a: Requirement,
    b: Requirement,
)
    requires
        merged_into(ladder, result, a),
        merged_into(ladder, result, b),
        same_subject(a, b),
        chosen_exists(a),
        chosen_exists(b),
        forall|k: int, m: int|
            0 <= k < m < result.len() ==> !same_need(#[trigger] result[k], #[trigger] result[m]),
    ensures
        same_wish(a, b),
{
    reveal(stands_for);
    let k = choose|k: int| 0 <= k < result.len() && #[trigger] stands_for(ladder, result[k], a);
    let m = choose|m: int| 0 <= m < result.len() && #[trigger] stands_for(ladder, result[m], b);
    if k < m {
        assert(!same_need(result[k], result[m]));
    } else if m < k {
        assert(!same_need(result[m], result[k]));
    }
    assert forall|c: int| 0 <= c < a.candidates@.len() implies same_candidate(
        #[trigger] a.candidates@[c],
        b.candidates@[c],
    ) by {
        assert(same_candidate(result[k].candidates@[c], a.candidates@[c]));
        assert(same_candidate(result[k].candidates@[c], b.candidates@[c]));
    }
}

proof fn lemma_stands_for_itself(ladder: ExecutionLadder, item: Requirement)
    requires
        chosen_exists(item),
    ensures
        stands_for(ladder, item, item),
{
    reveal(stands_for);
}

proof fn lemma_stands_for_agreed(ladder: ExecutionLadder, held: Requirement, item: Requirement)
    requires
        same_need(held, item),
        same_wish(held, item),
        chosen_exists(held),
    ensures
        !climbed_before(ladder, item.when, held.when) ==> stands_for(ladder, held, item),
        stands_for(ladder, Requirement { when: item.when, ..held }, item),
{
    reveal(stands_for);
    let early = Requirement { when: item.when, ..held };
    assert(same_wish(early, item));
}

proof fn lemma_stands_for_earlier(
    ladder: ExecutionLadder,
    held: Requirement,
    item: Requirement,
    other: Requirement,
)
    requires
        stands_for(ladder, held, other),
        climbed_before(ladder, item.when, held.when),
    ensures
        stands_for(ladder, Requirement { when: item.when, ..held }, other),
{
    reveal(stands_for);
    let early = Requirement { when: item.when, ..held };
    assert(same_wish(early, other));
}

proof fn lemma_members(a: Seq<Requirement>, b: Seq<Requirement>)
    requires
        a.to_multiset() == b.to_multiset(),
    ensures
        forall|i: int| 0 <= i < a.len() ==> b.contains(#[trigger] a[i]),
        forall|i: int| 0 <= i < b.len() ==> a.contains(#[trigger] b[i]),
{
    a.to_multiset_ensures();
    b.to_multiset_ensures();
    assert forall|i: int| 0 <= i < a.len() implies b.contains(#[trigger] a[i]) by {
        assert(a.contains(a[i]));
        assert(a.to_multiset().count(a[i]) > 0);
    }
    assert forall|i: int| 0 <= i < b.len() implies a.contains(#[trigger] b[i]) by {
        assert(b.contains(b[i]));
        assert(b.to_multiset().count(b[i]) > 0);
    }
}

proof fn lemma_merged(list: Seq<Requirement>, ladder: ExecutionLadder)
    requires
        merged(list, ladder) is Ok,
        forall|i: int| 0 <= i < list.len() ==> chosen_exists(#[trigger] list[i]),
    ensures
        forall|i: int|
            0 <= i < list.len() ==> #[trigger] merged_into(ladder, merged(list, ladder)->Ok_0, list[i]),
        forall|k: int|
            0 <= k < (merged(list, ladder)->Ok_0).len() ==> #[trigger] stems_from(
                list,
                (merged(list, ladder)->Ok_0)[k],
            ),
    decreases list.len(),
{
    if list.len() > 0 {
        let front = list.drop_last();
        assert forall|i: int| 0 <= i < front.len() implies chosen_exists(#[trigger] front[i]) by {
            assert(chosen_exists(list[i]));
        }
        assert(chosen_exists(list[list.len() - 1]));
        lemma_merged(front, ladder);
        let sofar = merged(front, ladder)->Ok_0;
        if sofar.len() > 0 && same_need(sofar.last(), list.last()) {
            lemma_agreement(sofar.last(), list.last());
        }
        lemma_merged_step(list, ladder, sofar, merged(list, ladder)->Ok_0);
        lemma_stemming(list, ladder, sofar, merged(list, ladder)->Ok_0);
    }
}

proof fn lemma_held(
    list: Seq<Requirement>,
    ladder: ExecutionLadder,
    sofar: Seq<Requirement>,
    result: Seq<Requirement>,
    i: int,
)
    requires
        0 <= i < list.len() - 1,
        list.len() > 0,
        forall|i: int| 0 <= i < list.len() ==> chosen_exists(#[trigger] list[i]),
        forall|i: int|
            0 <= i < list.len() - 1 ==> #[trigger] merged_into(ladder, sofar, list.drop_last()[i]),
        forall|k: int|
            0 <= k < sofar.len() ==> #[trigger] stems_from(list.drop_last(), sofar[k]),
        ({
            let item = list.last();
            if sofar.len() == 0 || !same_need(sofar.last(), item) {
                result == sofar.push(item)
            } else {
                &&& same_wish(sofar.last(), item)
                &&& if climbed_before(ladder, item.when, sofar.last().when) {
                    result == sofar.drop_last().push(Requirement { when: item.when, ..sofar.last() })
                } else {
                    result == sofar
                }
            }
        }),
    ensures
        merged_into(ladder, result, list[i]),
{
    let front = list.drop_last();
    assert(front[i] == list[i]);
    assert(merged_into(ladder, sofar, front[i]));
    let k = choose|k: int| 0 <= k < sofar.len() && #[trigger] stands_for(ladder, sofar[k], front[i]);
    if k == sofar.len() - 1 && same_need(sofar.last(), list.last()) && climbed_before(
        ladder,
        list.last().when,
        sofar.last().when,
    ) {
        lemma_stands_for_earlier(ladder, sofar[k], list.last(), list[i]);
        assert(result[k] == (Requirement { when: list.last().when, ..sofar[k] }));
    } else {
        assert(result[k] == sofar[k]);
    }
    assert(stands_for(ladder, result[k], list[i]));
}

proof fn lemma_merged_step(
    list: Seq<Requirement>,
    ladder: ExecutionLadder,
    sofar: Seq<Requirement>,
    result: Seq<Requirement>,
)
    requires
        list.len() > 0,
        forall|i: int| 0 <= i < list.len() ==> chosen_exists(#[trigger] list[i]),
        forall|i: int|
            0 <= i < list.len() - 1 ==> #[trigger] merged_into(ladder, sofar, list.drop_last()[i]),
        forall|k: int|
            0 <= k < sofar.len() ==> #[trigger] stems_from(list.drop_last(), sofar[k]),
        ({
            let item = list.last();
            if sofar.len() == 0 || !same_need(sofar.last(), item) {
                result == sofar.push(item)
            } else {
                &&& same_wish(sofar.last(), item)
                &&& if climbed_before(ladder, item.when, sofar.last().when) {
                    result == sofar.drop_last().push(Requirement { when: item.when, ..sofar.last() })
                } else {
                    result == sofar
                }
            }
        }),
    ensures
        forall|i: int| 0 <= i < list.len() ==> #[trigger] merged_into(ladder, result, list[i]),
{
    let front = list.drop_last();
    let item = list.last();
    let end = list.len() - 1;
    assert(chosen_exists(list[end]));
    assert forall|i: int| 0 <= i < front.len() implies chosen_exists(#[trigger] front[i]) by {
        assert(chosen_exists(list[i]));
    }
    assert forall|i: int| 0 <= i < list.len() implies #[trigger] merged_into(ladder, result, list[i]) by {
        if i < front.len() {
            lemma_held(list, ladder, sofar, result, i);
        } else if sofar.len() > 0 && same_need(sofar.last(), item) {
            assert(stems_from(front, sofar[sofar.len() - 1]));
            lemma_chosen(front, sofar[sofar.len() - 1]);
            lemma_stands_for_agreed(ladder, sofar.last(), item);
            assert(stands_for(ladder, result[result.len() - 1], list[i]));
        } else {
            lemma_stands_for_itself(ladder, item);
            assert(stands_for(ladder, result[result.len() - 1], list[i]));
        }
    }
}

proof fn lemma_stemming(
    list: Seq<Requirement>,
    ladder: ExecutionLadder,
    sofar: Seq<Requirement>,
    result: Seq<Requirement>,
)
    requires
        list.len() > 0,
        forall|i: int| 0 <= i < list.len() ==> chosen_exists(#[trigger] list[i]),
        forall|i: int|
            0 <= i < list.len() - 1 ==> #[trigger] merged_into(ladder, sofar, list.drop_last()[i]),
        forall|k: int|
            0 <= k < sofar.len() ==> #[trigger] stems_from(list.drop_last(), sofar[k]),
        ({
            let item = list.last();
            if sofar.len() == 0 || !same_need(sofar.last(), item) {
                result == sofar.push(item)
            } else {
                &&& same_wish(sofar.last(), item)
                &&& if climbed_before(ladder, item.when, sofar.last().when) {
                    result == sofar.drop_last().push(Requirement { when: item.when, ..sofar.last() })
                } else {
                    result == sofar
                }
            }
        }),
    ensures
        forall|k: int| 0 <= k < result.len() ==> #[trigger] stems_from(list, result[k]),
{
    let front = list.drop_last();
    let end = list.len() - 1;
    assert forall|k: int| 0 <= k < result.len() implies #[trigger] stems_from(list, result[k]) by {
        if k < sofar.len() {
            assert(stems_from(front, sofar[k]));
            let i = choose|i: int| 0 <= i < front.len() && #[trigger] taken_from(sofar[k], front[i]);
            let j = choose|j: int| 0 <= j < front.len() && #[trigger] timed_as(sofar[k], front[j]);
            assert(taken_from(result[k], list[i]));
            if result[k] == sofar[k] {
                assert(timed_as(result[k], list[j]));
            } else {
                assert(timed_as(result[k], list[end]));
            }
        } else {
            assert(taken_from(result[k], list[end]));
            assert(timed_as(result[k], list[end]));
        }
    }
}

proof fn lemma_refused(list: Seq<Requirement>, ladder: ExecutionLadder) -> (found: (int, int))
    requires
        merged(list, ladder) is Err,
        forall|i: int| 0 <= i < list.len() ==> chosen_exists(#[trigger] list[i]),
    ensures
        0 <= found.0 < list.len(),
        0 <= found.1 < list.len(),
        same_need(list[found.0], list[found.1]),
        !agree(list[found.0], list[found.1]),
        merged(list, ladder)->Err_0 == disagreement(list[found.0], list[found.1]),
    decreases list.len(),
{
    let front = list.drop_last();
    let item = list.last();
    assert forall|i: int| 0 <= i < front.len() implies chosen_exists(#[trigger] front[i]) by {
        assert(chosen_exists(list[i]));
    }
    if merged(front, ladder) is Err {
        lemma_refused(front, ladder)
    } else {
        let sofar = merged(front, ladder)->Ok_0;
        lemma_merged(front, ladder);
        let held = sofar[sofar.len() - 1];
        assert(stems_from(front, held));
        let a = choose|a: int| 0 <= a < front.len() && #[trigger] taken_from(held, front[a]);
        assert(list[a] == front[a]);
        lemma_same_agreement(held, list[a], item);
        (a, list.len() - 1)
    }
}

proof fn lemma_same_agreement(held: Requirement, other: Requirement, item: Requirement)
    requires
        taken_from(held, other),
    ensures
        agree(held, item) == agree(other, item),
        same_need(held, item) == same_need(other, item),
        disagreement(held, item) == disagreement(other, item),
{
}

/// Requirements that agree ask for the same candidates in the same way.
proof fn lemma_agreement(a: Requirement, b: Requirement)
    requires
        agree(a, b),
    ensures
        same_wish(a, b),
{
    let x = requirement_candidate_trees(a.candidates@);
    let y = requirement_candidate_trees(b.candidates@);
    lemma_equal_items(x, y);
    assert(x.len() == a.candidates@.len());
    assert(y.len() == b.candidates@.len());
    assert forall|i: int| 0 <= i < a.candidates@.len() implies same_candidate(
        #[trigger] a.candidates@[i],
        b.candidates@[i],
    ) by {
        assert(equal(x[i], y[i]));
        assert(x[i] == a.candidates@[i].tree());
        assert(y[i] == b.candidates@[i].tree());
        lemma_candidates(a.candidates@[i], b.candidates@[i]);
    }
}

/// The members that a candidate is serialised with.
pub open spec fn candidate_members(v: RequirementCandidate) -> Seq<(Seq<char>, JsonTree)> {
    match v {
        RequirementCandidate::Command { name, minimum } => {
            let m = no_members().push(("kind"@, JsonTree::Text("command"@)));
            let m = m.push(("name"@, JsonTree::Text(name@)));
            if minimum is Some {
                m.push(("minimum"@, JsonTree::Text(minimum->0@)))
            } else {
                m
            }
        },
        RequirementCandidate::Package { name, provider, minimum, publications, with } => {
            let m = no_members().push(("kind"@, JsonTree::Text("package"@)));
            let m = m.push(("name"@, JsonTree::Text(name@)));
            let m = if provider is Some {
                m.push(("provider"@, JsonTree::Text(provider->0@)))
            } else {
                m
            };
            let m = if minimum is Some {
                m.push(("minimum"@, JsonTree::Text(minimum->0@)))
            } else {
                m
            };
            let m = m.push(("publications"@, publications.tree()));
            m.push(("with"@, with.tree()))
        },
    }
}

proof fn lemma_candidates(a: RequirementCandidate, b: RequirementCandidate)
    requires
        equal(a.tree(), b.tree()),
    ensures
        same_candidate(a, b),
{
    broadcast use lemma_pair_pushed;

    reveal_strlit("kind");
    reveal_strlit("name");
    reveal_strlit("minimum");
    reveal_strlit("provider");
    reveal_strlit("publications");
    reveal_strlit("with");
    reveal_strlit("command");
    reveal_strlit("package");
    let x = candidate_members(a);
    let y = candidate_members(b);
    assert("kind"@.len() == 4 && "name"@.len() == 4 && "with"@.len() == 4);
    assert("minimum"@.len() == 7 && "provider"@.len() == 8 && "publications"@.len() == 12);
    assert("kind"@[0] == 'k' && "name"@[0] == 'n' && "with"@[0] == 'w');
    assert("command"@[0] == 'c' && "package"@[0] == 'p');
    assert(a.tree() == object_tree(x));
    assert(b.tree() == object_tree(y));
    lemma_equal_objects(x, y, "kind"@);
    lemma_equal_objects(x, y, "name"@);
    lemma_equal_objects(x, y, "minimum"@);
    lemma_equal_objects(x, y, "provider"@);
    assert(pair_value(no_members(), "minimum"@) is None);
    assert(pair_value(no_members(), "provider"@) is None);
}

/// Whether a subject comes no later than another.
pub open spec fn no_later(a: Requirement, b: Requirement) -> bool {
    subject_order(a, b) != Order::After
}

/// The order of subjects.
pub open spec fn subject_order(a: Requirement, b: Requirement) -> Order {
    then_by(
        kind_order(a.kind, b.kind),
        then_by(
            text_order(chosen_name(a), chosen_name(b)),
            then_by(
                text_order(a.binding.provider@, b.binding.provider@),
                text_order(a.binding.identity@, b.binding.identity@),
            ),
        ),
    )
}

proof fn lemma_text_order(a: Seq<char>, b: Seq<char>, c: Seq<char>)
    ensures
        text_order(a, b) == Order::Same <==> a == b,
        text_order(a, b) == Order::After ==> text_order(b, a) == Order::Before,
        text_order(a, b) == Order::Before ==> text_order(b, a) == Order::After,
        text_order(a, b) == Order::Before && text_order(b, c) == Order::Before ==> text_order(a, c)
            == Order::Before,
{
    lemma_total(a, b);
    if precedes(a, b) {
        lemma_asymmetric(a, b);
    }
    if precedes(b, a) {
        lemma_asymmetric(b, a);
    }
    if precedes(a, b) && precedes(b, c) {
        lemma_transitive(a, b, c);
        if a == c {
            lemma_asymmetric(a, b);
        }
    }
}

proof fn lemma_no_later(a: Requirement, b: Requirement, c: Requirement)
    requires
        no_later(a, b),
        no_later(b, c),
    ensures
        no_later(a, c),
        no_later(b, a) ==> same_need(a, b),
        same_need(a, c) ==> same_need(a, b),
{
    lemma_text_order(chosen_name(a), chosen_name(b), chosen_name(c));
    lemma_text_order(chosen_name(b), chosen_name(c), chosen_name(a));
    lemma_text_order(a.binding.provider@, b.binding.provider@, c.binding.provider@);
    lemma_text_order(b.binding.provider@, c.binding.provider@, a.binding.provider@);
    lemma_text_order(a.binding.identity@, b.binding.identity@, c.binding.identity@);
    lemma_text_order(b.binding.identity@, c.binding.identity@, a.binding.identity@);
}

/// Whether subjects are in their order.
pub open spec fn in_order(list: Seq<Requirement>) -> bool {
    forall|i: int, j: int| 0 <= i < j < list.len() ==> no_later(#[trigger] list[i], #[trigger] list[j])
}

proof fn lemma_placed_in_order(list: Seq<Requirement>, item: Requirement)
    requires
        in_order(list),
    ensures
        in_order(placed(list, item)),
        forall|other: Requirement|
            (forall|i: int| 0 <= i < list.len() ==> no_later(#[trigger] list[i], other)) && no_later(
                item,
                other,
            ) ==> forall|i: int|
                0 <= i < placed(list, item).len() ==> no_later(
                    #[trigger] placed(list, item)[i],
                    other,
                ),
    decreases list.len(),
{
    let all = placed(list, item);
    if list.len() == 0 {
    } else if !list.last().after(item) {
        let last = list[list.len() - 1];
        assert(no_later(last, item)) by {
            assert(requirement_order(last, item) != Order::After);
        }
        assert forall|i: int, j: int| 0 <= i < j < all.len() implies no_later(
            #[trigger] all[i],
            #[trigger] all[j],
        ) by {
            if j < list.len() {
                assert(no_later(list[i], list[j]));
            } else if i < list.len() - 1 {
                assert(no_later(list[i], last));
                lemma_no_later(list[i], last, item);
            }
        }
    } else {
        let front = list.drop_last();
        let last = list.last();
        assert forall|i: int, j: int| 0 <= i < j < front.len() implies no_later(
            #[trigger] front[i],
            #[trigger] front[j],
        ) by {
            assert(no_later(list[i], list[j]));
        }
        lemma_placed_in_order(front, item);
        let rest = placed(front, item);
        assert(no_later(item, last)) by {
            assert(requirement_order(last, item) == Order::After);
            lemma_text_order(chosen_name(last), chosen_name(item), chosen_name(item));
            lemma_text_order(last.binding.provider@, item.binding.provider@, item.binding.provider@);
            lemma_text_order(last.binding.identity@, item.binding.identity@, item.binding.identity@);
        }
        assert forall|i: int| 0 <= i < front.len() implies no_later(#[trigger] front[i], last) by {
            assert(no_later(list[i], list[list.len() - 1]));
        }
        assert forall|i: int, j: int| 0 <= i < j < all.len() implies no_later(
            #[trigger] all[i],
            #[trigger] all[j],
        ) by {
            if j < rest.len() {
                assert(no_later(rest[i], rest[j]));
            } else {
                assert(no_later(rest[i], last));
            }
        }
        assert forall|other: Requirement|
            (forall|i: int| 0 <= i < list.len() ==> no_later(#[trigger] list[i], other)) && no_later(
                item,
                other,
            ) implies forall|i: int|
            0 <= i < all.len() ==> no_later(#[trigger] all[i], other) by {
            assert forall|i: int| 0 <= i < front.len() implies no_later(#[trigger] front[i], other) by {
                assert(no_later(list[i], other));
            }
            assert(no_later(list[list.len() - 1], other));
            assert forall|i: int| 0 <= i < all.len() implies no_later(#[trigger] all[i], other) by {
                if i < rest.len() {
                    assert(no_later(rest[i], other));
                }
            }
        }
    }
}

proof fn lemma_in_order(list: Seq<Requirement>)
    ensures
        in_order(sorted(list)),
    decreases list.len(),
{
    if list.len() > 0 {
        lemma_in_order(list.drop_last());
        lemma_placed_in_order(sorted(list.drop_last()), list.last());
    }
}

/// Where subjects are in their order, none is left twice.
proof fn lemma_apart(list: Seq<Requirement>, ladder: ExecutionLadder)
    requires
        in_order(list),
        merged(list, ladder) is Ok,
    ensures
        ({
            let result = merged(list, ladder)->Ok_0;
            &&& list.len() > 0 ==> result.len() > 0 && same_need(result.last(), list.last())
            &&& forall|k: int, m: int|
                0 <= k < m < result.len() ==> !same_need(#[trigger] result[k], #[trigger] result[m])
                    && no_later(result[k], result[m])
            &&& forall|k: int|
                0 <= k < result.len() && list.len() > 0 ==> no_later(
                    #[trigger] result[k],
                    list.last(),
                )
        }),
    decreases list.len(),
{
    if list.len() > 0 {
        let front = list.drop_last();
        let item = list.last();
        let result = merged(list, ladder)->Ok_0;
        let sofar = merged(front, ladder)->Ok_0;
        assert forall|i: int, j: int| 0 <= i < j < front.len() implies no_later(
            #[trigger] front[i],
            #[trigger] front[j],
        ) by {
            assert(no_later(list[i], list[j]));
        }
        lemma_apart(front, ladder);
        if front.len() > 0 {
            let before = front.last();
            assert(no_later(list[front.len() - 1], list[list.len() - 1]));
            let last = sofar[sofar.len() - 1];
            lemma_same_no_later(last, before, item);
            assert forall|k: int| 0 <= k < sofar.len() implies no_later(#[trigger] sofar[k], item) by {
                assert(no_later(sofar[k], before));
                lemma_no_later(sofar[k], before, item);
            }
            if !same_need(last, item) {
                assert forall|k: int| 0 <= k < sofar.len() implies !same_need(
                    #[trigger] sofar[k],
                    item,
                ) by {
                    if k < sofar.len() - 1 {
                        assert(no_later(sofar[k], last));
                        lemma_no_later(sofar[k], last, item);
                    }
                }
            }
            assert forall|k: int, m: int| 0 <= k < m < result.len() implies !same_need(
                #[trigger] result[k],
                #[trigger] result[m],
            ) && no_later(result[k], result[m]) by {
                if m < sofar.len() {
                    assert(!same_need(sofar[k], sofar[m]) && no_later(sofar[k], sofar[m]));
                    assert(same_need(result[k], sofar[k]) && same_need(result[m], sofar[m]));
                }
            }
            assert forall|k: int| 0 <= k < result.len() implies no_later(#[trigger] result[k], item) by {
                if k < sofar.len() {
                    assert(no_later(sofar[k], item));
                }
            }
        } else {
            assert(sofar.len() == 0);
        }
    }
}

proof fn lemma_same_no_later(a: Requirement, b: Requirement, c: Requirement)
    requires
        same_need(a, b),
        no_later(b, c),
    ensures
        no_later(a, c),
{
}

} // verus!
