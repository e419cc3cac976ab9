//! That no two artifacts get in each other's way.
use vstd::prelude::*;
use vstd::string::*;

use crate::error::{first, is_configuration, reports, Result, WombatError};
use crate::model::manifest::{EvaluatedArtifact, SourceOrigin};
use crate::model::ordering::{order_texts, text_order, then_by, Order};
use crate::order::{lemma_asymmetric, lemma_irreflexive, lemma_total, lemma_transitive, precedes};
use crate::text::{
    cat2, cat3, cat4, cat5, cat6, cat7, join, joined, push_text, same, starts_with, strip_prefix,
    views,
};

verus! {

/// Whether a path is that of a directory that another one stands beneath.
pub open spec fn ancestor(parent: Seq<char>, child: Seq<char>) -> bool {
    parent.is_prefix_of(child) && child.len() > parent.len() && child[parent.len() as int] == '/'
}

/// Whether a path is that of a directory that another one stands beneath.
pub fn is_path_ancestor(parent: &str, child: &str) -> (r: bool)
    ensures
        r == ancestor(parent@, child@),
{
    match strip_prefix(child, parent) {
        Some(rest) => {
            proof {
                reveal_strlit("/");
                if rest@.len() > 0 {
                    assert(rest@[0] == child@[parent@.len() as int]);
                }
                if rest@.len() > 0 {
                    assert(rest@.subrange(0, 1)[0] == rest@[0]);
                    if rest@[0] == '/' {
                        assert("/"@ =~= rest@.subrange(0, 1));
                    }
                }
            }
            starts_with(rest.as_str(), "/")
        },
        None => false,
    }
}

/// The order in which artifacts are looked at: by target, owner and source.
pub open spec fn artifact_order(a: EvaluatedArtifact, b: EvaluatedArtifact) -> Order {
    then_by(
        text_order(a.target.path@, b.target.path@),
        then_by(text_order(a.owner@, b.owner@), text_order(a.source@, b.source@)),
    )
}

fn order_artifacts(a: &EvaluatedArtifact, b: &EvaluatedArtifact) -> (r: Order)
    ensures
        r == artifact_order(*a, *b),
{
    let targets = order_texts(a.target.key(), b.target.key());
    if targets != Order::Same {
        return targets;
    }
    let owners = order_texts(a.owner.as_str(), b.owner.as_str());
    if owners != Order::Same {
        return owners;
    }
    order_texts(a.source.as_str(), b.source.as_str())
}

/// Places in their order with one more, behind all that do not come after it.
pub open spec fn place_inserted(
    artifacts: Seq<EvaluatedArtifact>,
    places: Seq<int>,
    place: int,
) -> Seq<int>
    decreases places.len(),
{
    if places.len() == 0 || artifact_order(artifacts[places.last()], artifacts[place])
        != Order::After {
        places.push(place)
    } else {
        place_inserted(artifacts, places.drop_last(), place).push(places.last())
    }
}

/// The places of the first artifacts in the order in which they are looked at.
pub open spec fn places_of(artifacts: Seq<EvaluatedArtifact>, count: int) -> Seq<int>
    decreases count,
{
    if count <= 0 {
        Seq::empty()
    } else {
        place_inserted(artifacts, places_of(artifacts, count - 1), count - 1)
    }
}

/// Places as numbers.
pub open spec fn numbers(list: Seq<usize>) -> Seq<int> {
    Seq::new(list.len(), |i: int| list[i] as int)
}

proof fn lemma_place_inserted(
    artifacts: Seq<EvaluatedArtifact>,
    places: Seq<int>,
    place: int,
    at: int,
)
    requires
        0 <= at <= places.len(),
        at > 0 ==> artifact_order(artifacts[places[at - 1]], artifacts[place]) != Order::After,
        forall|j: int|
            at <= j < places.len() ==> artifact_order(
                artifacts[#[trigger] places[j]],
                artifacts[place],
            ) == Order::After,
    ensures
        place_inserted(artifacts, places, place) == places.insert(at, place),
    decreases places.len(),
{
    if at == places.len() {
        assert(places.insert(at, place) =~= places.push(place));
        if at > 0 {
            assert(places.last() == places[at - 1]);
        }
    } else {
        assert(places.last() == places[places.len() - 1]);
        lemma_place_inserted(artifacts, places.drop_last(), place, at);
        assert(places.insert(at, place) =~= places.drop_last().insert(at, place).push(
            places.last(),
        ));
    }
}

/// Whether places are places of artifacts.
pub open spec fn within(places: Seq<int>, count: int) -> bool {
    forall|i: int| 0 <= i < places.len() ==> 0 <= #[trigger] places[i] < count
}

fn order_places(artifacts: &Vec<EvaluatedArtifact>) -> (r: Vec<usize>)
    ensures
        numbers(r@) == places_of(artifacts@, artifacts@.len() as int),
        r@.len() == artifacts@.len(),
        within(numbers(r@), artifacts@.len() as int),
{
    let mut r: Vec<usize> = Vec::new();
    let mut i: usize = 0;
    assert(numbers(r@) =~= Seq::empty());
    while i < artifacts.len()
        invariant
            0 <= i <= artifacts@.len(),
            r@.len() == i,
            numbers(r@) == places_of(artifacts@, i as int),
            within(numbers(r@), i as int),
        decreases artifacts@.len() - i,
    {
        let ghost sofar = numbers(r@);
        let ghost earlier = r@;
        let mut at: usize = r.len();
        proof {
            if at > 0 {
                assert(sofar[at - 1] == r@[at - 1]);
            }
        }
        while at > 0 && order_artifacts(&artifacts[r[at - 1]], &artifacts[i]) == Order::After
            invariant
                0 <= at <= r@.len(),
                r@ == earlier,
                sofar == numbers(r@),
                i < artifacts@.len(),
                within(sofar, i as int),
                at > 0 ==> sofar[at - 1] == r@[at - 1],
                forall|j: int|
                    at <= j < r@.len() ==> artifact_order(
                        artifacts@[#[trigger] sofar[j]],
                        artifacts@[i as int],
                    ) == Order::After,
            decreases at,
        {
            at -= 1;
            proof {
                if at > 0 {
                    assert(sofar[at - 1] == r@[at - 1]);
                }
            }
        }
        proof {
            lemma_place_inserted(artifacts@, sofar, i as int, at as int);
        }
        r.insert(at, i);
        assert(numbers(r@) =~= sofar.insert(at as int, i as int));
        i += 1;
    }
    r
}

/// How an artifact came by its source, as a conflict tells it.
pub open spec fn source_told(v: EvaluatedArtifact) -> Seq<char> {
    match v.source_origin {
        SourceOrigin::Direct { declared, .. } => "`"@ + v.source@ + "` (direct source `"@
            + declared@ + "`)"@,
        SourceOrigin::Directory { declared, root, relative, .. } => "`"@ + v.source@
            + "` (leaf `"@ + relative@ + "` expanded from directory `"@ + declared@ + "` at `"@
            + root@ + "`)"@,
        SourceOrigin::Generated { name } => "`"@ + v.source@ + "` (generated value `"@ + name@
            + "`)"@,
        SourceOrigin::Task { identity, relative } => "`"@ + v.source@ + "` (task `"@ + identity@
            + "` output `"@ + relative@ + "`)"@,
    }
}

fn tell_source(v: &EvaluatedArtifact) -> (r: String)
    ensures
        r@ == source_told(*v),
{
    match &v.source_origin {
        SourceOrigin::Direct { declared, .. } => cat5(
            "`",
            v.source.as_str(),
            "` (direct source `",
            declared.as_str(),
            "`)",
        ),
        SourceOrigin::Directory { declared, root, relative, .. } => {
            let head = cat6(
                "`",
                v.source.as_str(),
                "` (leaf `",
                relative.as_str(),
                "` expanded from directory `",
                declared.as_str(),
            );
            cat4(head.as_str(), "` at `", root.as_str(), "`)")
        },
        SourceOrigin::Generated { name } => cat5(
            "`",
            v.source.as_str(),
            "` (generated value `",
            name.as_str(),
            "`)",
        ),
        SourceOrigin::Task { identity, relative } => cat7(
            "`",
            v.source.as_str(),
            "` (task `",
            identity.as_str(),
            "` output `",
            relative.as_str(),
            "`)",
        ),
    }
}

/// A declaration, as a conflict tells it.
pub open spec fn declaration_told(v: EvaluatedArtifact) -> Seq<char> {
    v.owner@ + " from "@ + source_told(v) + " declared at "@ + v.declared_at.text()
}

/// Declarations, as a conflict tells them.
pub open spec fn declarations_told(
    artifacts: Seq<EvaluatedArtifact>,
    places: Seq<int>,
) -> Seq<Seq<char>> {
    Seq::new(places.len(), |i: int| declaration_told(artifacts[places[i]]))
}

/// The message about artifacts in conflict.
pub open spec fn conflict_message(
    target: Seq<char>,
    reason: Seq<char>,
    artifacts: Seq<EvaluatedArtifact>,
    places: Seq<int>,
) -> Seq<char> {
    "artifact conflict at `"@ + target + "`: "@ + reason + "; declarations: "@ + joined(
        declarations_told(artifacts, places),
        "; "@,
    )
}

fn artifact_conflict(
    target: &str,
    reason: &str,
    artifacts: &Vec<EvaluatedArtifact>,
    places: &Vec<usize>,
) -> (r: WombatError)
    requires
        within(numbers(places@), artifacts@.len() as int),
    ensures
        is_configuration(
            r,
            conflict_message(target@, reason@, artifacts@, numbers(places@)),
        ),
{
    let ghost all = declarations_told(artifacts@, numbers(places@));
    let mut texts: Vec<String> = Vec::new();
    let mut i: usize = 0;
    assert(views(texts@) =~= all.take(0));
    while i < places.len()
        invariant
            0 <= i <= places@.len(),
            within(numbers(places@), artifacts@.len() as int),
            all == declarations_told(artifacts@, numbers(places@)),
            views(texts@) == all.take(i as int),
        decreases places@.len() - i,
    {
        assert(numbers(places@)[i as int] == places@[i as int]);
        let v = &artifacts[places[i]];
        let text = cat5(
            v.owner.as_str(),
            " from ",
            tell_source(v).as_str(),
            " declared at ",
            v.declared_at.display().as_str(),
        );
        push_text(&mut texts, text.as_str());
        assert(all.take(i + 1) =~= all.take(i as int).push(all[i as int]));
        i += 1;
    }
    assert(all.take(i as int) =~= all);
    WombatError::Configuration(
        cat6(
            "artifact conflict at `",
            target,
            "`: ",
            reason,
            "; declarations: ",
            join(&texts, "; ").as_str(),
        ),
    )
}

/// The places of the artifacts with a target.
pub open spec fn with_target(
    artifacts: Seq<EvaluatedArtifact>,
    places: Seq<int>,
    target: Seq<char>,
) -> Seq<int>
    decreases places.len(),
{
    if places.len() == 0 {
        Seq::empty()
    } else {
        let rest = with_target(artifacts, places.drop_last(), target);
        if artifacts[places.last()].target.path@ == target {
            rest.push(places.last())
        } else {
            rest
        }
    }
}

/// The places of the artifacts beneath a target.
pub open spec fn beneath(
    artifacts: Seq<EvaluatedArtifact>,
    places: Seq<int>,
    target: Seq<char>,
) -> Seq<int>
    decreases places.len(),
{
    if places.len() == 0 {
        Seq::empty()
    } else {
        let rest = beneath(artifacts, places.drop_last(), target);
        if ancestor(target, artifacts[places.last()].target.path@) {
            rest.push(places.last())
        } else {
            rest
        }
    }
}

/// Targets as a conflict tells them.
pub open spec fn targets_told(artifacts: Seq<EvaluatedArtifact>, places: Seq<int>) -> Seq<Seq<char>> {
    Seq::new(places.len(), |i: int| "`"@ + artifacts[places[i]].target.path@ + "`"@)
}

/// What is wrong with the artifact at a place of the order.
pub open spec fn conflict_at(
    artifacts: Seq<EvaluatedArtifact>,
    order: Seq<int>,
    index: int,
) -> Option<Seq<char>> {
    let v = artifacts[order[index]];
    let twins = with_target(artifacts, order, v.target.path@);
    let below = beneath(artifacts, order.skip(index + 1), v.target.path@);
    if twins.len() > 1 && with_target(artifacts, order.take(index), v.target.path@).len() == 0 {
        Some(
            conflict_message(
                v.target.path@,
                "multiple artifacts resolve to the same target"@,
                artifacts,
                twins,
            ),
        )
    } else if below.len() > 0 {
        Some(
            conflict_message(
                v.target.path@,
                "file target is an ancestor of "@ + joined(targets_told(artifacts, below), ", "@),
                artifacts,
                seq![order[index]] + below,
            ),
        )
    } else {
        None
    }
}

/// What is wrong with the first artifacts of the order.
pub open spec fn conflict_among(
    artifacts: Seq<EvaluatedArtifact>,
    order: Seq<int>,
    count: int,
) -> Option<Seq<char>>
    decreases count,
{
    if count <= 0 {
        None
    } else {
        first(
            conflict_among(artifacts, order, count - 1),
            conflict_at(artifacts, order, count - 1),
        )
    }
}

/// What is wrong with artifacts: the first conflict in their order.
pub open spec fn conflict_problem(artifacts: Seq<EvaluatedArtifact>) -> Option<Seq<char>> {
    conflict_among(
        artifacts,
        places_of(artifacts, artifacts.len() as int),
        artifacts.len() as int,
    )
}

proof fn lemma_conflict_front(
    artifacts: Seq<EvaluatedArtifact>,
    order: Seq<int>,
    count: int,
    total: int,
)
    requires
        0 <= count <= total,
        conflict_among(artifacts, order, count) is Some,
    ensures
        conflict_among(artifacts, order, total) == conflict_among(artifacts, order, count),
    decreases total - count,
{
    if count < total {
        lemma_conflict_front(artifacts, order, count, total - 1);
    }
}

fn find_with_target(artifacts: &Vec<EvaluatedArtifact>, order: &Vec<usize>, count: usize, target: &str) -> (r:
    Vec<usize>)
    requires
        count <= order@.len(),
        within(numbers(order@), artifacts@.len() as int),
    ensures
        numbers(r@) == with_target(artifacts@, numbers(order@).take(count as int), target@),
        within(numbers(r@), artifacts@.len() as int),
{
    let ghost all = numbers(order@);
    let mut r: Vec<usize> = Vec::new();
    let mut i: usize = 0;
    assert(numbers(r@) =~= Seq::empty());
    assert(all.take(0) =~= Seq::empty());
    while i < count
        invariant
            0 <= i <= count <= order@.len(),
            all == numbers(order@),
            within(all, artifacts@.len() as int),
            numbers(r@) == with_target(artifacts@, all.take(i as int), target@),
            within(numbers(r@), artifacts@.len() as int),
        decreases count - i,
    {
        assert(all[i as int] == order@[i as int]);
        assert(all.take(i + 1).drop_last() =~= all.take(i as int));
        assert(all.take(i + 1).last() == all[i as int]);
        if same(artifacts[order[i]].target.key(), target) {
            let ghost sofar = numbers(r@);
            r.push(order[i]);
            assert(numbers(r@) =~= sofar.push(all[i as int]));
        }
        i += 1;
    }
    r
}

fn find_beneath(artifacts: &Vec<EvaluatedArtifact>, order: &Vec<usize>, from: usize, target: &str) -> (r:
    Vec<usize>)
    requires
        from <= order@.len(),
        within(numbers(order@), artifacts@.len() as int),
    ensures
        numbers(r@) == beneath(artifacts@, numbers(order@).skip(from as int), target@),
        within(numbers(r@), artifacts@.len() as int),
{
    let ghost all = numbers(order@);
    let ghost tail = all.skip(from as int);
    let mut r: Vec<usize> = Vec::new();
    let mut i: usize = from;
    assert(numbers(r@) =~= Seq::empty());
    assert(tail.take(0) =~= Seq::empty());
    while i < order.len()
        invariant
            from <= i <= order@.len(),
            all == numbers(order@),
            tail == all.skip(from as int),
            within(all, artifacts@.len() as int),
            numbers(r@) == beneath(artifacts@, tail.take(i - from), target@),
            within(numbers(r@), artifacts@.len() as int),
        decreases order@.len() - i,
    {
        assert(all[i as int] == order@[i as int]);
        assert(tail.take(i + 1 - from).drop_last() =~= tail.take(i - from));
        assert(tail.take(i + 1 - from).last() == all[i as int]);
        if is_path_ancestor(target, artifacts[order[i]].target.path.as_str()) {
            let ghost sofar = numbers(r@);
            r.push(order[i]);
            assert(numbers(r@) =~= sofar.push(all[i as int]));
        }
        i += 1;
    }
    assert(tail.take(i - from) =~= tail);
    r
}

fn tell_targets(artifacts: &Vec<EvaluatedArtifact>, places: &Vec<usize>) -> (r: Vec<String>)
    requires
        within(numbers(places@), artifacts@.len() as int),
    ensures
        views(r@) == targets_told(artifacts@, numbers(places@)),
{
    let ghost all = targets_told(artifacts@, numbers(places@));
    let mut r: Vec<String> = Vec::new();
    let mut i: usize = 0;
    assert(views(r@) =~= all.take(0));
    while i < places.len()
        invariant
            0 <= i <= places@.len(),
            within(numbers(places@), artifacts@.len() as int),
            all == targets_told(artifacts@, numbers(places@)),
            views(r@) == all.take(i as int),
        decreases places@.len() - i,
    {
        assert(numbers(places@)[i as int] == places@[i as int]);
        let text = cat3("`", artifacts[places[i]].target.path.as_str(), "`");
        push_text(&mut r, text.as_str());
        assert(all.take(i + 1) =~= all.take(i as int).push(all[i as int]));
        i += 1;
    }
    assert(all.take(i as int) =~= all);
    r
}

fn check_place(artifacts: &Vec<EvaluatedArtifact>, order: &Vec<usize>, index: usize) -> (r: Result<()>)
    requires
        index < order@.len(),
        within(numbers(order@), artifacts@.len() as int),
    ensures
        reports(r, conflict_at(artifacts@, numbers(order@), index as int)),
{
    let ghost all = numbers(order@);
    assert(all[index as int] == order@[index as int]);
    let target = artifacts[order[index]].target.path.as_str();
    let twins = find_with_target(artifacts, order, order.len(), target);
    assert(all.take(order@.len() as int) =~= all);
    assert(numbers(twins@).len() == twins@.len());
    if twins.len() > 1 {
        let earlier = find_with_target(artifacts, order, index, target);
        assert(numbers(earlier@).len() == earlier@.len());
        if earlier.len() == 0 {
            return Err(
                artifact_conflict(
                    target,
                    "multiple artifacts resolve to the same target",
                    artifacts,
                    &twins,
                ),
            );
        }
    }
    let below = find_beneath(artifacts, order, index + 1, target);
    assert(numbers(below@).len() == below@.len());
    if below.len() > 0 {
        let reason = cat2(
            "file target is an ancestor of ",
            join(&tell_targets(artifacts, &below), ", ").as_str(),
        );
        let mut parties: Vec<usize> = Vec::new();
        parties.push(order[index]);
        let ghost start = numbers(parties@);
        assert(start =~= seq![all[index as int]]);
        let mut i: usize = 0;
        assert(start + numbers(below@).take(0) =~= start);
        while i < below.len()
            invariant
                0 <= i <= below@.len(),
                numbers(parties@) == start + numbers(below@).take(i as int),
                numbers(below@).len() == below@.len(),
            decreases below@.len() - i,
        {
            let ghost sofar = numbers(parties@);
            parties.push(below[i]);
            assert(numbers(parties@) =~= sofar.push(numbers(below@)[i as int]));
            assert(numbers(below@).take(i + 1) =~= numbers(below@).take(i as int).push(
                numbers(below@)[i as int],
            ));
            assert(start + numbers(below@).take(i + 1) =~= (start + numbers(below@).take(
                i as int,
            )).push(numbers(below@)[i as int]));
            i += 1;
        }
        assert(numbers(below@).take(i as int) =~= numbers(below@));
        return Err(artifact_conflict(target, reason.as_str(), artifacts, &parties));
    }
    Ok(())
}

/// Makes sure that no two artifacts have the same target and that none stands
/// beneath the target of another.
pub fn validate_artifact_conflicts(artifacts: &Vec<EvaluatedArtifact>) -> (r: Result<()>)
    ensures
        reports(r, conflict_problem(artifacts@)),
{
    let order = order_places(artifacts);
    let ghost all = numbers(order@);
    let mut i: usize = 0;
    while i < order.len()
        invariant
            0 <= i <= order@.len(),
            order@.len() == artifacts@.len(),
            all == numbers(order@),
            all == places_of(artifacts@, artifacts@.len() as int),
            within(all, artifacts@.len() as int),
            conflict_among(artifacts@, all, i as int) is None,
        decreases order@.len() - i,
    {
        proof {
            if conflict_among(artifacts@, all, i + 1) is Some {
                lemma_conflict_front(artifacts@, all, i + 1, artifacts@.len() as int);
            }
        }
        check_place(artifacts, &order, i)?;
        i += 1;
    }
    Ok(())
}

/// No path is its own ancestor, and none is that of two that are each other's.
pub proof fn law_ancestors_stand_above(parent: Seq<char>, child: Seq<char>)
    requires
        ancestor(parent, child),
    ensures
        parent != child,
        !ancestor(child, parent),
        precedes(parent, child),
{
    lemma_prefix_precedes(parent, child);
}

proof fn lemma_prefix_precedes(a: Seq<char>, b: Seq<char>)
    requires
        a.is_prefix_of(b),
        a.len() < b.len(),
    ensures
        precedes(a, b),
    decreases a.len(),
{
    if a.len() > 0 {
        assert(b.subrange(0, a.len() as int)[0] == b[0]);
        assert(a[0] == b[0]);
        assert(a.skip(1) =~= b.skip(1).subrange(0, a.skip(1).len() as int)) by {
            assert forall|k: int| 0 <= k < a.len() - 1 implies a.skip(1)[k] == b.skip(1)[k] by {
                assert(a[k + 1] == b.subrange(0, a.len() as int)[k + 1]);
            }
        }
        lemma_prefix_precedes(a.skip(1), b.skip(1));
    }
}

/// Whether two artifacts get in each other's way.
pub open spec fn collide(a: EvaluatedArtifact, b: EvaluatedArtifact) -> bool {
    a.target.path@ == b.target.path@ || ancestor(a.target.path@, b.target.path@) || ancestor(
        b.target.path@,
        a.target.path@,
    )
}

/// Whether the places are those of the first artifacts, each once, in the order of
/// their targets.
spec fn ordered_places(artifacts: Seq<EvaluatedArtifact>, places: Seq<int>, count: int) -> bool {
    &&& places.len() == count
    &&& places.no_duplicates()
    &&& within(places, count)
    &&& forall|i: int, j: int|
        0 <= i < j < places.len() ==> !precedes(
            artifacts[#[trigger] places[j]].target.path@,
            artifacts[#[trigger] places[i]].target.path@,
        )
}

proof fn lemma_not_after(a: EvaluatedArtifact, b: EvaluatedArtifact)
    ensures
        artifact_order(a, b) == Order::After ==> !precedes(a.target.path@, b.target.path@),
        artifact_order(a, b) != Order::After ==> !precedes(b.target.path@, a.target.path@),
{
    lemma_irreflexive(a.target.path@);
    if precedes(a.target.path@, b.target.path@) {
        lemma_asymmetric(a.target.path@, b.target.path@);
    }
    if precedes(b.target.path@, a.target.path@) {
        lemma_asymmetric(b.target.path@, a.target.path@);
    }
}

proof fn lemma_not_before(a: Seq<char>, b: Seq<char>, c: Seq<char>)
    requires
        !precedes(b, a),
        !precedes(c, b),
    ensures
        !precedes(c, a),
{
    lemma_total(a, b);
    lemma_total(b, c);
    lemma_irreflexive(a);
    if precedes(c, a) {
        if a != b {
            lemma_transitive(c, a, b);
        }
    }
}

proof fn lemma_insert_keeps_order(
    artifacts: Seq<EvaluatedArtifact>,
    places: Seq<int>,
    place: int,
)
    requires
        ordered_places(artifacts, places, place),
        place < artifacts.len(),
    ensures
        ordered_places(artifacts, place_inserted(artifacts, places, place), place + 1),
{
    let at = insertion_point(artifacts, places, place);
    lemma_insertion_point(artifacts, places, place);
    lemma_place_inserted(artifacts, places, place, at);
    let more = places.insert(at, place);
    assert(within(more, place + 1)) by {
        assert forall|i: int| 0 <= i < more.len() implies 0 <= #[trigger] more[i] < place + 1 by {
            if i < at {
                assert(more[i] == places[i]);
            } else if i > at {
                assert(more[i] == places[i - 1]);
            }
        }
    }
    assert(more.no_duplicates()) by {
        assert forall|i: int, j: int| 0 <= i < j < more.len() implies more[i] != more[j] by {
            let a = if i < at { i } else { i - 1 };
            let b = if j < at { j } else { j - 1 };
            if i != at {
                assert(more[i] == places[a]);
                assert(0 <= places[a] < place);
            }
            if j != at {
                assert(more[j] == places[b]);
                assert(0 <= places[b] < place);
            }
        }
    }
    assert forall|i: int, j: int| 0 <= i < j < more.len() implies !precedes(
        artifacts[#[trigger] more[j]].target.path@,
        artifacts[#[trigger] more[i]].target.path@,
    ) by {
        let a = if i < at { i } else { i - 1 };
        let b = if j < at { j } else { j - 1 };
        if i == at {
            assert(more[j] == places[b]);
            lemma_not_after(artifacts[places[b]], artifacts[place]);
            assert(artifact_order(artifacts[places[b]], artifacts[place]) == Order::After);
        } else if j == at {
            assert(more[i] == places[a]);
            let last = places[at - 1];
            lemma_not_after(artifacts[last], artifacts[place]);
            if a < at - 1 {
                assert(!precedes(
                    artifacts[places[at - 1]].target.path@,
                    artifacts[places[a]].target.path@,
                ));
                lemma_not_before(
                    artifacts[places[a]].target.path@,
                    artifacts[last].target.path@,
                    artifacts[place].target.path@,
                );
            }
        } else {
            assert(more[i] == places[a] && more[j] == places[b]);
        }
    }
}

/// Where a place is put in.
spec fn insertion_point(
    artifacts: Seq<EvaluatedArtifact>,
    places: Seq<int>,
    place: int,
) -> int
    decreases places.len(),
{
    if places.len() == 0 || artifact_order(artifacts[places.last()], artifacts[place])
        != Order::After {
        places.len() as int
    } else {
        insertion_point(artifacts, places.drop_last(), place)
    }
}

proof fn lemma_insertion_point(
    artifacts: Seq<EvaluatedArtifact>,
    places: Seq<int>,
    place: int,
)
    ensures
        ({
            let at = insertion_point(artifacts, places, place);
            &&& 0 <= at <= places.len()
            &&& at > 0 ==> artifact_order(artifacts[places[at - 1]], artifacts[place])
                != Order::After
            &&& forall|j: int|
                at <= j < places.len() ==> artifact_order(
                    artifacts[#[trigger] places[j]],
                    artifacts[place],
                ) == Order::After
        }),
    decreases places.len(),
{
    if places.len() > 0 {
        if artifact_order(artifacts[places.last()], artifacts[place]) != Order::After {
            assert(places.last() == places[places.len() - 1]);
        } else {
            lemma_insertion_point(artifacts, places.drop_last(), place);
            let at = insertion_point(artifacts, places, place);
            assert forall|j: int| at <= j < places.len() implies artifact_order(
                artifacts[#[trigger] places[j]],
                artifacts[place],
            ) == Order::After by {
                if j < places.len() - 1 {
                    assert(places.drop_last()[j] == places[j]);
                }
            }
        }
    }
}

proof fn lemma_places_ordered(artifacts: Seq<EvaluatedArtifact>, count: int)
    requires
        0 <= count <= artifacts.len(),
    ensures
        ordered_places(artifacts, places_of(artifacts, count), count),
    decreases count,
{
    if count > 0 {
        lemma_places_ordered(artifacts, count - 1);
        lemma_insert_keeps_order(artifacts, places_of(artifacts, count - 1), count - 1);
    }
}

proof fn lemma_with_target(
    artifacts: Seq<EvaluatedArtifact>,
    places: Seq<int>,
    target: Seq<char>,
)
    ensures
        with_target(artifacts, places, target).len() == 0 <==> forall|i: int|
            0 <= i < places.len() ==> artifacts[#[trigger] places[i]].target.path@ != target,
        with_target(artifacts, places, target).len() > 1 <==> exists|i: int, j: int|
            0 <= i < j < places.len() && artifacts[#[trigger] places[i]].target.path@ == target
                && artifacts[#[trigger] places[j]].target.path@ == target,
    decreases places.len(),
{
    if places.len() > 0 {
        let front = places.drop_last();
        lemma_with_target(artifacts, front, target);
        let last = places.len() - 1;
        assert(places.last() == places[last]);
        assert forall|i: int| 0 <= i < front.len() implies front[i] == places[i] by {}
        if with_target(artifacts, front, target).len() > 1 {
            let (i, j) = choose|i: int, j: int|
                0 <= i < j < front.len() && artifacts[#[trigger] front[i]].target.path@ == target
                    && artifacts[#[trigger] front[j]].target.path@ == target;
            assert(artifacts[places[i]].target.path@ == target);
            assert(artifacts[places[j]].target.path@ == target);
        }
        if with_target(artifacts, front, target).len() == 1 && artifacts[places[last]].target.path@
            == target {
            let i = choose|i: int|
                0 <= i < front.len() && artifacts[#[trigger] front[i]].target.path@ == target;
            assert(artifacts[places[i]].target.path@ == target);
        }
        if exists|i: int, j: int|
            0 <= i < j < places.len() && artifacts[#[trigger] places[i]].target.path@ == target
                && artifacts[#[trigger] places[j]].target.path@ == target {
            let (i, j) = choose|i: int, j: int|
                0 <= i < j < places.len() && artifacts[#[trigger] places[i]].target.path@ == target
                    && artifacts[#[trigger] places[j]].target.path@ == target;
            assert(artifacts[front[i]].target.path@ == target);
            if j < last {
                assert(artifacts[front[j]].target.path@ == target);
            }
        }
        if forall|i: int|
            0 <= i < places.len() ==> artifacts[#[trigger] places[i]].target.path@ != target {
            assert forall|i: int| 0 <= i < front.len() implies artifacts[#[trigger] front[i]].target.path@
                != target by {
                assert(front[i] == places[i]);
            }
        }
        if with_target(artifacts, places, target).len() == 0 {
            assert forall|i: int| 0 <= i < places.len() implies artifacts[#[trigger] places[i]].target.path@
                != target by {
                if i < last {
                    assert(front[i] == places[i]);
                }
            }
        }
    }
}

proof fn lemma_beneath(artifacts: Seq<EvaluatedArtifact>, places: Seq<int>, target: Seq<char>)
    ensures
        beneath(artifacts, places, target).len() == 0 <==> forall|i: int|
            0 <= i < places.len() ==> !ancestor(
                target,
                artifacts[#[trigger] places[i]].target.path@,
            ),
    decreases places.len(),
{
    if places.len() > 0 {
        let front = places.drop_last();
        lemma_beneath(artifacts, front, target);
        let last = places.len() - 1;
        assert(places.last() == places[last]);
        if beneath(artifacts, places, target).len() == 0 {
            assert forall|i: int| 0 <= i < places.len() implies !ancestor(
                target,
                artifacts[#[trigger] places[i]].target.path@,
            ) by {
                if i < last {
                    assert(front[i] == places[i]);
                }
            }
        } else {
            if !ancestor(target, artifacts[places[last]].target.path@) {
                let i = choose|i: int|
                    0 <= i < front.len() && ancestor(
                        target,
                        artifacts[#[trigger] front[i]].target.path@,
                    );
                assert(front[i] == places[i]);
            }
        }
    }
}

proof fn lemma_conflict_somewhere(
    artifacts: Seq<EvaluatedArtifact>,
    order: Seq<int>,
    count: int,
)
    requires
        0 <= count <= order.len(),
    ensures
        conflict_among(artifacts, order, count) is Some <==> exists|i: int|
            0 <= i < count && (#[trigger] conflict_at(artifacts, order, i)) is Some,
    decreases count,
{
    if count > 0 {
        lemma_conflict_somewhere(artifacts, order, count - 1);
        if conflict_at(artifacts, order, count - 1) is Some {
        }
    }
}

proof fn lemma_every_place(places: Seq<int>, count: int, place: int) -> (at: int)
    requires
        places.len() == count,
        places.no_duplicates(),
        within(places, count),
        0 <= place < count,
    ensures
        0 <= at < places.len(),
        places[at] == place,
{
    let found = places.to_set();
    let all = vstd::set_lib::set_int_range(0, count);
    places.unique_seq_to_set();
    vstd::set_lib::lemma_int_range(0, count);
    assert forall|x: int| found.contains(x) implies all.contains(x) by {
        let k = choose|k: int| 0 <= k < places.len() && places[k] == x;
        assert(0 <= places[k] < count);
    }
    vstd::set_lib::lemma_subset_equality(found, all);
    assert(all.contains(place));
    assert(found.contains(place));
    choose|k: int| 0 <= k < places.len() && places[k] == place
}

proof fn lemma_first_with_target(
    artifacts: Seq<EvaluatedArtifact>,
    order: Seq<int>,
    target: Seq<char>,
    at: int,
) -> (found: int)
    requires
        0 <= at < order.len(),
        artifacts[order[at]].target.path@ == target,
    ensures
        0 <= found <= at,
        artifacts[order[found]].target.path@ == target,
        with_target(artifacts, order.take(found), target).len() == 0,
    decreases at,
{
    lemma_with_target(artifacts, order.take(at), target);
    if with_target(artifacts, order.take(at), target).len() == 0 {
        at
    } else {
        let k = choose|k: int|
            0 <= k < at && artifacts[#[trigger] order.take(at)[k]].target.path@ == target;
        assert(order.take(at)[k] == order[k]);
        lemma_first_with_target(artifacts, order, target, k)
    }
}

/// A conflict is reported exactly where two artifacts get in each other's way: they
/// have the same target, or one stands beneath the target of the other.
pub proof fn law_conflicts_are_reported(artifacts: Seq<EvaluatedArtifact>)
    ensures
        conflict_problem(artifacts) is Some <==> exists|i: int, j: int|
            0 <= i < artifacts.len() && 0 <= j < artifacts.len() && i != j && collide(
                #[trigger] artifacts[i],
                #[trigger] artifacts[j],
            ),
{
    let count = artifacts.len() as int;
    let order = places_of(artifacts, count);
    lemma_places_ordered(artifacts, count);
    lemma_conflict_somewhere(artifacts, order, count);
    if exists|i: int, j: int|
        0 <= i < artifacts.len() && 0 <= j < artifacts.len() && i != j && collide(
            #[trigger] artifacts[i],
            #[trigger] artifacts[j],
        ) {
        let (i, j) = choose|i: int, j: int|
            0 <= i < artifacts.len() && 0 <= j < artifacts.len() && i != j && collide(
                #[trigger] artifacts[i],
                #[trigger] artifacts[j],
            );
        lemma_collision_found(artifacts, order, i, j);
    }
    if conflict_problem(artifacts) is Some {
        let p = choose|p: int| 0 <= p < count && (#[trigger] conflict_at(artifacts, order, p)) is Some;
        let target = artifacts[order[p]].target.path@;
        lemma_with_target(artifacts, order, target);
        lemma_beneath(artifacts, order.skip(p + 1), target);
        assert(0 <= order[p] < count);
        if with_target(artifacts, order, target).len() > 1 {
            let (a, b) = choose|a: int, b: int|
                0 <= a < b < order.len() && artifacts[#[trigger] order[a]].target.path@ == target
                    && artifacts[#[trigger] order[b]].target.path@ == target;
            assert(order[a] != order[b]);
            assert(collide(artifacts[order[a]], artifacts[order[b]]));
        } else {
            let rest = order.skip(p + 1);
            let q = choose|q: int|
                0 <= q < rest.len() && ancestor(target, artifacts[#[trigger] rest[q]].target.path@);
            assert(rest[q] == order[p + 1 + q]);
            assert(order[p] != order[p + 1 + q]);
            assert(collide(artifacts[order[p]], artifacts[order[p + 1 + q]]));
        }
    }
}

proof fn lemma_collision_found(
    artifacts: Seq<EvaluatedArtifact>,
    order: Seq<int>,
    i: int,
    j: int,
)
    requires
        ordered_places(artifacts, order, artifacts.len() as int),
        0 <= i < artifacts.len(),
        0 <= j < artifacts.len(),
        i != j,
        collide(artifacts[i], artifacts[j]),
    ensures
        exists|p: int|
            0 <= p < order.len() && (#[trigger] conflict_at(artifacts, order, p)) is Some,
{
    let count = artifacts.len() as int;
    let p = lemma_every_place(order, count, i);
    let q = lemma_every_place(order, count, j);
    let a = artifacts[i].target.path@;
    let b = artifacts[j].target.path@;
    if a == b {
        let f = lemma_first_with_target(artifacts, order, a, p);
        lemma_with_target(artifacts, order, a);
        let (x, y) = if p < q { (p, q) } else { (q, p) };
        assert(artifacts[order[x]].target.path@ == a && artifacts[order[y]].target.path@ == a);
        assert(conflict_at(artifacts, order, f) is Some);
    } else if ancestor(a, b) {
        lemma_ancestor_found(artifacts, order, p, q);
    } else {
        lemma_ancestor_found(artifacts, order, q, p);
    }
}

proof fn lemma_ancestor_found(
    artifacts: Seq<EvaluatedArtifact>,
    order: Seq<int>,
    p: int,
    q: int,
)
    requires
        ordered_places(artifacts, order, artifacts.len() as int),
        0 <= p < order.len(),
        0 <= q < order.len(),
        p != q,
        ancestor(artifacts[order[p]].target.path@, artifacts[order[q]].target.path@),
    ensures
        conflict_at(artifacts, order, p) is Some,
{
    let a = artifacts[order[p]].target.path@;
    let b = artifacts[order[q]].target.path@;
    law_ancestors_stand_above(a, b);
    if q < p {
        assert(!precedes(artifacts[order[p]].target.path@, artifacts[order[q]].target.path@));
    }
    let rest = order.skip(p + 1);
    assert(rest[q - p - 1] == order[q]);
    lemma_beneath(artifacts, rest, a);
}

} // verus!
