//! What a comparison of two products leaves out: nothing that differs.
use vstd::prelude::*;
use vstd::string::*;

use crate::inspection::compare::{
    actions_compared, added, artifact_map, artifacts_compared, changed, compared, comparison,
    dependency_map, differences, evaluation_compared, helper_map, identical, input_map, module_map,
    notice_map, observation_map, policy_compared, preparation_map, prerequisite_map, provider_map,
    removed, requirement_map, same_origin, same_rung, selection_map, source_map, target_compared,
};
use crate::json::{compact, equal, key_sorted, JsonTree};
use crate::model::frozen::with_entry;
use crate::model::manifest::{
    Artifact, ArtifactNotice, ArtifactSelection, BuildInput, Dependency, Manifest, ManifestModule,
    Observation, ProcessObservation, Provider, ProviderPreparation, ProviderPrerequisite,
    Requirement, Script, SourceFile, Task, TemplateHelperPack,
};
use crate::model::wire::{
    artifact_notice_trees, artifact_selection_trees, artifact_trees, build_input_trees,
    dependency_trees, manifest_module_trees, observation_trees, process_observation_trees,
    provider_preparation_trees, provider_prerequisite_trees, provider_trees, requirement_trees,
    script_trees, source_file_trees, task_trees, template_helper_pack_trees,
};
use crate::order::{lemma_asymmetric, lemma_irreflexive, lemma_total, lemma_transitive, precedes};
use crate::text::{holds_text, lemma_holds_itself, lemma_holds_within, occurs_at, views};
use crate::trees::{lemma_equal_items, lemma_pair_pushed, pair_value};

verus! {

/// Whether text tells something under a title: the title stands on a line before it.
pub open spec fn told_under(text: Seq<char>, title: Seq<char>, entry: Seq<char>) -> bool {
    exists|at: int, from: int|
        at + title.len() + 1 <= from && #[trigger] occurs_at(text, title + "\n"@, at)
            && #[trigger] occurs_at(text, entry, from)
}

/// Whether text tells of everything that differs between two lists of keys and values: what
/// only the left one has is removed, what only the right one has is added, and what both
/// have with values that are not equal is changed. Of values under the same key the last
/// counts.
pub open spec fn tells_differences(
    text: Seq<char>,
    title: Seq<char>,
    left: Seq<(Seq<char>, JsonTree)>,
    right: Seq<(Seq<char>, JsonTree)>,
) -> bool {
    forall|key: Seq<char>|
        match (#[trigger] pair_value(left, key), pair_value(right, key)) {
            (Some(old), None) => told_under(
                text,
                title,
                "  Remove "@ + key + "\n    - "@ + compact(old) + "\n"@,
            ),
            (None, Some(new)) => told_under(
                text,
                title,
                "  Add "@ + key + "\n    + "@ + compact(new) + "\n"@,
            ),
            (Some(old), Some(new)) => equal(old, new) || told_under(
                text,
                title,
                "  Change "@ + key + "\n    - "@ + compact(old) + "\n    + "@ + compact(new)
                    + "\n"@,
            ),
            (None, None) => true,
        }
}

proof fn lemma_occurs_within(
    front: Seq<char>,
    text: Seq<char>,
    back: Seq<char>,
    part: Seq<char>,
    at: int,
)
    requires
        occurs_at(text, part, at),
    ensures
        occurs_at(front + text, part, front.len() + at),
        occurs_at(text + back, part, at),
{
    assert((front + text).subrange(front.len() + at, front.len() + at + part.len()) =~= part) by {
        assert forall|j: int| 0 <= j < part.len() implies (front + text)[front.len() + at + j]
            == part[j] by {
            assert(text.subrange(at, at + part.len())[j] == part[j]);
        }
    }
    assert((text + back).subrange(at, at + part.len()) =~= part) by {
        assert forall|j: int| 0 <= j < part.len() implies (text + back)[at + j] == part[j] by {
            assert(text.subrange(at, at + part.len())[j] == part[j]);
        }
    }
}

proof fn lemma_told_within(
    front: Seq<char>,
    text: Seq<char>,
    back: Seq<char>,
    title: Seq<char>,
    entry: Seq<char>,
)
    requires
        told_under(text, title, entry),
    ensures
        told_under(front + text, title, entry),
        told_under(text + back, title, entry),
{
    let (at, from) = choose|at: int, from: int|
        at + title.len() + 1 <= from && #[trigger] occurs_at(text, title + "\n"@, at)
            && #[trigger] occurs_at(text, entry, from);
    lemma_occurs_within(front, text, back, title + "\n"@, at);
    lemma_occurs_within(front, text, back, entry, from);
    assert(occurs_at(front + text, title + "\n"@, front.len() + at));
    assert(occurs_at(front + text, entry, front.len() + from));
    assert(occurs_at(text + back, title + "\n"@, at));
    assert(occurs_at(text + back, entry, from));
}

/// What text tells it tells with more around it too.
proof fn lemma_tells_within(
    front: Seq<char>,
    text: Seq<char>,
    back: Seq<char>,
    title: Seq<char>,
    left: Seq<(Seq<char>, JsonTree)>,
    right: Seq<(Seq<char>, JsonTree)>,
)
    requires
        tells_differences(text, title, left, right),
    ensures
        tells_differences(front + text, title, left, right),
        tells_differences(text + back, title, left, right),
{
    assert forall|key: Seq<char>| true implies match (
        #[trigger] pair_value(left, key),
        pair_value(right, key),
    ) {
        (Some(old), None) => ({
            let entry = "  Remove "@ + key + "\n    - "@ + compact(old) + "\n"@;
            told_under(front + text, title, entry) && told_under(text + back, title, entry)
        }),
        (None, Some(new)) => ({
            let entry = "  Add "@ + key + "\n    + "@ + compact(new) + "\n"@;
            told_under(front + text, title, entry) && told_under(text + back, title, entry)
        }),
        (Some(old), Some(new)) => ({
            let entry = "  Change "@ + key + "\n    - "@ + compact(old) + "\n    + "@ + compact(
                new,
            ) + "\n"@;
            equal(old, new) || (told_under(front + text, title, entry) && told_under(
                text + back,
                title,
                entry,
            ))
        }),
        (None, None) => true,
    } by {
        match (pair_value(left, key), pair_value(right, key)) {
            (Some(old), None) => {
                lemma_told_within(
                    front,
                    text,
                    back,
                    title,
                    "  Remove "@ + key + "\n    - "@ + compact(old) + "\n"@,
                );
            },
            (None, Some(new)) => {
                lemma_told_within(
                    front,
                    text,
                    back,
                    title,
                    "  Add "@ + key + "\n    + "@ + compact(new) + "\n"@,
                );
            },
            (Some(old), Some(new)) => {
                if !equal(old, new) {
                    lemma_told_within(
                        front,
                        text,
                        back,
                        title,
                        "  Change "@ + key + "\n    - "@ + compact(old) + "\n    + "@ + compact(new)
                            + "\n"@,
                    );
                }
            },
            (None, None) => {},
        }
    }
}

/// Whether keys ascend.
pub open spec fn rising(list: Seq<(Seq<char>, JsonTree)>) -> bool {
    forall|i: int, j: int|
        0 <= i < j < list.len() ==> precedes((#[trigger] list[i]).0, (#[trigger] list[j]).0)
}

/// Keys and values put in one after the other, in the order of the keys.
pub open spec fn keyed(pairs: Seq<(Seq<char>, JsonTree)>) -> Seq<(Seq<char>, JsonTree)>
    decreases pairs.len(),
{
    if pairs.len() == 0 {
        Seq::empty()
    } else {
        with_entry(keyed(pairs.drop_last()), pairs.last().0, pairs.last().1)
    }
}

/// Putting one in keeps the order and changes no other value.
proof fn lemma_with_entry(list: Seq<(Seq<char>, JsonTree)>, key: Seq<char>, value: JsonTree)
    requires
        rising(list),
    ensures
        rising(with_entry(list, key, value)),
        forall|other: Seq<char>| #[trigger]
            pair_value(with_entry(list, key, value), other) == if other == key {
                Some(value)
            } else {
                pair_value(list, other)
            },
        forall|bound: Seq<char>|
            (forall|i: int| 0 <= i < list.len() ==> precedes((#[trigger] list[i]).0, bound))
                && precedes(key, bound) ==> forall|i: int|
                0 <= i < with_entry(list, key, value).len() ==> precedes(
                    (#[trigger] with_entry(list, key, value)[i]).0,
                    bound,
                ),
    decreases list.len(),
{
    broadcast use lemma_pair_pushed;

    let all = with_entry(list, key, value);
    if list.len() == 0 {
        assert(all =~= Seq::empty().push((key, value)));
        assert(pair_value(list, key) is None);
    } else {
        let front = list.drop_last();
        let last = list[list.len() - 1];
        assert(list =~= front.push(last));
        assert forall|i: int, j: int| 0 <= i < j < front.len() implies precedes(
            (#[trigger] front[i]).0,
            (#[trigger] front[j]).0,
        ) by {
            assert(precedes(list[i].0, list[j].0));
        }
        assert forall|i: int| 0 <= i < front.len() implies precedes((#[trigger] front[i]).0, last.0) by {
            assert(precedes(list[i].0, list[list.len() - 1].0));
        }
        if precedes(key, last.0) {
            lemma_with_entry(front, key, value);
            let rest = with_entry(front, key, value);
            lemma_irreflexive(key);
            assert forall|i: int, j: int| 0 <= i < j < all.len() implies precedes(
                (#[trigger] all[i]).0,
                (#[trigger] all[j]).0,
            ) by {
                if j < rest.len() {
                    assert(precedes(rest[i].0, rest[j].0));
                } else {
                    assert(precedes(rest[i].0, last.0));
                }
            }
            assert forall|bound: Seq<char>|
                (forall|i: int| 0 <= i < list.len() ==> precedes((#[trigger] list[i]).0, bound))
                    && precedes(key, bound) implies forall|i: int|
                0 <= i < all.len() ==> precedes((#[trigger] all[i]).0, bound) by {
                assert forall|i: int| 0 <= i < front.len() implies precedes(
                    (#[trigger] front[i]).0,
                    bound,
                ) by {
                    assert(precedes(list[i].0, bound));
                }
                assert(precedes(list[list.len() - 1].0, bound));
                assert forall|i: int| 0 <= i < all.len() implies precedes((#[trigger] all[i]).0, bound) by {
                    if i < rest.len() {
                        assert(precedes(rest[i].0, bound));
                    }
                }
            }
        } else if last.0 == key {
            assert forall|i: int, j: int| 0 <= i < j < all.len() implies precedes(
                (#[trigger] all[i]).0,
                (#[trigger] all[j]).0,
            ) by {
                assert(precedes(list[i].0, list[j].0));
            }
        } else {
            lemma_total(key, last.0);
            assert forall|i: int, j: int| 0 <= i < j < all.len() implies precedes(
                (#[trigger] all[i]).0,
                (#[trigger] all[j]).0,
            ) by {
                if j < list.len() {
                    assert(precedes(list[i].0, list[j].0));
                } else if i < front.len() {
                    lemma_transitive(front[i].0, last.0, key);
                }
            }
        }
    }
}

proof fn lemma_keyed(pairs: Seq<(Seq<char>, JsonTree)>)
    ensures
        rising(keyed(pairs)),
        forall|key: Seq<char>| #[trigger] pair_value(keyed(pairs), key) == pair_value(pairs, key),
    decreases pairs.len(),
{
    if pairs.len() > 0 {
        let front = pairs.drop_last();
        lemma_keyed(front);
        lemma_with_entry(keyed(front), pairs.last().0, pairs.last().1);
        assert forall|key: Seq<char>| #[trigger] pair_value(keyed(pairs), key) == pair_value(
            pairs,
            key,
        ) by {
            assert(pair_value(keyed(front), key) == pair_value(front, key));
        }
    }
}

proof fn lemma_value_first(list: Seq<(Seq<char>, JsonTree)>, key: Seq<char>)
    requires
        rising(list),
        list.len() > 0,
    ensures
        rising(list.skip(1)),
        pair_value(list, key) == if key == list[0].0 {
            Some(list[0].1)
        } else {
            pair_value(list.skip(1), key)
        },
        !precedes(list[0].0, key) && key != list[0].0 ==> pair_value(list, key) is None,
        pair_value(list.skip(1), list[0].0) is None,
    decreases list.len(),
{
    let rest = list.skip(1);
    assert forall|i: int, j: int| 0 <= i < j < rest.len() implies precedes(
        (#[trigger] rest[i]).0,
        (#[trigger] rest[j]).0,
    ) by {
        assert(precedes(list[i + 1].0, list[j + 1].0));
    }
    let front = list.drop_last();
    let last = list.last();
    if list.len() > 1 {
        assert forall|i: int, j: int| 0 <= i < j < front.len() implies precedes(
            (#[trigger] front[i]).0,
            (#[trigger] front[j]).0,
        ) by {
            assert(precedes(list[i].0, list[j].0));
        }
        lemma_value_first(front, key);
        assert(front.skip(1) =~= rest.drop_last());
        assert(rest.last() == last);
        assert(precedes(list[0].0, list[list.len() - 1].0));
        lemma_irreflexive(list[0].0);
        lemma_value_first(front, list[0].0);
    } else {
        assert(front.len() == 0);
        assert(rest.len() == 0);
    }
}

/// The differences of two lists in the order of their keys tell of every key.
proof fn lemma_differences(
    left: Seq<(Seq<char>, JsonTree)>,
    right: Seq<(Seq<char>, JsonTree)>,
    key: Seq<char>,
)
    requires
        rising(left),
        rising(right),
    ensures
        match (pair_value(left, key), pair_value(right, key)) {
            (Some(old), None) => holds_text(
                differences(left, right),
                "  Remove "@ + key + "\n    - "@ + compact(old) + "\n"@,
            ),
            (None, Some(new)) => holds_text(
                differences(left, right),
                "  Add "@ + key + "\n    + "@ + compact(new) + "\n"@,
            ),
            (Some(old), Some(new)) => equal(old, new) || holds_text(
                differences(left, right),
                "  Change "@ + key + "\n    - "@ + compact(old) + "\n    + "@ + compact(new)
                    + "\n"@,
            ),
            (None, None) => true,
        },
    decreases left.len() + right.len(),
{
    if left.len() > 0 {
        lemma_value_first(left, key);
    }
    if right.len() > 0 {
        lemma_value_first(right, key);
    }
    if left.len() == 0 && right.len() == 0 {
    } else if right.len() == 0 || (left.len() > 0 && precedes(left[0].0, right[0].0)) {
        let head = removed(left[0]);
        let tail = differences(left.skip(1), right);
        lemma_differences(left.skip(1), right, key);
        lemma_holds_itself(head);
        if key == left[0].0 {
            if right.len() > 0 {
                lemma_asymmetric(left[0].0, right[0].0);
                lemma_irreflexive(left[0].0);
            }
            lemma_holds_within(Seq::empty(), head, tail, head);
        } else {
            lemma_behind(head, tail, key, left.skip(1), right);
        }
    } else if left.len() == 0 || left[0].0 != right[0].0 {
        let head = added(right[0]);
        let tail = differences(left, right.skip(1));
        lemma_differences(left, right.skip(1), key);
        lemma_holds_itself(head);
        if key == right[0].0 {
            if left.len() > 0 {
                lemma_total(left[0].0, right[0].0);
                lemma_asymmetric(right[0].0, left[0].0);
            }
            lemma_holds_within(Seq::empty(), head, tail, head);
        } else {
            lemma_behind(head, tail, key, left, right.skip(1));
        }
    } else {
        let head = changed(left[0].0, left[0].1, right[0].1);
        let tail = differences(left.skip(1), right.skip(1));
        lemma_differences(left.skip(1), right.skip(1), key);
        if key == left[0].0 {
            if !equal(left[0].1, right[0].1) {
                lemma_holds_itself(head);
                lemma_holds_within(Seq::empty(), head, tail, head);
            }
        } else {
            lemma_behind(head, tail, key, left.skip(1), right.skip(1));
        }
    }
}

proof fn lemma_behind(
    head: Seq<char>,
    tail: Seq<char>,
    key: Seq<char>,
    left: Seq<(Seq<char>, JsonTree)>,
    right: Seq<(Seq<char>, JsonTree)>,
)
    requires
        match (pair_value(left, key), pair_value(right, key)) {
            (Some(old), None) => holds_text(
                tail,
                "  Remove "@ + key + "\n    - "@ + compact(old) + "\n"@,
            ),
            (None, Some(new)) => holds_text(
                tail,
                "  Add "@ + key + "\n    + "@ + compact(new) + "\n"@,
            ),
            (Some(old), Some(new)) => equal(old, new) || holds_text(
                tail,
                "  Change "@ + key + "\n    - "@ + compact(old) + "\n    + "@ + compact(new)
                    + "\n"@,
            ),
            (None, None) => true,
        },
    ensures
        match (pair_value(left, key), pair_value(right, key)) {
            (Some(old), None) => holds_text(
                head + tail,
                "  Remove "@ + key + "\n    - "@ + compact(old) + "\n"@,
            ),
            (None, Some(new)) => holds_text(
                head + tail,
                "  Add "@ + key + "\n    + "@ + compact(new) + "\n"@,
            ),
            (Some(old), Some(new)) => equal(old, new) || holds_text(
                head + tail,
                "  Change "@ + key + "\n    - "@ + compact(old) + "\n    + "@ + compact(new)
                    + "\n"@,
            ),
            (None, None) => true,
        },
{
    match (pair_value(left, key), pair_value(right, key)) {
        (Some(old), None) => {
            lemma_holds_within(
                head,
                tail,
                Seq::empty(),
                "  Remove "@ + key + "\n    - "@ + compact(old) + "\n"@,
            );
        },
        (None, Some(new)) => {
            lemma_holds_within(
                head,
                tail,
                Seq::empty(),
                "  Add "@ + key + "\n    + "@ + compact(new) + "\n"@,
            );
        },
        (Some(old), Some(new)) => {
            if !equal(old, new) {
                lemma_holds_within(
                    head,
                    tail,
                    Seq::empty(),
                    "  Change "@ + key + "\n    - "@ + compact(old) + "\n    + "@ + compact(new)
                        + "\n"@,
                );
            }
        },
        (None, None) => {},
    }
}

proof fn lemma_under_title(title: Seq<char>, body: Seq<char>, entry: Seq<char>)
    requires
        holds_text(body, entry),
        entry.len() > 0,
    ensures
        told_under(title + "\n"@ + body, title, entry),
        body.len() > 0,
{
    reveal_strlit("\n");
    let text = title + "\n"@ + body;
    let head = title + "\n"@;
    let from = choose|from: int| #[trigger] occurs_at(body, entry, from);
    lemma_occurs_within(head, body, Seq::empty(), entry, from);
    assert(text.subrange(0, head.len() as int) =~= head);
    assert(occurs_at(text, head, 0));
    assert(occurs_at(text, entry, head.len() + from));
}

/// A section tells of everything that differs.
proof fn lemma_section(
    title: Seq<char>,
    left: Seq<(Seq<char>, JsonTree)>,
    right: Seq<(Seq<char>, JsonTree)>,
)
    ensures
        tells_differences(compared(title, keyed(left), keyed(right)), title, left, right),
{
    lemma_keyed(left);
    lemma_keyed(right);
    let body = differences(keyed(left), keyed(right));
    let text = compared(title, keyed(left), keyed(right));
    reveal_strlit("  Remove ");
    reveal_strlit("  Add ");
    reveal_strlit("  Change ");
    assert forall|key: Seq<char>| true implies match (
        #[trigger] pair_value(left, key),
        pair_value(right, key),
    ) {
        (Some(old), None) => told_under(
            text,
            title,
            "  Remove "@ + key + "\n    - "@ + compact(old) + "\n"@,
        ),
        (None, Some(new)) => told_under(
            text,
            title,
            "  Add "@ + key + "\n    + "@ + compact(new) + "\n"@,
        ),
        (Some(old), Some(new)) => equal(old, new) || told_under(
            text,
            title,
            "  Change "@ + key + "\n    - "@ + compact(old) + "\n    + "@ + compact(new) + "\n"@,
        ),
        (None, None) => true,
    } by {
        assert(pair_value(keyed(left), key) == pair_value(left, key));
        assert(pair_value(keyed(right), key) == pair_value(right, key));
        lemma_differences(keyed(left), keyed(right), key);
        match (pair_value(left, key), pair_value(right, key)) {
            (Some(old), None) => {
                lemma_under_title(
                    title,
                    body,
                    "  Remove "@ + key + "\n    - "@ + compact(old) + "\n"@,
                );
            },
            (None, Some(new)) => {
                lemma_under_title(
                    title,
                    body,
                    "  Add "@ + key + "\n    + "@ + compact(new) + "\n"@,
                );
            },
            (Some(old), Some(new)) => {
                if !equal(old, new) {
                    lemma_under_title(
                        title,
                        body,
                        "  Change "@ + key + "\n    - "@ + compact(old) + "\n    + "@ + compact(new)
                            + "\n"@,
                    );
                }
            },
            (None, None) => {},
        }
    }
}

/// The keys and serialised values of the sources.
pub open spec fn source_pairs(list: Seq<SourceFile>) -> Seq<(Seq<char>, JsonTree)> {
    list.map_values(|v: SourceFile| (v.path@, key_sorted(v.tree())))
}

proof fn lemma_source_map(list: Seq<SourceFile>)
    ensures
        source_map(list) == keyed(source_pairs(list)),
    decreases list.len(),
{
    if list.len() > 0 {
        lemma_source_map(list.drop_last());
        assert(source_pairs(list).drop_last() =~= source_pairs(list.drop_last()));
        assert(source_pairs(list).last() == source_pairs(list)[list.len() - 1]);
    }
}

/// A comparison of products that are not identical tells of everything that differs in
/// the sources.
pub proof fn law_comparisons_tell_of_sources(left: Manifest, right: Manifest)
    requires
        !identical(left, right),
    ensures
        tells_differences(
            comparison(left, right),
            "Sources"@,
            source_pairs(left.sources@),
            source_pairs(right.sources@),
        ),
{
    let title = "Sources"@;
    let a = source_pairs(left.sources@);
    let b = source_pairs(right.sources@);
    lemma_source_map(left.sources@);
    lemma_source_map(right.sources@);
    lemma_section(title, a, b);
    let head = "Product comparison\n  left: "@ + left.build_id@ + "\n  right: "@ + right.build_id@
        + "\n"@;
    let s0 = compared("Sources"@, source_map(left.sources@), source_map(right.sources@));
    let u0 = s0;
    lemma_tells_within(Seq::empty(), u0, compared("Inputs"@, input_map(left.inputs@), input_map(right.inputs@)), title, a, b);
    let u1 = u0 + compared("Inputs"@, input_map(left.inputs@), input_map(right.inputs@));
    lemma_tells_within(Seq::empty(), u1, target_compared(left.target, right.target), title, a, b);
    let u2 = u1 + target_compared(left.target, right.target);
    lemma_tells_within(Seq::empty(), u2, compared("Observations"@, observation_map(left.observations@), observation_map(right.observations@)), title, a, b);
    let u3 = u2 + compared("Observations"@, observation_map(left.observations@), observation_map(right.observations@));
    lemma_tells_within(Seq::empty(), u3, compared("Modules"@, module_map(left.modules@), module_map(right.modules@)), title, a, b);
    let u4 = u3 + compared("Modules"@, module_map(left.modules@), module_map(right.modules@));
    lemma_tells_within(Seq::empty(), u4, compared("Dependencies"@, dependency_map(left.dependencies@), dependency_map(right.dependencies@)), title, a, b);
    let u5 = u4 + compared("Dependencies"@, dependency_map(left.dependencies@), dependency_map(right.dependencies@));
    lemma_tells_within(Seq::empty(), u5, compared("Template helpers"@, helper_map(left.template_helpers@), helper_map(right.template_helpers@)), title, a, b);
    let u6 = u5 + compared("Template helpers"@, helper_map(left.template_helpers@), helper_map(right.template_helpers@));
    assert(u6 == evaluation_compared(left, right));
    lemma_tells_within(head, u6, Seq::empty(), title, a, b);
    lemma_tells_within(Seq::empty(), head + u6, actions_compared(left, right), title, a, b);
    lemma_tells_within(
        Seq::empty(),
        head + u6 + actions_compared(left, right),
        artifacts_compared(left, right),
        title,
        a,
        b,
    );
}

/// The keys and serialised values of the inputs.
pub open spec fn input_pairs(list: Seq<BuildInput>) -> Seq<(Seq<char>, JsonTree)> {
    list.map_values(|v: BuildInput| (v.name@, key_sorted(v.tree())))
}

proof fn lemma_input_map(list: Seq<BuildInput>)
    ensures
        input_map(list) == keyed(input_pairs(list)),
    decreases list.len(),
{
    if list.len() > 0 {
        lemma_input_map(list.drop_last());
        assert(input_pairs(list).drop_last() =~= input_pairs(list.drop_last()));
        assert(input_pairs(list).last() == input_pairs(list)[list.len() - 1]);
    }
}

/// A comparison of products that are not identical tells of everything that differs in
/// the inputs.
pub proof fn law_comparisons_tell_of_inputs(left: Manifest, right: Manifest)
    requires
        !identical(left, right),
    ensures
        tells_differences(
            comparison(left, right),
            "Inputs"@,
            input_pairs(left.inputs@),
            input_pairs(right.inputs@),
        ),
{
    let title = "Inputs"@;
    let a = input_pairs(left.inputs@);
    let b = input_pairs(right.inputs@);
    lemma_input_map(left.inputs@);
    lemma_input_map(right.inputs@);
    lemma_section(title, a, b);
    let head = "Product comparison\n  left: "@ + left.build_id@ + "\n  right: "@ + right.build_id@
        + "\n"@;
    let s0 = compared("Inputs"@, input_map(left.inputs@), input_map(right.inputs@));
    let t0 = compared("Sources"@, source_map(left.sources@), source_map(right.sources@));
    lemma_tells_within(t0, s0, Seq::empty(), title, a, b);
    let u0 = t0 + s0;
    lemma_tells_within(Seq::empty(), u0, target_compared(left.target, right.target), title, a, b);
    let u1 = u0 + target_compared(left.target, right.target);
    lemma_tells_within(Seq::empty(), u1, compared("Observations"@, observation_map(left.observations@), observation_map(right.observations@)), title, a, b);
    let u2 = u1 + compared("Observations"@, observation_map(left.observations@), observation_map(right.observations@));
    lemma_tells_within(Seq::empty(), u2, compared("Modules"@, module_map(left.modules@), module_map(right.modules@)), title, a, b);
    let u3 = u2 + compared("Modules"@, module_map(left.modules@), module_map(right.modules@));
    lemma_tells_within(Seq::empty(), u3, compared("Dependencies"@, dependency_map(left.dependencies@), dependency_map(right.dependencies@)), title, a, b);
    let u4 = u3 + compared("Dependencies"@, dependency_map(left.dependencies@), dependency_map(right.dependencies@));
    lemma_tells_within(Seq::empty(), u4, compared("Template helpers"@, helper_map(left.template_helpers@), helper_map(right.template_helpers@)), title, a, b);
    let u5 = u4 + compared("Template helpers"@, helper_map(left.template_helpers@), helper_map(right.template_helpers@));
    assert(u5 == evaluation_compared(left, right));
    lemma_tells_within(head, u5, Seq::empty(), title, a, b);
    lemma_tells_within(Seq::empty(), head + u5, actions_compared(left, right), title, a, b);
    lemma_tells_within(
        Seq::empty(),
        head + u5 + actions_compared(left, right),
        artifacts_compared(left, right),
        title,
        a,
        b,
    );
}

/// The keys and serialised values of what was observed.
pub open spec fn observation_pairs(list: Seq<Observation>) -> Seq<(Seq<char>, JsonTree)> {
    list.map_values(|v: Observation| (v.subject.label() + "."@ + v.path@, key_sorted(v.tree())))
}

proof fn lemma_observation_map(list: Seq<Observation>)
    ensures
        observation_map(list) == keyed(observation_pairs(list)),
    decreases list.len(),
{
    if list.len() > 0 {
        lemma_observation_map(list.drop_last());
        assert(observation_pairs(list).drop_last() =~= observation_pairs(list.drop_last()));
        assert(observation_pairs(list).last() == observation_pairs(list)[list.len() - 1]);
    }
}

/// A comparison of products that are not identical tells of everything that differs in
/// what was observed.
pub proof fn law_comparisons_tell_of_observations(left: Manifest, right: Manifest)
    requires
        !identical(left, right),
    ensures
        tells_differences(
            comparison(left, right),
            "Observations"@,
            observation_pairs(left.observations@),
            observation_pairs(right.observations@),
        ),
{
    let title = "Observations"@;
    let a = observation_pairs(left.observations@);
    let b = observation_pairs(right.observations@);
    lemma_observation_map(left.observations@);
    lemma_observation_map(right.observations@);
    lemma_section(title, a, b);
    let head = "Product comparison\n  left: "@ + left.build_id@ + "\n  right: "@ + right.build_id@
        + "\n"@;
    let s0 = compared("Observations"@, observation_map(left.observations@), observation_map(right.observations@));
    let t0 = compared("Sources"@, source_map(left.sources@), source_map(right.sources@)) + compared("Inputs"@, input_map(left.inputs@), input_map(right.inputs@)) + target_compared(left.target, right.target);
    lemma_tells_within(t0, s0, Seq::empty(), title, a, b);
    let u0 = t0 + s0;
    lemma_tells_within(Seq::empty(), u0, compared("Modules"@, module_map(left.modules@), module_map(right.modules@)), title, a, b);
    let u1 = u0 + compared("Modules"@, module_map(left.modules@), module_map(right.modules@));
    lemma_tells_within(Seq::empty(), u1, compared("Dependencies"@, dependency_map(left.dependencies@), dependency_map(right.dependencies@)), title, a, b);
    let u2 = u1 + compared("Dependencies"@, dependency_map(left.dependencies@), dependency_map(right.dependencies@));
    lemma_tells_within(Seq::empty(), u2, compared("Template helpers"@, helper_map(left.template_helpers@), helper_map(right.template_helpers@)), title, a, b);
    let u3 = u2 + compared("Template helpers"@, helper_map(left.template_helpers@), helper_map(right.template_helpers@));
    assert(u3 == evaluation_compared(left, right));
    lemma_tells_within(head, u3, Seq::empty(), title, a, b);
    lemma_tells_within(Seq::empty(), head + u3, actions_compared(left, right), title, a, b);
    lemma_tells_within(
        Seq::empty(),
        head + u3 + actions_compared(left, right),
        artifacts_compared(left, right),
        title,
        a,
        b,
    );
}

/// The keys and serialised values of the modules.
pub open spec fn module_pairs(list: Seq<ManifestModule>) -> Seq<(Seq<char>, JsonTree)> {
    list.map_values(|v: ManifestModule| (v.name@, key_sorted(v.tree())))
}

proof fn lemma_module_map(list: Seq<ManifestModule>)
    ensures
        module_map(list) == keyed(module_pairs(list)),
    decreases list.len(),
{
    if list.len() > 0 {
        lemma_module_map(list.drop_last());
        assert(module_pairs(list).drop_last() =~= module_pairs(list.drop_last()));
        assert(module_pairs(list).last() == module_pairs(list)[list.len() - 1]);
    }
}

/// A comparison of products that are not identical tells of everything that differs in
/// the modules.
pub proof fn law_comparisons_tell_of_modules(left: Manifest, right: Manifest)
    requires
        !identical(left, right),
    ensures
        tells_differences(
            comparison(left, right),
            "Modules"@,
            module_pairs(left.modules@),
            module_pairs(right.modules@),
        ),
{
    let title = "Modules"@;
    let a = module_pairs(left.modules@);
    let b = module_pairs(right.modules@);
    lemma_module_map(left.modules@);
    lemma_module_map(right.modules@);
    lemma_section(title, a, b);
    let head = "Product comparison\n  left: "@ + left.build_id@ + "\n  right: "@ + right.build_id@
        + "\n"@;
    let s0 = compared("Modules"@, module_map(left.modules@), module_map(right.modules@));
    let t0 = compared("Sources"@, source_map(left.sources@), source_map(right.sources@)) + compared("Inputs"@, input_map(left.inputs@), input_map(right.inputs@)) + target_compared(left.target, right.target) + compared("Observations"@, observation_map(left.observations@), observation_map(right.observations@));
    lemma_tells_within(t0, s0, Seq::empty(), title, a, b);
    let u0 = t0 + s0;
    lemma_tells_within(Seq::empty(), u0, compared("Dependencies"@, dependency_map(left.dependencies@), dependency_map(right.dependencies@)), title, a, b);
    let u1 = u0 + compared("Dependencies"@, dependency_map(left.dependencies@), dependency_map(right.dependencies@));
    lemma_tells_within(Seq::empty(), u1, compared("Template helpers"@, helper_map(left.template_helpers@), helper_map(right.template_helpers@)), title, a, b);
    let u2 = u1 + compared("Template helpers"@, helper_map(left.template_helpers@), helper_map(right.template_helpers@));
    assert(u2 == evaluation_compared(left, right));
    lemma_tells_within(head, u2, Seq::empty(), title, a, b);
    lemma_tells_within(Seq::empty(), head + u2, actions_compared(left, right), title, a, b);
    lemma_tells_within(
        Seq::empty(),
        head + u2 + actions_compared(left, right),
        artifacts_compared(left, right),
        title,
        a,
        b,
    );
}

/// The keys and serialised values of the dependencies.
pub open spec fn dependency_pairs(list: Seq<Dependency>) -> Seq<(Seq<char>, JsonTree)> {
    list.map_values(|v: Dependency| (v.kind.label() + ":"@ + v.from@ + "->"@ + v.to@ + "@"@ + compact(v.declared_at.tree()), key_sorted(v.tree())))
}

proof fn lemma_dependency_map(list: Seq<Dependency>)
    ensures
        dependency_map(list) == keyed(dependency_pairs(list)),
    decreases list.len(),
{
    if list.len() > 0 {
        lemma_dependency_map(list.drop_last());
        assert(dependency_pairs(list).drop_last() =~= dependency_pairs(list.drop_last()));
        assert(dependency_pairs(list).last() == dependency_pairs(list)[list.len() - 1]);
    }
}

/// A comparison of products that are not identical tells of everything that differs in
/// the dependencies.
pub proof fn law_comparisons_tell_of_dependencies(left: Manifest, right: Manifest)
    requires
        !identical(left, right),
    ensures
        tells_differences(
            comparison(left, right),
            "Dependencies"@,
            dependency_pairs(left.dependencies@),
            dependency_pairs(right.dependencies@),
        ),
{
    let title = "Dependencies"@;
    let a = dependency_pairs(left.dependencies@);
    let b = dependency_pairs(right.dependencies@);
    lemma_dependency_map(left.dependencies@);
    lemma_dependency_map(right.dependencies@);
    lemma_section(title, a, b);
    let head = "Product comparison\n  left: "@ + left.build_id@ + "\n  right: "@ + right.build_id@
        + "\n"@;
    let s0 = compared("Dependencies"@, dependency_map(left.dependencies@), dependency_map(right.dependencies@));
    let t0 = compared("Sources"@, source_map(left.sources@), source_map(right.sources@)) + compared("Inputs"@, input_map(left.inputs@), input_map(right.inputs@)) + target_compared(left.target, right.target) + compared("Observations"@, observation_map(left.observations@), observation_map(right.observations@)) + compared("Modules"@, module_map(left.modules@), module_map(right.modules@));
    lemma_tells_within(t0, s0, Seq::empty(), title, a, b);
    let u0 = t0 + s0;
    lemma_tells_within(Seq::empty(), u0, compared("Template helpers"@, helper_map(left.template_helpers@), helper_map(right.template_helpers@)), title, a, b);
    let u1 = u0 + compared("Template helpers"@, helper_map(left.template_helpers@), helper_map(right.template_helpers@));
    assert(u1 == evaluation_compared(left, right));
    lemma_tells_within(head, u1, Seq::empty(), title, a, b);
    lemma_tells_within(Seq::empty(), head + u1, actions_compared(left, right), title, a, b);
    lemma_tells_within(
        Seq::empty(),
        head + u1 + actions_compared(left, right),
        artifacts_compared(left, right),
        title,
        a,
        b,
    );
}

/// The keys and serialised values of the packs of template helpers.
pub open spec fn helper_pairs(list: Seq<TemplateHelperPack>) -> Seq<(Seq<char>, JsonTree)> {
    list.map_values(|v: TemplateHelperPack| (v.module@ + ":"@ + v.prefix@, key_sorted(v.tree())))
}

proof fn lemma_helper_map(list: Seq<TemplateHelperPack>)
    ensures
        helper_map(list) == keyed(helper_pairs(list)),
    decreases list.len(),
{
    if list.len() > 0 {
        lemma_helper_map(list.drop_last());
        assert(helper_pairs(list).drop_last() =~= helper_pairs(list.drop_last()));
        assert(helper_pairs(list).last() == helper_pairs(list)[list.len() - 1]);
    }
}

/// A comparison of products that are not identical tells of everything that differs in
/// the packs of template helpers.
pub proof fn law_comparisons_tell_of_helpers(left: Manifest, right: Manifest)
    requires
        !identical(left, right),
    ensures
        tells_differences(
            comparison(left, right),
            "Template helpers"@,
            helper_pairs(left.template_helpers@),
            helper_pairs(right.template_helpers@),
        ),
{
    let title = "Template helpers"@;
    let a = helper_pairs(left.template_helpers@);
    let b = helper_pairs(right.template_helpers@);
    lemma_helper_map(left.template_helpers@);
    lemma_helper_map(right.template_helpers@);
    lemma_section(title, a, b);
    let head = "Product comparison\n  left: "@ + left.build_id@ + "\n  right: "@ + right.build_id@
        + "\n"@;
    let s0 = compared("Template helpers"@, helper_map(left.template_helpers@), helper_map(right.template_helpers@));
    let t0 = compared("Sources"@, source_map(left.sources@), source_map(right.sources@)) + compared("Inputs"@, input_map(left.inputs@), input_map(right.inputs@)) + target_compared(left.target, right.target) + compared("Observations"@, observation_map(left.observations@), observation_map(right.observations@)) + compared("Modules"@, module_map(left.modules@), module_map(right.modules@)) + compared("Dependencies"@, dependency_map(left.dependencies@), dependency_map(right.dependencies@));
    lemma_tells_within(t0, s0, Seq::empty(), title, a, b);
    let u0 = t0 + s0;
    assert(u0 == evaluation_compared(left, right));
    lemma_tells_within(head, u0, Seq::empty(), title, a, b);
    lemma_tells_within(Seq::empty(), head + u0, actions_compared(left, right), title, a, b);
    lemma_tells_within(
        Seq::empty(),
        head + u0 + actions_compared(left, right),
        artifacts_compared(left, right),
        title,
        a,
        b,
    );
}

/// The keys and serialised values of the providers.
pub open spec fn provider_pairs(list: Seq<Provider>) -> Seq<(Seq<char>, JsonTree)> {
    list.map_values(|v: Provider| (v.name@, key_sorted(v.tree())))
}

proof fn lemma_provider_map(list: Seq<Provider>)
    ensures
        provider_map(list) == keyed(provider_pairs(list)),
    decreases list.len(),
{
    if list.len() > 0 {
        lemma_provider_map(list.drop_last());
        assert(provider_pairs(list).drop_last() =~= provider_pairs(list.drop_last()));
        assert(provider_pairs(list).last() == provider_pairs(list)[list.len() - 1]);
    }
}

/// A comparison of products that are not identical tells of everything that differs in
/// the providers.
pub proof fn law_comparisons_tell_of_providers(left: Manifest, right: Manifest)
    requires
        !identical(left, right),
    ensures
        tells_differences(
            comparison(left, right),
            "Providers"@,
            provider_pairs(left.providers@),
            provider_pairs(right.providers@),
        ),
{
    let title = "Providers"@;
    let a = provider_pairs(left.providers@);
    let b = provider_pairs(right.providers@);
    lemma_provider_map(left.providers@);
    lemma_provider_map(right.providers@);
    lemma_section(title, a, b);
    let head = "Product comparison\n  left: "@ + left.build_id@ + "\n  right: "@ + right.build_id@
        + "\n"@;
    let s0 = compared("Providers"@, provider_map(left.providers@), provider_map(right.providers@));
    let u0 = s0;
    lemma_tells_within(Seq::empty(), u0, compared("Requirements"@, requirement_map(left.requirements@), requirement_map(right.requirements@)), title, a, b);
    let u1 = u0 + compared("Requirements"@, requirement_map(left.requirements@), requirement_map(right.requirements@));
    lemma_tells_within(Seq::empty(), u1, compared("Prerequisites"@, prerequisite_map(left.prerequisites@), prerequisite_map(right.prerequisites@)), title, a, b);
    let u2 = u1 + compared("Prerequisites"@, prerequisite_map(left.prerequisites@), prerequisite_map(right.prerequisites@));
    lemma_tells_within(Seq::empty(), u2, compared("Preparations"@, preparation_map(left.preparations@), preparation_map(right.preparations@)), title, a, b);
    let u3 = u2 + compared("Preparations"@, preparation_map(left.preparations@), preparation_map(right.preparations@));
    assert(u3 == actions_compared(left, right));
    lemma_tells_within(head + evaluation_compared(left, right), u3, Seq::empty(), title, a, b);
    lemma_tells_within(
        Seq::empty(),
        head + evaluation_compared(left, right) + u3,
        artifacts_compared(left, right),
        title,
        a,
        b,
    );
}

/// The keys and serialised values of the requirements.
pub open spec fn requirement_pairs(list: Seq<Requirement>) -> Seq<(Seq<char>, JsonTree)> {
    list.map_values(|v: Requirement| (v.kind.label() + ":"@ + v.candidates@[v.selected as int].product() + "@"@ + v.declared_at.text(), key_sorted(v.tree())))
}

proof fn lemma_requirement_map(list: Seq<Requirement>)
    ensures
        requirement_map(list) == keyed(requirement_pairs(list)),
    decreases list.len(),
{
    if list.len() > 0 {
        lemma_requirement_map(list.drop_last());
        assert(requirement_pairs(list).drop_last() =~= requirement_pairs(list.drop_last()));
        assert(requirement_pairs(list).last() == requirement_pairs(list)[list.len() - 1]);
    }
}

/// A comparison of products that are not identical tells of everything that differs in
/// the requirements.
pub proof fn law_comparisons_tell_of_requirements(left: Manifest, right: Manifest)
    requires
        !identical(left, right),
    ensures
        tells_differences(
            comparison(left, right),
            "Requirements"@,
            requirement_pairs(left.requirements@),
            requirement_pairs(right.requirements@),
        ),
{
    let title = "Requirements"@;
    let a = requirement_pairs(left.requirements@);
    let b = requirement_pairs(right.requirements@);
    lemma_requirement_map(left.requirements@);
    lemma_requirement_map(right.requirements@);
    lemma_section(title, a, b);
    let head = "Product comparison\n  left: "@ + left.build_id@ + "\n  right: "@ + right.build_id@
        + "\n"@;
    let s0 = compared("Requirements"@, requirement_map(left.requirements@), requirement_map(right.requirements@));
    let t0 = compared("Providers"@, provider_map(left.providers@), provider_map(right.providers@));
    lemma_tells_within(t0, s0, Seq::empty(), title, a, b);
    let u0 = t0 + s0;
    lemma_tells_within(Seq::empty(), u0, compared("Prerequisites"@, prerequisite_map(left.prerequisites@), prerequisite_map(right.prerequisites@)), title, a, b);
    let u1 = u0 + compared("Prerequisites"@, prerequisite_map(left.prerequisites@), prerequisite_map(right.prerequisites@));
    lemma_tells_within(Seq::empty(), u1, compared("Preparations"@, preparation_map(left.preparations@), preparation_map(right.preparations@)), title, a, b);
    let u2 = u1 + compared("Preparations"@, preparation_map(left.preparations@), preparation_map(right.preparations@));
    assert(u2 == actions_compared(left, right));
    lemma_tells_within(head + evaluation_compared(left, right), u2, Seq::empty(), title, a, b);
    lemma_tells_within(
        Seq::empty(),
        head + evaluation_compared(left, right) + u2,
        artifacts_compared(left, right),
        title,
        a,
        b,
    );
}

/// The keys and serialised values of the prerequisites.
pub open spec fn prerequisite_pairs(list: Seq<ProviderPrerequisite>) -> Seq<(Seq<char>, JsonTree)> {
    list.map_values(|v: ProviderPrerequisite| (v.provider@ + ":"@ + v.identity@, key_sorted(v.tree())))
}

proof fn lemma_prerequisite_map(list: Seq<ProviderPrerequisite>)
    ensures
        prerequisite_map(list) == keyed(prerequisite_pairs(list)),
    decreases list.len(),
{
    if list.len() > 0 {
        lemma_prerequisite_map(list.drop_last());
        assert(prerequisite_pairs(list).drop_last() =~= prerequisite_pairs(list.drop_last()));
        assert(prerequisite_pairs(list).last() == prerequisite_pairs(list)[list.len() - 1]);
    }
}

/// A comparison of products that are not identical tells of everything that differs in
/// the prerequisites.
pub proof fn law_comparisons_tell_of_prerequisites(left: Manifest, right: Manifest)
    requires
        !identical(left, right),
    ensures
        tells_differences(
            comparison(left, right),
            "Prerequisites"@,
            prerequisite_pairs(left.prerequisites@),
            prerequisite_pairs(right.prerequisites@),
        ),
{
    let title = "Prerequisites"@;
    let a = prerequisite_pairs(left.prerequisites@);
    let b = prerequisite_pairs(right.prerequisites@);
    lemma_prerequisite_map(left.prerequisites@);
    lemma_prerequisite_map(right.prerequisites@);
    lemma_section(title, a, b);
    let head = "Product comparison\n  left: "@ + left.build_id@ + "\n  right: "@ + right.build_id@
        + "\n"@;
    let s0 = compared("Prerequisites"@, prerequisite_map(left.prerequisites@), prerequisite_map(right.prerequisites@));
    let t0 = compared("Providers"@, provider_map(left.providers@), provider_map(right.providers@)) + compared("Requirements"@, requirement_map(left.requirements@), requirement_map(right.requirements@));
    lemma_tells_within(t0, s0, Seq::empty(), title, a, b);
    let u0 = t0 + s0;
    lemma_tells_within(Seq::empty(), u0, compared("Preparations"@, preparation_map(left.preparations@), preparation_map(right.preparations@)), title, a, b);
    let u1 = u0 + compared("Preparations"@, preparation_map(left.preparations@), preparation_map(right.preparations@));
    assert(u1 == actions_compared(left, right));
    lemma_tells_within(head + evaluation_compared(left, right), u1, Seq::empty(), title, a, b);
    lemma_tells_within(
        Seq::empty(),
        head + evaluation_compared(left, right) + u1,
        artifacts_compared(left, right),
        title,
        a,
        b,
    );
}

/// The keys and serialised values of the preparations.
pub open spec fn preparation_pairs(list: Seq<ProviderPreparation>) -> Seq<(Seq<char>, JsonTree)> {
    list.map_values(|v: ProviderPreparation| (v.provider@ + ":"@ + v.identity@, key_sorted(v.tree())))
}

proof fn lemma_preparation_map(list: Seq<ProviderPreparation>)
    ensures
        preparation_map(list) == keyed(preparation_pairs(list)),
    decreases list.len(),
{
    if list.len() > 0 {
        lemma_preparation_map(list.drop_last());
        assert(preparation_pairs(list).drop_last() =~= preparation_pairs(list.drop_last()));
        assert(preparation_pairs(list).last() == preparation_pairs(list)[list.len() - 1]);
    }
}

/// A comparison of products that are not identical tells of everything that differs in
/// the preparations.
pub proof fn law_comparisons_tell_of_preparations(left: Manifest, right: Manifest)
    requires
        !identical(left, right),
    ensures
        tells_differences(
            comparison(left, right),
            "Preparations"@,
            preparation_pairs(left.preparations@),
            preparation_pairs(right.preparations@),
        ),
{
    let title = "Preparations"@;
    let a = preparation_pairs(left.preparations@);
    let b = preparation_pairs(right.preparations@);
    lemma_preparation_map(left.preparations@);
    lemma_preparation_map(right.preparations@);
    lemma_section(title, a, b);
    let head = "Product comparison\n  left: "@ + left.build_id@ + "\n  right: "@ + right.build_id@
        + "\n"@;
    let s0 = compared("Preparations"@, preparation_map(left.preparations@), preparation_map(right.preparations@));
    let t0 = compared("Providers"@, provider_map(left.providers@), provider_map(right.providers@)) + compared("Requirements"@, requirement_map(left.requirements@), requirement_map(right.requirements@)) + compared("Prerequisites"@, prerequisite_map(left.prerequisites@), prerequisite_map(right.prerequisites@));
    lemma_tells_within(t0, s0, Seq::empty(), title, a, b);
    let u0 = t0 + s0;
    assert(u0 == actions_compared(left, right));
    lemma_tells_within(head + evaluation_compared(left, right), u0, Seq::empty(), title, a, b);
    lemma_tells_within(
        Seq::empty(),
        head + evaluation_compared(left, right) + u0,
        artifacts_compared(left, right),
        title,
        a,
        b,
    );
}

/// The keys and serialised values of the selections of artifacts.
pub open spec fn selection_pairs(list: Seq<ArtifactSelection>) -> Seq<(Seq<char>, JsonTree)> {
    list.map_values(|v: ArtifactSelection| (v.owner@ + ":"@ + v.declared@ + "@"@ + v.declared_at.text(), key_sorted(v.tree())))
}

proof fn lemma_selection_map(list: Seq<ArtifactSelection>)
    ensures
        selection_map(list) == keyed(selection_pairs(list)),
    decreases list.len(),
{
    if list.len() > 0 {
        lemma_selection_map(list.drop_last());
        assert(selection_pairs(list).drop_last() =~= selection_pairs(list.drop_last()));
        assert(selection_pairs(list).last() == selection_pairs(list)[list.len() - 1]);
    }
}

/// A comparison of products that are not identical tells of everything that differs in
/// the selections of artifacts.
pub proof fn law_comparisons_tell_of_selections(left: Manifest, right: Manifest)
    requires
        !identical(left, right),
    ensures
        tells_differences(
            comparison(left, right),
            "Artifact selections"@,
            selection_pairs(left.artifact_selections@),
            selection_pairs(right.artifact_selections@),
        ),
{
    let title = "Artifact selections"@;
    let a = selection_pairs(left.artifact_selections@);
    let b = selection_pairs(right.artifact_selections@);
    lemma_selection_map(left.artifact_selections@);
    lemma_selection_map(right.artifact_selections@);
    lemma_section(title, a, b);
    let head = "Product comparison\n  left: "@ + left.build_id@ + "\n  right: "@ + right.build_id@
        + "\n"@;
    let s0 = compared("Artifact selections"@, selection_map(left.artifact_selections@), selection_map(right.artifact_selections@));
    let u0 = s0;
    lemma_tells_within(Seq::empty(), u0, policy_compared(left.artifact_policy, right.artifact_policy), title, a, b);
    let u1 = u0 + policy_compared(left.artifact_policy, right.artifact_policy);
    lemma_tells_within(Seq::empty(), u1, compared("Artifact notices"@, notice_map(left.artifact_notices@), notice_map(right.artifact_notices@)), title, a, b);
    let u2 = u1 + compared("Artifact notices"@, notice_map(left.artifact_notices@), notice_map(right.artifact_notices@));
    lemma_tells_within(Seq::empty(), u2, compared("Artifacts"@, artifact_map(left.artifacts@), artifact_map(right.artifacts@)), title, a, b);
    let u3 = u2 + compared("Artifacts"@, artifact_map(left.artifacts@), artifact_map(right.artifacts@));
    assert(u3 == artifacts_compared(left, right));
    lemma_tells_within(
        head + evaluation_compared(left, right) + actions_compared(left, right),
        u3,
        Seq::empty(),
        title,
        a,
        b,
    );
}

/// The keys and serialised values of the notices on artifacts.
pub open spec fn notice_pairs(list: Seq<ArtifactNotice>) -> Seq<(Seq<char>, JsonTree)> {
    list.map_values(|v: ArtifactNotice| (v.owner@ + ":"@ + v.selector@ + "@"@ + v.declared_at.text(), key_sorted(v.tree())))
}

proof fn lemma_notice_map(list: Seq<ArtifactNotice>)
    ensures
        notice_map(list) == keyed(notice_pairs(list)),
    decreases list.len(),
{
    if list.len() > 0 {
        lemma_notice_map(list.drop_last());
        assert(notice_pairs(list).drop_last() =~= notice_pairs(list.drop_last()));
        assert(notice_pairs(list).last() == notice_pairs(list)[list.len() - 1]);
    }
}

/// A comparison of products that are not identical tells of everything that differs in
/// the notices on artifacts.
pub proof fn law_comparisons_tell_of_notices(left: Manifest, right: Manifest)
    requires
        !identical(left, right),
    ensures
        tells_differences(
            comparison(left, right),
            "Artifact notices"@,
            notice_pairs(left.artifact_notices@),
            notice_pairs(right.artifact_notices@),
        ),
{
    let title = "Artifact notices"@;
    let a = notice_pairs(left.artifact_notices@);
    let b = notice_pairs(right.artifact_notices@);
    lemma_notice_map(left.artifact_notices@);
    lemma_notice_map(right.artifact_notices@);
    lemma_section(title, a, b);
    let head = "Product comparison\n  left: "@ + left.build_id@ + "\n  right: "@ + right.build_id@
        + "\n"@;
    let s0 = compared("Artifact notices"@, notice_map(left.artifact_notices@), notice_map(right.artifact_notices@));
    let t0 = compared("Artifact selections"@, selection_map(left.artifact_selections@), selection_map(right.artifact_selections@)) + policy_compared(left.artifact_policy, right.artifact_policy);
    lemma_tells_within(t0, s0, Seq::empty(), title, a, b);
    let u0 = t0 + s0;
    lemma_tells_within(Seq::empty(), u0, compared("Artifacts"@, artifact_map(left.artifacts@), artifact_map(right.artifacts@)), title, a, b);
    let u1 = u0 + compared("Artifacts"@, artifact_map(left.artifacts@), artifact_map(right.artifacts@));
    assert(u1 == artifacts_compared(left, right));
    lemma_tells_within(
        head + evaluation_compared(left, right) + actions_compared(left, right),
        u1,
        Seq::empty(),
        title,
        a,
        b,
    );
}

/// The keys and serialised values of the artifacts.
pub open spec fn artifact_pairs(list: Seq<Artifact>) -> Seq<(Seq<char>, JsonTree)> {
    list.map_values(|v: Artifact| (v.target.path@, key_sorted(v.tree())))
}

proof fn lemma_artifact_map(list: Seq<Artifact>)
    ensures
        artifact_map(list) == keyed(artifact_pairs(list)),
    decreases list.len(),
{
    if list.len() > 0 {
        lemma_artifact_map(list.drop_last());
        assert(artifact_pairs(list).drop_last() =~= artifact_pairs(list.drop_last()));
        assert(artifact_pairs(list).last() == artifact_pairs(list)[list.len() - 1]);
    }
}

/// A comparison of products that are not identical tells of everything that differs in
/// the artifacts.
pub proof fn law_comparisons_tell_of_artifacts(left: Manifest, right: Manifest)
    requires
        !identical(left, right),
    ensures
        tells_differences(
            comparison(left, right),
            "Artifacts"@,
            artifact_pairs(left.artifacts@),
            artifact_pairs(right.artifacts@),
        ),
{
    let title = "Artifacts"@;
    let a = artifact_pairs(left.artifacts@);
    let b = artifact_pairs(right.artifacts@);
    lemma_artifact_map(left.artifacts@);
    lemma_artifact_map(right.artifacts@);
    lemma_section(title, a, b);
    let head = "Product comparison\n  left: "@ + left.build_id@ + "\n  right: "@ + right.build_id@
        + "\n"@;
    let s0 = compared("Artifacts"@, artifact_map(left.artifacts@), artifact_map(right.artifacts@));
    let t0 = compared("Artifact selections"@, selection_map(left.artifact_selections@), selection_map(right.artifact_selections@)) + policy_compared(left.artifact_policy, right.artifact_policy) + compared("Artifact notices"@, notice_map(left.artifact_notices@), notice_map(right.artifact_notices@));
    lemma_tells_within(t0, s0, Seq::empty(), title, a, b);
    let u0 = t0 + s0;
    assert(u0 == artifacts_compared(left, right));
    lemma_tells_within(
        head + evaluation_compared(left, right) + actions_compared(left, right),
        u0,
        Seq::empty(),
        title,
        a,
        b,
    );
}

/// Whether two products hold the same in everything.
pub open spec fn same_products(left: Manifest, right: Manifest) -> bool {
    &&& left.format_version == right.format_version
    &&& left.wombat_version@ == right.wombat_version@
    &&& left.build_id@ == right.build_id@
    &&& left.plan_id@ == right.plan_id@
    &&& left.execution_mode == right.execution_mode
    &&& views(left.skipped_requirement_gates@) == views(right.skipped_requirement_gates@)
    &&& left.project_identity@ == right.project_identity@
    &&& left.ladder.name@ == right.ladder.name@
    &&& left.ladder.flattened@.len() == right.ladder.flattened@.len()
    &&& forall|i: int|
        0 <= i < left.ladder.flattened@.len() ==> (#[trigger] left.ladder.flattened@[i]).id.name@
            == right.ladder.flattened@[i].id.name@ && left.ladder.flattened@[i].depth
            == right.ladder.flattened@[i].depth && left.ladder.flattened@[i].core
            == right.ladder.flattened@[i].core
    &&& left.artifact_policy.unallocated == right.artifact_policy.unallocated
    &&& equal(left.target.tree(), right.target.tree())
    &&& left.sources@.len() == right.sources@.len()
    &&& forall|i: int|
        0 <= i < left.sources@.len() ==> equal(
            (#[trigger] left.sources@[i]).tree(),
            right.sources@[i].tree(),
        )
    &&& left.inputs@.len() == right.inputs@.len()
    &&& forall|i: int|
        0 <= i < left.inputs@.len() ==> equal(
            (#[trigger] left.inputs@[i]).tree(),
            right.inputs@[i].tree(),
        )
    &&& left.observations@.len() == right.observations@.len()
    &&& forall|i: int|
        0 <= i < left.observations@.len() ==> equal(
            (#[trigger] left.observations@[i]).tree(),
            right.observations@[i].tree(),
        )
    &&& left.process_observations@.len() == right.process_observations@.len()
    &&& forall|i: int|
        0 <= i < left.process_observations@.len() ==> equal(
            (#[trigger] left.process_observations@[i]).tree(),
            right.process_observations@[i].tree(),
        )
    &&& left.modules@.len() == right.modules@.len()
    &&& forall|i: int|
        0 <= i < left.modules@.len() ==> equal(
            (#[trigger] left.modules@[i]).tree(),
            right.modules@[i].tree(),
        )
    &&& left.dependencies@.len() == right.dependencies@.len()
    &&& forall|i: int|
        0 <= i < left.dependencies@.len() ==> equal(
            (#[trigger] left.dependencies@[i]).tree(),
            right.dependencies@[i].tree(),
        )
    &&& left.template_helpers@.len() == right.template_helpers@.len()
    &&& forall|i: int|
        0 <= i < left.template_helpers@.len() ==> equal(
            (#[trigger] left.template_helpers@[i]).tree(),
            right.template_helpers@[i].tree(),
        )
    &&& left.providers@.len() == right.providers@.len()
    &&& forall|i: int|
        0 <= i < left.providers@.len() ==> equal(
            (#[trigger] left.providers@[i]).tree(),
            right.providers@[i].tree(),
        )
    &&& left.requirements@.len() == right.requirements@.len()
    &&& forall|i: int|
        0 <= i < left.requirements@.len() ==> equal(
            (#[trigger] left.requirements@[i]).tree(),
            right.requirements@[i].tree(),
        )
    &&& left.prerequisites@.len() == right.prerequisites@.len()
    &&& forall|i: int|
        0 <= i < left.prerequisites@.len() ==> equal(
            (#[trigger] left.prerequisites@[i]).tree(),
            right.prerequisites@[i].tree(),
        )
    &&& left.preparations@.len() == right.preparations@.len()
    &&& forall|i: int|
        0 <= i < left.preparations@.len() ==> equal(
            (#[trigger] left.preparations@[i]).tree(),
            right.preparations@[i].tree(),
        )
    &&& left.tasks@.len() == right.tasks@.len()
    &&& forall|i: int|
        0 <= i < left.tasks@.len() ==> equal(
            (#[trigger] left.tasks@[i]).tree(),
            right.tasks@[i].tree(),
        )
    &&& left.scripts@.len() == right.scripts@.len()
    &&& forall|i: int|
        0 <= i < left.scripts@.len() ==> equal(
            (#[trigger] left.scripts@[i]).tree(),
            right.scripts@[i].tree(),
        )
    &&& left.artifact_notices@.len() == right.artifact_notices@.len()
    &&& forall|i: int|
        0 <= i < left.artifact_notices@.len() ==> equal(
            (#[trigger] left.artifact_notices@[i]).tree(),
            right.artifact_notices@[i].tree(),
        )
    &&& left.artifact_selections@.len() == right.artifact_selections@.len()
    &&& forall|i: int|
        0 <= i < left.artifact_selections@.len() ==> equal(
            (#[trigger] left.artifact_selections@[i]).tree(),
            right.artifact_selections@[i].tree(),
        )
    &&& left.artifacts@.len() == right.artifacts@.len()
    &&& forall|i: int|
        0 <= i < left.artifacts@.len() ==> equal(
            (#[trigger] left.artifacts@[i]).tree(),
            right.artifacts@[i].tree(),
        )
}

/// Products are called identical only where they hold the same in everything.
pub proof fn law_identical_products_hold_the_same(left: Manifest, right: Manifest)
    requires
        "Products are identical: "@.is_prefix_of(comparison(left, right)),
    ensures
        same_products(left, right),
{
    reveal_strlit("Products are identical: ");
    reveal_strlit("Product comparison\n  left: ");
    let text = comparison(left, right);
    assert(text.subrange(0, "Products are identical: "@.len() as int)[7] == 's');
    if !identical(left, right) {
        lemma_header(left, right);
        assert(text.subrange(0, "Product comparison\n  left: "@.len() as int)[7] == ' ');
    } else {
        lemma_identical(left, right);
    }
}

/// A comparison of products that are not identical begins with both of their identities.
pub proof fn law_comparisons_name_both_products(left: Manifest, right: Manifest)
    requires
        !identical(left, right),
    ensures
        ("Product comparison\n  left: "@ + left.build_id@ + "\n  right: "@ + right.build_id@
            + "\n"@).is_prefix_of(comparison(left, right)),
{
    lemma_header(left, right);
}

/// What differs in the target or in the rule for artifacts without one is told of.
pub proof fn law_comparisons_tell_of_target_and_policy(left: Manifest, right: Manifest)
    requires
        !identical(left, right),
    ensures
        !equal(left.target.tree(), right.target.tree()) ==> holds_text(
            comparison(left, right),
            "Target\n  - "@ + compact(left.target.tree()) + "\n  + "@ + compact(
                right.target.tree(),
            ) + "\n"@,
        ),
        left.artifact_policy.unallocated != right.artifact_policy.unallocated ==> holds_text(
            comparison(left, right),
            "Artifact policy\n  - "@ + compact(left.artifact_policy.tree()) + "\n  + "@ + compact(
                right.artifact_policy.tree(),
            ) + "\n"@,
        ),
{
    let head = "Product comparison\n  left: "@ + left.build_id@ + "\n  right: "@ + right.build_id@
        + "\n"@;
    let none = Seq::<char>::empty();
    let text = comparison(left, right);
    if !equal(left.target.tree(), right.target.tree()) {
        let part = target_compared(left.target, right.target);
        lemma_holds_itself(part);
        let front = compared("Sources"@, source_map(left.sources@), source_map(right.sources@))
            + compared("Inputs"@, input_map(left.inputs@), input_map(right.inputs@));
        lemma_holds_within(front, part, none, part);
        let u0 = front + part;
        let a1 = compared(
            "Observations"@,
            observation_map(left.observations@),
            observation_map(right.observations@),
        );
        lemma_holds_within(none, u0, a1, part);
        let u1 = u0 + a1;
        let a2 = compared("Modules"@, module_map(left.modules@), module_map(right.modules@));
        lemma_holds_within(none, u1, a2, part);
        let u2 = u1 + a2;
        let a3 = compared(
            "Dependencies"@,
            dependency_map(left.dependencies@),
            dependency_map(right.dependencies@),
        );
        lemma_holds_within(none, u2, a3, part);
        let u3 = u2 + a3;
        let a4 = compared(
            "Template helpers"@,
            helper_map(left.template_helpers@),
            helper_map(right.template_helpers@),
        );
        lemma_holds_within(none, u3, a4, part);
        let u4 = u3 + a4;
        assert(u4 == evaluation_compared(left, right));
        lemma_holds_within(head, u4, none, part);
        lemma_holds_within(none, head + u4, actions_compared(left, right), part);
        lemma_holds_within(
            none,
            head + u4 + actions_compared(left, right),
            artifacts_compared(left, right),
            part,
        );
    }
    if left.artifact_policy.unallocated != right.artifact_policy.unallocated {
        let part = policy_compared(left.artifact_policy, right.artifact_policy);
        lemma_holds_itself(part);
        let front = compared(
            "Artifact selections"@,
            selection_map(left.artifact_selections@),
            selection_map(right.artifact_selections@),
        );
        lemma_holds_within(front, part, none, part);
        let u0 = front + part;
        let a1 = compared(
            "Artifact notices"@,
            notice_map(left.artifact_notices@),
            notice_map(right.artifact_notices@),
        );
        lemma_holds_within(none, u0, a1, part);
        let u1 = u0 + a1;
        let a2 = compared(
            "Artifacts"@,
            artifact_map(left.artifacts@),
            artifact_map(right.artifacts@),
        );
        lemma_holds_within(none, u1, a2, part);
        let u2 = u1 + a2;
        assert(u2 == artifacts_compared(left, right));
        lemma_holds_within(
            head + evaluation_compared(left, right) + actions_compared(left, right),
            u2,
            none,
            part,
        );
    }
}

proof fn lemma_header(left: Manifest, right: Manifest)
    requires
        !identical(left, right),
    ensures
        ("Product comparison\n  left: "@ + left.build_id@ + "\n  right: "@ + right.build_id@
            + "\n"@).is_prefix_of(comparison(left, right)),
        "Product comparison\n  left: "@.is_prefix_of(comparison(left, right)),
{
    let one = "Product comparison\n  left: "@;
    let head = one + left.build_id@ + "\n  right: "@ + right.build_id@ + "\n"@;
    let text = comparison(left, right);
    lemma_front(
        head,
        evaluation_compared(left, right),
        actions_compared(left, right),
        artifacts_compared(left, right),
        Seq::empty(),
    );
    lemma_front(one, left.build_id@, "\n  right: "@, right.build_id@, "\n"@);
    assert(text + Seq::<char>::empty() =~= text);
    lemma_prefix(one, head, text);
}

/// What parts are put together from begins with the first of them.
proof fn lemma_front(a: Seq<char>, b: Seq<char>, c: Seq<char>, d: Seq<char>, e: Seq<char>)
    ensures
        a.is_prefix_of(a + b + c + d + e),
{
    assert((a + b + c + d + e).subrange(0, a.len() as int) =~= a);
}

/// What begins a beginning begins the whole.
proof fn lemma_prefix(a: Seq<char>, b: Seq<char>, c: Seq<char>)
    requires
        a.is_prefix_of(b),
        b.is_prefix_of(c),
    ensures
        a.is_prefix_of(c),
{
    assert forall|i: int| 0 <= i < a.len() implies c[i] == a[i] by {
        assert(b.subrange(0, a.len() as int)[i] == a[i]);
        assert(c.subrange(0, b.len() as int)[i] == b[i]);
    }
    assert(c.subrange(0, a.len() as int) =~= a);
}

proof fn lemma_alike(a: Seq<JsonTree>, b: Seq<JsonTree>)
    requires
        equal(JsonTree::Array(a), JsonTree::Array(b)),
    ensures
        a.len() == b.len(),
        forall|i: int| 0 <= i < a.len() ==> equal(#[trigger] a[i], b[i]),
{
    lemma_equal_items(a, b);
}

#[verifier::rlimit(60)]
proof fn lemma_identical(left: Manifest, right: Manifest)
    requires
        identical(left, right),
    ensures
        same_products(left, right),
{
    lemma_identical_origin(left, right);
    lemma_alike(source_file_trees(left.sources@), source_file_trees(right.sources@));
    lemma_source_file_forms(left.sources@);
    lemma_source_file_forms(right.sources@);
    assert forall|i: int| 0 <= i < left.sources@.len() implies equal(
        (#[trigger] left.sources@[i]).tree(),
        right.sources@[i].tree(),
    ) by {
        assert(equal(source_file_trees(left.sources@)[i], source_file_trees(right.sources@)[i]));
    }
    lemma_alike(build_input_trees(left.inputs@), build_input_trees(right.inputs@));
    lemma_build_input_forms(left.inputs@);
    lemma_build_input_forms(right.inputs@);
    assert forall|i: int| 0 <= i < left.inputs@.len() implies equal(
        (#[trigger] left.inputs@[i]).tree(),
        right.inputs@[i].tree(),
    ) by {
        assert(equal(build_input_trees(left.inputs@)[i], build_input_trees(right.inputs@)[i]));
    }
    lemma_alike(observation_trees(left.observations@), observation_trees(right.observations@));
    lemma_observation_forms(left.observations@);
    lemma_observation_forms(right.observations@);
    assert forall|i: int| 0 <= i < left.observations@.len() implies equal(
        (#[trigger] left.observations@[i]).tree(),
        right.observations@[i].tree(),
    ) by {
        assert(equal(observation_trees(left.observations@)[i], observation_trees(right.observations@)[i]));
    }
    lemma_alike(process_observation_trees(left.process_observations@), process_observation_trees(right.process_observations@));
    lemma_process_observation_forms(left.process_observations@);
    lemma_process_observation_forms(right.process_observations@);
    assert forall|i: int| 0 <= i < left.process_observations@.len() implies equal(
        (#[trigger] left.process_observations@[i]).tree(),
        right.process_observations@[i].tree(),
    ) by {
        assert(equal(process_observation_trees(left.process_observations@)[i], process_observation_trees(right.process_observations@)[i]));
    }
    lemma_alike(manifest_module_trees(left.modules@), manifest_module_trees(right.modules@));
    lemma_manifest_module_forms(left.modules@);
    lemma_manifest_module_forms(right.modules@);
    assert forall|i: int| 0 <= i < left.modules@.len() implies equal(
        (#[trigger] left.modules@[i]).tree(),
        right.modules@[i].tree(),
    ) by {
        assert(equal(manifest_module_trees(left.modules@)[i], manifest_module_trees(right.modules@)[i]));
    }
    lemma_alike(dependency_trees(left.dependencies@), dependency_trees(right.dependencies@));
    lemma_dependency_forms(left.dependencies@);
    lemma_dependency_forms(right.dependencies@);
    assert forall|i: int| 0 <= i < left.dependencies@.len() implies equal(
        (#[trigger] left.dependencies@[i]).tree(),
        right.dependencies@[i].tree(),
    ) by {
        assert(equal(dependency_trees(left.dependencies@)[i], dependency_trees(right.dependencies@)[i]));
    }
    lemma_alike(template_helper_pack_trees(left.template_helpers@), template_helper_pack_trees(right.template_helpers@));
    lemma_template_helper_pack_forms(left.template_helpers@);
    lemma_template_helper_pack_forms(right.template_helpers@);
    assert forall|i: int| 0 <= i < left.template_helpers@.len() implies equal(
        (#[trigger] left.template_helpers@[i]).tree(),
        right.template_helpers@[i].tree(),
    ) by {
        assert(equal(template_helper_pack_trees(left.template_helpers@)[i], template_helper_pack_trees(right.template_helpers@)[i]));
    }
    lemma_alike(provider_trees(left.providers@), provider_trees(right.providers@));
    lemma_provider_forms(left.providers@);
    lemma_provider_forms(right.providers@);
    assert forall|i: int| 0 <= i < left.providers@.len() implies equal(
        (#[trigger] left.providers@[i]).tree(),
        right.providers@[i].tree(),
    ) by {
        assert(equal(provider_trees(left.providers@)[i], provider_trees(right.providers@)[i]));
    }
    lemma_alike(requirement_trees(left.requirements@), requirement_trees(right.requirements@));
    lemma_requirement_forms(left.requirements@);
    lemma_requirement_forms(right.requirements@);
    assert forall|i: int| 0 <= i < left.requirements@.len() implies equal(
        (#[trigger] left.requirements@[i]).tree(),
        right.requirements@[i].tree(),
    ) by {
        assert(equal(requirement_trees(left.requirements@)[i], requirement_trees(right.requirements@)[i]));
    }
    lemma_alike(provider_prerequisite_trees(left.prerequisites@), provider_prerequisite_trees(right.prerequisites@));
    lemma_provider_prerequisite_forms(left.prerequisites@);
    lemma_provider_prerequisite_forms(right.prerequisites@);
    assert forall|i: int| 0 <= i < left.prerequisites@.len() implies equal(
        (#[trigger] left.prerequisites@[i]).tree(),
        right.prerequisites@[i].tree(),
    ) by {
        assert(equal(provider_prerequisite_trees(left.prerequisites@)[i], provider_prerequisite_trees(right.prerequisites@)[i]));
    }
    lemma_alike(provider_preparation_trees(left.preparations@), provider_preparation_trees(right.preparations@));
    lemma_provider_preparation_forms(left.preparations@);
    lemma_provider_preparation_forms(right.preparations@);
    assert forall|i: int| 0 <= i < left.preparations@.len() implies equal(
        (#[trigger] left.preparations@[i]).tree(),
        right.preparations@[i].tree(),
    ) by {
        assert(equal(provider_preparation_trees(left.preparations@)[i], provider_preparation_trees(right.preparations@)[i]));
    }
    lemma_alike(task_trees(left.tasks@), task_trees(right.tasks@));
    lemma_task_forms(left.tasks@);
    lemma_task_forms(right.tasks@);
    assert forall|i: int| 0 <= i < left.tasks@.len() implies equal(
        (#[trigger] left.tasks@[i]).tree(),
        right.tasks@[i].tree(),
    ) by {
        assert(equal(task_trees(left.tasks@)[i], task_trees(right.tasks@)[i]));
    }
    lemma_alike(script_trees(left.scripts@), script_trees(right.scripts@));
    lemma_script_forms(left.scripts@);
    lemma_script_forms(right.scripts@);
    assert forall|i: int| 0 <= i < left.scripts@.len() implies equal(
        (#[trigger] left.scripts@[i]).tree(),
        right.scripts@[i].tree(),
    ) by {
        assert(equal(script_trees(left.scripts@)[i], script_trees(right.scripts@)[i]));
    }
    lemma_alike(artifact_notice_trees(left.artifact_notices@), artifact_notice_trees(right.artifact_notices@));
    lemma_artifact_notice_forms(left.artifact_notices@);
    lemma_artifact_notice_forms(right.artifact_notices@);
    assert forall|i: int| 0 <= i < left.artifact_notices@.len() implies equal(
        (#[trigger] left.artifact_notices@[i]).tree(),
        right.artifact_notices@[i].tree(),
    ) by {
        assert(equal(artifact_notice_trees(left.artifact_notices@)[i], artifact_notice_trees(right.artifact_notices@)[i]));
    }
    lemma_alike(artifact_selection_trees(left.artifact_selections@), artifact_selection_trees(right.artifact_selections@));
    lemma_artifact_selection_forms(left.artifact_selections@);
    lemma_artifact_selection_forms(right.artifact_selections@);
    assert forall|i: int| 0 <= i < left.artifact_selections@.len() implies equal(
        (#[trigger] left.artifact_selections@[i]).tree(),
        right.artifact_selections@[i].tree(),
    ) by {
        assert(equal(artifact_selection_trees(left.artifact_selections@)[i], artifact_selection_trees(right.artifact_selections@)[i]));
    }
    lemma_alike(artifact_trees(left.artifacts@), artifact_trees(right.artifacts@));
    lemma_artifact_forms(left.artifacts@);
    lemma_artifact_forms(right.artifacts@);
    assert forall|i: int| 0 <= i < left.artifacts@.len() implies equal(
        (#[trigger] left.artifacts@[i]).tree(),
        right.artifacts@[i].tree(),
    ) by {
        assert(equal(artifact_trees(left.artifacts@)[i], artifact_trees(right.artifacts@)[i]));
    }
}

proof fn lemma_identical_origin(left: Manifest, right: Manifest)
    requires
        same_origin(left, right),
    ensures
        forall|i: int|
            0 <= i < left.ladder.flattened@.len() ==> (#[trigger] left.ladder.flattened@[i]).id.name@
                == right.ladder.flattened@[i].id.name@ && left.ladder.flattened@[i].depth
                == right.ladder.flattened@[i].depth && left.ladder.flattened@[i].core
                == right.ladder.flattened@[i].core,
{
    assert forall|i: int|
        0 <= i < left.ladder.flattened@.len() implies (#[trigger] left.ladder.flattened@[i]).id.name@
        == right.ladder.flattened@[i].id.name@ && left.ladder.flattened@[i].depth
        == right.ladder.flattened@[i].depth && left.ladder.flattened@[i].core
        == right.ladder.flattened@[i].core by {
        assert(same_rung(left.ladder.flattened@[i], right.ladder.flattened@[i]));
    }
}

proof fn lemma_source_file_forms(list: Seq<SourceFile>)
    ensures
        source_file_trees(list).len() == list.len(),
        forall|i: int| 0 <= i < list.len() ==> #[trigger] source_file_trees(list)[i] == list[i].tree(),
{
}

proof fn lemma_build_input_forms(list: Seq<BuildInput>)
    ensures
        build_input_trees(list).len() == list.len(),
        forall|i: int| 0 <= i < list.len() ==> #[trigger] build_input_trees(list)[i] == list[i].tree(),
{
}

proof fn lemma_observation_forms(list: Seq<Observation>)
    ensures
        observation_trees(list).len() == list.len(),
        forall|i: int| 0 <= i < list.len() ==> #[trigger] observation_trees(list)[i] == list[i].tree(),
{
}

proof fn lemma_process_observation_forms(list: Seq<ProcessObservation>)
    ensures
        process_observation_trees(list).len() == list.len(),
        forall|i: int| 0 <= i < list.len() ==> #[trigger] process_observation_trees(list)[i] == list[i].tree(),
{
}

proof fn lemma_manifest_module_forms(list: Seq<ManifestModule>)
    ensures
        manifest_module_trees(list).len() == list.len(),
        forall|i: int| 0 <= i < list.len() ==> #[trigger] manifest_module_trees(list)[i] == list[i].tree(),
{
}

proof fn lemma_dependency_forms(list: Seq<Dependency>)
    ensures
        dependency_trees(list).len() == list.len(),
        forall|i: int| 0 <= i < list.len() ==> #[trigger] dependency_trees(list)[i] == list[i].tree(),
{
}

proof fn lemma_template_helper_pack_forms(list: Seq<TemplateHelperPack>)
    ensures
        template_helper_pack_trees(list).len() == list.len(),
        forall|i: int| 0 <= i < list.len() ==> #[trigger] template_helper_pack_trees(list)[i] == list[i].tree(),
{
}

proof fn lemma_provider_forms(list: Seq<Provider>)
    ensures
        provider_trees(list).len() == list.len(),
        forall|i: int| 0 <= i < list.len() ==> #[trigger] provider_trees(list)[i] == list[i].tree(),
{
}

proof fn lemma_requirement_forms(list: Seq<Requirement>)
    ensures
        requirement_trees(list).len() == list.len(),
        forall|i: int| 0 <= i < list.len() ==> #[trigger] requirement_trees(list)[i] == list[i].tree(),
{
}

proof fn lemma_provider_prerequisite_forms(list: Seq<ProviderPrerequisite>)
    ensures
        provider_prerequisite_trees(list).len() == list.len(),
        forall|i: int| 0 <= i < list.len() ==> #[trigger] provider_prerequisite_trees(list)[i] == list[i].tree(),
{
}

proof fn lemma_provider_preparation_forms(list: Seq<ProviderPreparation>)
    ensures
        provider_preparation_trees(list).len() == list.len(),
        forall|i: int| 0 <= i < list.len() ==> #[trigger] provider_preparation_trees(list)[i] == list[i].tree(),
{
}

proof fn lemma_task_forms(list: Seq<Task>)
    ensures
        task_trees(list).len() == list.len(),
        forall|i: int| 0 <= i < list.len() ==> #[trigger] task_trees(list)[i] == list[i].tree(),
{
}

proof fn lemma_script_forms(list: Seq<Script>)
    ensures
        script_trees(list).len() == list.len(),
        forall|i: int| 0 <= i < list.len() ==> #[trigger] script_trees(list)[i] == list[i].tree(),
{
}

proof fn lemma_artifact_notice_forms(list: Seq<ArtifactNotice>)
    ensures
        artifact_notice_trees(list).len() == list.len(),
        forall|i: int| 0 <= i < list.len() ==> #[trigger] artifact_notice_trees(list)[i] == list[i].tree(),
{
}

proof fn lemma_artifact_selection_forms(list: Seq<ArtifactSelection>)
    ensures
        artifact_selection_trees(list).len() == list.len(),
        forall|i: int| 0 <= i < list.len() ==> #[trigger] artifact_selection_trees(list)[i] == list[i].tree(),
{
}

proof fn lemma_artifact_forms(list: Seq<Artifact>)
    ensures
        artifact_trees(list).len() == list.len(),
        forall|i: int| 0 <= i < list.len() ==> #[trigger] artifact_trees(list)[i] == list[i].tree(),
{
}

} // verus!
