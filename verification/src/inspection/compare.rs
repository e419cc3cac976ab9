//! How two products differ.
use serde_json::Value;
use vstd::prelude::*;
use vstd::string::*;

use crate::inspection::items::all_chosen_exist;
use crate::json::{
    compact, compact_text, contents, equal, equal_values, key_sorted, member_contents, sort_keys,
    JsonTree,
};
use crate::model::context::{resolved_target_value, ResolvedTarget};
use crate::model::frozen::with_entry;
use crate::model::ladder::{ExecutionLadder, FlatRung};
use crate::model::manifest::{
    Artifact, ArtifactNotice, ArtifactPolicy, ArtifactSelection, BuildInput, Dependency, Manifest,
    ManifestModule, Observation, Provider, ProviderPreparation, ProviderPrerequisite, Requirement,
    SourceFile, TemplateHelperPack,
};
use crate::model::wire::{
    artifact_notice_value, artifact_notice_values, artifact_policy_value, artifact_selection_value, artifact_selection_values, artifact_trees, artifact_notice_trees, artifact_selection_trees,
    artifact_value, artifact_values, build_input_value, build_input_values, build_input_trees, dependency_value, dependency_values, dependency_trees,
    manifest_module_value, manifest_module_values, manifest_module_trees, observation_value, observation_values, observation_trees,
    process_observation_values, process_observation_trees, provider_preparation_value, provider_preparation_values, provider_preparation_trees, provider_prerequisite_value, provider_prerequisite_values, provider_prerequisite_trees,
    provider_value, provider_values, provider_trees, requirement_value, requirement_values, requirement_trees, script_values, script_trees, source_file_value, source_file_values, source_file_trees,
    source_trace_value, task_values, task_trees, template_helper_pack_value, template_helper_pack_values, template_helper_pack_trees,
};
use crate::order::{before, precedes};
use crate::text::{cat2, cat3, cat4, cat5, cat7, same, views};

verus! {

/// Puts a value under its key, in the order of the keys.
fn insert_keyed(list: &mut Vec<(String, Value)>, key: String, value: Value)
    ensures
        member_contents(final(list)@) == with_entry(
            member_contents(old(list)@),
            key@,
            contents(value),
        ),
{
    let ghost all = member_contents(list@);
    let ghost tree = contents(value);
    let ghost name = key@;
    let mut at: usize = list.len();
    while at > 0 && before(key.as_str(), list[at - 1].0.as_str())
        invariant
            0 <= at <= list@.len(),
            list@ == old(list)@,
            all == member_contents(list@),
            forall|j: int| at <= j < list@.len() ==> precedes(key@, (#[trigger] all[j]).0),
        decreases at,
    {
        assert(all[at - 1].0 == list@[at - 1].0@);
        at -= 1;
    }
    proof {
        if at > 0 {
            assert(all[at - 1].0 == list@[at - 1].0@);
        }
        lemma_with_entry(all, name, tree, at as int);
    }
    if at > 0 && same(list[at - 1].0.as_str(), key.as_str()) {
        list.set(at - 1, (key, value));
        assert(member_contents(list@) =~= all.update(at - 1, (name, tree)));
    } else {
        list.insert(at, (key, value));
        assert(member_contents(list@) =~= all.insert(at as int, (name, tree)));
    }
}

proof fn lemma_with_entry(
    entries: Seq<(Seq<char>, JsonTree)>,
    key: Seq<char>,
    value: JsonTree,
    at: int,
)
    requires
        0 <= at <= entries.len(),
        forall|j: int| at <= j < entries.len() ==> precedes(key, (#[trigger] entries[j]).0),
        at > 0 ==> !precedes(key, entries[at - 1].0),
    ensures
        with_entry(entries, key, value) == if at > 0 && entries[at - 1].0 == key {
            entries.update(at - 1, (key, value))
        } else {
            entries.insert(at, (key, value))
        },
    decreases entries.len(),
{
    if at == entries.len() {
        if at == 0 {
            assert(entries.insert(at, (key, value)) =~= seq![(key, value)]);
        } else {
            assert(entries.last() == entries[at - 1]);
            assert(entries.update(at - 1, (key, value)) =~= entries.drop_last().push((key, value)));
            assert(entries.insert(at, (key, value)) =~= entries.push((key, value)));
        }
    } else {
        assert(entries.last() == entries[entries.len() - 1]);
        lemma_with_entry(entries.drop_last(), key, value, at);
        if at > 0 && entries[at - 1].0 == key {
            assert(entries.update(at - 1, (key, value)) =~= entries.drop_last().update(
                at - 1,
                (key, value),
            ).push(entries.last()));
        } else {
            assert(entries.insert(at, (key, value)) =~= entries.drop_last().insert(
                at,
                (key, value),
            ).push(entries.last()));
        }
    }
}

/// What a comparison says of a key.
pub open spec fn removed(entry: (Seq<char>, JsonTree)) -> Seq<char> {
    "  Remove "@ + entry.0 + "\n    - "@ + compact(entry.1) + "\n"@
}

/// What a comparison says of a key that only the right side has.
pub open spec fn added(entry: (Seq<char>, JsonTree)) -> Seq<char> {
    "  Add "@ + entry.0 + "\n    + "@ + compact(entry.1) + "\n"@
}

/// What a comparison says of a key that both sides have.
pub open spec fn changed(key: Seq<char>, left: JsonTree, right: JsonTree) -> Seq<char> {
    if equal(left, right) {
        Seq::empty()
    } else {
        "  Change "@ + key + "\n    - "@ + compact(left) + "\n    + "@ + compact(right) + "\n"@
    }
}

/// How two lists that are ordered by their keys differ, key by key.
pub open spec fn differences(
    left: Seq<(Seq<char>, JsonTree)>,
    right: Seq<(Seq<char>, JsonTree)>,
) -> Seq<char>
    decreases left.len() + right.len(),
{
    if left.len() == 0 && right.len() == 0 {
        Seq::empty()
    } else if right.len() == 0 || (left.len() > 0 && precedes(left[0].0, right[0].0)) {
        removed(left[0]) + differences(left.skip(1), right)
    } else if left.len() == 0 || left[0].0 != right[0].0 {
        added(right[0]) + differences(left, right.skip(1))
    } else {
        changed(left[0].0, left[0].1, right[0].1) + differences(left.skip(1), right.skip(1))
    }
}

/// The differences of a part of two products, under its title where there are any.
pub open spec fn compared(
    title: Seq<char>,
    left: Seq<(Seq<char>, JsonTree)>,
    right: Seq<(Seq<char>, JsonTree)>,
) -> Seq<char> {
    if differences(left, right).len() == 0 {
        Seq::empty()
    } else {
        title + "\n"@ + differences(left, right)
    }
}

/// Writes how two lists that are ordered by their keys differ.
fn compare_map(title: &str, left: &Vec<(String, Value)>, right: &Vec<(String, Value)>) -> (r: String)
    ensures
        r@ == compared(title@, member_contents(left@), member_contents(right@)),
{
    let ghost a = member_contents(left@);
    let ghost b = member_contents(right@);
    let mut r = String::new();
    let mut i: usize = 0;
    let mut j: usize = 0;
    proof {
        assert(a.skip(0) =~= a);
        assert(b.skip(0) =~= b);
        assert(r@ + differences(a, b) =~= differences(a, b));
    }
    while i < left.len() || j < right.len()
        invariant
            0 <= i <= left@.len(),
            0 <= j <= right@.len(),
            a == member_contents(left@),
            b == member_contents(right@),
            r@ + differences(a.skip(i as int), b.skip(j as int)) == differences(a, b),
        decreases left@.len() - i + right@.len() - j,
    {
        let ghost sofar = r@;
        let ghost x = a.skip(i as int);
        let ghost y = b.skip(j as int);
        proof {
            if i < left@.len() {
                assert(x[0] == a[i as int]);
                assert(a[i as int].0 == left@[i as int].0@);
                assert(x.skip(1) =~= a.skip(i + 1));
            }
            if j < right@.len() {
                assert(y[0] == b[j as int]);
                assert(b[j as int].0 == right@[j as int].0@);
                assert(y.skip(1) =~= b.skip(j + 1));
            }
        }
        let removes = j >= right.len() || (i < left.len() && before(
            left[i].0.as_str(),
            right[j].0.as_str(),
        ));
        if removes {
            let text = compact_text(&left[i].1);
            let part = cat5("  Remove ", left[i].0.as_str(), "\n    - ", text.as_str(), "\n");
            r = cat2(r.as_str(), part.as_str());
            assert(sofar + (part@ + differences(x.skip(1), y)) =~= r@ + differences(x.skip(1), y));
            i += 1;
        } else if i >= left.len() || !same(left[i].0.as_str(), right[j].0.as_str()) {
            let text = compact_text(&right[j].1);
            let part = cat5("  Add ", right[j].0.as_str(), "\n    + ", text.as_str(), "\n");
            r = cat2(r.as_str(), part.as_str());
            assert(sofar + (part@ + differences(x, y.skip(1))) =~= r@ + differences(x, y.skip(1)));
            j += 1;
        } else {
            let part = if equal_values(&left[i].1, &right[j].1) {
                String::new()
            } else {
                cat7(
                    "  Change ",
                    left[i].0.as_str(),
                    "\n    - ",
                    compact_text(&left[i].1).as_str(),
                    "\n    + ",
                    compact_text(&right[j].1).as_str(),
                    "\n",
                )
            };
            assert(part@ =~= changed(x[0].0, x[0].1, y[0].1));
            r = cat2(r.as_str(), part.as_str());
            assert(sofar + (part@ + differences(x.skip(1), y.skip(1))) =~= r@ + differences(
                x.skip(1),
                y.skip(1),
            ));
            i += 1;
            j += 1;
        }
    }
    assert(differences(a.skip(i as int), b.skip(j as int)) =~= Seq::empty());
    assert(r@ =~= differences(a, b));
    if r.as_str().is_empty() {
        return r;
    }
    cat3(title, "\n", r.as_str())
}

/// What tells sources apart.
pub open spec fn source_key(v: SourceFile) -> Seq<char> {
    v.path@
}

/// A list by what tells its items apart.
pub open spec fn source_map(list: Seq<SourceFile>) -> Seq<(Seq<char>, JsonTree)>
    decreases list.len(),
{
    if list.len() == 0 {
        Seq::empty()
    } else {
        with_entry(
            source_map(list.drop_last()),
            source_key(list.last()),
            key_sorted(list.last().tree()),
        )
    }
}

fn keyed_source(list: &Vec<SourceFile>) -> (r: Vec<(String, Value)>)
    ensures
        member_contents(r@) == source_map(list@),
{
    let mut r: Vec<(String, Value)> = Vec::new();
    let mut i: usize = 0;
    assert(member_contents(r@) =~= Seq::empty());
    while i < list.len()
        invariant
            0 <= i <= list@.len(),
            member_contents(r@) == source_map(list@.take(i as int)),
        decreases list@.len() - i,
    {
        let v = &list[i];
        assert(list@.take(i + 1).drop_last() =~= list@.take(i as int));
        assert(list@.take(i + 1).last() == list@[i as int]);
        let key = v.path.clone();
        insert_keyed(&mut r, key, sort_keys(source_file_value(v)));
        i += 1;
    }
    assert(list@.take(i as int) =~= list@);
    r
}

/// What tells inputs apart.
pub open spec fn input_key(v: BuildInput) -> Seq<char> {
    v.name@
}

/// A list by what tells its items apart.
pub open spec fn input_map(list: Seq<BuildInput>) -> Seq<(Seq<char>, JsonTree)>
    decreases list.len(),
{
    if list.len() == 0 {
        Seq::empty()
    } else {
        with_entry(
            input_map(list.drop_last()),
            input_key(list.last()),
            key_sorted(list.last().tree()),
        )
    }
}

fn keyed_input(list: &Vec<BuildInput>) -> (r: Vec<(String, Value)>)
    ensures
        member_contents(r@) == input_map(list@),
{
    let mut r: Vec<(String, Value)> = Vec::new();
    let mut i: usize = 0;
    assert(member_contents(r@) =~= Seq::empty());
    while i < list.len()
        invariant
            0 <= i <= list@.len(),
            member_contents(r@) == input_map(list@.take(i as int)),
        decreases list@.len() - i,
    {
        let v = &list[i];
        assert(list@.take(i + 1).drop_last() =~= list@.take(i as int));
        assert(list@.take(i + 1).last() == list@[i as int]);
        let key = v.name.clone();
        insert_keyed(&mut r, key, sort_keys(build_input_value(v)));
        i += 1;
    }
    assert(list@.take(i as int) =~= list@);
    r
}

/// What tells observations apart.
pub open spec fn observation_key(v: Observation) -> Seq<char> {
    v.subject.label() + "."@ + v.path@
}

/// A list by what tells its items apart.
pub open spec fn observation_map(list: Seq<Observation>) -> Seq<(Seq<char>, JsonTree)>
    decreases list.len(),
{
    if list.len() == 0 {
        Seq::empty()
    } else {
        with_entry(
            observation_map(list.drop_last()),
            observation_key(list.last()),
            key_sorted(list.last().tree()),
        )
    }
}

fn keyed_observation(list: &Vec<Observation>) -> (r: Vec<(String, Value)>)
    ensures
        member_contents(r@) == observation_map(list@),
{
    let mut r: Vec<(String, Value)> = Vec::new();
    let mut i: usize = 0;
    assert(member_contents(r@) =~= Seq::empty());
    while i < list.len()
        invariant
            0 <= i <= list@.len(),
            member_contents(r@) == observation_map(list@.take(i as int)),
        decreases list@.len() - i,
    {
        let v = &list[i];
        assert(list@.take(i + 1).drop_last() =~= list@.take(i as int));
        assert(list@.take(i + 1).last() == list@[i as int]);
        let key = cat3(v.subject.label_name(), ".", v.path.as_str());
        insert_keyed(&mut r, key, sort_keys(observation_value(v)));
        i += 1;
    }
    assert(list@.take(i as int) =~= list@);
    r
}

/// What tells modules apart.
pub open spec fn module_key(v: ManifestModule) -> Seq<char> {
    v.name@
}

/// A list by what tells its items apart.
pub open spec fn module_map(list: Seq<ManifestModule>) -> Seq<(Seq<char>, JsonTree)>
    decreases list.len(),
{
    if list.len() == 0 {
        Seq::empty()
    } else {
        with_entry(
            module_map(list.drop_last()),
            module_key(list.last()),
            key_sorted(list.last().tree()),
        )
    }
}

fn keyed_module(list: &Vec<ManifestModule>) -> (r: Vec<(String, Value)>)
    ensures
        member_contents(r@) == module_map(list@),
{
    let mut r: Vec<(String, Value)> = Vec::new();
    let mut i: usize = 0;
    assert(member_contents(r@) =~= Seq::empty());
    while i < list.len()
        invariant
            0 <= i <= list@.len(),
            member_contents(r@) == module_map(list@.take(i as int)),
        decreases list@.len() - i,
    {
        let v = &list[i];
        assert(list@.take(i + 1).drop_last() =~= list@.take(i as int));
        assert(list@.take(i + 1).last() == list@[i as int]);
        let key = v.name.clone();
        insert_keyed(&mut r, key, sort_keys(manifest_module_value(v)));
        i += 1;
    }
    assert(list@.take(i as int) =~= list@);
    r
}

/// What tells dependencies apart.
pub open spec fn dependency_key(v: Dependency) -> Seq<char> {
    v.kind.label() + ":"@ + v.from@ + "->"@ + v.to@ + "@"@ + compact(v.declared_at.tree())
}

/// A list by what tells its items apart.
pub open spec fn dependency_map(list: Seq<Dependency>) -> Seq<(Seq<char>, JsonTree)>
    decreases list.len(),
{
    if list.len() == 0 {
        Seq::empty()
    } else {
        with_entry(
            dependency_map(list.drop_last()),
            dependency_key(list.last()),
            key_sorted(list.last().tree()),
        )
    }
}

fn keyed_dependency(list: &Vec<Dependency>) -> (r: Vec<(String, Value)>)
    ensures
        member_contents(r@) == dependency_map(list@),
{
    let mut r: Vec<(String, Value)> = Vec::new();
    let mut i: usize = 0;
    assert(member_contents(r@) =~= Seq::empty());
    while i < list.len()
        invariant
            0 <= i <= list@.len(),
            member_contents(r@) == dependency_map(list@.take(i as int)),
        decreases list@.len() - i,
    {
        let v = &list[i];
        assert(list@.take(i + 1).drop_last() =~= list@.take(i as int));
        assert(list@.take(i + 1).last() == list@[i as int]);
        let key = cat7(
            v.kind.label_name(),
            ":",
            v.from.as_str(),
            "->",
            v.to.as_str(),
            "@",
            compact_text(&source_trace_value(&v.declared_at)).as_str(),
        );
        insert_keyed(&mut r, key, sort_keys(dependency_value(v)));
        i += 1;
    }
    assert(list@.take(i as int) =~= list@);
    r
}

/// What tells packs of helpers apart.
pub open spec fn helper_key(v: TemplateHelperPack) -> Seq<char> {
    v.module@ + ":"@ + v.prefix@
}

/// A list by what tells its items apart.
pub open spec fn helper_map(list: Seq<TemplateHelperPack>) -> Seq<(Seq<char>, JsonTree)>
    decreases list.len(),
{
    if list.len() == 0 {
        Seq::empty()
    } else {
        with_entry(
            helper_map(list.drop_last()),
            helper_key(list.last()),
            key_sorted(list.last().tree()),
        )
    }
}

fn keyed_helper(list: &Vec<TemplateHelperPack>) -> (r: Vec<(String, Value)>)
    ensures
        member_contents(r@) == helper_map(list@),
{
    let mut r: Vec<(String, Value)> = Vec::new();
    let mut i: usize = 0;
    assert(member_contents(r@) =~= Seq::empty());
    while i < list.len()
        invariant
            0 <= i <= list@.len(),
            member_contents(r@) == helper_map(list@.take(i as int)),
        decreases list@.len() - i,
    {
        let v = &list[i];
        assert(list@.take(i + 1).drop_last() =~= list@.take(i as int));
        assert(list@.take(i + 1).last() == list@[i as int]);
        let key = cat3(v.module.as_str(), ":", v.prefix.as_str());
        insert_keyed(&mut r, key, sort_keys(template_helper_pack_value(v)));
        i += 1;
    }
    assert(list@.take(i as int) =~= list@);
    r
}

/// What tells providers apart.
pub open spec fn provider_key(v: Provider) -> Seq<char> {
    v.name@
}

/// A list by what tells its items apart.
pub open spec fn provider_map(list: Seq<Provider>) -> Seq<(Seq<char>, JsonTree)>
    decreases list.len(),
{
    if list.len() == 0 {
        Seq::empty()
    } else {
        with_entry(
            provider_map(list.drop_last()),
            provider_key(list.last()),
            key_sorted(list.last().tree()),
        )
    }
}

fn keyed_provider(list: &Vec<Provider>) -> (r: Vec<(String, Value)>)
    ensures
        member_contents(r@) == provider_map(list@),
{
    let mut r: Vec<(String, Value)> = Vec::new();
    let mut i: usize = 0;
    assert(member_contents(r@) =~= Seq::empty());
    while i < list.len()
        invariant
            0 <= i <= list@.len(),
            member_contents(r@) == provider_map(list@.take(i as int)),
        decreases list@.len() - i,
    {
        let v = &list[i];
        assert(list@.take(i + 1).drop_last() =~= list@.take(i as int));
        assert(list@.take(i + 1).last() == list@[i as int]);
        let key = v.name.clone();
        insert_keyed(&mut r, key, sort_keys(provider_value(v)));
        i += 1;
    }
    assert(list@.take(i as int) =~= list@);
    r
}

/// What tells requirements apart.
pub open spec fn requirement_key(v: Requirement) -> Seq<char> {
    v.kind.label() + ":"@ + v.candidates@[v.selected as int].product() + "@"@ + v.declared_at.text()
}

/// A list by what tells its items apart.
pub open spec fn requirement_map(list: Seq<Requirement>) -> Seq<(Seq<char>, JsonTree)>
    decreases list.len(),
{
    if list.len() == 0 {
        Seq::empty()
    } else {
        with_entry(
            requirement_map(list.drop_last()),
            requirement_key(list.last()),
            key_sorted(list.last().tree()),
        )
    }
}

fn keyed_requirement(list: &Vec<Requirement>) -> (r: Vec<(String, Value)>)
    requires
        all_chosen_exist(list@),
    ensures
        member_contents(r@) == requirement_map(list@),
{
    let mut r: Vec<(String, Value)> = Vec::new();
    let mut i: usize = 0;
    assert(member_contents(r@) =~= Seq::empty());
    while i < list.len()
        invariant
            0 <= i <= list@.len(),
            all_chosen_exist(list@),
            member_contents(r@) == requirement_map(list@.take(i as int)),
        decreases list@.len() - i,
    {
        let v = &list[i];
        assert(list@.take(i + 1).drop_last() =~= list@.take(i as int));
        assert(list@.take(i + 1).last() == list@[i as int]);
        let key = cat5(
            v.kind.label_name(),
            ":",
            v.candidates[v.selected as usize].name(),
            "@",
            v.declared_at.display().as_str(),
        );
        insert_keyed(&mut r, key, sort_keys(requirement_value(v)));
        i += 1;
    }
    assert(list@.take(i as int) =~= list@);
    r
}

/// What tells prerequisites apart.
pub open spec fn prerequisite_key(v: ProviderPrerequisite) -> Seq<char> {
    v.provider@ + ":"@ + v.identity@
}

/// A list by what tells its items apart.
pub open spec fn prerequisite_map(list: Seq<ProviderPrerequisite>) -> Seq<(Seq<char>, JsonTree)>
    decreases list.len(),
{
    if list.len() == 0 {
        Seq::empty()
    } else {
        with_entry(
            prerequisite_map(list.drop_last()),
            prerequisite_key(list.last()),
            key_sorted(list.last().tree()),
        )
    }
}

fn keyed_prerequisite(list: &Vec<ProviderPrerequisite>) -> (r: Vec<(String, Value)>)
    ensures
        member_contents(r@) == prerequisite_map(list@),
{
    let mut r: Vec<(String, Value)> = Vec::new();
    let mut i: usize = 0;
    assert(member_contents(r@) =~= Seq::empty());
    while i < list.len()
        invariant
            0 <= i <= list@.len(),
            member_contents(r@) == prerequisite_map(list@.take(i as int)),
        decreases list@.len() - i,
    {
        let v = &list[i];
        assert(list@.take(i + 1).drop_last() =~= list@.take(i as int));
        assert(list@.take(i + 1).last() == list@[i as int]);
        let key = cat3(v.provider.as_str(), ":", v.identity.as_str());
        insert_keyed(&mut r, key, sort_keys(provider_prerequisite_value(v)));
        i += 1;
    }
    assert(list@.take(i as int) =~= list@);
    r
}

/// What tells preparations apart.
pub open spec fn preparation_key(v: ProviderPreparation) -> Seq<char> {
    v.provider@ + ":"@ + v.identity@
}

/// A list by what tells its items apart.
pub open spec fn preparation_map(list: Seq<ProviderPreparation>) -> Seq<(Seq<char>, JsonTree)>
    decreases list.len(),
{
    if list.len() == 0 {
        Seq::empty()
    } else {
        with_entry(
            preparation_map(list.drop_last()),
            preparation_key(list.last()),
            key_sorted(list.last().tree()),
        )
    }
}

fn keyed_preparation(list: &Vec<ProviderPreparation>) -> (r: Vec<(String, Value)>)
    ensures
        member_contents(r@) == preparation_map(list@),
{
    let mut r: Vec<(String, Value)> = Vec::new();
    let mut i: usize = 0;
    assert(member_contents(r@) =~= Seq::empty());
    while i < list.len()
        invariant
            0 <= i <= list@.len(),
            member_contents(r@) == preparation_map(list@.take(i as int)),
        decreases list@.len() - i,
    {
        let v = &list[i];
        assert(list@.take(i + 1).drop_last() =~= list@.take(i as int));
        assert(list@.take(i + 1).last() == list@[i as int]);
        let key = cat3(v.provider.as_str(), ":", v.identity.as_str());
        insert_keyed(&mut r, key, sort_keys(provider_preparation_value(v)));
        i += 1;
    }
    assert(list@.take(i as int) =~= list@);
    r
}

/// What tells selections apart.
pub open spec fn selection_key(v: ArtifactSelection) -> Seq<char> {
    v.owner@ + ":"@ + v.declared@ + "@"@ + v.declared_at.text()
}

/// A list by what tells its items apart.
pub open spec fn selection_map(list: Seq<ArtifactSelection>) -> Seq<(Seq<char>, JsonTree)>
    decreases list.len(),
{
    if list.len() == 0 {
        Seq::empty()
    } else {
        with_entry(
            selection_map(list.drop_last()),
            selection_key(list.last()),
            key_sorted(list.last().tree()),
        )
    }
}

fn keyed_selection(list: &Vec<ArtifactSelection>) -> (r: Vec<(String, Value)>)
    ensures
        member_contents(r@) == selection_map(list@),
{
    let mut r: Vec<(String, Value)> = Vec::new();
    let mut i: usize = 0;
    assert(member_contents(r@) =~= Seq::empty());
    while i < list.len()
        invariant
            0 <= i <= list@.len(),
            member_contents(r@) == selection_map(list@.take(i as int)),
        decreases list@.len() - i,
    {
        let v = &list[i];
        assert(list@.take(i + 1).drop_last() =~= list@.take(i as int));
        assert(list@.take(i + 1).last() == list@[i as int]);
        let key = cat5(
            v.owner.as_str(),
            ":",
            v.declared.as_str(),
            "@",
            v.declared_at.display().as_str(),
        );
        insert_keyed(&mut r, key, sort_keys(artifact_selection_value(v)));
        i += 1;
    }
    assert(list@.take(i as int) =~= list@);
    r
}

/// What tells notices apart.
pub open spec fn notice_key(v: ArtifactNotice) -> Seq<char> {
    v.owner@ + ":"@ + v.selector@ + "@"@ + v.declared_at.text()
}

/// A list by what tells its items apart.
pub open spec fn notice_map(list: Seq<ArtifactNotice>) -> Seq<(Seq<char>, JsonTree)>
    decreases list.len(),
{
    if list.len() == 0 {
        Seq::empty()
    } else {
        with_entry(
            notice_map(list.drop_last()),
            notice_key(list.last()),
            key_sorted(list.last().tree()),
        )
    }
}

fn keyed_notice(list: &Vec<ArtifactNotice>) -> (r: Vec<(String, Value)>)
    ensures
        member_contents(r@) == notice_map(list@),
{
    let mut r: Vec<(String, Value)> = Vec::new();
    let mut i: usize = 0;
    assert(member_contents(r@) =~= Seq::empty());
    while i < list.len()
        invariant
            0 <= i <= list@.len(),
            member_contents(r@) == notice_map(list@.take(i as int)),
        decreases list@.len() - i,
    {
        let v = &list[i];
        assert(list@.take(i + 1).drop_last() =~= list@.take(i as int));
        assert(list@.take(i + 1).last() == list@[i as int]);
        let key = cat5(
            v.owner.as_str(),
            ":",
            v.selector.as_str(),
            "@",
            v.declared_at.display().as_str(),
        );
        insert_keyed(&mut r, key, sort_keys(artifact_notice_value(v)));
        i += 1;
    }
    assert(list@.take(i as int) =~= list@);
    r
}

/// What tells artifacts apart.
pub open spec fn artifact_key(v: Artifact) -> Seq<char> {
    v.target.path@
}

/// A list by what tells its items apart.
pub open spec fn artifact_map(list: Seq<Artifact>) -> Seq<(Seq<char>, JsonTree)>
    decreases list.len(),
{
    if list.len() == 0 {
        Seq::empty()
    } else {
        with_entry(
            artifact_map(list.drop_last()),
            artifact_key(list.last()),
            key_sorted(list.last().tree()),
        )
    }
}

fn keyed_artifact(list: &Vec<Artifact>) -> (r: Vec<(String, Value)>)
    ensures
        member_contents(r@) == artifact_map(list@),
{
    let mut r: Vec<(String, Value)> = Vec::new();
    let mut i: usize = 0;
    assert(member_contents(r@) =~= Seq::empty());
    while i < list.len()
        invariant
            0 <= i <= list@.len(),
            member_contents(r@) == artifact_map(list@.take(i as int)),
        decreases list@.len() - i,
    {
        let v = &list[i];
        assert(list@.take(i + 1).drop_last() =~= list@.take(i as int));
        assert(list@.take(i + 1).last() == list@[i as int]);
        let key = v.target.path.clone();
        insert_keyed(&mut r, key, sort_keys(artifact_value(v)));
        i += 1;
    }
    assert(list@.take(i as int) =~= list@);
    r
}

/// Whether two rungs are the same.
pub open spec fn same_rung(a: FlatRung, b: FlatRung) -> bool {
    &&& a.id.name@ == b.id.name@
    &&& a.depth == b.depth
    &&& a.core == b.core
    &&& match (a.parent, b.parent) {
        (Some(x), Some(y)) => x.name@ == y.name@,
        (None, None) => true,
        _ => false,
    }
}

fn rungs_agree(a: &FlatRung, b: &FlatRung) -> (r: bool)
    ensures
        r == same_rung(*a, *b),
{
    let parents = match (&a.parent, &b.parent) {
        (Some(x), Some(y)) => same(x.name.as_str(), y.name.as_str()),
        (None, None) => true,
        _ => false,
    };
    let cores = match (a.core, b.core) {
        (Some(x), Some(y)) => x == y,
        (None, None) => true,
        _ => false,
    };
    same(a.id.name.as_str(), b.id.name.as_str()) && a.depth == b.depth && cores && parents
}

/// Whether two ladders are the same.
pub open spec fn same_ladder(a: ExecutionLadder, b: ExecutionLadder) -> bool {
    &&& a.name@ == b.name@
    &&& a.flattened@.len() == b.flattened@.len()
    &&& forall|i: int|
        0 <= i < a.flattened@.len() ==> same_rung(#[trigger] a.flattened@[i], b.flattened@[i])
}

fn ladders_agree(a: &ExecutionLadder, b: &ExecutionLadder) -> (r: bool)
    ensures
        r == same_ladder(*a, *b),
{
    if !same(a.name.as_str(), b.name.as_str()) || a.flattened.len() != b.flattened.len() {
        return false;
    }
    let mut i: usize = 0;
    while i < a.flattened.len()
        invariant
            0 <= i <= a.flattened@.len(),
            a.name@ == b.name@,
            a.flattened@.len() == b.flattened@.len(),
            forall|j: int|
                0 <= j < i ==> same_rung(#[trigger] a.flattened@[j], b.flattened@[j]),
        decreases a.flattened@.len() - i,
    {
        if !rungs_agree(&a.flattened[i], &b.flattened[i]) {
            assert(!same_rung(a.flattened@[i as int], b.flattened@[i as int]));
            return false;
        }
        i += 1;
    }
    true
}

fn texts_agree(a: &Vec<String>, b: &Vec<String>) -> (r: bool)
    ensures
        r == (views(a@) == views(b@)),
{
    assert(views(a@).len() == a@.len() && views(b@).len() == b@.len());
    if a.len() != b.len() {
        return false;
    }
    let mut i: usize = 0;
    while i < a.len()
        invariant
            0 <= i <= a@.len(),
            a@.len() == b@.len(),
            views(a@).len() == a@.len(),
            views(b@).len() == b@.len(),
            forall|j: int| 0 <= j < i ==> #[trigger] views(a@)[j] == views(b@)[j],
        decreases a@.len() - i,
    {
        assert(views(a@)[i as int] == a@[i as int]@);
        assert(views(b@)[i as int] == b@[i as int]@);
        if !same(a[i].as_str(), b[i].as_str()) {
            return false;
        }
        i += 1;
    }
    assert(views(a@) =~= views(b@));
    true
}

/// Whether two products agree in what the repository gave them.
pub open spec fn same_origin(a: Manifest, b: Manifest) -> bool {
    &&& a.format_version == b.format_version
    &&& a.wombat_version@ == b.wombat_version@
    &&& a.build_id@ == b.build_id@
    &&& a.plan_id@ == b.plan_id@
    &&& a.execution_mode == b.execution_mode
    &&& views(a.skipped_requirement_gates@) == views(b.skipped_requirement_gates@)
    &&& a.project_identity@ == b.project_identity@
    &&& same_ladder(a.ladder, b.ladder)
    &&& a.artifact_policy == b.artifact_policy
}

/// Whether two products agree in what evaluation read and ran.
pub open spec fn same_evaluation(a: Manifest, b: Manifest) -> bool {
    &&& equal(
        JsonTree::Array(source_file_trees(a.sources@)),
        JsonTree::Array(source_file_trees(b.sources@)),
    )
    &&& equal(
        JsonTree::Array(build_input_trees(a.inputs@)),
        JsonTree::Array(build_input_trees(b.inputs@)),
    )
    &&& equal(a.target.tree(), b.target.tree())
    &&& equal(
        JsonTree::Array(observation_trees(a.observations@)),
        JsonTree::Array(observation_trees(b.observations@)),
    )
    &&& equal(
        JsonTree::Array(process_observation_trees(a.process_observations@)),
        JsonTree::Array(process_observation_trees(b.process_observations@)),
    )
    &&& equal(
        JsonTree::Array(manifest_module_trees(a.modules@)),
        JsonTree::Array(manifest_module_trees(b.modules@)),
    )
    &&& equal(
        JsonTree::Array(dependency_trees(a.dependencies@)),
        JsonTree::Array(dependency_trees(b.dependencies@)),
    )
    &&& equal(
        JsonTree::Array(template_helper_pack_trees(a.template_helpers@)),
        JsonTree::Array(template_helper_pack_trees(b.template_helpers@)),
    )
}

/// Whether two products agree in what they ask for and run.
pub open spec fn same_actions(a: Manifest, b: Manifest) -> bool {
    &&& equal(
        JsonTree::Array(provider_trees(a.providers@)),
        JsonTree::Array(provider_trees(b.providers@)),
    )
    &&& equal(
        JsonTree::Array(requirement_trees(a.requirements@)),
        JsonTree::Array(requirement_trees(b.requirements@)),
    )
    &&& equal(
        JsonTree::Array(provider_prerequisite_trees(a.prerequisites@)),
        JsonTree::Array(provider_prerequisite_trees(b.prerequisites@)),
    )
    &&& equal(
        JsonTree::Array(provider_preparation_trees(a.preparations@)),
        JsonTree::Array(provider_preparation_trees(b.preparations@)),
    )
    &&& equal(
        JsonTree::Array(task_trees(a.tasks@)),
        JsonTree::Array(task_trees(b.tasks@)),
    )
    &&& equal(
        JsonTree::Array(script_trees(a.scripts@)),
        JsonTree::Array(script_trees(b.scripts@)),
    )
}

/// Whether two products agree in their artifacts.
pub open spec fn same_artifacts(a: Manifest, b: Manifest) -> bool {
    &&& equal(
        JsonTree::Array(artifact_notice_trees(a.artifact_notices@)),
        JsonTree::Array(artifact_notice_trees(b.artifact_notices@)),
    )
    &&& equal(
        JsonTree::Array(artifact_selection_trees(a.artifact_selections@)),
        JsonTree::Array(artifact_selection_trees(b.artifact_selections@)),
    )
    &&& equal(
        JsonTree::Array(artifact_trees(a.artifacts@)),
        JsonTree::Array(artifact_trees(b.artifacts@)),
    )
}

/// Whether two products are identical: they agree in all they hold, lists compared
/// in their serialised form.
pub open spec fn identical(a: Manifest, b: Manifest) -> bool {
    same_origin(a, b) && same_evaluation(a, b) && same_actions(a, b) && same_artifacts(a, b)
}

fn origins_agree(a: &Manifest, b: &Manifest) -> (r: bool)
    ensures
        r == same_origin(*a, *b),
{
    a.format_version == b.format_version && same(
        a.wombat_version.as_str(),
        b.wombat_version.as_str(),
    ) && same(a.build_id.as_str(), b.build_id.as_str()) && same(
        a.plan_id.as_str(),
        b.plan_id.as_str(),
    ) && a.execution_mode == b.execution_mode && texts_agree(
        &a.skipped_requirement_gates,
        &b.skipped_requirement_gates,
    ) && same(a.project_identity.as_str(), b.project_identity.as_str()) && ladders_agree(
        &a.ladder,
        &b.ladder,
    ) && a.artifact_policy.unallocated == b.artifact_policy.unallocated
}

fn evaluations_agree(a: &Manifest, b: &Manifest) -> (r: bool)
    ensures
        r == same_evaluation(*a, *b),
        *a == *b ==> r,
{
    equal_values(&source_file_values(&a.sources), &source_file_values(&b.sources)) && equal_values(
        &build_input_values(&a.inputs),
        &build_input_values(&b.inputs),
    ) && equal_values(
        &resolved_target_value(&a.target),
        &resolved_target_value(&b.target),
    ) && equal_values(
        &observation_values(&a.observations),
        &observation_values(&b.observations),
    ) && equal_values(
        &process_observation_values(&a.process_observations),
        &process_observation_values(&b.process_observations),
    ) && equal_values(
        &manifest_module_values(&a.modules),
        &manifest_module_values(&b.modules),
    ) && equal_values(
        &dependency_values(&a.dependencies),
        &dependency_values(&b.dependencies),
    ) && equal_values(
        &template_helper_pack_values(&a.template_helpers),
        &template_helper_pack_values(&b.template_helpers),
    )
}

fn actions_agree(a: &Manifest, b: &Manifest) -> (r: bool)
    ensures
        r == same_actions(*a, *b),
        *a == *b ==> r,
{
    equal_values(&provider_values(&a.providers), &provider_values(&b.providers)) && equal_values(
        &requirement_values(&a.requirements),
        &requirement_values(&b.requirements),
    ) && equal_values(
        &provider_prerequisite_values(&a.prerequisites),
        &provider_prerequisite_values(&b.prerequisites),
    ) && equal_values(
        &provider_preparation_values(&a.preparations),
        &provider_preparation_values(&b.preparations),
    ) && equal_values(&task_values(&a.tasks), &task_values(&b.tasks)) && equal_values(
        &script_values(&a.scripts),
        &script_values(&b.scripts),
    )
}

fn artifacts_agree(a: &Manifest, b: &Manifest) -> (r: bool)
    ensures
        r == same_artifacts(*a, *b),
        *a == *b ==> r,
{
    equal_values(
        &artifact_notice_values(&a.artifact_notices),
        &artifact_notice_values(&b.artifact_notices),
    ) && equal_values(
        &artifact_selection_values(&a.artifact_selections),
        &artifact_selection_values(&b.artifact_selections),
    ) && equal_values(&artifact_values(&a.artifacts), &artifact_values(&b.artifacts))
}

/// How two targets differ.
pub open spec fn target_compared(left: ResolvedTarget, right: ResolvedTarget) -> Seq<char> {
    if equal(left.tree(), right.tree()) {
        Seq::empty()
    } else {
        "Target\n  - "@ + compact(left.tree()) + "\n  + "@ + compact(right.tree()) + "\n"@
    }
}

fn compare_target(left: &ResolvedTarget, right: &ResolvedTarget) -> (r: String)
    ensures
        r@ == target_compared(*left, *right),
{
    let a = resolved_target_value(left);
    let b = resolved_target_value(right);
    if equal_values(&a, &b) {
        return String::new();
    }
    cat5(
        "Target\n  - ",
        compact_text(&a).as_str(),
        "\n  + ",
        compact_text(&b).as_str(),
        "\n",
    )
}

/// How two rules for artifacts differ.
pub open spec fn policy_compared(left: ArtifactPolicy, right: ArtifactPolicy) -> Seq<char> {
    if left == right {
        Seq::empty()
    } else {
        "Artifact policy\n  - "@ + compact(left.tree()) + "\n  + "@ + compact(right.tree()) + "\n"@
    }
}

fn compare_policy(left: &ArtifactPolicy, right: &ArtifactPolicy) -> (r: String)
    ensures
        r@ == policy_compared(*left, *right),
{
    if left.unallocated == right.unallocated {
        return String::new();
    }
    cat5(
        "Artifact policy\n  - ",
        compact_text(&artifact_policy_value(left)).as_str(),
        "\n  + ",
        compact_text(&artifact_policy_value(right)).as_str(),
        "\n",
    )
}

/// How two products differ in what evaluation read.
pub open spec fn evaluation_compared(a: Manifest, b: Manifest) -> Seq<char> {
    compared("Sources"@, source_map(a.sources@), source_map(b.sources@)) + compared(
        "Inputs"@,
        input_map(a.inputs@),
        input_map(b.inputs@),
    ) + target_compared(a.target, b.target) + compared(
        "Observations"@,
        observation_map(a.observations@),
        observation_map(b.observations@),
    ) + compared("Modules"@, module_map(a.modules@), module_map(b.modules@)) + compared(
        "Dependencies"@,
        dependency_map(a.dependencies@),
        dependency_map(b.dependencies@),
    ) + compared(
        "Template helpers"@,
        helper_map(a.template_helpers@),
        helper_map(b.template_helpers@),
    )
}

fn compare_evaluation(a: &Manifest, b: &Manifest) -> (r: String)
    ensures
        r@ == evaluation_compared(*a, *b),
{
    cat7(
        compare_map("Sources", &keyed_source(&a.sources), &keyed_source(&b.sources)).as_str(),
        compare_map("Inputs", &keyed_input(&a.inputs), &keyed_input(&b.inputs)).as_str(),
        compare_target(&a.target, &b.target).as_str(),
        compare_map(
            "Observations",
            &keyed_observation(&a.observations),
            &keyed_observation(&b.observations),
        ).as_str(),
        compare_map("Modules", &keyed_module(&a.modules), &keyed_module(&b.modules)).as_str(),
        compare_map(
            "Dependencies",
            &keyed_dependency(&a.dependencies),
            &keyed_dependency(&b.dependencies),
        ).as_str(),
        compare_map(
            "Template helpers",
            &keyed_helper(&a.template_helpers),
            &keyed_helper(&b.template_helpers),
        ).as_str(),
    )
}

/// How two products differ in what they ask for.
pub open spec fn actions_compared(a: Manifest, b: Manifest) -> Seq<char> {
    compared("Providers"@, provider_map(a.providers@), provider_map(b.providers@)) + compared(
        "Requirements"@,
        requirement_map(a.requirements@),
        requirement_map(b.requirements@),
    ) + compared(
        "Prerequisites"@,
        prerequisite_map(a.prerequisites@),
        prerequisite_map(b.prerequisites@),
    ) + compared(
        "Preparations"@,
        preparation_map(a.preparations@),
        preparation_map(b.preparations@),
    )
}

fn compare_actions(a: &Manifest, b: &Manifest) -> (r: String)
    requires
        all_chosen_exist(a.requirements@),
        all_chosen_exist(b.requirements@),
    ensures
        r@ == actions_compared(*a, *b),
{
    cat4(
        compare_map(
            "Providers",
            &keyed_provider(&a.providers),
            &keyed_provider(&b.providers),
        ).as_str(),
        compare_map(
            "Requirements",
            &keyed_requirement(&a.requirements),
            &keyed_requirement(&b.requirements),
        ).as_str(),
        compare_map(
            "Prerequisites",
            &keyed_prerequisite(&a.prerequisites),
            &keyed_prerequisite(&b.prerequisites),
        ).as_str(),
        compare_map(
            "Preparations",
            &keyed_preparation(&a.preparations),
            &keyed_preparation(&b.preparations),
        ).as_str(),
    )
}

/// How two products differ in their artifacts.
pub open spec fn artifacts_compared(a: Manifest, b: Manifest) -> Seq<char> {
    compared(
        "Artifact selections"@,
        selection_map(a.artifact_selections@),
        selection_map(b.artifact_selections@),
    ) + policy_compared(a.artifact_policy, b.artifact_policy) + compared(
        "Artifact notices"@,
        notice_map(a.artifact_notices@),
        notice_map(b.artifact_notices@),
    ) + compared("Artifacts"@, artifact_map(a.artifacts@), artifact_map(b.artifacts@))
}

fn compare_artifacts(a: &Manifest, b: &Manifest) -> (r: String)
    ensures
        r@ == artifacts_compared(*a, *b),
{
    cat4(
        compare_map(
            "Artifact selections",
            &keyed_selection(&a.artifact_selections),
            &keyed_selection(&b.artifact_selections),
        ).as_str(),
        compare_policy(&a.artifact_policy, &b.artifact_policy).as_str(),
        compare_map(
            "Artifact notices",
            &keyed_notice(&a.artifact_notices),
            &keyed_notice(&b.artifact_notices),
        ).as_str(),
        compare_map(
            "Artifacts",
            &keyed_artifact(&a.artifacts),
            &keyed_artifact(&b.artifacts),
        ).as_str(),
    )
}

/// How two products differ.
pub open spec fn comparison(left: Manifest, right: Manifest) -> Seq<char> {
    if identical(left, right) {
        "Products are identical: "@ + left.build_id@ + "\n"@
    } else {
        "Product comparison\n  left: "@ + left.build_id@ + "\n  right: "@ + right.build_id@ + "\n"@
            + evaluation_compared(left, right) + actions_compared(left, right)
            + artifacts_compared(left, right)
    }
}

/// Writes how two products differ. A product does not differ from itself.
pub fn compare(left: &Manifest, right: &Manifest) -> (r: String)
    requires
        *left == *right || identical(*left, *right) || (all_chosen_exist(left.requirements@)
            && all_chosen_exist(right.requirements@)),
    ensures
        r@ == comparison(*left, *right),
        *left == *right ==> r@ == "Products are identical: "@ + left.build_id@ + "\n"@,
{
    if origins_agree(left, right) && evaluations_agree(left, right) && actions_agree(left, right)
        && artifacts_agree(left, right) {
        return cat3("Products are identical: ", left.build_id.as_str(), "\n");
    }
    let head = cat5(
        "Product comparison\n  left: ",
        left.build_id.as_str(),
        "\n  right: ",
        right.build_id.as_str(),
        "\n",
    );
    cat4(
        head.as_str(),
        compare_evaluation(left, right).as_str(),
        compare_actions(left, right).as_str(),
        compare_artifacts(left, right).as_str(),
    )
}

} // verus!
