//! What evaluation promises of the modules, sources and providers that it goes through.
use vstd::prelude::*;
use vstd::string::*;

use crate::digest::digest_of;
use crate::error::Result;
use crate::json::equal;
use crate::lua::diagnostics::{of_user, user_places, LuaFrame, Place};
use crate::lua::evaluation::{
    cycle_from, file_of, files_of, files_problem, first_place, next_selected,
};
use crate::lua::loading::{
    component_problem, components_problem, known_at, source_problem, FoundComponent, FoundSource,
};
use crate::lua::options::string_option;
use crate::lua::planning::bindings_of;
use crate::lua::providers::{
    belongs, entry_name, naming_problem, provider_problem, provider_sources, providers_problem,
    ProviderSource,
};
use crate::lua::requirements::{
    entries_of, product_name, provider_name, published_list_problem,
};
use crate::lua::selections::{
    configured_from, contradicts, record_ensured, selected_from, selection_outcome,
};
use crate::lua::state::{
    has_record, record_at, EvaluationState, Location, ModuleRecord, ModuleRegistry, TrackedSource,
};
use crate::model::frozen::FrozenValue;
use crate::model::manifest::{
    ProviderBinding, Requirement, RequirementKind, MAX_SOURCE_TRACE_FRAMES,
};
use crate::model::source::EntryKind;
use crate::text::{decoded, pieces, replaced};

verus! {

/// A module that is evaluated has exactly one file: one whose name is the name of the
/// module with `.lua` behind it, and no other file has that name.
pub proof fn law_modules_have_one_file(files: Seq<Seq<char>>, name: Seq<char>, at: int)
    requires
        name.len() > 0,
        0 <= at < files.len(),
    ensures
        files_problem(files, name) is None <==> files_of(files, name).len() == 1,
        pieces(files[at], '/').last() == name + ".lua"@ ==> files_of(files, name).contains(
            files[at],
        ),
        forall|i: int|
            0 <= i < files_of(files, name).len() ==> files.contains(
                #[trigger] files_of(files, name)[i],
            ) && pieces(files_of(files, name)[i], '/').last() == name + ".lua"@,
    decreases files.len(),
{
    let front = files.drop_last();
    let last = files.len() - 1;
    let rest = files_of(front, name);
    let all = files_of(files, name);
    if front.len() > 0 {
        law_modules_have_one_file(
            front,
            name,
            if at < last {
                at
            } else {
                0
            },
        );
    }
    if at < last {
        assert(front[at] == files[at]);
        if rest.contains(files[at]) {
            let k = choose|k: int| 0 <= k < rest.len() && rest[k] == files[at];
            assert(all[k] == files[at]);
        }
    } else if file_of(files[at], name) {
        assert(all[rest.len() as int] == files[at]);
    }
    assert forall|i: int| 0 <= i < all.len() implies files.contains(#[trigger] all[i]) && pieces(
        all[i],
        '/',
    ).last() == name + ".lua"@ by {
        if i < rest.len() {
            assert(all[i] == rest[i]);
            assert(front.contains(rest[i]));
            let k = choose|k: int| 0 <= k < front.len() && front[k] == rest[i];
            assert(files[k] == rest[i]);
        } else {
            assert(all[i] == files[last]);
        }
    }
}

/// The next module to evaluate is the first one that still waits; where none is next, none
/// waits.
pub proof fn law_no_selected_module_is_forgotten(records: Seq<(String, ModuleRecord)>)
    ensures
        match next_selected(records) {
            Some(name) => exists|i: int|
                0 <= i < records.len() && (#[trigger] records[i]).0@ == name && records[i].1.state
                    == EvaluationState::Selected && forall|j: int|
                    0 <= j < i ==> (#[trigger] records[j]).1.state != EvaluationState::Selected,
            None => forall|i: int|
                0 <= i < records.len() ==> (#[trigger] records[i]).1.state
                    != EvaluationState::Selected,
        },
    decreases records.len(),
{
    if records.len() > 0 {
        let rest = records.skip(1);
        law_no_selected_module_is_forgotten(rest);
        if records[0].1.state != EvaluationState::Selected {
            match next_selected(rest) {
                Some(name) => {
                    let i = choose|i: int|
                        0 <= i < rest.len() && (#[trigger] rest[i]).0@ == name
                            && rest[i].1.state == EvaluationState::Selected && forall|j: int|
                            0 <= j < i ==> (#[trigger] rest[j]).1.state
                                != EvaluationState::Selected;
                    assert(records[i + 1] == rest[i]);
                    assert forall|j: int| 0 <= j < i + 1 implies (
                    #[trigger] records[j]).1.state != EvaluationState::Selected by {
                        if j > 0 {
                            assert(records[j] == rest[j - 1]);
                        }
                    }
                },
                None => {
                    assert forall|i: int| 0 <= i < records.len() implies (
                    #[trigger] records[i]).1.state != EvaluationState::Selected by {
                        if i > 0 {
                            assert(records[i] == rest[i - 1]);
                        }
                    }
                },
            }
        } else {
            assert(records[0].0@ == next_selected(records)->0);
        }
    }
}

/// A cycle of modules is told from the module that closes it round to that module again, and
/// in between as they were entered.
pub proof fn law_cycles_are_told_all_round(stack: Seq<Seq<char>>, name: Seq<char>)
    requires
        stack.contains(name),
    ensures
        cycle_from(stack, name).len() >= 2,
        cycle_from(stack, name).first() == name,
        cycle_from(stack, name).last() == name,
        exists|at: int|
            0 <= at < stack.len() && #[trigger] stack.skip(at) == cycle_from(stack, name).drop_last(),
{
    lemma_first_place(stack, name);
    let at = first_place(stack, name);
    let cycle = cycle_from(stack, name);
    assert(cycle.drop_last() =~= stack.skip(at));
    assert(cycle[0] == stack[at]);
}

proof fn lemma_first_place(list: Seq<Seq<char>>, name: Seq<char>)
    requires
        list.contains(name),
    ensures
        0 <= first_place(list, name) < list.len(),
        list[first_place(list, name)] == name,
    decreases list.len(),
{
    if list[0] != name {
        let rest = list.skip(1);
        let i = choose|i: int| 0 <= i < list.len() && list[i] == name;
        assert(rest[i - 1] == name);
        lemma_first_place(rest, name);
    }
}

/// A source is read where nothing stands against it, and only there: it stands in the
/// repository, no link leads to it, it is a regular file of valid text that did not change
/// while it was read, and it is what it was when it was read before.
pub proof fn law_sources_are_read_as_they_are(
    sources: Seq<TrackedSource>,
    path: Seq<char>,
    relative: Option<&str>,
    found: FoundSource,
)
    requires
        source_problem(sources, path, relative, found) is None,
    ensures
        relative is Some,
        forall|i: int|
            0 <= i < found.components@.len() ==> (#[trigger] found.components@[i]).normal && (
            found.components@[i].kind matches Ok(kind) && kind != EntryKind::Symlink),
        found.before matches Ok(before) && before.0 == EntryKind::File && (
        found.after matches Ok(after) && after == before.1),
        found.bytes matches Ok(bytes) && decoded(bytes@) is Some,
        forall|i: int|
            known_at(sources, replaced((relative->0)@, '\\', "/"@), i) && (forall|j: int|
                known_at(sources, replaced((relative->0)@, '\\', "/"@), j) ==> i == j) ==> (
            #[trigger] sources[i]).manifest.digest@ == digest_of(found.bytes->Ok_0@)
                && sources[i].fingerprint == (found.before->Ok_0).1,
{
    lemma_components(path, found.components@);
    let portable = replaced((relative->0)@, '\\', "/"@);
    assert forall|i: int|
        known_at(sources, portable, i) && (forall|j: int|
            known_at(sources, portable, j) ==> i == j) implies (
    #[trigger] sources[i]).manifest.digest@ == digest_of(found.bytes->Ok_0@)
        && sources[i].fingerprint == (found.before->Ok_0).1 by {
        let k = choose|k: int| known_at(sources, portable, k);
        assert(known_at(sources, portable, k));
        assert(k == i);
    }
}

proof fn lemma_components(path: Seq<char>, components: Seq<FoundComponent>)
    ensures
        components_problem(path, components) is None ==> forall|i: int|
            0 <= i < components.len() ==> (#[trigger] components[i]).normal && (
            components[i].kind matches Ok(kind) && kind != EntryKind::Symlink),
    decreases components.len(),
{
    if components.len() > 0 {
        let front = components.drop_last();
        lemma_components(path, front);
        assert(component_problem(path, components.last()) is None
            || components_problem(path, components) is Some);
        if components_problem(path, components) is None {
            assert forall|i: int| 0 <= i < components.len() implies (
            #[trigger] components[i]).normal && (components[i].kind matches Ok(kind) && kind
                != EntryKind::Symlink) by {
                if i < front.len() {
                    assert(front[i] == components[i]);
                }
            }
        }
    }
}

/// A trace holds frames of the user only, never two alike behind each other and never more
/// than there is room for; while there is room, no frame of the user is left out.
pub proof fn law_traces_hold_the_frames_of_the_user(levels: Seq<Option<LuaFrame>>, at: int)
    ensures
        user_places(levels).len() <= MAX_SOURCE_TRACE_FRAMES,
        forall|i: int|
            0 <= i < user_places(levels).len() - 1 ==> #[trigger] user_places(levels)[i]
                != user_places(levels)[i + 1],
        forall|i: int|
            0 <= i < user_places(levels).len() ==> some_frame(
                levels,
                #[trigger] user_places(levels)[i],
            ),
        0 <= at < levels.len() && user_places(levels).len() < MAX_SOURCE_TRACE_FRAMES && (
        levels[at] matches Some(frame) && frame.source@ != "=[C]"@ && frame.source@ != "[C]"@
            && frame.source@ != "<unknown>"@ && frame.source@ != "<wombat>/init.lua"@
            && frame.source@ != "=<wombat>/init.lua"@ && frame.source@ != "<wombat>/protected.lua"@
            && frame.source@ != "=<wombat>/protected.lua"@) ==> user_places(levels).contains(
            Place { source: levels[at]->0.path@, line: levels[at]->0.line },
        ),
    decreases levels.len(),
{
    if levels.len() > 0 {
        let front = levels.drop_last();
        let last = levels.len() - 1;
        let rest = user_places(front);
        let all = user_places(levels);
        law_traces_hold_the_frames_of_the_user(front, at);
        assert forall|i: int| 0 <= i < all.len() implies some_frame(
            levels,
            #[trigger] all[i],
        ) by {
            if i < rest.len() {
                assert(all[i] == rest[i]);
                assert(some_frame(front, rest[i]));
                let k = choose|k: int|
                    0 <= k < front.len() && (#[trigger] front[k] matches Some(frame)
                        && of_user(frame.source@) && rest[i] == (Place {
                        source: frame.path@,
                        line: frame.line,
                    }));
                assert(levels[k] == front[k]);
            } else {
                assert(levels[last] == levels.last());
            }
        }
        assert forall|i: int| 0 <= i < all.len() - 1 implies #[trigger] all[i] != all[i + 1] by {
            if i + 1 < rest.len() {
                assert(all[i] == rest[i] && all[i + 1] == rest[i + 1]);
            }
        }
        if 0 <= at < last {
            assert(front[at] == levels[at]);
            if levels[at] is Some {
                let place = Place { source: levels[at]->0.path@, line: levels[at]->0.line };
                if rest.contains(place) {
                    let k = choose|k: int| 0 <= k < rest.len() && rest[k] == place;
                    assert(all[k] == place);
                }
            }
        } else if at == last && levels[at] is Some {
            let place = Place { source: levels[at]->0.path@, line: levels[at]->0.line };
            if all.len() > rest.len() {
                assert(all[rest.len() as int] == place);
            } else if rest.len() > 0 && rest.last() == place {
                assert(all[rest.len() - 1] == place);
            }
        }
    }
}

/// Whether some frame of the user stands at a place.
pub open spec fn some_frame(levels: Seq<Option<LuaFrame>>, place: Place) -> bool {
    exists|k: int|
        0 <= k < levels.len() && (#[trigger] levels[k] matches Some(frame) && of_user(frame.source@)
            && place == (Place { source: frame.path@, line: frame.line }))
}

/// A provider plans for all that was bound to it, in the order of the requirements, and for
/// nothing else.
pub proof fn law_providers_plan_for_all_their_bindings(
    requirements: Seq<Requirement>,
    provider: Seq<char>,
    binding: ProviderBinding,
)
    ensures
        bindings_of(requirements, provider).contains(binding) <==> exists|i: int|
            0 <= i < requirements.len() && (#[trigger] requirements[i]).binding == binding
                && binding.provider@ == provider,
    decreases requirements.len(),
{
    if requirements.len() > 0 {
        let front = requirements.drop_last();
        let last = requirements.len() - 1;
        let rest = bindings_of(front, provider);
        let all = bindings_of(requirements, provider);
        law_providers_plan_for_all_their_bindings(front, provider, binding);
        if rest.contains(binding) {
            let k = choose|k: int| 0 <= k < rest.len() && rest[k] == binding;
            assert(all[k] == binding);
            let i = choose|i: int|
                0 <= i < front.len() && (#[trigger] front[i]).binding == binding
                    && binding.provider@ == provider;
            assert(requirements[i] == front[i]);
        }
        if requirements[last].binding == binding && binding.provider@ == provider {
            assert(all[rest.len() as int] == binding);
        }
        if all.contains(binding) && !rest.contains(binding) {
            let k = choose|k: int| 0 <= k < all.len() && all[k] == binding;
            if k < rest.len() {
                assert(rest[k] == binding);
            }
            assert(requirements[last].binding == binding);
        }
        if exists|i: int|
            0 <= i < requirements.len() && (#[trigger] requirements[i]).binding == binding
                && binding.provider@ == provider {
            let i = choose|i: int|
                0 <= i < requirements.len() && (#[trigger] requirements[i]).binding == binding
                    && binding.provider@ == provider;
            if i < last {
                assert(front[i] == requirements[i]);
            }
        }
    } else {
        assert(!bindings_of(requirements, provider).contains(binding));
    }
}

/// No planned value is lost: each is taken up under its kind.
pub proof fn law_planned_values_are_taken_up(items: Seq<FrozenValue>, kind: Seq<char>, at: int)
    requires
        0 <= at < items.len(),
        items[at] is Table,
    ensures
        string_option(items[at]->Table_0@, "kind"@) == kind ==> entries_of(items, kind).contains(
            items[at]->Table_0@,
        ),
        entries_of(items, kind).len() <= items.len(),
    decreases items.len(),
{
    let front = items.drop_last();
    let rest = entries_of(front, kind);
    let all = entries_of(items, kind);
    lemma_entries_len(front, kind);
    if at < items.len() - 1 {
        assert(front[at] == items[at]);
        law_planned_values_are_taken_up(front, kind, at);
        if rest.contains(items[at]->Table_0@) {
            let k = choose|k: int| 0 <= k < rest.len() && rest[k] == items[at]->Table_0@;
            assert(all[k] == rest[k]);
        }
    } else if string_option(items[at]->Table_0@, "kind"@) == kind {
        assert(all[rest.len() as int] == items[at]->Table_0@);
    }
}

proof fn lemma_entries_len(items: Seq<FrozenValue>, kind: Seq<char>)
    ensures
        entries_of(items, kind).len() <= items.len(),
    decreases items.len(),
{
    if items.len() > 0 {
        lemma_entries_len(items.drop_last(), kind);
    }
}

/// The files of a provider are its own file and all that stand in its directory.
pub proof fn law_providers_keep_all_their_files(
    sources: Seq<TrackedSource>,
    provider: Seq<char>,
    at: int,
)
    requires
        0 <= at < sources.len(),
    ensures
        sources[at].manifest.path@ == "providers/"@ + provider + ".lua"@ || ("providers/"@ + provider
            + "/"@).is_prefix_of(sources[at].manifest.path@) ==> provider_sources(
            sources,
            provider,
        ).contains(sources[at]),
        forall|i: int|
            0 <= i < provider_sources(sources, provider).len() ==> {
                let kept = #[trigger] provider_sources(sources, provider)[i];
                kept.manifest.path@ == "providers/"@ + provider + ".lua"@ || ("providers/"@
                    + provider + "/"@).is_prefix_of(kept.manifest.path@)
            },
    decreases sources.len(),
{
    let front = sources.drop_last();
    let last = sources.len() - 1;
    let rest = provider_sources(front, provider);
    let all = provider_sources(sources, provider);
    if front.len() > 0 {
        law_providers_keep_all_their_files(
            front,
            provider,
            if at < last {
                at
            } else {
                0
            },
        );
    }
    if at < last {
        assert(front[at] == sources[at]);
        if rest.contains(sources[at]) {
            let k = choose|k: int| 0 <= k < rest.len() && rest[k] == sources[at];
            assert(all[k] == rest[k]);
        }
    } else if belongs(provider, sources[at].manifest.path@) {
        assert(all[rest.len() as int] == sources[at]);
    }
    assert forall|i: int| 0 <= i < all.len() implies belongs(
        provider,
        (#[trigger] all[i]).manifest.path@,
    ) by {
        if i < rest.len() {
            assert(all[i] == rest[i]);
        }
    }
}

/// Accepted providers have proper names, and no two of them the same.
pub proof fn law_accepted_providers_are_told_apart(
    items: Seq<FrozenValue>,
    sources: Seq<Result<ProviderSource>>,
    count: int,
    a: int,
    b: int,
)
    requires
        providers_problem(items, sources, count) is None,
        0 <= a < b < count,
        count <= items.len(),
    ensures
        entry_name(items[a]) != entry_name(items[b]),
        provider_name(entry_name(items[b])),
        provider_name(entry_name(items[a])),
        sources[a] is Ok && sources[b] is Ok,
    decreases count,
{
    assert(provider_problem(items, sources, count - 1) is None);
    if b < count - 1 {
        law_accepted_providers_are_told_apart(items, sources, count - 1, a, b);
    } else {
        assert(naming_problem(items, b) is None);
        lemma_named(items, sources, count - 1, a);
    }
}

proof fn lemma_named(
    items: Seq<FrozenValue>,
    sources: Seq<Result<ProviderSource>>,
    count: int,
    a: int,
)
    requires
        providers_problem(items, sources, count) is None,
        0 <= a < count,
    ensures
        naming_problem(items, a) is None,
        sources[a] is Ok,
    decreases count,
{
    if a < count - 1 {
        lemma_named(items, sources, count - 1, a);
    } else {
        assert(provider_problem(items, sources, count - 1) is None);
    }
}

/// Whatever a package is accepted to publish is a proper name of a command.
pub proof fn law_published_commands_are_proper(items: Seq<FrozenValue>, at: int)
    requires
        published_list_problem(items) is None,
        0 <= at < items.len(),
    ensures
        items[at] matches FrozenValue::String(command) && product_name(
            RequirementKind::Command,
            command@,
        ),
    decreases items.len(),
{
    if at < items.len() - 1 {
        assert(items.drop_last()[at] == items[at]);
        law_published_commands_are_proper(items.drop_last(), at);
    }
}

/// Selecting a module keeps what was selected before: the module has a record, everything
/// that had one still has it, and the selection is a dependency.
pub proof fn law_selections_are_kept(
    before: ModuleRegistry,
    after: ModuleRegistry,
    name: Seq<char>,
    config: Option<FrozenValue>,
    location: Location,
    other: Seq<char>,
)
    requires
        selected_from(before, after, name, config, location),
    ensures
        has_record(after.records@, name),
        has_record(before.records@, other) ==> has_record(after.records@, other),
        after.stack == before.stack,
        config is None && has_record(before.records@, name) ==> after.records@ == before.records@,
{
    let (middle, index) = choose|middle: Seq<(String, ModuleRecord)>, index: int| #[trigger]
        record_ensured(before.records@, middle, name, index) && (match config {
            None => after.records@ == middle,
            Some(value) => {
                &&& after.records@ == middle.update(index, after.records@[index])
                &&& after.records@[index].0 == middle[index].0
                &&& exists|l: Location|
                    l.trace.same(location.trace) && #[trigger] configured_from(
                        middle[index].1,
                        after.records@[index].1,
                        value,
                        l,
                    )
            },
        });
    assert(after.records@.len() == middle.len());
    assert forall|i: int| 0 <= i < middle.len() implies (#[trigger] after.records@[i]).0
        == middle[i].0 by {}
    assert(record_at(after.records@, name, index));
    if has_record(before.records@, other) {
        let k = choose|k: int| record_at(before.records@, other, k);
        assert(record_at(before.records@, other, k));
        if has_record(before.records@, name) || k < index {
            assert(middle[k] == before.records@[k]);
            assert(record_at(after.records@, other, k));
        } else {
            assert(middle[k + 1] == before.records@[k]);
            assert(record_at(after.records@, other, k + 1));
        }
    }
}

/// The first configuration of a module stands: another one is accepted only where it says
/// the same, and modules do not configure each other.
pub proof fn law_configurations_do_not_contradict(
    r: Result<()>,
    registry: ModuleRegistry,
    name: Seq<char>,
    value: FrozenValue,
    place: Seq<char>,
    at: int,
)
    requires
        selection_outcome(r, registry, name, Some(Ok(value)), place),
        r is Ok,
    ensures
        registry.active() is None,
        record_at(registry.records@, name, at) && (forall|j: int|
            record_at(registry.records@, name, j) ==> at == j) ==> (
        registry.records@[at].1.explicit_config matches Some(config) ==> equal(
            config.value.tree(),
            value.tree(),
        )),
{
    if record_at(registry.records@, name, at) && (forall|j: int|
        record_at(registry.records@, name, j) ==> at == j) {
        let k = choose|k: int| record_at(registry.records@, name, k);
        assert(record_at(registry.records@, name, k));
        assert(has_record(registry.records@, name));
        assert(!contradicts(registry.records@[at].1, value));
    }
}

} // verus!
