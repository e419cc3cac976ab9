//! Module selection, consumption and the target platform.
use vstd::prelude::*;
use vstd::string::*;

use crate::error::{first, problem_if, reports, Result, WombatError};
use crate::json::{equal, equal_values};
use crate::lua::options::{is_plain_name, plain_name};
use crate::lua::state::{
    has_record, lemma_one_record, names, only_selected, record_at, ExplicitConfig, Location,
    ModuleRecord, ModuleRegistry,
};
use crate::model::context::{
    platform_problem, PlatformOrigin, ResolvedTarget, TargetPlatform,
};
use crate::model::frozen::{frozen_value, FrozenValue};
use crate::model::manifest::{Dependency, DependencyKind, SourceTrace};
use crate::model::ordering::{insert_dependency, with_dependency};
use crate::order::{ascending, before, lemma_asymmetric, lemma_total, lemma_transitive, precedes};
use crate::text::{cat2, cat3, cat4, cat7, join, joined, same, views};

verus! {

/// What is wrong with the name of a module.
pub open spec fn module_name_problem(name: Seq<char>) -> Option<Seq<char>> {
    problem_if(
        !plain_name(name),
        "invalid module name `"@ + name + "`; expected ASCII letters, numbers, `_`, or `-`"@,
    )
}

/// Accepts a module name of letters, digits, `_` and `-`.
pub fn validate_module_name(name: &str) -> (r: Result<()>)
    ensures
        reports(r, module_name_problem(name@)),
{
    if !is_plain_name(name) {
        return Err(
            WombatError::Configuration(
                cat3(
                    "invalid module name `",
                    name,
                    "`; expected ASCII letters, numbers, `_`, or `-`",
                ),
            ),
        );
    }
    Ok(())
}

/// Whether a dependency is of this kind, between these modules and declared
/// there.
pub open spec fn dependency_is(
    dependency: Dependency,
    kind: DependencyKind,
    from: Seq<char>,
    to: Seq<char>,
    trace: SourceTrace,
) -> bool {
    &&& dependency.kind == kind
    &&& dependency.from@ == from
    &&& dependency.to@ == to
    &&& dependency.declared_at.same(trace)
}

/// Whether a dependency was added.
pub open spec fn dependency_added(
    before: Seq<Dependency>,
    after: Seq<Dependency>,
    kind: DependencyKind,
    from: Seq<char>,
    to: Seq<char>,
    trace: SourceTrace,
) -> bool {
    exists|d: Dependency| #[trigger]
        dependency_is(d, kind, from, to, trace) && after == with_dependency(before, d)
}

/// The places of a list of declarations.
pub open spec fn place_texts(locations: Seq<Location>) -> Seq<Seq<char>> {
    locations.map_values(|l: Location| l.trace.text())
}

/// The message about two configurations of one module.
pub open spec fn conflict_message(
    name: Seq<char>,
    locations: Seq<Location>,
    place: Seq<char>,
) -> Seq<char> {
    "conflicting configuration for module `"@ + name + "`: first selected at "@ + joined(
        place_texts(locations),
        ", "@,
    ) + "; conflicting selection at "@ + place
}

/// Whether giving a module this configuration contradicts what it has.
pub open spec fn contradicts(record: ModuleRecord, value: FrozenValue) -> bool {
    record.explicit_config matches Some(existing) && !equal(existing.value.tree(), value.tree())
}

/// Whether a record has taken a configuration.
pub open spec fn configured_from(
    before: ModuleRecord,
    after: ModuleRecord,
    value: FrozenValue,
    location: Location,
) -> bool {
    &&& after.state == before.state
    &&& after.export == before.export
    &&& after.location == before.location
    &&& after.source_base == before.source_base
    &&& after.declarations_started == before.declarations_started
    &&& after.explicit_config matches Some(config)
    &&& match before.explicit_config {
        Some(existing) => config.value == existing.value && config.locations@
            == existing.locations@.push(location),
        None => config.value == value && config.locations@ == seq![location],
    }
}

fn shown_places(locations: &Vec<Location>) -> (r: String)
    ensures
        r@ == joined(place_texts(locations@), ", "@),
{
    let mut shown: Vec<String> = Vec::new();
    let mut i: usize = 0;
    while i < locations.len()
        invariant
            0 <= i <= locations@.len(),
            views(shown@) == place_texts(locations@).take(i as int),
        decreases locations@.len() - i,
    {
        let ghost held = shown@;
        let next = locations[i].display();
        let ghost text = next@;
        shown.push(next);
        assert(views(shown@) =~= views(held).push(text));
        assert(place_texts(locations@).take(i + 1) =~= place_texts(locations@).take(i as int).push(
            text,
        ));
        i += 1;
    }
    assert(place_texts(locations@).take(i as int) =~= place_texts(locations@));
    join(&shown, ", ")
}

/// Gives a module a configuration, unless it has another one.
fn configure_record(record: &mut ModuleRecord, name: &str, value: FrozenValue, location: Location) -> (r:
    Result<()>)
    ensures
        reports(
            r,
            problem_if(
                contradicts(*old(record), value),
                conflict_message(
                    name@,
                    old(record).explicit_config->0.locations@,
                    location.trace.text(),
                ),
            ),
        ),
        r is Err ==> *final(record) == *old(record),
        r is Ok ==> configured_from(*old(record), *final(record), value, location),
{
    match &mut record.explicit_config {
        Some(existing) => {
            let held = frozen_value(&existing.value);
            let offered = frozen_value(&value);
            if equal_values(&held, &offered) {
                existing.locations.push(location);
                Ok(())
            } else {
                Err(conflict_error(name, &existing.locations, &location))
            }
        },
        None => {
            let mut locations: Vec<Location> = Vec::new();
            locations.push(location);
            assert(locations@ =~= seq![location]);
            record.explicit_config = Some(ExplicitConfig { value, locations });
            Ok(())
        },
    }
}

/// Whether a module has a record at `index` after the records were made to have
/// one: the old one, or a new one in the order of the names.
pub open spec fn record_ensured(
    before: Seq<(String, ModuleRecord)>,
    after: Seq<(String, ModuleRecord)>,
    name: Seq<char>,
    index: int,
) -> bool {
    &&& record_at(after, name, index)
    &&& ascending(names(after))
    &&& if has_record(before, name) {
        after == before
    } else {
        &&& after.len() == before.len() + 1
        &&& after == before.insert(index, after[index])
        &&& only_selected(after[index].1)
    }
}

fn ensure_record(records: &mut Vec<(String, ModuleRecord)>, name: &str) -> (index: usize)
    requires
        ascending(names(old(records)@)),
    ensures
        record_ensured(old(records)@, final(records)@, name@, index as int),
        forall|other: Seq<char>|
            has_record(old(records)@, other) ==> #[trigger] has_record(final(records)@, other),
{
    let ghost start = records@;
    let ghost held = names(start);
    let mut i: usize = 0;
    while i < records.len() && before(records[i].0.as_str(), name)
        invariant
            0 <= i <= records@.len(),
            records@ == start,
            held == names(start),
            forall|j: int| 0 <= j < i ==> precedes(#[trigger] held[j], name@),
        decreases records@.len() - i,
    {
        assert(held[i as int] == records@[i as int].0@);
        i += 1;
    }
    if i < records.len() && same(records[i].0.as_str(), name) {
        assert(record_at(start, name@, i as int));
        return i;
    }
    proof {
        if i < start.len() {
            assert(held[i as int] == start[i as int].0@);
            lemma_total(held[i as int], name@);
        }
        assert forall|j: int| i <= j < held.len() implies precedes(name@, #[trigger] held[j]) by {
            if i < j {
                assert(precedes(held[i as int], held[j]));
                lemma_transitive(name@, held[i as int], held[j]);
            }
        }
        assert forall|j: int| !record_at(start, name@, j) by {
            if record_at(start, name@, j) {
                assert(held[j] == name@);
                if j < i {
                    lemma_asymmetric(held[j], name@);
                } else {
                    lemma_asymmetric(name@, held[j]);
                }
            }
        }
    }
    let owned = name.to_owned();
    records.insert(i, (owned, ModuleRecord::selected()));
    proof {
        let grown = names(records@);
        assert(grown =~= held.insert(i as int, name@));
        assert forall|a: int, b: int| 0 <= a < b < grown.len() implies precedes(
            #[trigger] grown[a],
            #[trigger] grown[b],
        ) by {
            if b < i {
                assert(precedes(held[a], held[b]));
            } else if a > i {
                assert(precedes(held[a - 1], held[b - 1]));
            } else if a == i {
                assert(grown[b] == held[b - 1]);
            } else if b > i {
                assert(precedes(held[a], held[b - 1]));
            } else {
                assert(grown[a] == held[a]);
            }
        }
        assert(records@ =~= start.insert(i as int, records@[i as int]));
        assert forall|other: Seq<char>| has_record(start, other) implies #[trigger] has_record(
            records@,
            other,
        ) by {
            let j = choose|j: int| record_at(start, other, j);
            if j < i {
                assert(record_at(records@, other, j));
            } else {
                assert(record_at(records@, other, j + 1));
            }
        }
    }
    i
}

/// What is wrong with selecting a module.
pub open spec fn selection_problem(
    registry: ModuleRegistry,
    name: Seq<char>,
    config: Option<FrozenValue>,
    place: Seq<char>,
) -> Option<Seq<char>> {
    match config {
        None => None,
        Some(value) => if has_record(registry.records@, name) {
            let record = registry.records@[choose|i: int| record_at(registry.records@, name, i)].1;
            problem_if(
                contradicts(record, value),
                conflict_message(name, record.explicit_config->0.locations@, place),
            )
        } else {
            None
        },
    }
}

/// The message about a module that configures another.
pub open spec fn foreign_config_message(
    from: Seq<char>,
    name: Seq<char>,
    place: Seq<char>,
) -> Seq<char> {
    "module `"@ + from + "` cannot configure module `"@ + name + "` at "@ + place
        + "; configuration-bearing use() belongs to root policy"@
}

/// Whether the outcome of selecting a module is what it should be.
pub open spec fn selection_outcome(
    r: Result<()>,
    registry: ModuleRegistry,
    name: Seq<char>,
    config: Option<Result<FrozenValue>>,
    place: Seq<char>,
) -> bool {
    if module_name_problem(name) is Some {
        reports(r, module_name_problem(name))
    } else {
        match config {
            None => reports(r, None::<Seq<char>>),
            Some(frozen) => if registry.active() is Some {
                reports(r, Some(foreign_config_message(registry.owner(), name, place)))
            } else {
                match frozen {
                    Err(error) => r is Err && r->Err_0 == error,
                    Ok(value) => reports(r, selection_problem(registry, name, Some(value), place)),
                }
            },
        }
    }
}

/// Whether a module was selected.
pub open spec fn selected_from(
    before: ModuleRegistry,
    after: ModuleRegistry,
    name: Seq<char>,
    config: Option<FrozenValue>,
    location: Location,
) -> bool {
    &&& after.stack == before.stack
    &&& after.root_policy_started == (before.root_policy_started || before.active() is None)
    &&& dependency_added(
        before.dependencies@,
        after.dependencies@,
        DependencyKind::Use,
        before.owner(),
        name,
        location.trace,
    )
    &&& exists|middle: Seq<(String, ModuleRecord)>, index: int| #[trigger]
        record_ensured(before.records@, middle, name, index) && (match config {
            None => after.records@ == middle,
            Some(value) => {
                &&& after.records@ == middle.update(index, after.records@[index])
                &&& after.records@[index].0 == middle[index].0
                &&& exists|l: Location|
                    l.trace.same(location.trace) && #[trigger] configured_from(
                        middle[index].1,
                        after.records@[index].1,
                        value,
                        l,
                    )
            },
        })
}

/// Whether a configuration was given that could be frozen.
pub open spec fn config_given(config: Option<Result<FrozenValue>>) -> bool {
    config matches Some(frozen) && frozen is Ok
}

/// What stays of the selection of a module that was refused: root policy has started,
/// and a module whose configuration contradicts another is depended on.
pub open spec fn refused_from(
    before: ModuleRegistry,
    after: ModuleRegistry,
    name: Seq<char>,
    config: Option<Result<FrozenValue>>,
    location: Location,
) -> bool {
    &&& after.stack == before.stack
    &&& after.records@ == before.records@
    &&& if module_name_problem(name) is Some {
        &&& after.root_policy_started == before.root_policy_started
        &&& after.dependencies@ == before.dependencies@
    } else {
        &&& after.root_policy_started == (before.root_policy_started || before.active() is None)
        &&& if before.active() is None && config_given(config) {
            dependency_added(
                before.dependencies@,
                after.dependencies@,
                DependencyKind::Use,
                before.owner(),
                name,
                location.trace,
            )
        } else {
            after.dependencies@ == before.dependencies@
        }
    }
}

/// Selects a module, with the configuration that root policy gives it, as far as
/// that could be frozen. The same configuration may be given again; another one
/// is refused.
pub fn register_selection(
    registry: &mut ModuleRegistry,
    name: &str,
    config: Option<Result<FrozenValue>>,
    location: Location,
) -> (r: Result<()>)
    requires
        old(registry).wf(),
    ensures
        selection_outcome(r, *old(registry), name@, config, location.trace.text()),
        r is Err ==> refused_from(*old(registry), *final(registry), name@, config, location),
        r is Ok ==> selected_from(
            *old(registry),
            *final(registry),
            name@,
            match config {
                Some(frozen) => Some(frozen->Ok_0),
                None => None,
            },
            location,
        ),
        final(registry).wf(),
{
    let ghost start = *registry;
    validate_module_name(name)?;
    let from = registry.current_owner();
    let inside = registry.active_module().is_some();
    if !inside {
        registry.root_policy_started = true;
    }
    let value = match config {
        None => None,
        Some(frozen) => {
            if inside {
                return Err(
                    WombatError::Configuration(
                        cat7(
                            "module `",
                            from.as_str(),
                            "` cannot configure module `",
                            name,
                            "` at ",
                            location.display().as_str(),
                            "; configuration-bearing use() belongs to root policy",
                        ),
                    ),
                );
            }
            match frozen {
                Ok(value) => Some(value),
                Err(error) => {
                    return Err(error);
                },
            }
        },
    };
    let ghost wanted = value;
    let ghost given = location;
    let trace = location.trace.copy();
    let dependency = Dependency {
        kind: DependencyKind::Use,
        from,
        to: name.to_owned(),
        declared_at: trace,
    };
    assert(dependency_is(
        dependency,
        DependencyKind::Use,
        start.owner(),
        name@,
        given.trace,
    ));
    insert_dependency(&mut registry.dependencies, dependency);
    if let Some(value) = &value {
        if let Some(i) = registry.find(name) {
            proof {
                lemma_one_record(start.records@, name@, i as int);
            }
            if let Some(existing) = &registry.records[i].1.explicit_config {
                if !equal_values(&frozen_value(&existing.value), &frozen_value(value)) {
                    return Err(conflict_error(name, &existing.locations, &location));
                }
            }
        }
    }
    let ghost outcome = selection_problem(start, name@, wanted, location.trace.text());
    assert(outcome is None);
    let index = ensure_record(&mut registry.records, name);
    let ghost middle = registry.records@;
    proof {
        lemma_one_record(middle, name@, index as int);
        assert forall|k: int| 0 <= k < registry.stack@.len() implies has_record(
            middle,
            (#[trigger] registry.stack@[k])@,
        ) by {
            assert(has_record(start.records@, start.stack@[k]@));
        }
        if has_record(start.records@, name@) {
            lemma_one_record(start.records@, name@, index as int);
        }
    }
    if let Some(value) = value {
        let ghost held = *registry;
        configure_record(&mut registry.records[index].1, name, value, location)?;
        proof {
            assert(names(registry.records@) =~= names(middle));
            assert(registry.records@ =~= middle.update(
                index as int,
                registry.records@[index as int],
            ));
            lemma_records_kept(held, *registry);
            assert(given.trace.same(given.trace)) by {
                lemma_trace_same(given.trace);
            }
            assert(configured_from(
                middle[index as int].1,
                registry.records@[index as int].1,
                wanted->0,
                given,
            ));
        }
    }
    assert(record_ensured(start.records@, middle, name@, index as int));
    Ok(())
}

/// A declaration is the same as itself.
pub proof fn lemma_trace_same(trace: SourceTrace)
    ensures
        trace.same(trace),
{
}

fn conflict_error(name: &str, locations: &Vec<Location>, location: &Location) -> (r: WombatError)
    ensures
        crate::error::is_configuration(
            r,
            conflict_message(name@, locations@, location.trace.text()),
        ),
{
    let prior = shown_places(locations);
    let front = cat4(
        "conflicting configuration for module `",
        name,
        "`: first selected at ",
        prior.as_str(),
    );
    WombatError::Configuration(
        cat3(front.as_str(), "; conflicting selection at ", location.display().as_str()),
    )
}

/// Records that keep their names are found where they were.
proof fn lemma_records_kept(before: ModuleRegistry, after: ModuleRegistry)
    requires
        before.wf(),
        after.stack == before.stack,
        names(after.records@) == names(before.records@),
    ensures
        after.wf(),
{
    assert(names(after.records@).len() == after.records@.len());
    assert(names(before.records@).len() == before.records@.len());
    assert forall|k: int| 0 <= k < after.stack@.len() implies has_record(
        after.records@,
        (#[trigger] after.stack@[k])@,
    ) by {
        assert(has_record(before.records@, before.stack@[k]@));
        let j = choose|j: int| record_at(before.records@, before.stack@[k]@, j);
        assert(names(before.records@)[j] == names(after.records@)[j]);
        assert(record_at(after.records@, after.stack@[k]@, j));
    }
}

/// What is wrong with reading the export of a module.
pub open spec fn consumption_problem(registry: ModuleRegistry, name: Seq<char>) -> Option<
    Seq<char>,
> {
    first(
        module_name_problem(name),
        match registry.active() {
            None => Some("using() may only be called while evaluating a Wombat module"@),
            Some(from) => problem_if(
                !has_record(registry.records@, name),
                "module `"@ + from + "` uses module `"@ + name + "`, but `"@ + name
                    + "` was not selected with use()"@,
            ),
        },
    )
}

/// Notes that the active module reads the export of another, before that is
/// evaluated.
pub fn consume_module(registry: &mut ModuleRegistry, name: &str, location: Location) -> (r: Result<
    (),
>)
    ensures
        reports(r, consumption_problem(*old(registry), name@)),
        r is Err ==> *final(registry) == *old(registry),
        r is Ok ==> {
            &&& final(registry).stack == old(registry).stack
            &&& final(registry).records == old(registry).records
            &&& final(registry).root_policy_started == old(registry).root_policy_started
            &&& dependency_added(
                old(registry).dependencies@,
                final(registry).dependencies@,
                DependencyKind::Using,
                old(registry).owner(),
                name@,
                location.trace,
            )
        },
{
    validate_module_name(name)?;
    let from = match registry.active_module() {
        Some(from) => from.to_owned(),
        None => {
            return Err(
                WombatError::configuration(
                    "using() may only be called while evaluating a Wombat module",
                ),
            );
        },
    };
    if registry.find(name).is_none() {
        return Err(
            WombatError::Configuration(
                cat7(
                    "module `",
                    from.as_str(),
                    "` uses module `",
                    name,
                    "`, but `",
                    name,
                    "` was not selected with use()",
                ),
            ),
        );
    }
    let dependency = Dependency {
        kind: DependencyKind::Using,
        from,
        to: name.to_owned(),
        declared_at: location.trace,
    };
    proof {
        lemma_trace_same(location.trace);
        assert(dependency_is(
            dependency,
            DependencyKind::Using,
            old(registry).owner(),
            name@,
            location.trace,
        ));
    }
    insert_dependency(&mut registry.dependencies, dependency);
    Ok(())
}

/// The record of a selected module.
pub open spec fn record_of(registry: ModuleRegistry, name: Seq<char>) -> ModuleRecord {
    registry.records@[choose|i: int| record_at(registry.records@, name, i)].1
}

/// The export of a module that was read, after it was evaluated.
pub fn consumed_export(registry: &ModuleRegistry, name: &str) -> (r: Result<FrozenValue>)
    requires
        registry.wf(),
    ensures
        reports(
            r,
            problem_if(
                !(has_record(registry.records@, name@) && record_of(
                    *registry,
                    name@,
                ).export is Some),
                "module `"@ + name@ + "` finished without a resolved public export"@,
            ),
        ),
        r matches Ok(export) ==> export.tree() == record_of(*registry, name@).export->0.tree(),
{
    if let Some(i) = registry.find(name) {
        proof {
            lemma_one_record(registry.records@, name@, i as int);
        }
        if let Some(export) = &registry.records[i].1.export {
            return Ok(export.copy());
        }
    }
    Err(
        WombatError::Configuration(
            cat3("module `", name, "` finished without a resolved public export"),
        ),
    )
}

/// The configuration of the module that is being evaluated.
pub fn current_module_config(registry: &ModuleRegistry) -> (r: Result<FrozenValue>)
    requires
        registry.wf(),
    ensures
        reports(
            r,
            problem_if(
                registry.active() is None,
                "module.config() may only be called while evaluating a Wombat module"@,
            ),
        ),
        r matches Ok(config) ==> config.tree() == record_of(
            *registry,
            registry.active()->0,
        ).config_tree(),
{
    if let Some(name) = registry.active_module() {
        proof {
            assert(has_record(
                registry.records@,
                registry.stack@[registry.stack@.len() - 1]@,
            ));
        }
        if let Some(i) = registry.find(name) {
            proof {
                lemma_one_record(registry.records@, name@, i as int);
            }
            return Ok(registry.records[i].1.config());
        }
    }
    Err(
        WombatError::configuration(
            "module.config() may only be called while evaluating a Wombat module",
        ),
    )
}

/// The building machine and the target platform, and who has asked for it.
#[derive(Debug, PartialEq)]
pub struct TargetState {
    /// The building machine
    pub host: TargetPlatform,
    /// The target
    pub target: ResolvedTarget,
    /// Where it was overridden
    pub target_override: Option<Location>,
    /// Where it was first read
    pub target_first_read: Option<Location>,
}

/// Whether a platform is known by name and architecture only.
pub open spec fn bare(platform: TargetPlatform) -> bool {
    platform.os.version is None && platform.os.kernel is None && platform.os.distribution is None
}

/// Whether what is known of the building machine stands for the target.
pub open spec fn host_stands_for_target(state: TargetState) -> bool {
    state.target.platform.compatible(state.host) && bare(state.target.platform)
}

/// The platform that evaluation sees: the building machine in all its detail where
/// the target only names it.
pub fn effective_target(state: &TargetState) -> (r: &TargetPlatform)
    ensures
        *r == if host_stands_for_target(*state) {
            state.host
        } else {
            state.target.platform
        },
{
    let target = &state.target.platform;
    if target.os.name == state.host.os.name && target.arch == state.host.arch
        && target.os.version.is_none() && target.os.kernel.is_none()
        && target.os.distribution.is_none() {
        &state.host
    } else {
        target
    }
}

/// What is wrong with overriding the target.
pub open spec fn override_problem(
    modules: ModuleRegistry,
    state: TargetState,
    place: Seq<char>,
) -> Option<Seq<char>> {
    first(
        problem_if(
            modules.active() is Some || modules.root_policy_started,
            "w.target() must run in root policy before module selection at "@ + place,
        ),
        first(
            match state.target_override {
                Some(prior) => Some(
                    "w.target() may override the target only once; first at "@
                        + prior.trace.text() + ", repeated at "@ + place,
                ),
                None => None,
            },
            match state.target_first_read {
                Some(prior) => Some(
                    "w.target() cannot override a target after it was read; first read at "@
                        + prior.trace.text() + ", override at "@ + place,
                ),
                None => None,
            },
        ),
    )
}

/// What a declared target names: text, or a platform in detail as far as it could
/// be read.
#[derive(Debug, PartialEq)]
pub enum TargetDeclaration {
    /// A platform as `os/arch`
    Compact(String),
    /// A platform in detail
    Detailed(Result<TargetPlatform>),
}

/// Whether the outcome of overriding the target is what it should be.
pub open spec fn override_outcome(
    r: Result<()>,
    modules: ModuleRegistry,
    state: TargetState,
    declared: Result<TargetDeclaration>,
    place: Seq<char>,
) -> bool {
    match declared {
        Err(error) => r is Err && r->Err_0 == error,
        Ok(declared) => if override_problem(modules, state, place) is Some {
            reports(r, override_problem(modules, state, place))
        } else {
            match declared {
                TargetDeclaration::Compact(text) => reports(r, platform_problem(text@)),
                TargetDeclaration::Detailed(Err(error)) => r is Err && r->Err_0 == error,
                TargetDeclaration::Detailed(Ok(_)) => r is Ok,
            }
        },
    }
}

/// Overrides the target, which root policy may do once, before it is read.
pub fn set_target(
    modules: &ModuleRegistry,
    state: &mut TargetState,
    declared: Result<TargetDeclaration>,
    location: Location,
) -> (r: Result<()>)
    ensures
        override_outcome(r, *modules, *old(state), declared, location.trace.text()),
        r is Err ==> *final(state) == *old(state),
        r is Ok ==> {
            &&& final(state).host == old(state).host
            &&& final(state).target_first_read == old(state).target_first_read
            &&& final(state).target_override == Some(location)
            &&& final(state).target.origin == PlatformOrigin::RootOverride
            &&& final(state).target.declared_at matches Some(trace) && trace.same(location.trace)
            &&& match declared->Ok_0 {
                TargetDeclaration::Compact(text) => {
                    let parts = crate::text::pieces(text@, '/');
                    &&& Some(final(state).target.platform.os.name)
                        == crate::model::context::os_named(parts[0])
                    &&& Some(final(state).target.platform.arch)
                        == crate::model::context::arch_named(parts[1])
                    &&& bare(final(state).target.platform)
                },
                TargetDeclaration::Detailed(platform) => final(state).target.platform
                    == platform->Ok_0,
            }
        },
{
    let declared = match declared {
        Ok(declared) => declared,
        Err(error) => {
            return Err(error);
        },
    };
    if modules.active_module().is_some() || modules.root_policy_started {
        return Err(
            WombatError::Configuration(
                cat2(
                    "w.target() must run in root policy before module selection at ",
                    location.display().as_str(),
                ),
            ),
        );
    }
    if let Some(prior) = &state.target_override {
        return Err(
            WombatError::Configuration(
                cat4(
                    "w.target() may override the target only once; first at ",
                    prior.display().as_str(),
                    ", repeated at ",
                    location.display().as_str(),
                ),
            ),
        );
    }
    if let Some(prior) = &state.target_first_read {
        return Err(
            WombatError::Configuration(
                cat4(
                    "w.target() cannot override a target after it was read; first read at ",
                    prior.display().as_str(),
                    ", override at ",
                    location.display().as_str(),
                ),
            ),
        );
    }
    let platform = match declared {
        TargetDeclaration::Compact(text) => TargetPlatform::parse_compact(text.as_str())?,
        TargetDeclaration::Detailed(platform) => match platform {
            Ok(platform) => platform,
            Err(error) => {
                return Err(error);
            },
        },
    };
    state.target = ResolvedTarget {
        platform,
        origin: PlatformOrigin::RootOverride,
        declared_at: Some(location.trace.copy()),
    };
    state.target_override = Some(location);
    Ok(())
}

} // verus!
