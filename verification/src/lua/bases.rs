//! Where the sources of a module start.
use vstd::prelude::*;
use vstd::string::*;

use crate::error::{configured, either, first, problem_if, reports, settles, Problem, Result, WombatError};
use crate::lua::state::{has_record, names, record_at, Location, ModuleRecord, ModuleRegistry};
use crate::model::frozen::LuaValue;
use crate::model::manifest::ModuleSourceBase;
use crate::model::path::{explicit_root_problem, parse_explicit_target_root};
use crate::model::selection::{
    allocated_components, compile_selector, expanded_selector, globbed, physical_selector,
    project_physical, projected_path, projection_problem, selector_problem, CompiledSelector,
};
use crate::model::source::EntryKind;
use crate::text::{cat2, cat3, pieces, same};

verus! {

/// What a Lua value says of the source of an artifact: text, or text that
/// `w.hidden()` marked.
pub open spec fn decoded_source(value: LuaValue, marked: Option<String>) -> std::result::Result<
    (Seq<char>, bool),
    Seq<char>,
> {
    match value {
        LuaValue::Text(text) => Ok((text@, false)),
        LuaValue::Undecodable(message) => Err(message@),
        LuaValue::Table(_) => match marked {
            Some(text) => Ok((text@, true)),
            None => Err("artifact source must be a string or w.hidden() value"@),
        },
        _ => Err("artifact source must be a string or w.hidden() value"@),
    }
}

/// Reads the source of an artifact. `marked` is the text that `w.hidden()` left in
/// a table.
pub fn decode_source_selector(value: &LuaValue, marked: &Option<String>) -> (r: Result<
    (String, bool),
>)
    ensures
        match decoded_source(*value, *marked) {
            Ok(read) => r is Ok && (r->Ok_0).0@ == read.0 && (r->Ok_0).1 == read.1,
            Err(message) => settles(r, Some(Problem::Lua(message))),
        },
{
    match value {
        LuaValue::Text(text) => Ok((text.clone(), false)),
        LuaValue::Undecodable(message) => Err(WombatError::Lua(message.clone())),
        LuaValue::Table(_) => match marked {
            Some(text) => Ok((text.clone(), true)),
            None => Err(
                WombatError::Lua(
                    "artifact source must be a string or w.hidden() value".to_string(),
                ),
            ),
        },
        _ => Err(
            WombatError::Lua("artifact source must be a string or w.hidden() value".to_string()),
        ),
    }
}

/// The part of a base below the directory of sources.
pub open spec fn base_relative(declared: Seq<char>, hidden: bool) -> Seq<char> {
    if physical_selector(declared, hidden) == "."@ {
        Seq::empty()
    } else {
        physical_selector(declared, hidden)
    }
}

/// The directory of a base.
pub open spec fn base_directory(declared: Seq<char>, hidden: bool) -> Seq<char> {
    if base_relative(declared, hidden).len() == 0 {
        "src"@
    } else {
        "src/"@ + base_relative(declared, hidden)
    }
}

/// What is wrong with a base before it is looked at.
pub open spec fn base_problem(
    registry: ModuleRegistry,
    declared: Seq<char>,
    hidden: bool,
    place: Seq<char>,
) -> Option<Seq<char>> {
    first(
        selector_problem(declared, hidden),
        first(
            problem_if(
                globbed(physical_selector(declared, hidden)),
                "w.module.from() requires an exact source directory, not a glob"@,
            ),
            match registry.active() {
                None => Some("w.module.from() may only be called from a selected module"@),
                Some(name) => first(
                    problem_if(
                        registry.active_record().declarations_started,
                        "w.module.from() must run before artifact or task declarations at "@
                            + place,
                    ),
                    problem_if(
                        registry.active_record().source_base is Some,
                        "module `"@ + name + "` declares w.module.from() more than once"@,
                    ),
                ),
            },
        ),
    )
}

/// What is wrong with a base once it was looked at.
pub open spec fn found_problem(
    declared: Seq<char>,
    hidden: bool,
    target: Option<&str>,
    found: std::result::Result<EntryKind, String>,
) -> Option<Problem> {
    let relative = base_relative(declared, hidden);
    match found {
        Err(message) => Some(Problem::Io(message@)),
        Ok(kind) => configured(
            first(
                problem_if(
                    kind != EntryKind::Directory,
                    "module source base `"@ + base_directory(declared, hidden)
                        + "` must be a directory"@,
                ),
                first(
                    if relative.len() == 0 {
                        None
                    } else {
                        projection_problem(relative, hidden)
                    },
                    match target {
                        Some(text) => explicit_root_problem(text@),
                        None => None,
                    },
                ),
            ),
        ),
    }
}

/// The logical name of a base.
pub open spec fn logical_base(relative: Seq<char>) -> Seq<char> {
    if relative.len() == 0 {
        Seq::empty()
    } else {
        projected_path(relative)
    }
}

/// Whether a base is what was declared.
pub open spec fn base_is(
    base: ModuleSourceBase,
    declared: Seq<char>,
    hidden: bool,
    target: Option<&str>,
) -> bool {
    let relative = base_relative(declared, hidden);
    let allocated = relative.len() == 0 || allocated_components(pieces(relative, '/'));
    &&& base.declared@ == declared
    &&& base.expanded@ == expanded_selector(declared)
    &&& base.physical@ == base_directory(declared, hidden)
    &&& base.logical@ == logical_base(relative)
    &&& base.hidden == hidden
    &&& match target {
        Some(text) => base.target matches Some(t) && t@ == text@,
        None => if allocated {
            base.target matches Some(t) && t@ == logical_base(relative)
        } else {
            base.target is None
        },
    }
}

fn relative_part(selector: &CompiledSelector) -> (r: String)
    ensures
        r@ == if selector.physical@ == "."@ {
            Seq::empty()
        } else {
            selector.physical@
        },
{
    if same(selector.physical.as_str(), ".") {
        String::new()
    } else {
        selector.physical.clone()
    }
}

fn directory_of(relative: &str) -> (r: String)
    ensures
        r@ == if relative@.len() == 0 {
            "src"@
        } else {
            "src/"@ + relative@
        },
{
    if relative.is_empty() {
        "src".to_string()
    } else {
        cat2("src/", relative)
    }
}

/// Checks a base before it is looked at. Returns the directory to look at.
pub fn module_base_path(
    registry: &ModuleRegistry,
    declared: &str,
    hidden: bool,
    location: &Location,
) -> (r: Result<String>)
    requires
        registry.wf(),
    ensures
        reports(r, base_problem(*registry, declared@, hidden, location.trace.text())),
        r matches Ok(path) ==> path@ == base_directory(declared@, hidden),
{
    let selector = compile_selector(declared, hidden)?;
    if selector.glob {
        return Err(
            WombatError::configuration(
                "w.module.from() requires an exact source directory, not a glob",
            ),
        );
    }
    let name = match registry.active_module() {
        Some(name) => name,
        None => {
            return Err(
                WombatError::configuration(
                    "w.module.from() may only be called from a selected module",
                ),
            );
        },
    };
    let index = registry.active_index();
    if registry.records[index].1.declarations_started {
        return Err(
            WombatError::Configuration(
                cat2(
                    "w.module.from() must run before artifact or task declarations at ",
                    location.display().as_str(),
                ),
            ),
        );
    }
    if registry.records[index].1.source_base.is_some() {
        return Err(
            WombatError::Configuration(
                cat3("module `", name, "` declares w.module.from() more than once"),
            ),
        );
    }
    Ok(directory_of(relative_part(&selector).as_str()))
}

fn project_base(relative: &str, hidden: bool) -> (r: Result<(String, bool)>)
    ensures
        reports(
            r,
            if relative@.len() == 0 {
                None
            } else {
                projection_problem(relative@, hidden)
            },
        ),
        r matches Ok(read) ==> read.0@ == logical_base(relative@) && read.1 == (relative@.len()
            == 0 || allocated_components(pieces(relative@, '/'))),
{
    if relative.is_empty() {
        return Ok((String::new(), true));
    }
    let projection = project_physical(relative, hidden)?;
    Ok((projection.logical, projection.allocated))
}

/// Declares where the sources of the active module start, once, before it declares
/// anything else. `found` is what stands at the directory.
pub fn declare_module_from(
    registry: &mut ModuleRegistry,
    declared: &str,
    hidden: bool,
    explicit_target: Option<&str>,
    location: &Location,
    found: &std::result::Result<EntryKind, String>,
) -> (r: Result<()>)
    requires
        old(registry).wf(),
    ensures
        settles(
            r,
            either(
                configured(
                    base_problem(*old(registry), declared@, hidden, location.trace.text()),
                ),
                found_problem(declared@, hidden, explicit_target, *found),
            ),
        ),
        r is Err ==> *final(registry) == *old(registry),
        r is Ok ==> {
            let i = choose|i: int| record_at(old(registry).records@, old(registry).active()->0, i);
            let base = final(registry).records@[i].1.source_base;
            &&& base is Some && base_is(base->0, declared@, hidden, explicit_target)
            &&& final(registry).records@ == old(registry).records@.update(
                i,
                (
                    old(registry).records@[i].0,
                    (ModuleRecord { source_base: base, ..old(registry).records@[i].1 }),
                ),
            )
            &&& final(registry).stack == old(registry).stack
            &&& final(registry).dependencies == old(registry).dependencies
            &&& final(registry).root_policy_started == old(registry).root_policy_started
        },
        final(registry).wf(),
{
    let physical = module_base_path(registry, declared, hidden, location)?;
    let selector = compile_selector(declared, hidden)?;
    let relative = relative_part(&selector);
    match found {
        Err(message) => {
            return Err(WombatError::Io(message.clone()));
        },
        Ok(kind) => {
            if *kind != EntryKind::Directory {
                return Err(
                    WombatError::Configuration(
                        cat3(
                            "module source base `",
                            physical.as_str(),
                            "` must be a directory",
                        ),
                    ),
                );
            }
        },
    }
    let (logical, allocated) = project_base(relative.as_str(), hidden)?;
    let target = match explicit_target {
        Some(text) => Some(parse_explicit_target_root(text)?.path),
        None => {
            if allocated {
                Some(logical.clone())
            } else {
                None
            }
        },
    };
    let ghost before = *registry;
    let index = registry.active_index();
    let base = ModuleSourceBase {
        declared: declared.to_string(),
        expanded: selector.expanded,
        physical,
        logical,
        target,
        hidden,
    };
    assert(base_is(base, declared@, hidden, explicit_target));
    registry.records[index].1.source_base = Some(base);
    proof {
        assert(names(registry.records@) =~= names(before.records@));
        assert forall|k: int| 0 <= k < registry.stack@.len() implies has_record(
            registry.records@,
            (#[trigger] registry.stack@[k])@,
        ) by {
            assert(has_record(before.records@, before.stack@[k]@));
            let j = choose|j: int| record_at(before.records@, before.stack@[k]@, j);
            assert(names(before.records@)[j] == names(registry.records@)[j]);
            assert(record_at(registry.records@, registry.stack@[k]@, j));
        }
    }
    Ok(())
}

} // verus!
