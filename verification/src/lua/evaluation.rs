//! The evaluation of modules, one inside the other.
use vstd::prelude::*;
use vstd::string::*;

use crate::error::{reports, Noted, Result, WombatError};
use crate::lua::state::{
    has_record, lemma_one_record, names, record_at, EvaluationState, ModuleRecord, ModuleRegistry,
};
use crate::model::frozen::FrozenValue;
use crate::model::manifest::{Dependency, DependencyKind};
use crate::model::source::EntryKind;
use crate::order::ascending;
use crate::text::{
    cat2, cat3, cat4, join, joined, lemma_pieces, pieces, position, push_text, same, split,
    strip_suffix, views,
};

verus! {

/// Whether a path is that of the file of a module: its last component is the name of
/// the module behind which `.lua` stands.
pub open spec fn file_of(path: Seq<char>, name: Seq<char>) -> bool {
    pieces(path, '/').last() == name + ".lua"@ && name.len() > 0
}

fn is_file_of(path: &str, name: &str) -> (r: bool)
    ensures
        r == file_of(path@, name@),
{
    let parts = split(path, '/');
    assert(parts@.len() == views(parts@).len());
    proof {
        lemma_pieces(path@, '/');
    }
    assert(views(parts@).last() == parts@.last()@);
    same(parts[parts.len() - 1].as_str(), cat2(name, ".lua").as_str()) && !name.is_empty()
}

/// The files of a module.
pub open spec fn files_of(files: Seq<Seq<char>>, name: Seq<char>) -> Seq<Seq<char>>
    decreases files.len(),
{
    if files.len() == 0 {
        Seq::empty()
    } else {
        let rest = files_of(files.drop_last(), name);
        if file_of(files.last(), name) {
            rest.push(files.last())
        } else {
            rest
        }
    }
}

/// What is wrong with the files of a module: there must be one.
pub open spec fn files_problem(files: Seq<Seq<char>>, name: Seq<char>) -> Option<Seq<char>> {
    let own = files_of(files, name);
    if own.len() == 0 {
        Some("module `"@ + name + "` was not found beneath `modules/`"@)
    } else if own.len() == 1 {
        None
    } else {
        Some(
            "module id `"@ + name + "` is duplicated by filename stem: "@ + joined(own, ", "@),
        )
    }
}

/// Finds the file of a module among those beneath the directory of modules.
pub fn resolve_module(files: &Vec<String>, name: &str) -> (r: Result<String>)
    ensures
        reports(r, files_problem(views(files@), name@)),
        r matches Ok(file) ==> files_of(views(files@), name@) == seq![file@],
{
    let ghost all = views(files@);
    let mut own: Vec<String> = Vec::new();
    let mut i: usize = 0;
    assert(views(own@) =~= Seq::empty());
    assert(all.take(0) =~= Seq::empty());
    while i < files.len()
        invariant
            0 <= i <= files@.len(),
            all == views(files@),
            views(own@) == files_of(all.take(i as int), name@),
        decreases files@.len() - i,
    {
        assert(all[i as int] == files@[i as int]@);
        assert(all.take(i + 1).drop_last() =~= all.take(i as int));
        assert(all.take(i + 1).last() == all[i as int]);
        if is_file_of(files[i].as_str(), name) {
            push_text(&mut own, files[i].as_str());
        }
        i += 1;
    }
    assert(all.take(i as int) =~= all);
    assert(own@.len() == views(own@).len());
    if own.len() == 0 {
        return Err(
            WombatError::Configuration(
                cat3("module `", name, "` was not found beneath `modules/`"),
            ),
        );
    }
    if own.len() == 1 {
        assert(views(own@)[0] == own@[0]@);
        assert(views(own@) =~= seq![own@[0]@]);
        return Ok(own[0].clone());
    }
    Err(
        WombatError::Configuration(
            cat4(
                "module id `",
                name,
                "` is duplicated by filename stem: ",
                join(&own, ", ").as_str(),
            ),
        ),
    )
}

/// What to do with something beneath the directory of modules.
#[derive(Clone, Copy, Debug, PartialEq, Eq, Structural)]
pub enum ModuleEntry {
    /// Look into it
    Enter,
    /// It may be the file of a module
    Take,
    /// It is something else
    Pass,
}

/// Whether a path is that of a Lua file.
pub open spec fn lua_file(path: Seq<char>) -> bool {
    let name = pieces(path, '/').last();
    exists|stem: Seq<char>| stem.len() > 0 && name == #[trigger] (stem + ".lua"@)
}

fn is_lua_file(path: &str) -> (r: bool)
    ensures
        r == lua_file(path@),
{
    let parts = split(path, '/');
    assert(parts@.len() == views(parts@).len());
    proof {
        lemma_pieces(path@, '/');
    }
    assert(views(parts@).last() == parts@.last()@);
    let name = parts[parts.len() - 1].as_str();
    match strip_suffix(name, ".lua") {
        Some(stem) => {
            assert(name@ =~= stem@ + ".lua"@);
            if stem.as_str().is_empty() {
                proof {
                    assert forall|other: Seq<char>| other.len() > 0 implies name@
                        != #[trigger] (other + ".lua"@) by {
                        assert((other + ".lua"@).len() == other.len() + ".lua"@.len());
                    }
                }
                return false;
            }
            true
        },
        None => {
            proof {
                assert forall|other: Seq<char>| other.len() > 0 implies name@
                    != #[trigger] (other + ".lua"@) by {
                    if name@ == other + ".lua"@ {
                        assert(name@.skip(name@.len() - ".lua"@.len()) =~= ".lua"@);
                        assert(".lua"@.is_suffix_of(name@));
                    }
                }
            }
            false
        },
    }
}

/// What is wrong with something beneath the directory of modules.
pub open spec fn entry_problem(path: Seq<char>, kind: EntryKind) -> Option<Seq<char>> {
    match kind {
        EntryKind::Symlink => Some("module path `"@ + path + "` must not be a symbolic link"@),
        EntryKind::Directory => None,
        EntryKind::File => None,
        _ => Some("module path `"@ + path + "` must be a regular file or directory"@),
    }
}

/// Decides what to do with something beneath the directory of modules.
pub fn collect_module_file(path: &str, kind: EntryKind) -> (r: Result<ModuleEntry>)
    ensures
        reports(r, entry_problem(path@, kind)),
        r matches Ok(entry) ==> entry == if kind == EntryKind::Directory {
            ModuleEntry::Enter
        } else if lua_file(path@) {
            ModuleEntry::Take
        } else {
            ModuleEntry::Pass
        },
{
    match kind {
        EntryKind::Symlink => Err(
            WombatError::Configuration(
                cat3("module path `", path, "` must not be a symbolic link"),
            ),
        ),
        EntryKind::Directory => Ok(ModuleEntry::Enter),
        EntryKind::File => {
            if is_lua_file(path) {
                Ok(ModuleEntry::Take)
            } else {
                Ok(ModuleEntry::Pass)
            }
        },
        _ => Err(
            WombatError::Configuration(
                cat3("module path `", path, "` must be a regular file or directory"),
            ),
        ),
    }
}

/// The first module that was selected and not evaluated.
pub open spec fn next_selected(records: Seq<(String, ModuleRecord)>) -> Option<Seq<char>>
    decreases records.len(),
{
    if records.len() == 0 {
        None
    } else if records[0].1.state == EvaluationState::Selected {
        Some(records[0].0@)
    } else {
        next_selected(records.skip(1))
    }
}

/// Finds the module that is evaluated next.
pub fn next_module(registry: &ModuleRegistry) -> (r: Option<String>)
    ensures
        match r {
            Some(name) => next_selected(registry.records@) == Some(name@) && has_record(
                registry.records@,
                name@,
            ),
            None => next_selected(registry.records@) is None,
        },
{
    let mut i: usize = 0;
    assert(registry.records@.skip(0) =~= registry.records@);
    while i < registry.records.len()
        invariant
            0 <= i <= registry.records@.len(),
            next_selected(registry.records@) == next_selected(registry.records@.skip(i as int)),
        decreases registry.records@.len() - i,
    {
        assert(registry.records@.skip(i as int)[0] == registry.records@[i as int]);
        assert(registry.records@.skip(i as int).skip(1) =~= registry.records@.skip(i + 1));
        if registry.records[i].1.state == EvaluationState::Selected {
            assert(record_at(registry.records@, registry.records@[i as int].0@, i as int));
            return Some(registry.records[i].0.clone());
        }
        i += 1;
    }
    None
}

/// The record of a module.
pub open spec fn record_of(registry: ModuleRegistry, name: Seq<char>) -> ModuleRecord {
    registry.records@[choose|i: int| record_at(registry.records@, name, i)].1
}

/// Where a name first stands in a list, or the beginning where it does not.
pub open spec fn first_place(list: Seq<Seq<char>>, name: Seq<char>) -> int
    decreases list.len(),
{
    if list.len() == 0 || !list.contains(name) {
        0
    } else if list[0] == name {
        0
    } else {
        1 + first_place(list.skip(1), name)
    }
}

/// The modules that are being evaluated from one on, and that one again.
pub open spec fn cycle_from(stack: Seq<Seq<char>>, name: Seq<char>) -> Seq<Seq<char>> {
    stack.skip(first_place(stack, name)).push(name)
}

proof fn lemma_first_place(list: Seq<Seq<char>>, name: Seq<char>, at: int)
    requires
        0 <= at < list.len(),
        list[at] == name,
        forall|j: int| 0 <= j < at ==> list[j] != name,
    ensures
        first_place(list, name) == at,
    decreases list.len(),
{
    assert(list.contains(name));
    if at > 0 {
        assert(list[0] != name);
        assert(list.skip(1)[at - 1] == list[at]);
        assert forall|j: int| 0 <= j < at - 1 implies list.skip(1)[j] != name by {
            assert(list.skip(1)[j] == list[j + 1]);
        }
        lemma_first_place(list.skip(1), name, at - 1);
    }
}

/// Writes down the modules that are being evaluated from one on, and that one again.
pub fn name_cycle(stack: &Vec<String>, name: &str) -> (r: Vec<String>)
    ensures
        views(r@) == cycle_from(views(stack@), name@),
{
    let ghost all = views(stack@);
    let start = match position(stack, name) {
        Some(start) => {
            proof {
                assert(all[start as int] == stack@[start as int]@);
                assert forall|j: int| 0 <= j < start implies all[j] != name@ by {
                    assert(all[j] == stack@[j]@);
                }
                lemma_first_place(all, name@, start as int);
            }
            start
        },
        None => 0,
    };
    let mut r: Vec<String> = Vec::new();
    let mut i: usize = start;
    assert(views(r@) =~= all.subrange(start as int, start as int));
    while i < stack.len()
        invariant
            start <= i <= stack@.len(),
            all == views(stack@),
            all.len() == stack@.len(),
            views(r@) == all.subrange(start as int, i as int),
        decreases stack@.len() - i,
    {
        assert(all[i as int] == stack@[i as int]@);
        push_text(&mut r, stack[i].as_str());
        assert(all.subrange(start as int, i + 1) =~= all.subrange(start as int, i as int).push(
            all[i as int],
        ));
        i += 1;
    }
    assert(all.subrange(start as int, i as int) =~= all.skip(start as int));
    push_text(&mut r, name);
    r
}

/// What is wrong with evaluating a module.
pub open spec fn evaluation_problem(registry: ModuleRegistry, name: Seq<char>) -> Option<Seq<char>> {
    if !has_record(registry.records@, name) {
        Some("module `"@ + name + "` was not selected"@)
    } else {
        match record_of(registry, name).state {
            EvaluationState::Evaluating => Some(
                "module cycle: "@ + joined(cycle_from(views(registry.stack@), name), " -> "@),
            ),
            EvaluationState::Failed => Some(
                "module `"@ + name + "` previously failed to evaluate"@,
            ),
            _ => None,
        }
    }
}

/// Whether a module has a file already.
pub open spec fn located(registry: ModuleRegistry, name: Seq<char>) -> bool {
    has_record(registry.records@, name) && record_of(registry, name).location is Some
}

/// Whether a registry differs only in the record of a module.
pub open spec fn record_changed(
    before: ModuleRegistry,
    after: ModuleRegistry,
    name: Seq<char>,
    record: ModuleRecord,
) -> bool {
    let i = choose|i: int| record_at(before.records@, name, i);
    &&& after.records@ == before.records@.update(i, (before.records@[i].0, record))
    &&& after.dependencies == before.dependencies
    &&& after.root_policy_started == before.root_policy_started
}

proof fn lemma_record_kept(before: ModuleRegistry, after: ModuleRegistry, at: int)
    requires
        ascending(names(before.records@)),
        0 <= at < before.records@.len(),
        after.records@.len() == before.records@.len(),
        forall|j: int|
            0 <= j < before.records@.len() ==> (#[trigger] after.records@[j]).0
                == before.records@[j].0,
    ensures
        ascending(names(after.records@)),
        forall|name: Seq<char>|
            has_record(before.records@, name) ==> #[trigger] has_record(after.records@, name),
{
    assert(names(after.records@) =~= names(before.records@));
    assert forall|name: Seq<char>| has_record(before.records@, name) implies #[trigger] has_record(
        after.records@,
        name,
    ) by {
        let j = choose|j: int| record_at(before.records@, name, j);
        assert(record_at(after.records@, name, j));
    }
}

/// Begins to evaluate a module, unless it was evaluated. `resolved` is its file, as
/// far as it could be found; it matters only where none is known. Returns whether it
/// is to be evaluated.
pub fn begin_module(registry: &mut ModuleRegistry, name: &str, resolved: Result<String>) -> (r: Result<
    bool,
>)
    requires
        old(registry).wf(),
    ensures
        final(registry).wf(),
        if !located(*old(registry), name@) && resolved is Err {
            r is Err && r->Err_0 == resolved->Err_0 && *final(registry) == *old(registry)
        } else {
            &&& reports(r, evaluation_problem(*old(registry), name@))
            &&& r is Err ==> *final(registry) == *old(registry)
            &&& r matches Ok(begun) ==> {
                let before = record_of(*old(registry), name@);
                &&& begun == (before.state == EvaluationState::Selected)
                &&& !begun ==> *final(registry) == *old(registry)
                &&& begun ==> {
                    let after = record_of(*final(registry), name@);
                    &&& record_changed(*old(registry), *final(registry), name@, after)
                    &&& after == (ModuleRecord {
                        state: EvaluationState::Evaluating,
                        location: after.location,
                        ..before
                    })
                    &&& after.location is Some && after.location->0@ == (match before.location {
                        Some(file) => file@,
                        None => resolved->Ok_0@,
                    })
                    &&& views(final(registry).stack@) == views(old(registry).stack@).push(name@)
                }
            }
        },
{
    let ghost before = *registry;
    let place = registry.find(name);
    let known = match place {
        Some(i) => {
            proof {
                lemma_one_record(before.records@, name@, i as int);
            }
            crate::model::manifest::copy_text(&registry.records[i].1.location)
        },
        None => None,
    };
    let file = match known {
        Some(file) => file,
        None => resolved?,
    };
    let i = match place {
        Some(i) => i,
        None => {
            return Err(
                WombatError::Configuration(cat3("module `", name, "` was not selected")),
            );
        },
    };
    match registry.records[i].1.state {
        EvaluationState::Evaluated => {
            return Ok(false);
        },
        EvaluationState::Evaluating => {
            let cycle = name_cycle(&registry.stack, name);
            return Err(
                WombatError::Configuration(cat2("module cycle: ", join(&cycle, " -> ").as_str())),
            );
        },
        EvaluationState::Failed => {
            return Err(
                WombatError::Configuration(
                    cat3("module `", name, "` previously failed to evaluate"),
                ),
            );
        },
        EvaluationState::Selected => {},
    }
    registry.records[i].1.location = Some(file);
    registry.records[i].1.state = EvaluationState::Evaluating;
    push_text(&mut registry.stack, name);
    proof {
        lemma_record_kept(before, *registry, i as int);
        assert(record_at(registry.records@, name@, i as int));
        lemma_one_record(registry.records@, name@, i as int);
        assert(has_record(before.records@, name@));
        assert(registry.records@ =~= before.records@.update(
            i as int,
            (before.records@[i as int].0, registry.records@[i as int].1),
        ));
        assert forall|k: int| 0 <= k < registry.stack@.len() implies has_record(
            registry.records@,
            (#[trigger] registry.stack@[k])@,
        ) by {
            assert(views(before.stack@).len() == before.stack@.len());
            assert(views(registry.stack@).len() == registry.stack@.len());
            assert(views(registry.stack@)[k] == registry.stack@[k]@);
            if k < before.stack@.len() {
                assert(views(before.stack@)[k] == before.stack@[k]@);
                assert(views(registry.stack@)[k] == views(before.stack@)[k]);
                assert(has_record(before.records@, before.stack@[k]@));
                assert(has_record(registry.records@, before.stack@[k]@));
            } else {
                assert(views(registry.stack@)[k] == name@);
                assert(has_record(registry.records@, name@));
            }
        }
    }
    Ok(true)
}

/// The first place where a module was selected.
pub open spec fn selection_of(dependencies: Seq<Dependency>, name: Seq<char>) -> Option<Seq<char>>
    decreases dependencies.len(),
{
    if dependencies.len() == 0 {
        None
    } else if dependencies[0].kind == DependencyKind::Use && dependencies[0].to@ == name {
        Some(dependencies[0].declared_at.text())
    } else {
        selection_of(dependencies.skip(1), name)
    }
}

fn find_selection(dependencies: &Vec<Dependency>, name: &str) -> (r: Option<String>)
    ensures
        match r {
            Some(place) => selection_of(dependencies@, name@) == Some(place@),
            None => selection_of(dependencies@, name@) is None,
        },
{
    let mut i: usize = 0;
    assert(dependencies@.skip(0) =~= dependencies@);
    while i < dependencies.len()
        invariant
            0 <= i <= dependencies@.len(),
            selection_of(dependencies@, name@) == selection_of(
                dependencies@.skip(i as int),
                name@,
            ),
        decreases dependencies@.len() - i,
    {
        assert(dependencies@.skip(i as int)[0] == dependencies@[i as int]);
        assert(dependencies@.skip(i as int).skip(1) =~= dependencies@.skip(i + 1));
        if dependencies[i].kind == DependencyKind::Use && same(dependencies[i].to.as_str(), name) {
            return Some(dependencies[i].declared_at.display());
        }
        i += 1;
    }
    None
}

/// Whether an error is handed on with where the module was selected.
pub open spec fn noted_selection(
    r: std::result::Result<(), Noted>,
    error: WombatError,
    place: Option<Seq<char>>,
    name: Seq<char>,
) -> bool {
    &&& r is Err
    &&& r->Err_0.error == error
    &&& match place {
        Some(place) => r->Err_0.note is Some && r->Err_0.note->0@ == "module `"@ + name
            + "` was selected at "@ + place,
        None => r->Err_0.note is None,
    }
}

/// Ends the evaluation of the module that was begun last: keeps what it exports, or
/// that it failed.
pub fn finish_module(registry: &mut ModuleRegistry, outcome: Result<FrozenValue>) -> (r: std::result::Result<
    (),
    Noted,
>)
    requires
        old(registry).wf(),
        old(registry).active() is Some,
    ensures
        final(registry).wf(),
        final(registry).stack@ == old(registry).stack@.drop_last(),
        ({
            let name = old(registry).active()->0;
            let before = record_of(*old(registry), name);
            match outcome {
                Ok(export) => r is Ok && record_changed(
                    *old(registry),
                    *final(registry),
                    name,
                    (ModuleRecord {
                        export: Some(export),
                        state: EvaluationState::Evaluated,
                        ..before
                    }),
                ),
                Err(error) => noted_selection(
                    r,
                    error,
                    selection_of(old(registry).dependencies@, name),
                    name,
                ) && record_changed(
                    *old(registry),
                    *final(registry),
                    name,
                    (ModuleRecord { state: EvaluationState::Failed, ..before }),
                ),
            }
        }),
{
    let ghost before = *registry;
    let i = registry.active_index();
    let name = registry.stack[registry.stack.len() - 1].clone();
    registry.stack.pop();
    let r = match outcome {
        Ok(export) => {
            registry.records[i].1.export = Some(export);
            registry.records[i].1.state = EvaluationState::Evaluated;
            Ok(())
        },
        Err(error) => {
            registry.records[i].1.state = EvaluationState::Failed;
            let note = match find_selection(&registry.dependencies, name.as_str()) {
                Some(place) => Some(
                    cat4("module `", name.as_str(), "` was selected at ", place.as_str()),
                ),
                None => None,
            };
            Err(Noted { error, note })
        },
    };
    proof {
        lemma_record_kept(before, *registry, i as int);
        lemma_one_record(before.records@, name@, i as int);
        assert(registry.records@ =~= before.records@.update(
            i as int,
            (before.records@[i as int].0, registry.records@[i as int].1),
        ));
        assert forall|k: int| 0 <= k < registry.stack@.len() implies has_record(
            registry.records@,
            (#[trigger] registry.stack@[k])@,
        ) by {
            assert(registry.stack@[k] == before.stack@[k]);
            assert(has_record(before.records@, before.stack@[k]@));
        }
    }
    r
}

} // verus!
