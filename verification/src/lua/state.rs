//! What evaluation has gathered so far.
use vstd::prelude::*;
use vstd::string::*;

use crate::model::frozen::FrozenValue;
use crate::model::ladder::ExecutionLadder;
use crate::model::manifest::{
    copy_text, ArtifactNotice, ArtifactPolicy, ArtifactSelection, Dependency, EvaluatedArtifact,
    EvaluatedDirectory, EvaluatedTask, ModuleSourceBase, Provider, Requirement, Script, SourceFile,
    SourceTrace, TaskRunner,
};
use crate::model::source::SourceFingerprint;
use crate::order::{ascending, before, lemma_asymmetric, precedes};
use crate::text::same;

verus! {

/// The owner of what the root configuration declares.
pub open spec fn root_module() -> Seq<char> {
    "<root>"@
}

/// The place of a declaration.
#[derive(Debug, PartialEq)]
pub struct Location {
    /// The declaration and its callers
    pub trace: SourceTrace,
}

impl Location {
    /// The place as messages write it.
    pub fn display(&self) -> (r: String)
        ensures
            r@ == self.trace.text(),
    {
        self.trace.display()
    }

    /// Another one of the same place.
    pub fn copy(&self) -> (r: Location)
        ensures
            r.trace.same(self.trace),
    {
        Location { trace: self.trace.copy() }
    }
}

/// A source file that evaluation has read.
#[derive(Debug, PartialEq)]
pub struct TrackedSource {
    /// Its path and digest
    pub manifest: SourceFile,
    /// What tells whether it has changed
    pub fingerprint: SourceFingerprint,
    /// Its text
    pub snapshot: String,
}

/// How far the evaluation of a module has come.
#[derive(Clone, Copy, Debug, PartialEq, Eq, Structural)]
pub enum EvaluationState {
    /// It was selected
    Selected,
    /// It is being evaluated
    Evaluating,
    /// It was evaluated
    Evaluated,
    /// Its evaluation failed
    Failed,
}

/// The configuration that root policy gave a module.
#[derive(Debug, PartialEq)]
pub struct ExplicitConfig {
    /// The configuration
    pub value: FrozenValue,
    /// Where it was given
    pub locations: Vec<Location>,
}

/// A selected module.
#[derive(Debug, PartialEq)]
pub struct ModuleRecord {
    /// Its configuration
    pub explicit_config: Option<ExplicitConfig>,
    /// How far its evaluation has come
    pub state: EvaluationState,
    /// What it exports
    pub export: Option<FrozenValue>,
    /// Its file, relative to the repository
    pub location: Option<String>,
    /// Where its sources start
    pub source_base: Option<ModuleSourceBase>,
    /// Whether it has declared something that depends on that
    pub declarations_started: bool,
}

/// Whether a record is that of a module that was only selected.
pub open spec fn only_selected(record: ModuleRecord) -> bool {
    &&& record.explicit_config is None
    &&& record.state == EvaluationState::Selected
    &&& record.export is None
    &&& record.location is None
    &&& record.source_base is None
    &&& !record.declarations_started
}

impl ModuleRecord {
    /// A module that was only selected.
    pub fn selected() -> (r: ModuleRecord)
        ensures
            only_selected(r),
    {
        ModuleRecord {
            explicit_config: None,
            state: EvaluationState::Selected,
            export: None,
            location: None,
            source_base: None,
            declarations_started: false,
        }
    }

    /// The JSON form of the configuration: an empty map where none was given.
    pub open spec fn config_tree(self) -> crate::json::JsonTree {
        match self.explicit_config {
            Some(config) => config.value.tree(),
            None => crate::json::object_tree(Seq::empty()),
        }
    }

    /// The configuration, or an empty map where none was given.
    pub fn config(&self) -> (r: FrozenValue)
        ensures
            r.tree() == self.config_tree(),
    {
        match &self.explicit_config {
            Some(config) => config.value.copy(),
            None => FrozenValue::empty_map(),
        }
    }
}

/// The names of the modules.
pub open spec fn names(records: Seq<(String, ModuleRecord)>) -> Seq<Seq<char>> {
    records.map_values(|r: (String, ModuleRecord)| r.0@)
}

/// Whether the record at `index` is that of the module.
pub open spec fn record_at(
    records: Seq<(String, ModuleRecord)>,
    name: Seq<char>,
    index: int,
) -> bool {
    0 <= index < records.len() && records[index].0@ == name
}

/// Whether a module was selected.
pub open spec fn has_record(records: Seq<(String, ModuleRecord)>, name: Seq<char>) -> bool {
    exists|i: int| record_at(records, name, i)
}

/// The modules and how they depend on each other.
#[derive(Debug, PartialEq)]
pub struct ModuleRegistry {
    /// The modules that are being evaluated, the innermost last
    pub stack: Vec<String>,
    /// The selected modules, in the order of their names
    pub records: Vec<(String, ModuleRecord)>,
    /// The dependencies, in their order
    pub dependencies: Vec<Dependency>,
    /// Whether root policy has gone past its opening declarations
    pub root_policy_started: bool,
}

impl ModuleRegistry {
    /// Whether the modules stand in order and those that are being evaluated were
    /// selected.
    pub open spec fn wf(self) -> bool {
        &&& ascending(names(self.records@))
        &&& forall|i: int|
            0 <= i < self.stack@.len() ==> has_record(
                self.records@,
                (#[trigger] self.stack@[i])@,
            )
    }

    /// The module that is being evaluated.
    pub open spec fn active(self) -> Option<Seq<char>> {
        if self.stack@.len() == 0 {
            None
        } else {
            Some(self.stack@.last()@)
        }
    }

    /// The owner of what is declared now.
    pub open spec fn owner(self) -> Seq<char> {
        match self.active() {
            Some(name) => name,
            None => root_module(),
        }
    }

    /// Where the sources of the module that is being evaluated start.
    pub open spec fn base(self) -> Option<ModuleSourceBase> {
        match self.active() {
            Some(name) => self.records@[choose|i: int|
                record_at(self.records@, name, i)].1.source_base,
            None => None,
        }
    }

    /// The directory that sources are looked up in.
    pub open spec fn base_path(self) -> Seq<char> {
        match self.base() {
            Some(base) => base.physical@,
            None => "src"@,
        }
    }

    /// The logical name of that directory.
    pub open spec fn base_logical(self) -> Seq<char> {
        match self.base() {
            Some(base) => base.logical@,
            None => Seq::empty(),
        }
    }

    /// The target of that directory.
    pub open spec fn base_target(self) -> Option<Seq<char>> {
        match self.base() {
            Some(base) => match base.target {
                Some(target) => Some(target@),
                None => None,
            },
            None => Some(Seq::empty()),
        }
    }

    /// Whether that directory is hidden.
    pub open spec fn base_hidden(self) -> bool {
        match self.base() {
            Some(base) => base.hidden,
            None => false,
        }
    }

    /// The module that is being evaluated.
    pub fn active_module(&self) -> (r: Option<&str>)
        ensures
            match r {
                Some(name) => self.active() == Some(name@),
                None => self.active() is None,
            },
    {
        if self.stack.len() == 0 {
            None
        } else {
            Some(self.stack[self.stack.len() - 1].as_str())
        }
    }

    /// The owner of what is declared now.
    pub fn current_owner(&self) -> (r: String)
        ensures
            r@ == self.owner(),
    {
        match self.active_module() {
            Some(name) => name.to_owned(),
            None => "<root>".to_owned(),
        }
    }

    /// Where the record of a module stands.
    pub fn find(&self, name: &str) -> (r: Option<usize>)
        ensures
            r matches Some(i) ==> record_at(self.records@, name@, i as int),
            r is None ==> !has_record(self.records@, name@),
    {
        let mut i: usize = 0;
        while i < self.records.len()
            invariant
                0 <= i <= self.records@.len(),
                forall|j: int| 0 <= j < i ==> !record_at(self.records@, name@, j),
            decreases self.records@.len() - i,
        {
            if same(self.records[i].0.as_str(), name) {
                return Some(i);
            }
            i += 1;
        }
        None
    }

    /// Where sources are looked up now, and what follows from it.
    pub fn active_location(&self) -> (r: SourceBase)
        requires
            self.wf(),
        ensures
            r.path@ == self.base_path(),
            r.logical@ == self.base_logical(),
            match r.target {
                Some(target) => self.base_target() == Some(target@),
                None => self.base_target() is None,
            },
            r.hidden == self.base_hidden(),
    {
        if let Some(name) = self.active_module() {
            proof {
                assert(has_record(self.records@, self.stack@[self.stack@.len() - 1]@));
            }
            if let Some(i) = self.find(name) {
                proof {
                    lemma_one_record(self.records@, name@, i as int);
                }
                if let Some(base) = &self.records[i].1.source_base {
                    return SourceBase {
                        path: base.physical.clone(),
                        logical: base.logical.clone(),
                        target: copy_text(&base.target),
                        hidden: base.hidden,
                    };
                }
            }
        }
        SourceBase {
            path: "src".to_owned(),
            logical: String::new(),
            target: Some(String::new()),
            hidden: false,
        }
    }
}

impl ModuleRegistry {
    /// The record of the module that is being evaluated.
    pub open spec fn active_record(self) -> ModuleRecord {
        self.records@[choose|i: int| record_at(self.records@, self.active()->0, i)].1
    }

    /// Where that record stands.
    pub fn active_index(&self) -> (r: usize)
        requires
            self.wf(),
            self.active() is Some,
        ensures
            record_at(self.records@, self.active()->0, r as int),
            r == (choose|i: int| record_at(self.records@, self.active()->0, i)),
            self.active_record() == self.records@[r as int].1,
    {
        let name = self.stack[self.stack.len() - 1].as_str();
        assert(has_record(self.records@, self.stack@[self.stack@.len() - 1]@));
        match self.find(name) {
            Some(i) => {
                proof {
                    lemma_one_record(self.records@, name@, i as int);
                }
                i
            },
            None => 0,
        }
    }

    /// The records after the active module has begun to declare.
    pub open spec fn started_records(self) -> Seq<(String, ModuleRecord)> {
        match self.active() {
            Some(name) => {
                let i = choose|i: int| record_at(self.records@, name, i);
                self.records@.update(
                    i,
                    (
                        self.records@[i].0,
                        (ModuleRecord { declarations_started: true, ..self.records@[i].1 }),
                    ),
                )
            },
            None => self.records@,
        }
    }

    /// Notes that the active module has begun to declare.
    pub fn mark_started(&mut self)
        requires
            old(self).wf(),
        ensures
            final(self).records@ == old(self).started_records(),
            final(self).stack == old(self).stack,
            final(self).dependencies == old(self).dependencies,
            final(self).root_policy_started == old(self).root_policy_started,
            final(self).wf(),
    {
        let ghost before = *self;
        let place = match self.active_module() {
            Some(name) => self.find(name),
            None => None,
        };
        proof {
            if before.active() is Some {
                assert(has_record(before.records@, before.stack@[before.stack@.len() - 1]@));
            }
        }
        if let Some(i) = place {
            proof {
                lemma_one_record(before.records@, before.active()->0, i as int);
            }
            self.records[i].1.declarations_started = true;
            proof {
                assert(names(self.records@) =~= names(before.records@));
                assert forall|k: int| 0 <= k < self.stack@.len() implies has_record(
                    self.records@,
                    (#[trigger] self.stack@[k])@,
                ) by {
                    assert(has_record(before.records@, before.stack@[k]@));
                    let j = choose|j: int| record_at(before.records@, before.stack@[k]@, j);
                    assert(names(before.records@)[j] == names(self.records@)[j]);
                    assert(record_at(self.records@, self.stack@[k]@, j));
                }
            }
        }
    }
}

/// A module has one record.
pub proof fn lemma_one_record(records: Seq<(String, ModuleRecord)>, name: Seq<char>, index: int)
    requires
        ascending(names(records)),
        record_at(records, name, index),
    ensures
        forall|j: int| record_at(records, name, j) ==> j == index,
        (choose|i: int| record_at(records, name, i)) == index,
{
    let chosen = choose|i: int| record_at(records, name, i);
    assert(record_at(records, name, chosen));
    assert forall|j: int| record_at(records, name, j) implies j == index by {
        if j < index {
            assert(precedes(names(records)[j], names(records)[index]));
            lemma_asymmetric(names(records)[j], names(records)[index]);
        } else if index < j {
            assert(precedes(names(records)[index], names(records)[j]));
            lemma_asymmetric(names(records)[index], names(records)[j]);
        }
    }
}

/// Where sources are looked up.
#[derive(Debug, PartialEq)]
pub struct SourceBase {
    /// The directory, relative to the repository
    pub path: String,
    /// Its logical name
    pub logical: String,
    /// Its target
    pub target: Option<String>,
    /// Whether it is hidden
    pub hidden: bool,
}

/// The artifacts.
#[derive(Debug, PartialEq)]
pub struct ArtifactRegistry {
    /// The rules for selected artifacts
    pub policy: ArtifactPolicy,
    /// The artifacts
    pub artifacts: Vec<EvaluatedArtifact>,
    /// The directories and patterns
    pub directories: Vec<EvaluatedDirectory>,
    /// The notices
    pub notices: Vec<ArtifactNotice>,
    /// The selections
    pub selections: Vec<ArtifactSelection>,
}

/// The tasks and scripts.
#[derive(Debug, PartialEq)]
pub struct ActionRegistry {
    /// The configured runners, by the name of their kind
    pub interpreters: Vec<(String, TaskRunner)>,
    /// The tasks
    pub tasks: Vec<EvaluatedTask>,
    /// The scripts
    pub scripts: Vec<Script>,
    /// The ladder
    pub ladder: Option<ExecutionLadder>,
    /// The place of the next action
    pub next_action_order: u64,
}

/// The providers and requirements.
#[derive(Debug, PartialEq)]
pub struct RequirementRegistry {
    /// The providers
    pub providers: Vec<Provider>,
    /// The requirements
    pub requirements: Vec<Requirement>,
}

} // verus!
