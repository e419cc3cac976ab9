//! What a product and a plan are made of.
use vstd::prelude::*;
use vstd::string::*;

use crate::model::frozen::FrozenValue;
use crate::model::context::ResolvedTarget;
use crate::model::ladder::{ExecutionLadder, RungId};
use crate::model::source::{DirectoryLeaf, SourceFingerprint};
use crate::number::{decimal, decimal_text};
use crate::text::{cat3, views};

verus! {

/// The version of the manifest format.
pub const MANIFEST_FORMAT_VERSION: u32 = 16;

/// The version of the plan format.
pub const BUILD_PLAN_FORMAT_VERSION: u32 = 7;

/// The most callers that a trace holds, and the declaration.
pub const MAX_SOURCE_TRACE_FRAMES: usize = 8;

/// A file of the repository and the digest of its bytes.
#[derive(Debug, PartialEq)]
pub struct SourceFile {
    /// Its path, relative to the repository
    pub path: String,
    /// The digest of its bytes
    pub digest: String,
}

/// A place in a source file.
#[derive(Debug, PartialEq)]
pub struct SourceLocation {
    /// The file, relative to the repository
    pub source: String,
    /// The line, from one
    pub line: Option<u32>,
    /// The column, from one
    pub column: Option<u32>,
}

/// The place of a declaration and the places it was called from.
#[derive(Debug, PartialEq)]
pub struct SourceTrace {
    /// The declaration
    pub primary: SourceLocation,
    /// Its callers, the nearest first
    pub callers: Vec<SourceLocation>,
}

/// How a product was built.
#[derive(Clone, Copy, Debug, PartialEq, Eq, Structural)]
pub enum ExecutionMode {
    /// Every requirement gate was held
    Normal,
    /// Requirement gates were skipped
    CompileOnly,
}

/// What becomes of selected sources without a target.
#[derive(Clone, Copy, Debug, PartialEq, Eq, Structural)]
pub enum UnallocatedPolicy {
    /// They are passed over
    Ignore,
    /// They are passed over with a notice
    Warn,
    /// They are an error
    Error,
}

/// The rules for selected artifacts.
#[derive(Clone, Copy, Debug, PartialEq, Eq)]
pub struct ArtifactPolicy {
    /// What becomes of sources without a target
    pub unallocated: UnallocatedPolicy,
}

/// What a notice is about.
#[derive(Clone, Copy, Debug, PartialEq, Eq, Structural)]
pub enum ArtifactNoticeKind {
    /// Sources without a target were passed over
    UnallocatedSkipped,
}

/// Something that a build tells about its artifacts.
#[derive(Debug, PartialEq)]
pub struct ArtifactNotice {
    /// What it is about
    pub kind: ArtifactNoticeKind,
    /// The module that declared the selection
    pub owner: String,
    /// The selector as declared
    pub selector: String,
    /// The sources that were passed over
    pub skipped: Vec<String>,
    /// The declaration
    pub declared_at: SourceTrace,
}

/// How a selection finds its sources.
#[derive(Clone, Copy, Debug, PartialEq, Eq, Structural)]
pub enum ArtifactSelectionKind {
    /// One file
    Exact,
    /// The files beneath a directory
    Directory,
    /// The files that a pattern matches
    Glob,
}

/// One selection of artifact sources.
#[derive(Debug, PartialEq)]
pub struct ArtifactSelection {
    /// The module that declared it
    pub owner: String,
    /// The selector as declared
    pub declared: String,
    /// The selector with its shorthands written out
    pub expanded: String,
    /// The selector in physical names
    pub physical: String,
    /// Where the selection starts, relative to the repository
    pub source_base: String,
    /// The logical name of that base
    pub source_base_logical: String,
    /// The target of that base
    pub source_base_target: Option<String>,
    /// Whether the base is hidden
    pub source_base_hidden: bool,
    /// Whether hidden components were authorised
    pub hidden: bool,
    /// How the sources are found
    pub kind: ArtifactSelectionKind,
    /// The components before the first pattern
    pub static_root: String,
    /// The selectors of what is left out
    pub exclusions: Vec<String>,
    /// Whether the selection may be empty
    pub allow_empty: bool,
    /// The declared target
    pub explicit_target: Option<String>,
    /// The sources that became artifacts
    pub matches: Vec<String>,
    /// The sources without a target
    pub skipped_unallocated: Vec<String>,
    /// The declaration
    pub declared_at: SourceTrace,
}

/// A file of a custom provider.
#[derive(Debug, PartialEq)]
pub struct ProviderFile {
    /// Its path in the repository
    pub source: String,
    /// Its path in the payload
    pub payload: String,
    /// The digest of its bytes
    pub digest: String,
    /// Its size in bytes
    pub size: u64,
}

/// Where a provider comes from.
#[derive(Debug, PartialEq)]
pub enum ProviderOrigin {
    /// Part of Wombat
    Builtin {
        /// The version of its contract
        contract_version: u32,
    },
    /// Lua code of the repository
    Custom {
        /// Its first file
        entrypoint: String,
        /// All of its files
        files: Vec<ProviderFile>,
    },
}

/// A configured provider.
#[derive(Debug, PartialEq)]
pub struct Provider {
    /// Its name
    pub name: String,
    /// Its place in the order of preference
    pub priority: u32,
    /// Its configuration
    pub config: FrozenValue,
    /// Where it comes from
    pub origin: ProviderOrigin,
    /// The declaration
    pub declared_at: SourceTrace,
}

/// What a requirement asks for.
#[derive(Clone, Copy, Debug, PartialEq, Eq, Structural)]
pub enum RequirementKind {
    /// A command on the search path
    Command,
    /// A package of a provider
    Package,
}

/// What a package publishes.
#[derive(Debug, PartialEq)]
pub struct Publications {
    /// The commands
    pub commands: Vec<String>,
}

/// One way to meet a requirement.
#[derive(Debug, PartialEq)]
pub enum RequirementCandidate {
    /// A command
    Command {
        /// The command
        name: String,
        /// The least version
        minimum: Option<String>,
    },
    /// A package
    Package {
        /// The package
        name: String,
        /// The provider asked for
        provider: Option<String>,
        /// The least version
        minimum: Option<String>,
        /// What it publishes
        publications: Publications,
        /// Options for the provider
        with: FrozenValue,
    },
}

/// What came of an attempt.
#[derive(Debug, PartialEq)]
pub enum ResolutionOutcome {
    /// The provider took it
    Selected,
    /// The provider refused it
    Unsupported {
        /// Why
        reason: String,
    },
}

/// An attempt to resolve a candidate.
#[derive(Debug, PartialEq)]
pub struct ResolutionAttempt {
    /// The index of the candidate
    pub candidate: u32,
    /// The provider asked
    pub provider: String,
    /// What came of it
    pub outcome: ResolutionOutcome,
}

/// How the selected candidate was chosen.
#[derive(Clone, Copy, Debug, PartialEq, Eq, Structural)]
pub enum RequirementChoice {
    /// It was the only one
    Required,
    /// It was the first of several
    Preferred,
    /// It was a later one
    Accepted,
}

/// A candidate as its provider resolved it.
#[derive(Debug, PartialEq)]
pub struct ProviderBinding {
    /// The provider
    pub provider: String,
    /// The identity of the binding
    pub identity: String,
    /// Whether it needs elevation
    pub elevated: bool,
    /// The package
    pub package: Option<String>,
    /// What it publishes
    pub publications: Publications,
    /// The identities of its prerequisites
    pub prerequisites: Vec<String>,
    /// Data of the provider
    pub data: FrozenValue,
}

/// A resolved requirement.
#[derive(Debug, PartialEq)]
pub struct Requirement {
    /// What it asks for
    pub kind: RequirementKind,
    /// The module that declared it
    pub owner: String,
    /// The declaration
    pub declared_at: SourceTrace,
    /// The ways to meet it
    pub candidates: Vec<RequirementCandidate>,
    /// The attempts to resolve it
    pub attempts: Vec<ResolutionAttempt>,
    /// The index of the selected candidate
    pub selected: u32,
    /// How that was chosen
    pub choice: RequirementChoice,
    /// The resolved candidate
    pub binding: ProviderBinding,
    /// The rung that waits for it
    pub when: RungId,
}

/// Something a provider must do before bindings work.
#[derive(Debug, PartialEq)]
pub struct ProviderPrerequisite {
    /// The provider
    pub provider: String,
    /// Its identity
    pub identity: String,
    /// What it does
    pub description: String,
    /// The rung that waits for it
    pub when: RungId,
    /// Whether it needs elevation
    pub elevated: bool,
    /// Data of the provider
    pub data: FrozenValue,
}

/// Something a provider does before its packages.
#[derive(Debug, PartialEq)]
pub struct ProviderPreparation {
    /// The provider
    pub provider: String,
    /// Its identity
    pub identity: String,
    /// What it does
    pub description: String,
    /// Whether it needs elevation
    pub elevated: bool,
    /// Data of the provider
    pub data: FrozenValue,
}

/// The kind of a build input.
#[derive(Clone, Copy, Debug, PartialEq, Eq, Structural)]
pub enum BuildInputKind {
    /// A switch
    Flag,
    /// One of several
    Choice,
    /// Text
    String,
    /// A whole number
    Integer,
    /// A target platform
    Target,
}

/// Where the value of an input comes from.
#[derive(Clone, Copy, Debug, PartialEq, Eq, Structural)]
pub enum BuildInputOrigin {
    /// The declaration
    Default,
    /// The command line
    CommandLine,
}

/// A resolved build input.
#[derive(Debug, PartialEq)]
pub struct BuildInput {
    /// Its name
    pub name: String,
    /// Its kind
    pub kind: BuildInputKind,
    /// Its value
    pub value: FrozenValue,
    /// Where the value comes from
    pub origin: BuildInputOrigin,
    /// The declaration
    pub declared_at: SourceTrace,
}

/// What an observation is of.
#[derive(Clone, Copy, Debug, PartialEq, Eq, Structural)]
pub enum ObservationSubject {
    /// The building machine
    Host,
    /// The target platform
    Target,
}

/// A fact that evaluation read.
#[derive(Debug, PartialEq)]
pub struct Observation {
    /// What it is of
    pub subject: ObservationSubject,
    /// Its name
    pub path: String,
    /// What was read
    pub value: FrozenValue,
}

/// What a process ran.
#[derive(Debug, PartialEq)]
pub enum ProcessInvocation {
    /// A program with arguments
    Exec {
        /// The program and its arguments
        argv: Vec<String>,
    },
    /// A command line
    Shell {
        /// The command line
        command: String,
        /// The shell
        shell: String,
    },
}

/// A variable that a process saw changed.
#[derive(Debug, PartialEq)]
pub struct ProcessEnvironmentChange {
    /// The variable
    pub name: String,
    /// Its value, or none where it was removed
    pub value: Option<String>,
}

/// What a process run during evaluation did. Its output is held as digests only.
#[derive(Debug, PartialEq)]
pub struct ProcessObservation {
    /// What ran
    pub invocation: ProcessInvocation,
    /// Where it ran
    pub cwd: String,
    /// What it saw changed
    pub environment: Vec<ProcessEnvironmentChange>,
    /// The digest of its input
    pub stdin_digest: Option<String>,
    /// Its time limit
    pub timeout_ms: Option<u64>,
    /// The most output kept
    pub max_output: u64,
    /// Whether it is hidden from views
    pub sensitive: bool,
    /// Whether it succeeded
    pub ok: bool,
    /// Its exit code
    pub code: Option<i32>,
    /// The signal that ended it
    pub signal: Option<i32>,
    /// The size of its output
    pub stdout_size: u64,
    /// The digest of its output
    pub stdout_digest: String,
    /// The size of its error output
    pub stderr_size: u64,
    /// The digest of its error output
    pub stderr_digest: String,
    /// The declaration
    pub declared_at: SourceTrace,
}

/// Where the sources of a module start.
#[derive(Debug, PartialEq)]
pub struct ModuleSourceBase {
    /// As declared
    pub declared: String,
    /// With its shorthands written out
    pub expanded: String,
    /// In physical names
    pub physical: String,
    /// In logical names
    pub logical: String,
    /// The target of the base
    pub target: Option<String>,
    /// Whether it is hidden
    pub hidden: bool,
}

/// An evaluated module.
#[derive(Debug, PartialEq)]
pub struct ManifestModule {
    /// Its name
    pub name: String,
    /// Its file
    pub source: String,
    /// Its configuration
    pub config: FrozenValue,
    /// Where its sources start
    pub source_base: Option<ModuleSourceBase>,
}

/// How a module depends on another.
#[derive(Clone, Copy, Debug, PartialEq, Eq, Structural)]
pub enum DependencyKind {
    /// It selects it
    Use,
    /// It reads its export
    Using,
}

/// A dependency between modules.
#[derive(Debug, PartialEq)]
pub struct Dependency {
    /// Which kind
    pub kind: DependencyKind,
    /// The module that depends
    pub from: String,
    /// The module it depends on
    pub to: String,
    /// The declaration
    pub declared_at: SourceTrace,
}

/// The kind of an artifact.
#[derive(Clone, Copy, Debug, PartialEq, Eq, Structural)]
pub enum ArtifactKind {
    /// A regular file
    File,
}

/// How an artifact came by its source.
#[derive(Debug, PartialEq)]
pub enum SourceOrigin {
    /// It was named
    Direct {
        /// As declared
        declared: String,
        /// With its shorthands written out
        expanded: String,
    },
    /// It was found beneath a directory or by a pattern
    Directory {
        /// As declared
        declared: String,
        /// With its shorthands written out
        expanded: String,
        /// Where the search started
        root: String,
        /// Its path from there
        relative: String,
        /// What was left out
        exclusions: Vec<String>,
        /// Whether nothing might be found
        allow_empty: bool,
    },
    /// Evaluation wrote it
    Generated {
        /// Its name
        name: String,
    },
    /// A task wrote it
    Task {
        /// The task
        identity: String,
        /// Its path in the output
        relative: String,
    },
}

/// Metadata at the front of a physical name.
#[derive(Clone, Copy, Debug, PartialEq, Eq, Structural)]
pub enum SourceAttribute {
    /// A leading dot
    Dot,
    /// No target of its own
    Unallocated,
    /// No metadata from here on
    Literal,
}

/// A component of a physical path and what it stands for.
#[derive(Debug, PartialEq)]
pub struct SourceComponent {
    /// The name in the repository
    pub physical: String,
    /// The name in the target
    pub logical: String,
    /// Its metadata, in order
    pub attributes: Vec<SourceAttribute>,
}

/// A physical path and what it stands for.
#[derive(Debug, PartialEq)]
pub struct SourceProjection {
    /// The path in the repository
    pub physical: String,
    /// The path in the target
    pub logical: String,
    /// Whether it has a target of its own
    pub allocated: bool,
    /// Whether a component is hidden
    pub hidden: bool,
    /// Its components
    pub components: Vec<SourceComponent>,
}

/// What a target path is relative to.
#[derive(Clone, Copy, Debug, PartialEq, Eq, Structural)]
pub enum TargetScope {
    /// The deployment root
    DeploymentRoot,
    /// Nothing: it is absolute
    Absolute,
}

/// How a target path came about.
#[derive(Debug, PartialEq)]
pub enum TargetOrigin {
    /// It was declared
    Explicit {
        /// As declared
        declared: String,
    },
    /// It follows from the source
    Inferred {
        /// The source
        source: String,
    },
    /// It was declared for a directory
    DirectoryExplicit {
        /// As declared
        declared: String,
        /// The path beneath it
        relative: String,
    },
}

/// Where an artifact goes.
#[derive(Debug, PartialEq)]
pub struct TargetPath {
    /// The path
    pub path: String,
    /// What it is relative to
    pub scope: TargetScope,
    /// How it came about
    pub origin: TargetOrigin,
}

/// How a target root came about.
#[derive(Debug, PartialEq)]
pub enum EvaluatedTargetOrigin {
    /// It was declared
    Explicit {
        /// As declared
        declared: String,
    },
    /// It follows from the source
    Inferred {
        /// The source
        source: String,
    },
}

/// A directory that targets are placed beneath.
#[derive(Debug, PartialEq)]
pub struct EvaluatedTargetRoot {
    /// The path; empty for the root itself
    pub path: String,
    /// What it is relative to
    pub scope: TargetScope,
    /// How it came about
    pub origin: EvaluatedTargetOrigin,
}

/// The renderer of a template.
#[derive(Debug, PartialEq)]
pub struct RendererIdentity {
    /// Its name
    pub name: String,
    /// The version of its contract
    pub contract_version: u32,
}

/// The bytes of a file, by digest.
#[derive(Debug, PartialEq)]
pub struct FileContent {
    /// The digest
    pub digest: String,
    /// The size in bytes
    pub size: u64,
    /// Whether it may be run
    pub executable: bool,
}

/// How an artifact was produced.
#[derive(Debug, PartialEq)]
pub enum Production {
    /// It was copied
    Static,
    /// It was rendered
    Template {
        /// By what
        renderer: RendererIdentity,
        /// The digest of the template
        source_digest: String,
        /// The context
        context: FrozenValue,
    },
    /// Evaluation wrote it
    GeneratedLua {
        /// The version of the contract
        contract_version: u32,
    },
    /// A task wrote it
    Task {
        /// The version of the contract
        contract_version: u32,
        /// The task
        identity: String,
        /// Its path in the output
        output: String,
    },
}

/// A file of a product.
#[derive(Debug, PartialEq)]
pub struct Artifact {
    /// Its kind
    pub kind: ArtifactKind,
    /// Its source
    pub source: String,
    /// How it came by its source
    pub source_origin: SourceOrigin,
    /// What the source path stands for
    pub source_projection: Option<SourceProjection>,
    /// How it was produced
    pub production: Production,
    /// Where it goes
    pub target: TargetPath,
    /// What it holds
    pub content: FileContent,
    /// The module that declared it
    pub owner: String,
    /// The declaration
    pub declared_at: SourceTrace,
}

/// How an artifact will be produced.
#[derive(Debug, PartialEq)]
pub enum PlannedProduction {
    /// It is copied
    Static {
        /// The digest of the source
        source_digest: String,
        /// Whether it may be run
        executable: bool,
    },
    /// It is rendered
    Template {
        /// By what
        renderer: RendererIdentity,
        /// The digest of the template
        source_digest: String,
        /// The context
        context: FrozenValue,
        /// Whether it may be run
        executable: bool,
    },
    /// Evaluation wrote it
    GeneratedLua {
        /// The version of the contract
        contract_version: u32,
        /// The digest of the content
        content_digest: String,
        /// The size of the content
        size: u64,
        /// Whether it may be run
        executable: bool,
    },
}

/// An artifact of a plan.
#[derive(Debug, PartialEq)]
pub struct PlannedArtifact {
    /// Its source
    pub source: String,
    /// How it came by its source
    pub source_origin: SourceOrigin,
    /// What the source path stands for
    pub source_projection: Option<SourceProjection>,
    /// How it is produced
    pub production: PlannedProduction,
    /// Where it goes
    pub target: TargetPath,
    /// The module that declared it
    pub owner: String,
    /// The declaration
    pub declared_at: SourceTrace,
}

/// The family of an interpreter.
#[derive(Clone, Copy, Debug, PartialEq, Eq, Structural)]
pub enum InterpreterFamily {
    /// Python
    Python,
    /// A POSIX shell
    PosixShell,
    /// Bash
    Bash,
    /// Another one
    Custom,
}

/// What runs a task or a script.
#[derive(Debug, PartialEq)]
pub enum TaskRunner {
    /// The Lua inside Wombat
    EmbeddedLua {
        /// The version of the contract
        contract_version: u32,
    },
    /// The file itself
    Direct {
        /// The version of the contract
        contract_version: u32,
    },
    /// An interpreter
    Interpreter {
        /// The version of the contract
        contract_version: u32,
        /// Its family
        family: InterpreterFamily,
        /// The command
        command: String,
        /// Arguments before the file
        args: Vec<String>,
    },
}

/// Which logs are kept.
#[derive(Clone, Copy, Debug, PartialEq, Eq, Structural)]
pub enum TaskLogPolicy {
    /// Those of failures
    Failure,
    /// All
    Always,
    /// None
    Never,
}

/// Whether the output of a task is kept for reuse.
#[derive(Debug, PartialEq)]
pub struct TaskCachePolicy {
    /// Whether it is
    pub enabled: bool,
    /// A mark that makes old output stale
    pub revision: Option<String>,
}

/// Where the output of a task goes.
#[derive(Debug, PartialEq)]
pub struct TaskTargetRoot {
    /// The path
    pub path: String,
    /// How it came about
    pub origin: EvaluatedTargetOrigin,
}

/// A file that a task wrote.
#[derive(Debug, PartialEq)]
pub struct TaskOutput {
    /// Its path in the output
    pub relative: String,
    /// What it holds
    pub content: FileContent,
}

/// A build task.
#[derive(Debug, PartialEq)]
pub struct Task {
    /// Its identity
    pub identity: String,
    /// Its place among the declared actions
    pub declaration_order: u64,
    /// The module that declared it
    pub owner: String,
    /// The file that is run
    pub entrypoint: String,
    /// The digest of that file
    pub entrypoint_digest: String,
    /// Its parameters
    pub params: FrozenValue,
    /// What runs it
    pub runner: TaskRunner,
    /// Whether the Python helper is offered
    pub python_helper: bool,
    /// Which logs are kept
    pub logs: TaskLogPolicy,
    /// Whether its output is kept
    pub cache: TaskCachePolicy,
    /// The rung it runs at
    pub at: RungId,
    /// Where its output goes
    pub target_root: Option<TaskTargetRoot>,
    /// The declaration
    pub declared_at: SourceTrace,
    /// What it wrote
    pub outputs: Vec<TaskOutput>,
}

/// When a script runs.
#[derive(Clone, Copy, Debug, PartialEq, Eq, Structural)]
pub enum ScriptSchedule {
    /// Every time
    Always,
    /// Once
    Once,
    /// When it has changed
    Onchange,
}

/// What a script acts on.
#[derive(Clone, Copy, Debug, PartialEq, Eq, Structural)]
pub enum ScriptScope {
    /// The target
    Target,
    /// The building machine
    Host,
}

/// A file that a script takes along.
#[derive(Debug, PartialEq)]
pub struct ScriptPayload {
    /// Its path in the repository
    pub source: String,
    /// Its path beneath the scripts
    pub relative: String,
    /// The digest of its bytes
    pub digest: String,
    /// Its size in bytes
    pub size: u64,
    /// Whether it may be run
    pub executable: bool,
}

/// A deployment script.
#[derive(Debug, PartialEq)]
pub struct Script {
    /// Its identity
    pub identity: String,
    /// Its place among the declared actions
    pub declaration_order: u64,
    /// The module that declared it
    pub owner: String,
    /// The file that is run
    pub entrypoint: String,
    /// Its parameters
    pub params: FrozenValue,
    /// What runs it
    pub runner: TaskRunner,
    /// Whether the Python helper is offered
    pub python_helper: bool,
    /// Which logs are kept
    pub logs: TaskLogPolicy,
    /// The rung it runs at
    pub at: RungId,
    /// When it runs
    pub schedule: ScriptSchedule,
    /// What it acts on
    pub scope: ScriptScope,
    /// The files it takes along
    pub payloads: Vec<ScriptPayload>,
    /// A mark of its version
    pub revision: Option<String>,
    /// Its environment, in the order of the names
    pub env: Vec<(String, String)>,
    /// Its time limit
    pub timeout_seconds: Option<u64>,
    /// The declaration
    pub declared_at: SourceTrace,
}

/// What became of a script.
#[derive(Clone, Copy, Debug, PartialEq, Eq, Structural)]
pub enum ScriptOutcomeStatus {
    /// It ran
    Ran,
    /// Its schedule passed it over
    ScheduledSkip,
    /// The mode passed it over
    CompileOnlySkip,
    /// It was refused
    Refused,
}

/// What became of a script at a rung.
#[derive(Debug, PartialEq)]
pub struct ScriptOutcome {
    /// The script
    pub identity: String,
    /// The rung
    pub rung: RungId,
    /// What became of it
    pub status: ScriptOutcomeStatus,
    /// Why
    pub reason: String,
}

/// A function that a helper pack offers.
#[derive(Debug, PartialEq)]
pub struct TemplateHelperExport {
    /// Its name in the pack
    pub export: String,
    /// Its name in templates
    pub name: String,
    /// Its definition
    pub defined_at: SourceLocation,
}

/// A pack of template helpers.
#[derive(Debug, PartialEq)]
pub struct TemplateHelperPack {
    /// The version of the contract
    pub contract_version: u32,
    /// The Lua module
    pub module: String,
    /// What the names begin with
    pub prefix: String,
    /// What it offers
    pub exports: Vec<TemplateHelperExport>,
    /// The files it is made of
    pub sources: Vec<SourceFile>,
    /// The declaration
    pub declared_at: SourceTrace,
}

impl ExecutionMode {
    /// Its name in serialised form.
    pub open spec fn wire(self) -> Seq<char> {
        match self {
            ExecutionMode::Normal => "normal"@,
            ExecutionMode::CompileOnly => "compile_only"@,
        }
    }

    /// Its name in serialised form.
    pub fn wire_name(self) -> (r: &'static str)
        ensures
            r@ == self.wire(),
    {
        match self {
            ExecutionMode::Normal => "normal",
            ExecutionMode::CompileOnly => "compile_only",
        }
    }
}

impl UnallocatedPolicy {
    /// Its name in serialised form.
    pub open spec fn wire(self) -> Seq<char> {
        match self {
            UnallocatedPolicy::Ignore => "ignore"@,
            UnallocatedPolicy::Warn => "warn"@,
            UnallocatedPolicy::Error => "error"@,
        }
    }

    /// Its name in serialised form.
    pub fn wire_name(self) -> (r: &'static str)
        ensures
            r@ == self.wire(),
    {
        match self {
            UnallocatedPolicy::Ignore => "ignore",
            UnallocatedPolicy::Warn => "warn",
            UnallocatedPolicy::Error => "error",
        }
    }
}

impl ArtifactNoticeKind {
    /// Its name in serialised form.
    pub open spec fn wire(self) -> Seq<char> {
        match self {
            ArtifactNoticeKind::UnallocatedSkipped => "unallocated_skipped"@,
        }
    }

    /// Its name in serialised form.
    pub fn wire_name(self) -> (r: &'static str)
        ensures
            r@ == self.wire(),
    {
        match self {
            ArtifactNoticeKind::UnallocatedSkipped => "unallocated_skipped",
        }
    }
}

impl ArtifactSelectionKind {
    /// Its name in serialised form.
    pub open spec fn wire(self) -> Seq<char> {
        match self {
            ArtifactSelectionKind::Exact => "exact"@,
            ArtifactSelectionKind::Directory => "directory"@,
            ArtifactSelectionKind::Glob => "glob"@,
        }
    }

    /// Its name in serialised form.
    pub fn wire_name(self) -> (r: &'static str)
        ensures
            r@ == self.wire(),
    {
        match self {
            ArtifactSelectionKind::Exact => "exact",
            ArtifactSelectionKind::Directory => "directory",
            ArtifactSelectionKind::Glob => "glob",
        }
    }

    /// Its name in views.
    pub open spec fn label(self) -> Seq<char> {
        match self {
            ArtifactSelectionKind::Exact => "Exact"@,
            ArtifactSelectionKind::Directory => "Directory"@,
            ArtifactSelectionKind::Glob => "Glob"@,
        }
    }

    /// Its name in views.
    pub fn label_name(self) -> (r: &'static str)
        ensures
            r@ == self.label(),
    {
        match self {
            ArtifactSelectionKind::Exact => "Exact",
            ArtifactSelectionKind::Directory => "Directory",
            ArtifactSelectionKind::Glob => "Glob",
        }
    }
}

impl RequirementKind {
    /// Its name in serialised form.
    pub open spec fn wire(self) -> Seq<char> {
        match self {
            RequirementKind::Command => "command"@,
            RequirementKind::Package => "package"@,
        }
    }

    /// Its name in serialised form.
    pub fn wire_name(self) -> (r: &'static str)
        ensures
            r@ == self.wire(),
    {
        match self {
            RequirementKind::Command => "command",
            RequirementKind::Package => "package",
        }
    }

    /// Its name in views.
    pub open spec fn label(self) -> Seq<char> {
        match self {
            RequirementKind::Command => "Command"@,
            RequirementKind::Package => "Package"@,
        }
    }

    /// Its name in views.
    pub fn label_name(self) -> (r: &'static str)
        ensures
            r@ == self.label(),
    {
        match self {
            RequirementKind::Command => "Command",
            RequirementKind::Package => "Package",
        }
    }
}

impl RequirementChoice {
    /// Its name in serialised form.
    pub open spec fn wire(self) -> Seq<char> {
        match self {
            RequirementChoice::Required => "required"@,
            RequirementChoice::Preferred => "preferred"@,
            RequirementChoice::Accepted => "accepted"@,
        }
    }

    /// Its name in serialised form.
    pub fn wire_name(self) -> (r: &'static str)
        ensures
            r@ == self.wire(),
    {
        match self {
            RequirementChoice::Required => "required",
            RequirementChoice::Preferred => "preferred",
            RequirementChoice::Accepted => "accepted",
        }
    }

    /// Its name in views.
    pub open spec fn label(self) -> Seq<char> {
        match self {
            RequirementChoice::Required => "Required"@,
            RequirementChoice::Preferred => "Preferred"@,
            RequirementChoice::Accepted => "Accepted"@,
        }
    }

    /// Its name in views.
    pub fn label_name(self) -> (r: &'static str)
        ensures
            r@ == self.label(),
    {
        match self {
            RequirementChoice::Required => "Required",
            RequirementChoice::Preferred => "Preferred",
            RequirementChoice::Accepted => "Accepted",
        }
    }
}

impl BuildInputKind {
    /// Its name in serialised form.
    pub open spec fn wire(self) -> Seq<char> {
        match self {
            BuildInputKind::Flag => "flag"@,
            BuildInputKind::Choice => "choice"@,
            BuildInputKind::String => "string"@,
            BuildInputKind::Integer => "integer"@,
            BuildInputKind::Target => "target"@,
        }
    }

    /// Its name in serialised form.
    pub fn wire_name(self) -> (r: &'static str)
        ensures
            r@ == self.wire(),
    {
        match self {
            BuildInputKind::Flag => "flag",
            BuildInputKind::Choice => "choice",
            BuildInputKind::String => "string",
            BuildInputKind::Integer => "integer",
            BuildInputKind::Target => "target",
        }
    }

    /// Its name in views.
    pub open spec fn label(self) -> Seq<char> {
        match self {
            BuildInputKind::Flag => "Flag"@,
            BuildInputKind::Choice => "Choice"@,
            BuildInputKind::String => "String"@,
            BuildInputKind::Integer => "Integer"@,
            BuildInputKind::Target => "Target"@,
        }
    }

    /// Its name in views.
    pub fn label_name(self) -> (r: &'static str)
        ensures
            r@ == self.label(),
    {
        match self {
            BuildInputKind::Flag => "Flag",
            BuildInputKind::Choice => "Choice",
            BuildInputKind::String => "String",
            BuildInputKind::Integer => "Integer",
            BuildInputKind::Target => "Target",
        }
    }
}

impl BuildInputOrigin {
    /// Its name in serialised form.
    pub open spec fn wire(self) -> Seq<char> {
        match self {
            BuildInputOrigin::Default => "default"@,
            BuildInputOrigin::CommandLine => "command_line"@,
        }
    }

    /// Its name in serialised form.
    pub fn wire_name(self) -> (r: &'static str)
        ensures
            r@ == self.wire(),
    {
        match self {
            BuildInputOrigin::Default => "default",
            BuildInputOrigin::CommandLine => "command_line",
        }
    }

    /// Its name in views.
    pub open spec fn label(self) -> Seq<char> {
        match self {
            BuildInputOrigin::Default => "Default"@,
            BuildInputOrigin::CommandLine => "CommandLine"@,
        }
    }

    /// Its name in views.
    pub fn label_name(self) -> (r: &'static str)
        ensures
            r@ == self.label(),
    {
        match self {
            BuildInputOrigin::Default => "Default",
            BuildInputOrigin::CommandLine => "CommandLine",
        }
    }
}

impl ObservationSubject {
    /// Its name in serialised form.
    pub open spec fn wire(self) -> Seq<char> {
        match self {
            ObservationSubject::Host => "host"@,
            ObservationSubject::Target => "target"@,
        }
    }

    /// Its name in serialised form.
    pub fn wire_name(self) -> (r: &'static str)
        ensures
            r@ == self.wire(),
    {
        match self {
            ObservationSubject::Host => "host",
            ObservationSubject::Target => "target",
        }
    }

    /// Its name in views.
    pub open spec fn label(self) -> Seq<char> {
        match self {
            ObservationSubject::Host => "Host"@,
            ObservationSubject::Target => "Target"@,
        }
    }

    /// Its name in views.
    pub fn label_name(self) -> (r: &'static str)
        ensures
            r@ == self.label(),
    {
        match self {
            ObservationSubject::Host => "Host",
            ObservationSubject::Target => "Target",
        }
    }
}

impl DependencyKind {
    /// Its name in serialised form.
    pub open spec fn wire(self) -> Seq<char> {
        match self {
            DependencyKind::Use => "use"@,
            DependencyKind::Using => "using"@,
        }
    }

    /// Its name in serialised form.
    pub fn wire_name(self) -> (r: &'static str)
        ensures
            r@ == self.wire(),
    {
        match self {
            DependencyKind::Use => "use",
            DependencyKind::Using => "using",
        }
    }

    /// Its name in views.
    pub open spec fn label(self) -> Seq<char> {
        match self {
            DependencyKind::Use => "Use"@,
            DependencyKind::Using => "Using"@,
        }
    }

    /// Its name in views.
    pub fn label_name(self) -> (r: &'static str)
        ensures
            r@ == self.label(),
    {
        match self {
            DependencyKind::Use => "Use",
            DependencyKind::Using => "Using",
        }
    }
}

impl ArtifactKind {
    /// Its name in serialised form.
    pub open spec fn wire(self) -> Seq<char> {
        match self {
            ArtifactKind::File => "file"@,
        }
    }

    /// Its name in serialised form.
    pub fn wire_name(self) -> (r: &'static str)
        ensures
            r@ == self.wire(),
    {
        match self {
            ArtifactKind::File => "file",
        }
    }
}

impl SourceAttribute {
    /// Its name in serialised form.
    pub open spec fn wire(self) -> Seq<char> {
        match self {
            SourceAttribute::Dot => "dot"@,
            SourceAttribute::Unallocated => "unallocated"@,
            SourceAttribute::Literal => "literal"@,
        }
    }

    /// Its name in serialised form.
    pub fn wire_name(self) -> (r: &'static str)
        ensures
            r@ == self.wire(),
    {
        match self {
            SourceAttribute::Dot => "dot",
            SourceAttribute::Unallocated => "unallocated",
            SourceAttribute::Literal => "literal",
        }
    }
}

impl TargetScope {
    /// Its name in serialised form.
    pub open spec fn wire(self) -> Seq<char> {
        match self {
            TargetScope::DeploymentRoot => "deployment_root"@,
            TargetScope::Absolute => "absolute"@,
        }
    }

    /// Its name in serialised form.
    pub fn wire_name(self) -> (r: &'static str)
        ensures
            r@ == self.wire(),
    {
        match self {
            TargetScope::DeploymentRoot => "deployment_root",
            TargetScope::Absolute => "absolute",
        }
    }
}

impl InterpreterFamily {
    /// Its name in serialised form.
    pub open spec fn wire(self) -> Seq<char> {
        match self {
            InterpreterFamily::Python => "python"@,
            InterpreterFamily::PosixShell => "posix_shell"@,
            InterpreterFamily::Bash => "bash"@,
            InterpreterFamily::Custom => "custom"@,
        }
    }

    /// Its name in serialised form.
    pub fn wire_name(self) -> (r: &'static str)
        ensures
            r@ == self.wire(),
    {
        match self {
            InterpreterFamily::Python => "python",
            InterpreterFamily::PosixShell => "posix_shell",
            InterpreterFamily::Bash => "bash",
            InterpreterFamily::Custom => "custom",
        }
    }
}

impl TaskLogPolicy {
    /// Its name in serialised form.
    pub open spec fn wire(self) -> Seq<char> {
        match self {
            TaskLogPolicy::Failure => "failure"@,
            TaskLogPolicy::Always => "always"@,
            TaskLogPolicy::Never => "never"@,
        }
    }

    /// Its name in serialised form.
    pub fn wire_name(self) -> (r: &'static str)
        ensures
            r@ == self.wire(),
    {
        match self {
            TaskLogPolicy::Failure => "failure",
            TaskLogPolicy::Always => "always",
            TaskLogPolicy::Never => "never",
        }
    }

    /// Its name in views.
    pub open spec fn label(self) -> Seq<char> {
        match self {
            TaskLogPolicy::Failure => "Failure"@,
            TaskLogPolicy::Always => "Always"@,
            TaskLogPolicy::Never => "Never"@,
        }
    }

    /// Its name in views.
    pub fn label_name(self) -> (r: &'static str)
        ensures
            r@ == self.label(),
    {
        match self {
            TaskLogPolicy::Failure => "Failure",
            TaskLogPolicy::Always => "Always",
            TaskLogPolicy::Never => "Never",
        }
    }
}

impl ScriptSchedule {
    /// Its name in serialised form.
    pub open spec fn wire(self) -> Seq<char> {
        match self {
            ScriptSchedule::Always => "always"@,
            ScriptSchedule::Once => "once"@,
            ScriptSchedule::Onchange => "onchange"@,
        }
    }

    /// Its name in serialised form.
    pub fn wire_name(self) -> (r: &'static str)
        ensures
            r@ == self.wire(),
    {
        match self {
            ScriptSchedule::Always => "always",
            ScriptSchedule::Once => "once",
            ScriptSchedule::Onchange => "onchange",
        }
    }

    /// Its name in views.
    pub open spec fn label(self) -> Seq<char> {
        match self {
            ScriptSchedule::Always => "Always"@,
            ScriptSchedule::Once => "Once"@,
            ScriptSchedule::Onchange => "Onchange"@,
        }
    }

    /// Its name in views.
    pub fn label_name(self) -> (r: &'static str)
        ensures
            r@ == self.label(),
    {
        match self {
            ScriptSchedule::Always => "Always",
            ScriptSchedule::Once => "Once",
            ScriptSchedule::Onchange => "Onchange",
        }
    }
}

impl ScriptScope {
    /// Its name in serialised form.
    pub open spec fn wire(self) -> Seq<char> {
        match self {
            ScriptScope::Target => "target"@,
            ScriptScope::Host => "host"@,
        }
    }

    /// Its name in serialised form.
    pub fn wire_name(self) -> (r: &'static str)
        ensures
            r@ == self.wire(),
    {
        match self {
            ScriptScope::Target => "target",
            ScriptScope::Host => "host",
        }
    }

    /// Its name in views.
    pub open spec fn label(self) -> Seq<char> {
        match self {
            ScriptScope::Target => "Target"@,
            ScriptScope::Host => "Host"@,
        }
    }

    /// Its name in views.
    pub fn label_name(self) -> (r: &'static str)
        ensures
            r@ == self.label(),
    {
        match self {
            ScriptScope::Target => "Target",
            ScriptScope::Host => "Host",
        }
    }
}

impl ScriptOutcomeStatus {
    /// Its name in serialised form.
    pub open spec fn wire(self) -> Seq<char> {
        match self {
            ScriptOutcomeStatus::Ran => "ran"@,
            ScriptOutcomeStatus::ScheduledSkip => "scheduled_skip"@,
            ScriptOutcomeStatus::CompileOnlySkip => "compile_only_skip"@,
            ScriptOutcomeStatus::Refused => "refused"@,
        }
    }

    /// Its name in serialised form.
    pub fn wire_name(self) -> (r: &'static str)
        ensures
            r@ == self.wire(),
    {
        match self {
            ScriptOutcomeStatus::Ran => "ran",
            ScriptOutcomeStatus::ScheduledSkip => "scheduled_skip",
            ScriptOutcomeStatus::CompileOnlySkip => "compile_only_skip",
            ScriptOutcomeStatus::Refused => "refused",
        }
    }

    /// Its name in views.
    pub open spec fn label(self) -> Seq<char> {
        match self {
            ScriptOutcomeStatus::Ran => "Ran"@,
            ScriptOutcomeStatus::ScheduledSkip => "ScheduledSkip"@,
            ScriptOutcomeStatus::CompileOnlySkip => "CompileOnlySkip"@,
            ScriptOutcomeStatus::Refused => "Refused"@,
        }
    }

    /// Its name in views.
    pub fn label_name(self) -> (r: &'static str)
        ensures
            r@ == self.label(),
    {
        match self {
            ScriptOutcomeStatus::Ran => "Ran",
            ScriptOutcomeStatus::ScheduledSkip => "ScheduledSkip",
            ScriptOutcomeStatus::CompileOnlySkip => "CompileOnlySkip",
            ScriptOutcomeStatus::Refused => "Refused",
        }
    }
}

impl SourceFile {
    /// Whether two of them hold the same.
    pub open spec fn same(self, other: Self) -> bool {
        &&& self.path@ == other.path@
        &&& self.digest@ == other.digest@
    }

    /// Another one that holds the same.
    pub fn copy(&self) -> (r: Self)
        ensures
            r.same(*self),
    {
        SourceFile {
            path: self.path.clone(),
            digest: self.digest.clone(),
        }
    }
}

impl SourceLocation {
    /// Whether two of them hold the same.
    pub open spec fn same(self, other: Self) -> bool {
        &&& self.source@ == other.source@
        &&& self.line == other.line
        &&& self.column == other.column
    }

    /// Another one that holds the same.
    pub fn copy(&self) -> (r: Self)
        ensures
            r.same(*self),
    {
        SourceLocation {
            source: self.source.clone(),
            line: self.line,
            column: self.column,
        }
    }
}

impl SourceTrace {
    /// Whether two of them hold the same.
    pub open spec fn same(self, other: Self) -> bool {
        &&& self.primary.same(other.primary)
        &&& same_source_locations(self.callers@, other.callers@)
    }

    /// Another one that holds the same.
    pub fn copy(&self) -> (r: Self)
        ensures
            r.same(*self),
    {
        SourceTrace {
            primary: self.primary.copy(),
            callers: copy_source_locations(&self.callers),
        }
    }
}

impl Publications {
    /// Whether two of them hold the same.
    pub open spec fn same(self, other: Self) -> bool {
        &&& views(self.commands@) == views(other.commands@)
    }

    /// Another one that holds the same.
    pub fn copy(&self) -> (r: Self)
        ensures
            r.same(*self),
    {
        Publications {
            commands: copy_texts(&self.commands),
        }
    }
}

impl ModuleSourceBase {
    /// Whether two of them hold the same.
    pub open spec fn same(self, other: Self) -> bool {
        &&& self.declared@ == other.declared@
        &&& self.expanded@ == other.expanded@
        &&& self.physical@ == other.physical@
        &&& self.logical@ == other.logical@
        &&& same_text(self.target, other.target)
        &&& self.hidden == other.hidden
    }

    /// Another one that holds the same.
    pub fn copy(&self) -> (r: Self)
        ensures
            r.same(*self),
    {
        ModuleSourceBase {
            declared: self.declared.clone(),
            expanded: self.expanded.clone(),
            physical: self.physical.clone(),
            logical: self.logical.clone(),
            target: copy_text(&self.target),
            hidden: self.hidden,
        }
    }
}

impl SourceOrigin {
    /// Whether two of them hold the same.
    pub open spec fn same(self, other: Self) -> bool {
        match self {
            SourceOrigin::Direct { declared, expanded } => {
                &&& other is Direct
                &&& declared@ == other->Direct_declared@
                &&& expanded@ == other->Direct_expanded@
            },
            SourceOrigin::Directory { declared, expanded, root, relative, exclusions, allow_empty } => {
                &&& other is Directory
                &&& declared@ == other->Directory_declared@
                &&& expanded@ == other->Directory_expanded@
                &&& root@ == other->Directory_root@
                &&& relative@ == other->Directory_relative@
                &&& views(exclusions@) == views(other->Directory_exclusions@)
                &&& allow_empty == other->Directory_allow_empty
            },
            SourceOrigin::Generated { name } => {
                &&& other is Generated
                &&& name@ == other->Generated_name@
            },
            SourceOrigin::Task { identity, relative } => {
                &&& other is Task
                &&& identity@ == other->Task_identity@
                &&& relative@ == other->Task_relative@
            },
        }
    }

    /// Another one that holds the same.
    pub fn copy(&self) -> (r: Self)
        ensures
            r.same(*self),
    {
        match self {
            SourceOrigin::Direct { declared, expanded } => SourceOrigin::Direct {
                declared: declared.clone(),
                expanded: expanded.clone(),
            },
            SourceOrigin::Directory { declared, expanded, root, relative, exclusions, allow_empty } => SourceOrigin::Directory {
                declared: declared.clone(),
                expanded: expanded.clone(),
                root: root.clone(),
                relative: relative.clone(),
                exclusions: copy_texts(exclusions),
                allow_empty: *allow_empty,
            },
            SourceOrigin::Generated { name } => SourceOrigin::Generated {
                name: name.clone(),
            },
            SourceOrigin::Task { identity, relative } => SourceOrigin::Task {
                identity: identity.clone(),
                relative: relative.clone(),
            },
        }
    }
}

impl SourceComponent {
    /// Whether two of them hold the same.
    pub open spec fn same(self, other: Self) -> bool {
        &&& self.physical@ == other.physical@
        &&& self.logical@ == other.logical@
        &&& self.attributes@ == other.attributes@
    }

    /// Another one that holds the same.
    pub fn copy(&self) -> (r: Self)
        ensures
            r.same(*self),
    {
        SourceComponent {
            physical: self.physical.clone(),
            logical: self.logical.clone(),
            attributes: copy_source_attributes(&self.attributes),
        }
    }
}

impl SourceProjection {
    /// Whether two of them hold the same.
    pub open spec fn same(self, other: Self) -> bool {
        &&& self.physical@ == other.physical@
        &&& self.logical@ == other.logical@
        &&& self.allocated == other.allocated
        &&& self.hidden == other.hidden
        &&& same_source_components(self.components@, other.components@)
    }

    /// Another one that holds the same.
    pub fn copy(&self) -> (r: Self)
        ensures
            r.same(*self),
    {
        SourceProjection {
            physical: self.physical.clone(),
            logical: self.logical.clone(),
            allocated: self.allocated,
            hidden: self.hidden,
            components: copy_source_components(&self.components),
        }
    }
}

impl TargetOrigin {
    /// Whether two of them hold the same.
    pub open spec fn same(self, other: Self) -> bool {
        match self {
            TargetOrigin::Explicit { declared } => {
                &&& other is Explicit
                &&& declared@ == other->Explicit_declared@
            },
            TargetOrigin::Inferred { source } => {
                &&& other is Inferred
                &&& source@ == other->Inferred_source@
            },
            TargetOrigin::DirectoryExplicit { declared, relative } => {
                &&& other is DirectoryExplicit
                &&& declared@ == other->DirectoryExplicit_declared@
                &&& relative@ == other->DirectoryExplicit_relative@
            },
        }
    }

    /// Another one that holds the same.
    pub fn copy(&self) -> (r: Self)
        ensures
            r.same(*self),
    {
        match self {
            TargetOrigin::Explicit { declared } => TargetOrigin::Explicit {
                declared: declared.clone(),
            },
            TargetOrigin::Inferred { source } => TargetOrigin::Inferred {
                source: source.clone(),
            },
            TargetOrigin::DirectoryExplicit { declared, relative } => TargetOrigin::DirectoryExplicit {
                declared: declared.clone(),
                relative: relative.clone(),
            },
        }
    }
}

impl TargetPath {
    /// Whether two of them hold the same.
    pub open spec fn same(self, other: Self) -> bool {
        &&& self.path@ == other.path@
        &&& self.scope == other.scope
        &&& self.origin.same(other.origin)
    }

    /// Another one that holds the same.
    pub fn copy(&self) -> (r: Self)
        ensures
            r.same(*self),
    {
        TargetPath {
            path: self.path.clone(),
            scope: self.scope,
            origin: self.origin.copy(),
        }
    }
}

impl EvaluatedTargetOrigin {
    /// Whether two of them hold the same.
    pub open spec fn same(self, other: Self) -> bool {
        match self {
            EvaluatedTargetOrigin::Explicit { declared } => {
                &&& other is Explicit
                &&& declared@ == other->Explicit_declared@
            },
            EvaluatedTargetOrigin::Inferred { source } => {
                &&& other is Inferred
                &&& source@ == other->Inferred_source@
            },
        }
    }

    /// Another one that holds the same.
    pub fn copy(&self) -> (r: Self)
        ensures
            r.same(*self),
    {
        match self {
            EvaluatedTargetOrigin::Explicit { declared } => EvaluatedTargetOrigin::Explicit {
                declared: declared.clone(),
            },
            EvaluatedTargetOrigin::Inferred { source } => EvaluatedTargetOrigin::Inferred {
                source: source.clone(),
            },
        }
    }
}

impl EvaluatedTargetRoot {
    /// Whether two of them hold the same.
    pub open spec fn same(self, other: Self) -> bool {
        &&& self.path@ == other.path@
        &&& self.scope == other.scope
        &&& self.origin.same(other.origin)
    }

    /// Another one that holds the same.
    pub fn copy(&self) -> (r: Self)
        ensures
            r.same(*self),
    {
        EvaluatedTargetRoot {
            path: self.path.clone(),
            scope: self.scope,
            origin: self.origin.copy(),
        }
    }
}

impl TaskRunner {
    /// Whether two of them hold the same.
    pub open spec fn same(self, other: Self) -> bool {
        match self {
            TaskRunner::EmbeddedLua { contract_version } => {
                &&& other is EmbeddedLua
                &&& contract_version == other->EmbeddedLua_contract_version
            },
            TaskRunner::Direct { contract_version } => {
                &&& other is Direct
                &&& contract_version == other->Direct_contract_version
            },
            TaskRunner::Interpreter { contract_version, family, command, args } => {
                &&& other is Interpreter
                &&& contract_version == other->Interpreter_contract_version
                &&& family == other->Interpreter_family
                &&& command@ == other->Interpreter_command@
                &&& views(args@) == views(other->Interpreter_args@)
            },
        }
    }

    /// Another one that holds the same.
    pub fn copy(&self) -> (r: Self)
        ensures
            r.same(*self),
    {
        match self {
            TaskRunner::EmbeddedLua { contract_version } => TaskRunner::EmbeddedLua {
                contract_version: *contract_version,
            },
            TaskRunner::Direct { contract_version } => TaskRunner::Direct {
                contract_version: *contract_version,
            },
            TaskRunner::Interpreter { contract_version, family, command, args } => TaskRunner::Interpreter {
                contract_version: *contract_version,
                family: *family,
                command: command.clone(),
                args: copy_texts(args),
            },
        }
    }
}

/// A copy of a list.
pub fn copy_source_attributes(list: &Vec<SourceAttribute>) -> (r: Vec<SourceAttribute>)
    ensures
        r@ == list@,
{
    let mut r: Vec<SourceAttribute> = Vec::new();
    let mut i: usize = 0;
    while i < list.len()
        invariant
            0 <= i <= list@.len(),
            r@ == list@.take(i as int),
        decreases list@.len() - i,
    {
        r.push(list[i]);
        assert(list@.take(i + 1) =~= list@.take(i as int).push(list@[i as int]));
        i += 1;
    }
    assert(list@.take(list@.len() as int) =~= list@);
    r
}

/// Whether two lists hold the same.
pub open spec fn same_source_components(a: Seq<SourceComponent>, b: Seq<SourceComponent>) -> bool {
    a.len() == b.len() && forall|i: int| 0 <= i < a.len() ==> (#[trigger] a[i]).same(b[i])
}

/// A copy of a list.
pub fn copy_source_components(list: &Vec<SourceComponent>) -> (r: Vec<SourceComponent>)
    ensures
        same_source_components(r@, list@),
{
    let mut r: Vec<SourceComponent> = Vec::new();
    let mut i: usize = 0;
    while i < list.len()
        invariant
            0 <= i <= list@.len(),
            r@.len() == i,
            forall|j: int| 0 <= j < i ==> (#[trigger] r@[j]).same(list@[j]),
        decreases list@.len() - i,
    {
        r.push(list[i].copy());
        i += 1;
    }
    r
}

/// Whether two lists hold the same.
pub open spec fn same_source_locations(a: Seq<SourceLocation>, b: Seq<SourceLocation>) -> bool {
    a.len() == b.len() && forall|i: int| 0 <= i < a.len() ==> (#[trigger] a[i]).same(b[i])
}

/// A copy of a list.
pub fn copy_source_locations(list: &Vec<SourceLocation>) -> (r: Vec<SourceLocation>)
    ensures
        same_source_locations(r@, list@),
{
    let mut r: Vec<SourceLocation> = Vec::new();
    let mut i: usize = 0;
    while i < list.len()
        invariant
            0 <= i <= list@.len(),
            r@.len() == i,
            forall|j: int| 0 <= j < i ==> (#[trigger] r@[j]).same(list@[j]),
        decreases list@.len() - i,
    {
        r.push(list[i].copy());
        i += 1;
    }
    r
}

/// Whether two optional strings hold the same.
pub open spec fn same_text(a: Option<String>, b: Option<String>) -> bool {
    match a {
        Some(x) => b is Some && x@ == b->0@,
        None => b is None,
    }
}

/// A copy of an optional string.
pub fn copy_text(text: &Option<String>) -> (r: Option<String>)
    ensures
        same_text(r, *text),
{
    match text {
        Some(x) => Some(x.clone()),
        None => None,
    }
}

/// A copy of a list of strings.
pub fn copy_texts(list: &Vec<String>) -> (r: Vec<String>)
    ensures
        views(r@) == views(list@),
{
    let mut r: Vec<String> = Vec::new();
    let mut i: usize = 0;
    while i < list.len()
        invariant
            0 <= i <= list@.len(),
            r@.len() == i,
            forall|j: int| 0 <= j < i ==> (#[trigger] r@[j])@ == list@[j]@,
        decreases list@.len() - i,
    {
        r.push(list[i].clone());
        i += 1;
    }
    assert(views(r@) =~= views(list@));
    r
}

impl SourceLocation {
    /// The place as views write it.
    pub open spec fn text(self) -> Seq<char> {
        match self.line {
            Some(line) => {
                let shown = self.source@ + ":"@ + decimal(line as nat);
                match self.column {
                    Some(column) => shown + ":"@ + decimal(column as nat),
                    None => shown,
                }
            },
            None => self.source@,
        }
    }

    /// The place as views write it: the file, and the line and column as far as
    /// they are known.
    pub fn display(&self) -> (r: String)
        ensures
            r@ == self.text(),
    {
        match self.line {
            Some(line) => {
                let shown = cat3(self.source.as_str(), ":", decimal_text(line as u64).as_str());
                match self.column {
                    Some(column) => cat3(
                        shown.as_str(),
                        ":",
                        decimal_text(column as u64).as_str(),
                    ),
                    None => shown,
                }
            },
            None => self.source.clone(),
        }
    }
}

impl SourceTrace {
    /// The declaration as views write it.
    pub open spec fn text(self) -> Seq<char> {
        self.primary.text()
    }

    /// The declaration as views write it.
    pub fn display(&self) -> (r: String)
        ensures
            r@ == self.text(),
    {
        self.primary.display()
    }
}

/// A finished product.
#[derive(Debug, PartialEq)]
pub struct Manifest {
    /// The version of the format
    pub format_version: u32,
    /// The version of Wombat that built it
    pub wombat_version: String,
    /// Its identity
    pub build_id: String,
    /// The identity of its plan
    pub plan_id: String,
    /// How it was built
    pub execution_mode: ExecutionMode,
    /// The requirement gates that were skipped
    pub skipped_requirement_gates: Vec<String>,
    /// The sources of the repository
    pub sources: Vec<SourceFile>,
    /// The inputs
    pub inputs: Vec<BuildInput>,
    /// The platform it is for
    pub target: ResolvedTarget,
    /// What evaluation read
    pub observations: Vec<Observation>,
    /// What evaluation ran
    pub process_observations: Vec<ProcessObservation>,
    /// The modules
    pub modules: Vec<ManifestModule>,
    /// How the modules depend on each other
    pub dependencies: Vec<Dependency>,
    /// The packs of template helpers
    pub template_helpers: Vec<TemplateHelperPack>,
    /// The identity of the project
    pub project_identity: String,
    /// The ladder
    pub ladder: ExecutionLadder,
    /// The providers
    pub providers: Vec<Provider>,
    /// The requirements
    pub requirements: Vec<Requirement>,
    /// What the providers must do before bindings work
    pub prerequisites: Vec<ProviderPrerequisite>,
    /// What the providers do before their packages
    pub preparations: Vec<ProviderPreparation>,
    /// The tasks
    pub tasks: Vec<Task>,
    /// The scripts
    pub scripts: Vec<Script>,
    /// The rules for selected artifacts
    pub artifact_policy: ArtifactPolicy,
    /// The notices
    pub artifact_notices: Vec<ArtifactNotice>,
    /// The selections
    pub artifact_selections: Vec<ArtifactSelection>,
    /// The artifacts
    pub artifacts: Vec<Artifact>,
}

/// A frozen plan.
#[derive(Debug, PartialEq)]
pub struct BuildPlan {
    /// The version of the format
    pub format_version: u32,
    /// The version of the rules of construction
    pub construction_version: u32,
    /// The version of Wombat that made it
    pub wombat_version: String,
    /// The name of the project
    pub project: Option<String>,
    /// Its identity
    pub plan_id: String,
    /// The arguments of the project
    pub project_arguments: Vec<String>,
    /// The sources of the repository
    pub sources: Vec<SourceFile>,
    /// The inputs
    pub inputs: Vec<BuildInput>,
    /// The platform it is for
    pub target: ResolvedTarget,
    /// What evaluation read
    pub observations: Vec<Observation>,
    /// What evaluation ran
    pub process_observations: Vec<ProcessObservation>,
    /// The modules
    pub modules: Vec<ManifestModule>,
    /// How the modules depend on each other
    pub dependencies: Vec<Dependency>,
    /// The packs of template helpers
    pub template_helpers: Vec<TemplateHelperPack>,
    /// The identity of the project
    pub project_identity: String,
    /// The ladder
    pub ladder: ExecutionLadder,
    /// The providers
    pub providers: Vec<Provider>,
    /// The requirements
    pub requirements: Vec<Requirement>,
    /// What the providers do before their packages
    pub preparations: Vec<ProviderPreparation>,
    /// The tasks
    pub tasks: Vec<Task>,
    /// The scripts
    pub scripts: Vec<Script>,
    /// The rules for selected artifacts
    pub artifact_policy: ArtifactPolicy,
    /// The notices
    pub artifact_notices: Vec<ArtifactNotice>,
    /// The selections
    pub artifact_selections: Vec<ArtifactSelection>,
    /// The artifacts
    pub artifacts: Vec<PlannedArtifact>,
}

/// How an evaluated artifact will be produced.
#[derive(Debug, PartialEq)]
pub enum EvaluatedProduction {
    /// It is copied
    Static,
    /// It is rendered
    Template {
        /// The context
        context: FrozenValue,
    },
    /// Evaluation wrote it
    GeneratedLua {
        /// What it holds
        content: Vec<u8>,
        /// Whether it may be run
        executable: bool,
    },
    /// A task wrote it
    Task {
        /// The task
        identity: String,
        /// Its path in the output
        output: String,
        /// What it holds
        content: Vec<u8>,
        /// Whether it may be run
        executable: bool,
    },
}

/// An artifact as evaluation declared it.
#[derive(Debug, PartialEq)]
pub struct EvaluatedArtifact {
    /// Its kind
    pub kind: ArtifactKind,
    /// Its source
    pub source: String,
    /// How it came by its source
    pub source_origin: SourceOrigin,
    /// What the source path stands for
    pub source_projection: Option<SourceProjection>,
    /// How it will be produced
    pub production: EvaluatedProduction,
    /// Where it goes
    pub target: TargetPath,
    /// What tells whether its source has changed
    pub fingerprint: Option<SourceFingerprint>,
    /// The module that declared it
    pub owner: String,
    /// The declaration
    pub declared_at: SourceTrace,
}

/// A task as evaluation declared it.
#[derive(Debug, PartialEq)]
pub struct EvaluatedTask {
    /// The task
    pub task: Task,
    /// What tells whether its file has changed
    pub fingerprint: SourceFingerprint,
}

/// A directory or pattern as evaluation searched it.
#[derive(Debug, PartialEq)]
pub struct EvaluatedDirectory {
    /// As declared
    pub declared_source: String,
    /// Where the search started
    pub root: String,
    /// The selector in physical names
    pub physical_selector: String,
    /// The components before the first pattern
    pub static_root: String,
    /// Whether hidden components were authorised
    pub hidden: bool,
    /// Whether it is a pattern
    pub glob: bool,
    /// What was left out
    pub exclusions: Vec<String>,
    /// The directory that the targets are placed beneath
    pub target_root: Option<EvaluatedTargetRoot>,
    /// The module that declared it
    pub owner: String,
    /// The declaration
    pub declared_at: SourceTrace,
    /// What was found
    pub snapshot: Vec<DirectoryLeaf>,
}

/// What evaluation found out.
#[derive(Debug, PartialEq)]
pub struct EvaluatedManifest {
    /// The identity of its plan
    pub plan_id: String,
    /// The name of the project
    pub project: Option<String>,
    /// The arguments of the project
    pub project_arguments: Vec<String>,
    /// The sources of the repository
    pub sources: Vec<SourceFile>,
    /// The inputs
    pub inputs: Vec<BuildInput>,
    /// The platform it is for
    pub target: ResolvedTarget,
    /// What evaluation read
    pub observations: Vec<Observation>,
    /// What evaluation ran
    pub process_observations: Vec<ProcessObservation>,
    /// The modules
    pub modules: Vec<ManifestModule>,
    /// How the modules depend on each other
    pub dependencies: Vec<Dependency>,
    /// The packs of template helpers
    pub template_helpers: Vec<TemplateHelperPack>,
    /// The identity of the project
    pub project_identity: String,
    /// The ladder
    pub ladder: ExecutionLadder,
    /// The providers
    pub providers: Vec<Provider>,
    /// The requirements
    pub requirements: Vec<Requirement>,
    /// What the providers do before their packages
    pub preparations: Vec<ProviderPreparation>,
    /// The tasks
    pub tasks: Vec<EvaluatedTask>,
    /// The scripts
    pub scripts: Vec<Script>,
    /// The rules for selected artifacts
    pub artifact_policy: ArtifactPolicy,
    /// The notices
    pub artifact_notices: Vec<ArtifactNotice>,
    /// The selections
    pub artifact_selections: Vec<ArtifactSelection>,
    /// The artifacts
    pub artifacts: Vec<EvaluatedArtifact>,
    /// The directories and patterns
    pub directories: Vec<EvaluatedDirectory>,
}

impl Default for ArtifactPolicy {
    fn default() -> (r: Self)
        ensures
            r.unallocated == UnallocatedPolicy::Warn,
    {
        ArtifactPolicy { unallocated: UnallocatedPolicy::Warn }
    }
}

impl TargetPath {
    /// What tells targets apart.
    pub fn key(&self) -> (r: &str)
        ensures
            r@ == self.path@,
    {
        self.path.as_str()
    }
}

impl RequirementCandidate {
    /// The name of the command or package.
    pub open spec fn product(self) -> Seq<char> {
        match self {
            RequirementCandidate::Command { name, .. } => name@,
            RequirementCandidate::Package { name, .. } => name@,
        }
    }

    /// The least version asked for.
    pub open spec fn least(self) -> Option<String> {
        match self {
            RequirementCandidate::Command { minimum, .. } => minimum,
            RequirementCandidate::Package { minimum, .. } => minimum,
        }
    }

    /// The name of the command or package.
    pub fn name(&self) -> (r: &str)
        ensures
            r@ == self.product(),
    {
        match self {
            RequirementCandidate::Command { name, .. } => name.as_str(),
            RequirementCandidate::Package { name, .. } => name.as_str(),
        }
    }

    /// The least version asked for.
    pub fn minimum(&self) -> (r: Option<&str>)
        ensures
            match r {
                Some(version) => self.least() is Some && self.least()->0@ == version@,
                None => self.least() is None,
            },
    {
        let minimum = match self {
            RequirementCandidate::Command { minimum, .. } => minimum,
            RequirementCandidate::Package { minimum, .. } => minimum,
        };
        match minimum {
            Some(version) => Some(version.as_str()),
            None => None,
        }
    }
}

impl Publications {
    /// One published command.
    pub fn command(name: &str) -> (r: Publications)
        ensures
            views(r.commands@) == seq![name@],
    {
        let mut commands: Vec<String> = Vec::new();
        commands.push(name.to_owned());
        assert(views(commands@) =~= seq![name@]);
        Publications { commands }
    }
}

impl TaskRunner {
    /// The version of the contract.
    pub open spec fn contract(self) -> u32 {
        match self {
            TaskRunner::EmbeddedLua { contract_version } => contract_version,
            TaskRunner::Direct { contract_version } => contract_version,
            TaskRunner::Interpreter { contract_version, .. } => contract_version,
        }
    }

    /// The name of the family.
    pub open spec fn family_text(self) -> Seq<char> {
        match self {
            TaskRunner::EmbeddedLua { .. } => "embedded_lua"@,
            TaskRunner::Direct { .. } => "direct"@,
            TaskRunner::Interpreter { family, .. } => family.wire(),
        }
    }

    /// The version of the contract.
    pub fn contract_version(&self) -> (r: u32)
        ensures
            r == self.contract(),
    {
        match self {
            TaskRunner::EmbeddedLua { contract_version } => *contract_version,
            TaskRunner::Direct { contract_version } => *contract_version,
            TaskRunner::Interpreter { contract_version, .. } => *contract_version,
        }
    }

    /// Whether the Lua inside Wombat runs it.
    pub fn is_embedded_lua(&self) -> (r: bool)
        ensures
            r == (*self is EmbeddedLua),
    {
        matches!(self, TaskRunner::EmbeddedLua { .. })
    }

    /// Whether the file itself is run.
    pub fn is_direct(&self) -> (r: bool)
        ensures
            r == (*self is Direct),
    {
        matches!(self, TaskRunner::Direct { .. })
    }

    /// The interpreter, its command and its arguments.
    pub fn interpreter(&self) -> (r: Option<(InterpreterFamily, &str, &Vec<String>)>)
        ensures
            match *self {
                TaskRunner::Interpreter { family, command, args, .. } => {
                    &&& r is Some
                    &&& (r->0).0 == family
                    &&& (r->0).1@ == command@
                    &&& *(r->0).2 == args
                },
                _ => r is None,
            },
    {
        match self {
            TaskRunner::Interpreter { family, command, args, .. } => Some(
                (*family, command.as_str(), args),
            ),
            _ => None,
        }
    }

    /// The command of the interpreter.
    pub fn command(&self) -> (r: Option<&str>)
        ensures
            match *self {
                TaskRunner::Interpreter { command, .. } => r is Some && r->0@ == command@,
                _ => r is None,
            },
    {
        match self {
            TaskRunner::Interpreter { command, .. } => Some(command.as_str()),
            _ => None,
        }
    }

    /// The arguments of the interpreter.
    pub fn args(&self) -> (r: Vec<String>)
        ensures
            match *self {
                TaskRunner::Interpreter { args, .. } => views(r@) == views(args@),
                _ => r@.len() == 0,
            },
    {
        match self {
            TaskRunner::Interpreter { args, .. } => copy_texts(args),
            _ => Vec::new(),
        }
    }

    /// Whether a Python interpreter runs it.
    pub fn is_python(&self) -> (r: bool)
        ensures
            r == (*self matches TaskRunner::Interpreter { family, .. } && family
                == InterpreterFamily::Python),
    {
        match self {
            TaskRunner::Interpreter { family, .. } => *family == InterpreterFamily::Python,
            _ => false,
        }
    }

    /// The name of the family.
    pub fn family_name(&self) -> (r: &'static str)
        ensures
            r@ == self.family_text(),
    {
        match self {
            TaskRunner::EmbeddedLua { .. } => "embedded_lua",
            TaskRunner::Direct { .. } => "direct",
            TaskRunner::Interpreter { family, .. } => family.wire_name(),
        }
    }
}

impl InterpreterFamily {
    /// Its name.
    pub fn as_str(self) -> (r: &'static str)
        ensures
            r@ == self.wire(),
    {
        self.wire_name()
    }
}

} // verus!
