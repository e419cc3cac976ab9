//! The serialised form of the model: field by field, in the order of
//! declaration, absent options left out.
use serde_json::Value;
use vstd::prelude::*;
use vstd::string::*;

use crate::json::{
    all_contents, array_value, bool_value, contents, member_contents, members, no_members,
    null_value, object_tree, object_value, optional_text, optional_value, put, signed_value,
    text_trees, text_value, texts_value, unsigned_value, JsonTree,
};
use crate::model::frozen::frozen_value;
use crate::model::ladder::rung_id_value;
use crate::model::manifest::{
    SourceAttribute, Artifact, ArtifactNotice, ArtifactPolicy, ArtifactSelection, BuildInput,
    Dependency, EvaluatedTargetOrigin, FileContent, ManifestModule, ModuleSourceBase, Observation,
    PlannedArtifact, PlannedProduction, ProcessEnvironmentChange, ProcessInvocation,
    ProcessObservation, Production, Provider, ProviderBinding, ProviderFile, ProviderOrigin,
    ProviderPreparation, ProviderPrerequisite, Publications, RendererIdentity, Requirement,
    RequirementCandidate, ResolutionAttempt, ResolutionOutcome, Script, ScriptPayload,
    SourceComponent, SourceFile, SourceLocation, SourceOrigin, SourceProjection, SourceTrace,
    TargetOrigin, TargetPath, Task, TaskCachePolicy, TaskOutput, TaskRunner, TaskTargetRoot,
    TemplateHelperExport, TemplateHelperPack,
};

verus! {

/// A number, or `null` where there is none.
pub open spec fn optional_number(value: Option<u64>) -> JsonTree {
    match value {
        Some(value) => JsonTree::Integer(value as int),
        None => JsonTree::Null,
    }
}

/// A signed number, or `null` where there is none.
pub open spec fn optional_code(value: Option<i32>) -> JsonTree {
    match value {
        Some(value) => JsonTree::Integer(value as int),
        None => JsonTree::Null,
    }
}

fn optional_number_value(value: Option<u64>) -> (r: Value)
    ensures
        contents(r) == optional_number(value),
{
    match value {
        Some(value) => unsigned_value(value),
        None => null_value(),
    }
}

fn optional_code_value(value: Option<i32>) -> (r: Value)
    ensures
        contents(r) == optional_code(value),
{
    match value {
        Some(value) => signed_value(value as i64),
        None => null_value(),
    }
}

/// The members of a map of strings.
pub open spec fn pair_trees(pairs: Seq<(String, String)>) -> Seq<(Seq<char>, JsonTree)> {
    pairs.map_values(|p: (String, String)| (p.0@, JsonTree::Text(p.1@)))
}

fn pairs_value(pairs: &Vec<(String, String)>) -> (r: Value)
    ensures
        contents(r) == object_tree(pair_trees(pairs@)),
{
    let mut m = members();
    let mut i: usize = 0;
    assert(pair_trees(pairs@).take(0) =~= no_members());
    while i < pairs.len()
        invariant
            0 <= i <= pairs@.len(),
            member_contents(m@) == pair_trees(pairs@).take(i as int),
        decreases pairs@.len() - i,
    {
        put(&mut m, pairs[i].0.as_str(), text_value(pairs[i].1.as_str()));
        assert(pair_trees(pairs@).take(i + 1) =~= pair_trees(pairs@).take(i as int).push(
            (pairs@[i as int].0@, JsonTree::Text(pairs@[i as int].1@)),
        ));
        i += 1;
    }
    assert(pair_trees(pairs@).take(pairs@.len() as int) =~= pair_trees(pairs@));
    object_value(m)
}

impl SourceFile {
    /// Its serialised form.
    pub open spec fn tree(self) -> JsonTree {
        let m = no_members();
        let m = m.push(("path"@, JsonTree::Text(self.path@)));
        let m = m.push(("digest"@, JsonTree::Text(self.digest@)));
        object_tree(m)
    }
}

/// Serialises it.
pub(crate) fn source_file_value(v: &SourceFile) -> (r: Value)
    ensures
        contents(r) == v.tree(),
{
    let mut m = members();
    put(&mut m, "path", text_value(v.path.as_str()));
    put(&mut m, "digest", text_value(v.digest.as_str()));
    object_value(m)
}

impl SourceLocation {
    /// Its serialised form.
    pub open spec fn tree(self) -> JsonTree {
        let m = no_members();
        let m = m.push(("source"@, JsonTree::Text(self.source@)));
        let m = if self.line is Some { m.push(("line"@, JsonTree::Integer(self.line->0 as int))) } else { m };
        let m = if self.column is Some { m.push(("column"@, JsonTree::Integer(self.column->0 as int))) } else { m };
        object_tree(m)
    }
}

/// Serialises it.
pub(crate) fn source_location_value(v: &SourceLocation) -> (r: Value)
    ensures
        contents(r) == v.tree(),
{
    let mut m = members();
    put(&mut m, "source", text_value(v.source.as_str()));
    match &v.line {
        Some(x) => put(&mut m, "line", unsigned_value(*x as u64)),
        None => {},
    }
    match &v.column {
        Some(x) => put(&mut m, "column", unsigned_value(*x as u64)),
        None => {},
    }
    object_value(m)
}

impl SourceTrace {
    /// Its serialised form.
    pub open spec fn tree(self) -> JsonTree {
        let m = no_members();
        let m = m.push(("primary"@, self.primary.tree()));
        let m = m.push(("callers"@, JsonTree::Array(source_location_trees(self.callers@))));
        object_tree(m)
    }
}

/// Serialises it.
pub(crate) fn source_trace_value(v: &SourceTrace) -> (r: Value)
    ensures
        contents(r) == v.tree(),
{
    let mut m = members();
    put(&mut m, "primary", source_location_value(&v.primary));
    put(&mut m, "callers", source_location_values(&v.callers));
    object_value(m)
}

impl ArtifactPolicy {
    /// Its serialised form.
    pub open spec fn tree(self) -> JsonTree {
        let m = no_members();
        let m = m.push(("unallocated"@, JsonTree::Text(self.unallocated.wire())));
        object_tree(m)
    }
}

/// Serialises it.
pub(crate) fn artifact_policy_value(v: &ArtifactPolicy) -> (r: Value)
    ensures
        contents(r) == v.tree(),
{
    let mut m = members();
    put(&mut m, "unallocated", text_value(v.unallocated.wire_name()));
    object_value(m)
}

impl ArtifactNotice {
    /// Its serialised form.
    pub open spec fn tree(self) -> JsonTree {
        let m = no_members();
        let m = m.push(("kind"@, JsonTree::Text(self.kind.wire())));
        let m = m.push(("owner"@, JsonTree::Text(self.owner@)));
        let m = m.push(("selector"@, JsonTree::Text(self.selector@)));
        let m = m.push(("skipped"@, JsonTree::Array(text_trees(self.skipped@))));
        let m = m.push(("declared_at"@, self.declared_at.tree()));
        object_tree(m)
    }
}

/// Serialises it.
pub(crate) fn artifact_notice_value(v: &ArtifactNotice) -> (r: Value)
    ensures
        contents(r) == v.tree(),
{
    let mut m = members();
    put(&mut m, "kind", text_value(v.kind.wire_name()));
    put(&mut m, "owner", text_value(v.owner.as_str()));
    put(&mut m, "selector", text_value(v.selector.as_str()));
    put(&mut m, "skipped", texts_value(&v.skipped));
    put(&mut m, "declared_at", source_trace_value(&v.declared_at));
    object_value(m)
}

impl ArtifactSelection {
    /// Its serialised form.
    pub open spec fn tree(self) -> JsonTree {
        let m = no_members();
        let m = m.push(("owner"@, JsonTree::Text(self.owner@)));
        let m = m.push(("declared"@, JsonTree::Text(self.declared@)));
        let m = m.push(("expanded"@, JsonTree::Text(self.expanded@)));
        let m = m.push(("physical"@, JsonTree::Text(self.physical@)));
        let m = m.push(("source_base"@, JsonTree::Text(self.source_base@)));
        let m = m.push(("source_base_logical"@, JsonTree::Text(self.source_base_logical@)));
        let m = if self.source_base_target is Some { m.push(("source_base_target"@, JsonTree::Text(self.source_base_target->0@))) } else { m };
        let m = m.push(("source_base_hidden"@, JsonTree::Bool(self.source_base_hidden)));
        let m = m.push(("hidden"@, JsonTree::Bool(self.hidden)));
        let m = m.push(("kind"@, JsonTree::Text(self.kind.wire())));
        let m = m.push(("static_root"@, JsonTree::Text(self.static_root@)));
        let m = m.push(("exclusions"@, JsonTree::Array(text_trees(self.exclusions@))));
        let m = m.push(("allow_empty"@, JsonTree::Bool(self.allow_empty)));
        let m = if self.explicit_target is Some { m.push(("explicit_target"@, JsonTree::Text(self.explicit_target->0@))) } else { m };
        let m = m.push(("matches"@, JsonTree::Array(text_trees(self.matches@))));
        let m = m.push(("skipped_unallocated"@, JsonTree::Array(text_trees(self.skipped_unallocated@))));
        let m = m.push(("declared_at"@, self.declared_at.tree()));
        object_tree(m)
    }
}

/// Serialises it.
pub(crate) fn artifact_selection_value(v: &ArtifactSelection) -> (r: Value)
    ensures
        contents(r) == v.tree(),
{
    let mut m = members();
    put(&mut m, "owner", text_value(v.owner.as_str()));
    put(&mut m, "declared", text_value(v.declared.as_str()));
    put(&mut m, "expanded", text_value(v.expanded.as_str()));
    put(&mut m, "physical", text_value(v.physical.as_str()));
    put(&mut m, "source_base", text_value(v.source_base.as_str()));
    put(&mut m, "source_base_logical", text_value(v.source_base_logical.as_str()));
    match &v.source_base_target {
        Some(x) => put(&mut m, "source_base_target", text_value(x.as_str())),
        None => {},
    }
    put(&mut m, "source_base_hidden", bool_value(v.source_base_hidden));
    put(&mut m, "hidden", bool_value(v.hidden));
    put(&mut m, "kind", text_value(v.kind.wire_name()));
    put(&mut m, "static_root", text_value(v.static_root.as_str()));
    put(&mut m, "exclusions", texts_value(&v.exclusions));
    put(&mut m, "allow_empty", bool_value(v.allow_empty));
    match &v.explicit_target {
        Some(x) => put(&mut m, "explicit_target", text_value(x.as_str())),
        None => {},
    }
    put(&mut m, "matches", texts_value(&v.matches));
    put(&mut m, "skipped_unallocated", texts_value(&v.skipped_unallocated));
    put(&mut m, "declared_at", source_trace_value(&v.declared_at));
    object_value(m)
}

impl ProviderFile {
    /// Its serialised form.
    pub open spec fn tree(self) -> JsonTree {
        let m = no_members();
        let m = m.push(("source"@, JsonTree::Text(self.source@)));
        let m = m.push(("payload"@, JsonTree::Text(self.payload@)));
        let m = m.push(("digest"@, JsonTree::Text(self.digest@)));
        let m = m.push(("size"@, JsonTree::Integer(self.size as int)));
        object_tree(m)
    }
}

/// Serialises it.
pub(crate) fn provider_file_value(v: &ProviderFile) -> (r: Value)
    ensures
        contents(r) == v.tree(),
{
    let mut m = members();
    put(&mut m, "source", text_value(v.source.as_str()));
    put(&mut m, "payload", text_value(v.payload.as_str()));
    put(&mut m, "digest", text_value(v.digest.as_str()));
    put(&mut m, "size", unsigned_value(v.size));
    object_value(m)
}

impl ProviderOrigin {
    /// Its serialised form.
    pub open spec fn tree(self) -> JsonTree {
        match self {
            ProviderOrigin::Builtin { contract_version } => {
                let m = no_members().push(("kind"@, JsonTree::Text("builtin"@)));
                let m = m.push(("contract_version"@, JsonTree::Integer(contract_version as int)));
                object_tree(m)
            },
            ProviderOrigin::Custom { entrypoint, files } => {
                let m = no_members().push(("kind"@, JsonTree::Text("custom"@)));
                let m = m.push(("entrypoint"@, JsonTree::Text(entrypoint@)));
                let m = m.push(("files"@, JsonTree::Array(provider_file_trees(files@))));
                object_tree(m)
            },
        }
    }
}

/// Serialises it.
pub(crate) fn provider_origin_value(v: &ProviderOrigin) -> (r: Value)
    ensures
        contents(r) == v.tree(),
{
    let mut m = members();
    match v {
        ProviderOrigin::Builtin { contract_version } => {
            put(&mut m, "kind", text_value("builtin"));
            put(&mut m, "contract_version", unsigned_value(*contract_version as u64));
        },
        ProviderOrigin::Custom { entrypoint, files } => {
            put(&mut m, "kind", text_value("custom"));
            put(&mut m, "entrypoint", text_value(entrypoint.as_str()));
            put(&mut m, "files", provider_file_values(files));
        },
    }
    object_value(m)
}

impl Provider {
    /// Its serialised form.
    pub open spec fn tree(self) -> JsonTree {
        let m = no_members();
        let m = m.push(("name"@, JsonTree::Text(self.name@)));
        let m = m.push(("priority"@, JsonTree::Integer(self.priority as int)));
        let m = m.push(("config"@, self.config.tree()));
        let m = m.push(("origin"@, self.origin.tree()));
        let m = m.push(("declared_at"@, self.declared_at.tree()));
        object_tree(m)
    }
}

/// Serialises it.
pub(crate) fn provider_value(v: &Provider) -> (r: Value)
    ensures
        contents(r) == v.tree(),
{
    let mut m = members();
    put(&mut m, "name", text_value(v.name.as_str()));
    put(&mut m, "priority", unsigned_value(v.priority as u64));
    put(&mut m, "config", frozen_value(&v.config));
    put(&mut m, "origin", provider_origin_value(&v.origin));
    put(&mut m, "declared_at", source_trace_value(&v.declared_at));
    object_value(m)
}

impl Publications {
    /// Its serialised form.
    pub open spec fn tree(self) -> JsonTree {
        let m = no_members();
        let m = m.push(("commands"@, JsonTree::Array(text_trees(self.commands@))));
        object_tree(m)
    }
}

/// Serialises it.
pub(crate) fn publications_value(v: &Publications) -> (r: Value)
    ensures
        contents(r) == v.tree(),
{
    let mut m = members();
    put(&mut m, "commands", texts_value(&v.commands));
    object_value(m)
}

impl RequirementCandidate {
    /// Its serialised form.
    pub open spec fn tree(self) -> JsonTree {
        match self {
            RequirementCandidate::Command { name, minimum } => {
                let m = no_members().push(("kind"@, JsonTree::Text("command"@)));
                let m = m.push(("name"@, JsonTree::Text(name@)));
                let m = if minimum is Some { m.push(("minimum"@, JsonTree::Text(minimum->0@))) } else { m };
                object_tree(m)
            },
            RequirementCandidate::Package { name, provider, minimum, publications, with } => {
                let m = no_members().push(("kind"@, JsonTree::Text("package"@)));
                let m = m.push(("name"@, JsonTree::Text(name@)));
                let m = if provider is Some { m.push(("provider"@, JsonTree::Text(provider->0@))) } else { m };
                let m = if minimum is Some { m.push(("minimum"@, JsonTree::Text(minimum->0@))) } else { m };
                let m = m.push(("publications"@, publications.tree()));
                let m = m.push(("with"@, with.tree()));
                object_tree(m)
            },
        }
    }
}

/// Serialises it.
pub(crate) fn requirement_candidate_value(v: &RequirementCandidate) -> (r: Value)
    ensures
        contents(r) == v.tree(),
{
    let mut m = members();
    match v {
        RequirementCandidate::Command { name, minimum } => {
            put(&mut m, "kind", text_value("command"));
            put(&mut m, "name", text_value(name.as_str()));
            match minimum {
                Some(x) => put(&mut m, "minimum", text_value(x.as_str())),
                None => {},
            }
        },
        RequirementCandidate::Package { name, provider, minimum, publications, with } => {
            put(&mut m, "kind", text_value("package"));
            put(&mut m, "name", text_value(name.as_str()));
            match provider {
                Some(x) => put(&mut m, "provider", text_value(x.as_str())),
                None => {},
            }
            match minimum {
                Some(x) => put(&mut m, "minimum", text_value(x.as_str())),
                None => {},
            }
            put(&mut m, "publications", publications_value(publications));
            put(&mut m, "with", frozen_value(with));
        },
    }
    object_value(m)
}

impl ResolutionOutcome {
    /// Its serialised form.
    pub open spec fn tree(self) -> JsonTree {
        match self {
            ResolutionOutcome::Selected => {
                let m = no_members().push(("kind"@, JsonTree::Text("selected"@)));
                object_tree(m)
            },
            ResolutionOutcome::Unsupported { reason } => {
                let m = no_members().push(("kind"@, JsonTree::Text("unsupported"@)));
                let m = m.push(("reason"@, JsonTree::Text(reason@)));
                object_tree(m)
            },
        }
    }
}

/// Serialises it.
pub(crate) fn resolution_outcome_value(v: &ResolutionOutcome) -> (r: Value)
    ensures
        contents(r) == v.tree(),
{
    let mut m = members();
    match v {
        ResolutionOutcome::Selected => {
            put(&mut m, "kind", text_value("selected"));
        },
        ResolutionOutcome::Unsupported { reason } => {
            put(&mut m, "kind", text_value("unsupported"));
            put(&mut m, "reason", text_value(reason.as_str()));
        },
    }
    object_value(m)
}

impl ResolutionAttempt {
    /// Its serialised form.
    pub open spec fn tree(self) -> JsonTree {
        let m = no_members();
        let m = m.push(("candidate"@, JsonTree::Integer(self.candidate as int)));
        let m = m.push(("provider"@, JsonTree::Text(self.provider@)));
        let m = m.push(("outcome"@, self.outcome.tree()));
        object_tree(m)
    }
}

/// Serialises it.
pub(crate) fn resolution_attempt_value(v: &ResolutionAttempt) -> (r: Value)
    ensures
        contents(r) == v.tree(),
{
    let mut m = members();
    put(&mut m, "candidate", unsigned_value(v.candidate as u64));
    put(&mut m, "provider", text_value(v.provider.as_str()));
    put(&mut m, "outcome", resolution_outcome_value(&v.outcome));
    object_value(m)
}

impl ProviderBinding {
    /// Its serialised form.
    pub open spec fn tree(self) -> JsonTree {
        let m = no_members();
        let m = m.push(("provider"@, JsonTree::Text(self.provider@)));
        let m = m.push(("identity"@, JsonTree::Text(self.identity@)));
        let m = m.push(("elevated"@, JsonTree::Bool(self.elevated)));
        let m = if self.package is Some { m.push(("package"@, JsonTree::Text(self.package->0@))) } else { m };
        let m = m.push(("publications"@, self.publications.tree()));
        let m = m.push(("prerequisites"@, JsonTree::Array(text_trees(self.prerequisites@))));
        let m = m.push(("data"@, self.data.tree()));
        object_tree(m)
    }
}

/// Serialises it.
pub(crate) fn provider_binding_value(v: &ProviderBinding) -> (r: Value)
    ensures
        contents(r) == v.tree(),
{
    let mut m = members();
    put(&mut m, "provider", text_value(v.provider.as_str()));
    put(&mut m, "identity", text_value(v.identity.as_str()));
    put(&mut m, "elevated", bool_value(v.elevated));
    match &v.package {
        Some(x) => put(&mut m, "package", text_value(x.as_str())),
        None => {},
    }
    put(&mut m, "publications", publications_value(&v.publications));
    put(&mut m, "prerequisites", texts_value(&v.prerequisites));
    put(&mut m, "data", frozen_value(&v.data));
    object_value(m)
}

impl Requirement {
    /// Its serialised form.
    pub open spec fn tree(self) -> JsonTree {
        let m = no_members();
        let m = m.push(("kind"@, JsonTree::Text(self.kind.wire())));
        let m = m.push(("owner"@, JsonTree::Text(self.owner@)));
        let m = m.push(("declared_at"@, self.declared_at.tree()));
        let m = m.push(("candidates"@, JsonTree::Array(requirement_candidate_trees(self.candidates@))));
        let m = m.push(("attempts"@, JsonTree::Array(resolution_attempt_trees(self.attempts@))));
        let m = m.push(("selected"@, JsonTree::Integer(self.selected as int)));
        let m = m.push(("choice"@, JsonTree::Text(self.choice.wire())));
        let m = m.push(("binding"@, self.binding.tree()));
        let m = m.push(("when"@, self.when.tree()));
        object_tree(m)
    }
}

/// Serialises it.
pub(crate) fn requirement_value(v: &Requirement) -> (r: Value)
    ensures
        contents(r) == v.tree(),
{
    let mut m = members();
    put(&mut m, "kind", text_value(v.kind.wire_name()));
    put(&mut m, "owner", text_value(v.owner.as_str()));
    put(&mut m, "declared_at", source_trace_value(&v.declared_at));
    put(&mut m, "candidates", requirement_candidate_values(&v.candidates));
    put(&mut m, "attempts", resolution_attempt_values(&v.attempts));
    put(&mut m, "selected", unsigned_value(v.selected as u64));
    put(&mut m, "choice", text_value(v.choice.wire_name()));
    put(&mut m, "binding", provider_binding_value(&v.binding));
    put(&mut m, "when", rung_id_value(&v.when));
    object_value(m)
}

impl ProviderPrerequisite {
    /// Its serialised form.
    pub open spec fn tree(self) -> JsonTree {
        let m = no_members();
        let m = m.push(("provider"@, JsonTree::Text(self.provider@)));
        let m = m.push(("identity"@, JsonTree::Text(self.identity@)));
        let m = m.push(("description"@, JsonTree::Text(self.description@)));
        let m = m.push(("when"@, self.when.tree()));
        let m = m.push(("elevated"@, JsonTree::Bool(self.elevated)));
        let m = m.push(("data"@, self.data.tree()));
        object_tree(m)
    }
}

/// Serialises it.
pub(crate) fn provider_prerequisite_value(v: &ProviderPrerequisite) -> (r: Value)
    ensures
        contents(r) == v.tree(),
{
    let mut m = members();
    put(&mut m, "provider", text_value(v.provider.as_str()));
    put(&mut m, "identity", text_value(v.identity.as_str()));
    put(&mut m, "description", text_value(v.description.as_str()));
    put(&mut m, "when", rung_id_value(&v.when));
    put(&mut m, "elevated", bool_value(v.elevated));
    put(&mut m, "data", frozen_value(&v.data));
    object_value(m)
}

impl ProviderPreparation {
    /// Its serialised form.
    pub open spec fn tree(self) -> JsonTree {
        let m = no_members();
        let m = m.push(("provider"@, JsonTree::Text(self.provider@)));
        let m = m.push(("identity"@, JsonTree::Text(self.identity@)));
        let m = m.push(("description"@, JsonTree::Text(self.description@)));
        let m = m.push(("elevated"@, JsonTree::Bool(self.elevated)));
        let m = m.push(("data"@, self.data.tree()));
        object_tree(m)
    }
}

/// Serialises it.
pub(crate) fn provider_preparation_value(v: &ProviderPreparation) -> (r: Value)
    ensures
        contents(r) == v.tree(),
{
    let mut m = members();
    put(&mut m, "provider", text_value(v.provider.as_str()));
    put(&mut m, "identity", text_value(v.identity.as_str()));
    put(&mut m, "description", text_value(v.description.as_str()));
    put(&mut m, "elevated", bool_value(v.elevated));
    put(&mut m, "data", frozen_value(&v.data));
    object_value(m)
}

impl BuildInput {
    /// Its serialised form.
    pub open spec fn tree(self) -> JsonTree {
        let m = no_members();
        let m = m.push(("name"@, JsonTree::Text(self.name@)));
        let m = m.push(("kind"@, JsonTree::Text(self.kind.wire())));
        let m = m.push(("value"@, self.value.tree()));
        let m = m.push(("origin"@, JsonTree::Text(self.origin.wire())));
        let m = m.push(("declared_at"@, self.declared_at.tree()));
        object_tree(m)
    }
}

/// Serialises it.
pub(crate) fn build_input_value(v: &BuildInput) -> (r: Value)
    ensures
        contents(r) == v.tree(),
{
    let mut m = members();
    put(&mut m, "name", text_value(v.name.as_str()));
    put(&mut m, "kind", text_value(v.kind.wire_name()));
    put(&mut m, "value", frozen_value(&v.value));
    put(&mut m, "origin", text_value(v.origin.wire_name()));
    put(&mut m, "declared_at", source_trace_value(&v.declared_at));
    object_value(m)
}

impl Observation {
    /// Its serialised form.
    pub open spec fn tree(self) -> JsonTree {
        let m = no_members();
        let m = m.push(("subject"@, JsonTree::Text(self.subject.wire())));
        let m = m.push(("path"@, JsonTree::Text(self.path@)));
        let m = m.push(("value"@, self.value.tree()));
        object_tree(m)
    }
}

/// Serialises it.
pub(crate) fn observation_value(v: &Observation) -> (r: Value)
    ensures
        contents(r) == v.tree(),
{
    let mut m = members();
    put(&mut m, "subject", text_value(v.subject.wire_name()));
    put(&mut m, "path", text_value(v.path.as_str()));
    put(&mut m, "value", frozen_value(&v.value));
    object_value(m)
}

impl ProcessInvocation {
    /// Its serialised form.
    pub open spec fn tree(self) -> JsonTree {
        match self {
            ProcessInvocation::Exec { argv } => {
                let m = no_members().push(("kind"@, JsonTree::Text("exec"@)));
                let m = m.push(("argv"@, JsonTree::Array(text_trees(argv@))));
                object_tree(m)
            },
            ProcessInvocation::Shell { command, shell } => {
                let m = no_members().push(("kind"@, JsonTree::Text("shell"@)));
                let m = m.push(("command"@, JsonTree::Text(command@)));
                let m = m.push(("shell"@, JsonTree::Text(shell@)));
                object_tree(m)
            },
        }
    }
}

/// Serialises it.
pub(crate) fn process_invocation_value(v: &ProcessInvocation) -> (r: Value)
    ensures
        contents(r) == v.tree(),
{
    let mut m = members();
    match v {
        ProcessInvocation::Exec { argv } => {
            put(&mut m, "kind", text_value("exec"));
            put(&mut m, "argv", texts_value(argv));
        },
        ProcessInvocation::Shell { command, shell } => {
            put(&mut m, "kind", text_value("shell"));
            put(&mut m, "command", text_value(command.as_str()));
            put(&mut m, "shell", text_value(shell.as_str()));
        },
    }
    object_value(m)
}

impl ProcessEnvironmentChange {
    /// Its serialised form.
    pub open spec fn tree(self) -> JsonTree {
        let m = no_members();
        let m = m.push(("name"@, JsonTree::Text(self.name@)));
        let m = m.push(("value"@, optional_text(self.value)));
        object_tree(m)
    }
}

/// Serialises it.
pub(crate) fn process_environment_change_value(v: &ProcessEnvironmentChange) -> (r: Value)
    ensures
        contents(r) == v.tree(),
{
    let mut m = members();
    put(&mut m, "name", text_value(v.name.as_str()));
    put(&mut m, "value", optional_value(&v.value));
    object_value(m)
}

impl ProcessObservation {
    /// Its serialised form.
    pub open spec fn tree(self) -> JsonTree {
        let m = no_members();
        let m = m.push(("invocation"@, self.invocation.tree()));
        let m = m.push(("cwd"@, JsonTree::Text(self.cwd@)));
        let m = m.push(("environment"@, JsonTree::Array(process_environment_change_trees(self.environment@))));
        let m = m.push(("stdin_digest"@, optional_text(self.stdin_digest)));
        let m = m.push(("timeout_ms"@, optional_number(self.timeout_ms)));
        let m = m.push(("max_output"@, JsonTree::Integer(self.max_output as int)));
        let m = m.push(("sensitive"@, JsonTree::Bool(self.sensitive)));
        let m = m.push(("ok"@, JsonTree::Bool(self.ok)));
        let m = m.push(("code"@, optional_code(self.code)));
        let m = m.push(("signal"@, optional_code(self.signal)));
        let m = m.push(("stdout_size"@, JsonTree::Integer(self.stdout_size as int)));
        let m = m.push(("stdout_digest"@, JsonTree::Text(self.stdout_digest@)));
        let m = m.push(("stderr_size"@, JsonTree::Integer(self.stderr_size as int)));
        let m = m.push(("stderr_digest"@, JsonTree::Text(self.stderr_digest@)));
        let m = m.push(("declared_at"@, self.declared_at.tree()));
        object_tree(m)
    }
}

/// Serialises it.
pub(crate) fn process_observation_value(v: &ProcessObservation) -> (r: Value)
    ensures
        contents(r) == v.tree(),
{
    let mut m = members();
    put(&mut m, "invocation", process_invocation_value(&v.invocation));
    put(&mut m, "cwd", text_value(v.cwd.as_str()));
    put(&mut m, "environment", process_environment_change_values(&v.environment));
    put(&mut m, "stdin_digest", optional_value(&v.stdin_digest));
    put(&mut m, "timeout_ms", optional_number_value(v.timeout_ms));
    put(&mut m, "max_output", unsigned_value(v.max_output));
    put(&mut m, "sensitive", bool_value(v.sensitive));
    put(&mut m, "ok", bool_value(v.ok));
    put(&mut m, "code", optional_code_value(v.code));
    put(&mut m, "signal", optional_code_value(v.signal));
    put(&mut m, "stdout_size", unsigned_value(v.stdout_size));
    put(&mut m, "stdout_digest", text_value(v.stdout_digest.as_str()));
    put(&mut m, "stderr_size", unsigned_value(v.stderr_size));
    put(&mut m, "stderr_digest", text_value(v.stderr_digest.as_str()));
    put(&mut m, "declared_at", source_trace_value(&v.declared_at));
    object_value(m)
}

impl ModuleSourceBase {
    /// Its serialised form.
    pub open spec fn tree(self) -> JsonTree {
        let m = no_members();
        let m = m.push(("declared"@, JsonTree::Text(self.declared@)));
        let m = m.push(("expanded"@, JsonTree::Text(self.expanded@)));
        let m = m.push(("physical"@, JsonTree::Text(self.physical@)));
        let m = m.push(("logical"@, JsonTree::Text(self.logical@)));
        let m = if self.target is Some { m.push(("target"@, JsonTree::Text(self.target->0@))) } else { m };
        let m = m.push(("hidden"@, JsonTree::Bool(self.hidden)));
        object_tree(m)
    }
}

/// Serialises it.
pub(crate) fn module_source_base_value(v: &ModuleSourceBase) -> (r: Value)
    ensures
        contents(r) == v.tree(),
{
    let mut m = members();
    put(&mut m, "declared", text_value(v.declared.as_str()));
    put(&mut m, "expanded", text_value(v.expanded.as_str()));
    put(&mut m, "physical", text_value(v.physical.as_str()));
    put(&mut m, "logical", text_value(v.logical.as_str()));
    match &v.target {
        Some(x) => put(&mut m, "target", text_value(x.as_str())),
        None => {},
    }
    put(&mut m, "hidden", bool_value(v.hidden));
    object_value(m)
}

impl ManifestModule {
    /// Its serialised form.
    pub open spec fn tree(self) -> JsonTree {
        let m = no_members();
        let m = m.push(("name"@, JsonTree::Text(self.name@)));
        let m = m.push(("source"@, JsonTree::Text(self.source@)));
        let m = m.push(("config"@, self.config.tree()));
        let m = if self.source_base is Some { m.push(("source_base"@, self.source_base->0.tree())) } else { m };
        object_tree(m)
    }
}

/// Serialises it.
pub(crate) fn manifest_module_value(v: &ManifestModule) -> (r: Value)
    ensures
        contents(r) == v.tree(),
{
    let mut m = members();
    put(&mut m, "name", text_value(v.name.as_str()));
    put(&mut m, "source", text_value(v.source.as_str()));
    put(&mut m, "config", frozen_value(&v.config));
    match &v.source_base {
        Some(x) => put(&mut m, "source_base", module_source_base_value(x)),
        None => {},
    }
    object_value(m)
}

impl Dependency {
    /// Its serialised form.
    pub open spec fn tree(self) -> JsonTree {
        let m = no_members();
        let m = m.push(("kind"@, JsonTree::Text(self.kind.wire())));
        let m = m.push(("from"@, JsonTree::Text(self.from@)));
        let m = m.push(("to"@, JsonTree::Text(self.to@)));
        let m = m.push(("declared_at"@, self.declared_at.tree()));
        object_tree(m)
    }
}

/// Serialises it.
pub(crate) fn dependency_value(v: &Dependency) -> (r: Value)
    ensures
        contents(r) == v.tree(),
{
    let mut m = members();
    put(&mut m, "kind", text_value(v.kind.wire_name()));
    put(&mut m, "from", text_value(v.from.as_str()));
    put(&mut m, "to", text_value(v.to.as_str()));
    put(&mut m, "declared_at", source_trace_value(&v.declared_at));
    object_value(m)
}

impl SourceOrigin {
    /// Its serialised form.
    pub open spec fn tree(self) -> JsonTree {
        match self {
            SourceOrigin::Direct { declared, expanded } => {
                let m = no_members().push(("kind"@, JsonTree::Text("direct"@)));
                let m = m.push(("declared"@, JsonTree::Text(declared@)));
                let m = m.push(("expanded"@, JsonTree::Text(expanded@)));
                object_tree(m)
            },
            SourceOrigin::Directory { declared, expanded, root, relative, exclusions, allow_empty } => {
                let m = no_members().push(("kind"@, JsonTree::Text("directory"@)));
                let m = m.push(("declared"@, JsonTree::Text(declared@)));
                let m = m.push(("expanded"@, JsonTree::Text(expanded@)));
                let m = m.push(("root"@, JsonTree::Text(root@)));
                let m = m.push(("relative"@, JsonTree::Text(relative@)));
                let m = m.push(("exclusions"@, JsonTree::Array(text_trees(exclusions@))));
                let m = m.push(("allow_empty"@, JsonTree::Bool(allow_empty)));
                object_tree(m)
            },
            SourceOrigin::Generated { name } => {
                let m = no_members().push(("kind"@, JsonTree::Text("generated"@)));
                let m = m.push(("name"@, JsonTree::Text(name@)));
                object_tree(m)
            },
            SourceOrigin::Task { identity, relative } => {
                let m = no_members().push(("kind"@, JsonTree::Text("task"@)));
                let m = m.push(("identity"@, JsonTree::Text(identity@)));
                let m = m.push(("relative"@, JsonTree::Text(relative@)));
                object_tree(m)
            },
        }
    }
}

/// Serialises it.
pub(crate) fn source_origin_value(v: &SourceOrigin) -> (r: Value)
    ensures
        contents(r) == v.tree(),
{
    let mut m = members();
    match v {
        SourceOrigin::Direct { declared, expanded } => {
            put(&mut m, "kind", text_value("direct"));
            put(&mut m, "declared", text_value(declared.as_str()));
            put(&mut m, "expanded", text_value(expanded.as_str()));
        },
        SourceOrigin::Directory { declared, expanded, root, relative, exclusions, allow_empty } => {
            put(&mut m, "kind", text_value("directory"));
            put(&mut m, "declared", text_value(declared.as_str()));
            put(&mut m, "expanded", text_value(expanded.as_str()));
            put(&mut m, "root", text_value(root.as_str()));
            put(&mut m, "relative", text_value(relative.as_str()));
            put(&mut m, "exclusions", texts_value(exclusions));
            put(&mut m, "allow_empty", bool_value(*allow_empty));
        },
        SourceOrigin::Generated { name } => {
            put(&mut m, "kind", text_value("generated"));
            put(&mut m, "name", text_value(name.as_str()));
        },
        SourceOrigin::Task { identity, relative } => {
            put(&mut m, "kind", text_value("task"));
            put(&mut m, "identity", text_value(identity.as_str()));
            put(&mut m, "relative", text_value(relative.as_str()));
        },
    }
    object_value(m)
}

impl SourceComponent {
    /// Its serialised form.
    pub open spec fn tree(self) -> JsonTree {
        let m = no_members();
        let m = m.push(("physical"@, JsonTree::Text(self.physical@)));
        let m = m.push(("logical"@, JsonTree::Text(self.logical@)));
        let m = m.push(("attributes"@, JsonTree::Array(source_attribute_trees(self.attributes@))));
        object_tree(m)
    }
}

/// Serialises it.
pub(crate) fn source_component_value(v: &SourceComponent) -> (r: Value)
    ensures
        contents(r) == v.tree(),
{
    let mut m = members();
    put(&mut m, "physical", text_value(v.physical.as_str()));
    put(&mut m, "logical", text_value(v.logical.as_str()));
    put(&mut m, "attributes", source_attribute_values(&v.attributes));
    object_value(m)
}

impl SourceProjection {
    /// Its serialised form.
    pub open spec fn tree(self) -> JsonTree {
        let m = no_members();
        let m = m.push(("physical"@, JsonTree::Text(self.physical@)));
        let m = m.push(("logical"@, JsonTree::Text(self.logical@)));
        let m = m.push(("allocated"@, JsonTree::Bool(self.allocated)));
        let m = m.push(("hidden"@, JsonTree::Bool(self.hidden)));
        let m = m.push(("components"@, JsonTree::Array(source_component_trees(self.components@))));
        object_tree(m)
    }
}

/// Serialises it.
pub(crate) fn source_projection_value(v: &SourceProjection) -> (r: Value)
    ensures
        contents(r) == v.tree(),
{
    let mut m = members();
    put(&mut m, "physical", text_value(v.physical.as_str()));
    put(&mut m, "logical", text_value(v.logical.as_str()));
    put(&mut m, "allocated", bool_value(v.allocated));
    put(&mut m, "hidden", bool_value(v.hidden));
    put(&mut m, "components", source_component_values(&v.components));
    object_value(m)
}

impl TargetOrigin {
    /// Its serialised form.
    pub open spec fn tree(self) -> JsonTree {
        match self {
            TargetOrigin::Explicit { declared } => {
                let m = no_members().push(("kind"@, JsonTree::Text("explicit"@)));
                let m = m.push(("declared"@, JsonTree::Text(declared@)));
                object_tree(m)
            },
            TargetOrigin::Inferred { source } => {
                let m = no_members().push(("kind"@, JsonTree::Text("inferred"@)));
                let m = m.push(("source"@, JsonTree::Text(source@)));
                object_tree(m)
            },
            TargetOrigin::DirectoryExplicit { declared, relative } => {
                let m = no_members().push(("kind"@, JsonTree::Text("directory_explicit"@)));
                let m = m.push(("declared"@, JsonTree::Text(declared@)));
                let m = m.push(("relative"@, JsonTree::Text(relative@)));
                object_tree(m)
            },
        }
    }
}

/// Serialises it.
pub(crate) fn target_origin_value(v: &TargetOrigin) -> (r: Value)
    ensures
        contents(r) == v.tree(),
{
    let mut m = members();
    match v {
        TargetOrigin::Explicit { declared } => {
            put(&mut m, "kind", text_value("explicit"));
            put(&mut m, "declared", text_value(declared.as_str()));
        },
        TargetOrigin::Inferred { source } => {
            put(&mut m, "kind", text_value("inferred"));
            put(&mut m, "source", text_value(source.as_str()));
        },
        TargetOrigin::DirectoryExplicit { declared, relative } => {
            put(&mut m, "kind", text_value("directory_explicit"));
            put(&mut m, "declared", text_value(declared.as_str()));
            put(&mut m, "relative", text_value(relative.as_str()));
        },
    }
    object_value(m)
}

impl TargetPath {
    /// Its serialised form.
    pub open spec fn tree(self) -> JsonTree {
        let m = no_members();
        let m = m.push(("path"@, JsonTree::Text(self.path@)));
        let m = m.push(("scope"@, JsonTree::Text(self.scope.wire())));
        let m = m.push(("origin"@, self.origin.tree()));
        object_tree(m)
    }
}

/// Serialises it.
pub(crate) fn target_path_value(v: &TargetPath) -> (r: Value)
    ensures
        contents(r) == v.tree(),
{
    let mut m = members();
    put(&mut m, "path", text_value(v.path.as_str()));
    put(&mut m, "scope", text_value(v.scope.wire_name()));
    put(&mut m, "origin", target_origin_value(&v.origin));
    object_value(m)
}

impl EvaluatedTargetOrigin {
    /// Its serialised form.
    pub open spec fn tree(self) -> JsonTree {
        match self {
            EvaluatedTargetOrigin::Explicit { declared } => {
                let m = no_members().push(("kind"@, JsonTree::Text("explicit"@)));
                let m = m.push(("declared"@, JsonTree::Text(declared@)));
                object_tree(m)
            },
            EvaluatedTargetOrigin::Inferred { source } => {
                let m = no_members().push(("kind"@, JsonTree::Text("inferred"@)));
                let m = m.push(("source"@, JsonTree::Text(source@)));
                object_tree(m)
            },
        }
    }
}

/// Serialises it.
pub(crate) fn evaluated_target_origin_value(v: &EvaluatedTargetOrigin) -> (r: Value)
    ensures
        contents(r) == v.tree(),
{
    let mut m = members();
    match v {
        EvaluatedTargetOrigin::Explicit { declared } => {
            put(&mut m, "kind", text_value("explicit"));
            put(&mut m, "declared", text_value(declared.as_str()));
        },
        EvaluatedTargetOrigin::Inferred { source } => {
            put(&mut m, "kind", text_value("inferred"));
            put(&mut m, "source", text_value(source.as_str()));
        },
    }
    object_value(m)
}

impl RendererIdentity {
    /// Its serialised form.
    pub open spec fn tree(self) -> JsonTree {
        let m = no_members();
        let m = m.push(("name"@, JsonTree::Text(self.name@)));
        let m = m.push(("contract_version"@, JsonTree::Integer(self.contract_version as int)));
        object_tree(m)
    }
}

/// Serialises it.
pub(crate) fn renderer_identity_value(v: &RendererIdentity) -> (r: Value)
    ensures
        contents(r) == v.tree(),
{
    let mut m = members();
    put(&mut m, "name", text_value(v.name.as_str()));
    put(&mut m, "contract_version", unsigned_value(v.contract_version as u64));
    object_value(m)
}

impl FileContent {
    /// Its serialised form.
    pub open spec fn tree(self) -> JsonTree {
        let m = no_members();
        let m = m.push(("digest"@, JsonTree::Text(self.digest@)));
        let m = m.push(("size"@, JsonTree::Integer(self.size as int)));
        let m = m.push(("executable"@, JsonTree::Bool(self.executable)));
        object_tree(m)
    }
}

/// Serialises it.
pub(crate) fn file_content_value(v: &FileContent) -> (r: Value)
    ensures
        contents(r) == v.tree(),
{
    let mut m = members();
    put(&mut m, "digest", text_value(v.digest.as_str()));
    put(&mut m, "size", unsigned_value(v.size));
    put(&mut m, "executable", bool_value(v.executable));
    object_value(m)
}

impl Production {
    /// Its serialised form.
    pub open spec fn tree(self) -> JsonTree {
        match self {
            Production::Static => {
                let m = no_members().push(("kind"@, JsonTree::Text("static"@)));
                object_tree(m)
            },
            Production::Template { renderer, source_digest, context } => {
                let m = no_members().push(("kind"@, JsonTree::Text("template"@)));
                let m = m.push(("renderer"@, renderer.tree()));
                let m = m.push(("source_digest"@, JsonTree::Text(source_digest@)));
                let m = m.push(("context"@, context.tree()));
                object_tree(m)
            },
            Production::GeneratedLua { contract_version } => {
                let m = no_members().push(("kind"@, JsonTree::Text("generated_lua"@)));
                let m = m.push(("contract_version"@, JsonTree::Integer(contract_version as int)));
                object_tree(m)
            },
            Production::Task { contract_version, identity, output } => {
                let m = no_members().push(("kind"@, JsonTree::Text("task"@)));
                let m = m.push(("contract_version"@, JsonTree::Integer(contract_version as int)));
                let m = m.push(("identity"@, JsonTree::Text(identity@)));
                let m = m.push(("output"@, JsonTree::Text(output@)));
                object_tree(m)
            },
        }
    }
}

/// Serialises it.
pub(crate) fn production_value(v: &Production) -> (r: Value)
    ensures
        contents(r) == v.tree(),
{
    let mut m = members();
    match v {
        Production::Static => {
            put(&mut m, "kind", text_value("static"));
        },
        Production::Template { renderer, source_digest, context } => {
            put(&mut m, "kind", text_value("template"));
            put(&mut m, "renderer", renderer_identity_value(renderer));
            put(&mut m, "source_digest", text_value(source_digest.as_str()));
            put(&mut m, "context", frozen_value(context));
        },
        Production::GeneratedLua { contract_version } => {
            put(&mut m, "kind", text_value("generated_lua"));
            put(&mut m, "contract_version", unsigned_value(*contract_version as u64));
        },
        Production::Task { contract_version, identity, output } => {
            put(&mut m, "kind", text_value("task"));
            put(&mut m, "contract_version", unsigned_value(*contract_version as u64));
            put(&mut m, "identity", text_value(identity.as_str()));
            put(&mut m, "output", text_value(output.as_str()));
        },
    }
    object_value(m)
}

impl Artifact {
    /// Its serialised form.
    pub open spec fn tree(self) -> JsonTree {
        let m = no_members();
        let m = m.push(("kind"@, JsonTree::Text(self.kind.wire())));
        let m = m.push(("source"@, JsonTree::Text(self.source@)));
        let m = m.push(("source_origin"@, self.source_origin.tree()));
        let m = if self.source_projection is Some { m.push(("source_projection"@, self.source_projection->0.tree())) } else { m };
        let m = m.push(("production"@, self.production.tree()));
        let m = m.push(("target"@, self.target.tree()));
        let m = m.push(("content"@, self.content.tree()));
        let m = m.push(("owner"@, JsonTree::Text(self.owner@)));
        let m = m.push(("declared_at"@, self.declared_at.tree()));
        object_tree(m)
    }
}

/// Serialises it.
pub(crate) fn artifact_value(v: &Artifact) -> (r: Value)
    ensures
        contents(r) == v.tree(),
{
    let mut m = members();
    put(&mut m, "kind", text_value(v.kind.wire_name()));
    put(&mut m, "source", text_value(v.source.as_str()));
    put(&mut m, "source_origin", source_origin_value(&v.source_origin));
    match &v.source_projection {
        Some(x) => put(&mut m, "source_projection", source_projection_value(x)),
        None => {},
    }
    put(&mut m, "production", production_value(&v.production));
    put(&mut m, "target", target_path_value(&v.target));
    put(&mut m, "content", file_content_value(&v.content));
    put(&mut m, "owner", text_value(v.owner.as_str()));
    put(&mut m, "declared_at", source_trace_value(&v.declared_at));
    object_value(m)
}

impl PlannedProduction {
    /// Its serialised form.
    pub open spec fn tree(self) -> JsonTree {
        match self {
            PlannedProduction::Static { source_digest, executable } => {
                let m = no_members().push(("kind"@, JsonTree::Text("static"@)));
                let m = m.push(("source_digest"@, JsonTree::Text(source_digest@)));
                let m = m.push(("executable"@, JsonTree::Bool(executable)));
                object_tree(m)
            },
            PlannedProduction::Template { renderer, source_digest, context, executable } => {
                let m = no_members().push(("kind"@, JsonTree::Text("template"@)));
                let m = m.push(("renderer"@, renderer.tree()));
                let m = m.push(("source_digest"@, JsonTree::Text(source_digest@)));
                let m = m.push(("context"@, context.tree()));
                let m = m.push(("executable"@, JsonTree::Bool(executable)));
                object_tree(m)
            },
            PlannedProduction::GeneratedLua { contract_version, content_digest, size, executable } => {
                let m = no_members().push(("kind"@, JsonTree::Text("generated_lua"@)));
                let m = m.push(("contract_version"@, JsonTree::Integer(contract_version as int)));
                let m = m.push(("content_digest"@, JsonTree::Text(content_digest@)));
                let m = m.push(("size"@, JsonTree::Integer(size as int)));
                let m = m.push(("executable"@, JsonTree::Bool(executable)));
                object_tree(m)
            },
        }
    }
}

/// Serialises it.
pub(crate) fn planned_production_value(v: &PlannedProduction) -> (r: Value)
    ensures
        contents(r) == v.tree(),
{
    let mut m = members();
    match v {
        PlannedProduction::Static { source_digest, executable } => {
            put(&mut m, "kind", text_value("static"));
            put(&mut m, "source_digest", text_value(source_digest.as_str()));
            put(&mut m, "executable", bool_value(*executable));
        },
        PlannedProduction::Template { renderer, source_digest, context, executable } => {
            put(&mut m, "kind", text_value("template"));
            put(&mut m, "renderer", renderer_identity_value(renderer));
            put(&mut m, "source_digest", text_value(source_digest.as_str()));
            put(&mut m, "context", frozen_value(context));
            put(&mut m, "executable", bool_value(*executable));
        },
        PlannedProduction::GeneratedLua { contract_version, content_digest, size, executable } => {
            put(&mut m, "kind", text_value("generated_lua"));
            put(&mut m, "contract_version", unsigned_value(*contract_version as u64));
            put(&mut m, "content_digest", text_value(content_digest.as_str()));
            put(&mut m, "size", unsigned_value(*size));
            put(&mut m, "executable", bool_value(*executable));
        },
    }
    object_value(m)
}

impl PlannedArtifact {
    /// Its serialised form.
    pub open spec fn tree(self) -> JsonTree {
        let m = no_members();
        let m = m.push(("source"@, JsonTree::Text(self.source@)));
        let m = m.push(("source_origin"@, self.source_origin.tree()));
        let m = if self.source_projection is Some { m.push(("source_projection"@, self.source_projection->0.tree())) } else { m };
        let m = m.push(("production"@, self.production.tree()));
        let m = m.push(("target"@, self.target.tree()));
        let m = m.push(("owner"@, JsonTree::Text(self.owner@)));
        let m = m.push(("declared_at"@, self.declared_at.tree()));
        object_tree(m)
    }
}

/// Serialises it.
pub(crate) fn planned_artifact_value(v: &PlannedArtifact) -> (r: Value)
    ensures
        contents(r) == v.tree(),
{
    let mut m = members();
    put(&mut m, "source", text_value(v.source.as_str()));
    put(&mut m, "source_origin", source_origin_value(&v.source_origin));
    match &v.source_projection {
        Some(x) => put(&mut m, "source_projection", source_projection_value(x)),
        None => {},
    }
    put(&mut m, "production", planned_production_value(&v.production));
    put(&mut m, "target", target_path_value(&v.target));
    put(&mut m, "owner", text_value(v.owner.as_str()));
    put(&mut m, "declared_at", source_trace_value(&v.declared_at));
    object_value(m)
}

impl TaskRunner {
    /// Its serialised form.
    pub open spec fn tree(self) -> JsonTree {
        match self {
            TaskRunner::EmbeddedLua { contract_version } => {
                let m = no_members().push(("kind"@, JsonTree::Text("embedded_lua"@)));
                let m = m.push(("contract_version"@, JsonTree::Integer(contract_version as int)));
                object_tree(m)
            },
            TaskRunner::Direct { contract_version } => {
                let m = no_members().push(("kind"@, JsonTree::Text("direct"@)));
                let m = m.push(("contract_version"@, JsonTree::Integer(contract_version as int)));
                object_tree(m)
            },
            TaskRunner::Interpreter { contract_version, family, command, args } => {
                let m = no_members().push(("kind"@, JsonTree::Text("interpreter"@)));
                let m = m.push(("contract_version"@, JsonTree::Integer(contract_version as int)));
                let m = m.push(("family"@, JsonTree::Text(family.wire())));
                let m = m.push(("command"@, JsonTree::Text(command@)));
                let m = m.push(("args"@, JsonTree::Array(text_trees(args@))));
                object_tree(m)
            },
        }
    }
}

/// Serialises it.
pub(crate) fn task_runner_value(v: &TaskRunner) -> (r: Value)
    ensures
        contents(r) == v.tree(),
{
    let mut m = members();
    match v {
        TaskRunner::EmbeddedLua { contract_version } => {
            put(&mut m, "kind", text_value("embedded_lua"));
            put(&mut m, "contract_version", unsigned_value(*contract_version as u64));
        },
        TaskRunner::Direct { contract_version } => {
            put(&mut m, "kind", text_value("direct"));
            put(&mut m, "contract_version", unsigned_value(*contract_version as u64));
        },
        TaskRunner::Interpreter { contract_version, family, command, args } => {
            put(&mut m, "kind", text_value("interpreter"));
            put(&mut m, "contract_version", unsigned_value(*contract_version as u64));
            put(&mut m, "family", text_value(family.wire_name()));
            put(&mut m, "command", text_value(command.as_str()));
            put(&mut m, "args", texts_value(args));
        },
    }
    object_value(m)
}

impl TaskCachePolicy {
    /// Its serialised form.
    pub open spec fn tree(self) -> JsonTree {
        let m = no_members();
        let m = m.push(("enabled"@, JsonTree::Bool(self.enabled)));
        let m = if self.revision is Some { m.push(("revision"@, JsonTree::Text(self.revision->0@))) } else { m };
        object_tree(m)
    }
}

/// Serialises it.
pub(crate) fn task_cache_policy_value(v: &TaskCachePolicy) -> (r: Value)
    ensures
        contents(r) == v.tree(),
{
    let mut m = members();
    put(&mut m, "enabled", bool_value(v.enabled));
    match &v.revision {
        Some(x) => put(&mut m, "revision", text_value(x.as_str())),
        None => {},
    }
    object_value(m)
}

impl TaskTargetRoot {
    /// Its serialised form.
    pub open spec fn tree(self) -> JsonTree {
        let m = no_members();
        let m = m.push(("path"@, JsonTree::Text(self.path@)));
        let m = m.push(("origin"@, self.origin.tree()));
        object_tree(m)
    }
}

/// Serialises it.
pub(crate) fn task_target_root_value(v: &TaskTargetRoot) -> (r: Value)
    ensures
        contents(r) == v.tree(),
{
    let mut m = members();
    put(&mut m, "path", text_value(v.path.as_str()));
    put(&mut m, "origin", evaluated_target_origin_value(&v.origin));
    object_value(m)
}

impl TaskOutput {
    /// Its serialised form.
    pub open spec fn tree(self) -> JsonTree {
        let m = no_members();
        let m = m.push(("relative"@, JsonTree::Text(self.relative@)));
        let m = m.push(("content"@, self.content.tree()));
        object_tree(m)
    }
}

/// Serialises it.
pub(crate) fn task_output_value(v: &TaskOutput) -> (r: Value)
    ensures
        contents(r) == v.tree(),
{
    let mut m = members();
    put(&mut m, "relative", text_value(v.relative.as_str()));
    put(&mut m, "content", file_content_value(&v.content));
    object_value(m)
}

impl Task {
    /// Its serialised form.
    pub open spec fn tree(self) -> JsonTree {
        let m = no_members();
        let m = m.push(("identity"@, JsonTree::Text(self.identity@)));
        let m = m.push(("declaration_order"@, JsonTree::Integer(self.declaration_order as int)));
        let m = m.push(("owner"@, JsonTree::Text(self.owner@)));
        let m = m.push(("entrypoint"@, JsonTree::Text(self.entrypoint@)));
        let m = m.push(("entrypoint_digest"@, JsonTree::Text(self.entrypoint_digest@)));
        let m = m.push(("params"@, self.params.tree()));
        let m = m.push(("runner"@, self.runner.tree()));
        let m = m.push(("python_helper"@, JsonTree::Bool(self.python_helper)));
        let m = m.push(("logs"@, JsonTree::Text(self.logs.wire())));
        let m = m.push(("cache"@, self.cache.tree()));
        let m = m.push(("at"@, self.at.tree()));
        let m = if self.target_root is Some { m.push(("target_root"@, self.target_root->0.tree())) } else { m };
        let m = m.push(("declared_at"@, self.declared_at.tree()));
        let m = m.push(("outputs"@, JsonTree::Array(task_output_trees(self.outputs@))));
        object_tree(m)
    }
}

/// Serialises it.
pub(crate) fn task_value(v: &Task) -> (r: Value)
    ensures
        contents(r) == v.tree(),
{
    let mut m = members();
    put(&mut m, "identity", text_value(v.identity.as_str()));
    put(&mut m, "declaration_order", unsigned_value(v.declaration_order));
    put(&mut m, "owner", text_value(v.owner.as_str()));
    put(&mut m, "entrypoint", text_value(v.entrypoint.as_str()));
    put(&mut m, "entrypoint_digest", text_value(v.entrypoint_digest.as_str()));
    put(&mut m, "params", frozen_value(&v.params));
    put(&mut m, "runner", task_runner_value(&v.runner));
    put(&mut m, "python_helper", bool_value(v.python_helper));
    put(&mut m, "logs", text_value(v.logs.wire_name()));
    put(&mut m, "cache", task_cache_policy_value(&v.cache));
    put(&mut m, "at", rung_id_value(&v.at));
    match &v.target_root {
        Some(x) => put(&mut m, "target_root", task_target_root_value(x)),
        None => {},
    }
    put(&mut m, "declared_at", source_trace_value(&v.declared_at));
    put(&mut m, "outputs", task_output_values(&v.outputs));
    object_value(m)
}

impl ScriptPayload {
    /// Its serialised form.
    pub open spec fn tree(self) -> JsonTree {
        let m = no_members();
        let m = m.push(("source"@, JsonTree::Text(self.source@)));
        let m = m.push(("relative"@, JsonTree::Text(self.relative@)));
        let m = m.push(("digest"@, JsonTree::Text(self.digest@)));
        let m = m.push(("size"@, JsonTree::Integer(self.size as int)));
        let m = m.push(("executable"@, JsonTree::Bool(self.executable)));
        object_tree(m)
    }
}

/// Serialises it.
pub(crate) fn script_payload_value(v: &ScriptPayload) -> (r: Value)
    ensures
        contents(r) == v.tree(),
{
    let mut m = members();
    put(&mut m, "source", text_value(v.source.as_str()));
    put(&mut m, "relative", text_value(v.relative.as_str()));
    put(&mut m, "digest", text_value(v.digest.as_str()));
    put(&mut m, "size", unsigned_value(v.size));
    put(&mut m, "executable", bool_value(v.executable));
    object_value(m)
}

impl Script {
    /// Its serialised form.
    pub open spec fn tree(self) -> JsonTree {
        let m = no_members();
        let m = m.push(("identity"@, JsonTree::Text(self.identity@)));
        let m = m.push(("declaration_order"@, JsonTree::Integer(self.declaration_order as int)));
        let m = m.push(("owner"@, JsonTree::Text(self.owner@)));
        let m = m.push(("entrypoint"@, JsonTree::Text(self.entrypoint@)));
        let m = m.push(("params"@, self.params.tree()));
        let m = m.push(("runner"@, self.runner.tree()));
        let m = m.push(("python_helper"@, JsonTree::Bool(self.python_helper)));
        let m = m.push(("logs"@, JsonTree::Text(self.logs.wire())));
        let m = m.push(("at"@, self.at.tree()));
        let m = m.push(("schedule"@, JsonTree::Text(self.schedule.wire())));
        let m = m.push(("scope"@, JsonTree::Text(self.scope.wire())));
        let m = m.push(("payloads"@, JsonTree::Array(script_payload_trees(self.payloads@))));
        let m = if self.revision is Some { m.push(("revision"@, JsonTree::Text(self.revision->0@))) } else { m };
        let m = m.push(("env"@, object_tree(pair_trees(self.env@))));
        let m = if self.timeout_seconds is Some { m.push(("timeout_seconds"@, JsonTree::Integer(self.timeout_seconds->0 as int))) } else { m };
        let m = m.push(("declared_at"@, self.declared_at.tree()));
        object_tree(m)
    }
}

/// Serialises it.
pub(crate) fn script_value(v: &Script) -> (r: Value)
    ensures
        contents(r) == v.tree(),
{
    let mut m = members();
    put(&mut m, "identity", text_value(v.identity.as_str()));
    put(&mut m, "declaration_order", unsigned_value(v.declaration_order));
    put(&mut m, "owner", text_value(v.owner.as_str()));
    put(&mut m, "entrypoint", text_value(v.entrypoint.as_str()));
    put(&mut m, "params", frozen_value(&v.params));
    put(&mut m, "runner", task_runner_value(&v.runner));
    put(&mut m, "python_helper", bool_value(v.python_helper));
    put(&mut m, "logs", text_value(v.logs.wire_name()));
    put(&mut m, "at", rung_id_value(&v.at));
    put(&mut m, "schedule", text_value(v.schedule.wire_name()));
    put(&mut m, "scope", text_value(v.scope.wire_name()));
    put(&mut m, "payloads", script_payload_values(&v.payloads));
    match &v.revision {
        Some(x) => put(&mut m, "revision", text_value(x.as_str())),
        None => {},
    }
    put(&mut m, "env", pairs_value(&v.env));
    match &v.timeout_seconds {
        Some(x) => put(&mut m, "timeout_seconds", unsigned_value(*x)),
        None => {},
    }
    put(&mut m, "declared_at", source_trace_value(&v.declared_at));
    object_value(m)
}

impl TemplateHelperExport {
    /// Its serialised form.
    pub open spec fn tree(self) -> JsonTree {
        let m = no_members();
        let m = m.push(("export"@, JsonTree::Text(self.export@)));
        let m = m.push(("name"@, JsonTree::Text(self.name@)));
        let m = m.push(("defined_at"@, self.defined_at.tree()));
        object_tree(m)
    }
}

/// Serialises it.
pub(crate) fn template_helper_export_value(v: &TemplateHelperExport) -> (r: Value)
    ensures
        contents(r) == v.tree(),
{
    let mut m = members();
    put(&mut m, "export", text_value(v.export.as_str()));
    put(&mut m, "name", text_value(v.name.as_str()));
    put(&mut m, "defined_at", source_location_value(&v.defined_at));
    object_value(m)
}

impl TemplateHelperPack {
    /// Its serialised form.
    pub open spec fn tree(self) -> JsonTree {
        let m = no_members();
        let m = m.push(("contract_version"@, JsonTree::Integer(self.contract_version as int)));
        let m = m.push(("module"@, JsonTree::Text(self.module@)));
        let m = m.push(("prefix"@, JsonTree::Text(self.prefix@)));
        let m = m.push(("exports"@, JsonTree::Array(template_helper_export_trees(self.exports@))));
        let m = m.push(("sources"@, JsonTree::Array(source_file_trees(self.sources@))));
        let m = m.push(("declared_at"@, self.declared_at.tree()));
        object_tree(m)
    }
}

/// Serialises it.
pub(crate) fn template_helper_pack_value(v: &TemplateHelperPack) -> (r: Value)
    ensures
        contents(r) == v.tree(),
{
    let mut m = members();
    put(&mut m, "contract_version", unsigned_value(v.contract_version as u64));
    put(&mut m, "module", text_value(v.module.as_str()));
    put(&mut m, "prefix", text_value(v.prefix.as_str()));
    put(&mut m, "exports", template_helper_export_values(&v.exports));
    put(&mut m, "sources", source_file_values(&v.sources));
    put(&mut m, "declared_at", source_trace_value(&v.declared_at));
    object_value(m)
}

/// The serialised forms of a list.
pub open spec fn source_location_trees(list: Seq<SourceLocation>) -> Seq<JsonTree> {
    list.map_values(|x: SourceLocation| x.tree())
}

/// Serialises a list.
pub(crate) fn source_location_values(list: &Vec<SourceLocation>) -> (r: Value)
    ensures
        contents(r) == JsonTree::Array(source_location_trees(list@)),
{
    let mut values: Vec<Value> = Vec::new();
    let mut i: usize = 0;
    while i < list.len()
        invariant
            0 <= i <= list@.len(),
            all_contents(values@) == source_location_trees(list@).take(i as int),
        decreases list@.len() - i,
    {
        let ghost held = values@;
        let next = source_location_value(&list[i]);
        values.push(next);
        assert(all_contents(values@) =~= all_contents(held).push(contents(next)));
        assert(source_location_trees(list@).take(i + 1) =~= source_location_trees(list@).take(i as int).push(
            list@[i as int].tree(),
        ));
        i += 1;
    }
    assert(source_location_trees(list@).take(list@.len() as int) =~= source_location_trees(list@));
    array_value(values)
}

/// The serialised forms of a list.
pub open spec fn provider_file_trees(list: Seq<ProviderFile>) -> Seq<JsonTree> {
    list.map_values(|x: ProviderFile| x.tree())
}

/// Serialises a list.
pub(crate) fn provider_file_values(list: &Vec<ProviderFile>) -> (r: Value)
    ensures
        contents(r) == JsonTree::Array(provider_file_trees(list@)),
{
    let mut values: Vec<Value> = Vec::new();
    let mut i: usize = 0;
    while i < list.len()
        invariant
            0 <= i <= list@.len(),
            all_contents(values@) == provider_file_trees(list@).take(i as int),
        decreases list@.len() - i,
    {
        let ghost held = values@;
        let next = provider_file_value(&list[i]);
        values.push(next);
        assert(all_contents(values@) =~= all_contents(held).push(contents(next)));
        assert(provider_file_trees(list@).take(i + 1) =~= provider_file_trees(list@).take(i as int).push(
            list@[i as int].tree(),
        ));
        i += 1;
    }
    assert(provider_file_trees(list@).take(list@.len() as int) =~= provider_file_trees(list@));
    array_value(values)
}

/// The serialised forms of a list.
pub open spec fn requirement_candidate_trees(list: Seq<RequirementCandidate>) -> Seq<JsonTree> {
    list.map_values(|x: RequirementCandidate| x.tree())
}

/// Serialises a list.
pub(crate) fn requirement_candidate_values(list: &Vec<RequirementCandidate>) -> (r: Value)
    ensures
        contents(r) == JsonTree::Array(requirement_candidate_trees(list@)),
{
    let mut values: Vec<Value> = Vec::new();
    let mut i: usize = 0;
    while i < list.len()
        invariant
            0 <= i <= list@.len(),
            all_contents(values@) == requirement_candidate_trees(list@).take(i as int),
        decreases list@.len() - i,
    {
        let ghost held = values@;
        let next = requirement_candidate_value(&list[i]);
        values.push(next);
        assert(all_contents(values@) =~= all_contents(held).push(contents(next)));
        assert(requirement_candidate_trees(list@).take(i + 1) =~= requirement_candidate_trees(list@).take(i as int).push(
            list@[i as int].tree(),
        ));
        i += 1;
    }
    assert(requirement_candidate_trees(list@).take(list@.len() as int) =~= requirement_candidate_trees(list@));
    array_value(values)
}

/// The serialised forms of a list.
pub open spec fn resolution_attempt_trees(list: Seq<ResolutionAttempt>) -> Seq<JsonTree> {
    list.map_values(|x: ResolutionAttempt| x.tree())
}

/// Serialises a list.
pub(crate) fn resolution_attempt_values(list: &Vec<ResolutionAttempt>) -> (r: Value)
    ensures
        contents(r) == JsonTree::Array(resolution_attempt_trees(list@)),
{
    let mut values: Vec<Value> = Vec::new();
    let mut i: usize = 0;
    while i < list.len()
        invariant
            0 <= i <= list@.len(),
            all_contents(values@) == resolution_attempt_trees(list@).take(i as int),
        decreases list@.len() - i,
    {
        let ghost held = values@;
        let next = resolution_attempt_value(&list[i]);
        values.push(next);
        assert(all_contents(values@) =~= all_contents(held).push(contents(next)));
        assert(resolution_attempt_trees(list@).take(i + 1) =~= resolution_attempt_trees(list@).take(i as int).push(
            list@[i as int].tree(),
        ));
        i += 1;
    }
    assert(resolution_attempt_trees(list@).take(list@.len() as int) =~= resolution_attempt_trees(list@));
    array_value(values)
}

/// The serialised forms of a list.
pub open spec fn process_environment_change_trees(list: Seq<ProcessEnvironmentChange>) -> Seq<JsonTree> {
    list.map_values(|x: ProcessEnvironmentChange| x.tree())
}

/// Serialises a list.
pub(crate) fn process_environment_change_values(list: &Vec<ProcessEnvironmentChange>) -> (r: Value)
    ensures
        contents(r) == JsonTree::Array(process_environment_change_trees(list@)),
{
    let mut values: Vec<Value> = Vec::new();
    let mut i: usize = 0;
    while i < list.len()
        invariant
            0 <= i <= list@.len(),
            all_contents(values@) == process_environment_change_trees(list@).take(i as int),
        decreases list@.len() - i,
    {
        let ghost held = values@;
        let next = process_environment_change_value(&list[i]);
        values.push(next);
        assert(all_contents(values@) =~= all_contents(held).push(contents(next)));
        assert(process_environment_change_trees(list@).take(i + 1) =~= process_environment_change_trees(list@).take(i as int).push(
            list@[i as int].tree(),
        ));
        i += 1;
    }
    assert(process_environment_change_trees(list@).take(list@.len() as int) =~= process_environment_change_trees(list@));
    array_value(values)
}

/// The serialised forms of a list.
pub open spec fn source_attribute_trees(list: Seq<SourceAttribute>) -> Seq<JsonTree> {
    list.map_values(|x: SourceAttribute| JsonTree::Text(x.wire()))
}

/// Serialises a list.
pub(crate) fn source_attribute_values(list: &Vec<SourceAttribute>) -> (r: Value)
    ensures
        contents(r) == JsonTree::Array(source_attribute_trees(list@)),
{
    let mut values: Vec<Value> = Vec::new();
    let mut i: usize = 0;
    while i < list.len()
        invariant
            0 <= i <= list@.len(),
            all_contents(values@) == source_attribute_trees(list@).take(i as int),
        decreases list@.len() - i,
    {
        let ghost held = values@;
        let next = text_value(list[i].wire_name());
        values.push(next);
        assert(all_contents(values@) =~= all_contents(held).push(contents(next)));
        assert(source_attribute_trees(list@).take(i + 1) =~= source_attribute_trees(list@).take(i as int).push(
            JsonTree::Text(list@[i as int].wire()),
        ));
        i += 1;
    }
    assert(source_attribute_trees(list@).take(list@.len() as int) =~= source_attribute_trees(list@));
    array_value(values)
}

/// The serialised forms of a list.
pub open spec fn source_component_trees(list: Seq<SourceComponent>) -> Seq<JsonTree> {
    list.map_values(|x: SourceComponent| x.tree())
}

/// Serialises a list.
pub(crate) fn source_component_values(list: &Vec<SourceComponent>) -> (r: Value)
    ensures
        contents(r) == JsonTree::Array(source_component_trees(list@)),
{
    let mut values: Vec<Value> = Vec::new();
    let mut i: usize = 0;
    while i < list.len()
        invariant
            0 <= i <= list@.len(),
            all_contents(values@) == source_component_trees(list@).take(i as int),
        decreases list@.len() - i,
    {
        let ghost held = values@;
        let next = source_component_value(&list[i]);
        values.push(next);
        assert(all_contents(values@) =~= all_contents(held).push(contents(next)));
        assert(source_component_trees(list@).take(i + 1) =~= source_component_trees(list@).take(i as int).push(
            list@[i as int].tree(),
        ));
        i += 1;
    }
    assert(source_component_trees(list@).take(list@.len() as int) =~= source_component_trees(list@));
    array_value(values)
}

/// The serialised forms of a list.
pub open spec fn task_output_trees(list: Seq<TaskOutput>) -> Seq<JsonTree> {
    list.map_values(|x: TaskOutput| x.tree())
}

/// Serialises a list.
pub(crate) fn task_output_values(list: &Vec<TaskOutput>) -> (r: Value)
    ensures
        contents(r) == JsonTree::Array(task_output_trees(list@)),
{
    let mut values: Vec<Value> = Vec::new();
    let mut i: usize = 0;
    while i < list.len()
        invariant
            0 <= i <= list@.len(),
            all_contents(values@) == task_output_trees(list@).take(i as int),
        decreases list@.len() - i,
    {
        let ghost held = values@;
        let next = task_output_value(&list[i]);
        values.push(next);
        assert(all_contents(values@) =~= all_contents(held).push(contents(next)));
        assert(task_output_trees(list@).take(i + 1) =~= task_output_trees(list@).take(i as int).push(
            list@[i as int].tree(),
        ));
        i += 1;
    }
    assert(task_output_trees(list@).take(list@.len() as int) =~= task_output_trees(list@));
    array_value(values)
}

/// The serialised forms of a list.
pub open spec fn script_payload_trees(list: Seq<ScriptPayload>) -> Seq<JsonTree> {
    list.map_values(|x: ScriptPayload| x.tree())
}

/// Serialises a list.
pub(crate) fn script_payload_values(list: &Vec<ScriptPayload>) -> (r: Value)
    ensures
        contents(r) == JsonTree::Array(script_payload_trees(list@)),
{
    let mut values: Vec<Value> = Vec::new();
    let mut i: usize = 0;
    while i < list.len()
        invariant
            0 <= i <= list@.len(),
            all_contents(values@) == script_payload_trees(list@).take(i as int),
        decreases list@.len() - i,
    {
        let ghost held = values@;
        let next = script_payload_value(&list[i]);
        values.push(next);
        assert(all_contents(values@) =~= all_contents(held).push(contents(next)));
        assert(script_payload_trees(list@).take(i + 1) =~= script_payload_trees(list@).take(i as int).push(
            list@[i as int].tree(),
        ));
        i += 1;
    }
    assert(script_payload_trees(list@).take(list@.len() as int) =~= script_payload_trees(list@));
    array_value(values)
}

/// The serialised forms of a list.
pub open spec fn template_helper_export_trees(list: Seq<TemplateHelperExport>) -> Seq<JsonTree> {
    list.map_values(|x: TemplateHelperExport| x.tree())
}

/// Serialises a list.
pub(crate) fn template_helper_export_values(list: &Vec<TemplateHelperExport>) -> (r: Value)
    ensures
        contents(r) == JsonTree::Array(template_helper_export_trees(list@)),
{
    let mut values: Vec<Value> = Vec::new();
    let mut i: usize = 0;
    while i < list.len()
        invariant
            0 <= i <= list@.len(),
            all_contents(values@) == template_helper_export_trees(list@).take(i as int),
        decreases list@.len() - i,
    {
        let ghost held = values@;
        let next = template_helper_export_value(&list[i]);
        values.push(next);
        assert(all_contents(values@) =~= all_contents(held).push(contents(next)));
        assert(template_helper_export_trees(list@).take(i + 1) =~= template_helper_export_trees(list@).take(i as int).push(
            list@[i as int].tree(),
        ));
        i += 1;
    }
    assert(template_helper_export_trees(list@).take(list@.len() as int) =~= template_helper_export_trees(list@));
    array_value(values)
}

/// The serialised forms of a list.
pub open spec fn source_file_trees(list: Seq<SourceFile>) -> Seq<JsonTree> {
    list.map_values(|x: SourceFile| x.tree())
}

/// Serialises a list.
pub(crate) fn source_file_values(list: &Vec<SourceFile>) -> (r: Value)
    ensures
        contents(r) == JsonTree::Array(source_file_trees(list@)),
{
    let mut values: Vec<Value> = Vec::new();
    let mut i: usize = 0;
    while i < list.len()
        invariant
            0 <= i <= list@.len(),
            all_contents(values@) == source_file_trees(list@).take(i as int),
        decreases list@.len() - i,
    {
        let ghost held = values@;
        let next = source_file_value(&list[i]);
        values.push(next);
        assert(all_contents(values@) =~= all_contents(held).push(contents(next)));
        assert(source_file_trees(list@).take(i + 1) =~= source_file_trees(list@).take(i as int).push(
            list@[i as int].tree(),
        ));
        i += 1;
    }
    assert(source_file_trees(list@).take(list@.len() as int) =~= source_file_trees(list@));
    array_value(values)
}

/// The serialised forms of a list.
pub open spec fn build_input_trees(list: Seq<BuildInput>) -> Seq<JsonTree> {
    list.map_values(|x: BuildInput| x.tree())
}

/// Serialises a list.
pub(crate) fn build_input_values(list: &Vec<BuildInput>) -> (r: Value)
    ensures
        contents(r) == JsonTree::Array(build_input_trees(list@)),
{
    let mut values: Vec<Value> = Vec::new();
    let mut i: usize = 0;
    while i < list.len()
        invariant
            0 <= i <= list@.len(),
            all_contents(values@) == build_input_trees(list@).take(i as int),
        decreases list@.len() - i,
    {
        let ghost held = values@;
        let next = build_input_value(&list[i]);
        values.push(next);
        assert(all_contents(values@) =~= all_contents(held).push(contents(next)));
        assert(build_input_trees(list@).take(i + 1) =~= build_input_trees(list@).take(i as int).push(
            list@[i as int].tree(),
        ));
        i += 1;
    }
    assert(build_input_trees(list@).take(list@.len() as int) =~= build_input_trees(list@));
    array_value(values)
}

/// The serialised forms of a list.
pub open spec fn observation_trees(list: Seq<Observation>) -> Seq<JsonTree> {
    list.map_values(|x: Observation| x.tree())
}

/// Serialises a list.
pub(crate) fn observation_values(list: &Vec<Observation>) -> (r: Value)
    ensures
        contents(r) == JsonTree::Array(observation_trees(list@)),
{
    let mut values: Vec<Value> = Vec::new();
    let mut i: usize = 0;
    while i < list.len()
        invariant
            0 <= i <= list@.len(),
            all_contents(values@) == observation_trees(list@).take(i as int),
        decreases list@.len() - i,
    {
        let ghost held = values@;
        let next = observation_value(&list[i]);
        values.push(next);
        assert(all_contents(values@) =~= all_contents(held).push(contents(next)));
        assert(observation_trees(list@).take(i + 1) =~= observation_trees(list@).take(i as int).push(
            list@[i as int].tree(),
        ));
        i += 1;
    }
    assert(observation_trees(list@).take(list@.len() as int) =~= observation_trees(list@));
    array_value(values)
}

/// The serialised forms of a list.
pub open spec fn process_observation_trees(list: Seq<ProcessObservation>) -> Seq<JsonTree> {
    list.map_values(|x: ProcessObservation| x.tree())
}

/// Serialises a list.
pub(crate) fn process_observation_values(list: &Vec<ProcessObservation>) -> (r: Value)
    ensures
        contents(r) == JsonTree::Array(process_observation_trees(list@)),
{
    let mut values: Vec<Value> = Vec::new();
    let mut i: usize = 0;
    while i < list.len()
        invariant
            0 <= i <= list@.len(),
            all_contents(values@) == process_observation_trees(list@).take(i as int),
        decreases list@.len() - i,
    {
        let ghost held = values@;
        let next = process_observation_value(&list[i]);
        values.push(next);
        assert(all_contents(values@) =~= all_contents(held).push(contents(next)));
        assert(process_observation_trees(list@).take(i + 1) =~= process_observation_trees(list@).take(i as int).push(
            list@[i as int].tree(),
        ));
        i += 1;
    }
    assert(process_observation_trees(list@).take(list@.len() as int) =~= process_observation_trees(list@));
    array_value(values)
}

/// The serialised forms of a list.
pub open spec fn manifest_module_trees(list: Seq<ManifestModule>) -> Seq<JsonTree> {
    list.map_values(|x: ManifestModule| x.tree())
}

/// Serialises a list.
pub(crate) fn manifest_module_values(list: &Vec<ManifestModule>) -> (r: Value)
    ensures
        contents(r) == JsonTree::Array(manifest_module_trees(list@)),
{
    let mut values: Vec<Value> = Vec::new();
    let mut i: usize = 0;
    while i < list.len()
        invariant
            0 <= i <= list@.len(),
            all_contents(values@) == manifest_module_trees(list@).take(i as int),
        decreases list@.len() - i,
    {
        let ghost held = values@;
        let next = manifest_module_value(&list[i]);
        values.push(next);
        assert(all_contents(values@) =~= all_contents(held).push(contents(next)));
        assert(manifest_module_trees(list@).take(i + 1) =~= manifest_module_trees(list@).take(i as int).push(
            list@[i as int].tree(),
        ));
        i += 1;
    }
    assert(manifest_module_trees(list@).take(list@.len() as int) =~= manifest_module_trees(list@));
    array_value(values)
}

/// The serialised forms of a list.
pub open spec fn dependency_trees(list: Seq<Dependency>) -> Seq<JsonTree> {
    list.map_values(|x: Dependency| x.tree())
}

/// Serialises a list.
pub(crate) fn dependency_values(list: &Vec<Dependency>) -> (r: Value)
    ensures
        contents(r) == JsonTree::Array(dependency_trees(list@)),
{
    let mut values: Vec<Value> = Vec::new();
    let mut i: usize = 0;
    while i < list.len()
        invariant
            0 <= i <= list@.len(),
            all_contents(values@) == dependency_trees(list@).take(i as int),
        decreases list@.len() - i,
    {
        let ghost held = values@;
        let next = dependency_value(&list[i]);
        values.push(next);
        assert(all_contents(values@) =~= all_contents(held).push(contents(next)));
        assert(dependency_trees(list@).take(i + 1) =~= dependency_trees(list@).take(i as int).push(
            list@[i as int].tree(),
        ));
        i += 1;
    }
    assert(dependency_trees(list@).take(list@.len() as int) =~= dependency_trees(list@));
    array_value(values)
}

/// The serialised forms of a list.
pub open spec fn template_helper_pack_trees(list: Seq<TemplateHelperPack>) -> Seq<JsonTree> {
    list.map_values(|x: TemplateHelperPack| x.tree())
}

/// Serialises a list.
pub(crate) fn template_helper_pack_values(list: &Vec<TemplateHelperPack>) -> (r: Value)
    ensures
        contents(r) == JsonTree::Array(template_helper_pack_trees(list@)),
{
    let mut values: Vec<Value> = Vec::new();
    let mut i: usize = 0;
    while i < list.len()
        invariant
            0 <= i <= list@.len(),
            all_contents(values@) == template_helper_pack_trees(list@).take(i as int),
        decreases list@.len() - i,
    {
        let ghost held = values@;
        let next = template_helper_pack_value(&list[i]);
        values.push(next);
        assert(all_contents(values@) =~= all_contents(held).push(contents(next)));
        assert(template_helper_pack_trees(list@).take(i + 1) =~= template_helper_pack_trees(list@).take(i as int).push(
            list@[i as int].tree(),
        ));
        i += 1;
    }
    assert(template_helper_pack_trees(list@).take(list@.len() as int) =~= template_helper_pack_trees(list@));
    array_value(values)
}

/// The serialised forms of a list.
pub open spec fn provider_trees(list: Seq<Provider>) -> Seq<JsonTree> {
    list.map_values(|x: Provider| x.tree())
}

/// Serialises a list.
pub(crate) fn provider_values(list: &Vec<Provider>) -> (r: Value)
    ensures
        contents(r) == JsonTree::Array(provider_trees(list@)),
{
    let mut values: Vec<Value> = Vec::new();
    let mut i: usize = 0;
    while i < list.len()
        invariant
            0 <= i <= list@.len(),
            all_contents(values@) == provider_trees(list@).take(i as int),
        decreases list@.len() - i,
    {
        let ghost held = values@;
        let next = provider_value(&list[i]);
        values.push(next);
        assert(all_contents(values@) =~= all_contents(held).push(contents(next)));
        assert(provider_trees(list@).take(i + 1) =~= provider_trees(list@).take(i as int).push(
            list@[i as int].tree(),
        ));
        i += 1;
    }
    assert(provider_trees(list@).take(list@.len() as int) =~= provider_trees(list@));
    array_value(values)
}

/// The serialised forms of a list.
pub open spec fn requirement_trees(list: Seq<Requirement>) -> Seq<JsonTree> {
    list.map_values(|x: Requirement| x.tree())
}

/// Serialises a list.
pub(crate) fn requirement_values(list: &Vec<Requirement>) -> (r: Value)
    ensures
        contents(r) == JsonTree::Array(requirement_trees(list@)),
{
    let mut values: Vec<Value> = Vec::new();
    let mut i: usize = 0;
    while i < list.len()
        invariant
            0 <= i <= list@.len(),
            all_contents(values@) == requirement_trees(list@).take(i as int),
        decreases list@.len() - i,
    {
        let ghost held = values@;
        let next = requirement_value(&list[i]);
        values.push(next);
        assert(all_contents(values@) =~= all_contents(held).push(contents(next)));
        assert(requirement_trees(list@).take(i + 1) =~= requirement_trees(list@).take(i as int).push(
            list@[i as int].tree(),
        ));
        i += 1;
    }
    assert(requirement_trees(list@).take(list@.len() as int) =~= requirement_trees(list@));
    array_value(values)
}

/// The serialised forms of a list.
pub open spec fn provider_prerequisite_trees(list: Seq<ProviderPrerequisite>) -> Seq<JsonTree> {
    list.map_values(|x: ProviderPrerequisite| x.tree())
}

/// Serialises a list.
pub(crate) fn provider_prerequisite_values(list: &Vec<ProviderPrerequisite>) -> (r: Value)
    ensures
        contents(r) == JsonTree::Array(provider_prerequisite_trees(list@)),
{
    let mut values: Vec<Value> = Vec::new();
    let mut i: usize = 0;
    while i < list.len()
        invariant
            0 <= i <= list@.len(),
            all_contents(values@) == provider_prerequisite_trees(list@).take(i as int),
        decreases list@.len() - i,
    {
        let ghost held = values@;
        let next = provider_prerequisite_value(&list[i]);
        values.push(next);
        assert(all_contents(values@) =~= all_contents(held).push(contents(next)));
        assert(provider_prerequisite_trees(list@).take(i + 1) =~= provider_prerequisite_trees(list@).take(i as int).push(
            list@[i as int].tree(),
        ));
        i += 1;
    }
    assert(provider_prerequisite_trees(list@).take(list@.len() as int) =~= provider_prerequisite_trees(list@));
    array_value(values)
}

/// The serialised forms of a list.
pub open spec fn provider_preparation_trees(list: Seq<ProviderPreparation>) -> Seq<JsonTree> {
    list.map_values(|x: ProviderPreparation| x.tree())
}

/// Serialises a list.
pub(crate) fn provider_preparation_values(list: &Vec<ProviderPreparation>) -> (r: Value)
    ensures
        contents(r) == JsonTree::Array(provider_preparation_trees(list@)),
{
    let mut values: Vec<Value> = Vec::new();
    let mut i: usize = 0;
    while i < list.len()
        invariant
            0 <= i <= list@.len(),
            all_contents(values@) == provider_preparation_trees(list@).take(i as int),
        decreases list@.len() - i,
    {
        let ghost held = values@;
        let next = provider_preparation_value(&list[i]);
        values.push(next);
        assert(all_contents(values@) =~= all_contents(held).push(contents(next)));
        assert(provider_preparation_trees(list@).take(i + 1) =~= provider_preparation_trees(list@).take(i as int).push(
            list@[i as int].tree(),
        ));
        i += 1;
    }
    assert(provider_preparation_trees(list@).take(list@.len() as int) =~= provider_preparation_trees(list@));
    array_value(values)
}

/// The serialised forms of a list.
pub open spec fn task_trees(list: Seq<Task>) -> Seq<JsonTree> {
    list.map_values(|x: Task| x.tree())
}

/// Serialises a list.
pub(crate) fn task_values(list: &Vec<Task>) -> (r: Value)
    ensures
        contents(r) == JsonTree::Array(task_trees(list@)),
{
    let mut values: Vec<Value> = Vec::new();
    let mut i: usize = 0;
    while i < list.len()
        invariant
            0 <= i <= list@.len(),
            all_contents(values@) == task_trees(list@).take(i as int),
        decreases list@.len() - i,
    {
        let ghost held = values@;
        let next = task_value(&list[i]);
        values.push(next);
        assert(all_contents(values@) =~= all_contents(held).push(contents(next)));
        assert(task_trees(list@).take(i + 1) =~= task_trees(list@).take(i as int).push(
            list@[i as int].tree(),
        ));
        i += 1;
    }
    assert(task_trees(list@).take(list@.len() as int) =~= task_trees(list@));
    array_value(values)
}

/// The serialised forms of a list.
pub open spec fn script_trees(list: Seq<Script>) -> Seq<JsonTree> {
    list.map_values(|x: Script| x.tree())
}

/// Serialises a list.
pub(crate) fn script_values(list: &Vec<Script>) -> (r: Value)
    ensures
        contents(r) == JsonTree::Array(script_trees(list@)),
{
    let mut values: Vec<Value> = Vec::new();
    let mut i: usize = 0;
    while i < list.len()
        invariant
            0 <= i <= list@.len(),
            all_contents(values@) == script_trees(list@).take(i as int),
        decreases list@.len() - i,
    {
        let ghost held = values@;
        let next = script_value(&list[i]);
        values.push(next);
        assert(all_contents(values@) =~= all_contents(held).push(contents(next)));
        assert(script_trees(list@).take(i + 1) =~= script_trees(list@).take(i as int).push(
            list@[i as int].tree(),
        ));
        i += 1;
    }
    assert(script_trees(list@).take(list@.len() as int) =~= script_trees(list@));
    array_value(values)
}

/// The serialised forms of a list.
pub open spec fn artifact_notice_trees(list: Seq<ArtifactNotice>) -> Seq<JsonTree> {
    list.map_values(|x: ArtifactNotice| x.tree())
}

/// Serialises a list.
pub(crate) fn artifact_notice_values(list: &Vec<ArtifactNotice>) -> (r: Value)
    ensures
        contents(r) == JsonTree::Array(artifact_notice_trees(list@)),
{
    let mut values: Vec<Value> = Vec::new();
    let mut i: usize = 0;
    while i < list.len()
        invariant
            0 <= i <= list@.len(),
            all_contents(values@) == artifact_notice_trees(list@).take(i as int),
        decreases list@.len() - i,
    {
        let ghost held = values@;
        let next = artifact_notice_value(&list[i]);
        values.push(next);
        assert(all_contents(values@) =~= all_contents(held).push(contents(next)));
        assert(artifact_notice_trees(list@).take(i + 1) =~= artifact_notice_trees(list@).take(i as int).push(
            list@[i as int].tree(),
        ));
        i += 1;
    }
    assert(artifact_notice_trees(list@).take(list@.len() as int) =~= artifact_notice_trees(list@));
    array_value(values)
}

/// The serialised forms of a list.
pub open spec fn artifact_selection_trees(list: Seq<ArtifactSelection>) -> Seq<JsonTree> {
    list.map_values(|x: ArtifactSelection| x.tree())
}

/// Serialises a list.
pub(crate) fn artifact_selection_values(list: &Vec<ArtifactSelection>) -> (r: Value)
    ensures
        contents(r) == JsonTree::Array(artifact_selection_trees(list@)),
{
    let mut values: Vec<Value> = Vec::new();
    let mut i: usize = 0;
    while i < list.len()
        invariant
            0 <= i <= list@.len(),
            all_contents(values@) == artifact_selection_trees(list@).take(i as int),
        decreases list@.len() - i,
    {
        let ghost held = values@;
        let next = artifact_selection_value(&list[i]);
        values.push(next);
        assert(all_contents(values@) =~= all_contents(held).push(contents(next)));
        assert(artifact_selection_trees(list@).take(i + 1) =~= artifact_selection_trees(list@).take(i as int).push(
            list@[i as int].tree(),
        ));
        i += 1;
    }
    assert(artifact_selection_trees(list@).take(list@.len() as int) =~= artifact_selection_trees(list@));
    array_value(values)
}

/// The serialised forms of a list.
pub open spec fn artifact_trees(list: Seq<Artifact>) -> Seq<JsonTree> {
    list.map_values(|x: Artifact| x.tree())
}

/// Serialises a list.
pub(crate) fn artifact_values(list: &Vec<Artifact>) -> (r: Value)
    ensures
        contents(r) == JsonTree::Array(artifact_trees(list@)),
{
    let mut values: Vec<Value> = Vec::new();
    let mut i: usize = 0;
    while i < list.len()
        invariant
            0 <= i <= list@.len(),
            all_contents(values@) == artifact_trees(list@).take(i as int),
        decreases list@.len() - i,
    {
        let ghost held = values@;
        let next = artifact_value(&list[i]);
        values.push(next);
        assert(all_contents(values@) =~= all_contents(held).push(contents(next)));
        assert(artifact_trees(list@).take(i + 1) =~= artifact_trees(list@).take(i as int).push(
            list@[i as int].tree(),
        ));
        i += 1;
    }
    assert(artifact_trees(list@).take(list@.len() as int) =~= artifact_trees(list@));
    array_value(values)
}

/// The serialised forms of a list.
pub open spec fn planned_artifact_trees(list: Seq<PlannedArtifact>) -> Seq<JsonTree> {
    list.map_values(|x: PlannedArtifact| x.tree())
}

/// Serialises a list.
pub(crate) fn planned_artifact_values(list: &Vec<PlannedArtifact>) -> (r: Value)
    ensures
        contents(r) == JsonTree::Array(planned_artifact_trees(list@)),
{
    let mut values: Vec<Value> = Vec::new();
    let mut i: usize = 0;
    while i < list.len()
        invariant
            0 <= i <= list@.len(),
            all_contents(values@) == planned_artifact_trees(list@).take(i as int),
        decreases list@.len() - i,
    {
        let ghost held = values@;
        let next = planned_artifact_value(&list[i]);
        values.push(next);
        assert(all_contents(values@) =~= all_contents(held).push(contents(next)));
        assert(planned_artifact_trees(list@).take(i + 1) =~= planned_artifact_trees(list@).take(i as int).push(
            list@[i as int].tree(),
        ));
        i += 1;
    }
    assert(planned_artifact_trees(list@).take(list@.len() as int) =~= planned_artifact_trees(list@));
    array_value(values)
}

} // verus!
