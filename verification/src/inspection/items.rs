//! What views of products and plans say of each item.
use vstd::prelude::*;
use vstd::string::*;

use crate::json::{compact, compact_text};
use crate::model::frozen::frozen_value;
use crate::model::ladder::FlatRung;
use crate::model::manifest::{
    Artifact, ArtifactSelection, BuildInput, Dependency, ManifestModule, Observation,
    PlannedArtifact, ProcessObservation, Production, Provider, ProviderOrigin, ProviderPreparation,
    Requirement, RequirementKind, Script, SourceFile, Task, TaskCachePolicy,
};
use crate::model::wire::{planned_production_value, process_invocation_value};
use crate::number::{decimal, decimal_text, signed_decimal, signed_text};
use crate::text::{cat2, cat3, cat4, cat5, cat6, cat7, repeat, repeated, views};

verus! {

/// A truth value as views write it.
pub open spec fn truth(value: bool) -> Seq<char> {
    if value {
        "true"@
    } else {
        "false"@
    }
}

/// A truth value as views write it.
pub fn truth_name(value: bool) -> (r: &'static str)
    ensures
        r@ == truth(value),
{
    if value {
        "true"
    } else {
        "false"
    }
}

/// Where a provider comes from, as views write it.
pub open spec fn origin_text(origin: ProviderOrigin) -> Seq<char> {
    match origin {
        ProviderOrigin::Builtin { contract_version } => "built-in contract v"@ + decimal(
            contract_version as nat,
        ),
        ProviderOrigin::Custom { entrypoint, files } => "custom "@ + entrypoint@ + ", "@ + decimal(
            files@.len(),
        ) + " files"@,
    }
}

fn render_origin(origin: &ProviderOrigin) -> (r: String)
    ensures
        r@ == origin_text(*origin),
{
    match origin {
        ProviderOrigin::Builtin { contract_version } => cat2(
            "built-in contract v",
            decimal_text(*contract_version as u64).as_str(),
        ),
        ProviderOrigin::Custom { entrypoint, files } => cat4(
            "custom ",
            entrypoint.as_str(),
            ", ",
            cat2(decimal_text(files.len() as u64).as_str(), " files").as_str(),
        ),
    }
}

/// The revision of a cache, as views write it.
pub open spec fn revision_text(cache: TaskCachePolicy) -> Seq<char> {
    match cache.revision {
        Some(revision) => " revision="@ + revision@,
        None => ""@,
    }
}

/// The revision of a cache, as views write it.
pub fn render_revision(cache: &TaskCachePolicy) -> (r: String)
    ensures
        r@ == revision_text(*cache),
{
    match &cache.revision {
        Some(revision) => cat2(" revision=", revision.as_str()),
        None => "".to_string(),
    }
}

/// A number behind its name, as views write it.
pub open spec fn number_note(name: Seq<char>, value: Option<i32>) -> Seq<char> {
    match value {
        Some(number) => name + signed_decimal(number as int),
        None => ""@,
    }
}

fn render_number(name: &str, value: Option<i32>) -> (r: String)
    ensures
        r@ == number_note(name@, value),
{
    match value {
        Some(number) => cat2(name, signed_text(number as i64).as_str()),
        None => "".to_string(),
    }
}

/// What ran, as views write it: hidden where it is sensitive.
pub open spec fn invocation_text(v: ProcessObservation) -> Seq<char> {
    if v.sensitive {
        "<redacted>"@
    } else {
        compact(v.invocation.tree())
    }
}

fn render_invocation(v: &ProcessObservation) -> (r: String)
    ensures
        r@ == invocation_text(*v),
{
    if v.sensitive {
        "<redacted>".to_string()
    } else {
        compact_text(&process_invocation_value(&v.invocation))
    }
}

/// Which rung it is, as views write it.
pub open spec fn rung_kind(v: FlatRung) -> Seq<char> {
    match v.core {
        Some(core) => "core "@ + core.label(),
        None => "custom"@,
    }
}

fn render_rung_kind(v: &FlatRung) -> (r: String)
    ensures
        r@ == rung_kind(*v),
{
    match v.core {
        Some(core) => cat2("core ", core.label_name()),
        None => "custom".to_string(),
    }
}

/// What a rung stands beneath, as views write it.
pub open spec fn rung_parent(v: FlatRung) -> Seq<char> {
    match v.parent {
        Some(parent) => parent.name@,
        None => "top-level"@,
    }
}

fn render_rung_parent(v: &FlatRung) -> (r: String)
    ensures
        r@ == rung_parent(*v),
{
    match &v.parent {
        Some(parent) => parent.name.clone(),
        None => "top-level".to_string(),
    }
}

/// Where the outputs of a task go, as views write it.
pub open spec fn task_root_text(v: Task) -> Seq<char> {
    match v.target_root {
        Some(root) => root.path@,
        None => "none (outputless only)"@,
    }
}

fn render_task_root(v: &Task) -> (r: String)
    ensures
        r@ == task_root_text(*v),
{
    match &v.target_root {
        Some(root) => root.path.clone(),
        None => "none (outputless only)".to_string(),
    }
}

/// The target of a selection, as views write it.
pub open spec fn selection_target(v: ArtifactSelection) -> Seq<char> {
    match v.explicit_target {
        Some(target) => target@,
        None => match v.source_base_target {
            Some(target) => target@,
            None => "unallocated"@,
        },
    }
}

fn render_selection_target(v: &ArtifactSelection) -> (r: String)
    ensures
        r@ == selection_target(*v),
{
    match &v.explicit_target {
        Some(target) => target.clone(),
        None => match &v.source_base_target {
            Some(target) => target.clone(),
            None => "unallocated".to_string(),
        },
    }
}

/// Whether the chosen candidate of a requirement is one of its candidates.
pub open spec fn chosen_exists(v: Requirement) -> bool {
    v.selected < v.candidates@.len()
}

/// Whether that holds of every requirement.
pub open spec fn all_chosen_exist(list: Seq<Requirement>) -> bool {
    forall|i: int| 0 <= i < list.len() ==> chosen_exists(#[trigger] list[i])
}

/// What produces an artifact, as views write it.
pub open spec fn production_text(production: Production) -> Seq<char> {
    match production {
        Production::Static => "static"@,
        Production::Template { .. } => "template"@,
        Production::GeneratedLua { .. } => "generated Lua"@,
        Production::Task { .. } => "task"@,
    }
}

/// What produces an artifact, as views write it.
pub fn production_name(production: &Production) -> (r: &'static str)
    ensures
        r@ == production_text(*production),
{
    match production {
        Production::Static => "static",
        Production::Template { .. } => "template",
        Production::GeneratedLua { .. } => "generated Lua",
        Production::Task { .. } => "task",
    }
}

/// The kind of a requirement, as views write it.
pub open spec fn requirement_word(kind: RequirementKind) -> Seq<char> {
    match kind {
        RequirementKind::Command => "command"@,
        RequirementKind::Package => "package"@,
    }
}

fn requirement_name(kind: RequirementKind) -> (r: &'static str)
    ensures
        r@ == requirement_word(kind),
{
    match kind {
        RequirementKind::Command => "command",
        RequirementKind::Package => "package",
    }
}

/// How a process ended, as views write it.
pub open spec fn status_text(ok: bool) -> Seq<char> {
    if ok {
        "success"@
    } else {
        "failure"@
    }
}

fn status_name(ok: bool) -> (r: &'static str)
    ensures
        r@ == status_text(ok),
{
    if ok {
        "success"
    } else {
        "failure"
    }
}

/// A provider.
pub open spec fn provider_text(v: Provider) -> Seq<char> {
    v.name@
        + " (priority "@
        + decimal(v.priority as nat)
        + ")\n  origin: "@
        + origin_text(v.origin)
        + "\n  config: "@
        + compact(v.config.tree())
        + "\n  declared at: "@
        + v.declared_at.text()
}

/// A provider.
pub fn render_provider(v: &Provider) -> (r: String)
    ensures
        r@ == provider_text(*v),
{
    let text = cat7(
        v.name.as_str(),
        " (priority ",
        decimal_text(v.priority as u64).as_str(),
        ")\n  origin: ",
        render_origin(&v.origin).as_str(),
        "\n  config: ",
        compact_text(&frozen_value(&v.config)).as_str(),
    );
    cat3(
        text.as_str(),
        "\n  declared at: ",
        v.declared_at.display().as_str(),
    )
}

/// The providers of a list.
pub open spec fn provider_items(list: Seq<Provider>) -> Seq<Seq<char>> {
    Seq::new(list.len(), |i: int| provider_text(list[i]))
}

/// The providers of a list.
pub fn list_providers(list: &Vec<Provider>) -> (r: Vec<String>)
    ensures
        views(r@) == provider_items(list@),
{
    let mut r: Vec<String> = Vec::new();
    let mut i: usize = 0;
    while i < list.len()
        invariant
            0 <= i <= list@.len(),
            views(r@) == provider_items(list@).take(i as int),
        decreases list@.len() - i,
    {
        let ghost sofar = r@;
        let text = render_provider(&list[i]);
        let ghost line = text@;
        r.push(text);
        assert(views(r@) =~= views(sofar).push(line));
        assert(provider_items(list@).take(i + 1) =~= provider_items(list@).take(i as int).push(line));
        i += 1;
    }
    assert(provider_items(list@).take(i as int) =~= provider_items(list@));
    r
}

/// What a provider does before its packages.
pub open spec fn preparation_text(v: ProviderPreparation) -> Seq<char> {
    v.provider@
        + ":"@
        + v.identity@
        + "\n  description: "@
        + v.description@
        + "\n  elevated: "@
        + truth(v.elevated)
        + "\n  data: "@
        + compact(v.data.tree())
}

/// What a provider does before its packages.
pub fn render_preparation(v: &ProviderPreparation) -> (r: String)
    ensures
        r@ == preparation_text(*v),
{
    let text = cat7(
        v.provider.as_str(),
        ":",
        v.identity.as_str(),
        "\n  description: ",
        v.description.as_str(),
        "\n  elevated: ",
        truth_name(v.elevated),
    );
    cat3(
        text.as_str(),
        "\n  data: ",
        compact_text(&frozen_value(&v.data)).as_str(),
    )
}

/// The preparations of a list.
pub open spec fn preparation_items(list: Seq<ProviderPreparation>) -> Seq<Seq<char>> {
    Seq::new(list.len(), |i: int| preparation_text(list[i]))
}

/// The preparations of a list.
pub fn list_preparations(list: &Vec<ProviderPreparation>) -> (r: Vec<String>)
    ensures
        views(r@) == preparation_items(list@),
{
    let mut r: Vec<String> = Vec::new();
    let mut i: usize = 0;
    while i < list.len()
        invariant
            0 <= i <= list@.len(),
            views(r@) == preparation_items(list@).take(i as int),
        decreases list@.len() - i,
    {
        let ghost sofar = r@;
        let text = render_preparation(&list[i]);
        let ghost line = text@;
        r.push(text);
        assert(views(r@) =~= views(sofar).push(line));
        assert(preparation_items(list@).take(i + 1) =~= preparation_items(list@).take(i as int).push(line));
        i += 1;
    }
    assert(preparation_items(list@).take(i as int) =~= preparation_items(list@));
    r
}

/// A requirement.
pub open spec fn requirement_text(v: Requirement) -> Seq<char> {
    requirement_word(v.kind)
        + ":"@
        + v.candidates@[v.selected as int].product()
        + "\n  owner: "@
        + v.owner@
        + "\n  choice: "@
        + v.choice.label()
        + "\n  when: "@
        + v.when.name@
        + "\n  provider: "@
        + v.binding.provider@
        + "\n  binding: "@
        + v.binding.identity@
        + "\n  candidates: "@
        + decimal(v.candidates@.len())
        + "\n  declared at: "@
        + v.declared_at.text()
}

/// A requirement.
pub fn render_requirement(v: &Requirement) -> (r: String)
    requires
        chosen_exists(*v),
    ensures
        r@ == requirement_text(*v),
{
    let text = cat7(
        requirement_name(v.kind),
        ":",
        v.candidates[v.selected as usize].name(),
        "\n  owner: ",
        v.owner.as_str(),
        "\n  choice: ",
        v.choice.label_name(),
    );
    let text = cat7(
        text.as_str(),
        "\n  when: ",
        v.when.name.as_str(),
        "\n  provider: ",
        v.binding.provider.as_str(),
        "\n  binding: ",
        v.binding.identity.as_str(),
    );
    cat5(
        text.as_str(),
        "\n  candidates: ",
        decimal_text(v.candidates.len() as u64).as_str(),
        "\n  declared at: ",
        v.declared_at.display().as_str(),
    )
}

/// The requirements of a list.
pub open spec fn requirement_items(list: Seq<Requirement>) -> Seq<Seq<char>> {
    Seq::new(list.len(), |i: int| requirement_text(list[i]))
}

/// The requirements of a list.
pub fn list_requirements(list: &Vec<Requirement>) -> (r: Vec<String>)
    requires
        all_chosen_exist(list@),
    ensures
        views(r@) == requirement_items(list@),
{
    let mut r: Vec<String> = Vec::new();
    let mut i: usize = 0;
    while i < list.len()
        invariant
            0 <= i <= list@.len(),
            all_chosen_exist(list@),
            views(r@) == requirement_items(list@).take(i as int),
        decreases list@.len() - i,
    {
        let ghost sofar = r@;
        let text = render_requirement(&list[i]);
        let ghost line = text@;
        r.push(text);
        assert(views(r@) =~= views(sofar).push(line));
        assert(requirement_items(list@).take(i + 1) =~= requirement_items(list@).take(i as int).push(line));
        i += 1;
    }
    assert(requirement_items(list@).take(i as int) =~= requirement_items(list@));
    r
}

/// A rung, set in by its depth.
pub open spec fn rung_text(v: FlatRung) -> Seq<char> {
    repeated("  "@, v.depth as nat)
        + v.id.name@
        + "\n  kind: "@
        + rung_kind(v)
        + "\n  parent: "@
        + rung_parent(v)
}

/// A rung, set in by its depth.
pub fn render_rung(v: &FlatRung) -> (r: String)
    ensures
        r@ == rung_text(*v),
{
    cat6(
        repeat("  ", v.depth as usize).as_str(),
        v.id.name.as_str(),
        "\n  kind: ",
        render_rung_kind(v).as_str(),
        "\n  parent: ",
        render_rung_parent(v).as_str(),
    )
}

/// The rungs of a list.
pub open spec fn rung_items(list: Seq<FlatRung>) -> Seq<Seq<char>> {
    Seq::new(list.len(), |i: int| rung_text(list[i]))
}

/// The rungs of a list.
pub fn list_rungs(list: &Vec<FlatRung>) -> (r: Vec<String>)
    ensures
        views(r@) == rung_items(list@),
{
    let mut r: Vec<String> = Vec::new();
    let mut i: usize = 0;
    while i < list.len()
        invariant
            0 <= i <= list@.len(),
            views(r@) == rung_items(list@).take(i as int),
        decreases list@.len() - i,
    {
        let ghost sofar = r@;
        let text = render_rung(&list[i]);
        let ghost line = text@;
        r.push(text);
        assert(views(r@) =~= views(sofar).push(line));
        assert(rung_items(list@).take(i + 1) =~= rung_items(list@).take(i as int).push(line));
        i += 1;
    }
    assert(rung_items(list@).take(i as int) =~= rung_items(list@));
    r
}

/// A script.
pub open spec fn script_text(v: Script) -> Seq<char> {
    v.identity@
        + "\n  owner: "@
        + v.owner@
        + "\n  entrypoint: "@
        + v.entrypoint@
        + "\n  rung: "@
        + v.at.name@
        + "\n  schedule: "@
        + v.schedule.label()
        + "\n  scope: "@
        + v.scope.label()
        + "\n  runner: \""@
        + v.runner.family_text()
        + "\"\n  payloads: "@
        + decimal(v.payloads@.len())
        + "\n  declared at: "@
        + v.declared_at.text()
}

/// A script.
pub fn render_script(v: &Script) -> (r: String)
    ensures
        r@ == script_text(*v),
{
    let text = cat7(
        v.identity.as_str(),
        "\n  owner: ",
        v.owner.as_str(),
        "\n  entrypoint: ",
        v.entrypoint.as_str(),
        "\n  rung: ",
        v.at.name.as_str(),
    );
    let text = cat7(
        text.as_str(),
        "\n  schedule: ",
        v.schedule.label_name(),
        "\n  scope: ",
        v.scope.label_name(),
        "\n  runner: \"",
        v.runner.family_name(),
    );
    cat5(
        text.as_str(),
        "\"\n  payloads: ",
        decimal_text(v.payloads.len() as u64).as_str(),
        "\n  declared at: ",
        v.declared_at.display().as_str(),
    )
}

/// The scripts of a list.
pub open spec fn script_items(list: Seq<Script>) -> Seq<Seq<char>> {
    Seq::new(list.len(), |i: int| script_text(list[i]))
}

/// The scripts of a list.
pub fn list_scripts(list: &Vec<Script>) -> (r: Vec<String>)
    ensures
        views(r@) == script_items(list@),
{
    let mut r: Vec<String> = Vec::new();
    let mut i: usize = 0;
    while i < list.len()
        invariant
            0 <= i <= list@.len(),
            views(r@) == script_items(list@).take(i as int),
        decreases list@.len() - i,
    {
        let ghost sofar = r@;
        let text = render_script(&list[i]);
        let ghost line = text@;
        r.push(text);
        assert(views(r@) =~= views(sofar).push(line));
        assert(script_items(list@).take(i + 1) =~= script_items(list@).take(i as int).push(line));
        i += 1;
    }
    assert(script_items(list@).take(i as int) =~= script_items(list@));
    r
}

/// A task of a plan.
pub open spec fn planned_task_text(v: Task) -> Seq<char> {
    v.identity@
        + "\n  owner: "@
        + v.owner@
        + "\n  entrypoint: "@
        + v.entrypoint@
        + "\n  digest: "@
        + v.entrypoint_digest@
        + "\n  runner: \""@
        + v.runner.family_text()
        + "\"\n  cache: "@
        + truth(v.cache.enabled)
        + revision_text(v.cache)
        + "\n  target root: "@
        + task_root_text(v)
        + "\n  declared at: "@
        + v.declared_at.text()
}

/// A task of a plan.
pub fn render_planned_task(v: &Task) -> (r: String)
    ensures
        r@ == planned_task_text(*v),
{
    let text = cat7(
        v.identity.as_str(),
        "\n  owner: ",
        v.owner.as_str(),
        "\n  entrypoint: ",
        v.entrypoint.as_str(),
        "\n  digest: ",
        v.entrypoint_digest.as_str(),
    );
    let text = cat7(
        text.as_str(),
        "\n  runner: \"",
        v.runner.family_name(),
        "\"\n  cache: ",
        truth_name(v.cache.enabled),
        render_revision(&v.cache).as_str(),
        "\n  target root: ",
    );
    cat4(
        text.as_str(),
        render_task_root(v).as_str(),
        "\n  declared at: ",
        v.declared_at.display().as_str(),
    )
}

/// The tasks of a plan.
pub open spec fn planned_task_items(list: Seq<Task>) -> Seq<Seq<char>> {
    Seq::new(list.len(), |i: int| planned_task_text(list[i]))
}

/// The tasks of a plan.
pub fn list_planned_tasks(list: &Vec<Task>) -> (r: Vec<String>)
    ensures
        views(r@) == planned_task_items(list@),
{
    let mut r: Vec<String> = Vec::new();
    let mut i: usize = 0;
    while i < list.len()
        invariant
            0 <= i <= list@.len(),
            views(r@) == planned_task_items(list@).take(i as int),
        decreases list@.len() - i,
    {
        let ghost sofar = r@;
        let text = render_planned_task(&list[i]);
        let ghost line = text@;
        r.push(text);
        assert(views(r@) =~= views(sofar).push(line));
        assert(planned_task_items(list@).take(i + 1) =~= planned_task_items(list@).take(i as int).push(line));
        i += 1;
    }
    assert(planned_task_items(list@).take(i as int) =~= planned_task_items(list@));
    r
}

/// A task of a product.
pub open spec fn task_text(v: Task) -> Seq<char> {
    v.identity@
        + "\n  entrypoint: "@
        + v.entrypoint@
        + "\n  runner: \""@
        + v.runner.family_text()
        + "\"\n  outputs: "@
        + decimal(v.outputs@.len())
        + "\n  declared at: "@
        + v.declared_at.text()
}

/// A task of a product.
pub fn render_task(v: &Task) -> (r: String)
    ensures
        r@ == task_text(*v),
{
    let text = cat7(
        v.identity.as_str(),
        "\n  entrypoint: ",
        v.entrypoint.as_str(),
        "\n  runner: \"",
        v.runner.family_name(),
        "\"\n  outputs: ",
        decimal_text(v.outputs.len() as u64).as_str(),
    );
    cat3(
        text.as_str(),
        "\n  declared at: ",
        v.declared_at.display().as_str(),
    )
}

/// The tasks of a product.
pub open spec fn task_items(list: Seq<Task>) -> Seq<Seq<char>> {
    Seq::new(list.len(), |i: int| task_text(list[i]))
}

/// The tasks of a product.
pub fn list_tasks(list: &Vec<Task>) -> (r: Vec<String>)
    ensures
        views(r@) == task_items(list@),
{
    let mut r: Vec<String> = Vec::new();
    let mut i: usize = 0;
    while i < list.len()
        invariant
            0 <= i <= list@.len(),
            views(r@) == task_items(list@).take(i as int),
        decreases list@.len() - i,
    {
        let ghost sofar = r@;
        let text = render_task(&list[i]);
        let ghost line = text@;
        r.push(text);
        assert(views(r@) =~= views(sofar).push(line));
        assert(task_items(list@).take(i + 1) =~= task_items(list@).take(i as int).push(line));
        i += 1;
    }
    assert(task_items(list@).take(i as int) =~= task_items(list@));
    r
}

/// A selection of artifacts.
pub open spec fn selection_text(v: ArtifactSelection) -> Seq<char> {
    v.declared@
        + "\n  owner: "@
        + v.owner@
        + "\n  expanded: "@
        + v.expanded@
        + "\n  physical: "@
        + v.source_base@
        + "/"@
        + v.physical@
        + "\n  kind: "@
        + v.kind.label()
        + "\n  target: "@
        + selection_target(v)
        + "\n  matches: "@
        + decimal(v.matches@.len())
        + "\n  skipped unallocated: "@
        + decimal(v.skipped_unallocated@.len())
        + "\n  declared at: "@
        + v.declared_at.text()
}

/// A selection of artifacts.
pub fn render_selection(v: &ArtifactSelection) -> (r: String)
    ensures
        r@ == selection_text(*v),
{
    let text = cat7(
        v.declared.as_str(),
        "\n  owner: ",
        v.owner.as_str(),
        "\n  expanded: ",
        v.expanded.as_str(),
        "\n  physical: ",
        v.source_base.as_str(),
    );
    let text = cat7(
        text.as_str(),
        "/",
        v.physical.as_str(),
        "\n  kind: ",
        v.kind.label_name(),
        "\n  target: ",
        render_selection_target(v).as_str(),
    );
    cat7(
        text.as_str(),
        "\n  matches: ",
        decimal_text(v.matches.len() as u64).as_str(),
        "\n  skipped unallocated: ",
        decimal_text(v.skipped_unallocated.len() as u64).as_str(),
        "\n  declared at: ",
        v.declared_at.display().as_str(),
    )
}

/// The selections of a list.
pub open spec fn selection_items(list: Seq<ArtifactSelection>) -> Seq<Seq<char>> {
    Seq::new(list.len(), |i: int| selection_text(list[i]))
}

/// The selections of a list.
pub fn list_selections(list: &Vec<ArtifactSelection>) -> (r: Vec<String>)
    ensures
        views(r@) == selection_items(list@),
{
    let mut r: Vec<String> = Vec::new();
    let mut i: usize = 0;
    while i < list.len()
        invariant
            0 <= i <= list@.len(),
            views(r@) == selection_items(list@).take(i as int),
        decreases list@.len() - i,
    {
        let ghost sofar = r@;
        let text = render_selection(&list[i]);
        let ghost line = text@;
        r.push(text);
        assert(views(r@) =~= views(sofar).push(line));
        assert(selection_items(list@).take(i + 1) =~= selection_items(list@).take(i as int).push(line));
        i += 1;
    }
    assert(selection_items(list@).take(i as int) =~= selection_items(list@));
    r
}

/// An artifact of a plan.
pub open spec fn planned_artifact_text(v: PlannedArtifact) -> Seq<char> {
    v.target.path@
        + "\n  owner: "@
        + v.owner@
        + "\n  source: "@
        + v.source@
        + "\n  production: "@
        + compact(v.production.tree())
        + "\n  declared at: "@
        + v.declared_at.text()
}

/// An artifact of a plan.
pub fn render_planned_artifact(v: &PlannedArtifact) -> (r: String)
    ensures
        r@ == planned_artifact_text(*v),
{
    let text = cat7(
        v.target.path.as_str(),
        "\n  owner: ",
        v.owner.as_str(),
        "\n  source: ",
        v.source.as_str(),
        "\n  production: ",
        compact_text(&planned_production_value(&v.production)).as_str(),
    );
    cat3(
        text.as_str(),
        "\n  declared at: ",
        v.declared_at.display().as_str(),
    )
}

/// The artifacts of a plan.
pub open spec fn planned_artifact_items(list: Seq<PlannedArtifact>) -> Seq<Seq<char>> {
    Seq::new(list.len(), |i: int| planned_artifact_text(list[i]))
}

/// The artifacts of a plan.
pub fn list_planned_artifacts(list: &Vec<PlannedArtifact>) -> (r: Vec<String>)
    ensures
        views(r@) == planned_artifact_items(list@),
{
    let mut r: Vec<String> = Vec::new();
    let mut i: usize = 0;
    while i < list.len()
        invariant
            0 <= i <= list@.len(),
            views(r@) == planned_artifact_items(list@).take(i as int),
        decreases list@.len() - i,
    {
        let ghost sofar = r@;
        let text = render_planned_artifact(&list[i]);
        let ghost line = text@;
        r.push(text);
        assert(views(r@) =~= views(sofar).push(line));
        assert(planned_artifact_items(list@).take(i + 1) =~= planned_artifact_items(list@).take(i as int).push(line));
        i += 1;
    }
    assert(planned_artifact_items(list@).take(i as int) =~= planned_artifact_items(list@));
    r
}

/// An artifact of a product.
pub open spec fn artifact_text(v: Artifact) -> Seq<char> {
    v.target.path@
        + "\n  owner: "@
        + v.owner@
        + "\n  source: "@
        + v.source@
        + "\n  production: "@
        + production_text(v.production)
        + "\n  digest: "@
        + v.content.digest@
}

/// An artifact of a product.
pub fn render_artifact(v: &Artifact) -> (r: String)
    ensures
        r@ == artifact_text(*v),
{
    let text = cat7(
        v.target.path.as_str(),
        "\n  owner: ",
        v.owner.as_str(),
        "\n  source: ",
        v.source.as_str(),
        "\n  production: ",
        production_name(&v.production),
    );
    cat3(
        text.as_str(),
        "\n  digest: ",
        v.content.digest.as_str(),
    )
}

/// The artifacts of a product.
pub open spec fn artifact_items(list: Seq<Artifact>) -> Seq<Seq<char>> {
    Seq::new(list.len(), |i: int| artifact_text(list[i]))
}

/// The artifacts of a product.
pub fn list_artifacts(list: &Vec<Artifact>) -> (r: Vec<String>)
    ensures
        views(r@) == artifact_items(list@),
{
    let mut r: Vec<String> = Vec::new();
    let mut i: usize = 0;
    while i < list.len()
        invariant
            0 <= i <= list@.len(),
            views(r@) == artifact_items(list@).take(i as int),
        decreases list@.len() - i,
    {
        let ghost sofar = r@;
        let text = render_artifact(&list[i]);
        let ghost line = text@;
        r.push(text);
        assert(views(r@) =~= views(sofar).push(line));
        assert(artifact_items(list@).take(i + 1) =~= artifact_items(list@).take(i as int).push(line));
        i += 1;
    }
    assert(artifact_items(list@).take(i as int) =~= artifact_items(list@));
    r
}

/// A source.
pub open spec fn source_text(v: SourceFile) -> Seq<char> {
    v.path@
        + "\n  digest: "@
        + v.digest@
}

/// A source.
pub fn render_source(v: &SourceFile) -> (r: String)
    ensures
        r@ == source_text(*v),
{
    cat3(
        v.path.as_str(),
        "\n  digest: ",
        v.digest.as_str(),
    )
}

/// The sources of a list.
pub open spec fn source_items(list: Seq<SourceFile>) -> Seq<Seq<char>> {
    Seq::new(list.len(), |i: int| source_text(list[i]))
}

/// The sources of a list.
pub fn list_sources(list: &Vec<SourceFile>) -> (r: Vec<String>)
    ensures
        views(r@) == source_items(list@),
{
    let mut r: Vec<String> = Vec::new();
    let mut i: usize = 0;
    while i < list.len()
        invariant
            0 <= i <= list@.len(),
            views(r@) == source_items(list@).take(i as int),
        decreases list@.len() - i,
    {
        let ghost sofar = r@;
        let text = render_source(&list[i]);
        let ghost line = text@;
        r.push(text);
        assert(views(r@) =~= views(sofar).push(line));
        assert(source_items(list@).take(i + 1) =~= source_items(list@).take(i as int).push(line));
        i += 1;
    }
    assert(source_items(list@).take(i as int) =~= source_items(list@));
    r
}

/// A fact that was read.
pub open spec fn context_observation_text(v: Observation) -> Seq<char> {
    v.subject.label()
        + ":"@
        + v.path@
        + "\n  value: "@
        + compact(v.value.tree())
}

/// A fact that was read.
pub fn render_context_observation(v: &Observation) -> (r: String)
    ensures
        r@ == context_observation_text(*v),
{
    cat5(
        v.subject.label_name(),
        ":",
        v.path.as_str(),
        "\n  value: ",
        compact_text(&frozen_value(&v.value)).as_str(),
    )
}

/// The facts of a list.
pub open spec fn context_observation_items(list: Seq<Observation>) -> Seq<Seq<char>> {
    Seq::new(list.len(), |i: int| context_observation_text(list[i]))
}

/// The facts of a list.
pub fn list_context_observations(list: &Vec<Observation>) -> (r: Vec<String>)
    ensures
        views(r@) == context_observation_items(list@),
{
    let mut r: Vec<String> = Vec::new();
    let mut i: usize = 0;
    while i < list.len()
        invariant
            0 <= i <= list@.len(),
            views(r@) == context_observation_items(list@).take(i as int),
        decreases list@.len() - i,
    {
        let ghost sofar = r@;
        let text = render_context_observation(&list[i]);
        let ghost line = text@;
        r.push(text);
        assert(views(r@) =~= views(sofar).push(line));
        assert(context_observation_items(list@).take(i + 1) =~= context_observation_items(list@).take(i as int).push(line));
        i += 1;
    }
    assert(context_observation_items(list@).take(i as int) =~= context_observation_items(list@));
    r
}

/// A fact that was read, in the view of the target.
pub open spec fn target_observation_text(v: Observation) -> Seq<char> {
    v.subject.label()
        + "."@
        + v.path@
        + " = "@
        + compact(v.value.tree())
}

/// A fact that was read, in the view of the target.
pub fn render_target_observation(v: &Observation) -> (r: String)
    ensures
        r@ == target_observation_text(*v),
{
    cat5(
        v.subject.label_name(),
        ".",
        v.path.as_str(),
        " = ",
        compact_text(&frozen_value(&v.value)).as_str(),
    )
}

/// The facts of a list, in the view of the target.
pub open spec fn target_observation_items(list: Seq<Observation>) -> Seq<Seq<char>> {
    Seq::new(list.len(), |i: int| target_observation_text(list[i]))
}

/// The facts of a list, in the view of the target.
pub fn list_target_observations(list: &Vec<Observation>) -> (r: Vec<String>)
    ensures
        views(r@) == target_observation_items(list@),
{
    let mut r: Vec<String> = Vec::new();
    let mut i: usize = 0;
    while i < list.len()
        invariant
            0 <= i <= list@.len(),
            views(r@) == target_observation_items(list@).take(i as int),
        decreases list@.len() - i,
    {
        let ghost sofar = r@;
        let text = render_target_observation(&list[i]);
        let ghost line = text@;
        r.push(text);
        assert(views(r@) =~= views(sofar).push(line));
        assert(target_observation_items(list@).take(i + 1) =~= target_observation_items(list@).take(i as int).push(line));
        i += 1;
    }
    assert(target_observation_items(list@).take(i as int) =~= target_observation_items(list@));
    r
}

/// What a process did.
pub open spec fn process_observation_text(v: ProcessObservation) -> Seq<char> {
    invocation_text(v)
        + "\n  cwd: "@
        + v.cwd@
        + "\n  status: "@
        + status_text(v.ok)
        + number_note(" code="@, v.code)
        + number_note(" signal="@, v.signal)
        + "\n  stdout: "@
        + decimal(v.stdout_size as nat)
        + " "@
        + v.stdout_digest@
        + "\n  stderr: "@
        + decimal(v.stderr_size as nat)
        + " "@
        + v.stderr_digest@
        + "\n  declared at: "@
        + v.declared_at.text()
}

/// What a process did.
pub fn render_process_observation(v: &ProcessObservation) -> (r: String)
    ensures
        r@ == process_observation_text(*v),
{
    let text = cat7(
        render_invocation(v).as_str(),
        "\n  cwd: ",
        v.cwd.as_str(),
        "\n  status: ",
        status_name(v.ok),
        render_number(" code=", v.code).as_str(),
        render_number(" signal=", v.signal).as_str(),
    );
    let text = cat7(
        text.as_str(),
        "\n  stdout: ",
        decimal_text(v.stdout_size as u64).as_str(),
        " ",
        v.stdout_digest.as_str(),
        "\n  stderr: ",
        decimal_text(v.stderr_size as u64).as_str(),
    );
    cat5(
        text.as_str(),
        " ",
        v.stderr_digest.as_str(),
        "\n  declared at: ",
        v.declared_at.display().as_str(),
    )
}

/// What the processes of a list did.
pub open spec fn process_observation_items(list: Seq<ProcessObservation>) -> Seq<Seq<char>> {
    Seq::new(list.len(), |i: int| process_observation_text(list[i]))
}

/// What the processes of a list did.
pub fn list_process_observations(list: &Vec<ProcessObservation>) -> (r: Vec<String>)
    ensures
        views(r@) == process_observation_items(list@),
{
    let mut r: Vec<String> = Vec::new();
    let mut i: usize = 0;
    while i < list.len()
        invariant
            0 <= i <= list@.len(),
            views(r@) == process_observation_items(list@).take(i as int),
        decreases list@.len() - i,
    {
        let ghost sofar = r@;
        let text = render_process_observation(&list[i]);
        let ghost line = text@;
        r.push(text);
        assert(views(r@) =~= views(sofar).push(line));
        assert(process_observation_items(list@).take(i + 1) =~= process_observation_items(list@).take(i as int).push(line));
        i += 1;
    }
    assert(process_observation_items(list@).take(i as int) =~= process_observation_items(list@));
    r
}

/// An input.
pub open spec fn input_text(v: BuildInput) -> Seq<char> {
    v.name@
        + " = "@
        + compact(v.value.tree())
        + " ("@
        + v.kind.label()
        + ", "@
        + v.origin.label()
        + ")\n  declared at: "@
        + v.declared_at.text()
}

/// An input.
pub fn render_input(v: &BuildInput) -> (r: String)
    ensures
        r@ == input_text(*v),
{
    let text = cat7(
        v.name.as_str(),
        " = ",
        compact_text(&frozen_value(&v.value)).as_str(),
        " (",
        v.kind.label_name(),
        ", ",
        v.origin.label_name(),
    );
    cat3(
        text.as_str(),
        ")\n  declared at: ",
        v.declared_at.display().as_str(),
    )
}

/// The inputs of a list.
pub open spec fn input_items(list: Seq<BuildInput>) -> Seq<Seq<char>> {
    Seq::new(list.len(), |i: int| input_text(list[i]))
}

/// The inputs of a list.
pub fn list_inputs(list: &Vec<BuildInput>) -> (r: Vec<String>)
    ensures
        views(r@) == input_items(list@),
{
    let mut r: Vec<String> = Vec::new();
    let mut i: usize = 0;
    while i < list.len()
        invariant
            0 <= i <= list@.len(),
            views(r@) == input_items(list@).take(i as int),
        decreases list@.len() - i,
    {
        let ghost sofar = r@;
        let text = render_input(&list[i]);
        let ghost line = text@;
        r.push(text);
        assert(views(r@) =~= views(sofar).push(line));
        assert(input_items(list@).take(i + 1) =~= input_items(list@).take(i as int).push(line));
        i += 1;
    }
    assert(input_items(list@).take(i as int) =~= input_items(list@));
    r
}

/// A module.
pub open spec fn module_text(v: ManifestModule) -> Seq<char> {
    v.name@
        + "\n  source: "@
        + v.source@
        + "\n  config: "@
        + compact(v.config.tree())
}

/// A module.
pub fn render_module(v: &ManifestModule) -> (r: String)
    ensures
        r@ == module_text(*v),
{
    cat5(
        v.name.as_str(),
        "\n  source: ",
        v.source.as_str(),
        "\n  config: ",
        compact_text(&frozen_value(&v.config)).as_str(),
    )
}

/// The modules of a list.
pub open spec fn module_items(list: Seq<ManifestModule>) -> Seq<Seq<char>> {
    Seq::new(list.len(), |i: int| module_text(list[i]))
}

/// The modules of a list.
pub fn list_modules(list: &Vec<ManifestModule>) -> (r: Vec<String>)
    ensures
        views(r@) == module_items(list@),
{
    let mut r: Vec<String> = Vec::new();
    let mut i: usize = 0;
    while i < list.len()
        invariant
            0 <= i <= list@.len(),
            views(r@) == module_items(list@).take(i as int),
        decreases list@.len() - i,
    {
        let ghost sofar = r@;
        let text = render_module(&list[i]);
        let ghost line = text@;
        r.push(text);
        assert(views(r@) =~= views(sofar).push(line));
        assert(module_items(list@).take(i + 1) =~= module_items(list@).take(i as int).push(line));
        i += 1;
    }
    assert(module_items(list@).take(i as int) =~= module_items(list@));
    r
}

/// A dependency.
pub open spec fn dependency_text(v: Dependency) -> Seq<char> {
    v.kind.label()
        + " "@
        + v.from@
        + " -> "@
        + v.to@
        + "\n  declared at: "@
        + v.declared_at.text()
}

/// A dependency.
pub fn render_dependency(v: &Dependency) -> (r: String)
    ensures
        r@ == dependency_text(*v),
{
    cat7(
        v.kind.label_name(),
        " ",
        v.from.as_str(),
        " -> ",
        v.to.as_str(),
        "\n  declared at: ",
        v.declared_at.display().as_str(),
    )
}

/// The dependencies of a list.
pub open spec fn dependency_items(list: Seq<Dependency>) -> Seq<Seq<char>> {
    Seq::new(list.len(), |i: int| dependency_text(list[i]))
}

/// The dependencies of a list.
pub fn list_dependencies(list: &Vec<Dependency>) -> (r: Vec<String>)
    ensures
        views(r@) == dependency_items(list@),
{
    let mut r: Vec<String> = Vec::new();
    let mut i: usize = 0;
    while i < list.len()
        invariant
            0 <= i <= list@.len(),
            views(r@) == dependency_items(list@).take(i as int),
        decreases list@.len() - i,
    {
        let ghost sofar = r@;
        let text = render_dependency(&list[i]);
        let ghost line = text@;
        r.push(text);
        assert(views(r@) =~= views(sofar).push(line));
        assert(dependency_items(list@).take(i + 1) =~= dependency_items(list@).take(i as int).push(line));
        i += 1;
    }
    assert(dependency_items(list@).take(i as int) =~= dependency_items(list@));
    r
}

} // verus!
