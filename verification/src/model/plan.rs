//! Frozen plans: how they come about, what identifies them and what must hold of
//! them.
use vstd::prelude::*;
use vstd::string::*;

use crate::digest::{
    digest, digest_of, text_digest, text_digest_of, valid_digest, validate_sha_identity,
};
use crate::error::{
    configured, either, first, is_configuration, problem_if, reports, settles, Problem, Result,
    WombatError,
};
use crate::json::{
    compact, compact_text, members, no_members, object_tree, object_value, put, unsigned_value,
    JsonTree,
};
use crate::lua::helpers::{catalog_problem, validate_catalog};
use crate::model::context::resolved_target_value;
use crate::model::ladder::{ladder_value, ExecutionLadder};
use crate::model::manifest::{
    BuildPlan, EvaluatedArtifact, EvaluatedManifest, EvaluatedProduction, EvaluatedTask,
    PlannedArtifact, PlannedProduction, ProviderFile, RendererIdentity, Requirement, Script,
    ScriptPayload, SourceFile, Task, TemplateHelperPack, BUILD_PLAN_FORMAT_VERSION,
};
use crate::model::path::{relative_problem, validate_relative_path};
use crate::model::wire::{
    artifact_notice_trees, artifact_notice_values, artifact_policy_value, artifact_selection_trees,
    artifact_selection_values, build_input_trees, build_input_values, dependency_trees,
    dependency_values, manifest_module_trees, manifest_module_values, observation_trees,
    observation_values, planned_artifact_trees, planned_artifact_values, process_observation_trees,
    process_observation_values, provider_preparation_trees, provider_preparation_values,
    provider_trees, provider_values, requirement_trees, requirement_values, script_trees,
    script_values, source_file_trees, source_file_values, task_trees, task_values,
    template_helper_pack_trees, template_helper_pack_values,
};
use crate::number::{decimal, decimal_text};
use crate::text::{cat3, cat4, cat5, cat6, same};

verus! {

/// What is identified of a plan: what it holds, but neither the release that made it,
/// nor where its repository stands, nor how it was asked for.
pub open spec fn identity_members(plan: BuildPlan) -> Seq<(Seq<char>, JsonTree)> {
    no_members().push(
        ("format_version"@, JsonTree::Integer(plan.format_version as int)),
    ).push(
        ("construction_version"@, JsonTree::Integer(plan.construction_version as int)),
    ).push(("sources"@, JsonTree::Array(source_file_trees(plan.sources@)))).push(
        ("inputs"@, JsonTree::Array(build_input_trees(plan.inputs@))),
    ).push(("target"@, plan.target.tree())).push(
        ("observations"@, JsonTree::Array(observation_trees(plan.observations@))),
    ).push(
        (
            "process_observations"@,
            JsonTree::Array(process_observation_trees(plan.process_observations@)),
        ),
    ).push(("modules"@, JsonTree::Array(manifest_module_trees(plan.modules@)))).push(
        ("dependencies"@, JsonTree::Array(dependency_trees(plan.dependencies@))),
    ).push(
        (
            "template_helpers"@,
            JsonTree::Array(template_helper_pack_trees(plan.template_helpers@)),
        ),
    ).push(("ladder"@, plan.ladder.tree())).push(
        ("providers"@, JsonTree::Array(provider_trees(plan.providers@))),
    ).push(("requirements"@, JsonTree::Array(requirement_trees(plan.requirements@)))).push(
        ("preparations"@, JsonTree::Array(provider_preparation_trees(plan.preparations@))),
    ).push(("tasks"@, JsonTree::Array(task_trees(plan.tasks@)))).push(
        ("scripts"@, JsonTree::Array(script_trees(plan.scripts@))),
    ).push(("artifact_policy"@, plan.artifact_policy.tree())).push(
        ("artifact_notices"@, JsonTree::Array(artifact_notice_trees(plan.artifact_notices@))),
    ).push(
        (
            "artifact_selections"@,
            JsonTree::Array(artifact_selection_trees(plan.artifact_selections@)),
        ),
    ).push(("artifacts"@, JsonTree::Array(planned_artifact_trees(plan.artifacts@))))
}

/// The identity of a plan: the digest of the JSON text of what is identified of it.
pub open spec fn identity_of(plan: BuildPlan) -> Seq<char> {
    text_digest_of(compact(object_tree(identity_members(plan))))
}

/// Finds the identity of a plan.
pub fn compute_id(plan: &BuildPlan) -> (r: String)
    ensures
        r@ == identity_of(*plan),
        valid_digest(r@),
{
    let mut m = members();
    put(&mut m, "format_version", unsigned_value(plan.format_version as u64));
    put(&mut m, "construction_version", unsigned_value(plan.construction_version as u64));
    put(&mut m, "sources", source_file_values(&plan.sources));
    put(&mut m, "inputs", build_input_values(&plan.inputs));
    put(&mut m, "target", resolved_target_value(&plan.target));
    put(&mut m, "observations", observation_values(&plan.observations));
    put(
        &mut m,
        "process_observations",
        process_observation_values(&plan.process_observations),
    );
    put(&mut m, "modules", manifest_module_values(&plan.modules));
    put(&mut m, "dependencies", dependency_values(&plan.dependencies));
    put(&mut m, "template_helpers", template_helper_pack_values(&plan.template_helpers));
    put(&mut m, "ladder", ladder_value(&plan.ladder));
    put(&mut m, "providers", provider_values(&plan.providers));
    put(&mut m, "requirements", requirement_values(&plan.requirements));
    put(&mut m, "preparations", provider_preparation_values(&plan.preparations));
    put(&mut m, "tasks", task_values(&plan.tasks));
    put(&mut m, "scripts", script_values(&plan.scripts));
    put(&mut m, "artifact_policy", artifact_policy_value(&plan.artifact_policy));
    put(&mut m, "artifact_notices", artifact_notice_values(&plan.artifact_notices));
    put(&mut m, "artifact_selections", artifact_selection_values(&plan.artifact_selections));
    put(&mut m, "artifacts", planned_artifact_values(&plan.artifacts));
    text_digest(compact_text(&object_value(m)).as_str())
}

/// The same configuration has the same identity, whatever the release, the place of
/// the repository and the command line.
pub proof fn law_identity_covers_configuration_only(
    plan: BuildPlan,
    wombat_version: String,
    project: Option<String>,
    plan_id: String,
    project_arguments: Vec<String>,
    project_identity: String,
)
    ensures
        identity_of(
            (BuildPlan {
                wombat_version,
                project,
                plan_id,
                project_arguments,
                project_identity,
                ..plan
            }),
        ) == identity_of(plan),
{
    let other = BuildPlan {
        wombat_version,
        project,
        plan_id,
        project_arguments,
        project_identity,
        ..plan
    };
    assert(identity_members(other) =~= identity_members(plan));
}

/// What was found at the source of an artifact.
#[derive(Debug, PartialEq)]
pub struct ArtifactSource {
    /// Its bytes
    pub bytes: Vec<u8>,
    /// Whether it may be run
    pub executable: bool,
}

/// Whether what is planned is what was evaluated, from this source.
pub open spec fn production_planned(
    planned: PlannedProduction,
    evaluated: EvaluatedProduction,
    found: Result<ArtifactSource>,
) -> bool {
    match evaluated {
        EvaluatedProduction::Static => found is Ok && (planned matches PlannedProduction::Static {
            source_digest,
            executable,
        } && source_digest@ == digest_of(found->Ok_0.bytes@) && executable
            == found->Ok_0.executable),
        EvaluatedProduction::Template { context } => found is Ok && (
        planned matches PlannedProduction::Template {
            renderer,
            source_digest,
            context: c,
            executable,
        } && renderer.name@ == "handlebars"@ && renderer.contract_version == 1 && source_digest@
            == digest_of(found->Ok_0.bytes@) && c == context && executable
            == found->Ok_0.executable),
        EvaluatedProduction::GeneratedLua { content, executable } => (
        planned matches PlannedProduction::GeneratedLua {
            contract_version,
            content_digest,
            size,
            executable: e,
        } && contract_version == 1 && content_digest@ == digest_of(content@) && size
            == content@.len() && e == executable),
        EvaluatedProduction::Task { .. } => false,
    }
}

/// Whether a production can be planned.
pub open spec fn production_refused(
    evaluated: EvaluatedProduction,
    found: Result<ArtifactSource>,
) -> bool {
    match evaluated {
        EvaluatedProduction::Static => found is Err,
        EvaluatedProduction::Template { .. } => found is Err,
        EvaluatedProduction::GeneratedLua { .. } => false,
        EvaluatedProduction::Task { .. } => true,
    }
}

/// Whether a refused production is refused for what it should be.
pub open spec fn refusal_is(
    error: WombatError,
    evaluated: EvaluatedProduction,
    found: Result<ArtifactSource>,
) -> bool {
    match evaluated {
        EvaluatedProduction::Task { .. } => is_configuration(
            error,
            "task output cannot exist before build plan execution"@,
        ),
        _ => found is Err && error == found->Err_0,
    }
}

fn plan_production(evaluated: EvaluatedProduction, found: Result<ArtifactSource>) -> (r: Result<
    PlannedProduction,
>)
    ensures
        r is Err <==> production_refused(evaluated, found),
        r matches Ok(planned) ==> production_planned(planned, evaluated, found),
        r matches Err(error) ==> refusal_is(error, evaluated, found),
{
    match evaluated {
        EvaluatedProduction::Static => {
            let source = found?;
            Ok(
                PlannedProduction::Static {
                    source_digest: digest(source.bytes.as_slice()),
                    executable: source.executable,
                },
            )
        },
        EvaluatedProduction::Template { context } => {
            let source = found?;
            Ok(
                PlannedProduction::Template {
                    renderer: RendererIdentity {
                        name: "handlebars".to_string(),
                        contract_version: 1,
                    },
                    source_digest: digest(source.bytes.as_slice()),
                    context,
                    executable: source.executable,
                },
            )
        },
        EvaluatedProduction::GeneratedLua { content, executable } => Ok(
            PlannedProduction::GeneratedLua {
                contract_version: 1,
                content_digest: digest(content.as_slice()),
                size: content.len() as u64,
                executable,
            },
        ),
        EvaluatedProduction::Task { .. } => Err(
            WombatError::configuration("task output cannot exist before build plan execution"),
        ),
    }
}

/// Whether an artifact is planned as it was evaluated.
pub open spec fn artifact_planned(
    planned: PlannedArtifact,
    evaluated: EvaluatedArtifact,
    found: Result<ArtifactSource>,
) -> bool {
    &&& planned.source == evaluated.source
    &&& planned.source_origin == evaluated.source_origin
    &&& planned.source_projection == evaluated.source_projection
    &&& production_planned(planned.production, evaluated.production, found)
    &&& planned.target == evaluated.target
    &&& planned.owner == evaluated.owner
    &&& planned.declared_at == evaluated.declared_at
}

/// Whether artifacts are planned as they were evaluated.
pub open spec fn artifacts_planned(
    planned: Seq<PlannedArtifact>,
    evaluated: Seq<EvaluatedArtifact>,
    found: Seq<Result<ArtifactSource>>,
) -> bool {
    &&& planned.len() == evaluated.len()
    &&& forall|i: int|
        0 <= i < planned.len() ==> artifact_planned(#[trigger] planned[i], evaluated[i], found[i])
}

/// Whether planning artifacts fails at one of them: none before it is refused.
pub open spec fn planning_fails_at(
    error: WombatError,
    evaluated: Seq<EvaluatedArtifact>,
    found: Seq<Result<ArtifactSource>>,
    index: int,
) -> bool {
    &&& 0 <= index < evaluated.len()
    &&& production_refused(evaluated[index].production, found[index])
    &&& refusal_is(error, evaluated[index].production, found[index])
    &&& forall|j: int|
        0 <= j < index ==> !production_refused((#[trigger] evaluated[j]).production, found[j])
}

fn plan_artifacts(evaluated: Vec<EvaluatedArtifact>, found: Vec<Result<ArtifactSource>>) -> (r: Result<
    Vec<PlannedArtifact>,
>)
    requires
        found@.len() == evaluated@.len(),
    ensures
        match r {
            Ok(planned) => artifacts_planned(planned@, evaluated@, found@),
            Err(error) => exists|index: int|
                #[trigger] planning_fails_at(error, evaluated@, found@, index),
        },
{
    let ghost all = evaluated@;
    let ghost sources = found@;
    let mut rest = evaluated;
    let mut given = found;
    let mut r: Vec<PlannedArtifact> = Vec::new();
    let ghost mut count: int = 0;
    assert(all.skip(0) =~= all);
    assert(sources.skip(0) =~= sources);
    while rest.len() > 0
        invariant
            0 <= count <= all.len(),
            all == evaluated@,
            sources == found@,
            all.len() == sources.len(),
            rest@ == all.skip(count),
            given@ == sources.skip(count),
            r@.len() == count,
            forall|i: int|
                0 <= i < count ==> artifact_planned(#[trigger] r@[i], all[i], sources[i]),
            forall|j: int|
                0 <= j < count ==> !production_refused((#[trigger] all[j]).production, sources[j]),
        decreases rest@.len(),
    {
        let artifact = rest.remove(0);
        let source = given.remove(0);
        proof {
            assert(artifact == all[count]);
            assert(source == sources[count]);
            assert(all.skip(count).remove(0) =~= all.skip(count + 1));
            assert(sources.skip(count).remove(0) =~= sources.skip(count + 1));
        }
        let production = match plan_production(artifact.production, source) {
            Ok(production) => production,
            Err(error) => {
                assert(planning_fails_at(error, all, sources, count));
                return Err(error);
            },
        };
        let ghost sofar = r@;
        r.push(
            PlannedArtifact {
                source: artifact.source,
                source_origin: artifact.source_origin,
                source_projection: artifact.source_projection,
                production,
                target: artifact.target,
                owner: artifact.owner,
                declared_at: artifact.declared_at,
            },
        );
        proof {
            assert forall|i: int| 0 <= i < count + 1 implies artifact_planned(
                #[trigger] r@[i],
                all[i],
                sources[i],
            ) by {
                if i < count {
                    assert(r@[i] == sofar[i]);
                }
            }
            count = count + 1;
        }
    }
    Ok(r)
}

/// Whether tasks are those that were evaluated.
pub open spec fn tasks_planned(planned: Seq<Task>, evaluated: Seq<EvaluatedTask>) -> bool {
    &&& planned.len() == evaluated.len()
    &&& forall|i: int| 0 <= i < planned.len() ==> #[trigger] planned[i] == evaluated[i].task
}

fn plan_tasks(evaluated: Vec<EvaluatedTask>) -> (r: Vec<Task>)
    ensures
        tasks_planned(r@, evaluated@),
{
    let ghost all = evaluated@;
    let mut rest = evaluated;
    let mut r: Vec<Task> = Vec::new();
    let ghost mut count: int = 0;
    assert(all.skip(0) =~= all);
    while rest.len() > 0
        invariant
            0 <= count <= all.len(),
            rest@ == all.skip(count),
            r@.len() == count,
            forall|i: int| 0 <= i < count ==> #[trigger] r@[i] == all[i].task,
        decreases rest@.len(),
    {
        let task = rest.remove(0);
        proof {
            assert(task == all[count]);
            assert(all.skip(count).remove(0) =~= all.skip(count + 1));
        }
        r.push(task.task);
        proof {
            count = count + 1;
        }
    }
    r
}

/// Whether a plan freezes what was evaluated.
pub open spec fn frozen_from(
    plan: BuildPlan,
    desired: EvaluatedManifest,
    found: Seq<Result<ArtifactSource>>,
    release: Seq<char>,
    construction_version: u32,
) -> bool {
    &&& plan.format_version == BUILD_PLAN_FORMAT_VERSION
    &&& plan.construction_version == construction_version
    &&& plan.wombat_version@ == release
    &&& plan.project == desired.project
    &&& plan.plan_id@ == identity_of(plan)
    &&& plan.project_arguments == desired.project_arguments
    &&& plan.sources == desired.sources
    &&& plan.inputs == desired.inputs
    &&& plan.target == desired.target
    &&& plan.observations == desired.observations
    &&& plan.process_observations == desired.process_observations
    &&& plan.modules == desired.modules
    &&& plan.dependencies == desired.dependencies
    &&& plan.template_helpers == desired.template_helpers
    &&& plan.project_identity == desired.project_identity
    &&& plan.ladder == desired.ladder
    &&& plan.providers == desired.providers
    &&& plan.requirements == desired.requirements
    &&& plan.preparations == desired.preparations
    &&& tasks_planned(plan.tasks@, desired.tasks@)
    &&& plan.scripts == desired.scripts
    &&& plan.artifact_policy == desired.artifact_policy
    &&& plan.artifact_notices == desired.artifact_notices
    &&& plan.artifact_selections == desired.artifact_selections
    &&& artifacts_planned(plan.artifacts@, desired.artifacts@, found)
}

/// Freezes what was evaluated. `found` is what was found at the source of each
/// artifact, `release` the release of Wombat, and `construction_version` the version
/// of its rules.
pub fn freeze(
    desired: EvaluatedManifest,
    found: Vec<Result<ArtifactSource>>,
    release: &str,
    construction_version: u32,
) -> (r: Result<BuildPlan>)
    requires
        found@.len() == desired.artifacts@.len(),
    ensures
        match r {
            Ok(plan) => frozen_from(plan, desired, found@, release@, construction_version),
            Err(error) => exists|index: int|
                #[trigger] planning_fails_at(error, desired.artifacts@, found@, index),
        },
{
    let artifacts = plan_artifacts(desired.artifacts, found)?;
    let mut plan = BuildPlan {
        format_version: BUILD_PLAN_FORMAT_VERSION,
        construction_version,
        wombat_version: release.to_string(),
        project: desired.project,
        plan_id: String::new(),
        project_arguments: desired.project_arguments,
        sources: desired.sources,
        inputs: desired.inputs,
        target: desired.target,
        observations: desired.observations,
        process_observations: desired.process_observations,
        modules: desired.modules,
        dependencies: desired.dependencies,
        template_helpers: desired.template_helpers,
        project_identity: desired.project_identity,
        ladder: desired.ladder,
        providers: desired.providers,
        requirements: desired.requirements,
        preparations: desired.preparations,
        tasks: plan_tasks(desired.tasks),
        scripts: desired.scripts,
        artifact_policy: desired.artifact_policy,
        artifact_notices: desired.artifact_notices,
        artifact_selections: desired.artifact_selections,
        artifacts,
    };
    let ghost unnamed = plan;
    plan.plan_id = compute_id(&plan);
    proof {
        law_identity_covers_configuration_only(
            unnamed,
            plan.wombat_version,
            plan.project,
            plan.plan_id,
            plan.project_arguments,
            plan.project_identity,
        );
    }
    Ok(plan)
}

/// Whether a task before this one has its identity.
pub open spec fn task_repeats(tasks: Seq<Task>, index: int) -> bool {
    exists|j: int| 0 <= j < index && (#[trigger] tasks[j]).identity@ == tasks[index].identity@
}

/// Whether a script before this one has its identity.
pub open spec fn script_repeats(scripts: Seq<Script>, index: int) -> bool {
    exists|j: int| 0 <= j < index && (#[trigger] scripts[j]).identity@ == scripts[index].identity@
}

fn is_task_repeated(tasks: &Vec<Task>, index: usize) -> (r: bool)
    requires
        index < tasks@.len(),
    ensures
        r == task_repeats(tasks@, index as int),
{
    let mut j: usize = 0;
    while j < index
        invariant
            0 <= j <= index < tasks@.len(),
            forall|k: int|
                0 <= k < j ==> (#[trigger] tasks@[k]).identity@ != tasks@[index as int].identity@,
        decreases index - j,
    {
        if same(tasks[j].identity.as_str(), tasks[index].identity.as_str()) {
            return true;
        }
        j += 1;
    }
    false
}

fn is_script_repeated(scripts: &Vec<Script>, index: usize) -> (r: bool)
    requires
        index < scripts@.len(),
    ensures
        r == script_repeats(scripts@, index as int),
{
    let mut j: usize = 0;
    while j < index
        invariant
            0 <= j <= index < scripts@.len(),
            forall|k: int|
                0 <= k < j ==> (#[trigger] scripts@[k]).identity@
                    != scripts@[index as int].identity@,
        decreases index - j,
    {
        if same(scripts[j].identity.as_str(), scripts[index].identity.as_str()) {
            return true;
        }
        j += 1;
    }
    false
}

/// What is wrong with the first tasks of a plan.
pub open spec fn tasks_problem(ladder: ExecutionLadder, tasks: Seq<Task>, count: int) -> Option<
    Seq<char>,
>
    decreases count,
{
    if count <= 0 {
        None
    } else {
        let task = tasks[count - 1];
        first(
            tasks_problem(ladder, tasks, count - 1),
            problem_if(
                task_repeats(tasks, count - 1) || !ladder.accepts(task.at),
                "plan task `"@ + task.identity@ + "` has invalid identity or rung"@,
            ),
        )
    }
}

/// What is wrong with a file that a script takes along.
pub open spec fn payload_problem(payload: ScriptPayload) -> Option<Seq<char>> {
    first(
        relative_problem(payload.source@, "script payload source"@),
        first(
            relative_problem(payload.relative@, "script payload relative path"@),
            problem_if(!valid_digest(payload.digest@), "script payload digest"@ + " is invalid"@),
        ),
    )
}

/// What is wrong with the first files that a script takes along.
pub open spec fn payloads_problem(payloads: Seq<ScriptPayload>, count: int) -> Option<Seq<char>>
    decreases count,
{
    if count <= 0 {
        None
    } else {
        first(payloads_problem(payloads, count - 1), payload_problem(payloads[count - 1]))
    }
}

/// What is wrong with the first scripts of a plan.
pub open spec fn scripts_problem(
    ladder: ExecutionLadder,
    scripts: Seq<Script>,
    count: int,
) -> Option<Seq<char>>
    decreases count,
{
    if count <= 0 {
        None
    } else {
        let script = scripts[count - 1];
        first(
            scripts_problem(ladder, scripts, count - 1),
            first(
                problem_if(
                    script_repeats(scripts, count - 1) || !ladder.accepts(script.at)
                        || script.payloads@.len() == 0,
                    "plan script `"@ + script.identity@
                        + "` has invalid identity, rung, or payload"@,
                ),
                payloads_problem(script.payloads@, script.payloads@.len() as int),
            ),
        )
    }
}

/// What is wrong with the actions of a plan.
pub open spec fn actions_problem(
    ladder: ExecutionLadder,
    tasks: Seq<Task>,
    scripts: Seq<Script>,
) -> Option<Seq<char>> {
    first(
        tasks_problem(ladder, tasks, tasks.len() as int),
        scripts_problem(ladder, scripts, scripts.len() as int),
    )
}

proof fn lemma_tasks_front(ladder: ExecutionLadder, tasks: Seq<Task>, count: int, total: int)
    requires
        0 <= count <= total,
        tasks_problem(ladder, tasks, count) is Some,
    ensures
        tasks_problem(ladder, tasks, total) == tasks_problem(ladder, tasks, count),
    decreases total - count,
{
    if count < total {
        lemma_tasks_front(ladder, tasks, count, total - 1);
    }
}

proof fn lemma_payloads_front(payloads: Seq<ScriptPayload>, count: int, total: int)
    requires
        0 <= count <= total,
        payloads_problem(payloads, count) is Some,
    ensures
        payloads_problem(payloads, total) == payloads_problem(payloads, count),
    decreases total - count,
{
    if count < total {
        lemma_payloads_front(payloads, count, total - 1);
    }
}

proof fn lemma_scripts_front(
    ladder: ExecutionLadder,
    scripts: Seq<Script>,
    count: int,
    total: int,
)
    requires
        0 <= count <= total,
        scripts_problem(ladder, scripts, count) is Some,
    ensures
        scripts_problem(ladder, scripts, total) == scripts_problem(ladder, scripts, count),
    decreases total - count,
{
    if count < total {
        lemma_scripts_front(ladder, scripts, count, total - 1);
    }
}

fn check_payloads(payloads: &Vec<ScriptPayload>) -> (r: Result<()>)
    ensures
        reports(r, payloads_problem(payloads@, payloads@.len() as int)),
{
    let mut i: usize = 0;
    while i < payloads.len()
        invariant
            0 <= i <= payloads@.len(),
            payloads_problem(payloads@, i as int) is None,
        decreases payloads@.len() - i,
    {
        proof {
            if payloads_problem(payloads@, i + 1) is Some {
                lemma_payloads_front(payloads@, i + 1, payloads@.len() as int);
            }
        }
        let payload = &payloads[i];
        validate_relative_path(payload.source.as_str(), "script payload source")?;
        validate_relative_path(payload.relative.as_str(), "script payload relative path")?;
        validate_sha_identity(payload.digest.as_str(), "script payload digest")?;
        i += 1;
    }
    Ok(())
}

/// Makes sure that the actions of a plan have their identities to themselves and
/// stand at rungs that they may stand at.
pub fn validate_actions(ladder: &ExecutionLadder, tasks: &Vec<Task>, scripts: &Vec<Script>) -> (r: Result<
    (),
>)
    ensures
        reports(r, actions_problem(*ladder, tasks@, scripts@)),
{
    let mut i: usize = 0;
    while i < tasks.len()
        invariant
            0 <= i <= tasks@.len(),
            tasks_problem(*ladder, tasks@, i as int) is None,
        decreases tasks@.len() - i,
    {
        proof {
            if tasks_problem(*ladder, tasks@, i + 1) is Some {
                lemma_tasks_front(*ladder, tasks@, i + 1, tasks@.len() as int);
            }
        }
        if is_task_repeated(tasks, i) || !ladder.contains(&tasks[i].at) || ladder.is_container(
            &tasks[i].at,
        ) {
            return Err(
                WombatError::Configuration(
                    cat3(
                        "plan task `",
                        tasks[i].identity.as_str(),
                        "` has invalid identity or rung",
                    ),
                ),
            );
        }
        i += 1;
    }
    let mut j: usize = 0;
    while j < scripts.len()
        invariant
            0 <= j <= scripts@.len(),
            tasks_problem(*ladder, tasks@, tasks@.len() as int) is None,
            scripts_problem(*ladder, scripts@, j as int) is None,
        decreases scripts@.len() - j,
    {
        proof {
            if scripts_problem(*ladder, scripts@, j + 1) is Some {
                lemma_scripts_front(*ladder, scripts@, j + 1, scripts@.len() as int);
            }
        }
        let script = &scripts[j];
        if is_script_repeated(scripts, j) || !ladder.contains(&script.at) || ladder.is_container(
            &script.at,
        ) || script.payloads.len() == 0 {
            return Err(
                WombatError::Configuration(
                    cat3(
                        "plan script `",
                        script.identity.as_str(),
                        "` has invalid identity, rung, or payload",
                    ),
                ),
            );
        }
        check_payloads(&script.payloads)?;
        j += 1;
    }
    Ok(())
}

/// Whether a source is among those of a plan.
pub open spec fn source_known(sources: Seq<SourceFile>, path: Seq<char>) -> bool {
    exists|i: int| 0 <= i < sources.len() && (#[trigger] sources[i]).path@ == path
}

fn knows_source(sources: &Vec<SourceFile>, path: &str) -> (r: bool)
    ensures
        r == source_known(sources@, path@),
{
    let mut i: usize = 0;
    while i < sources.len()
        invariant
            0 <= i <= sources@.len(),
            forall|j: int| 0 <= j < i ==> (#[trigger] sources@[j]).path@ != path@,
        decreases sources@.len() - i,
    {
        if same(sources[i].path.as_str(), path) {
            return true;
        }
        i += 1;
    }
    false
}

/// The message about a source that a plan lacks.
pub open spec fn uncatalogued(subject: Seq<char>, verb: Seq<char>, path: Seq<char>) -> Seq<char> {
    "plan template helper `"@ + subject + verb + path + "`"@
}

fn check_known(sources: &Vec<SourceFile>, subject: &str, verb: &str, path: &str) -> (r: Result<()>)
    ensures
        reports(
            r,
            problem_if(
                !source_known(sources@, path@),
                uncatalogued(subject@, verb@, path@),
            ),
        ),
{
    if !knows_source(sources, path) {
        return Err(
            WombatError::Configuration(
                cat5("plan template helper `", subject, verb, path, "`"),
            ),
        );
    }
    Ok(())
}

/// What is wrong with the first callers of the declaration of a pack.
pub open spec fn callers_problem(
    sources: Seq<SourceFile>,
    pack: TemplateHelperPack,
    count: int,
) -> Option<Seq<char>>
    decreases count,
{
    if count <= 0 {
        None
    } else {
        let path = pack.declared_at.callers@[count - 1].source@;
        first(
            callers_problem(sources, pack, count - 1),
            problem_if(
                !source_known(sources, path),
                uncatalogued(
                    pack.module@,
                    "` declaration references uncatalogued source `"@,
                    path,
                ),
            ),
        )
    }
}

/// What is wrong with the first sources of a pack.
pub open spec fn pack_sources_problem(
    sources: Seq<SourceFile>,
    pack: TemplateHelperPack,
    count: int,
) -> Option<Seq<char>>
    decreases count,
{
    if count <= 0 {
        None
    } else {
        let path = pack.sources@[count - 1].path@;
        first(
            pack_sources_problem(sources, pack, count - 1),
            problem_if(
                !source_known(sources, path),
                uncatalogued(pack.module@, "` references uncatalogued source `"@, path),
            ),
        )
    }
}

/// What is wrong with the first helpers of a pack.
pub open spec fn pack_exports_problem(
    sources: Seq<SourceFile>,
    pack: TemplateHelperPack,
    count: int,
) -> Option<Seq<char>>
    decreases count,
{
    if count <= 0 {
        None
    } else {
        let export = pack.exports@[count - 1];
        first(
            pack_exports_problem(sources, pack, count - 1),
            problem_if(
                !source_known(sources, export.defined_at.source@),
                uncatalogued(
                    export.name@,
                    "` definition references uncatalogued source `"@,
                    export.defined_at.source@,
                ),
            ),
        )
    }
}

/// What is wrong with the sources that a pack names.
pub open spec fn pack_references(sources: Seq<SourceFile>, pack: TemplateHelperPack) -> Option<
    Seq<char>,
> {
    first(
        problem_if(
            !source_known(sources, pack.declared_at.primary.source@),
            uncatalogued(
                pack.module@,
                "` declaration references uncatalogued source `"@,
                pack.declared_at.primary.source@,
            ),
        ),
        first(
            callers_problem(sources, pack, pack.declared_at.callers@.len() as int),
            first(
                pack_sources_problem(sources, pack, pack.sources@.len() as int),
                pack_exports_problem(sources, pack, pack.exports@.len() as int),
            ),
        ),
    )
}

/// What is wrong with the sources that the first packs name.
pub open spec fn references_problem(
    sources: Seq<SourceFile>,
    packs: Seq<TemplateHelperPack>,
    count: int,
) -> Option<Seq<char>>
    decreases count,
{
    if count <= 0 {
        None
    } else {
        first(
            references_problem(sources, packs, count - 1),
            pack_references(sources, packs[count - 1]),
        )
    }
}

proof fn lemma_callers_front(
    sources: Seq<SourceFile>,
    pack: TemplateHelperPack,
    count: int,
    total: int,
)
    requires
        0 <= count <= total,
        callers_problem(sources, pack, count) is Some,
    ensures
        callers_problem(sources, pack, total) == callers_problem(sources, pack, count),
    decreases total - count,
{
    if count < total {
        lemma_callers_front(sources, pack, count, total - 1);
    }
}

proof fn lemma_pack_sources_front(
    sources: Seq<SourceFile>,
    pack: TemplateHelperPack,
    count: int,
    total: int,
)
    requires
        0 <= count <= total,
        pack_sources_problem(sources, pack, count) is Some,
    ensures
        pack_sources_problem(sources, pack, total) == pack_sources_problem(sources, pack, count),
    decreases total - count,
{
    if count < total {
        lemma_pack_sources_front(sources, pack, count, total - 1);
    }
}

proof fn lemma_pack_exports_front(
    sources: Seq<SourceFile>,
    pack: TemplateHelperPack,
    count: int,
    total: int,
)
    requires
        0 <= count <= total,
        pack_exports_problem(sources, pack, count) is Some,
    ensures
        pack_exports_problem(sources, pack, total) == pack_exports_problem(sources, pack, count),
    decreases total - count,
{
    if count < total {
        lemma_pack_exports_front(sources, pack, count, total - 1);
    }
}

proof fn lemma_references_front(
    sources: Seq<SourceFile>,
    packs: Seq<TemplateHelperPack>,
    count: int,
    total: int,
)
    requires
        0 <= count <= total,
        references_problem(sources, packs, count) is Some,
    ensures
        references_problem(sources, packs, total) == references_problem(sources, packs, count),
    decreases total - count,
{
    if count < total {
        lemma_references_front(sources, packs, count, total - 1);
    }
}

fn check_pack_references(sources: &Vec<SourceFile>, pack: &TemplateHelperPack) -> (r: Result<()>)
    ensures
        reports(r, pack_references(sources@, *pack)),
{
    let module = pack.module.as_str();
    check_known(
        sources,
        module,
        "` declaration references uncatalogued source `",
        pack.declared_at.primary.source.as_str(),
    )?;
    let mut i: usize = 0;
    while i < pack.declared_at.callers.len()
        invariant
            0 <= i <= pack.declared_at.callers@.len(),
            module@ == pack.module@,
            source_known(sources@, pack.declared_at.primary.source@),
            callers_problem(sources@, *pack, i as int) is None,
        decreases pack.declared_at.callers@.len() - i,
    {
        proof {
            if callers_problem(sources@, *pack, i + 1) is Some {
                lemma_callers_front(
                    sources@,
                    *pack,
                    i + 1,
                    pack.declared_at.callers@.len() as int,
                );
            }
        }
        check_known(
            sources,
            module,
            "` declaration references uncatalogued source `",
            pack.declared_at.callers[i].source.as_str(),
        )?;
        i += 1;
    }
    let mut j: usize = 0;
    while j < pack.sources.len()
        invariant
            0 <= j <= pack.sources@.len(),
            module@ == pack.module@,
            source_known(sources@, pack.declared_at.primary.source@),
            callers_problem(sources@, *pack, pack.declared_at.callers@.len() as int) is None,
            pack_sources_problem(sources@, *pack, j as int) is None,
        decreases pack.sources@.len() - j,
    {
        proof {
            if pack_sources_problem(sources@, *pack, j + 1) is Some {
                lemma_pack_sources_front(sources@, *pack, j + 1, pack.sources@.len() as int);
            }
        }
        check_known(
            sources,
            module,
            "` references uncatalogued source `",
            pack.sources[j].path.as_str(),
        )?;
        j += 1;
    }
    let mut k: usize = 0;
    while k < pack.exports.len()
        invariant
            0 <= k <= pack.exports@.len(),
            source_known(sources@, pack.declared_at.primary.source@),
            callers_problem(sources@, *pack, pack.declared_at.callers@.len() as int) is None,
            pack_sources_problem(sources@, *pack, pack.sources@.len() as int) is None,
            pack_exports_problem(sources@, *pack, k as int) is None,
        decreases pack.exports@.len() - k,
    {
        proof {
            if pack_exports_problem(sources@, *pack, k + 1) is Some {
                lemma_pack_exports_front(sources@, *pack, k + 1, pack.exports@.len() as int);
            }
        }
        let export = &pack.exports[k];
        check_known(
            sources,
            export.name.as_str(),
            "` definition references uncatalogued source `",
            export.defined_at.source.as_str(),
        )?;
        k += 1;
    }
    Ok(())
}

/// What is wrong with the rungs that the first requirements wait at.
pub open spec fn requirements_problem(
    ladder: ExecutionLadder,
    list: Seq<Requirement>,
    count: int,
) -> Option<Seq<char>>
    decreases count,
{
    if count <= 0 {
        None
    } else {
        first(
            requirements_problem(ladder, list, count - 1),
            problem_if(
                !ladder.accepts(list[count - 1].when),
                "plan requirement targets invalid rung `"@ + list[count - 1].when.name@ + "`"@,
            ),
        )
    }
}

proof fn lemma_requirements_front(
    ladder: ExecutionLadder,
    list: Seq<Requirement>,
    count: int,
    total: int,
)
    requires
        0 <= count <= total,
        requirements_problem(ladder, list, count) is Some,
    ensures
        requirements_problem(ladder, list, total) == requirements_problem(ladder, list, count),
    decreases total - count,
{
    if count < total {
        lemma_requirements_front(ladder, list, count, total - 1);
    }
}

fn check_requirements(ladder: &ExecutionLadder, list: &Vec<Requirement>) -> (r: Result<()>)
    ensures
        reports(r, requirements_problem(*ladder, list@, list@.len() as int)),
{
    let mut i: usize = 0;
    while i < list.len()
        invariant
            0 <= i <= list@.len(),
            requirements_problem(*ladder, list@, i as int) is None,
        decreases list@.len() - i,
    {
        proof {
            if requirements_problem(*ladder, list@, i + 1) is Some {
                lemma_requirements_front(*ladder, list@, i + 1, list@.len() as int);
            }
        }
        if !ladder.contains(&list[i].when) || ladder.is_container(&list[i].when) {
            return Err(
                WombatError::Configuration(
                    cat3(
                        "plan requirement targets invalid rung `",
                        list[i].when.name.as_str(),
                        "`",
                    ),
                ),
            );
        }
        i += 1;
    }
    Ok(())
}

/// Whether some task has been run.
pub open spec fn some_executed(tasks: Seq<Task>) -> bool {
    exists|i: int| 0 <= i < tasks.len() && (#[trigger] tasks[i]).outputs@.len() > 0
}

fn is_executed(tasks: &Vec<Task>) -> (r: bool)
    ensures
        r == some_executed(tasks@),
{
    let mut i: usize = 0;
    while i < tasks.len()
        invariant
            0 <= i <= tasks@.len(),
            forall|j: int| 0 <= j < i ==> (#[trigger] tasks@[j]).outputs@.len() == 0,
        decreases tasks@.len() - i,
    {
        if tasks[i].outputs.len() > 0 {
            assert(tasks@[i as int].outputs@.len() > 0);
            return true;
        }
        i += 1;
    }
    false
}

/// What is wrong with the versions and the identity of a plan.
pub open spec fn head_problem(plan: BuildPlan, construction_version: u32) -> Option<Seq<char>> {
    first(
        problem_if(
            plan.format_version != BUILD_PLAN_FORMAT_VERSION,
            "unsupported build plan format version "@ + decimal(plan.format_version as nat)
                + "; expected "@ + decimal(BUILD_PLAN_FORMAT_VERSION as nat),
        ),
        first(
            problem_if(
                plan.construction_version != construction_version,
                "build plan was constructed under construction version "@ + decimal(
                    plan.construction_version as nat,
                ) + " by Wombat "@ + plan.wombat_version@
                    + ", but this is construction version "@ + decimal(
                    construction_version as nat,
                ),
            ),
            first(
                problem_if(
                    plan.plan_id@ != identity_of(plan),
                    "build plan identity mismatch: recorded `"@ + plan.plan_id@
                        + "`, computed `"@ + identity_of(plan) + "`"@,
                ),
                problem_if(
                    some_executed(plan.tasks@),
                    "build plan tasks must not contain executed outputs"@,
                ),
            ),
        ),
    )
}

/// What is wrong with what a plan holds.
pub open spec fn body_problem(plan: BuildPlan) -> Option<Problem> {
    either(
        configured(
            first(
                problem_if(
                    !valid_digest(plan.project_identity@),
                    "plan project identity"@ + " is invalid"@,
                ),
                actions_problem(plan.ladder, plan.tasks@, plan.scripts@),
            ),
        ),
        either(
            catalog_problem(plan.template_helpers@, plan.template_helpers@.len() as int),
            configured(
                first(
                    requirements_problem(
                        plan.ladder,
                        plan.requirements@,
                        plan.requirements@.len() as int,
                    ),
                    references_problem(
                        plan.sources@,
                        plan.template_helpers@,
                        plan.template_helpers@.len() as int,
                    ),
                ),
            ),
        ),
    )
}

/// Whether a plan is accepted as it should be.
pub open spec fn validated(
    r: Result<()>,
    plan: BuildPlan,
    construction_version: u32,
    ladder: Result<()>,
    metadata: Result<()>,
) -> bool {
    if head_problem(plan, construction_version) is Some {
        reports(r, head_problem(plan, construction_version))
    } else {
        match ladder {
            Err(error) => r is Err && r->Err_0 == error,
            Ok(_) => if body_problem(plan) is Some {
                settles(r, body_problem(plan))
            } else {
                r == metadata
            },
        }
    }
}

fn check_head(plan: &BuildPlan, construction_version: u32) -> (r: Result<()>)
    ensures
        reports(r, head_problem(*plan, construction_version)),
{
    if plan.format_version != BUILD_PLAN_FORMAT_VERSION {
        return Err(
            WombatError::Configuration(
                cat4(
                    "unsupported build plan format version ",
                    decimal_text(plan.format_version as u64).as_str(),
                    "; expected ",
                    decimal_text(BUILD_PLAN_FORMAT_VERSION as u64).as_str(),
                ),
            ),
        );
    }
    if plan.construction_version != construction_version {
        return Err(
            WombatError::Configuration(
                cat6(
                    "build plan was constructed under construction version ",
                    decimal_text(plan.construction_version as u64).as_str(),
                    " by Wombat ",
                    plan.wombat_version.as_str(),
                    ", but this is construction version ",
                    decimal_text(construction_version as u64).as_str(),
                ),
            ),
        );
    }
    let expected = compute_id(plan);
    if !same(plan.plan_id.as_str(), expected.as_str()) {
        return Err(
            WombatError::Configuration(
                cat5(
                    "build plan identity mismatch: recorded `",
                    plan.plan_id.as_str(),
                    "`, computed `",
                    expected.as_str(),
                    "`",
                ),
            ),
        );
    }
    if is_executed(&plan.tasks) {
        return Err(
            WombatError::configuration("build plan tasks must not contain executed outputs"),
        );
    }
    Ok(())
}

fn check_body(plan: &BuildPlan) -> (r: Result<()>)
    ensures
        settles(r, body_problem(*plan)),
{
    validate_sha_identity(plan.project_identity.as_str(), "plan project identity")?;
    validate_actions(&plan.ladder, &plan.tasks, &plan.scripts)?;
    validate_catalog(&plan.template_helpers)?;
    check_requirements(&plan.ladder, &plan.requirements)?;
    let mut i: usize = 0;
    while i < plan.template_helpers.len()
        invariant
            0 <= i <= plan.template_helpers@.len(),
            valid_digest(plan.project_identity@),
            actions_problem(plan.ladder, plan.tasks@, plan.scripts@) is None,
            catalog_problem(
                plan.template_helpers@,
                plan.template_helpers@.len() as int,
            ) is None,
            requirements_problem(
                plan.ladder,
                plan.requirements@,
                plan.requirements@.len() as int,
            ) is None,
            references_problem(plan.sources@, plan.template_helpers@, i as int) is None,
        decreases plan.template_helpers@.len() - i,
    {
        proof {
            if references_problem(plan.sources@, plan.template_helpers@, i + 1) is Some {
                lemma_references_front(
                    plan.sources@,
                    plan.template_helpers@,
                    i + 1,
                    plan.template_helpers@.len() as int,
                );
            }
        }
        check_pack_references(&plan.sources, &plan.template_helpers[i])?;
        i += 1;
    }
    Ok(())
}

/// Makes sure that a plan holds together: that it is of this format and these rules,
/// has the identity of what it holds, has not been run, and refers only to what it
/// has. `ladder` and `metadata` are whether its ladder and what it says of artifacts
/// hold together.
pub fn validate(
    plan: &BuildPlan,
    construction_version: u32,
    ladder: Result<()>,
    metadata: Result<()>,
) -> (r: Result<()>)
    ensures
        validated(r, *plan, construction_version, ladder, metadata),
{
    check_head(plan, construction_version)?;
    ladder?;
    check_body(plan)?;
    metadata
}

/// A plan that was just frozen has the identity that validation asks for.
pub proof fn law_frozen_plans_have_their_identity(
    plan: BuildPlan,
    desired: EvaluatedManifest,
    found: Seq<Result<ArtifactSource>>,
    release: Seq<char>,
    construction_version: u32,
)
    requires
        frozen_from(plan, desired, found, release, construction_version),
        forall|i: int|
            0 <= i < desired.tasks@.len() ==> (#[trigger] desired.tasks@[i]).task.outputs@.len()
                == 0,
    ensures
        head_problem(plan, construction_version) is None,
{
    assert forall|i: int| 0 <= i < plan.tasks@.len() implies (#[trigger] plan.tasks@[i]).outputs@.len()
        == 0 by {
        assert(plan.tasks@[i] == desired.tasks@[i].task);
    }
}

/// Makes sure that what is to be executed belongs to a plan.
pub fn check_execution(execution_plan: &str, plan: &BuildPlan) -> (r: Result<()>)
    ensures
        reports(
            r,
            problem_if(
                execution_plan@ != plan.plan_id@,
                "stored plan execution payload belongs to `"@ + execution_plan@ + "`, not `"@
                    + plan.plan_id@ + "`"@,
            ),
        ),
{
    if !same(execution_plan, plan.plan_id.as_str()) {
        return Err(
            WombatError::Configuration(
                cat5(
                    "stored plan execution payload belongs to `",
                    execution_plan,
                    "`, not `",
                    plan.plan_id.as_str(),
                    "`",
                ),
            ),
        );
    }
    Ok(())
}

/// Makes sure that a file of a provider still holds what it held when the plan was
/// made.
pub fn check_provider_file(file: &ProviderFile, bytes: &Vec<u8>) -> (r: Result<()>)
    ensures
        reports(
            r,
            problem_if(
                digest_of(bytes@) != file.digest@ || bytes@.len() != file.size,
                "provider source `"@ + file.source@ + "` changed while publishing the plan"@,
            ),
        ),
{
    if !same(digest(bytes.as_slice()).as_str(), file.digest.as_str()) || bytes.len() as u64
        != file.size {
        return Err(
            WombatError::Configuration(
                cat3(
                    "provider source `",
                    file.source.as_str(),
                    "` changed while publishing the plan",
                ),
            ),
        );
    }
    Ok(())
}

} // verus!
