//! What frozen plans promise: what their identities cover, and what holds of the ones
//! that are accepted.
use vstd::prelude::*;
use vstd::string::*;

use crate::digest::{digest_of, valid_digest};
use crate::error::Result;
use crate::json::{equal, object_tree, JsonTree};
use crate::lua::helpers::catalog_problem;
use crate::model::ladder::{ExecutionLadder, RungId};
use crate::model::manifest::{
    BuildPlan, EvaluatedManifest, EvaluatedProduction, PlannedProduction, Requirement, Script,
    ScriptPayload, Task, TemplateHelperPack,
};
use crate::model::path::valid_relative;
use crate::model::plan::{
    artifact_planned, callers_problem, frozen_from, identity_members, identity_of,
    pack_exports_problem, pack_references, pack_sources_problem, payload_problem, payloads_problem,
    references_problem, requirements_problem, scripts_problem, some_executed, source_known,
    task_repeats, tasks_problem, validated, ArtifactSource,
};
use crate::model::wire::{
    source_file_trees, build_input_trees, observation_trees, process_observation_trees,
    manifest_module_trees, dependency_trees, template_helper_pack_trees, provider_trees,
    requirement_trees, provider_preparation_trees, task_trees, script_trees, artifact_notice_trees,
    artifact_selection_trees, planned_artifact_trees,
};
use crate::trees::{lemma_equal_items, lemma_equal_objects, lemma_pair_pushed, pair_value};

verus! {

/// What identifies two plans is the same only where the plans hold the same, section by
/// section.
pub proof fn law_identities_cover_the_whole_plan(a: BuildPlan, b: BuildPlan)
    requires
        equal(object_tree(identity_members(a)), object_tree(identity_members(b))),
    ensures
        a.format_version == b.format_version,
        a.construction_version == b.construction_version,
        equal(a.target.tree(), b.target.tree()),
        equal(a.ladder.tree(), b.ladder.tree()),
        equal(a.artifact_policy.tree(), b.artifact_policy.tree()),
        source_file_trees(a.sources@).len() == source_file_trees(b.sources@).len(),
        forall|i: int|
            0 <= i < source_file_trees(a.sources@).len() ==> equal(
                #[trigger] source_file_trees(a.sources@)[i],
                source_file_trees(b.sources@)[i],
            ),
        build_input_trees(a.inputs@).len() == build_input_trees(b.inputs@).len(),
        forall|i: int|
            0 <= i < build_input_trees(a.inputs@).len() ==> equal(
                #[trigger] build_input_trees(a.inputs@)[i],
                build_input_trees(b.inputs@)[i],
            ),
        observation_trees(a.observations@).len() == observation_trees(b.observations@).len(),
        forall|i: int|
            0 <= i < observation_trees(a.observations@).len() ==> equal(
                #[trigger] observation_trees(a.observations@)[i],
                observation_trees(b.observations@)[i],
            ),
        process_observation_trees(a.process_observations@).len() == process_observation_trees(b.process_observations@).len(),
        forall|i: int|
            0 <= i < process_observation_trees(a.process_observations@).len() ==> equal(
                #[trigger] process_observation_trees(a.process_observations@)[i],
                process_observation_trees(b.process_observations@)[i],
            ),
        manifest_module_trees(a.modules@).len() == manifest_module_trees(b.modules@).len(),
        forall|i: int|
            0 <= i < manifest_module_trees(a.modules@).len() ==> equal(
                #[trigger] manifest_module_trees(a.modules@)[i],
                manifest_module_trees(b.modules@)[i],
            ),
        dependency_trees(a.dependencies@).len() == dependency_trees(b.dependencies@).len(),
        forall|i: int|
            0 <= i < dependency_trees(a.dependencies@).len() ==> equal(
                #[trigger] dependency_trees(a.dependencies@)[i],
                dependency_trees(b.dependencies@)[i],
            ),
        template_helper_pack_trees(a.template_helpers@).len() == template_helper_pack_trees(b.template_helpers@).len(),
        forall|i: int|
            0 <= i < template_helper_pack_trees(a.template_helpers@).len() ==> equal(
                #[trigger] template_helper_pack_trees(a.template_helpers@)[i],
                template_helper_pack_trees(b.template_helpers@)[i],
            ),
        provider_trees(a.providers@).len() == provider_trees(b.providers@).len(),
        forall|i: int|
            0 <= i < provider_trees(a.providers@).len() ==> equal(
                #[trigger] provider_trees(a.providers@)[i],
                provider_trees(b.providers@)[i],
            ),
        requirement_trees(a.requirements@).len() == requirement_trees(b.requirements@).len(),
        forall|i: int|
            0 <= i < requirement_trees(a.requirements@).len() ==> equal(
                #[trigger] requirement_trees(a.requirements@)[i],
                requirement_trees(b.requirements@)[i],
            ),
        provider_preparation_trees(a.preparations@).len() == provider_preparation_trees(b.preparations@).len(),
        forall|i: int|
            0 <= i < provider_preparation_trees(a.preparations@).len() ==> equal(
                #[trigger] provider_preparation_trees(a.preparations@)[i],
                provider_preparation_trees(b.preparations@)[i],
            ),
        task_trees(a.tasks@).len() == task_trees(b.tasks@).len(),
        forall|i: int|
            0 <= i < task_trees(a.tasks@).len() ==> equal(
                #[trigger] task_trees(a.tasks@)[i],
                task_trees(b.tasks@)[i],
            ),
        script_trees(a.scripts@).len() == script_trees(b.scripts@).len(),
        forall|i: int|
            0 <= i < script_trees(a.scripts@).len() ==> equal(
                #[trigger] script_trees(a.scripts@)[i],
                script_trees(b.scripts@)[i],
            ),
        artifact_notice_trees(a.artifact_notices@).len() == artifact_notice_trees(b.artifact_notices@).len(),
        forall|i: int|
            0 <= i < artifact_notice_trees(a.artifact_notices@).len() ==> equal(
                #[trigger] artifact_notice_trees(a.artifact_notices@)[i],
                artifact_notice_trees(b.artifact_notices@)[i],
            ),
        artifact_selection_trees(a.artifact_selections@).len() == artifact_selection_trees(b.artifact_selections@).len(),
        forall|i: int|
            0 <= i < artifact_selection_trees(a.artifact_selections@).len() ==> equal(
                #[trigger] artifact_selection_trees(a.artifact_selections@)[i],
                artifact_selection_trees(b.artifact_selections@)[i],
            ),
        planned_artifact_trees(a.artifacts@).len() == planned_artifact_trees(b.artifacts@).len(),
        forall|i: int|
            0 <= i < planned_artifact_trees(a.artifacts@).len() ==> equal(
                #[trigger] planned_artifact_trees(a.artifacts@)[i],
                planned_artifact_trees(b.artifacts@)[i],
            ),
{
    let x = identity_members(a);
    let y = identity_members(b);
    lemma_identified(a);
    lemma_identified(b);
    lemma_equal_objects(x, y, "format_version"@);
    lemma_equal_objects(x, y, "construction_version"@);
    lemma_equal_objects(x, y, "sources"@);
    lemma_equal_objects(x, y, "inputs"@);
    lemma_equal_objects(x, y, "target"@);
    lemma_equal_objects(x, y, "observations"@);
    lemma_equal_objects(x, y, "process_observations"@);
    lemma_equal_objects(x, y, "modules"@);
    lemma_equal_objects(x, y, "dependencies"@);
    lemma_equal_objects(x, y, "template_helpers"@);
    lemma_equal_objects(x, y, "ladder"@);
    lemma_equal_objects(x, y, "providers"@);
    lemma_equal_objects(x, y, "requirements"@);
    lemma_equal_objects(x, y, "preparations"@);
    lemma_equal_objects(x, y, "tasks"@);
    lemma_equal_objects(x, y, "scripts"@);
    lemma_equal_objects(x, y, "artifact_policy"@);
    lemma_equal_objects(x, y, "artifact_notices"@);
    lemma_equal_objects(x, y, "artifact_selections"@);
    lemma_equal_objects(x, y, "artifacts"@);
    lemma_equal_items(source_file_trees(a.sources@), source_file_trees(b.sources@));
    lemma_equal_items(build_input_trees(a.inputs@), build_input_trees(b.inputs@));
    lemma_equal_items(observation_trees(a.observations@), observation_trees(b.observations@));
    lemma_equal_items(process_observation_trees(a.process_observations@), process_observation_trees(b.process_observations@));
    lemma_equal_items(manifest_module_trees(a.modules@), manifest_module_trees(b.modules@));
    lemma_equal_items(dependency_trees(a.dependencies@), dependency_trees(b.dependencies@));
    lemma_equal_items(template_helper_pack_trees(a.template_helpers@), template_helper_pack_trees(b.template_helpers@));
    lemma_equal_items(provider_trees(a.providers@), provider_trees(b.providers@));
    lemma_equal_items(requirement_trees(a.requirements@), requirement_trees(b.requirements@));
    lemma_equal_items(provider_preparation_trees(a.preparations@), provider_preparation_trees(b.preparations@));
    lemma_equal_items(task_trees(a.tasks@), task_trees(b.tasks@));
    lemma_equal_items(script_trees(a.scripts@), script_trees(b.scripts@));
    lemma_equal_items(artifact_notice_trees(a.artifact_notices@), artifact_notice_trees(b.artifact_notices@));
    lemma_equal_items(artifact_selection_trees(a.artifact_selections@), artifact_selection_trees(b.artifact_selections@));
    lemma_equal_items(planned_artifact_trees(a.artifacts@), planned_artifact_trees(b.artifacts@));
}

/// Every section stands in what is identified.
proof fn lemma_identified(plan: BuildPlan)
    ensures
        pair_value(identity_members(plan), "format_version"@) == Some(
            JsonTree::Integer(plan.format_version as int),
        ),
        pair_value(identity_members(plan), "construction_version"@) == Some(
            JsonTree::Integer(plan.construction_version as int),
        ),
        pair_value(identity_members(plan), "sources"@) == Some(
            JsonTree::Array(source_file_trees(plan.sources@)),
        ),
        pair_value(identity_members(plan), "inputs"@) == Some(
            JsonTree::Array(build_input_trees(plan.inputs@)),
        ),
        pair_value(identity_members(plan), "target"@) == Some(
            plan.target.tree(),
        ),
        pair_value(identity_members(plan), "observations"@) == Some(
            JsonTree::Array(observation_trees(plan.observations@)),
        ),
        pair_value(identity_members(plan), "process_observations"@) == Some(
            JsonTree::Array(process_observation_trees(plan.process_observations@)),
        ),
        pair_value(identity_members(plan), "modules"@) == Some(
            JsonTree::Array(manifest_module_trees(plan.modules@)),
        ),
        pair_value(identity_members(plan), "dependencies"@) == Some(
            JsonTree::Array(dependency_trees(plan.dependencies@)),
        ),
        pair_value(identity_members(plan), "template_helpers"@) == Some(
            JsonTree::Array(template_helper_pack_trees(plan.template_helpers@)),
        ),
        pair_value(identity_members(plan), "ladder"@) == Some(
            plan.ladder.tree(),
        ),
        pair_value(identity_members(plan), "providers"@) == Some(
            JsonTree::Array(provider_trees(plan.providers@)),
        ),
        pair_value(identity_members(plan), "requirements"@) == Some(
            JsonTree::Array(requirement_trees(plan.requirements@)),
        ),
        pair_value(identity_members(plan), "preparations"@) == Some(
            JsonTree::Array(provider_preparation_trees(plan.preparations@)),
        ),
        pair_value(identity_members(plan), "tasks"@) == Some(
            JsonTree::Array(task_trees(plan.tasks@)),
        ),
        pair_value(identity_members(plan), "scripts"@) == Some(
            JsonTree::Array(script_trees(plan.scripts@)),
        ),
        pair_value(identity_members(plan), "artifact_policy"@) == Some(
            plan.artifact_policy.tree(),
        ),
        pair_value(identity_members(plan), "artifact_notices"@) == Some(
            JsonTree::Array(artifact_notice_trees(plan.artifact_notices@)),
        ),
        pair_value(identity_members(plan), "artifact_selections"@) == Some(
            JsonTree::Array(artifact_selection_trees(plan.artifact_selections@)),
        ),
        pair_value(identity_members(plan), "artifacts"@) == Some(
            JsonTree::Array(planned_artifact_trees(plan.artifacts@)),
        ),
{
    broadcast use lemma_pair_pushed;

    reveal_strlit("format_version");
    reveal_strlit("construction_version");
    reveal_strlit("sources");
    reveal_strlit("inputs");
    reveal_strlit("target");
    reveal_strlit("observations");
    reveal_strlit("process_observations");
    reveal_strlit("modules");
    reveal_strlit("dependencies");
    reveal_strlit("template_helpers");
    reveal_strlit("ladder");
    reveal_strlit("providers");
    reveal_strlit("requirements");
    reveal_strlit("preparations");
    reveal_strlit("tasks");
    reveal_strlit("scripts");
    reveal_strlit("artifact_policy");
    reveal_strlit("artifact_notices");
    reveal_strlit("artifact_selections");
    reveal_strlit("artifacts");
    assert("format_version"@.len() == 14 && "construction_version"@.len() == 20 && "sources"@.len() == 7 && "inputs"@.len() == 6 && "target"@.len() == 6 && "observations"@.len() == 12 && "process_observations"@.len() == 20 && "modules"@.len() == 7 && "dependencies"@.len() == 12 && "template_helpers"@.len() == 16 && "ladder"@.len() == 6 && "providers"@.len() == 9 && "requirements"@.len() == 12 && "preparations"@.len() == 12 && "tasks"@.len() == 5 && "scripts"@.len() == 7 && "artifact_policy"@.len() == 15 && "artifact_notices"@.len() == 16 && "artifact_selections"@.len() == 19 && "artifacts"@.len() == 9);
    assert("construction_version"@[0] == 'c' && "process_observations"@[0] == 'p');
    assert("sources"@[2] == 'u' && "modules"@[2] == 'd' && "scripts"@[2] == 'r');
    assert("inputs"@[0] == 'i' && "target"@[0] == 't' && "ladder"@[0] == 'l');
    assert("observations"@[0] == 'o' && "dependencies"@[0] == 'd' && "requirements"@[0] == 'r' && "preparations"@[0] == 'p');
    assert("template_helpers"@[0] == 't' && "artifact_notices"@[0] == 'a');
    assert("providers"@[0] == 'p' && "artifacts"@[0] == 'a');
}

/// Whether an action may stand at a rung: the ladder has it, and none stands beneath it.
pub open spec fn stands_on(ladder: ExecutionLadder, at: RungId) -> bool {
    &&& exists|i: int|
        0 <= i < ladder.flattened@.len() && (#[trigger] ladder.flattened@[i]).id.name@ == at.name@
    &&& forall|i: int|
        0 <= i < ladder.flattened@.len() ==> ((
        #[trigger] ladder.flattened@[i]).parent matches Some(parent) ==> parent.name@ != at.name@)
}

/// Whether a source is recorded.
pub open spec fn recorded(plan: BuildPlan, path: Seq<char>) -> bool {
    exists|i: int| 0 <= i < plan.sources@.len() && (#[trigger] plan.sources@[i]).path@ == path
}

/// Whether a pack names recorded sources only.
pub open spec fn pack_recorded(plan: BuildPlan, pack: TemplateHelperPack) -> bool {
    &&& recorded(plan, pack.declared_at.primary.source@)
    &&& forall|i: int|
        0 <= i < pack.declared_at.callers@.len() ==> recorded(
            plan,
            (#[trigger] pack.declared_at.callers@[i]).source@,
        )
    &&& forall|i: int|
        0 <= i < pack.sources@.len() ==> recorded(plan, (#[trigger] pack.sources@[i]).path@)
    &&& forall|i: int|
        0 <= i < pack.exports@.len() ==> recorded(
            plan,
            (#[trigger] pack.exports@[i]).defined_at.source@,
        )
}

/// Whether what a script takes along is stated as it must be.
pub open spec fn takes_along(payload: ScriptPayload) -> bool {
    valid_relative(payload.source@) && valid_relative(payload.relative@) && valid_digest(
        payload.digest@,
    )
}

/// Whether the actions of a plan are sound: they have identities of their own, stand at
/// rungs that can hold them, and scripts have something to run.
pub open spec fn sound_actions(plan: BuildPlan) -> bool {
    &&& forall|i: int, j: int|
        0 <= i < j < plan.tasks@.len() ==> (#[trigger] plan.tasks@[i]).identity@ != (
        #[trigger] plan.tasks@[j]).identity@
    &&& forall|i: int, j: int|
        0 <= i < j < plan.scripts@.len() ==> (#[trigger] plan.scripts@[i]).identity@ != (
        #[trigger] plan.scripts@[j]).identity@
    &&& forall|i: int|
        0 <= i < plan.tasks@.len() ==> stands_on(plan.ladder, (#[trigger] plan.tasks@[i]).at)
    &&& forall|i: int|
        0 <= i < plan.scripts@.len() ==> stands_on(plan.ladder, (#[trigger] plan.scripts@[i]).at)
            && plan.scripts@[i].payloads@.len() > 0
    &&& forall|i: int, j: int|
        0 <= i < plan.scripts@.len() && 0 <= j < plan.scripts@[i].payloads@.len() ==> takes_along(
            #[trigger] plan.scripts@[i].payloads@[j],
        )
    &&& forall|i: int|
        0 <= i < plan.requirements@.len() ==> stands_on(
            plan.ladder,
            (#[trigger] plan.requirements@[i]).when,
        )
}

/// Whether a plan is sound: it is of this format, made by the same rules, has the identity
/// of what it holds, was not run, and its parts fit together.
pub open spec fn sound(plan: BuildPlan, construction_version: u32) -> bool {
    &&& plan.format_version == 7
    &&& plan.construction_version == construction_version
    &&& plan.plan_id@ == identity_of(plan)
    &&& forall|i: int| 0 <= i < plan.tasks@.len() ==> (#[trigger] plan.tasks@[i]).outputs@.len() == 0
    &&& valid_digest(plan.project_identity@)
    &&& sound_actions(plan)
    &&& catalog_problem(plan.template_helpers@, plan.template_helpers@.len() as int) is None
    &&& forall|i: int|
        0 <= i < plan.template_helpers@.len() ==> pack_recorded(
            plan,
            #[trigger] plan.template_helpers@[i],
        )
}

pub proof fn lemma_accepts(ladder: ExecutionLadder, at: RungId)
    ensures
        ladder.accepts(at) <==> stands_on(ladder, at),
{
    let rungs = ladder.flattened@;
    if ladder.has(at) {
        let i = choose|i: int| 0 <= i < rungs.len() && (#[trigger] rungs[i]).id.same(at);
        assert(rungs[i].id.name@ == at.name@);
    }
    if exists|i: int| 0 <= i < rungs.len() && (#[trigger] rungs[i]).id.name@ == at.name@ {
        let i = choose|i: int| 0 <= i < rungs.len() && (#[trigger] rungs[i]).id.name@ == at.name@;
        assert(rungs[i].id.same(at));
    }
    if ladder.contains_others(at) {
        let i = choose|i: int|
            0 <= i < rungs.len() && (#[trigger] rungs[i]).parent is Some && rungs[i].parent->0.same(
                at,
            );
        assert(rungs[i].parent->0.name@ == at.name@);
    } else {
        assert forall|i: int| 0 <= i < rungs.len() implies ((
        #[trigger] rungs[i]).parent matches Some(parent) ==> parent.name@ != at.name@) by {
            if rungs[i].parent is Some {
                assert(!rungs[i].parent->0.same(at));
            }
        }
    }
}

proof fn lemma_tasks(ladder: ExecutionLadder, tasks: Seq<Task>, count: int)
    requires
        0 <= count <= tasks.len(),
    ensures
        tasks_problem(ladder, tasks, count) is None <==> ((forall|i: int, j: int|
            0 <= i < j < count ==> (#[trigger] tasks[i]).identity@ != (
            #[trigger] tasks[j]).identity@) && forall|i: int|
            0 <= i < count ==> stands_on(ladder, (#[trigger] tasks[i]).at)),
    decreases count,
{
    if count > 0 {
        lemma_tasks(ladder, tasks, count - 1);
        lemma_accepts(ladder, tasks[count - 1].at);
        if task_repeats(tasks, count - 1) {
            let j = choose|j: int|
                0 <= j < count - 1 && (#[trigger] tasks[j]).identity@ == tasks[count
                    - 1].identity@;
            assert(tasks[j].identity@ == tasks[count - 1].identity@);
        }
    }
}

proof fn lemma_payloads(payloads: Seq<ScriptPayload>, count: int)
    requires
        0 <= count <= payloads.len(),
    ensures
        payloads_problem(payloads, count) is None <==> forall|i: int|
            0 <= i < count ==> takes_along(#[trigger] payloads[i]),
    decreases count,
{
    if count > 0 {
        lemma_payloads(payloads, count - 1);
        assert(payload_problem(payloads[count - 1]) is None <==> takes_along(payloads[count - 1]));
    }
}

/// Whether the first scripts are sound.
pub open spec fn sound_scripts(ladder: ExecutionLadder, scripts: Seq<Script>, count: int) -> bool {
    &&& forall|i: int, j: int|
        0 <= i < j < count ==> (#[trigger] scripts[i]).identity@ != (
        #[trigger] scripts[j]).identity@
    &&& forall|i: int|
        0 <= i < count ==> stands_on(ladder, (#[trigger] scripts[i]).at) && scripts[i].payloads@.len()
            > 0
    &&& forall|i: int, j: int|
        0 <= i < count && 0 <= j < scripts[i].payloads@.len() ==> takes_along(
            #[trigger] scripts[i].payloads@[j],
        )
}

proof fn lemma_scripts(ladder: ExecutionLadder, scripts: Seq<Script>, count: int)
    requires
        0 <= count <= scripts.len(),
    ensures
        scripts_problem(ladder, scripts, count) is None <==> sound_scripts(ladder, scripts, count),
    decreases count,
{
    if count > 0 {
        let script = scripts[count - 1];
        lemma_scripts(ladder, scripts, count - 1);
        lemma_accepts(ladder, script.at);
        lemma_payloads(script.payloads@, script.payloads@.len() as int);
        if crate::model::plan::script_repeats(scripts, count - 1) {
            let j = choose|j: int|
                0 <= j < count - 1 && (#[trigger] scripts[j]).identity@ == script.identity@;
            assert(scripts[j].identity@ == scripts[count - 1].identity@);
        }
        if sound_scripts(ladder, scripts, count) {
            assert forall|j: int| 0 <= j < script.payloads@.len() implies takes_along(
                #[trigger] script.payloads@[j],
            ) by {
                assert(takes_along(scripts[count - 1].payloads@[j]));
            }
        }
        if scripts_problem(ladder, scripts, count) is None {
            assert forall|i: int, j: int|
                0 <= i < count && 0 <= j < scripts[i].payloads@.len() implies takes_along(
                #[trigger] scripts[i].payloads@[j],
            ) by {
                if i == count - 1 {
                    assert(takes_along(script.payloads@[j]));
                }
            }
        }
    }
}

proof fn lemma_requirements(ladder: ExecutionLadder, list: Seq<Requirement>, count: int)
    requires
        0 <= count <= list.len(),
    ensures
        requirements_problem(ladder, list, count) is None <==> forall|i: int|
            0 <= i < count ==> stands_on(ladder, (#[trigger] list[i]).when),
    decreases count,
{
    if count > 0 {
        lemma_requirements(ladder, list, count - 1);
        lemma_accepts(ladder, list[count - 1].when);
    }
}

proof fn lemma_callers(plan: BuildPlan, pack: TemplateHelperPack, count: int)
    requires
        0 <= count <= pack.declared_at.callers@.len(),
    ensures
        callers_problem(plan.sources@, pack, count) is None <==> forall|i: int|
            0 <= i < count ==> recorded(plan, (#[trigger] pack.declared_at.callers@[i]).source@),
    decreases count,
{
    if count > 0 {
        lemma_callers(plan, pack, count - 1);
        assert(source_known(plan.sources@, pack.declared_at.callers@[count - 1].source@)
            == recorded(plan, pack.declared_at.callers@[count - 1].source@));
    }
}

proof fn lemma_pack_sources(plan: BuildPlan, pack: TemplateHelperPack, count: int)
    requires
        0 <= count <= pack.sources@.len(),
    ensures
        pack_sources_problem(plan.sources@, pack, count) is None <==> forall|i: int|
            0 <= i < count ==> recorded(plan, (#[trigger] pack.sources@[i]).path@),
    decreases count,
{
    if count > 0 {
        lemma_pack_sources(plan, pack, count - 1);
        assert(source_known(plan.sources@, pack.sources@[count - 1].path@) == recorded(
            plan,
            pack.sources@[count - 1].path@,
        ));
    }
}

proof fn lemma_pack_exports(plan: BuildPlan, pack: TemplateHelperPack, count: int)
    requires
        0 <= count <= pack.exports@.len(),
    ensures
        pack_exports_problem(plan.sources@, pack, count) is None <==> forall|i: int|
            0 <= i < count ==> recorded(plan, (#[trigger] pack.exports@[i]).defined_at.source@),
    decreases count,
{
    if count > 0 {
        lemma_pack_exports(plan, pack, count - 1);
        assert(source_known(plan.sources@, pack.exports@[count - 1].defined_at.source@) == recorded(
            plan,
            pack.exports@[count - 1].defined_at.source@,
        ));
    }
}

proof fn lemma_references(plan: BuildPlan, count: int)
    requires
        0 <= count <= plan.template_helpers@.len(),
    ensures
        references_problem(plan.sources@, plan.template_helpers@, count) is None <==> forall|i: int|
            0 <= i < count ==> pack_recorded(plan, #[trigger] plan.template_helpers@[i]),
    decreases count,
{
    if count > 0 {
        let pack = plan.template_helpers@[count - 1];
        lemma_references(plan, count - 1);
        lemma_callers(plan, pack, pack.declared_at.callers@.len() as int);
        lemma_pack_sources(plan, pack, pack.sources@.len() as int);
        lemma_pack_exports(plan, pack, pack.exports@.len() as int);
        assert(source_known(plan.sources@, pack.declared_at.primary.source@) == recorded(
            plan,
            pack.declared_at.primary.source@,
        ));
        assert(pack_references(plan.sources@, pack) is None <==> pack_recorded(plan, pack));
    }
}

/// A plan is accepted where it is sound and what is said of its ladder and of its artifacts
/// is favourable, and nowhere else.
pub proof fn law_accepted_plans_are_sound(
    r: Result<()>,
    plan: BuildPlan,
    construction_version: u32,
    ladder: Result<()>,
    metadata: Result<()>,
)
    requires
        validated(r, plan, construction_version, ladder, metadata),
    ensures
        r is Ok <==> sound(plan, construction_version) && ladder is Ok && metadata is Ok,
{
    lemma_tasks(plan.ladder, plan.tasks@, plan.tasks@.len() as int);
    lemma_scripts(plan.ladder, plan.scripts@, plan.scripts@.len() as int);
    lemma_requirements(plan.ladder, plan.requirements@, plan.requirements@.len() as int);
    lemma_references(plan, plan.template_helpers@.len() as int);
    if some_executed(plan.tasks@) {
        let i = choose|i: int|
            0 <= i < plan.tasks@.len() && (#[trigger] plan.tasks@[i]).outputs@.len() > 0;
        assert(plan.tasks@[i].outputs@.len() > 0);
    }
}

/// A frozen plan keeps every artifact in its place, with the digest of the bytes that were
/// found at its source, and every task as it was evaluated.
pub proof fn law_frozen_plans_keep_what_was_found(
    plan: BuildPlan,
    desired: EvaluatedManifest,
    found: Seq<Result<ArtifactSource>>,
    release: Seq<char>,
    construction_version: u32,
)
    requires
        frozen_from(plan, desired, found, release, construction_version),
        found.len() == desired.artifacts@.len(),
    ensures
        plan.artifacts@.len() == desired.artifacts@.len(),
        plan.tasks@.len() == desired.tasks@.len(),
        forall|i: int|
            0 <= i < plan.tasks@.len() ==> #[trigger] plan.tasks@[i] == desired.tasks@[i].task,
        forall|i: int|
            0 <= i < plan.artifacts@.len() ==> {
                let planned = #[trigger] plan.artifacts@[i];
                let evaluated = desired.artifacts@[i];
                &&& planned.source == evaluated.source
                &&& planned.target == evaluated.target
                &&& planned.owner == evaluated.owner
                &&& match evaluated.production {
                    EvaluatedProduction::Static => found[i] matches Ok(source) && (
                    planned.production matches PlannedProduction::Static {
                        source_digest,
                        executable,
                    } && source_digest@ == digest_of(source.bytes@) && executable
                        == source.executable),
                    EvaluatedProduction::Template { context } => found[i] matches Ok(source) && (
                    planned.production matches PlannedProduction::Template {
                        source_digest,
                        context: kept,
                        executable,
                        ..
                    } && source_digest@ == digest_of(source.bytes@) && kept == context
                        && executable == source.executable),
                    EvaluatedProduction::GeneratedLua { content, executable } => (
                    planned.production matches PlannedProduction::GeneratedLua {
                        content_digest,
                        size,
                        executable: runs,
                        ..
                    } && content_digest@ == digest_of(content@) && size == content@.len() && runs
                        == executable),
                    EvaluatedProduction::Task { .. } => false,
                }
            },
{
    assert forall|i: int| 0 <= i < plan.artifacts@.len() implies artifact_planned(
        #[trigger] plan.artifacts@[i],
        desired.artifacts@[i],
        found[i],
    ) by {}
}

} // verus!
