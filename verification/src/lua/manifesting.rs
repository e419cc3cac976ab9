//! What evaluation hands on.
use vstd::prelude::*;
use vstd::string::*;

use crate::error::{first, is_configuration, problem_if, reports, Result, WombatError};
use crate::inspection::items::{all_chosen_exist, chosen_exists};
use crate::json::{equal, equal_values, JsonTree};
use crate::model::ladder::{CoreRung, ExecutionLadder, RungId};
use crate::digest::{digest, digest_of};
use crate::lua::context::ContextState;
use crate::lua::state::{
    ActionRegistry, ArtifactRegistry, ModuleRecord, ModuleRegistry, RequirementRegistry,
    TrackedSource,
};
use crate::model::manifest::{
    BuildInput, EvaluatedArtifact, EvaluatedDirectory, EvaluatedManifest, EvaluatedTask,
    ManifestModule, ProcessObservation, ProviderPreparation, Requirement, RequirementKind, Script,
    SourceFile, SourceTrace, TemplateHelperPack,
};
use crate::presentation::LogLevel;
use crate::project::inputs::{some_untold, told};
use crate::model::ordering::{order_texts, order_traces, text_order, then_by, trace_order, Order};
use crate::model::wire::{requirement_candidate_trees, requirement_candidate_values};
use crate::sorting::{sort, sorted, Sortable};
use crate::text::{cat3, cat4, cat5, same, views};

verus! {

/// What is wrong with a rung that an action stands at.
pub open spec fn rung_problem(
    ladder: ExecutionLadder,
    kind: Seq<char>,
    id: RungId,
    place: SourceTrace,
) -> Option<Seq<char>> {
    first(
        problem_if(
            !ladder.has(id),
            kind + " targets unknown rung `"@ + id.name@ + "` at "@ + place.text(),
        ),
        problem_if(
            ladder.contains_others(id),
            kind + " cannot target container rung `"@ + id.name@ + "` at "@ + place.text(),
        ),
    )
}

fn check_rung(ladder: &ExecutionLadder, kind: &str, id: &RungId, place: &SourceTrace) -> (r: Result<
    (),
>)
    ensures
        reports(r, rung_problem(*ladder, kind@, *id, *place)),
{
    if !ladder.contains(id) {
        return Err(
            WombatError::Configuration(
                cat5(
                    kind,
                    " targets unknown rung `",
                    id.name.as_str(),
                    "` at ",
                    place.display().as_str(),
                ),
            ),
        );
    }
    if ladder.is_container(id) {
        return Err(
            WombatError::Configuration(
                cat5(
                    kind,
                    " cannot target container rung `",
                    id.name.as_str(),
                    "` at ",
                    place.display().as_str(),
                ),
            ),
        );
    }
    Ok(())
}

/// What is wrong with the rungs of the first requirements.
pub open spec fn requirement_rungs(
    ladder: ExecutionLadder,
    list: Seq<Requirement>,
    count: int,
) -> Option<Seq<char>>
    decreases count,
{
    if count <= 0 {
        None
    } else {
        first(
            requirement_rungs(ladder, list, count - 1),
            rung_problem(ladder, "requirement"@, list[count - 1].when, list[count - 1].declared_at),
        )
    }
}

/// What is wrong with the rungs of the first tasks.
pub open spec fn task_rungs(
    ladder: ExecutionLadder,
    list: Seq<EvaluatedTask>,
    count: int,
) -> Option<Seq<char>>
    decreases count,
{
    if count <= 0 {
        None
    } else {
        first(
            task_rungs(ladder, list, count - 1),
            rung_problem(
                ladder,
                "task"@,
                list[count - 1].task.at,
                list[count - 1].task.declared_at,
            ),
        )
    }
}

/// What is wrong with the rungs of the first scripts.
pub open spec fn script_rungs(
    ladder: ExecutionLadder,
    list: Seq<Script>,
    count: int,
) -> Option<Seq<char>>
    decreases count,
{
    if count <= 0 {
        None
    } else {
        first(
            script_rungs(ladder, list, count - 1),
            rung_problem(ladder, "script"@, list[count - 1].at, list[count - 1].declared_at),
        )
    }
}

proof fn lemma_requirement_rungs(
    ladder: ExecutionLadder,
    list: Seq<Requirement>,
    count: int,
    total: int,
)
    requires
        0 <= count <= total,
        requirement_rungs(ladder, list, count) is Some,
    ensures
        requirement_rungs(ladder, list, total) == requirement_rungs(ladder, list, count),
    decreases total - count,
{
    if count < total {
        lemma_requirement_rungs(ladder, list, count, total - 1);
    }
}

proof fn lemma_task_rungs(
    ladder: ExecutionLadder,
    list: Seq<EvaluatedTask>,
    count: int,
    total: int,
)
    requires
        0 <= count <= total,
        task_rungs(ladder, list, count) is Some,
    ensures
        task_rungs(ladder, list, total) == task_rungs(ladder, list, count),
    decreases total - count,
{
    if count < total {
        lemma_task_rungs(ladder, list, count, total - 1);
    }
}

proof fn lemma_tasks_accepted(
    ladder: ExecutionLadder,
    list: Seq<EvaluatedTask>,
    count: int,
    index: int,
)
    requires
        0 <= index < count,
        task_rungs(ladder, list, count) is None,
    ensures
        ladder.has(list[index].task.at),
    decreases count,
{
    if index < count - 1 {
        lemma_tasks_accepted(ladder, list, count - 1, index);
    }
}

proof fn lemma_script_rungs(
    ladder: ExecutionLadder,
    list: Seq<Script>,
    count: int,
    total: int,
)
    requires
        0 <= count <= total,
        script_rungs(ladder, list, count) is Some,
    ensures
        script_rungs(ladder, list, total) == script_rungs(ladder, list, count),
    decreases total - count,
{
    if count < total {
        lemma_script_rungs(ladder, list, count, total - 1);
    }
}

/// Whether some action stands at a rung.
pub open spec fn rung_used(
    id: RungId,
    requirements: Seq<Requirement>,
    tasks: Seq<EvaluatedTask>,
    scripts: Seq<Script>,
) -> bool {
    ||| exists|i: int| 0 <= i < requirements.len() && (#[trigger] requirements[i]).when.same(id)
    ||| exists|i: int| 0 <= i < tasks.len() && (#[trigger] tasks[i]).task.at.same(id)
    ||| exists|i: int| 0 <= i < scripts.len() && (#[trigger] scripts[i]).at.same(id)
}

fn is_used(
    id: &RungId,
    requirements: &Vec<Requirement>,
    tasks: &Vec<EvaluatedTask>,
    scripts: &Vec<Script>,
) -> (r: bool)
    ensures
        r == rung_used(*id, requirements@, tasks@, scripts@),
{
    let mut i: usize = 0;
    while i < requirements.len()
        invariant
            0 <= i <= requirements@.len(),
            forall|j: int| 0 <= j < i ==> !(#[trigger] requirements@[j]).when.same(*id),
        decreases requirements@.len() - i,
    {
        if requirements[i].when.is(id) {
            assert(requirements@[i as int].when.same(*id));
            return true;
        }
        i += 1;
    }
    let mut j: usize = 0;
    while j < tasks.len()
        invariant
            0 <= j <= tasks@.len(),
            forall|k: int|
                0 <= k < requirements@.len() ==> !(#[trigger] requirements@[k]).when.same(*id),
            forall|k: int| 0 <= k < j ==> !(#[trigger] tasks@[k]).task.at.same(*id),
        decreases tasks@.len() - j,
    {
        if tasks[j].task.at.is(id) {
            assert(tasks@[j as int].task.at.same(*id));
            return true;
        }
        j += 1;
    }
    let mut k: usize = 0;
    while k < scripts.len()
        invariant
            0 <= k <= scripts@.len(),
            forall|m: int|
                0 <= m < requirements@.len() ==> !(#[trigger] requirements@[m]).when.same(*id),
            forall|m: int| 0 <= m < tasks@.len() ==> !(#[trigger] tasks@[m]).task.at.same(*id),
            forall|m: int| 0 <= m < k ==> !(#[trigger] scripts@[m]).at.same(*id),
        decreases scripts@.len() - k,
    {
        if scripts[k].at.is(id) {
            assert(scripts@[k as int].at.same(*id));
            return true;
        }
        k += 1;
    }
    false
}

/// Whether the rung with this name is among the core ones.
pub open spec fn core_place(ladder: ExecutionLadder, rung: CoreRung, index: int) -> bool {
    &&& 0 <= index < ladder.flattened@.len()
    &&& ladder.flattened@[index].id.name@ == rung.id()
    &&& forall|j: int| 0 <= j < index ==> (#[trigger] ladder.flattened@[j]).id.name@ != rung.id()
}

/// Whether a ladder has the rungs between which tasks run.
pub open spec fn has_task_rungs(ladder: ExecutionLadder) -> bool {
    (exists|i: int| core_place(ladder, CoreRung::MaterialiseBefore, i)) && exists|i: int|
        core_place(ladder, CoreRung::MaterialiseArtifacts, i)
}

/// Where the rung of an action stands.
pub open spec fn place_of(ladder: ExecutionLadder, id: RungId) -> Option<int> {
    if ladder.has(id) {
        Some(choose|i: int| ladder.stands_at(id, i))
    } else {
        None
    }
}

/// Where a core rung stands.
pub open spec fn core_place_of(ladder: ExecutionLadder, rung: CoreRung) -> int {
    choose|i: int| core_place(ladder, rung, i)
}

fn find_place(ladder: &ExecutionLadder, id: &RungId) -> (r: Option<usize>)
    ensures
        match r {
            Some(i) => place_of(*ladder, *id) == Some(i as int),
            None => place_of(*ladder, *id) is None,
        },
{
    match ladder.position(id) {
        Some(i) => {
            proof {
                let other = choose|k: int| ladder.stands_at(*id, k);
                assert(ladder.stands_at(*id, i as int));
                assert(ladder.stands_at(*id, other));
                if i < other {
                    assert(!ladder.flattened@[i as int].id.same(*id));
                } else if other < i {
                    assert(!ladder.flattened@[other].id.same(*id));
                }
                assert(ladder.flattened@[i as int].id.same(*id));
            }
            Some(i)
        },
        None => None,
    }
}

fn find_core(ladder: &ExecutionLadder, rung: CoreRung) -> (r: usize)
    requires
        exists|i: int| core_place(*ladder, rung, i),
    ensures
        r == core_place_of(*ladder, rung),
{
    let id = rung.rung();
    let ghost known = choose|i: int| core_place(*ladder, rung, i);
    assert(ladder.flattened@[known].id.same(id));
    match find_place(ladder, &id) {
        Some(i) => {
            proof {
                let at = choose|k: int| ladder.stands_at(id, k);
                assert(ladder.stands_at(id, known)) by {
                    assert forall|j: int| 0 <= j < known implies !(
                    #[trigger] ladder.flattened@[j]).id.same(id) by {}
                }
                assert(ladder.stands_at(id, at));
                if at < known {
                    assert(ladder.flattened@[at].id.name@ != rung.id());
                } else if known < at {
                    assert(!ladder.flattened@[known].id.same(id));
                }
            }
            i
        },
        None => 0,
    }
}

/// What is wrong with where the first tasks run: they run between the rungs before
/// the artifacts and the artifacts.
pub open spec fn task_places(
    ladder: ExecutionLadder,
    list: Seq<EvaluatedTask>,
    count: int,
) -> Option<Seq<char>>
    decreases count,
{
    if count <= 0 {
        None
    } else {
        let task = list[count - 1].task;
        let place = place_of(ladder, task.at)->0;
        first(
            task_places(ladder, list, count - 1),
            problem_if(
                place < core_place_of(ladder, CoreRung::MaterialiseBefore) || place
                    > core_place_of(ladder, CoreRung::MaterialiseArtifacts),
                "task `"@ + task.identity@ + "` rung `"@ + task.at.name@
                    + "` must be between materialise.before and materialise.artifacts"@,
            ),
        )
    }
}

proof fn lemma_task_places(
    ladder: ExecutionLadder,
    list: Seq<EvaluatedTask>,
    count: int,
    total: int,
)
    requires
        0 <= count <= total,
        task_places(ladder, list, count) is Some,
    ensures
        task_places(ladder, list, total) == task_places(ladder, list, count),
    decreases total - count,
{
    if count < total {
        lemma_task_places(ladder, list, count, total - 1);
    }
}

/// What is wrong with the first rungs: those that the project adds must have actions.
pub open spec fn idle_rungs(
    ladder: ExecutionLadder,
    requirements: Seq<Requirement>,
    tasks: Seq<EvaluatedTask>,
    scripts: Seq<Script>,
    count: int,
) -> Option<Seq<char>>
    decreases count,
{
    if count <= 0 {
        None
    } else {
        let rung = ladder.flattened@[count - 1];
        first(
            idle_rungs(ladder, requirements, tasks, scripts, count - 1),
            problem_if(
                rung.core is None && !ladder.contains_others(rung.id) && !rung_used(
                    rung.id,
                    requirements,
                    tasks,
                    scripts,
                ),
                "custom leaf rung `"@ + rung.id.name@ + "` has no actions"@,
            ),
        )
    }
}

proof fn lemma_idle_rungs(
    ladder: ExecutionLadder,
    requirements: Seq<Requirement>,
    tasks: Seq<EvaluatedTask>,
    scripts: Seq<Script>,
    count: int,
    total: int,
)
    requires
        0 <= count <= total,
        idle_rungs(ladder, requirements, tasks, scripts, count) is Some,
    ensures
        idle_rungs(ladder, requirements, tasks, scripts, total) == idle_rungs(
            ladder,
            requirements,
            tasks,
            scripts,
            count,
        ),
    decreases total - count,
{
    if count < total {
        lemma_idle_rungs(ladder, requirements, tasks, scripts, count, total - 1);
    }
}

/// What is wrong with a ladder and its actions.
pub open spec fn ladder_problem(
    ladder: ExecutionLadder,
    requirements: Seq<Requirement>,
    tasks: Seq<EvaluatedTask>,
    scripts: Seq<Script>,
) -> Option<Seq<char>> {
    first(
        requirement_rungs(ladder, requirements, requirements.len() as int),
        first(
            task_rungs(ladder, tasks, tasks.len() as int),
            first(
                script_rungs(ladder, scripts, scripts.len() as int),
                first(
                    task_places(ladder, tasks, tasks.len() as int),
                    idle_rungs(
                        ladder,
                        requirements,
                        tasks,
                        scripts,
                        ladder.flattened@.len() as int,
                    ),
                ),
            ),
        ),
    )
}

fn check_requirement_rungs(ladder: &ExecutionLadder, list: &Vec<Requirement>) -> (r: Result<()>)
    ensures
        reports(r, requirement_rungs(*ladder, list@, list@.len() as int)),
{
    let mut i: usize = 0;
    while i < list.len()
        invariant
            0 <= i <= list@.len(),
            requirement_rungs(*ladder, list@, i as int) is None,
        decreases list@.len() - i,
    {
        proof {
            if requirement_rungs(*ladder, list@, i + 1) is Some {
                lemma_requirement_rungs(*ladder, list@, i + 1, list@.len() as int);
            }
        }
        check_rung(ladder, "requirement", &list[i].when, &list[i].declared_at)?;
        i += 1;
    }
    Ok(())
}

fn check_task_rungs(ladder: &ExecutionLadder, list: &Vec<EvaluatedTask>) -> (r: Result<()>)
    ensures
        reports(r, task_rungs(*ladder, list@, list@.len() as int)),
{
    let mut i: usize = 0;
    while i < list.len()
        invariant
            0 <= i <= list@.len(),
            task_rungs(*ladder, list@, i as int) is None,
        decreases list@.len() - i,
    {
        proof {
            if task_rungs(*ladder, list@, i + 1) is Some {
                lemma_task_rungs(*ladder, list@, i + 1, list@.len() as int);
            }
        }
        check_rung(ladder, "task", &list[i].task.at, &list[i].task.declared_at)?;
        i += 1;
    }
    Ok(())
}

fn check_script_rungs(ladder: &ExecutionLadder, list: &Vec<Script>) -> (r: Result<()>)
    ensures
        reports(r, script_rungs(*ladder, list@, list@.len() as int)),
{
    let mut i: usize = 0;
    while i < list.len()
        invariant
            0 <= i <= list@.len(),
            script_rungs(*ladder, list@, i as int) is None,
        decreases list@.len() - i,
    {
        proof {
            if script_rungs(*ladder, list@, i + 1) is Some {
                lemma_script_rungs(*ladder, list@, i + 1, list@.len() as int);
            }
        }
        check_rung(ladder, "script", &list[i].at, &list[i].declared_at)?;
        i += 1;
    }
    Ok(())
}

fn check_task_places(ladder: &ExecutionLadder, list: &Vec<EvaluatedTask>) -> (r: Result<()>)
    requires
        has_task_rungs(*ladder),
        task_rungs(*ladder, list@, list@.len() as int) is None,
    ensures
        reports(r, task_places(*ladder, list@, list@.len() as int)),
{
    let start = find_core(ladder, CoreRung::MaterialiseBefore);
    let end = find_core(ladder, CoreRung::MaterialiseArtifacts);
    let mut i: usize = 0;
    while i < list.len()
        invariant
            0 <= i <= list@.len(),
            task_rungs(*ladder, list@, list@.len() as int) is None,
            start == core_place_of(*ladder, CoreRung::MaterialiseBefore),
            end == core_place_of(*ladder, CoreRung::MaterialiseArtifacts),
            task_places(*ladder, list@, i as int) is None,
        decreases list@.len() - i,
    {
        proof {
            lemma_tasks_accepted(*ladder, list@, list@.len() as int, i as int);
            if task_places(*ladder, list@, i + 1) is Some {
                lemma_task_places(*ladder, list@, i + 1, list@.len() as int);
            }
        }
        let task = &list[i].task;
        if let Some(place) = find_place(ladder, &task.at) {
            if place < start || place > end {
                return Err(
                    WombatError::Configuration(
                        cat5(
                            "task `",
                            task.identity.as_str(),
                            "` rung `",
                            task.at.name.as_str(),
                            "` must be between materialise.before and materialise.artifacts",
                        ),
                    ),
                );
            }
        }
        i += 1;
    }
    Ok(())
}

/// Makes sure that every action stands at a rung that it may stand at and that every
/// rung that the project adds has actions.
pub fn validate_ladder_actions(
    ladder: &ExecutionLadder,
    requirements: &Vec<Requirement>,
    tasks: &Vec<EvaluatedTask>,
    scripts: &Vec<Script>,
) -> (r: Result<()>)
    requires
        has_task_rungs(*ladder),
    ensures
        reports(r, ladder_problem(*ladder, requirements@, tasks@, scripts@)),
{
    check_requirement_rungs(ladder, requirements)?;
    check_task_rungs(ladder, tasks)?;
    check_script_rungs(ladder, scripts)?;
    check_task_places(ladder, tasks)?;
    let mut i: usize = 0;
    while i < ladder.flattened.len()
        invariant
            0 <= i <= ladder.flattened@.len(),
            requirement_rungs(*ladder, requirements@, requirements@.len() as int) is None,
            task_rungs(*ladder, tasks@, tasks@.len() as int) is None,
            script_rungs(*ladder, scripts@, scripts@.len() as int) is None,
            task_places(*ladder, tasks@, tasks@.len() as int) is None,
            idle_rungs(*ladder, requirements@, tasks@, scripts@, i as int) is None,
        decreases ladder.flattened@.len() - i,
    {
        proof {
            if idle_rungs(*ladder, requirements@, tasks@, scripts@, i + 1) is Some {
                lemma_idle_rungs(
                    *ladder,
                    requirements@,
                    tasks@,
                    scripts@,
                    i + 1,
                    ladder.flattened@.len() as int,
                );
            }
        }
        let rung = &ladder.flattened[i];
        if rung.core.is_none() && !ladder.is_container(&rung.id) && !is_used(
            &rung.id,
            requirements,
            tasks,
            scripts,
        ) {
            return Err(
                WombatError::Configuration(
                    cat3("custom leaf rung `", rung.id.name.as_str(), "` has no actions"),
                ),
            );
        }
        i += 1;
    }
    Ok(())
}

/// The name of the chosen candidate of a requirement.
pub open spec fn chosen_name(v: Requirement) -> Seq<char> {
    if chosen_exists(v) {
        v.candidates@[v.selected as int].product()
    } else {
        Seq::empty()
    }
}

fn name_of(v: &Requirement) -> (r: &str)
    ensures
        r@ == chosen_name(*v),
{
    if (v.selected as usize) < v.candidates.len() {
        v.candidates[v.selected as usize].name()
    } else {
        proof {
            reveal_strlit("");
            assert(""@ =~= Seq::empty());
        }
        ""
    }
}

/// The order of the kinds of requirement.
pub open spec fn kind_order(a: RequirementKind, b: RequirementKind) -> Order {
    if a == b {
        Order::Same
    } else if a == RequirementKind::Command {
        Order::Before
    } else {
        Order::After
    }
}

/// The order of requirements: by kind, name, provider, binding and declaration.
pub open spec fn requirement_order(a: Requirement, b: Requirement) -> Order {
    then_by(
        kind_order(a.kind, b.kind),
        then_by(
            text_order(chosen_name(a), chosen_name(b)),
            then_by(
                text_order(a.binding.provider@, b.binding.provider@),
                then_by(
                    text_order(a.binding.identity@, b.binding.identity@),
                    trace_order(a.declared_at, b.declared_at),
                ),
            ),
        ),
    )
}

impl Sortable for Requirement {
    open spec fn after(self, other: Self) -> bool {
        requirement_order(self, other) == Order::After
    }

    fn comes_after(&self, other: &Self) -> (r: bool) {
        if self.kind != other.kind {
            return self.kind != RequirementKind::Command;
        }
        let names = order_texts(name_of(self), name_of(other));
        if names != Order::Same {
            return names == Order::After;
        }
        let providers = order_texts(
            self.binding.provider.as_str(),
            other.binding.provider.as_str(),
        );
        if providers != Order::Same {
            return providers == Order::After;
        }
        let bindings = order_texts(
            self.binding.identity.as_str(),
            other.binding.identity.as_str(),
        );
        if bindings != Order::Same {
            return bindings == Order::After;
        }
        order_traces(&self.declared_at, &other.declared_at) == Order::After
    }
}

/// Whether two requirements ask for the same through the same binding.
pub open spec fn same_need(a: Requirement, b: Requirement) -> bool {
    &&& a.kind == b.kind
    &&& chosen_name(a) == chosen_name(b)
    &&& a.binding.provider@ == b.binding.provider@
    &&& a.binding.identity@ == b.binding.identity@
}

/// Whether two requirements for the same agree.
pub open spec fn agree(a: Requirement, b: Requirement) -> bool {
    &&& equal(
        JsonTree::Array(requirement_candidate_trees(a.candidates@)),
        JsonTree::Array(requirement_candidate_trees(b.candidates@)),
    )
    &&& a.choice == b.choice
}

/// Whether one rung is climbed before another; a rung that the ladder lacks comes
/// first.
pub open spec fn climbed_before(ladder: ExecutionLadder, a: RungId, b: RungId) -> bool {
    match (place_of(ladder, a), place_of(ladder, b)) {
        (Some(x), Some(y)) => x < y,
        (None, Some(_)) => true,
        (_, None) => false,
    }
}

fn is_climbed_before(ladder: &ExecutionLadder, a: &RungId, b: &RungId) -> (r: bool)
    ensures
        r == climbed_before(*ladder, *a, *b),
{
    match (find_place(ladder, a), find_place(ladder, b)) {
        (Some(x), Some(y)) => x < y,
        (None, Some(_)) => true,
        (_, None) => false,
    }
}

/// The message about requirements for the same that do not agree.
pub open spec fn disagreement(a: Requirement, b: Requirement) -> Seq<char> {
    "conflicting requirement declarations for "@ + chosen_name(b) + " through `"@
        + b.binding.provider@ + "` at "@ + a.declared_at.text() + " and "@ + b.declared_at.text()
}

/// Requirements with those for the same, where they follow each other, made one: it
/// is waited for at the rung that is climbed first.
pub open spec fn merged(list: Seq<Requirement>, ladder: ExecutionLadder) -> std::result::Result<
    Seq<Requirement>,
    Seq<char>,
>
    decreases list.len(),
{
    if list.len() == 0 {
        Ok(list)
    } else {
        match merged(list.drop_last(), ladder) {
            Err(message) => Err(message),
            Ok(sofar) => {
                let item = list.last();
                if sofar.len() == 0 || !same_need(sofar.last(), item) {
                    Ok(sofar.push(item))
                } else if !agree(sofar.last(), item) {
                    Err(disagreement(sofar.last(), item))
                } else if climbed_before(ladder, item.when, sofar.last().when) {
                    Ok(
                        sofar.drop_last().push(
                            Requirement { when: item.when, ..sofar.last() },
                        ),
                    )
                } else {
                    Ok(sofar)
                }
            },
        }
    }
}

proof fn lemma_merged_front(list: Seq<Requirement>, ladder: ExecutionLadder, count: int)
    requires
        0 <= count <= list.len(),
        merged(list.take(count), ladder) is Err,
    ensures
        merged(list, ladder) == merged(list.take(count), ladder),
    decreases list.len() - count,
{
    if count < list.len() {
        assert(list.take(count + 1).drop_last() =~= list.take(count));
        lemma_merged_front(list, ladder, count + 1);
    } else {
        assert(list.take(count) =~= list);
    }
}

fn needs_agree(a: &Requirement, b: &Requirement) -> (r: bool)
    ensures
        r == agree(*a, *b),
{
    equal_values(
        &requirement_candidate_values(&a.candidates),
        &requirement_candidate_values(&b.candidates),
    ) && a.choice == b.choice
}

fn is_same_need(a: &Requirement, b: &Requirement) -> (r: bool)
    ensures
        r == same_need(*a, *b),
{
    a.kind == b.kind && same(name_of(a), name_of(b)) && same(
        a.binding.provider.as_str(),
        b.binding.provider.as_str(),
    ) && same(a.binding.identity.as_str(), b.binding.identity.as_str())
}

/// Puts requirements in order and makes those for the same one.
pub fn normalize_requirements(requirements: Vec<Requirement>, ladder: &ExecutionLadder) -> (r: Result<
    Vec<Requirement>,
>)
    requires
        all_chosen_exist(requirements@),
    ensures
        match merged(sorted(requirements@), *ladder) {
            Ok(list) => r is Ok && r->Ok_0@ == list,
            Err(message) => r is Err && is_configuration(r->Err_0, message),
        },
{
    let mut rest = sort(requirements);
    let ghost all = rest@;
    let mut r: Vec<Requirement> = Vec::new();
    let ghost mut count: int = 0;
    assert(all.take(0) =~= Seq::empty());
    assert(all.skip(0) =~= all);
    assert(r@ =~= Seq::empty());
    while rest.len() > 0
        invariant
            0 <= count <= all.len(),
            all == sorted(requirements@),
            rest@ == all.skip(count),
            merged(all.take(count), *ladder) == std::result::Result::<
                Seq<Requirement>,
                Seq<char>,
            >::Ok(r@),
        decreases rest@.len(),
    {
        let item = rest.remove(0);
        proof {
            assert(item == all[count]);
            assert(all.skip(count).remove(0) =~= all.skip(count + 1));
            assert(all.take(count + 1).drop_last() =~= all.take(count));
            assert(all.take(count + 1).last() == all[count]);
            if merged(all.take(count + 1), *ladder) is Err {
                lemma_merged_front(all, *ladder, count + 1);
            }
        }
        let repeated = r.len() > 0 && is_same_need(&r[r.len() - 1], &item);
        if repeated {
            let last = r.len() - 1;
            if !needs_agree(&r[last], &item) {
                let head = cat4(
                    "conflicting requirement declarations for ",
                    name_of(&item),
                    " through `",
                    item.binding.provider.as_str(),
                );
                return Err(
                    WombatError::Configuration(
                        cat5(
                            head.as_str(),
                            "` at ",
                            r[last].declared_at.display().as_str(),
                            " and ",
                            item.declared_at.display().as_str(),
                        ),
                    ),
                );
            }
            if is_climbed_before(ladder, &item.when, &r[last].when) {
                let ghost sofar = r@;
                r[last].when = item.when;
                assert(r@ =~= sofar.drop_last().push(
                    (Requirement { when: item.when, ..sofar.last() }),
                ));
            }
        } else {
            r.push(item);
        }
        proof {
            count = count + 1;
        }
    }
    assert(all.take(count) =~= all);
    Ok(r)
}

/// Whether a list has a requirement for the same that is waited for no later.
pub open spec fn covered(
    ladder: ExecutionLadder,
    list: Seq<Requirement>,
    item: Requirement,
) -> bool {
    exists|k: int|
        0 <= k < list.len() && same_need(#[trigger] list[k], item) && !climbed_before(
            ladder,
            item.when,
            list[k].when,
        )
}

/// Making requirements one loses none: each is still asked for, at a rung that is
/// climbed no later.
pub proof fn law_merged_requirements_are_covered(list: Seq<Requirement>, ladder: ExecutionLadder)
    ensures
        merged(list, ladder) matches Ok(result) ==> forall|i: int|
            0 <= i < list.len() ==> covered(ladder, result, #[trigger] list[i]),
    decreases list.len(),
{
    if list.len() > 0 {
        let front = list.drop_last();
        law_merged_requirements_are_covered(front, ladder);
        if let Ok(result) = merged(list, ladder) {
            let sofar = merged(front, ladder)->Ok_0;
            let item = list.last();
            assert forall|i: int| 0 <= i < list.len() implies covered(
                ladder,
                result,
                #[trigger] list[i],
            ) by {
                if i < front.len() {
                    assert(front[i] == list[i]);
                    assert(covered(ladder, sofar, front[i]));
                    let k = choose|k: int|
                        0 <= k < sofar.len() && same_need(#[trigger] sofar[k], list[i])
                            && !climbed_before(ladder, list[i].when, sofar[k].when);
                    assert(same_need(result[k], list[i]));
                } else {
                    let last = result.len() - 1;
                    assert(same_need(result[last], item));
                }
            }
        }
    }
}

/// The order of artifacts: by target, owner, source and declaration.
pub open spec fn artifact_sequence(a: EvaluatedArtifact, b: EvaluatedArtifact) -> Order {
    then_by(
        text_order(a.target.path@, b.target.path@),
        then_by(
            text_order(a.owner@, b.owner@),
            then_by(
                text_order(a.source@, b.source@),
                trace_order(a.declared_at, b.declared_at),
            ),
        ),
    )
}

impl Sortable for EvaluatedArtifact {
    open spec fn after(self, other: Self) -> bool {
        artifact_sequence(self, other) == Order::After
    }

    fn comes_after(&self, other: &Self) -> (r: bool) {
        let targets = order_texts(self.target.key(), other.target.key());
        if targets != Order::Same {
            return targets == Order::After;
        }
        let owners = order_texts(self.owner.as_str(), other.owner.as_str());
        if owners != Order::Same {
            return owners == Order::After;
        }
        let sources = order_texts(self.source.as_str(), other.source.as_str());
        if sources != Order::Same {
            return sources == Order::After;
        }
        order_traces(&self.declared_at, &other.declared_at) == Order::After
    }
}

/// The order of directories: by where they start, owner and declaration.
pub open spec fn directory_sequence(a: EvaluatedDirectory, b: EvaluatedDirectory) -> Order {
    then_by(
        text_order(a.root@, b.root@),
        then_by(text_order(a.owner@, b.owner@), trace_order(a.declared_at, b.declared_at)),
    )
}

impl Sortable for EvaluatedDirectory {
    open spec fn after(self, other: Self) -> bool {
        directory_sequence(self, other) == Order::After
    }

    fn comes_after(&self, other: &Self) -> (r: bool) {
        let roots = order_texts(self.root.as_str(), other.root.as_str());
        if roots != Order::Same {
            return roots == Order::After;
        }
        let owners = order_texts(self.owner.as_str(), other.owner.as_str());
        if owners != Order::Same {
            return owners == Order::After;
        }
        order_traces(&self.declared_at, &other.declared_at) == Order::After
    }
}

/// Everything that evaluation has gathered.
#[derive(Debug, PartialEq)]
pub struct Evaluation {
    /// The name of the project
    pub project: Option<String>,
    /// The path of the repository, as its bytes
    pub root: Vec<u8>,
    /// The arguments of the project, where they are text
    pub arguments: Vec<Option<String>>,
    /// The sources, in the order of their paths
    pub sources: Vec<TrackedSource>,
    /// The modules
    pub modules: ModuleRegistry,
    /// The inputs
    pub inputs: Vec<BuildInput>,
    /// The target and what was observed
    pub context: ContextState,
    /// What was run
    pub processes: Vec<ProcessObservation>,
    /// The packs of template helpers
    pub helpers: Vec<TemplateHelperPack>,
    /// The providers and requirements
    pub requirements: RequirementRegistry,
    /// The tasks and scripts
    pub actions: ActionRegistry,
    /// The artifacts
    pub artifacts: ArtifactRegistry,
}

/// Whether modules are those of the registry.
pub open spec fn modules_are(list: Seq<ManifestModule>, records: Seq<(String, ModuleRecord)>) -> bool {
    &&& list.len() == records.len()
    &&& forall|i: int|
        0 <= i < list.len() ==> module_is(#[trigger] list[i], records[i].0@, records[i].1)
}

/// Whether a module is that of a record.
pub open spec fn module_is(v: ManifestModule, name: Seq<char>, record: ModuleRecord) -> bool {
    &&& v.name@ == name
    &&& v.source@ == record.location->0@
    &&& v.config.tree() == record.config_tree()
    &&& match record.source_base {
        Some(base) => v.source_base matches Some(own) && own.same(base),
        None => v.source_base is None,
    }
}

/// Whether every module has its file.
pub open spec fn all_located(records: Seq<(String, ModuleRecord)>) -> bool {
    forall|i: int| 0 <= i < records.len() ==> (#[trigger] records[i]).1.location is Some
}

fn list_modules(records: &Vec<(String, ModuleRecord)>) -> (r: Vec<ManifestModule>)
    requires
        all_located(records@),
    ensures
        modules_are(r@, records@),
{
    let mut r: Vec<ManifestModule> = Vec::new();
    let mut i: usize = 0;
    while i < records.len()
        invariant
            0 <= i <= records@.len(),
            all_located(records@),
            r@.len() == i,
            forall|k: int|
                0 <= k < i ==> module_is(#[trigger] r@[k], records@[k].0@, records@[k].1),
        decreases records@.len() - i,
    {
        let record = &records[i].1;
        assert(records@[i as int].1.location is Some);
        let source = match &record.location {
            Some(file) => file.clone(),
            None => String::new(),
        };
        let source_base = match &record.source_base {
            Some(base) => Some(base.copy()),
            None => None,
        };
        r.push(
            ManifestModule {
                name: records[i].0.clone(),
                source,
                config: record.config(),
                source_base,
            },
        );
        i += 1;
    }
    r
}

/// Whether files are those of the sources.
pub open spec fn files_are(list: Seq<SourceFile>, sources: Seq<TrackedSource>) -> bool {
    &&& list.len() == sources.len()
    &&& forall|i: int| 0 <= i < list.len() ==> (#[trigger] list[i]).same(sources[i].manifest)
}

fn list_sources(sources: &Vec<TrackedSource>) -> (r: Vec<SourceFile>)
    ensures
        files_are(r@, sources@),
{
    let mut r: Vec<SourceFile> = Vec::new();
    let mut i: usize = 0;
    while i < sources.len()
        invariant
            0 <= i <= sources@.len(),
            r@.len() == i,
            forall|k: int| 0 <= k < i ==> (#[trigger] r@[k]).same(sources@[k].manifest),
        decreases sources@.len() - i,
    {
        r.push(sources[i].manifest.copy());
        i += 1;
    }
    r
}

/// What is wrong with what evaluation has gathered.
pub open spec fn manifest_problem(evaluation: Evaluation, ladder: ExecutionLadder) -> Option<Seq<char>> {
    first(
        ladder_problem(
            ladder,
            evaluation.requirements.requirements@,
            evaluation.actions.tasks@,
            evaluation.actions.scripts@,
        ),
        first(
            match merged(sorted(evaluation.requirements.requirements@), ladder) {
                Ok(_) => None,
                Err(message) => Some(message),
            },
            problem_if(
                some_untold(evaluation.arguments@),
                "project arguments must be valid UTF-8"@,
            ),
        ),
    )
}

/// Whether a manifest tells what evaluation has gathered.
pub open spec fn manifest_is(
    r: EvaluatedManifest,
    evaluation: Evaluation,
    ladder: ExecutionLadder,
    preparations: Vec<ProviderPreparation>,
) -> bool {
    &&& r.plan_id@.len() == 0
    &&& r.project == evaluation.project
    &&& views(r.project_arguments@) == told(evaluation.arguments@)
    &&& files_are(r.sources@, evaluation.sources@)
    &&& r.inputs == evaluation.inputs
    &&& r.target == evaluation.context.target.target
    &&& r.observations == evaluation.context.observations
    &&& r.process_observations == evaluation.processes
    &&& modules_are(r.modules@, evaluation.modules.records@)
    &&& r.dependencies == evaluation.modules.dependencies
    &&& r.template_helpers == evaluation.helpers
    &&& r.project_identity@ == digest_of(evaluation.root@)
    &&& r.ladder == ladder
    &&& r.providers == evaluation.requirements.providers
    &&& r.requirements@ == merged(
        sorted(evaluation.requirements.requirements@),
        ladder,
    )->Ok_0
    &&& r.preparations == preparations
    &&& r.tasks == evaluation.actions.tasks
    &&& r.scripts == evaluation.actions.scripts
    &&& r.artifact_policy == evaluation.artifacts.policy
    &&& r.artifact_notices == evaluation.artifacts.notices
    &&& r.artifact_selections == evaluation.artifacts.selections
    &&& r.artifacts@ == sorted(evaluation.artifacts.artifacts@)
    &&& r.directories@ == sorted(evaluation.artifacts.directories@)
}

/// The ladder that is climbed: the declared one, or the one that there is otherwise.
pub open spec fn climbed_ladder(evaluation: Evaluation, otherwise: ExecutionLadder) -> ExecutionLadder {
    match evaluation.actions.ladder {
        Some(ladder) => ladder,
        None => otherwise,
    }
}

fn read_arguments(arguments: &Vec<Option<String>>) -> (r: Result<Vec<String>>)
    ensures
        reports(
            r,
            problem_if(some_untold(arguments@), "project arguments must be valid UTF-8"@),
        ),
        r matches Ok(texts) ==> views(texts@) == told(arguments@),
{
    let mut texts: Vec<String> = Vec::new();
    let mut i: usize = 0;
    while i < arguments.len()
        invariant
            0 <= i <= arguments@.len(),
            texts@.len() == i,
            forall|j: int| 0 <= j < i ==> (#[trigger] arguments@[j]) is Some,
            forall|j: int| 0 <= j < i ==> (#[trigger] texts@[j])@ == told(arguments@)[j],
        decreases arguments@.len() - i,
    {
        match &arguments[i] {
            Some(text) => {
                texts.push(text.clone());
            },
            None => {
                assert(arguments@[i as int] is None);
                return Err(WombatError::configuration("project arguments must be valid UTF-8"));
            },
        }
        i += 1;
    }
    assert(views(texts@) =~= told(arguments@));
    Ok(texts)
}

/// Puts together what evaluation hands on. `otherwise` is the ladder that is climbed
/// where none was declared.
pub fn build_manifest(
    evaluation: Evaluation,
    preparations: Vec<ProviderPreparation>,
    otherwise: ExecutionLadder,
) -> (r: Result<EvaluatedManifest>)
    requires
        all_located(evaluation.modules.records@),
        all_chosen_exist(evaluation.requirements.requirements@),
        has_task_rungs(climbed_ladder(evaluation, otherwise)),
    ensures
        reports(r, manifest_problem(evaluation, climbed_ladder(evaluation, otherwise))),
        r matches Ok(manifest) ==> manifest_is(
            manifest,
            evaluation,
            climbed_ladder(evaluation, otherwise),
            preparations,
        ),
{
    let modules = list_modules(&evaluation.modules.records);
    let artifacts = sort(evaluation.artifacts.artifacts);
    let directories = sort(evaluation.artifacts.directories);
    let ladder = match evaluation.actions.ladder {
        Some(ladder) => ladder,
        None => otherwise,
    };
    validate_ladder_actions(
        &ladder,
        &evaluation.requirements.requirements,
        &evaluation.actions.tasks,
        &evaluation.actions.scripts,
    )?;
    let requirements = normalize_requirements(evaluation.requirements.requirements, &ladder)?;
    let project_arguments = read_arguments(&evaluation.arguments)?;
    Ok(
        EvaluatedManifest {
            plan_id: String::new(),
            project: evaluation.project,
            project_arguments,
            sources: list_sources(&evaluation.sources),
            inputs: evaluation.inputs,
            target: evaluation.context.target.target,
            observations: evaluation.context.observations,
            process_observations: evaluation.processes,
            modules,
            dependencies: evaluation.modules.dependencies,
            template_helpers: evaluation.helpers,
            project_identity: digest(evaluation.root.as_slice()),
            ladder,
            providers: evaluation.requirements.providers,
            requirements,
            preparations,
            tasks: evaluation.actions.tasks,
            scripts: evaluation.actions.scripts,
            artifact_policy: evaluation.artifacts.policy,
            artifact_notices: evaluation.artifacts.notices,
            artifact_selections: evaluation.artifacts.selections,
            artifacts,
            directories,
        },
    )
}

/// A level moved by an adjustment, as far as there are levels.
pub open spec fn adjusted(level: LogLevel, adjustment: i8) -> int {
    if level.weight() - adjustment < 0 {
        0
    } else if level.weight() - adjustment > 4 {
        4
    } else {
        level.weight() - adjustment
    }
}

/// Moves a level: a positive adjustment lets more messages through.
pub fn adjust_log_level(level: LogLevel, adjustment: i8) -> (r: LogLevel)
    ensures
        r.weight() == adjusted(level, adjustment),
{
    let index: i16 = match level {
        LogLevel::Debug => 0,
        LogLevel::Info => 1,
        LogLevel::Notice => 2,
        LogLevel::Warn => 3,
        LogLevel::Error => 4,
    };
    let moved: i16 = index - adjustment as i16;
    if moved <= 0 {
        LogLevel::Debug
    } else if moved == 1 {
        LogLevel::Info
    } else if moved == 2 {
        LogLevel::Notice
    } else if moved == 3 {
        LogLevel::Warn
    } else {
        LogLevel::Error
    }
}

/// How the evaluation of the root configuration goes on.
#[derive(Debug, PartialEq)]
pub enum RootOutcome {
    /// With the help of the project
    Help(String),
    /// With the selected modules
    Modules,
}

/// Whether the evaluation of the root configuration goes on as it should.
pub open spec fn root_outcome(
    r: Result<RootOutcome>,
    execution: Result<()>,
    help: Option<String>,
    inputs_declared: bool,
    arguments: Seq<Option<String>>,
) -> bool {
    match execution {
        Err(error) => match help {
            Some(text) => r matches Ok(RootOutcome::Help(t)) && t@ == text@,
            None => r is Err && r->Err_0 == error,
        },
        Ok(_) => if !inputs_declared && arguments.len() > 0 {
            r is Err && is_configuration(
                r->Err_0,
                "project build arguments were provided, but this repository does not declare w.inputs()"@,
            )
        } else {
            match help {
                Some(text) => r matches Ok(RootOutcome::Help(t)) && t@ == text@,
                None => r matches Ok(RootOutcome::Modules),
            }
        },
    }
}

/// Decides how the evaluation of the root configuration goes on.
pub fn after_root(
    execution: Result<()>,
    help: Option<String>,
    inputs_declared: bool,
    arguments: &Vec<Option<String>>,
) -> (r: Result<RootOutcome>)
    ensures
        root_outcome(r, execution, help, inputs_declared, arguments@),
{
    if let Err(error) = execution {
        return match help {
            Some(text) => Ok(RootOutcome::Help(text)),
            None => Err(error),
        };
    }
    if !inputs_declared && arguments.len() > 0 {
        return Err(
            WombatError::configuration(
                "project build arguments were provided, but this repository does not declare w.inputs()",
            ),
        );
    }
    match help {
        Some(text) => Ok(RootOutcome::Help(text)),
        None => Ok(RootOutcome::Modules),
    }
}

/// What comes of an evaluation.
#[derive(Debug, PartialEq)]
pub enum EvaluationOutcome {
    /// What the repository declares
    Manifest(EvaluatedManifest),
    /// The help of the project, which was asked for
    ProjectHelp(String),
}

/// Takes what a repository declares for a build, from what came of evaluating it. Help is
/// no build.
pub fn evaluate(outcome: Result<EvaluationOutcome>) -> (r: Result<EvaluatedManifest>)
    ensures
        match outcome {
            Err(error) => r is Err && r->Err_0 == error,
            Ok(EvaluationOutcome::Manifest(manifest)) => r is Ok && r->Ok_0 == manifest,
            Ok(EvaluationOutcome::ProjectHelp(_)) => r is Err && is_configuration(
                r->Err_0,
                "project help was requested during build evaluation"@,
            ),
        },
{
    match outcome? {
        EvaluationOutcome::Manifest(manifest) => Ok(manifest),
        EvaluationOutcome::ProjectHelp(_) => Err(
            WombatError::configuration("project help was requested during build evaluation"),
        ),
    }
}

} // verus!
