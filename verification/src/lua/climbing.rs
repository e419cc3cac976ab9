//! What an accepted ladder promises of the actions on it.
use vstd::prelude::*;

use crate::lua::manifesting::{
    adjusted, core_place, core_place_of, idle_rungs, ladder_problem, place_of, requirement_rungs,
    rung_used, script_rungs, task_places, task_rungs,
};
use crate::model::ladder::{CoreRung, ExecutionLadder};
use crate::model::manifest::{EvaluatedTask, Requirement, Script};
use crate::model::plan_laws::{lemma_accepts, stands_on};
use crate::presentation::LogLevel;

verus! {

/// Whether a rung stands at a place: it is the first of its name.
pub open spec fn first_at(ladder: ExecutionLadder, name: Seq<char>, index: int) -> bool {
    &&& 0 <= index < ladder.flattened@.len()
    &&& ladder.flattened@[index].id.name@ == name
    &&& forall|j: int| 0 <= j < index ==> (#[trigger] ladder.flattened@[j]).id.name@ != name
}

/// Whether something is done at a rung.
pub open spec fn something_done(
    name: Seq<char>,
    requirements: Seq<Requirement>,
    tasks: Seq<EvaluatedTask>,
    scripts: Seq<Script>,
) -> bool {
    ||| exists|i: int| 0 <= i < requirements.len() && (#[trigger] requirements[i]).when.name@ == name
    ||| exists|i: int| 0 <= i < tasks.len() && (#[trigger] tasks[i]).task.at.name@ == name
    ||| exists|i: int| 0 <= i < scripts.len() && (#[trigger] scripts[i]).at.name@ == name
}

/// Where a ladder is accepted, everything stands at a rung that can hold it, every task
/// between `materialise.before` and `materialise.artifacts`, and at every rung of one's own
/// something is done.
pub proof fn law_accepted_ladders_are_climbable(
    ladder: ExecutionLadder,
    requirements: Seq<Requirement>,
    tasks: Seq<EvaluatedTask>,
    scripts: Seq<Script>,
    at: int,
    low: int,
    place: int,
    high: int,
)
    requires
        ladder_problem(ladder, requirements, tasks, scripts) is None,
    ensures
        0 <= at < requirements.len() ==> stands_on(ladder, requirements[at].when),
        0 <= at < tasks.len() ==> stands_on(ladder, tasks[at].task.at),
        0 <= at < scripts.len() ==> stands_on(ladder, scripts[at].at),
        0 <= at < tasks.len() && first_at(ladder, "materialise.before"@, low) && first_at(
            ladder,
            "materialise.artifacts"@,
            high,
        ) && first_at(ladder, tasks[at].task.at.name@, place) ==> low <= place <= high,
        0 <= at < ladder.flattened@.len() && ladder.flattened@[at].core is None && (forall|i: int|
            0 <= i < ladder.flattened@.len() ==> ((
            #[trigger] ladder.flattened@[i]).parent matches Some(parent) ==> parent.name@
                != ladder.flattened@[at].id.name@)) ==> something_done(
            ladder.flattened@[at].id.name@,
            requirements,
            tasks,
            scripts,
        ),
{
    if 0 <= at < requirements.len() {
        lemma_requirement(ladder, requirements, requirements.len() as int, at);
        lemma_accepts(ladder, requirements[at].when);
    }
    if 0 <= at < tasks.len() {
        lemma_task(ladder, tasks, tasks.len() as int, at);
        lemma_accepts(ladder, tasks[at].task.at);
        if first_at(ladder, "materialise.before"@, low) && first_at(
            ladder,
            "materialise.artifacts"@,
            high,
        ) && first_at(ladder, tasks[at].task.at.name@, place) {
            lemma_place(ladder, tasks, tasks.len() as int, at);
            assert(core_place(ladder, CoreRung::MaterialiseBefore, low));
            assert(core_place(ladder, CoreRung::MaterialiseArtifacts, high));
            let first = core_place_of(ladder, CoreRung::MaterialiseBefore);
            let last = core_place_of(ladder, CoreRung::MaterialiseArtifacts);
            assert(core_place(ladder, CoreRung::MaterialiseBefore, first));
            assert(core_place(ladder, CoreRung::MaterialiseArtifacts, last));
            assert(first == low) by {
                if first < low {
                    assert(ladder.flattened@[first].id.name@ != "materialise.before"@);
                } else if low < first {
                    assert(ladder.flattened@[low].id.name@ != CoreRung::MaterialiseBefore.id());
                }
            }
            assert(last == high) by {
                if last < high {
                    assert(ladder.flattened@[last].id.name@ != "materialise.artifacts"@);
                } else if high < last {
                    assert(ladder.flattened@[high].id.name@
                        != CoreRung::MaterialiseArtifacts.id());
                }
            }
            let id = tasks[at].task.at;
            assert(ladder.flattened@[place].id.same(id));
            assert(ladder.stands_at(id, place)) by {
                assert forall|j: int| 0 <= j < place implies !(
                #[trigger] ladder.flattened@[j]).id.same(id) by {
                    assert(ladder.flattened@[j].id.name@ != id.name@);
                }
            }
            let found = place_of(ladder, id)->0;
            assert(ladder.stands_at(id, found));
            if found < place {
                assert(!ladder.flattened@[found].id.same(id));
            } else if place < found {
                assert(!ladder.flattened@[place].id.same(id));
            }
        }
    }
    if 0 <= at < scripts.len() {
        lemma_script(ladder, scripts, scripts.len() as int, at);
        lemma_accepts(ladder, scripts[at].at);
    }
    if 0 <= at < ladder.flattened@.len() && ladder.flattened@[at].core is None && (forall|i: int|
        0 <= i < ladder.flattened@.len() ==> ((
        #[trigger] ladder.flattened@[i]).parent matches Some(parent) ==> parent.name@
            != ladder.flattened@[at].id.name@)) {
        let id = ladder.flattened@[at].id;
        assert(!ladder.contains_others(id));
        lemma_idle(ladder, requirements, tasks, scripts, ladder.flattened@.len() as int, at);
        assert(rung_used(id, requirements, tasks, scripts));
        if exists|i: int| 0 <= i < requirements.len() && (#[trigger] requirements[i]).when.same(id) {
            let i = choose|i: int|
                0 <= i < requirements.len() && (#[trigger] requirements[i]).when.same(id);
            assert(requirements[i].when.name@ == id.name@);
        } else if exists|i: int| 0 <= i < tasks.len() && (#[trigger] tasks[i]).task.at.same(id) {
            let i = choose|i: int| 0 <= i < tasks.len() && (#[trigger] tasks[i]).task.at.same(id);
            assert(tasks[i].task.at.name@ == id.name@);
        } else {
            let i = choose|i: int| 0 <= i < scripts.len() && (#[trigger] scripts[i]).at.same(id);
            assert(scripts[i].at.name@ == id.name@);
        }
    }
}

proof fn lemma_requirement(
    ladder: ExecutionLadder,
    list: Seq<Requirement>,
    count: int,
    at: int,
)
    requires
        requirement_rungs(ladder, list, count) is None,
        0 <= at < count <= list.len(),
    ensures
        ladder.accepts(list[at].when),
    decreases count,
{
    if at < count - 1 {
        lemma_requirement(ladder, list, count - 1, at);
    }
}

proof fn lemma_task(ladder: ExecutionLadder, list: Seq<EvaluatedTask>, count: int, at: int)
    requires
        task_rungs(ladder, list, count) is None,
        0 <= at < count <= list.len(),
    ensures
        ladder.accepts(list[at].task.at),
    decreases count,
{
    if at < count - 1 {
        lemma_task(ladder, list, count - 1, at);
    }
}

proof fn lemma_script(ladder: ExecutionLadder, list: Seq<Script>, count: int, at: int)
    requires
        script_rungs(ladder, list, count) is None,
        0 <= at < count <= list.len(),
    ensures
        ladder.accepts(list[at].at),
    decreases count,
{
    if at < count - 1 {
        lemma_script(ladder, list, count - 1, at);
    }
}

proof fn lemma_place(ladder: ExecutionLadder, list: Seq<EvaluatedTask>, count: int, at: int)
    requires
        task_places(ladder, list, count) is None,
        0 <= at < count <= list.len(),
    ensures
        core_place_of(ladder, CoreRung::MaterialiseBefore) <= place_of(
            ladder,
            list[at].task.at,
        )->0 <= core_place_of(ladder, CoreRung::MaterialiseArtifacts),
    decreases count,
{
    if at < count - 1 {
        lemma_place(ladder, list, count - 1, at);
    }
}

proof fn lemma_idle(
    ladder: ExecutionLadder,
    requirements: Seq<Requirement>,
    tasks: Seq<EvaluatedTask>,
    scripts: Seq<Script>,
    count: int,
    at: int,
)
    requires
        idle_rungs(ladder, requirements, tasks, scripts, count) is None,
        0 <= at < count <= ladder.flattened@.len(),
        ladder.flattened@[at].core is None,
        !ladder.contains_others(ladder.flattened@[at].id),
    ensures
        rung_used(ladder.flattened@[at].id, requirements, tasks, scripts),
    decreases count,
{
    if at < count - 1 {
        lemma_idle(ladder, requirements, tasks, scripts, count - 1, at);
    }
}

/// A level is moved by as many steps as it was asked to be, but not beyond the ends: never
/// up where it should go down, and not at all where nothing was asked.
pub proof fn law_levels_move_step_by_step(level: LogLevel, a: i8, b: i8)
    ensures
        0 <= adjusted(level, a) <= 4,
        0 <= level.weight() <= 4 ==> adjusted(level, 0) == level.weight(),
        a <= b ==> adjusted(level, b) <= adjusted(level, a),
        0 <= level.weight() - a <= 4 ==> adjusted(level, a) + a == level.weight(),
{
}

} // verus!
