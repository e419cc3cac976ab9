//! The declarations of inputs by root policy.
use vstd::prelude::*;
use vstd::string::*;

use crate::error::{either, first, problem_if, reports, settles, Problem, Result, WombatError};
use crate::lua::state::{Location, ModuleRegistry};
use crate::model::context::TargetPlatform;
use crate::model::frozen::{FrozenValue, LuaValue};
use crate::project::inputs::{
    input_is, input_problem, inputs_problem, resolution, resolve, InputSpec, ResolvedInputs,
};
use crate::text::cat2;

verus! {

/// The inputs of a project.
#[derive(Debug, PartialEq)]
pub struct InputRegistry {
    /// The declarations by their numbers
    pub specs: Vec<(u64, InputSpec)>,
    /// The number of the next declaration
    pub next: u64,
    /// Whether the schema was declared
    pub declared: bool,
}

/// What is wrong with declaring an input here.
pub open spec fn constructor_problem(
    modules: ModuleRegistry,
    inputs: InputRegistry,
    place: Seq<char>,
) -> Option<Seq<char>> {
    first(
        problem_if(
            modules.active() is Some,
            "Wombat modules cannot declare project build inputs at "@ + place,
        ),
        first(
            problem_if(
                inputs.declared || modules.root_policy_started,
                "input constructors must run before w.inputs(), use(), using(), or install() at "@
                    + place,
            ),
            problem_if(inputs.next == u64::MAX, "too many project input declarations"@),
        ),
    )
}

/// Declares an input. Returns its number.
pub fn register_input_spec(
    modules: &ModuleRegistry,
    inputs: &mut InputRegistry,
    kind: &str,
    options: Result<FrozenValue>,
    location: Location,
) -> (r: Result<u64>)
    ensures
        ({
            let problem = constructor_problem(*modules, *old(inputs), location.trace.text());
            if problem is Some {
                reports(r, problem) && *final(inputs) == *old(inputs)
            } else {
                &&& final(inputs).next == old(inputs).next + 1
                &&& final(inputs).declared == old(inputs).declared
                &&& match options {
                    Err(error) => r is Err && r->Err_0 == error,
                    Ok(value) => reports(r, input_problem(kind@, value)),
                }
                &&& r is Err ==> final(inputs).specs == old(inputs).specs
                &&& r matches Ok(order) ==> {
                    &&& order == old(inputs).next
                    &&& final(inputs).specs@.len() == old(inputs).specs@.len() + 1
                    &&& final(inputs).specs@.drop_last() == old(inputs).specs@
                    &&& final(inputs).specs@.last().0 == order
                    &&& options->Ok_0 is Table
                    &&& input_is(
                        final(inputs).specs@.last().1,
                        order,
                        kind@,
                        options->Ok_0->Table_0@,
                        location.trace,
                    )
                }
            }
        }),
{
    if modules.active_module().is_some() {
        return Err(
            WombatError::Configuration(
                cat2(
                    "Wombat modules cannot declare project build inputs at ",
                    location.display().as_str(),
                ),
            ),
        );
    }
    if inputs.declared || modules.root_policy_started {
        return Err(
            WombatError::Configuration(
                cat2(
                    "input constructors must run before w.inputs(), use(), using(), or install() at ",
                    location.display().as_str(),
                ),
            ),
        );
    }
    let order: u64 = inputs.next;
    if order == u64::MAX {
        return Err(WombatError::configuration("too many project input declarations"));
    }
    inputs.next = order + 1;
    let value = options?;
    let spec = InputSpec::parse(order, kind, &value, location.trace)?;
    let ghost before = inputs.specs@;
    inputs.specs.push((order, spec));
    assert(inputs.specs@.drop_last() =~= before);
    Ok(order)
}

/// What is wrong with an entry of a schema.
pub open spec fn pair_problem(pair: (LuaValue, LuaValue)) -> Option<Problem> {
    if !(pair.0 is Text || pair.0 is Undecodable) {
        Some(Problem::Configuration("w.inputs() schema keys must be strings"@))
    } else if !(pair.1 is Integer) {
        Some(
            Problem::Configuration("w.inputs() values must be created by w.input constructors"@),
        )
    } else if pair.0 is Undecodable {
        Some(Problem::Lua(pair.0->Undecodable_0@))
    } else if pair.1->Integer_0 < 0 {
        Some(Problem::Configuration("invalid Wombat input descriptor"@))
    } else {
        None
    }
}

/// What is wrong with the entries of a schema: the problem of the first wrong one.
pub open spec fn pairs_problem(pairs: Seq<(LuaValue, LuaValue)>) -> Option<Problem>
    decreases pairs.len(),
{
    if pairs.len() == 0 {
        None
    } else {
        either(pairs_problem(pairs.drop_last()), pair_problem(pairs.last()))
    }
}

proof fn lemma_pairs_front(pairs: Seq<(LuaValue, LuaValue)>, count: int)
    requires
        0 <= count <= pairs.len(),
        pairs_problem(pairs.take(count)) is Some,
    ensures
        pairs_problem(pairs) == pairs_problem(pairs.take(count)),
    decreases pairs.len() - count,
{
    if count < pairs.len() {
        assert(pairs.take(count + 1).drop_last() =~= pairs.take(count));
        lemma_pairs_front(pairs, count + 1);
    } else {
        assert(pairs.take(count) =~= pairs);
    }
}

/// Whether an entry is that of the schema.
pub open spec fn entry_is(entry: (String, u64), pair: (LuaValue, LuaValue)) -> bool {
    &&& pair.0 matches LuaValue::Text(name) && entry.0@ == name@
    &&& pair.1 matches LuaValue::Integer(descriptor) && entry.1 == descriptor
}

/// Whether the entries are those of the schema.
pub open spec fn entries_are(
    entries: Seq<(String, u64)>,
    pairs: Seq<(LuaValue, LuaValue)>,
) -> bool {
    &&& entries.len() == pairs.len()
    &&& forall|i: int| 0 <= i < entries.len() ==> entry_is(#[trigger] entries[i], pairs[i])
}

/// Reads the entries of a schema: a name for each declared input.
pub fn read_schema(pairs: &Vec<(LuaValue, LuaValue)>) -> (r: Result<Vec<(String, u64)>>)
    ensures
        settles(r, pairs_problem(pairs@)),
        r matches Ok(entries) ==> entries_are(entries@, pairs@),
{
    let mut entries: Vec<(String, u64)> = Vec::new();
    let mut i: usize = 0;
    assert(pairs@.take(0) =~= Seq::empty());
    while i < pairs.len()
        invariant
            0 <= i <= pairs@.len(),
            entries@.len() == i,
            entries_are(entries@, pairs@.take(i as int)),
            pairs_problem(pairs@.take(i as int)) is None,
        decreases pairs@.len() - i,
    {
        proof {
            assert(pairs@.take(i + 1).drop_last() =~= pairs@.take(i as int));
            assert(pairs@.take(i + 1).last() == pairs@[i as int]);
            if pairs_problem(pairs@.take(i + 1)) is Some {
                lemma_pairs_front(pairs@, i + 1);
            }
        }
        let ghost earlier = entries@;
        let is_name = match &pairs[i].0 {
            LuaValue::Text(_) => true,
            LuaValue::Undecodable(_) => true,
            _ => false,
        };
        if !is_name {
            return Err(WombatError::configuration("w.inputs() schema keys must be strings"));
        }
        let descriptor = match &pairs[i].1 {
            LuaValue::Integer(descriptor) => *descriptor,
            _ => {
                return Err(
                    WombatError::configuration(
                        "w.inputs() values must be created by w.input constructors",
                    ),
                );
            },
        };
        match &pairs[i].0 {
            LuaValue::Text(name) => {
                if descriptor < 0 {
                    return Err(WombatError::configuration("invalid Wombat input descriptor"));
                }
                entries.push((name.clone(), descriptor as u64));
            },
            LuaValue::Undecodable(message) => {
                return Err(WombatError::Lua(message.clone()));
            },
            _ => {},
        }
        proof {
            let front = pairs@.take(i + 1);
            assert forall|k: int| 0 <= k < entries@.len() implies entry_is(
                #[trigger] entries@[k],
                front[k],
            ) by {
                if k < i {
                    assert(earlier[k] == entries@[k]);
                    assert(front[k] == pairs@.take(i as int)[k]);
                }
            }
        }
        i += 1;
    }
    assert(pairs@.take(i as int) =~= pairs@);
    Ok(entries)
}

/// What is wrong with declaring the schema here.
pub open spec fn schema_place_problem(
    modules: ModuleRegistry,
    inputs: InputRegistry,
    place: Seq<char>,
) -> Option<Seq<char>> {
    first(
        problem_if(
            modules.active() is Some,
            "w.inputs() belongs to root policy and cannot run in a module at "@ + place,
        ),
        first(
            problem_if(
                inputs.declared,
                "w.inputs() may be declared only once; repeated at "@ + place,
            ),
            problem_if(
                modules.root_policy_started,
                "w.inputs() must run before use(), using(), install(), or target-dependent policy at "@
                    + place,
            ),
        ),
    )
}

/// Resolves the inputs that root policy names, once, before the rest of it. The
/// arguments are those of the project, where they are text. The inputs are kept
/// even where help was asked for, which ends the evaluation.
pub fn resolve_inputs(
    modules: &ModuleRegistry,
    inputs: &mut InputRegistry,
    entries: &Vec<(String, u64)>,
    arguments: &Vec<Option<String>>,
    host: &TargetPlatform,
    location: &Location,
) -> (r: Result<ResolvedInputs>)
    ensures
        reports(
            r,
            first(
                schema_place_problem(*modules, *old(inputs), location.trace.text()),
                inputs_problem(entries@, old(inputs).specs@, arguments@),
            ),
        ),
        r is Err ==> *final(inputs) == *old(inputs),
        r matches Ok(resolved) ==> resolution(
            resolved,
            entries@,
            old(inputs).specs@,
            arguments@,
            host.compact_text(),
        ) && *final(inputs) == (InputRegistry { declared: true, ..*old(inputs) }),
{
    if modules.active_module().is_some() {
        return Err(
            WombatError::Configuration(
                cat2(
                    "w.inputs() belongs to root policy and cannot run in a module at ",
                    location.display().as_str(),
                ),
            ),
        );
    }
    if inputs.declared {
        return Err(
            WombatError::Configuration(
                cat2(
                    "w.inputs() may be declared only once; repeated at ",
                    location.display().as_str(),
                ),
            ),
        );
    }
    if modules.root_policy_started {
        return Err(
            WombatError::Configuration(
                cat2(
                    "w.inputs() must run before use(), using(), install(), or target-dependent policy at ",
                    location.display().as_str(),
                ),
            ),
        );
    }
    let resolved = resolve(entries, &inputs.specs, arguments, host)?;
    inputs.declared = true;
    Ok(resolved)
}

/// What evaluation goes on with once the inputs are resolved: their values, unless
/// help was asked for.
pub fn resolved_values(resolved: ResolvedInputs) -> (r: Result<Vec<(String, FrozenValue)>>)
    ensures
        match resolved.help {
            Some(_) => r is Err && r->Err_0 is ProjectHelpRequested,
            None => r is Ok && r->Ok_0 == resolved.values,
        },
{
    if resolved.help.is_some() {
        return Err(WombatError::ProjectHelpRequested);
    }
    Ok(resolved.values)
}

} // verus!
