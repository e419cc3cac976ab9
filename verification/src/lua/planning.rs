//! What the code of providers is handed, what it may load, and what all providers
//! plan together.
use vstd::prelude::*;
use vstd::string::*;

use crate::error::{first, is_configuration, problem_if, reports, Result, WombatError};
use crate::json::{object_tree, text_trees, JsonTree};
use crate::lua::requirements::{
    check_provider_plans, entries_of, helper_name, parse_provider_plan, plan_items, plan_problem,
    preparations_are, prerequisites_are, provider_plans_problem,
    validate_provider_module_name, ProviderPlan,
};
use crate::lua::resolution::{put_text, text_items};
use crate::model::frozen::{entry_trees, insert_entry, keys, with_entry, FrozenValue};
use crate::model::manifest::{
    ProviderBinding, ProviderPreparation, ProviderPrerequisite, Publications, Requirement,
    RequirementCandidate,
};
use crate::text::{cat3, cat5, cat6, replace_char, replaced, same};

verus! {

/// What configuration code sees of publications.
pub open spec fn published_tree(publications: Publications) -> JsonTree {
    object_tree(
        with_entry(
            Seq::empty(),
            "commands"@,
            JsonTree::Array(text_trees(publications.commands@)),
        ),
    )
}

fn frozen_publications(publications: &Publications) -> (r: FrozenValue)
    requires
        publications.commands@.len() <= i64::MAX,
    ensures
        r.tree() == published_tree(*publications),
        r.ordered(),
{
    let mut entries: Vec<(String, FrozenValue)> = Vec::new();
    assert(keys(entries@) =~= Seq::empty());
    assert(entry_trees(entries@) =~= Seq::empty());
    insert_entry(&mut entries, "commands".to_owned(), text_items(&publications.commands));
    FrozenValue::Table(entries)
}

/// The entries of a binding as the code of its provider sees it.
pub open spec fn binding_entries(binding: ProviderBinding) -> Seq<(Seq<char>, JsonTree)> {
    let e = Seq::<(Seq<char>, JsonTree)>::empty();
    let e = with_entry(e, "provider"@, JsonTree::Text(binding.provider@));
    let e = with_entry(e, "identity"@, JsonTree::Text(binding.identity@));
    let e = with_entry(e, "elevated"@, JsonTree::Bool(binding.elevated));
    let e = match binding.package {
        Some(package) => with_entry(e, "package"@, JsonTree::Text(package@)),
        None => e,
    };
    let e = with_entry(e, "publications"@, published_tree(binding.publications));
    let e = with_entry(
        e,
        "prerequisites"@,
        JsonTree::Array(text_trees(binding.prerequisites@)),
    );
    with_entry(e, "data"@, binding.data.tree())
}

/// A binding as the code of its provider sees it.
pub fn frozen_binding(binding: &ProviderBinding) -> (r: FrozenValue)
    requires
        binding.data.ordered(),
        binding.publications.commands@.len() <= i64::MAX,
        binding.prerequisites@.len() <= i64::MAX,
    ensures
        r.tree() == object_tree(binding_entries(*binding)),
        r.ordered(),
{
    let mut entries: Vec<(String, FrozenValue)> = Vec::new();
    assert(keys(entries@) =~= Seq::empty());
    assert(entry_trees(entries@) =~= Seq::empty());
    put_text(&mut entries, "provider", binding.provider.as_str());
    put_text(&mut entries, "identity", binding.identity.as_str());
    insert_entry(&mut entries, "elevated".to_owned(), FrozenValue::Boolean(binding.elevated));
    if let Some(package) = &binding.package {
        put_text(&mut entries, "package", package.as_str());
    }
    let published = frozen_publications(&binding.publications);
    insert_entry(&mut entries, "publications".to_owned(), published);
    insert_entry(&mut entries, "prerequisites".to_owned(), text_items(&binding.prerequisites));
    insert_entry(&mut entries, "data".to_owned(), binding.data.copy());
    FrozenValue::Table(entries)
}

/// The entries of a candidate as the code of a provider sees it.
pub open spec fn candidate_entries(candidate: RequirementCandidate) -> Seq<(Seq<char>, JsonTree)> {
    let e = Seq::<(Seq<char>, JsonTree)>::empty();
    match candidate {
        RequirementCandidate::Command { name, minimum } => {
            let e = with_entry(e, "kind"@, JsonTree::Text("command"@));
            let e = with_entry(e, "name"@, JsonTree::Text(name@));
            match minimum {
                Some(minimum) => with_entry(e, "minimum"@, JsonTree::Text(minimum@)),
                None => e,
            }
        },
        RequirementCandidate::Package { name, provider, minimum, publications, with } => {
            let e = with_entry(e, "kind"@, JsonTree::Text("package"@));
            let e = with_entry(e, "name"@, JsonTree::Text(name@));
            let e = match provider {
                Some(provider) => with_entry(e, "provider"@, JsonTree::Text(provider@)),
                None => e,
            };
            let e = match minimum {
                Some(minimum) => with_entry(e, "minimum"@, JsonTree::Text(minimum@)),
                None => e,
            };
            let e = with_entry(e, "publications"@, published_tree(publications));
            with_entry(e, "with"@, with.tree())
        },
    }
}

/// Whether the options of a candidate are in order.
pub open spec fn candidate_ordered(candidate: RequirementCandidate) -> bool {
    match candidate {
        RequirementCandidate::Command { name, minimum } => true,
        RequirementCandidate::Package { name, provider, minimum, publications, with } => {
            with.ordered() && publications.commands@.len() <= i64::MAX
        },
    }
}

/// A candidate as the code of a provider sees it.
pub fn frozen_candidate(candidate: &RequirementCandidate) -> (r: FrozenValue)
    requires
        candidate_ordered(*candidate),
    ensures
        r.tree() == object_tree(candidate_entries(*candidate)),
        r.ordered(),
{
    let mut entries: Vec<(String, FrozenValue)> = Vec::new();
    assert(keys(entries@) =~= Seq::empty());
    assert(entry_trees(entries@) =~= Seq::empty());
    match candidate {
        RequirementCandidate::Command { name, minimum } => {
            put_text(&mut entries, "kind", "command");
            put_text(&mut entries, "name", name.as_str());
            if let Some(minimum) = minimum {
                put_text(&mut entries, "minimum", minimum.as_str());
            }
        },
        RequirementCandidate::Package { name, provider, minimum, publications, with } => {
            put_text(&mut entries, "kind", "package");
            put_text(&mut entries, "name", name.as_str());
            if let Some(provider) = provider {
                put_text(&mut entries, "provider", provider.as_str());
            }
            if let Some(minimum) = minimum {
                put_text(&mut entries, "minimum", minimum.as_str());
            }
            let published = frozen_publications(publications);
            insert_entry(&mut entries, "publications".to_owned(), published);
            insert_entry(&mut entries, "with".to_owned(), with.copy());
        },
    }
    FrozenValue::Table(entries)
}

/// The entries of a preparation as the code of its provider sees it.
pub open spec fn preparation_entries(preparation: ProviderPreparation) -> Seq<
    (Seq<char>, JsonTree),
> {
    let e = Seq::<(Seq<char>, JsonTree)>::empty();
    let e = with_entry(e, "provider"@, JsonTree::Text(preparation.provider@));
    let e = with_entry(e, "identity"@, JsonTree::Text(preparation.identity@));
    let e = with_entry(e, "description"@, JsonTree::Text(preparation.description@));
    let e = with_entry(e, "elevated"@, JsonTree::Bool(preparation.elevated));
    with_entry(e, "data"@, preparation.data.tree())
}

/// A preparation as the code of its provider sees it.
pub fn frozen_preparation(preparation: &ProviderPreparation) -> (r: FrozenValue)
    requires
        preparation.data.ordered(),
    ensures
        r.tree() == object_tree(preparation_entries(*preparation)),
        r.ordered(),
{
    let mut entries: Vec<(String, FrozenValue)> = Vec::new();
    assert(keys(entries@) =~= Seq::empty());
    assert(entry_trees(entries@) =~= Seq::empty());
    put_text(&mut entries, "provider", preparation.provider.as_str());
    put_text(&mut entries, "identity", preparation.identity.as_str());
    put_text(&mut entries, "description", preparation.description.as_str());
    insert_entry(&mut entries, "elevated".to_owned(), FrozenValue::Boolean(preparation.elevated));
    insert_entry(&mut entries, "data".to_owned(), preparation.data.copy());
    FrozenValue::Table(entries)
}

/// What is said of a failure of a provider's code.
pub open spec fn provider_failure(
    provider: Seq<char>,
    phase: Seq<char>,
    error: Seq<char>,
) -> Seq<char> {
    "provider `"@ + provider + "` "@ + phase + " failed: "@ + error
}

/// A failure of a provider's code.
pub fn provider_lua_error(provider: &str, phase: &str, error: &str) -> (r: WombatError)
    ensures
        is_configuration(r, provider_failure(provider@, phase@, error@)),
{
    WombatError::Configuration(
        cat6("provider `", provider, "` ", phase, " failed: ", error),
    )
}

/// What the code of a provider loads.
#[derive(Debug, PartialEq)]
pub enum ProviderModule {
    /// The functions that every provider has
    Api,
    /// The file of a helper module, from the root of the repository
    File(String),
}

/// Finds what a built-in provider loads: the functions that every provider has, and
/// nothing else.
pub fn require_builtin(name: &str) -> (r: Result<ProviderModule>)
    ensures
        reports(
            r,
            problem_if(
                name@ != "wombat.provider"@,
                "built-in provider cannot require `"@ + name@ + "`"@,
            ),
        ),
        r matches Ok(module) ==> module == ProviderModule::Api,
{
    if !same(name, "wombat.provider") {
        return Err(
            WombatError::Configuration(
                cat3("built-in provider cannot require `", name, "`"),
            ),
        );
    }
    Ok(ProviderModule::Api)
}

/// The files that a helper module of a provider may stand in, the first first.
pub open spec fn module_candidates(provider: Seq<char>, module: Seq<char>) -> (
    Seq<char>,
    Seq<char>,
) {
    let stem = "providers/"@ + provider + "/"@ + replaced(module, '.', "/"@);
    (stem + ".lua"@, stem + "/init.lua"@)
}

/// The files that a helper module of a provider may stand in, the first first.
pub fn provider_module_candidates(provider: &str, module: &str) -> (r: (String, String))
    ensures
        (r.0@, r.1@) == module_candidates(provider@, module@),
{
    let relative = replace_char(module, '.', "/");
    (
        cat5("providers/", provider, "/", relative.as_str(), ".lua"),
        cat5("providers/", provider, "/", relative.as_str(), "/init.lua"),
    )
}

/// What is wrong with a module that the code of a custom provider loads.
pub open spec fn required_module_problem(
    provider: Seq<char>,
    module: Seq<char>,
    direct: bool,
    initial: bool,
) -> Option<Seq<char>> {
    if module == "wombat.provider"@ {
        None
    } else {
        first(
            problem_if(
                !helper_name(module),
                "invalid provider helper module `"@ + module + "`"@,
            ),
            problem_if(
                !direct && !initial,
                "provider `"@ + provider + "` cannot find helper module `"@ + module + "`"@,
            ),
        )
    }
}

/// Finds what the code of a custom provider loads. `direct` and `initial` tell which of
/// its candidate files are there.
pub fn require_custom(provider: &str, module: &str, direct: bool, initial: bool) -> (r: Result<
    ProviderModule,
>)
    ensures
        reports(r, required_module_problem(provider@, module@, direct, initial)),
        r matches Ok(found) ==> match found {
            ProviderModule::Api => module@ == "wombat.provider"@,
            ProviderModule::File(path) => module@ != "wombat.provider"@ && path@ == (if direct {
                module_candidates(provider@, module@).0
            } else {
                module_candidates(provider@, module@).1
            }),
        },
{
    if same(module, "wombat.provider") {
        return Ok(ProviderModule::Api);
    }
    validate_provider_module_name(module)?;
    let (first, second) = provider_module_candidates(provider, module);
    if direct {
        Ok(ProviderModule::File(first))
    } else if initial {
        Ok(ProviderModule::File(second))
    } else {
        Err(
            WombatError::Configuration(
                cat5(
                    "provider `",
                    provider,
                    "` cannot find helper module `",
                    module,
                    "`",
                ),
            ),
        )
    }
}

/// A function that a custom provider must have.
pub open spec fn operation_name(index: int) -> Seq<char> {
    if index == 0 {
        "resolve"@
    } else if index == 1 {
        "check"@
    } else {
        "reconcile"@
    }
}

/// What is wrong with the function at this place.
pub open spec fn operation_problem(
    provider: Seq<char>,
    failure: Option<String>,
    index: int,
) -> Option<Seq<char>> {
    match failure {
        Some(error) => Some(
            provider_failure(
                provider,
                "definition requires "@ + operation_name(index) + "()"@,
                error@,
            ),
        ),
        None => None,
    }
}

/// What is wrong with the definition of a custom provider.
pub open spec fn definition_problem(provider: Seq<char>, failures: Seq<Option<String>>) -> Option<
    Seq<char>,
> {
    first(
        operation_problem(provider, failures[0], 0),
        first(
            operation_problem(provider, failures[1], 1),
            operation_problem(provider, failures[2], 2),
        ),
    )
}

/// Accepts the definition of a custom provider. `failures` tells for resolve, check and
/// reconcile why it is no function, if it is none.
pub fn validate_custom_provider(provider: &str, failures: &[Option<String>; 3]) -> (r: Result<()>)
    ensures
        reports(r, definition_problem(provider@, failures@)),
{
    if let Some(error) = &failures[0] {
        let phase = "definition requires resolve()";
        proof {
            reveal_strlit("definition requires resolve()");
            reveal_strlit("definition requires ");
            reveal_strlit("resolve");
            reveal_strlit("()");
            assert(phase@ =~= "definition requires "@ + "resolve"@ + "()"@);
        }
        return Err(provider_lua_error(provider, phase, error.as_str()));
    }
    if let Some(error) = &failures[1] {
        let phase = "definition requires check()";
        proof {
            reveal_strlit("definition requires check()");
            reveal_strlit("definition requires ");
            reveal_strlit("check");
            reveal_strlit("()");
            assert(phase@ =~= "definition requires "@ + "check"@ + "()"@);
        }
        return Err(provider_lua_error(provider, phase, error.as_str()));
    }
    if let Some(error) = &failures[2] {
        let phase = "definition requires reconcile()";
        proof {
            reveal_strlit("definition requires reconcile()");
            reveal_strlit("definition requires ");
            reveal_strlit("reconcile");
            reveal_strlit("()");
            assert(phase@ =~= "definition requires "@ + "reconcile"@ + "()"@);
        }
        return Err(provider_lua_error(provider, phase, error.as_str()));
    }
    Ok(())
}

/// The bindings of a provider.
pub open spec fn bindings_of(requirements: Seq<Requirement>, provider: Seq<char>) -> Seq<
    ProviderBinding,
>
    decreases requirements.len(),
{
    if requirements.len() == 0 {
        Seq::empty()
    } else {
        let rest = bindings_of(requirements.drop_last(), provider);
        if requirements.last().binding.provider@ == provider {
            rest.push(requirements.last().binding)
        } else {
            rest
        }
    }
}

/// Whether a binding can be handed to the code of its provider.
pub open spec fn binding_fits(binding: ProviderBinding) -> bool {
    &&& binding.data.ordered()
    &&& binding.publications.commands@.len() <= i64::MAX
    &&& binding.prerequisites@.len() <= i64::MAX
}

/// The serialised forms of bindings as the code of their provider sees them.
pub open spec fn binding_trees(bindings: Seq<ProviderBinding>) -> Seq<JsonTree> {
    bindings.map_values(|b: ProviderBinding| object_tree(binding_entries(b)))
}

/// The bindings of a provider, as its plan() is handed them.
pub fn provider_bindings(requirements: &Vec<Requirement>, provider: &str) -> (r: Vec<FrozenValue>)
    requires
        forall|i: int|
            0 <= i < requirements@.len() ==> binding_fits((#[trigger] requirements@[i]).binding),
    ensures
        r@.map_values(|v: FrozenValue| v.tree()) == binding_trees(
            bindings_of(requirements@, provider@),
        ),
{
    let mut found: Vec<FrozenValue> = Vec::new();
    let mut i: usize = 0;
    assert(requirements@.take(0) =~= Seq::empty());
    assert(found@.map_values(|v: FrozenValue| v.tree()) =~= binding_trees(Seq::empty()));
    while i < requirements.len()
        invariant
            0 <= i <= requirements@.len(),
            forall|i: int|
                0 <= i < requirements@.len() ==> binding_fits(
                    (#[trigger] requirements@[i]).binding,
                ),
            found@.map_values(|v: FrozenValue| v.tree()) == binding_trees(
                bindings_of(requirements@.take(i as int), provider@),
            ),
        decreases requirements@.len() - i,
    {
        assert(requirements@.take(i + 1).drop_last() =~= requirements@.take(i as int));
        if same(requirements[i].binding.provider.as_str(), provider) {
            let ghost held = found@;
            let ghost chosen = bindings_of(requirements@.take(i as int), provider@);
            let made = frozen_binding(&requirements[i].binding);
            found.push(made);
            assert(found@.map_values(|v: FrozenValue| v.tree()) =~= held.map_values(
                |v: FrozenValue| v.tree(),
            ).push(made.tree()));
            assert(binding_trees(chosen.push(requirements@[i as int].binding)) =~= binding_trees(
                chosen,
            ).push(object_tree(binding_entries(requirements@[i as int].binding))));
        }
        i += 1;
    }
    assert(requirements@.take(i as int) =~= requirements@);
    found
}

/// A provider whose code was loaded and asked for its plan.
#[derive(Debug, PartialEq)]
pub struct PlannedProvider {
    /// The provider
    pub name: String,
    /// Whether it is a custom one
    pub custom: bool,
    /// What its plan() returned, if it has one
    pub returned: Option<FrozenValue>,
    /// Why its check_prerequisite, its reconcile_prerequisite and its prepare is no
    /// function, if it is none
    pub failures: [Option<String>; 3],
}

/// What a provider plans.
pub open spec fn planned_items(provider: PlannedProvider) -> Seq<FrozenValue> {
    match provider.returned {
        Some(value) => plan_items(value),
        None => Seq::empty(),
    }
}

/// What is wrong with a function that a plan needs.
pub open spec fn callback_problem(
    needed: bool,
    provider: Seq<char>,
    failure: Option<String>,
    phase: Seq<char>,
) -> Option<Seq<char>> {
    match failure {
        Some(error) => problem_if(needed, provider_failure(provider, phase, error@)),
        None => None,
    }
}

/// What is wrong with the plan of one provider.
pub open spec fn planned_problem(provider: PlannedProvider) -> Option<Seq<char>> {
    match provider.returned {
        None => None,
        Some(value) => {
            let wanted = provider.custom && entries_of(plan_items(value), "prerequisite"@).len()
                > 0;
            let prepares = provider.custom && entries_of(plan_items(value), "operation"@).len() > 0;
            first(
                plan_problem(provider.name@, value),
                first(
                    callback_problem(
                        wanted,
                        provider.name@,
                        provider.failures@[0],
                        "planned prerequisites require check_prerequisite()"@,
                    ),
                    first(
                        callback_problem(
                            wanted,
                            provider.name@,
                            provider.failures@[1],
                            "planned prerequisites require reconcile_prerequisite()"@,
                        ),
                        callback_problem(
                            prepares,
                            provider.name@,
                            provider.failures@[2],
                            "planned operations require prepare()"@,
                        ),
                    ),
                ),
            )
        },
    }
}

/// Reads the plan of one provider.
pub fn plan_provider(provider: &PlannedProvider) -> (r: Result<ProviderPlan>)
    ensures
        reports(r, planned_problem(*provider)),
        r matches Ok(plan) ==> {
            &&& prerequisites_are(
                plan.prerequisites@,
                provider.name@,
                entries_of(planned_items(*provider), "prerequisite"@),
            )
            &&& preparations_are(
                plan.preparations@,
                provider.name@,
                entries_of(planned_items(*provider), "operation"@),
            )
        },
{
    let value = match &provider.returned {
        Some(value) => value,
        None => {
            return Ok(ProviderPlan { prerequisites: Vec::new(), preparations: Vec::new() });
        },
    };
    let name = provider.name.as_str();
    let plan = parse_provider_plan(name, value)?;
    if provider.custom && plan.prerequisites.len() > 0 {
        if let Some(error) = &provider.failures[0] {
            return Err(
                provider_lua_error(
                    name,
                    "planned prerequisites require check_prerequisite()",
                    error.as_str(),
                ),
            );
        }
        if let Some(error) = &provider.failures[1] {
            return Err(
                provider_lua_error(
                    name,
                    "planned prerequisites require reconcile_prerequisite()",
                    error.as_str(),
                ),
            );
        }
    }
    if provider.custom && plan.preparations.len() > 0 {
        if let Some(error) = &provider.failures[2] {
            return Err(
                provider_lua_error(name, "planned operations require prepare()", error.as_str()),
            );
        }
    }
    Ok(plan)
}

/// What is wrong with the first faulty plan.
pub open spec fn all_planned_problem(providers: Seq<PlannedProvider>) -> Option<Seq<char>>
    decreases providers.len(),
{
    if providers.len() == 0 {
        None
    } else {
        first(all_planned_problem(providers.drop_last()), planned_problem(providers.last()))
    }
}

proof fn lemma_planned_front(providers: Seq<PlannedProvider>, count: int)
    requires
        0 <= count <= providers.len(),
        all_planned_problem(providers.take(count)) is Some,
    ensures
        all_planned_problem(providers) == all_planned_problem(providers.take(count)),
    decreases providers.len() - count,
{
    if count < providers.len() {
        assert(providers.take(count + 1).drop_last() =~= providers.take(count));
        lemma_planned_front(providers, count + 1);
    } else {
        assert(providers.take(count) =~= providers);
    }
}

/// Whether a list holds the prerequisites of all providers, one provider after the other.
pub open spec fn gathered_prerequisites(
    made: Seq<ProviderPrerequisite>,
    providers: Seq<PlannedProvider>,
) -> bool
    decreases providers.len(),
{
    if providers.len() == 0 {
        made.len() == 0
    } else {
        let planned = entries_of(planned_items(providers.last()), "prerequisite"@);
        let start = made.len() - planned.len();
        &&& start >= 0
        &&& gathered_prerequisites(made.take(start), providers.drop_last())
        &&& prerequisites_are(made.skip(start), providers.last().name@, planned)
    }
}

/// Whether a list holds the preparations of all providers, one provider after the other.
pub open spec fn gathered_preparations(
    made: Seq<ProviderPreparation>,
    providers: Seq<PlannedProvider>,
) -> bool
    decreases providers.len(),
{
    if providers.len() == 0 {
        made.len() == 0
    } else {
        let planned = entries_of(planned_items(providers.last()), "operation"@);
        let start = made.len() - planned.len();
        &&& start >= 0
        &&& gathered_preparations(made.take(start), providers.drop_last())
        &&& preparations_are(made.skip(start), providers.last().name@, planned)
    }
}

/// Reads the plans of all providers, and holds them against what the requirements are
/// bound to.
pub fn plan_provider_actions(
    requirements: &Vec<Requirement>,
    providers: &Vec<PlannedProvider>,
) -> (r: Result<ProviderPlan>)
    ensures
        all_planned_problem(providers@) is Some ==> reports(r, all_planned_problem(providers@)),
        all_planned_problem(providers@) is None ==> exists|plan: ProviderPlan|
            {
                &&& #[trigger] gathered_prerequisites(plan.prerequisites@, providers@)
                &&& gathered_preparations(plan.preparations@, providers@)
                &&& reports(
                    r,
                    provider_plans_problem(
                        requirements@,
                        plan.prerequisites@,
                        plan.preparations@,
                    ),
                )
                &&& r is Ok ==> r->Ok_0 == plan
            },
{
    let mut prerequisites: Vec<ProviderPrerequisite> = Vec::new();
    let mut preparations: Vec<ProviderPreparation> = Vec::new();
    let mut i: usize = 0;
    assert(providers@.take(0) =~= Seq::empty());
    while i < providers.len()
        invariant
            0 <= i <= providers@.len(),
            all_planned_problem(providers@.take(i as int)) is None,
            gathered_prerequisites(prerequisites@, providers@.take(i as int)),
            gathered_preparations(preparations@, providers@.take(i as int)),
        decreases providers@.len() - i,
    {
        let ghost next = providers@.take(i + 1);
        proof {
            assert(next.drop_last() =~= providers@.take(i as int));
            assert(next.last() == providers@[i as int]);
            if all_planned_problem(next) is Some {
                lemma_planned_front(providers@, i + 1);
            }
        }
        let mut plan = plan_provider(&providers[i])?;
        let ghost added = plan;
        let ghost first_before = prerequisites@;
        let ghost second_before = preparations@;
        prerequisites.append(&mut plan.prerequisites);
        preparations.append(&mut plan.preparations);
        proof {
            let one = prerequisites@.len() - added.prerequisites@.len();
            let two = preparations@.len() - added.preparations@.len();
            assert(prerequisites@.take(one) =~= first_before);
            assert(prerequisites@.skip(one) =~= added.prerequisites@);
            assert(preparations@.take(two) =~= second_before);
            assert(preparations@.skip(two) =~= added.preparations@);
        }
        i += 1;
    }
    assert(providers@.take(i as int) =~= providers@);
    let plan = ProviderPlan { prerequisites, preparations };
    assert(gathered_prerequisites(plan.prerequisites@, providers@));
    check_provider_plans(requirements, &plan.prerequisites, &plan.preparations)?;
    Ok(plan)
}

} // verus!
