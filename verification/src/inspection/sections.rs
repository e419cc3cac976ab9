//! The sections of a product and of a plan.
use vstd::prelude::*;
use vstd::string::*;

use crate::inspection::items::{
    all_chosen_exist, artifact_items, context_observation_items, dependency_items, input_items,
    list_artifacts, list_context_observations, list_dependencies, list_inputs, list_modules,
    list_planned_artifacts, list_planned_tasks, list_preparations, list_process_observations,
    list_providers, list_requirements, list_rungs, list_scripts, list_selections, list_sources,
    list_target_observations, list_tasks, module_items, planned_artifact_items, planned_task_items,
    preparation_items, process_observation_items, provider_items, requirement_items, rung_items,
    script_items, selection_items, source_items, target_observation_items, task_items,
};
use crate::json::{indented, indented_text};
use crate::model::context::{platform_value, ResolvedTarget, TargetPlatform};
use crate::model::ladder::{ExecutionLadder, RungId};
use crate::model::manifest::{
    BuildPlan, Manifest, Observation, ProcessObservation, Provider, ProviderPreparation, Script,
};
use crate::number::{decimal, decimal_text};
use crate::text::{cat2, cat3, cat4, cat6, cat7, join, joined, lines, lines_of, same, views};

verus! {

/// A section of a product.
#[derive(Clone, Copy, Debug, PartialEq, Eq, Structural)]
pub enum InspectSection {
    /// What there is
    Overview,
    /// The inputs
    Inputs,
    /// The target
    Target,
    /// The modules
    Modules,
    /// The dependencies
    Dependencies,
    /// The providers
    Providers,
    /// The requirements
    Requirements,
    /// The ladder
    Ladder,
    /// The scripts
    Scripts,
    /// The tasks
    Tasks,
    /// The artifacts
    Artifacts,
    /// The sources
    Sources,
    /// The observations
    Observations,
}

/// A section of a plan.
#[derive(Clone, Copy, Debug, PartialEq, Eq, Structural)]
pub enum PlanInspectSection {
    /// What there is
    Overview,
    /// The providers
    Providers,
    /// The requirements
    Requirements,
    /// The ladder
    Ladder,
    /// The scripts
    Scripts,
    /// The tasks
    Tasks,
    /// The artifacts
    Artifacts,
    /// The sources
    Sources,
    /// The observations
    Observations,
}

/// Lines of an item, the first set in by two spaces and the others by four.
pub open spec fn set_in(item: Seq<Seq<char>>) -> Seq<char>
    decreases item.len(),
{
    if item.len() == 0 {
        Seq::empty()
    } else {
        set_in(item.drop_last()) + (if item.len() == 1 {
            "  "@
        } else {
            "    "@
        }) + item.last() + "\n"@
    }
}

/// Items below each other.
pub open spec fn stacked(items: Seq<Seq<char>>) -> Seq<char>
    decreases items.len(),
{
    if items.len() == 0 {
        Seq::empty()
    } else {
        stacked(items.drop_last()) + set_in(lines(items.last()))
    }
}

/// A list under its title.
pub open spec fn listed(title: Seq<char>, items: Seq<Seq<char>>) -> Seq<char> {
    if items.len() == 0 {
        title + "\n  none\n"@
    } else {
        title + "\n"@ + stacked(items)
    }
}

fn render_item(item: &str) -> (r: String)
    ensures
        r@ == set_in(lines(item@)),
{
    let all = lines_of(item);
    let ghost wanted = lines(item@);
    assert(all@.len() == views(all@).len());
    let mut r = String::new();
    let mut i: usize = 0;
    assert(wanted.take(0) =~= Seq::empty());
    while i < all.len()
        invariant
            0 <= i <= all@.len(),
            views(all@) == wanted,
            all@.len() == wanted.len(),
            r@ == set_in(wanted.take(i as int)),
        decreases all@.len() - i,
    {
        assert(views(all@)[i as int] == all@[i as int]@);
        assert(wanted.take(i + 1).drop_last() =~= wanted.take(i as int));
        assert(wanted.take(i + 1).last() == wanted[i as int]);
        let margin = if i == 0 {
            "  "
        } else {
            "    "
        };
        r = cat4(r.as_str(), margin, all[i].as_str(), "\n");
        i += 1;
    }
    assert(wanted.take(i as int) =~= wanted);
    r
}

/// Writes a list under its title.
pub fn render_list(title: &str, items: &Vec<String>) -> (r: String)
    ensures
        r@ == listed(title@, views(items@)),
{
    assert(items@.len() == views(items@).len());
    if items.len() == 0 {
        return cat2(title, "\n  none\n");
    }
    let ghost all = views(items@);
    let mut r = String::new();
    let mut i: usize = 0;
    assert(all.take(0) =~= Seq::empty());
    while i < items.len()
        invariant
            0 <= i <= items@.len(),
            all == views(items@),
            r@ == stacked(all.take(i as int)),
        decreases items@.len() - i,
    {
        assert(all[i as int] == items@[i as int]@);
        assert(all.take(i + 1).drop_last() =~= all.take(i as int));
        assert(all.take(i + 1).last() == all[i as int]);
        r = cat2(r.as_str(), render_item(items[i].as_str()).as_str());
        i += 1;
    }
    assert(all.take(i as int) =~= all);
    cat3(title, "\n", r.as_str())
}

/// Providers and what they do before their packages.
pub open spec fn providers_view(
    providers: Seq<Provider>,
    preparations: Seq<ProviderPreparation>,
) -> Seq<char> {
    listed("Providers"@, provider_items(providers)) + listed(
        "Preparations"@,
        preparation_items(preparations),
    )
}

fn render_providers(providers: &Vec<Provider>, preparations: &Vec<ProviderPreparation>) -> (r: String)
    ensures
        r@ == providers_view(providers@, preparations@),
{
    cat2(
        render_list("Providers", &list_providers(providers)).as_str(),
        render_list("Preparations", &list_preparations(preparations)).as_str(),
    )
}

/// Facts that were read and processes that were run.
pub open spec fn observations_view(
    context: Seq<Observation>,
    processes: Seq<ProcessObservation>,
) -> Seq<char> {
    listed("Context observations"@, context_observation_items(context)) + listed(
        "Process observations"@,
        process_observation_items(processes),
    )
}

fn render_observations(context: &Vec<Observation>, processes: &Vec<ProcessObservation>) -> (r: String)
    ensures
        r@ == observations_view(context@, processes@),
{
    cat2(
        render_list("Context observations", &list_context_observations(context)).as_str(),
        render_list("Process observations", &list_process_observations(processes)).as_str(),
    )
}

/// A ladder.
pub open spec fn ladder_view(ladder: ExecutionLadder) -> Seq<char> {
    listed("Ladder "@ + ladder.name@, rung_items(ladder.flattened@))
}

fn render_ladder(ladder: &ExecutionLadder) -> (r: String)
    ensures
        r@ == ladder_view(*ladder),
{
    render_list(cat2("Ladder ", ladder.name.as_str()).as_str(), &list_rungs(&ladder.flattened))
}

/// Scripts.
pub open spec fn scripts_view(scripts: Seq<Script>) -> Seq<char> {
    listed("Scripts"@, script_items(scripts))
}

fn render_scripts(scripts: &Vec<Script>) -> (r: String)
    ensures
        r@ == scripts_view(scripts@),
{
    render_list("Scripts", &list_scripts(scripts))
}

/// What an overview of a plan says.
pub open spec fn plan_overview(plan: BuildPlan) -> Seq<char> {
    "Build plan "@ + plan.plan_id@ + "\n  format: v"@ + decimal(plan.format_version as nat)
        + "\n  wombat: "@ + plan.wombat_version@ + "\n  target: "@
        + plan.target.platform.compact_text() + "\n  sources: "@ + decimal(plan.sources@.len())
        + "\n  modules: "@ + decimal(plan.modules@.len()) + "\n  providers: "@ + decimal(
        plan.providers@.len(),
    ) + "\n  requirements: "@ + decimal(plan.requirements@.len()) + "\n  tasks: "@ + decimal(
        plan.tasks@.len(),
    ) + "\n  artifact selections: "@ + decimal(plan.artifact_selections@.len())
        + "\n  declared artifacts: "@ + decimal(plan.artifacts@.len()) + "\n"@
}

fn render_plan_overview(plan: &BuildPlan) -> (r: String)
    ensures
        r@ == plan_overview(*plan),
{
    let head = cat7(
        "Build plan ",
        plan.plan_id.as_str(),
        "\n  format: v",
        decimal_text(plan.format_version as u64).as_str(),
        "\n  wombat: ",
        plan.wombat_version.as_str(),
        "\n  target: ",
    );
    let head = cat6(
        head.as_str(),
        plan.target.platform.compact().as_str(),
        "\n  sources: ",
        decimal_text(plan.sources.len() as u64).as_str(),
        "\n  modules: ",
        decimal_text(plan.modules.len() as u64).as_str(),
    );
    let head = cat7(
        head.as_str(),
        "\n  providers: ",
        decimal_text(plan.providers.len() as u64).as_str(),
        "\n  requirements: ",
        decimal_text(plan.requirements.len() as u64).as_str(),
        "\n  tasks: ",
        decimal_text(plan.tasks.len() as u64).as_str(),
    );
    cat6(
        head.as_str(),
        "\n  artifact selections: ",
        decimal_text(plan.artifact_selections.len() as u64).as_str(),
        "\n  declared artifacts: ",
        decimal_text(plan.artifacts.len() as u64).as_str(),
        "\n",
    )
}

/// What a section of a plan says.
pub open spec fn plan_section(plan: BuildPlan, section: PlanInspectSection) -> Seq<char> {
    match section {
        PlanInspectSection::Overview => plan_overview(plan),
        PlanInspectSection::Providers => providers_view(plan.providers@, plan.preparations@),
        PlanInspectSection::Requirements => listed(
            "Requirements"@,
            requirement_items(plan.requirements@),
        ),
        PlanInspectSection::Ladder => ladder_view(plan.ladder),
        PlanInspectSection::Scripts => scripts_view(plan.scripts@),
        PlanInspectSection::Tasks => listed("Tasks"@, planned_task_items(plan.tasks@)),
        PlanInspectSection::Artifacts => listed(
            "Artifact selections"@,
            selection_items(plan.artifact_selections@),
        ) + listed("Declared artifacts"@, planned_artifact_items(plan.artifacts@)),
        PlanInspectSection::Sources => listed("Sources"@, source_items(plan.sources@)),
        PlanInspectSection::Observations => observations_view(
            plan.observations@,
            plan.process_observations@,
        ),
    }
}

/// Writes a section of a plan.
pub fn inspect_plan(plan: &BuildPlan, section: PlanInspectSection) -> (r: String)
    requires
        section == PlanInspectSection::Requirements ==> all_chosen_exist(plan.requirements@),
    ensures
        r@ == plan_section(*plan, section),
{
    match section {
        PlanInspectSection::Overview => render_plan_overview(plan),
        PlanInspectSection::Providers => render_providers(&plan.providers, &plan.preparations),
        PlanInspectSection::Requirements => render_list(
            "Requirements",
            &list_requirements(&plan.requirements),
        ),
        PlanInspectSection::Ladder => render_ladder(&plan.ladder),
        PlanInspectSection::Scripts => render_scripts(&plan.scripts),
        PlanInspectSection::Tasks => render_list("Tasks", &list_planned_tasks(&plan.tasks)),
        PlanInspectSection::Artifacts => cat2(
            render_list(
                "Artifact selections",
                &list_selections(&plan.artifact_selections),
            ).as_str(),
            render_list("Declared artifacts", &list_planned_artifacts(&plan.artifacts)).as_str(),
        ),
        PlanInspectSection::Sources => render_list("Sources", &list_sources(&plan.sources)),
        PlanInspectSection::Observations => render_observations(
            &plan.observations,
            &plan.process_observations,
        ),
    }
}

/// What an overview of a product says.
pub open spec fn product_overview(manifest: Manifest) -> Seq<char> {
    "Build "@ + manifest.build_id@ + "\n  manifest: v"@ + decimal(manifest.format_version as nat)
        + "\n  plan: "@ + manifest.plan_id@ + "\n  wombat: "@ + manifest.wombat_version@
        + "\n  target: "@ + manifest.target.platform.compact_text() + "\n  sources: "@ + decimal(
        manifest.sources@.len(),
    ) + "\n  inputs: "@ + decimal(manifest.inputs@.len()) + "\n  modules: "@ + decimal(
        manifest.modules@.len(),
    ) + "\n  dependencies: "@ + decimal(manifest.dependencies@.len()) + "\n  providers: "@
        + decimal(manifest.providers@.len()) + "\n  preparations: "@ + decimal(
        manifest.preparations@.len(),
    ) + "\n  requirements: "@ + decimal(manifest.requirements@.len()) + "\n  tasks: "@ + decimal(
        manifest.tasks@.len(),
    ) + "\n  artifact selections: "@ + decimal(manifest.artifact_selections@.len())
        + "\n  artifacts: "@ + decimal(manifest.artifacts@.len()) + "\n"@
}

fn render_product_overview(manifest: &Manifest) -> (r: String)
    ensures
        r@ == product_overview(*manifest),
{
    let head = cat7(
        "Build ",
        manifest.build_id.as_str(),
        "\n  manifest: v",
        decimal_text(manifest.format_version as u64).as_str(),
        "\n  plan: ",
        manifest.plan_id.as_str(),
        "\n  wombat: ",
    );
    let head = cat6(
        head.as_str(),
        manifest.wombat_version.as_str(),
        "\n  target: ",
        manifest.target.platform.compact().as_str(),
        "\n  sources: ",
        decimal_text(manifest.sources.len() as u64).as_str(),
    );
    let head = cat7(
        head.as_str(),
        "\n  inputs: ",
        decimal_text(manifest.inputs.len() as u64).as_str(),
        "\n  modules: ",
        decimal_text(manifest.modules.len() as u64).as_str(),
        "\n  dependencies: ",
        decimal_text(manifest.dependencies.len() as u64).as_str(),
    );
    let head = cat7(
        head.as_str(),
        "\n  providers: ",
        decimal_text(manifest.providers.len() as u64).as_str(),
        "\n  preparations: ",
        decimal_text(manifest.preparations.len() as u64).as_str(),
        "\n  requirements: ",
        decimal_text(manifest.requirements.len() as u64).as_str(),
    );
    let head = cat7(
        head.as_str(),
        "\n  tasks: ",
        decimal_text(manifest.tasks.len() as u64).as_str(),
        "\n  artifact selections: ",
        decimal_text(manifest.artifact_selections.len() as u64).as_str(),
        "\n  artifacts: ",
        decimal_text(manifest.artifacts.len() as u64).as_str(),
    );
    cat2(head.as_str(), "\n")
}

/// Lines, each set in by two spaces.
pub open spec fn margined(all: Seq<Seq<char>>) -> Seq<Seq<char>> {
    Seq::new(all.len(), |i: int| "  "@ + all[i])
}

/// The indented JSON text of a platform, set in.
pub open spec fn platform_view(platform: TargetPlatform) -> Seq<char> {
    joined(margined(lines(indented(platform.tree()))), "\n"@)
}

fn render_platform(platform: &TargetPlatform) -> (r: String)
    ensures
        r@ == platform_view(*platform),
{
    let text = indented_text(&platform_value(platform));
    let all = lines_of(text.as_str());
    let ghost wanted = lines(text@);
    assert(all@.len() == views(all@).len());
    let mut r: Vec<String> = Vec::new();
    let mut i: usize = 0;
    while i < all.len()
        invariant
            0 <= i <= all@.len(),
            views(all@) == wanted,
            all@.len() == wanted.len(),
            r@.len() == i,
            forall|j: int| 0 <= j < i ==> (#[trigger] r@[j])@ == "  "@ + wanted[j],
        decreases all@.len() - i,
    {
        assert(views(all@)[i as int] == all@[i as int]@);
        r.push(cat2("  ", all[i].as_str()));
        i += 1;
    }
    assert(views(r@) =~= margined(wanted));
    join(&r, "\n")
}

/// What a target says.
pub open spec fn target_view(target: ResolvedTarget, observations: Seq<Observation>) -> Seq<char> {
    "Target\n"@ + platform_view(target.platform) + "\n  origin: "@ + target.origin.label()
        + "\n"@ + (match target.declared_at {
        Some(place) => "  declared at: "@ + place.text() + "\n"@,
        None => ""@,
    }) + listed("Observations"@, target_observation_items(observations))
}

fn render_target(target: &ResolvedTarget, observations: &Vec<Observation>) -> (r: String)
    ensures
        r@ == target_view(*target, observations@),
{
    let declared = match &target.declared_at {
        Some(place) => cat3("  declared at: ", place.display().as_str(), "\n"),
        None => "".to_string(),
    };
    cat7(
        "Target\n",
        render_platform(&target.platform).as_str(),
        "\n  origin: ",
        target.origin.label_name(),
        "\n",
        declared.as_str(),
        render_list("Observations", &list_target_observations(observations)).as_str(),
    )
}

/// What became of an action.
#[derive(Debug, PartialEq)]
pub struct JournalAction {
    /// Its identity
    pub identity: String,
    /// The rung it ran at
    pub rung: RungId,
    /// How it ended
    pub status: String,
    /// Why
    pub reason: String,
}

/// What became of the actions of a product.
#[derive(Debug, PartialEq)]
pub struct ExecutionJournal {
    /// The plan
    pub plan_id: String,
    /// The product, once there is one
    pub build_id: Option<String>,
    /// The actions
    pub actions: Vec<JournalAction>,
}

/// Whether a journal is that of a product.
pub open spec fn journal_of(journal: ExecutionJournal, manifest: Manifest) -> bool {
    &&& journal.plan_id@ == manifest.plan_id@
    &&& journal.build_id matches Some(id) && id@ == manifest.build_id@
}

/// Whether an action is one of the scripts.
pub open spec fn is_script(scripts: Seq<Script>, identity: Seq<char>) -> bool {
    exists|i: int| 0 <= i < scripts.len() && (#[trigger] scripts[i]).identity@ == identity
}

/// What an outcome says.
pub open spec fn outcome_text(action: JournalAction) -> Seq<char> {
    action.identity@ + "\n  rung: "@ + action.rung.name@ + "\n  status: "@ + action.status@
        + "\n  reason: "@ + action.reason@
}

/// The outcomes of the scripts among the actions.
pub open spec fn outcome_items(actions: Seq<JournalAction>, scripts: Seq<Script>) -> Seq<Seq<char>>
    decreases actions.len(),
{
    if actions.len() == 0 {
        Seq::empty()
    } else {
        let rest = outcome_items(actions.drop_last(), scripts);
        if is_script(scripts, actions.last().identity@) {
            rest.push(outcome_text(actions.last()))
        } else {
            rest
        }
    }
}

fn names_script(scripts: &Vec<Script>, identity: &str) -> (r: bool)
    ensures
        r == is_script(scripts@, identity@),
{
    let mut i: usize = 0;
    while i < scripts.len()
        invariant
            0 <= i <= scripts@.len(),
            forall|j: int| 0 <= j < i ==> (#[trigger] scripts@[j]).identity@ != identity@,
        decreases scripts@.len() - i,
    {
        if same(scripts[i].identity.as_str(), identity) {
            return true;
        }
        i += 1;
    }
    false
}

fn list_outcomes(actions: &Vec<JournalAction>, scripts: &Vec<Script>) -> (r: Vec<String>)
    ensures
        views(r@) == outcome_items(actions@, scripts@),
{
    let mut r: Vec<String> = Vec::new();
    let mut i: usize = 0;
    assert(actions@.take(0) =~= Seq::empty());
    assert(views(r@) =~= Seq::empty());
    while i < actions.len()
        invariant
            0 <= i <= actions@.len(),
            views(r@) == outcome_items(actions@.take(i as int), scripts@),
        decreases actions@.len() - i,
    {
        assert(actions@.take(i + 1).drop_last() =~= actions@.take(i as int));
        assert(actions@.take(i + 1).last() == actions@[i as int]);
        let action = &actions[i];
        if names_script(scripts, action.identity.as_str()) {
            let ghost sofar = r@;
            let text = cat7(
                action.identity.as_str(),
                "\n  rung: ",
                action.rung.name.as_str(),
                "\n  status: ",
                action.status.as_str(),
                "\n  reason: ",
                action.reason.as_str(),
            );
            let ghost line = text@;
            r.push(text);
            assert(views(r@) =~= views(sofar).push(line));
        }
        i += 1;
    }
    assert(actions@.take(i as int) =~= actions@);
    r
}

/// The scripts of a product and what became of them, where its journal is known.
pub open spec fn script_outcomes_view(
    manifest: Manifest,
    journal: Option<ExecutionJournal>,
) -> Seq<char> {
    scripts_view(manifest.scripts@) + match journal {
        Some(journal) => listed(
            "Materialisation outcomes"@,
            outcome_items(journal.actions@, manifest.scripts@),
        ),
        None => "Materialisation outcomes\n  unavailable (no matching execution journal)\n"@,
    }
}

/// What a section of a product says.
pub open spec fn product_section(
    manifest: Manifest,
    journal: Option<ExecutionJournal>,
    section: InspectSection,
) -> Seq<char> {
    match section {
        InspectSection::Overview => product_overview(manifest),
        InspectSection::Inputs => listed("Inputs"@, input_items(manifest.inputs@)),
        InspectSection::Target => target_view(manifest.target, manifest.observations@),
        InspectSection::Modules => listed("Modules"@, module_items(manifest.modules@)),
        InspectSection::Dependencies => listed(
            "Dependencies"@,
            dependency_items(manifest.dependencies@),
        ),
        InspectSection::Providers => providers_view(manifest.providers@, manifest.preparations@),
        InspectSection::Requirements => listed(
            "Requirements"@,
            requirement_items(manifest.requirements@),
        ),
        InspectSection::Ladder => ladder_view(manifest.ladder),
        InspectSection::Scripts => script_outcomes_view(manifest, journal),
        InspectSection::Tasks => listed("Tasks"@, task_items(manifest.tasks@)),
        InspectSection::Artifacts => listed(
            "Artifact selections"@,
            selection_items(manifest.artifact_selections@),
        ) + listed("Artifacts"@, artifact_items(manifest.artifacts@)),
        InspectSection::Sources => listed("Sources"@, source_items(manifest.sources@)),
        InspectSection::Observations => observations_view(
            manifest.observations@,
            manifest.process_observations@,
        ),
    }
}

/// Writes a section of a product.
pub fn render_section(
    manifest: &Manifest,
    journal: Option<&ExecutionJournal>,
    section: InspectSection,
) -> (r: String)
    requires
        section == InspectSection::Requirements ==> all_chosen_exist(manifest.requirements@),
    ensures
        r@ == product_section(
            *manifest,
            match journal {
                Some(journal) => Some(*journal),
                None => None,
            },
            section,
        ),
{
    match section {
        InspectSection::Overview => render_product_overview(manifest),
        InspectSection::Inputs => render_list("Inputs", &list_inputs(&manifest.inputs)),
        InspectSection::Target => render_target(&manifest.target, &manifest.observations),
        InspectSection::Modules => render_list("Modules", &list_modules(&manifest.modules)),
        InspectSection::Dependencies => render_list(
            "Dependencies",
            &list_dependencies(&manifest.dependencies),
        ),
        InspectSection::Providers => render_providers(&manifest.providers, &manifest.preparations),
        InspectSection::Requirements => render_list(
            "Requirements",
            &list_requirements(&manifest.requirements),
        ),
        InspectSection::Ladder => render_ladder(&manifest.ladder),
        InspectSection::Scripts => {
            let outcomes = match journal {
                Some(journal) => render_list(
                    "Materialisation outcomes",
                    &list_outcomes(&journal.actions, &manifest.scripts),
                ),
                None =>
                    "Materialisation outcomes\n  unavailable (no matching execution journal)\n".to_string(),
            };
            cat2(render_scripts(&manifest.scripts).as_str(), outcomes.as_str())
        },
        InspectSection::Tasks => render_list("Tasks", &list_tasks(&manifest.tasks)),
        InspectSection::Artifacts => cat2(
            render_list(
                "Artifact selections",
                &list_selections(&manifest.artifact_selections),
            ).as_str(),
            render_list("Artifacts", &list_artifacts(&manifest.artifacts)).as_str(),
        ),
        InspectSection::Sources => render_list("Sources", &list_sources(&manifest.sources)),
        InspectSection::Observations => render_observations(
            &manifest.observations,
            &manifest.process_observations,
        ),
    }
}

/// Writes a section of a product. The journal counts only where it is that of the
/// product.
pub fn inspect(manifest: &Manifest, journal: Option<&ExecutionJournal>, section: InspectSection) -> (r:
    String)
    requires
        section == InspectSection::Requirements ==> all_chosen_exist(manifest.requirements@),
    ensures
        r@ == product_section(
            *manifest,
            match journal {
                Some(journal) => if journal_of(*journal, *manifest) {
                    Some(*journal)
                } else {
                    None
                },
                None => None,
            },
            section,
        ),
{
    let own = match journal {
        Some(journal) => {
            let built = match &journal.build_id {
                Some(id) => same(id.as_str(), manifest.build_id.as_str()),
                None => false,
            };
            if built && same(journal.plan_id.as_str(), manifest.plan_id.as_str()) {
                Some(journal)
            } else {
                None
            }
        },
        None => None,
    };
    render_section(manifest, own, section)
}

} // verus!
