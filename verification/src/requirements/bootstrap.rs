//! Bringing a machine to where it meets the requirements of a product.
use vstd::prelude::*;
use vstd::string::*;

use crate::error::{is_configuration, problem_if, reports, Noted, Result, WombatError};
use crate::model::context::TargetPlatform;
use crate::model::manifest::{Manifest, ProviderPreparation};
use crate::number::{decimal, decimal_text};
use crate::order::{add_name, with_name};
use crate::presentation::means_yes;
use crate::requirements::check::{
    ensure_compatible_host, host_problem, CheckItem, CheckOutcome, CheckStatus,
};
use crate::text::{cat4, cat5, cat6, cat7, join, joined, push_text, same, trim, views};

verus! {

/// What bootstrapping did.
#[derive(Debug, PartialEq)]
pub struct BootstrapOutcome {
    /// The product
    pub build_id: String,
    /// What was done
    pub completed: Vec<String>,
    /// What was met before
    pub already_satisfied: Vec<String>,
}

impl BootstrapOutcome {
    /// What bootstrapping did, in words.
    pub fn display(&self) -> (r: String)
        ensures
            r@ == "bootstrap complete for "@ + self.build_id@ + " ("@ + decimal(
                self.completed@.len(),
            ) + " changed, "@ + decimal(self.already_satisfied@.len())
                + " already satisfied)\n"@,
    {
        cat7(
            "bootstrap complete for ",
            self.build_id.as_str(),
            " (",
            decimal_text(self.completed.len() as u64).as_str(),
            " changed, ",
            decimal_text(self.already_satisfied.len() as u64).as_str(),
            " already satisfied)\n",
        )
    }
}

/// The places of the requirements that are not met.
pub open spec fn pending_places(items: Seq<CheckItem>) -> Seq<int>
    decreases items.len(),
{
    if items.len() == 0 {
        Seq::empty()
    } else {
        let rest = pending_places(items.drop_last());
        if items.last().status != CheckStatus::Satisfied {
            rest.push(items.len() - 1)
        } else {
            rest
        }
    }
}

/// Every place of one that is not met is a place of the list.
pub proof fn lemma_pending_places(items: Seq<CheckItem>)
    ensures
        forall|k: int|
            0 <= k < pending_places(items).len() ==> 0 <= #[trigger] pending_places(items)[k]
                < items.len() && items[pending_places(items)[k]].status != CheckStatus::Satisfied,
    decreases items.len(),
{
    if items.len() > 0 {
        lemma_pending_places(items.drop_last());
        let rest = pending_places(items.drop_last());
        assert forall|k: int| 0 <= k < pending_places(items).len() implies 0
            <= #[trigger] pending_places(items)[k] < items.len()
            && items[pending_places(items)[k]].status != CheckStatus::Satisfied by {
            if k < rest.len() {
                assert(pending_places(items)[k] == rest[k]);
                assert(items.drop_last()[rest[k]] == items[rest[k]]);
            }
        }
    }
}

/// Places as numbers.
pub open spec fn places(list: Seq<usize>) -> Seq<int> {
    Seq::new(list.len(), |i: int| list[i] as int)
}

fn find_pending(items: &Vec<CheckItem>) -> (r: Vec<usize>)
    ensures
        places(r@) == pending_places(items@),
        forall|k: int| 0 <= k < r@.len() ==> (#[trigger] r@[k]) < items@.len(),
{
    let mut r: Vec<usize> = Vec::new();
    let mut i: usize = 0;
    assert(items@.take(0) =~= Seq::empty());
    assert(places(r@) =~= Seq::empty());
    while i < items.len()
        invariant
            0 <= i <= items@.len(),
            places(r@) == pending_places(items@.take(i as int)),
            forall|k: int| 0 <= k < r@.len() ==> (#[trigger] r@[k]) < items@.len(),
        decreases items@.len() - i,
    {
        assert(items@.take(i + 1).drop_last() =~= items@.take(i as int));
        assert(items@.take(i + 1).last() == items@[i as int]);
        if items[i].status != CheckStatus::Satisfied {
            let ghost sofar = r@;
            r.push(i);
            assert(places(r@) =~= places(sofar).push(i as int));
        }
        i += 1;
    }
    assert(items@.take(i as int) =~= items@);
    r
}

/// The requirements that are met.
pub open spec fn met_names(items: Seq<CheckItem>) -> Seq<Seq<char>>
    decreases items.len(),
{
    if items.len() == 0 {
        Seq::empty()
    } else {
        let rest = met_names(items.drop_last());
        if items.last().status == CheckStatus::Satisfied {
            rest.push(items.last().requirement@)
        } else {
            rest
        }
    }
}

fn find_met(items: &Vec<CheckItem>) -> (r: Vec<String>)
    ensures
        views(r@) == met_names(items@),
{
    let mut r: Vec<String> = Vec::new();
    let mut i: usize = 0;
    assert(items@.take(0) =~= Seq::empty());
    assert(views(r@) =~= Seq::empty());
    while i < items.len()
        invariant
            0 <= i <= items@.len(),
            views(r@) == met_names(items@.take(i as int)),
        decreases items@.len() - i,
    {
        assert(items@.take(i + 1).drop_last() =~= items@.take(i as int));
        assert(items@.take(i + 1).last() == items@[i as int]);
        if items[i].status == CheckStatus::Satisfied {
            push_text(&mut r, items[i].requirement.as_str());
        }
        i += 1;
    }
    assert(items@.take(i as int) =~= items@);
    r
}

/// Whether a requirement that is not met waits for a provider.
pub open spec fn waits_for(items: Seq<CheckItem>, provider: Seq<char>) -> bool {
    exists|i: int|
        0 <= i < items.len() && (#[trigger] items[i]).status != CheckStatus::Satisfied
            && items[i].provider@ == provider
}

fn is_awaited(items: &Vec<CheckItem>, provider: &str) -> (r: bool)
    ensures
        r == waits_for(items@, provider@),
{
    let mut i: usize = 0;
    while i < items.len()
        invariant
            0 <= i <= items@.len(),
            forall|j: int|
                0 <= j < i ==> !((#[trigger] items@[j]).status != CheckStatus::Satisfied
                    && items@[j].provider@ == provider@),
        decreases items@.len() - i,
    {
        if items[i].status != CheckStatus::Satisfied && same(items[i].provider.as_str(), provider) {
            assert(items@[i as int].provider@ == provider@);
            return true;
        }
        i += 1;
    }
    false
}

/// The places of the preparations that requirements wait for.
pub open spec fn needed_preparations(
    preparations: Seq<ProviderPreparation>,
    items: Seq<CheckItem>,
) -> Seq<int>
    decreases preparations.len(),
{
    if preparations.len() == 0 {
        Seq::empty()
    } else {
        let rest = needed_preparations(preparations.drop_last(), items);
        if waits_for(items, preparations.last().provider@) {
            rest.push(preparations.len() - 1)
        } else {
            rest
        }
    }
}

fn find_preparations(preparations: &Vec<ProviderPreparation>, items: &Vec<CheckItem>) -> (r: Vec<
    usize,
>)
    ensures
        places(r@) == needed_preparations(preparations@, items@),
        forall|k: int| 0 <= k < r@.len() ==> (#[trigger] r@[k]) < preparations@.len(),
{
    let mut r: Vec<usize> = Vec::new();
    let mut i: usize = 0;
    assert(preparations@.take(0) =~= Seq::empty());
    assert(places(r@) =~= Seq::empty());
    while i < preparations.len()
        invariant
            0 <= i <= preparations@.len(),
            places(r@) == needed_preparations(preparations@.take(i as int), items@),
            forall|k: int| 0 <= k < r@.len() ==> (#[trigger] r@[k]) < preparations@.len(),
        decreases preparations@.len() - i,
    {
        assert(preparations@.take(i + 1).drop_last() =~= preparations@.take(i as int));
        assert(preparations@.take(i + 1).last() == preparations@[i as int]);
        if is_awaited(items, preparations[i].provider.as_str()) {
            let ghost sofar = r@;
            r.push(i);
            assert(places(r@) =~= places(sofar).push(i as int));
        }
        i += 1;
    }
    assert(preparations@.take(i as int) =~= preparations@);
    r
}

/// The providers that requirements wait for, in their order.
pub open spec fn awaited_providers(items: Seq<CheckItem>) -> Seq<Seq<char>>
    decreases items.len(),
{
    if items.len() == 0 {
        Seq::empty()
    } else {
        let rest = awaited_providers(items.drop_last());
        if items.last().status != CheckStatus::Satisfied {
            with_name(rest, items.last().provider@)
        } else {
            rest
        }
    }
}

fn find_providers(items: &Vec<CheckItem>) -> (r: Vec<String>)
    ensures
        views(r@) == awaited_providers(items@),
{
    let mut r: Vec<String> = Vec::new();
    let mut i: usize = 0;
    assert(items@.take(0) =~= Seq::empty());
    assert(views(r@) =~= Seq::empty());
    while i < items.len()
        invariant
            0 <= i <= items@.len(),
            views(r@) == awaited_providers(items@.take(i as int)),
        decreases items@.len() - i,
    {
        assert(items@.take(i + 1).drop_last() =~= items@.take(i as int));
        assert(items@.take(i + 1).last() == items@[i as int]);
        if items[i].status != CheckStatus::Satisfied {
            add_name(&mut r, items[i].provider.as_str());
        }
        i += 1;
    }
    assert(items@.take(i as int) =~= items@);
    r
}

/// What is announced of the preparations of a provider.
pub open spec fn announced_preparations(
    preparations: Seq<ProviderPreparation>,
    provider: Seq<char>,
) -> Seq<char>
    decreases preparations.len(),
{
    if preparations.len() == 0 {
        Seq::empty()
    } else {
        let rest = announced_preparations(preparations.drop_last(), provider);
        let last = preparations.last();
        if last.provider@ == provider {
            rest + "    prepare "@ + last.description@ + (if last.elevated {
                " (elevated)"@
            } else {
                ""@
            }) + "\n"@
        } else {
            rest
        }
    }
}

fn announce_preparations(preparations: &Vec<ProviderPreparation>, provider: &str) -> (r: String)
    ensures
        r@ == announced_preparations(preparations@, provider@),
{
    let mut r = String::new();
    let mut i: usize = 0;
    assert(preparations@.take(0) =~= Seq::empty());
    while i < preparations.len()
        invariant
            0 <= i <= preparations@.len(),
            r@ == announced_preparations(preparations@.take(i as int), provider@),
        decreases preparations@.len() - i,
    {
        assert(preparations@.take(i + 1).drop_last() =~= preparations@.take(i as int));
        assert(preparations@.take(i + 1).last() == preparations@[i as int]);
        let operation = &preparations[i];
        if same(operation.provider.as_str(), provider) {
            let mark = if operation.elevated {
                " (elevated)"
            } else {
                ""
            };
            r = cat5(
                r.as_str(),
                "    prepare ",
                operation.description.as_str(),
                mark,
                "\n",
            );
        }
        i += 1;
    }
    assert(preparations@.take(i as int) =~= preparations@);
    r
}

/// What is announced of the requirements that wait for a provider.
pub open spec fn announced_items(items: Seq<CheckItem>, provider: Seq<char>) -> Seq<char>
    decreases items.len(),
{
    if items.len() == 0 {
        Seq::empty()
    } else {
        let rest = announced_items(items.drop_last(), provider);
        let last = items.last();
        if last.status != CheckStatus::Satisfied && last.provider@ == provider {
            rest + "    "@ + last.requirement@ + " ("@ + last.status.name() + ")\n"@
        } else {
            rest
        }
    }
}

fn announce_items(items: &Vec<CheckItem>, provider: &str) -> (r: String)
    ensures
        r@ == announced_items(items@, provider@),
{
    let mut r = String::new();
    let mut i: usize = 0;
    assert(items@.take(0) =~= Seq::empty());
    while i < items.len()
        invariant
            0 <= i <= items@.len(),
            r@ == announced_items(items@.take(i as int), provider@),
        decreases items@.len() - i,
    {
        assert(items@.take(i + 1).drop_last() =~= items@.take(i as int));
        assert(items@.take(i + 1).last() == items@[i as int]);
        let item = &items[i];
        if item.status != CheckStatus::Satisfied && same(item.provider.as_str(), provider) {
            r = cat6(
                r.as_str(),
                "    ",
                item.requirement.as_str(),
                " (",
                item.status.as_str(),
                ")\n",
            );
        }
        i += 1;
    }
    assert(items@.take(i as int) =~= items@);
    r
}

/// What is announced before anything is changed.
pub open spec fn announcement(
    providers: Seq<Seq<char>>,
    preparations: Seq<ProviderPreparation>,
    items: Seq<CheckItem>,
) -> Seq<char>
    decreases providers.len(),
{
    if providers.len() == 0 {
        "bootstrap will reconcile:\n"@
    } else {
        announcement(providers.drop_last(), preparations, items) + "  "@ + providers.last() + "\n"@
            + announced_preparations(preparations, providers.last()) + announced_items(
            items,
            providers.last(),
        )
    }
}

fn announce(preparations: &Vec<ProviderPreparation>, items: &Vec<CheckItem>) -> (r: String)
    ensures
        r@ == announcement(awaited_providers(items@), preparations@, items@),
{
    let providers = find_providers(items);
    let ghost all = awaited_providers(items@);
    assert(providers@.len() == views(providers@).len());
    let mut r = "bootstrap will reconcile:\n".to_string();
    let mut i: usize = 0;
    assert(all.take(0) =~= Seq::empty());
    while i < providers.len()
        invariant
            0 <= i <= providers@.len(),
            views(providers@) == all,
            providers@.len() == all.len(),
            r@ == announcement(all.take(i as int), preparations@, items@),
        decreases providers@.len() - i,
    {
        assert(views(providers@)[i as int] == providers@[i as int]@);
        assert(all.take(i + 1).drop_last() =~= all.take(i as int));
        assert(all.take(i + 1).last() == all[i as int]);
        let provider = providers[i].as_str();
        r = cat6(
            r.as_str(),
            "  ",
            provider,
            "\n",
            announce_preparations(preparations, provider).as_str(),
            announce_items(items, provider).as_str(),
        );
        i += 1;
    }
    assert(all.take(i as int) =~= all);
    r
}

/// What bootstrapping is about to do.
#[derive(Debug, PartialEq)]
pub struct BootstrapPlan {
    /// The places of the requirements that are not met
    pub pending: Vec<usize>,
    /// The places of the preparations that they wait for
    pub preparations: Vec<usize>,
    /// What is announced
    pub announcement: String,
    /// Whether it needs elevation
    pub elevated: bool,
}

/// Whether something that is needed asks for elevation: a preparation that says so,
/// or a package that Apt installs.
pub open spec fn needs_elevation(manifest: Manifest, items: Seq<CheckItem>) -> bool {
    ||| exists|k: int|
        0 <= k < needed_preparations(manifest.preparations@, items).len()
            && manifest.preparations@[#[trigger] needed_preparations(
            manifest.preparations@,
            items,
        )[k]].elevated
    ||| exists|k: int|
        0 <= k < pending_places(items).len()
            && manifest.requirements@[#[trigger] pending_places(items)[k]].binding.provider@
            == "apt"@
}

fn find_elevation(manifest: &Manifest, preparations: &Vec<usize>, pending: &Vec<usize>, Ghost(
    items,
): Ghost<Seq<CheckItem>>) -> (r: bool)
    requires
        places(preparations@) == needed_preparations(manifest.preparations@, items),
        places(pending@) == pending_places(items),
        forall|k: int|
            0 <= k < preparations@.len() ==> (#[trigger] preparations@[k])
                < manifest.preparations@.len(),
        forall|k: int|
            0 <= k < pending@.len() ==> (#[trigger] pending@[k]) < manifest.requirements@.len(),
    ensures
        r == needs_elevation(*manifest, items),
{
    let ghost a = needed_preparations(manifest.preparations@, items);
    let ghost b = pending_places(items);
    let mut i: usize = 0;
    while i < preparations.len()
        invariant
            0 <= i <= preparations@.len(),
            places(preparations@) == a,
            a == needed_preparations(manifest.preparations@, items),
            forall|k: int|
                0 <= k < preparations@.len() ==> (#[trigger] preparations@[k])
                    < manifest.preparations@.len(),
            forall|k: int| 0 <= k < i ==> !manifest.preparations@[#[trigger] a[k]].elevated,
        decreases preparations@.len() - i,
    {
        assert(places(preparations@)[i as int] == preparations@[i as int]);
        if manifest.preparations[preparations[i]].elevated {
            assert(manifest.preparations@[a[i as int]].elevated);
            return true;
        }
        i += 1;
    }
    assert(places(preparations@).len() == preparations@.len());
    let mut j: usize = 0;
    while j < pending.len()
        invariant
            0 <= j <= pending@.len(),
            places(pending@) == b,
            b == pending_places(items),
            a == needed_preparations(manifest.preparations@, items),
            forall|k: int| 0 <= k < a.len() ==> !manifest.preparations@[#[trigger] a[k]].elevated,
            forall|k: int|
                0 <= k < pending@.len() ==> (#[trigger] pending@[k]) < manifest.requirements@.len(),
            forall|k: int|
                0 <= k < j ==> manifest.requirements@[#[trigger] b[k]].binding.provider@ != "apt"@,
        decreases pending@.len() - j,
    {
        assert(places(pending@)[j as int] == pending@[j as int]);
        if same(manifest.requirements[pending[j]].binding.provider.as_str(), "apt") {
            assert(manifest.requirements@[b[j as int]].binding.provider@ == "apt"@);
            return true;
        }
        j += 1;
    }
    assert(places(pending@).len() == pending@.len());
    false
}

/// How bootstrapping begins.
#[derive(Debug, PartialEq)]
pub enum BootstrapStart {
    /// Everything is met
    Finished(BootstrapOutcome),
    /// Something is to be done
    Plan(BootstrapPlan),
}

/// Whether bootstrapping begins as it should.
pub open spec fn starts(r: Result<BootstrapStart>, manifest: Manifest, initial: CheckOutcome) -> bool {
    let items = initial.items@;
    let failure = exists|i: int|
        0 <= i < items.len() && (#[trigger] items[i]).status == CheckStatus::Unavailable;
    if failure {
        r is Err && is_configuration(r->Err_0, initial.text())
    } else if pending_places(items).len() == 0 {
        r matches Ok(BootstrapStart::Finished(outcome)) && outcome.build_id@ == manifest.build_id@
            && outcome.completed@.len() == 0 && views(outcome.already_satisfied@) == met_names(
            items,
        )
    } else {
        r matches Ok(BootstrapStart::Plan(plan)) && places(plan.pending@) == pending_places(items)
            && places(plan.preparations@) == needed_preparations(manifest.preparations@, items)
            && plan.announcement@ == announcement(
            awaited_providers(items),
            manifest.preparations@,
            items,
        ) && plan.elevated == needs_elevation(manifest, items)
    }
}

fn plan_bootstrap(manifest: &Manifest, initial: &CheckOutcome) -> (r: Result<BootstrapStart>)
    requires
        initial.items@.len() == manifest.requirements@.len(),
    ensures
        starts(r, *manifest, *initial),
{
    if initial.operational_failure() {
        return Err(WombatError::Configuration(initial.display()));
    }
    let pending = find_pending(&initial.items);
    assert(places(pending@).len() == pending@.len());
    if pending.len() == 0 {
        return Ok(
            BootstrapStart::Finished(
                BootstrapOutcome {
                    build_id: manifest.build_id.clone(),
                    completed: Vec::new(),
                    already_satisfied: find_met(&initial.items),
                },
            ),
        );
    }
    let preparations = find_preparations(&manifest.preparations, &initial.items);
    let elevated = find_elevation(manifest, &preparations, &pending, Ghost(initial.items@));
    Ok(
        BootstrapStart::Plan(
            BootstrapPlan {
                pending,
                preparations,
                announcement: announce(&manifest.preparations, &initial.items),
                elevated,
            },
        ),
    )
}

/// Begins to bring this machine, `host`, to where it meets the requirements of a
/// product. `initial` is what was found out about them.
pub fn bootstrap(manifest: &Manifest, host: &TargetPlatform, initial: Result<CheckOutcome>) -> (r:
    Result<BootstrapStart>)
    requires
        initial matches Ok(outcome) ==> outcome.items@.len() == manifest.requirements@.len(),
    ensures
        if host_problem(*manifest, *host) is Some {
            reports(r, host_problem(*manifest, *host))
        } else {
            match initial {
                Err(error) => r is Err && r->Err_0 == error,
                Ok(initial) => starts(r, *manifest, initial),
            }
        },
{
    ensure_compatible_host(manifest, host)?;
    let initial = initial?;
    plan_bootstrap(manifest, &initial)
}

/// What is wrong with a product: it is not the expected one.
pub open spec fn other_product(manifest: Manifest, expected: Seq<char>) -> Option<Seq<char>> {
    problem_if(
        manifest.build_id@ != expected,
        "bootstrap expected build `"@ + expected + "` but opened `"@ + manifest.build_id@
            + "`; refusing to mutate the host for a different product"@,
    )
}

/// Makes sure that a product is the expected one.
pub fn expect_build(manifest: &Manifest, expected: &str) -> (r: Result<()>)
    ensures
        reports(r, other_product(*manifest, expected@)),
{
    if !same(manifest.build_id.as_str(), expected) {
        return Err(
            WombatError::Configuration(
                cat5(
                    "bootstrap expected build `",
                    expected,
                    "` but opened `",
                    manifest.build_id.as_str(),
                    "`; refusing to mutate the host for a different product",
                ),
            ),
        );
    }
    Ok(())
}

/// Begins to bring this machine, `host`, to where it meets the requirements of the
/// expected product and no other.
pub fn bootstrap_exact(
    manifest: &Manifest,
    expected: &str,
    host: &TargetPlatform,
    initial: Result<CheckOutcome>,
) -> (r: Result<BootstrapStart>)
    requires
        initial matches Ok(outcome) ==> outcome.items@.len() == manifest.requirements@.len(),
    ensures
        if other_product(*manifest, expected@) is Some {
            reports(r, other_product(*manifest, expected@))
        } else if host_problem(*manifest, *host) is Some {
            reports(r, host_problem(*manifest, *host))
        } else {
            match initial {
                Err(error) => r is Err && r->Err_0 == error,
                Ok(initial) => starts(r, *manifest, initial),
            }
        },
{
    expect_build(manifest, expected)?;
    bootstrap(manifest, host, initial)
}

/// What may be done without asking, or why it may not be asked.
pub fn needs_answer(yes: bool, terminal: bool) -> (r: Result<bool>)
    ensures
        if !yes && !terminal {
            r is Err && is_configuration(
                r->Err_0,
                "bootstrap requires --yes when standard input is not a terminal"@,
            )
        } else {
            r is Ok && r->Ok_0 == !yes
        },
{
    if !yes && !terminal {
        return Err(
            WombatError::configuration(
                "bootstrap requires --yes when standard input is not a terminal",
            ),
        );
    }
    Ok(!yes)
}

/// Goes on only where the answer means yes.
pub fn accept_answer(answer: &str) -> (r: Result<()>)
    ensures
        reports(r, problem_if(!means_yes(answer@), "bootstrap cancelled"@)),
{
    let word = trim(answer);
    if same(word.as_str(), "y") || same(word.as_str(), "Y") || same(word.as_str(), "yes") || same(
        word.as_str(),
        "YES",
    ) {
        return Ok(());
    }
    Err(WombatError::configuration("bootstrap cancelled"))
}

/// Whether the work ends with an error and this note.
pub open spec fn interrupted(
    r: std::result::Result<BootstrapAction, Noted>,
    error: WombatError,
    note: Seq<char>,
) -> bool {
    &&& r is Err
    &&& r->Err_0.error == error
    &&& r->Err_0.note is Some
    &&& r->Err_0.note->0@ == note
}

/// What bootstrapping does next.
#[derive(Debug, PartialEq)]
pub enum BootstrapAction {
    /// Do a preparation, by its place in the plan
    Prepare(usize),
    /// Meet a requirement, by its place in the plan
    Reconcile(usize),
    /// Check a requirement again, by its place in the plan
    Recheck(usize),
    /// Nothing
    Finished(BootstrapOutcome),
}

/// What follows an action that succeeded; nothing follows the last.
pub open spec fn after_success(plan: BootstrapPlan, action: BootstrapAction) -> Option<
    BootstrapAction,
> {
    match action {
        BootstrapAction::Prepare(index) => Some(
            if index + 1 < plan.preparations@.len() {
                BootstrapAction::Prepare((index + 1) as usize)
            } else {
                BootstrapAction::Reconcile(0)
            },
        ),
        BootstrapAction::Reconcile(index) => Some(BootstrapAction::Recheck(index)),
        BootstrapAction::Recheck(index) => if index + 1 < plan.pending@.len() {
            Some(BootstrapAction::Reconcile((index + 1) as usize))
        } else {
            None
        },
        BootstrapAction::Finished(_) => None,
    }
}

/// Whether an action is one of a plan.
pub open spec fn of_plan(plan: BootstrapPlan, action: BootstrapAction) -> bool {
    match action {
        BootstrapAction::Prepare(index) => index < plan.preparations@.len(),
        BootstrapAction::Reconcile(index) => index < plan.pending@.len(),
        BootstrapAction::Recheck(index) => index < plan.pending@.len(),
        BootstrapAction::Finished(_) => true,
    }
}

/// How many actions are left, an action and what follows it.
pub open spec fn actions_left(plan: BootstrapPlan, action: BootstrapAction) -> int {
    match action {
        BootstrapAction::Prepare(index) => plan.preparations@.len() - index + 2
            * plan.pending@.len(),
        BootstrapAction::Reconcile(index) => 2 * (plan.pending@.len() - index),
        BootstrapAction::Recheck(index) => 2 * (plan.pending@.len() - index) - 1,
        BootstrapAction::Finished(_) => 0,
    }
}

/// Bootstrapping ends: what follows an action of a plan is an action of the plan, and
/// one fewer is left. The last action is that the last requirement is checked again.
pub proof fn law_bootstrapping_ends(plan: BootstrapPlan, action: BootstrapAction)
    requires
        plan.pending@.len() > 0,
        of_plan(plan, action),
        !(action is Finished),
    ensures
        match after_success(plan, action) {
            Some(next) => of_plan(plan, next) && actions_left(plan, next) + 1 == actions_left(
                plan,
                action,
            ),
            None => actions_left(plan, action) == 1 && action is Recheck,
        },
{
    assert(plan.preparations.len() == plan.preparations@.len());
    assert(plan.pending.len() == plan.pending@.len());
}

/// Whether a plan is one for a product and what was found out about it.
pub open spec fn plan_fits(plan: BootstrapPlan, manifest: Manifest, items: Seq<CheckItem>) -> bool {
    &&& forall|k: int|
        0 <= k < plan.preparations@.len() ==> (#[trigger] plan.preparations@[k])
            < manifest.preparations@.len()
    &&& forall|k: int| 0 <= k < plan.pending@.len() ==> (#[trigger] plan.pending@[k]) < items.len()
}

/// What a preparation is called.
pub open spec fn preparation_name(v: ProviderPreparation) -> Seq<char> {
    "prepare:"@ + v.provider@ + ":"@ + v.identity@
}

/// The preparations of a plan from one on.
pub open spec fn preparation_names(plan: BootstrapPlan, manifest: Manifest, from: int) -> Seq<
    Seq<char>,
> {
    Seq::new(
        (plan.preparations@.len() - from) as nat,
        |i: int| preparation_name(manifest.preparations@[plan.preparations@[from + i] as int]),
    )
}

/// The requirements of a plan from one on.
pub open spec fn pending_names(plan: BootstrapPlan, items: Seq<CheckItem>, from: int) -> Seq<
    Seq<char>,
> {
    Seq::new(
        (plan.pending@.len() - from) as nat,
        |i: int| items[plan.pending@[from + i] as int].requirement@,
    )
}

/// What was done, in words.
pub open spec fn done_text(completed: Seq<Seq<char>>) -> Seq<char> {
    if completed.len() == 0 {
        "none"@
    } else {
        joined(completed, ", "@)
    }
}

fn show_done(completed: &Vec<String>) -> (r: String)
    ensures
        r@ == done_text(views(completed@)),
{
    assert(completed@.len() == views(completed@).len());
    if completed.len() == 0 {
        return "none".to_string();
    }
    join(completed, ", ")
}

/// What is said of the work around an error.
pub open spec fn interruption(completed: Seq<Seq<char>>, remaining: Seq<Seq<char>>) -> Seq<char> {
    "completed: "@ + done_text(completed) + "; remaining: "@ + joined(remaining, ", "@)
        + "; no rollback was attempted"@
}

fn show_interruption(completed: &Vec<String>, remaining: &Vec<String>) -> (r: String)
    ensures
        r@ == interruption(views(completed@), views(remaining@)),
{
    cat5(
        "completed: ",
        show_done(completed).as_str(),
        "; remaining: ",
        join(remaining, ", ").as_str(),
        "; no rollback was attempted",
    )
}

fn list_pending(list: &mut Vec<String>, plan: &BootstrapPlan, items: &Vec<CheckItem>, from: usize)
    requires
        from <= plan.pending@.len(),
        forall|k: int| 0 <= k < plan.pending@.len() ==> (#[trigger] plan.pending@[k]) < items@.len(),
    ensures
        views(final(list)@) == views(old(list)@) + pending_names(*plan, items@, from as int),
{
    let ghost start = views(list@);
    let mut i: usize = from;
    assert(start + pending_names(*plan, items@, from as int).take(0) =~= start);
    while i < plan.pending.len()
        invariant
            from <= i <= plan.pending@.len(),
            start == views(old(list)@),
            forall|k: int|
                0 <= k < plan.pending@.len() ==> (#[trigger] plan.pending@[k]) < items@.len(),
            views(list@) == start + pending_names(*plan, items@, from as int).take(i - from),
        decreases plan.pending@.len() - i,
    {
        let name = items[plan.pending[i]].requirement.as_str();
        push_text(list, name);
        assert(pending_names(*plan, items@, from as int).take(i + 1 - from) =~= pending_names(
            *plan,
            items@,
            from as int,
        ).take(i - from).push(name@));
        assert(views(list@) =~= start + pending_names(*plan, items@, from as int).take(
            i + 1 - from,
        ));
        i += 1;
    }
    assert(pending_names(*plan, items@, from as int).take(i - from) =~= pending_names(
        *plan,
        items@,
        from as int,
    ));
}

fn name_preparation(v: &ProviderPreparation) -> (r: String)
    ensures
        r@ == preparation_name(*v),
{
    cat4("prepare:", v.provider.as_str(), ":", v.identity.as_str())
}

fn list_preparations(plan: &BootstrapPlan, manifest: &Manifest, from: usize) -> (r: Vec<String>)
    requires
        from <= plan.preparations@.len(),
        forall|k: int|
            0 <= k < plan.preparations@.len() ==> (#[trigger] plan.preparations@[k])
                < manifest.preparations@.len(),
    ensures
        views(r@) == preparation_names(*plan, *manifest, from as int),
{
    let ghost all = preparation_names(*plan, *manifest, from as int);
    let mut r: Vec<String> = Vec::new();
    let mut i: usize = from;
    assert(views(r@) =~= all.take(0));
    while i < plan.preparations.len()
        invariant
            from <= i <= plan.preparations@.len(),
            all == preparation_names(*plan, *manifest, from as int),
            forall|k: int|
                0 <= k < plan.preparations@.len() ==> (#[trigger] plan.preparations@[k])
                    < manifest.preparations@.len(),
            views(r@) == all.take(i - from),
        decreases plan.preparations@.len() - i,
    {
        let name = name_preparation(&manifest.preparations[plan.preparations[i]]);
        push_text(&mut r, name.as_str());
        assert(all.take(i + 1 - from) =~= all.take(i - from).push(name@));
        i += 1;
    }
    assert(all.take(i - from) =~= all);
    r
}

/// What bootstrapping does first.
pub open spec fn first_action(plan: BootstrapPlan) -> BootstrapAction {
    if plan.preparations@.len() > 0 {
        BootstrapAction::Prepare(0)
    } else {
        BootstrapAction::Reconcile(0)
    }
}

/// What bootstrapping does first.
pub fn begin_bootstrap(plan: &BootstrapPlan) -> (r: BootstrapAction)
    ensures
        r == first_action(*plan),
{
    if plan.preparations.len() > 0 {
        BootstrapAction::Prepare(0)
    } else {
        BootstrapAction::Reconcile(0)
    }
}

/// Whether bootstrapping goes on as it should once a preparation was tried.
pub open spec fn prepared(
    r: std::result::Result<BootstrapAction, Noted>,
    manifest: Manifest,
    items: Seq<CheckItem>,
    plan: BootstrapPlan,
    before: Seq<String>,
    after: Seq<String>,
    index: usize,
    outcome: Result<()>,
) -> bool {
    match outcome {
        Err(error) => {
            &&& interrupted(
                r,
                error,
                interruption(
                    views(before),
                    preparation_names(plan, manifest, index as int) + pending_names(
                        plan,
                        items,
                        0,
                    ),
                ),
            )
            &&& after == before
        },
        Ok(_) => {
            &&& r is Ok
            &&& Some(r->Ok_0) == after_success(plan, BootstrapAction::Prepare(index))
            &&& views(after) == views(before).push(
                preparation_name(manifest.preparations@[plan.preparations@[index as int] as int]),
            )
        },
    }
}

/// Goes on once a preparation was tried: with the next one, and with the
/// requirements behind the last.
pub fn after_preparation(
    manifest: &Manifest,
    items: &Vec<CheckItem>,
    plan: &BootstrapPlan,
    completed: &mut Vec<String>,
    index: usize,
    outcome: Result<()>,
) -> (r: std::result::Result<BootstrapAction, Noted>)
    requires
        plan_fits(*plan, *manifest, items@),
        index < plan.preparations@.len(),
    ensures
        prepared(r, *manifest, items@, *plan, old(completed)@, final(completed)@, index, outcome),

{
    if let Err(error) = outcome {
        let mut remaining = list_preparations(plan, manifest, index);
        list_pending(&mut remaining, plan, items, 0);
        let note = show_interruption(completed, &remaining);
        return Err(Noted { error, note: Some(note) });
    }
    let name = name_preparation(&manifest.preparations[plan.preparations[index]]);
    push_text(completed, name.as_str());
    if plan.preparations.len() - index > 1 {
        return Ok(BootstrapAction::Prepare(index + 1));
    }
    Ok(BootstrapAction::Reconcile(0))
}

/// Whether bootstrapping goes on as it should once it was tried to meet a requirement.
pub open spec fn reconciled(
    r: std::result::Result<BootstrapAction, Noted>,
    items: Seq<CheckItem>,
    plan: BootstrapPlan,
    completed: Seq<String>,
    index: usize,
    outcome: Result<()>,
) -> bool {
    match outcome {
        Err(error) => interrupted(
            r,
            error,
            interruption(views(completed), pending_names(plan, items, index as int)),
        ),
        Ok(_) => r is Ok && Some(r->Ok_0) == after_success(
            plan,
            BootstrapAction::Reconcile(index),
        ),
    }
}

/// Goes on once it was tried to meet a requirement: by checking it again.
pub fn after_reconciliation(
    items: &Vec<CheckItem>,
    plan: &BootstrapPlan,
    completed: &Vec<String>,
    index: usize,
    outcome: Result<()>,
) -> (r: std::result::Result<BootstrapAction, Noted>)
    requires
        forall|k: int| 0 <= k < plan.pending@.len() ==> (#[trigger] plan.pending@[k]) < items@.len(),
        index < plan.pending@.len(),
    ensures
        reconciled(r, items@, *plan, completed@, index, outcome),

{
    if let Err(error) = outcome {
        let mut remaining: Vec<String> = Vec::new();
        assert(views(remaining@) =~= Seq::empty());
        list_pending(&mut remaining, plan, items, index);
        assert(Seq::<Seq<char>>::empty() + pending_names(*plan, items@, index as int)
            =~= pending_names(*plan, items@, index as int));
        let note = show_interruption(completed, &remaining);
        return Err(Noted { error, note: Some(note) });
    }
    Ok(BootstrapAction::Recheck(index))
}

/// The message about a requirement that is still not met.
pub open spec fn still_unmet(name: Seq<char>, post: CheckItem, completed: Seq<Seq<char>>) -> Seq<
    char,
> {
    "bootstrap reconciled `"@ + name + "` but post-check reported "@ + post.status.name() + ": "@
        + post.detail@ + "; completed: "@ + done_text(completed)
}

/// Whether bootstrapping goes on as it should once a requirement was checked again.
pub open spec fn rechecked(
    r: std::result::Result<BootstrapAction, Noted>,
    manifest: Manifest,
    items: Seq<CheckItem>,
    plan: BootstrapPlan,
    before: Seq<String>,
    after: Seq<String>,
    index: usize,
    post: Result<CheckItem>,
) -> bool {
    let name = items[plan.pending@[index as int] as int].requirement@;
    match post {
        Err(error) => r matches Err(failure) && failure.error == error && failure.note is None
            && after == before,
        Ok(post) => if post.status != CheckStatus::Satisfied {
            r matches Err(failure) && is_configuration(
                failure.error,
                still_unmet(name, post, views(before)),
            ) && failure.note is None && after == before
        } else {
            let now = views(before).push(name);
            &&& views(after) == now
            &&& r is Ok
            &&& match after_success(plan, BootstrapAction::Recheck(index)) {
                Some(next) => r->Ok_0 == next,
                None => r->Ok_0 matches BootstrapAction::Finished(outcome) && outcome.build_id@
                    == manifest.build_id@ && views(outcome.completed@) == now && views(
                    outcome.already_satisfied@,
                ) == met_names(items),
            }
        },
    }
}

/// Goes on once a requirement was checked again: it must be met now.
pub fn after_recheck(
    manifest: &Manifest,
    items: &Vec<CheckItem>,
    plan: &BootstrapPlan,
    completed: &mut Vec<String>,
    index: usize,
    post: Result<CheckItem>,
) -> (r: std::result::Result<BootstrapAction, Noted>)
    requires
        plan_fits(*plan, *manifest, items@),
        index < plan.pending@.len(),
    ensures
        rechecked(r, *manifest, items@, *plan, old(completed)@, final(completed)@, index, post),
{
    let item = &items[plan.pending[index]];
    let post = match post {
        Ok(post) => post,
        Err(error) => {
            return Err(Noted { error, note: None });
        },
    };
    if post.status != CheckStatus::Satisfied {
        let head = cat5(
            "bootstrap reconciled `",
            item.requirement.as_str(),
            "` but post-check reported ",
            post.status.as_str(),
            ": ",
        );
        let text = cat4(
            head.as_str(),
            post.detail.as_str(),
            "; completed: ",
            show_done(completed).as_str(),
        );
        return Err(Noted { error: WombatError::Configuration(text), note: None });
    }
    push_text(completed, item.requirement.as_str());
    if plan.pending.len() - index > 1 {
        return Ok(BootstrapAction::Reconcile(index + 1));
    }
    let all = crate::model::manifest::copy_texts(completed);
    Ok(
        BootstrapAction::Finished(
            BootstrapOutcome {
                build_id: manifest.build_id.clone(),
                completed: all,
                already_satisfied: find_met(items),
            },
        ),
    )
}

} // verus!
