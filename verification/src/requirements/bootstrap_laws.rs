//! What bootstrapping promises of a product as a whole.
use vstd::prelude::*;
use vstd::string::*;

use crate::error::{Noted, Result};
use crate::model::manifest::{Manifest, ProviderPreparation};
use crate::order::{precedes, with_name};
use crate::requirements::bootstrap::{
    after_success, announced_items, announced_preparations, announcement, awaited_providers,
    done_text, first_action, interruption, met_names, needed_preparations, needs_elevation,
    pending_names, pending_places, places, preparation_names, prepared, rechecked, reconciled,
    starts, waits_for, BootstrapAction, BootstrapPlan, BootstrapStart,
};
use crate::requirements::check::{CheckItem, CheckOutcome, CheckStatus};
use crate::text::{holds_text, joined, lemma_holds_itself, lemma_holds_within, views};

verus! {

/// Whether something is known not to be there, and can be brought.
pub open spec fn is_unmet(item: CheckItem) -> bool {
    item.status == CheckStatus::Missing || item.status == CheckStatus::Outdated || item.status
        == CheckStatus::Unavailable
}

/// Whether places are in their order, each once.
pub open spec fn strictly_rising(list: Seq<usize>) -> bool {
    forall|i: int, j: int| 0 <= i < j < list.len() ==> #[trigger] list[i] < #[trigger] list[j]
}

/// Whether something that a requirement lacks waits for a provider.
pub open spec fn lacks_from(items: Seq<CheckItem>, provider: Seq<char>) -> bool {
    exists|i: int| 0 <= i < items.len() && is_unmet(#[trigger] items[i]) && items[i].provider@ == provider
}

/// Bootstrapping takes on all that is not met and nothing else. It fails where something
/// cannot be found out or brought. It is finished at once exactly where everything is met,
/// and then names all of it as met and nothing as done.
pub proof fn law_bootstrapping_takes_on_what_is_unmet(
    r: Result<BootstrapStart>,
    manifest: Manifest,
    initial: CheckOutcome,
)
    requires
        starts(r, manifest, initial),
    ensures
        r is Err <==> exists|i: int|
            0 <= i < initial.items@.len() && (#[trigger] initial.items@[i]).status
                == CheckStatus::Unavailable,
        r matches Ok(BootstrapStart::Finished(outcome)) ==> {
            &&& forall|i: int|
                0 <= i < initial.items@.len() ==> (#[trigger] initial.items@[i]).status
                    == CheckStatus::Satisfied
            &&& outcome.build_id@ == manifest.build_id@
            &&& outcome.completed@.len() == 0
            &&& outcome.already_satisfied@.len() == initial.items@.len()
            &&& forall|i: int|
                0 <= i < initial.items@.len() ==> (#[trigger] outcome.already_satisfied@[i])@
                    == initial.items@[i].requirement@
        },
        r matches Ok(BootstrapStart::Plan(plan)) ==> {
            &&& plan.pending@.len() > 0
            &&& strictly_rising(plan.pending@)
            &&& forall|i: int|
                0 <= i < initial.items@.len() ==> (is_unmet(#[trigger] initial.items@[i])
                    <==> places(plan.pending@).contains(i))
            &&& forall|k: int|
                0 <= k < plan.pending@.len() ==> (#[trigger] plan.pending@[k])
                    < initial.items@.len()
        },
{
    let items = initial.items@;
    lemma_pending(items);
    lemma_met(items);
    if exists|i: int| 0 <= i < items.len() && (#[trigger] items[i]).status == CheckStatus::Unavailable {
    } else if pending_places(items).len() == 0 {
        assert forall|i: int| 0 <= i < items.len() implies (#[trigger] items[i]).status
            == CheckStatus::Satisfied by {
            if is_unmet(items[i]) {
                assert(pending_places(items).contains(i));
            }
        }
        lemma_all_met(items);
        let outcome = r->Ok_0->Finished_0;
        assert(views(outcome.already_satisfied@).len() == outcome.already_satisfied@.len());
        assert forall|i: int| 0 <= i < items.len() implies (#[trigger] outcome.already_satisfied@[i])@
            == items[i].requirement@ by {
            assert(views(outcome.already_satisfied@)[i] == outcome.already_satisfied@[i]@);
        }
    } else {
        let plan = r->Ok_0->Plan_0;
        assert(places(plan.pending@).len() == plan.pending@.len());
        assert forall|i: int, j: int| 0 <= i < j < plan.pending@.len() implies #[trigger] plan.pending@[i]
            < #[trigger] plan.pending@[j] by {
            assert(places(plan.pending@)[i] == plan.pending@[i]);
            assert(places(plan.pending@)[j] == plan.pending@[j]);
        }
        assert forall|k: int| 0 <= k < plan.pending@.len() implies (#[trigger] plan.pending@[k])
            < items.len() by {
            assert(places(plan.pending@)[k] == plan.pending@[k]);
            assert(pending_places(items).contains(pending_places(items)[k]));
        }
    }
}

/// The preparations of a plan are those of the providers that something unmet waits for,
/// and elevation is asked for exactly where one of them or a package of Apt needs it.
pub proof fn law_bootstrapping_prepares_what_is_awaited(
    r: Result<BootstrapStart>,
    manifest: Manifest,
    initial: CheckOutcome,
)
    requires
        starts(r, manifest, initial),
        r matches Ok(BootstrapStart::Plan(_)),
    ensures
        ({
            let plan = r->Ok_0->Plan_0;
            let items = initial.items@;
            &&& strictly_rising(plan.preparations@)
            &&& forall|p: int|
                0 <= p < manifest.preparations@.len() ==> (lacks_from(
                    items,
                    (#[trigger] manifest.preparations@[p]).provider@,
                ) <==> places(plan.preparations@).contains(p))
            &&& plan.elevated <==> (exists|p: int|
                0 <= p < manifest.preparations@.len() && (#[trigger] manifest.preparations@[p]).elevated
                    && lacks_from(items, manifest.preparations@[p].provider@)) || (exists|i: int|
                0 <= i < items.len() && is_unmet(#[trigger] items[i])
                    && manifest.requirements@[i].binding.provider@ == "apt"@)
        }),
{
    let plan = r->Ok_0->Plan_0;
    let items = initial.items@;
    let list = manifest.preparations@;
    let needed = needed_preparations(list, items);
    let pending = pending_places(items);
    lemma_needed(list, items);
    lemma_pending(items);
    assert(places(plan.preparations@).len() == plan.preparations@.len());
    assert forall|i: int, j: int| 0 <= i < j < plan.preparations@.len() implies #[trigger] plan.preparations@[i]
        < #[trigger] plan.preparations@[j] by {
        assert(places(plan.preparations@)[i] == plan.preparations@[i]);
        assert(places(plan.preparations@)[j] == plan.preparations@[j]);
    }
    assert forall|p: int| 0 <= p < list.len() implies (lacks_from(items, (#[trigger] list[p]).provider@)
        <==> needed.contains(p)) by {
        lemma_lacks(items, list[p].provider@);
    }
    let prepared = exists|p: int|
        0 <= p < list.len() && (#[trigger] list[p]).elevated && lacks_from(
            items,
            list[p].provider@,
        );
    let installed = exists|i: int|
        0 <= i < items.len() && is_unmet(#[trigger] items[i])
            && manifest.requirements@[i].binding.provider@ == "apt"@;
    if prepared {
        let p = choose|p: int|
            0 <= p < list.len() && (#[trigger] list[p]).elevated && lacks_from(
                items,
                list[p].provider@,
            );
        assert(needed.contains(p));
        let k = choose|k: int| 0 <= k < needed.len() && needed[k] == p;
        assert(list[needed[k]].elevated);
    }
    if installed {
        let i = choose|i: int|
            0 <= i < items.len() && is_unmet(#[trigger] items[i])
                && manifest.requirements@[i].binding.provider@ == "apt"@;
        assert(pending.contains(i));
        let k = choose|k: int| 0 <= k < pending.len() && pending[k] == i;
        assert(manifest.requirements@[pending[k]].binding.provider@ == "apt"@);
    }
    if needs_elevation(manifest, items) {
        if exists|k: int| 0 <= k < needed.len() && list[#[trigger] needed[k]].elevated {
            let k = choose|k: int| 0 <= k < needed.len() && list[#[trigger] needed[k]].elevated;
            assert(needed.contains(needed[k]));
            assert(lacks_from(items, list[needed[k]].provider@));
        } else {
            let k = choose|k: int|
                0 <= k < pending.len() && manifest.requirements@[#[trigger] pending[k]].binding.provider@
                    == "apt"@;
            assert(pending.contains(pending[k]));
            assert(is_unmet(items[pending[k]]));
        }
    }
}

/// Nothing is changed that was not announced: every requirement that is not met and every
/// preparation of a plan stands in what it announces.
pub proof fn law_bootstrapping_announces_what_it_does(
    r: Result<BootstrapStart>,
    manifest: Manifest,
    initial: CheckOutcome,
)
    requires
        starts(r, manifest, initial),
        r matches Ok(BootstrapStart::Plan(_)),
    ensures
        ({
            let text = (r->Ok_0->Plan_0).announcement@;
            let items = initial.items@;
            &&& forall|i: int|
                0 <= i < items.len() && is_unmet(#[trigger] items[i]) ==> holds_text(
                    text,
                    "    "@ + items[i].requirement@ + " ("@ + (match items[i].status {
                        CheckStatus::Missing => "missing"@,
                        _ => "outdated"@,
                    }) + ")\n"@,
                )
            &&& forall|p: int|
                0 <= p < manifest.preparations@.len() && lacks_from(
                    items,
                    (#[trigger] manifest.preparations@[p]).provider@,
                ) ==> holds_text(
                    text,
                    "    prepare "@ + manifest.preparations@[p].description@ + (
                    if manifest.preparations@[p].elevated {
                        " (elevated)"@
                    } else {
                        ""@
                    }) + "\n"@,
                )
        }),
{
    let plan = r->Ok_0->Plan_0;
    let items = initial.items@;
    let list = manifest.preparations@;
    let providers = awaited_providers(items);
    lemma_awaited(items);
    assert forall|i: int| 0 <= i < items.len() && is_unmet(#[trigger] items[i]) implies holds_text(
        plan.announcement@,
        "    "@ + items[i].requirement@ + " ("@ + (match items[i].status {
            CheckStatus::Missing => "missing"@,
            _ => "outdated"@,
        }) + ")\n"@,
    ) by {
        let entry = "    "@ + items[i].requirement@ + " ("@ + items[i].status.name() + ")\n"@;
        lemma_announced_item(items, i);
        assert(providers.contains(items[i].provider@));
        lemma_announcement(providers, list, items, items[i].provider@, entry);
    }
    assert forall|p: int| 0 <= p < list.len() && lacks_from(items, (#[trigger] list[p]).provider@) implies holds_text(
        plan.announcement@,
        "    prepare "@ + list[p].description@ + (if list[p].elevated {
            " (elevated)"@
        } else {
            ""@
        }) + "\n"@,
    ) by {
        let entry = "    prepare "@ + list[p].description@ + (if list[p].elevated {
            " (elevated)"@
        } else {
            ""@
        }) + "\n"@;
        lemma_announced_preparation(list, p);
        let i = choose|i: int|
            0 <= i < items.len() && is_unmet(#[trigger] items[i]) && items[i].provider@
                == list[p].provider@;
        assert(providers.contains(items[i].provider@));
        lemma_announcement(providers, list, items, list[p].provider@, entry);
    }
}

/// What comes after a number of actions that succeeded.
pub open spec fn action_after(plan: BootstrapPlan, count: int) -> Option<BootstrapAction>
    decreases count,
{
    if count <= 0 {
        Some(first_action(plan))
    } else {
        match action_after(plan, count - 1) {
            Some(action) => after_success(plan, action),
            None => None,
        }
    }
}

/// Where every action succeeds, the preparations are done first, in their order; then each
/// requirement is met and checked again before the next one is touched.
pub proof fn law_actions_follow_the_plan(plan: BootstrapPlan, count: int)
    requires
        plan.pending@.len() > 0,
        0 <= count,
    ensures
        action_after(plan, count) == if count < plan.preparations@.len() {
            Some(BootstrapAction::Prepare(count as usize))
        } else {
            let place = (count - plan.preparations@.len()) / 2;
            if place >= plan.pending@.len() {
                None
            } else if (count - plan.preparations@.len()) % 2 == 0 {
                Some(BootstrapAction::Reconcile(place as usize))
            } else {
                Some(BootstrapAction::Recheck(place as usize))
            }
        },
    decreases count,
{
    assert(plan.preparations.len() == plan.preparations@.len());
    assert(plan.pending.len() == plan.pending@.len());
    if count > 0 {
        law_actions_follow_the_plan(plan, count - 1);
    }
}

/// Bootstrapping goes on behind a requirement only where the new check found it met, and
/// counts it as done then and only then. It is finished behind the last one and nowhere
/// else, and what it calls met beforehand is what the first check found met.
pub proof fn law_what_was_done_was_checked(
    r: std::result::Result<BootstrapAction, Noted>,
    manifest: Manifest,
    items: Seq<CheckItem>,
    plan: BootstrapPlan,
    before: Seq<String>,
    after: Seq<String>,
    index: usize,
    post: Result<CheckItem>,
)
    requires
        rechecked(r, manifest, items, plan, before, after, index, post),
        index < plan.pending@.len(),
    ensures
        r is Ok <==> (post matches Ok(item) && item.status == CheckStatus::Satisfied),
        r is Err ==> after == before,
        r is Ok ==> after.len() == before.len() + 1 && after.last()@
            == items[plan.pending@[index as int] as int].requirement@,
        r is Ok ==> forall|k: int| 0 <= k < before.len() ==> (#[trigger] after[k])@ == before[k]@,
        r is Ok && index + 1 < plan.pending@.len() ==> r->Ok_0 == BootstrapAction::Reconcile(
            (index + 1) as usize,
        ),
        r is Ok && index + 1 >= plan.pending@.len() ==> {
            &&& r->Ok_0 matches BootstrapAction::Finished(outcome)
            &&& outcome.build_id@ == manifest.build_id@
            &&& views(outcome.completed@) == views(after)
            &&& forall|i: int|
                0 <= i < items.len() && (#[trigger] items[i]).status == CheckStatus::Satisfied
                    ==> views(outcome.already_satisfied@).contains(items[i].requirement@)
            &&& forall|k: int|
                0 <= k < outcome.already_satisfied@.len() ==> exists|i: int|
                    0 <= i < items.len() && (#[trigger] items[i]).status == CheckStatus::Satisfied
                        && items[i].requirement@ == (#[trigger] outcome.already_satisfied@[k])@
        },
{
    assert(plan.pending.len() == plan.pending@.len());
    if r is Ok {
        assert(views(after).len() == after.len());
        assert(views(before).len() == before.len());
        assert(views(after).last() == after.last()@);
        assert forall|k: int| 0 <= k < before.len() implies (#[trigger] after[k])@ == before[k]@ by {
            assert(views(after)[k] == after[k]@);
            assert(views(before)[k] == before[k]@);
        }
        lemma_met_members(items);
        if index + 1 >= plan.pending@.len() {
            let outcome = r->Ok_0->Finished_0;
            let met = views(outcome.already_satisfied@);
            assert(met.len() == outcome.already_satisfied@.len());
            assert forall|k: int| 0 <= k < outcome.already_satisfied@.len() implies exists|i: int|
                0 <= i < items.len() && (#[trigger] items[i]).status == CheckStatus::Satisfied
                    && items[i].requirement@ == (#[trigger] outcome.already_satisfied@[k])@ by {
                assert(met[k] == outcome.already_satisfied@[k]@);
                assert(met_from(items, met_names(items)[k]));
            }
        }
    }
}

/// Where work is interrupted, the error is handed on, nothing counts as done that was not
/// done before, and the note names what is left, the faulty one first.
pub proof fn law_interruptions_tell_what_is_left(
    r: std::result::Result<BootstrapAction, Noted>,
    items: Seq<CheckItem>,
    plan: BootstrapPlan,
    completed: Seq<String>,
    index: usize,
    outcome: Result<()>,
)
    requires
        reconciled(r, items, plan, completed, index, outcome),
        index < plan.pending@.len(),
    ensures
        match outcome {
            Ok(_) => r is Ok && r->Ok_0 == BootstrapAction::Recheck(index),
            Err(error) => {
                &&& r matches Err(noted)
                &&& noted.error == error
                &&& noted.note is Some
                &&& forall|k: int|
                    index <= k < plan.pending@.len() ==> holds_text(
                        noted.note->0@,
                        items[#[trigger] plan.pending@[k] as int].requirement@,
                    )
                &&& forall|k: int|
                    0 <= k < completed.len() ==> holds_text(
                        noted.note->0@,
                        (#[trigger] completed[k])@,
                    )
            },
        },
{
    if let Err(error) = outcome {
        let left = pending_names(plan, items, index as int);
        let done = views(completed);
        let note = interruption(done, left);
        assert forall|k: int| index <= k < plan.pending@.len() implies holds_text(
            note,
            items[#[trigger] plan.pending@[k] as int].requirement@,
        ) by {
            let name = items[plan.pending@[k] as int].requirement@;
            assert(left[k - index] == name);
            lemma_joined_holds(left, ", "@, k - index);
            lemma_holds_within(
                "completed: "@ + done_text(done) + "; remaining: "@,
                joined(left, ", "@),
                "; no rollback was attempted"@,
                name,
            );
        }
        assert forall|k: int| 0 <= k < completed.len() implies holds_text(
            note,
            (#[trigger] completed[k])@,
        ) by {
            assert(done[k] == completed[k]@);
            lemma_joined_holds(done, ", "@, k);
            lemma_holds_within(
                "completed: "@,
                done_text(done),
                "; remaining: "@ + joined(left, ", "@) + "; no rollback was attempted"@,
                completed[k]@,
            );
            assert(note =~= "completed: "@ + done_text(done) + ("; remaining: "@ + joined(
                left,
                ", "@,
            ) + "; no rollback was attempted"@));
        }
    }
}

/// The same of a preparation: what is left are the preparations from the faulty one on and
/// every requirement of the plan. One that succeeded counts as done.
pub proof fn law_interrupted_preparations_leave_the_rest(
    r: std::result::Result<BootstrapAction, Noted>,
    manifest: Manifest,
    items: Seq<CheckItem>,
    plan: BootstrapPlan,
    before: Seq<String>,
    after: Seq<String>,
    index: usize,
    outcome: Result<()>,
)
    requires
        prepared(r, manifest, items, plan, before, after, index, outcome),
        index < plan.preparations@.len(),
    ensures
        r is Ok <==> outcome is Ok,
        match outcome {
            Ok(_) => {
                let done = manifest.preparations@[plan.preparations@[index as int] as int];
                &&& views(after) == views(before).push(
                    "prepare:"@ + done.provider@ + ":"@ + done.identity@,
                )
                &&& r->Ok_0 == if index + 1 < plan.preparations@.len() {
                    BootstrapAction::Prepare((index + 1) as usize)
                } else {
                    BootstrapAction::Reconcile(0)
                }
            },
            Err(error) => {
                &&& after == before
                &&& r matches Err(noted)
                &&& noted.error == error
                &&& noted.note is Some
                &&& forall|k: int|
                    0 <= k < plan.pending@.len() ==> holds_text(
                        noted.note->0@,
                        items[#[trigger] plan.pending@[k] as int].requirement@,
                    )
            },
        },
{
    assert(plan.preparations.len() == plan.preparations@.len());
    if let Err(error) = outcome {
        let one = preparation_names(plan, manifest, index as int);
        let two = pending_names(plan, items, 0);
        let note = interruption(views(before), one + two);
        assert forall|k: int| 0 <= k < plan.pending@.len() implies holds_text(
            note,
            items[#[trigger] plan.pending@[k] as int].requirement@,
        ) by {
            let name = items[plan.pending@[k] as int].requirement@;
            assert((one + two)[one.len() + k] == name);
            lemma_joined_holds(one + two, ", "@, one.len() + k);
            lemma_holds_within(
                "completed: "@ + done_text(views(before)) + "; remaining: "@,
                joined(one + two, ", "@),
                "; no rollback was attempted"@,
                name,
            );
        }
    }
}

proof fn lemma_joined_holds(parts: Seq<Seq<char>>, separator: Seq<char>, index: int)
    requires
        0 <= index < parts.len(),
    ensures
        holds_text(joined(parts, separator), parts[index]),
    decreases parts.len(),
{
    if parts.len() == 1 {
        lemma_holds_itself(parts[0]);
    } else {
        let front = parts.drop_last();
        let head = joined(front, separator);
        if index < front.len() {
            assert(front[index] == parts[index]);
            lemma_joined_holds(front, separator, index);
            lemma_holds_within(Seq::empty(), head, separator + parts.last(), parts[index]);
            assert(joined(parts, separator) =~= head + (separator + parts.last()));
        } else {
            lemma_holds_itself(parts.last());
            lemma_holds_within(head + separator, parts.last(), Seq::empty(), parts.last());
        }
    }
}

/// Whether a name is that of something met.
pub open spec fn met_from(items: Seq<CheckItem>, name: Seq<char>) -> bool {
    exists|i: int|
        0 <= i < items.len() && (#[trigger] items[i]).status == CheckStatus::Satisfied
            && items[i].requirement@ == name
}

proof fn lemma_met_members(items: Seq<CheckItem>)
    ensures
        forall|i: int|
            0 <= i < items.len() && (#[trigger] items[i]).status == CheckStatus::Satisfied
                ==> met_names(items).contains(items[i].requirement@),
        forall|k: int|
            0 <= k < met_names(items).len() ==> met_from(items, #[trigger] met_names(items)[k]),
    decreases items.len(),
{
    if items.len() > 0 {
        let front = items.drop_last();
        let rest = met_names(front);
        let all = met_names(items);
        lemma_met_members(front);
        assert forall|i: int|
            0 <= i < items.len() && (#[trigger] items[i]).status == CheckStatus::Satisfied implies all.contains(
            items[i].requirement@) by {
            if i < front.len() {
                assert(front[i] == items[i]);
                assert(rest.contains(items[i].requirement@));
                let k = choose|k: int| 0 <= k < rest.len() && rest[k] == items[i].requirement@;
                assert(all[k] == rest[k]);
            } else {
                assert(all[all.len() - 1] == items[i].requirement@);
            }
        }
        assert forall|k: int| 0 <= k < all.len() implies met_from(items, #[trigger] all[k]) by {
            if k < rest.len() {
                assert(met_from(front, rest[k]));
                let i = choose|i: int|
                    0 <= i < front.len() && (#[trigger] front[i]).status == CheckStatus::Satisfied
                        && front[i].requirement@ == rest[k];
                assert(items[i] == front[i]);
            } else {
                assert(items[items.len() - 1].status == CheckStatus::Satisfied);
            }
        }
    }
}

proof fn lemma_pending(items: Seq<CheckItem>)
    ensures
        forall|i: int|
            0 <= i < items.len() ==> (is_unmet(#[trigger] items[i]) <==> pending_places(
                items,
            ).contains(i)),
        forall|k: int|
            0 <= k < pending_places(items).len() ==> 0 <= #[trigger] pending_places(items)[k]
                < items.len(),
        forall|i: int, j: int|
            0 <= i < j < pending_places(items).len() ==> #[trigger] pending_places(items)[i]
                < #[trigger] pending_places(items)[j],
    decreases items.len(),
{
    if items.len() > 0 {
        let front = items.drop_last();
        let rest = pending_places(front);
        let all = pending_places(items);
        lemma_pending(front);
        assert forall|i: int| 0 <= i < items.len() implies (is_unmet(#[trigger] items[i])
            <==> all.contains(i)) by {
            if i < front.len() {
                assert(front[i] == items[i]);
                if rest.contains(i) {
                    let k = choose|k: int| 0 <= k < rest.len() && rest[k] == i;
                    assert(all[k] == i);
                }
                if all.contains(i) {
                    let k = choose|k: int| 0 <= k < all.len() && all[k] == i;
                    assert(k < rest.len());
                    assert(rest[k] == i);
                }
            } else {
                if is_unmet(items[i]) {
                    assert(all[all.len() - 1] == i);
                }
                if all.contains(i) && !is_unmet(items[i]) {
                    let k = choose|k: int| 0 <= k < all.len() && all[k] == i;
                    assert(rest[k] == i);
                }
            }
        }
    }
}

proof fn lemma_met(items: Seq<CheckItem>)
    ensures
        met_names(items).len() <= items.len(),
    decreases items.len(),
{
    if items.len() > 0 {
        lemma_met(items.drop_last());
    }
}

proof fn lemma_all_met(items: Seq<CheckItem>)
    requires
        forall|i: int| 0 <= i < items.len() ==> (#[trigger] items[i]).status == CheckStatus::Satisfied,
    ensures
        met_names(items).len() == items.len(),
        forall|i: int|
            0 <= i < items.len() ==> #[trigger] met_names(items)[i] == items[i].requirement@,
    decreases items.len(),
{
    if items.len() > 0 {
        let front = items.drop_last();
        assert forall|i: int| 0 <= i < front.len() implies (#[trigger] front[i]).status
            == CheckStatus::Satisfied by {
            assert(items[i].status == CheckStatus::Satisfied);
        }
        lemma_all_met(front);
        assert(items[items.len() - 1].status == CheckStatus::Satisfied);
        assert forall|i: int| 0 <= i < items.len() implies #[trigger] met_names(items)[i]
            == items[i].requirement@ by {
            if i < front.len() {
                assert(met_names(front)[i] == front[i].requirement@);
            }
        }
    }
}

proof fn lemma_lacks(items: Seq<CheckItem>, provider: Seq<char>)
    ensures
        lacks_from(items, provider) <==> waits_for(items, provider),
{
    if lacks_from(items, provider) {
        let i = choose|i: int|
            0 <= i < items.len() && is_unmet(#[trigger] items[i]) && items[i].provider@ == provider;
        assert(items[i].status != CheckStatus::Satisfied);
    }
    if waits_for(items, provider) {
        let i = choose|i: int|
            0 <= i < items.len() && (#[trigger] items[i]).status != CheckStatus::Satisfied
                && items[i].provider@ == provider;
        assert(is_unmet(items[i]));
    }
}

proof fn lemma_needed(list: Seq<ProviderPreparation>, items: Seq<CheckItem>)
    ensures
        forall|p: int|
            0 <= p < list.len() ==> (waits_for(items, (#[trigger] list[p]).provider@)
                <==> needed_preparations(list, items).contains(p)),
        forall|k: int|
            0 <= k < needed_preparations(list, items).len() ==> 0 <= #[trigger] needed_preparations(
                list,
                items,
            )[k] < list.len(),
        forall|i: int, j: int|
            0 <= i < j < needed_preparations(list, items).len()
                ==> #[trigger] needed_preparations(list, items)[i]
                < #[trigger] needed_preparations(list, items)[j],
    decreases list.len(),
{
    if list.len() > 0 {
        let front = list.drop_last();
        let rest = needed_preparations(front, items);
        let all = needed_preparations(list, items);
        lemma_needed(front, items);
        assert forall|p: int| 0 <= p < list.len() implies (waits_for(
            items,
            (#[trigger] list[p]).provider@,
        ) <==> all.contains(p)) by {
            if p < front.len() {
                assert(front[p] == list[p]);
                if rest.contains(p) {
                    let k = choose|k: int| 0 <= k < rest.len() && rest[k] == p;
                    assert(all[k] == p);
                }
                if all.contains(p) {
                    let k = choose|k: int| 0 <= k < all.len() && all[k] == p;
                    assert(rest[k] == p);
                }
            } else {
                if waits_for(items, list[p].provider@) {
                    assert(all[all.len() - 1] == p);
                }
                if all.contains(p) && !waits_for(items, list[p].provider@) {
                    let k = choose|k: int| 0 <= k < all.len() && all[k] == p;
                    assert(rest[k] == p);
                }
            }
        }
    }
}

proof fn lemma_with_name_members(list: Seq<Seq<char>>, name: Seq<char>)
    ensures
        with_name(list, name).contains(name),
        forall|other: Seq<char>| list.contains(other) ==> with_name(list, name).contains(other),
    decreases list.len(),
{
    let all = with_name(list, name);
    if list.len() == 0 {
        assert(all[0] == name);
    } else if list.last() == name {
        assert(all[all.len() - 1] == name);
    } else if precedes(list.last(), name) {
        assert(all[all.len() - 1] == name);
        assert forall|other: Seq<char>| list.contains(other) implies all.contains(other) by {
            let k = choose|k: int| 0 <= k < list.len() && list[k] == other;
            assert(all[k] == other);
        }
    } else {
        let front = list.drop_last();
        let rest = with_name(front, name);
        lemma_with_name_members(front, name);
        let k = choose|k: int| 0 <= k < rest.len() && rest[k] == name;
        assert(all[k] == name);
        assert forall|other: Seq<char>| list.contains(other) implies all.contains(other) by {
            let m = choose|m: int| 0 <= m < list.len() && list[m] == other;
            if m < front.len() {
                assert(front[m] == other);
                assert(front.contains(other));
                assert(rest.contains(other));
                let q = choose|q: int| 0 <= q < rest.len() && rest[q] == other;
                assert(all[q] == other);
            } else {
                assert(all[all.len() - 1] == other);
            }
        }
    }
}

proof fn lemma_awaited(items: Seq<CheckItem>)
    ensures
        forall|i: int|
            0 <= i < items.len() && is_unmet(#[trigger] items[i]) ==> awaited_providers(
                items,
            ).contains(items[i].provider@),
    decreases items.len(),
{
    if items.len() > 0 {
        let front = items.drop_last();
        lemma_awaited(front);
        lemma_with_name_members(awaited_providers(front), items.last().provider@);
        assert forall|i: int| 0 <= i < items.len() && is_unmet(#[trigger] items[i]) implies awaited_providers(
            items,
        ).contains(items[i].provider@) by {
            if i < front.len() {
                assert(front[i] == items[i]);
            }
        }
    }
}

proof fn lemma_announced_item(items: Seq<CheckItem>, index: int)
    requires
        0 <= index < items.len(),
        is_unmet(items[index]),
    ensures
        holds_text(
            announced_items(items, items[index].provider@),
            "    "@ + items[index].requirement@ + " ("@ + items[index].status.name() + ")\n"@,
        ),
    decreases items.len(),
{
    let front = items.drop_last();
    let provider = items[index].provider@;
    let entry = "    "@ + items[index].requirement@ + " ("@ + items[index].status.name() + ")\n"@;
    let rest = announced_items(front, provider);
    let last = items.last();
    let tail = "    "@ + last.requirement@ + " ("@ + last.status.name() + ")\n"@;
    assert(rest + "    "@ + last.requirement@ + " ("@ + last.status.name() + ")\n"@ =~= rest + tail);
    if index < front.len() {
        assert(front[index] == items[index]);
        lemma_announced_item(front, index);
        lemma_holds_within(Seq::empty(), rest, tail, entry);
    } else {
        lemma_holds_itself(entry);
        lemma_holds_within(rest, entry, Seq::empty(), entry);
    }
}

proof fn lemma_announced_preparation(list: Seq<ProviderPreparation>, index: int)
    requires
        0 <= index < list.len(),
    ensures
        holds_text(
            announced_preparations(list, list[index].provider@),
            "    prepare "@ + list[index].description@ + (if list[index].elevated {
                " (elevated)"@
            } else {
                ""@
            }) + "\n"@,
        ),
    decreases list.len(),
{
    let front = list.drop_last();
    let provider = list[index].provider@;
    let last = list.last();
    let rest = announced_preparations(front, provider);
    let entry = "    prepare "@ + list[index].description@ + (if list[index].elevated {
        " (elevated)"@
    } else {
        ""@
    }) + "\n"@;
    let tail = "    prepare "@ + last.description@ + (if last.elevated {
        " (elevated)"@
    } else {
        ""@
    }) + "\n"@;
    assert(rest + "    prepare "@ + last.description@ + (if last.elevated {
        " (elevated)"@
    } else {
        ""@
    }) + "\n"@ =~= rest + tail);
    if index < front.len() {
        assert(front[index] == list[index]);
        lemma_announced_preparation(front, index);
        lemma_holds_within(Seq::empty(), rest, tail, entry);
    } else {
        lemma_holds_itself(entry);
        lemma_holds_within(rest, entry, Seq::empty(), entry);
    }
}

proof fn lemma_announcement(
    providers: Seq<Seq<char>>,
    list: Seq<ProviderPreparation>,
    items: Seq<CheckItem>,
    provider: Seq<char>,
    entry: Seq<char>,
)
    requires
        providers.contains(provider),
        holds_text(announced_preparations(list, provider), entry) || holds_text(
            announced_items(items, provider),
            entry,
        ),
    ensures
        holds_text(announcement(providers, list, items), entry),
    decreases providers.len(),
{
    let front = providers.drop_last();
    let last = providers.last();
    let head = announcement(front, list, items);
    let one = announced_preparations(list, last);
    let two = announced_items(items, last);
    let title = head + "  "@ + last + "\n"@;
    if front.contains(provider) {
        lemma_announcement(front, list, items, provider, entry);
        lemma_holds_within(Seq::empty(), head, "  "@ + last + "\n"@ + one + two, entry);
        assert(announcement(providers, list, items) =~= head + ("  "@ + last + "\n"@ + one + two));
    } else {
        let k = choose|k: int| 0 <= k < providers.len() && providers[k] == provider;
        if k < front.len() {
            assert(front[k] == provider);
        }
        assert(last == provider);
        assert(announcement(providers, list, items) =~= title + one + two);
        if holds_text(one, entry) {
            lemma_holds_within(title, one, two, entry);
        } else {
            lemma_holds_within(title + one, two, Seq::empty(), entry);
        }
    }
}

} // verus!
