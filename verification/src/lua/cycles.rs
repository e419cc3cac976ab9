//! That no module depends on itself.
use vstd::prelude::*;
use vstd::string::*;

use crate::error::{reports, Result, WombatError};
use crate::lua::evaluation::{cycle_from, first_place, name_cycle};
use crate::lua::state::{names, root_module, ModuleRegistry};
use crate::model::manifest::Dependency;
use crate::order::{add_name, with_name};
use crate::text::{cat2, holds, join, joined, push_text, same, views};

verus! {

/// Whether one module depends on another.
pub open spec fn depends(dependencies: Seq<Dependency>, from: Seq<char>, to: Seq<char>) -> bool {
    from != root_module() && exists|i: int|
        0 <= i < dependencies.len() && (#[trigger] dependencies[i]).from@ == from
            && dependencies[i].to@ == to
}

/// What a module depends on, in the order of the names.
pub open spec fn needed(dependencies: Seq<Dependency>, module: Seq<char>) -> Seq<Seq<char>>
    decreases dependencies.len(),
{
    if dependencies.len() == 0 {
        Seq::empty()
    } else {
        let rest = needed(dependencies.drop_last(), module);
        let last = dependencies.last();
        if last.from@ == module && module != root_module() {
            with_name(rest, last.to@)
        } else {
            rest
        }
    }
}

fn find_needed(dependencies: &Vec<Dependency>, module: &str) -> (r: Vec<String>)
    ensures
        views(r@) == needed(dependencies@, module@),
{
    let mut r: Vec<String> = Vec::new();
    let mut i: usize = 0;
    assert(dependencies@.take(0) =~= Seq::empty());
    assert(views(r@) =~= Seq::empty());
    while i < dependencies.len()
        invariant
            0 <= i <= dependencies@.len(),
            views(r@) == needed(dependencies@.take(i as int), module@),
        decreases dependencies@.len() - i,
    {
        assert(dependencies@.take(i + 1).drop_last() =~= dependencies@.take(i as int));
        assert(dependencies@.take(i + 1).last() == dependencies@[i as int]);
        if same(dependencies[i].from.as_str(), module) && !same(module, "<root>") {
            add_name(&mut r, dependencies[i].to.as_str());
        }
        i += 1;
    }
    assert(dependencies@.take(i as int) =~= dependencies@);
    r
}

/// What walking the dependencies finds.
pub ghost enum Walk {
    /// A cycle
    Cycle(Seq<Seq<char>>),
    /// The modules that were walked through, each behind all that it depends on
    Complete(Seq<Seq<char>>),
}

/// What walking from a module finds, behind the modules of the stack.
pub open spec fn walked(
    dependencies: Seq<Dependency>,
    module: Seq<char>,
    complete: Seq<Seq<char>>,
    stack: Seq<Seq<char>>,
) -> Walk
    decreases (dependencies.len() + 1 - stack.len()) as nat, 0nat,
{
    if complete.contains(module) {
        Walk::Complete(complete)
    } else if stack.contains(module) {
        Walk::Cycle(cycle_from(stack, module))
    } else if stack.len() > dependencies.len() {
        Walk::Complete(complete)
    } else {
        match walked_all(
            dependencies,
            needed(dependencies, module),
            complete,
            stack.push(module),
        ) {
            Walk::Cycle(cycle) => Walk::Cycle(cycle),
            Walk::Complete(complete) => Walk::Complete(complete.push(module)),
        }
    }
}

/// What walking from each of some modules finds.
pub open spec fn walked_all(
    dependencies: Seq<Dependency>,
    modules: Seq<Seq<char>>,
    complete: Seq<Seq<char>>,
    stack: Seq<Seq<char>>,
) -> Walk
    decreases (dependencies.len() + 1 - stack.len()) as nat, modules.len(),
{
    if modules.len() == 0 {
        Walk::Complete(complete)
    } else {
        match walked_all(dependencies, modules.drop_last(), complete, stack) {
            Walk::Cycle(cycle) => Walk::Cycle(cycle),
            Walk::Complete(complete) => walked(dependencies, modules.last(), complete, stack),
        }
    }
}

/// Whether the outcome of a walk is what it finds.
pub open spec fn walk_is(r: Result<()>, complete: Seq<String>, walk: Walk) -> bool {
    match walk {
        Walk::Cycle(cycle) => reports(r, Some("module cycle: "@ + joined(cycle, " -> "@))),
        Walk::Complete(list) => r is Ok && views(complete) == list,
    }
}

fn visit_dependency(
    dependencies: &Vec<Dependency>,
    module: &str,
    complete: &mut Vec<String>,
    stack: &mut Vec<String>,
) -> (r: Result<()>)
    ensures
        walk_is(
            r,
            final(complete)@,
            walked(dependencies@, module@, views(old(complete)@), views(old(stack)@)),
        ),
        r is Ok ==> views(final(stack)@) == views(old(stack)@),
    decreases dependencies@.len() + 1 - old(stack)@.len(),
{
    assert(views(stack@).len() == stack@.len());
    if holds(complete, module) {
        return Ok(());
    }
    if holds(stack, module) {
        let cycle = name_cycle(stack, module);
        return Err(
            WombatError::Configuration(cat2("module cycle: ", join(&cycle, " -> ").as_str())),
        );
    }
    if stack.len() > dependencies.len() {
        return Ok(());
    }
    let ghost before = views(stack@);
    let ghost done = views(complete@);
    let list = find_needed(dependencies, module);
    let ghost all = needed(dependencies@, module@);
    push_text(stack, module);
    assert(views(stack@).len() == stack@.len());
    assert(list@.len() == views(list@).len());
    let ghost inner = views(stack@);
    let mut i: usize = 0;
    assert(all.take(0) =~= Seq::empty());
    while i < list.len()
        invariant
            0 <= i <= list@.len(),
            views(list@) == all,
            list@.len() == all.len(),
            all == needed(dependencies@, module@),
            inner == before.push(module@),
            before == views(old(stack)@),
            done == views(old(complete)@),
            before.len() == old(stack)@.len(),
            before.len() <= dependencies@.len(),
            !done.contains(module@),
            !before.contains(module@),
            views(stack@) == inner,
            walked_all(dependencies@, all.take(i as int), done, inner) == Walk::Complete(
                views(complete@),
            ),
        decreases list@.len() - i,
    {
        assert(views(list@)[i as int] == list@[i as int]@);
        assert(all.take(i + 1).drop_last() =~= all.take(i as int));
        assert(all.take(i + 1).last() == all[i as int]);
        assert(views(stack@).len() == stack@.len());
        let r = visit_dependency(dependencies, list[i].as_str(), complete, stack);
        if r.is_err() {
            proof {
                lemma_front_cycle(dependencies@, all, done, inner, i + 1);
            }
            return r;
        }
        i += 1;
    }
    assert(all.take(i as int) =~= all);
    let ghost whole = stack@;
    assert(views(whole).len() == whole.len());
    stack.pop();
    assert(views(stack@) =~= views(whole).drop_last());
    assert(inner.drop_last() =~= before);
    push_text(complete, module);
    Ok(())
}

/// A cycle that is found from the first modules is found from all.
proof fn lemma_front_cycle(
    dependencies: Seq<Dependency>,
    modules: Seq<Seq<char>>,
    complete: Seq<Seq<char>>,
    stack: Seq<Seq<char>>,
    count: int,
)
    requires
        0 <= count <= modules.len(),
        walked_all(dependencies, modules.take(count), complete, stack) is Cycle,
    ensures
        walked_all(dependencies, modules, complete, stack) == walked_all(
            dependencies,
            modules.take(count),
            complete,
            stack,
        ),
    decreases modules.len() - count,
{
    if count < modules.len() {
        assert(modules.take(count + 1).drop_last() =~= modules.take(count));
        lemma_front_cycle(dependencies, modules, complete, stack, count + 1);
    } else {
        assert(modules.take(count) =~= modules);
    }
}

/// What walking from every module finds.
pub open spec fn module_walk(registry: ModuleRegistry) -> Walk {
    walked_all(registry.dependencies@, names(registry.records@), Seq::empty(), Seq::empty())
}

/// What is wrong with the dependencies: the first cycle.
pub open spec fn cycle_problem(registry: ModuleRegistry) -> Option<Seq<char>> {
    match module_walk(registry) {
        Walk::Cycle(cycle) => Some("module cycle: "@ + joined(cycle, " -> "@)),
        Walk::Complete(_) => None,
    }
}

/// Makes sure that no module depends on itself.
pub fn validate_dependency_cycles(registry: &ModuleRegistry) -> (r: Result<()>)
    ensures
        reports(r, cycle_problem(*registry)),
{
    let ghost all = names(registry.records@);
    let mut complete: Vec<String> = Vec::new();
    let mut stack: Vec<String> = Vec::new();
    let mut i: usize = 0;
    assert(views(complete@) =~= Seq::empty());
    assert(views(stack@) =~= Seq::empty());
    assert(all.take(0) =~= Seq::empty());
    while i < registry.records.len()
        invariant
            0 <= i <= registry.records@.len(),
            all == names(registry.records@),
            all.len() == registry.records@.len(),
            views(stack@) == Seq::<Seq<char>>::empty(),
            walked_all(
                registry.dependencies@,
                all.take(i as int),
                Seq::empty(),
                Seq::empty(),
            ) == Walk::Complete(views(complete@)),
        decreases registry.records@.len() - i,
    {
        assert(all[i as int] == registry.records@[i as int].0@);
        assert(all.take(i + 1).drop_last() =~= all.take(i as int));
        assert(all.take(i + 1).last() == all[i as int]);
        let r = visit_dependency(
            &registry.dependencies,
            registry.records[i].0.as_str(),
            &mut complete,
            &mut stack,
        );
        if r.is_err() {
            proof {
                lemma_front_cycle(
                    registry.dependencies@,
                    all,
                    Seq::empty(),
                    Seq::empty(),
                    i + 1,
                );
            }
            return r;
        }
        i += 1;
    }
    assert(all.take(i as int) =~= all);
    Ok(())
}

/// Whether each module of a list depends on the next.
pub open spec fn is_path(dependencies: Seq<Dependency>, list: Seq<Seq<char>>) -> bool {
    forall|i: int|
        0 <= i < list.len() - 1 ==> depends(dependencies, #[trigger] list[i], list[i + 1])
}

/// Whether a list leads along dependencies from a module back to it.
pub open spec fn is_cycle(dependencies: Seq<Dependency>, list: Seq<Seq<char>>) -> bool {
    list.len() >= 2 && list[0] == list.last() && is_path(dependencies, list)
}

/// Whether every module of a list stands behind all that it depends on.
pub open spec fn is_order(dependencies: Seq<Dependency>, list: Seq<Seq<char>>) -> bool {
    forall|i: int, to: Seq<char>|
        0 <= i < list.len() && #[trigger] depends(dependencies, list[i], to) ==> list.take(
            i,
        ).contains(to)
}

/// Putting a name in adds that name.
pub proof fn lemma_with_name_members(list: Seq<Seq<char>>, name: Seq<char>)
    ensures
        forall|x: Seq<char>|
            #[trigger] with_name(list, name).contains(x) <==> list.contains(x) || x == name,
    decreases list.len(),
{
    let r = with_name(list, name);
    if list.len() == 0 {
        assert(r =~= seq![name]);
        assert(r[0] == name);
    } else if list.last() == name {
        assert(list[list.len() - 1] == name);
    } else if crate::order::precedes(list.last(), name) {
        assert forall|x: Seq<char>| #[trigger] r.contains(x) <==> list.contains(x) || x == name by {
            if list.contains(x) {
                let k = choose|k: int| 0 <= k < list.len() && list[k] == x;
                assert(r[k] == x);
            }
            assert(r[list.len() as int] == name);
            if r.contains(x) {
                let k = choose|k: int| 0 <= k < r.len() && r[k] == x;
                if k < list.len() {
                    assert(list[k] == x);
                }
            }
        }
    } else {
        let front = list.drop_last();
        lemma_with_name_members(front, name);
        let inner = with_name(front, name);
        assert forall|x: Seq<char>| #[trigger] r.contains(x) <==> list.contains(x) || x == name by {
            if r.contains(x) {
                let k = choose|k: int| 0 <= k < r.len() && r[k] == x;
                if k < inner.len() {
                    assert(inner[k] == x);
                    assert(inner.contains(x));
                    if front.contains(x) {
                        let m = choose|m: int| 0 <= m < front.len() && front[m] == x;
                        assert(list[m] == x);
                    }
                } else {
                    assert(list[list.len() - 1] == x);
                }
            }
            if list.contains(x) || x == name {
                if x == list.last() {
                    assert(r[inner.len() as int] == x);
                } else {
                    if x != name {
                        let m = choose|m: int| 0 <= m < list.len() && list[m] == x;
                        assert(front[m] == x);
                    }
                    assert(inner.contains(x));
                    let k = choose|k: int| 0 <= k < inner.len() && inner[k] == x;
                    assert(r[k] == x);
                }
            }
        }
    }
}

proof fn lemma_needed(dependencies: Seq<Dependency>, module: Seq<char>)
    ensures
        forall|to: Seq<char>|
            #[trigger] needed(dependencies, module).contains(to) <==> depends(
                dependencies,
                module,
                to,
            ),
    decreases dependencies.len(),
{
    if dependencies.len() > 0 {
        let front = dependencies.drop_last();
        let last = dependencies.last();
        lemma_needed(front, module);
        lemma_with_name_members(needed(front, module), last.to@);
        assert forall|to: Seq<char>| #[trigger] needed(dependencies, module).contains(to)
            <==> depends(dependencies, module, to) by {
            assert(needed(front, module).contains(to) <==> depends(front, module, to));
            if depends(front, module, to) {
                let k = choose|k: int|
                    0 <= k < front.len() && (#[trigger] front[k]).from@ == module && front[k].to@ == to;
                assert(dependencies[k].from@ == module);
            }
            if last.from@ == module && module != root_module() && to == last.to@ {
                assert(dependencies[dependencies.len() - 1].from@ == module);
            }
            if depends(dependencies, module, to) {
                let k = choose|k: int|
                    0 <= k < dependencies.len() && (#[trigger] dependencies[k]).from@ == module
                        && dependencies[k].to@ == to;
                if k < front.len() {
                    assert(front[k].from@ == module);
                }
            }
        }
    }
}

/// The modules that are depended from.
spec fn sources(dependencies: Seq<Dependency>) -> Seq<Seq<char>> {
    Seq::new(dependencies.len(), |i: int| dependencies[i].from@)
}

/// Whether the stack of a walk is a path of modules that differ, each with something
/// it depends on, the last with the module that is walked to.
spec fn stack_holds(
    dependencies: Seq<Dependency>,
    stack: Seq<Seq<char>>,
    complete: Seq<Seq<char>>,
) -> bool {
    &&& stack.no_duplicates()
    &&& is_path(dependencies, stack)
    &&& is_order(dependencies, complete)
    &&& forall|i: int| 0 <= i < stack.len() ==> !complete.contains(#[trigger] stack[i])
    &&& forall|i: int| 0 <= i < stack.len() - 1 ==> sources(dependencies).contains(#[trigger] stack[i])
}

/// Whether what is walked to is depended on by the last of the stack.
spec fn leads_to(
    dependencies: Seq<Dependency>,
    stack: Seq<Seq<char>>,
    module: Seq<char>,
) -> bool {
    stack.len() > 0 ==> depends(dependencies, stack.last(), module)
}

/// What a walk gives: a cycle, or more complete modules that keep apart from the
/// stack.
spec fn walk_holds(
    dependencies: Seq<Dependency>,
    stack: Seq<Seq<char>>,
    complete: Seq<Seq<char>>,
    walk: Walk,
) -> bool {
    match walk {
        Walk::Cycle(cycle) => is_cycle(dependencies, cycle),
        Walk::Complete(list) => {
            &&& stack_holds(dependencies, stack, list)
            &&& forall|x: Seq<char>| complete.contains(x) ==> #[trigger] list.contains(x)
        },
    }
}

proof fn lemma_stack_bound(dependencies: Seq<Dependency>, stack: Seq<Seq<char>>)
    requires
        stack.no_duplicates(),
        forall|i: int| 0 <= i < stack.len() ==> sources(dependencies).contains(#[trigger] stack[i]),
    ensures
        stack.len() <= dependencies.len(),
{
    let from = sources(dependencies);
    stack.unique_seq_to_set();
    from.lemma_cardinality_of_set();
    assert forall|x: Seq<char>| stack.to_set().contains(x) implies from.to_set().contains(x) by {
        let k = choose|k: int| 0 <= k < stack.len() && stack[k] == x;
        assert(from.contains(stack[k]));
    }
    vstd::set_lib::lemma_len_subset(stack.to_set(), from.to_set());
}

proof fn lemma_found_place(list: Seq<Seq<char>>, name: Seq<char>)
    requires
        list.contains(name),
    ensures
        0 <= first_place(list, name) < list.len(),
        list[first_place(list, name)] == name,
    decreases list.len(),
{
    if list[0] != name {
        let k = choose|k: int| 0 <= k < list.len() && list[k] == name;
        assert(list.skip(1)[k - 1] == name);
        lemma_found_place(list.skip(1), name);
    }
}

proof fn lemma_pushed_order(
    dependencies: Seq<Dependency>,
    list: Seq<Seq<char>>,
    module: Seq<char>,
)
    requires
        is_order(dependencies, list),
        forall|to: Seq<char>| #[trigger] depends(dependencies, module, to) ==> list.contains(to),
    ensures
        is_order(dependencies, list.push(module)),
{
    let more = list.push(module);
    assert forall|i: int, to: Seq<char>|
        0 <= i < more.len() && #[trigger] depends(dependencies, more[i], to) implies more.take(
        i,
    ).contains(to) by {
        if i < list.len() {
            assert(depends(dependencies, list[i], to));
            assert(more.take(i) =~= list.take(i));
        } else {
            assert(more.take(i) =~= list);
        }
    }
}

proof fn lemma_walked(
    dependencies: Seq<Dependency>,
    module: Seq<char>,
    complete: Seq<Seq<char>>,
    stack: Seq<Seq<char>>,
)
    requires
        stack_holds(dependencies, stack, complete),
        leads_to(dependencies, stack, module),
    ensures
        walk_holds(dependencies, stack, complete, walked(dependencies, module, complete, stack)),
        walked(dependencies, module, complete, stack) matches Walk::Complete(list)
            ==> list.contains(module),
    decreases (dependencies.len() + 1 - stack.len()) as nat, 0nat,
{
    if stack.len() > 0 {
        let k = choose|k: int|
            0 <= k < dependencies.len() && (#[trigger] dependencies[k]).from@ == stack.last()
                && dependencies[k].to@ == module;
        assert(sources(dependencies)[k] == stack.last());
        assert(sources(dependencies).contains(stack[stack.len() - 1]));
    }
    if complete.contains(module) {
    } else if stack.contains(module) {
        lemma_found_place(stack, module);
        let start = first_place(stack, module);
        let cycle = cycle_from(stack, module);
        assert(cycle[0] == stack[start]);
        assert forall|i: int| 0 <= i < cycle.len() - 1 implies depends(
            dependencies,
            #[trigger] cycle[i],
            cycle[i + 1],
        ) by {
            assert(cycle[i] == stack[start + i]);
            if i + 1 < cycle.len() - 1 {
                assert(cycle[i + 1] == stack[start + i + 1]);
            } else {
                assert(stack[start + i] == stack.last());
            }
        }
    } else if stack.len() > dependencies.len() {
        lemma_stack_bound(dependencies, stack);
    } else {
        let deeper = stack.push(module);
        let list = needed(dependencies, module);
        lemma_needed(dependencies, module);
        assert(is_path(dependencies, deeper)) by {
            assert forall|i: int| 0 <= i < deeper.len() - 1 implies depends(
                dependencies,
                #[trigger] deeper[i],
                deeper[i + 1],
            ) by {
                assert(deeper[i] == stack[i]);
                if i + 1 < stack.len() {
                    assert(deeper[i + 1] == stack[i + 1]);
                }
            }
        }
        assert forall|i: int| 0 <= i < deeper.len() implies !complete.contains(
            #[trigger] deeper[i],
        ) by {
            if i < stack.len() {
                assert(deeper[i] == stack[i]);
            }
        }
        assert forall|i: int| 0 <= i < deeper.len() - 1 implies sources(dependencies).contains(
            #[trigger] deeper[i],
        ) by {
            assert(deeper[i] == stack[i]);
        }
        assert forall|i: int| 0 <= i < list.len() implies leads_to(
            dependencies,
            deeper,
            #[trigger] list[i],
        ) by {
            assert(list.contains(list[i]));
        }
        lemma_walked_all(dependencies, list, complete, deeper);
        match walked_all(dependencies, list, complete, deeper) {
            Walk::Cycle(_) => {},
            Walk::Complete(inner) => {
                assert forall|to: Seq<char>| #[trigger] depends(
                    dependencies,
                    module,
                    to,
                ) implies inner.contains(to) by {
                    assert(list.contains(to));
                    let k = choose|k: int| 0 <= k < list.len() && list[k] == to;
                    assert(inner.contains(list[k]));
                }
                lemma_pushed_order(dependencies, inner, module);
                let whole = inner.push(module);
                assert(whole[inner.len() as int] == module);
                assert forall|i: int| 0 <= i < stack.len() implies !whole.contains(
                    #[trigger] stack[i],
                ) by {
                    assert(deeper[i] == stack[i]);
                    assert(!inner.contains(stack[i]));
                    if whole.contains(stack[i]) {
                        let k = choose|k: int| 0 <= k < whole.len() && whole[k] == stack[i];
                        if k < inner.len() {
                            assert(inner[k] == stack[i]);
                        } else {
                            assert(stack.contains(module));
                        }
                    }
                }
                assert forall|x: Seq<char>| complete.contains(x) implies #[trigger] whole.contains(
                    x,
                ) by {
                    assert(inner.contains(x));
                    let k = choose|k: int| 0 <= k < inner.len() && inner[k] == x;
                    assert(whole[k] == x);
                }
            },
        }
    }
}

proof fn lemma_walked_all(
    dependencies: Seq<Dependency>,
    modules: Seq<Seq<char>>,
    complete: Seq<Seq<char>>,
    stack: Seq<Seq<char>>,
)
    requires
        stack_holds(dependencies, stack, complete),
        forall|i: int|
            0 <= i < modules.len() ==> leads_to(dependencies, stack, #[trigger] modules[i]),
    ensures
        walk_holds(
            dependencies,
            stack,
            complete,
            walked_all(dependencies, modules, complete, stack),
        ),
        walked_all(dependencies, modules, complete, stack) matches Walk::Complete(list)
            ==> forall|i: int| 0 <= i < modules.len() ==> list.contains(#[trigger] modules[i]),
    decreases (dependencies.len() + 1 - stack.len()) as nat, modules.len(),
{
    if modules.len() > 0 {
        let front = modules.drop_last();
        assert forall|i: int| 0 <= i < front.len() implies leads_to(
            dependencies,
            stack,
            #[trigger] front[i],
        ) by {
            assert(front[i] == modules[i]);
        }
        lemma_walked_all(dependencies, front, complete, stack);
        match walked_all(dependencies, front, complete, stack) {
            Walk::Cycle(_) => {},
            Walk::Complete(inner) => {
                assert(leads_to(dependencies, stack, modules[modules.len() - 1]));
                lemma_walked(dependencies, modules.last(), inner, stack);
                match walked(dependencies, modules.last(), inner, stack) {
                    Walk::Cycle(_) => {},
                    Walk::Complete(list) => {
                        assert forall|i: int| 0 <= i < modules.len() implies list.contains(
                            #[trigger] modules[i],
                        ) by {
                            if i < front.len() {
                                assert(front[i] == modules[i]);
                                assert(inner.contains(front[i]));
                            }
                        }
                    },
                }
            },
        }
    }
}

/// What is reported as a cycle is one: it leads along dependencies from a module
/// back to it.
pub proof fn law_reported_cycles_are_cycles(registry: ModuleRegistry)
    ensures
        cycle_problem(registry) matches Some(message) ==> exists|list: Seq<Seq<char>>|
            is_cycle(registry.dependencies@, list) && message == "module cycle: "@ + #[trigger] joined(
                list,
                " -> "@,
            ),
{
    lemma_walked_all(
        registry.dependencies@,
        names(registry.records@),
        Seq::empty(),
        Seq::empty(),
    );
    if let Walk::Cycle(cycle) = module_walk(registry) {
        assert(is_cycle(registry.dependencies@, cycle));
        assert(cycle_problem(registry) == Some("module cycle: "@ + joined(cycle, " -> "@)));
    }
}

/// Whether what follows along a path stands ever earlier in an order.
proof fn lemma_descends(
    dependencies: Seq<Dependency>,
    order: Seq<Seq<char>>,
    path: Seq<Seq<char>>,
    count: int,
    place: int,
) -> (reached: int)
    requires
        is_order(dependencies, order),
        is_path(dependencies, path),
        0 <= count < path.len(),
        0 <= place < order.len(),
        order[place] == path[0],
    ensures
        0 <= reached <= place,
        reached < order.len(),
        order[reached] == path[count],
        count > 0 ==> reached < place,
    decreases count,
{
    if count == 0 {
        place
    } else {
        let before = lemma_descends(dependencies, order, path, count - 1, place);
        assert(depends(dependencies, path[count - 1], path[count - 1 + 1]));
        assert(depends(dependencies, order[before], path[count]));
        assert(order.take(before).contains(path[count]));
        let k = choose|k: int| 0 <= k < before && order.take(before)[k] == path[count];
        assert(order[k] == path[count]);
        k
    }
}

/// Where nothing is reported there is no cycle: no selected module leads along
/// dependencies back to itself.
pub proof fn law_no_cycle_goes_unreported(registry: ModuleRegistry, list: Seq<Seq<char>>)
    requires
        cycle_problem(registry) is None,
        list.len() > 0,
        names(registry.records@).contains(list[0]),
    ensures
        !is_cycle(registry.dependencies@, list),
{
    let all = names(registry.records@);
    lemma_walked_all(registry.dependencies@, all, Seq::empty(), Seq::empty());
    if let Walk::Complete(order) = module_walk(registry) {
        if is_cycle(registry.dependencies@, list) {
            let k = choose|k: int| 0 <= k < all.len() && all[k] == list[0];
            assert(order.contains(all[k]));
            lemma_found_place(order, list[0]);
            let place = first_place(order, list[0]);
            let reached = lemma_descends(
                registry.dependencies@,
                order,
                list,
                list.len() - 1,
                place,
            );
            lemma_before_first(order, list[0], reached);
        }
    }
}

proof fn lemma_before_first(list: Seq<Seq<char>>, name: Seq<char>, at: int)
    requires
        list.contains(name),
        0 <= at < first_place(list, name),
    ensures
        list[at] != name,
    decreases list.len(),
{
    if at > 0 {
        lemma_found_place(list, name);
        let k = choose|k: int| 0 <= k < list.len() && list[k] == name;
        assert(list.skip(1)[k - 1] == name);
        lemma_before_first(list.skip(1), name, at - 1);
        assert(list.skip(1)[at - 1] == list[at]);
    }
}

} // verus!
