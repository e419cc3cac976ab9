//! The Lua modules that template helpers are made of.
use vstd::prelude::*;
use vstd::string::*;

use crate::digest::{text_digest, text_digest_of};
use crate::error::{is_configuration, Diagnostic, Result, WombatError};
use crate::json::{array_value, compact, compact_text, all_contents, unsigned_value, JsonTree};
use crate::lua::diagnostics::{clean_lua_reason, line_among, line_of, find_line, parse_lua_line, reason_of};
use crate::lua::helper_payloads::{helper_cycle, source_views, SourceView};
use crate::lua::helpers::CONTRACT_VERSION;
use crate::lua::loading::{helper_module_path, helper_problem};
use crate::lua::state::TrackedSource;
use crate::model::manifest::{SourceFile, SourceLocation, SourceTrace, TemplateHelperPack};
use crate::model::wire::{template_helper_pack_trees, template_helper_pack_values};
use crate::number::{parse_unsigned, unsigned_parsed};
use crate::order::{add_name, before, precedes, with_name};
use crate::text::{
    cat2, cat3, cat4, chars_of, ends_with, find, first_occurrence, holds, occurs_at, pieces,
    push_text, replace_char, replaced, same, text_of, views,
};

verus! {

/// A helper module that was loaded.
#[derive(Debug, PartialEq)]
pub struct HelperModule {
    /// Its name
    pub name: String,
    /// Its source
    pub source: SourceFile,
    /// The modules that it asked for while it was loaded
    pub needs: Vec<String>,
}

/// The loaded module with a name.
pub open spec fn module_at(modules: Seq<HelperModule>, name: Seq<char>) -> Option<HelperModule>
    decreases modules.len(),
{
    if modules.len() == 0 {
        None
    } else if modules[0].name@ == name {
        Some(modules[0])
    } else {
        module_at(modules.skip(1), name)
    }
}

fn find_module<'a>(modules: &'a Vec<HelperModule>, name: &str) -> (r: Option<&'a HelperModule>)
    ensures
        match r {
            Some(module) => module_at(modules@, name@) == Some(*module),
            None => module_at(modules@, name@) is None,
        },
{
    let mut i: usize = 0;
    assert(modules@.skip(0) =~= modules@);
    while i < modules.len()
        invariant
            0 <= i <= modules@.len(),
            module_at(modules@, name@) == module_at(modules@.skip(i as int), name@),
        decreases modules@.len() - i,
    {
        assert(modules@.skip(i as int)[0] == modules@[i as int]);
        assert(modules@.skip(i as int).skip(1) =~= modules@.skip(i + 1));
        if same(modules[i].name.as_str(), name) {
            return Some(&modules[i]);
        }
        i += 1;
    }
    None
}

/// What a module asks for.
pub open spec fn needs_of(modules: Seq<HelperModule>, name: Seq<char>) -> Seq<Seq<char>> {
    match module_at(modules, name) {
        Some(module) => views(module.needs@),
        None => Seq::empty(),
    }
}

/// The modules that were seen once one is followed to all that it needs, or the one
/// that was not loaded.
pub open spec fn gathered(
    modules: Seq<HelperModule>,
    name: Seq<char>,
    seen: Seq<Seq<char>>,
    depth: nat,
) -> std::result::Result<Seq<Seq<char>>, Seq<char>>
    decreases depth, 0nat,
{
    if seen.contains(name) {
        Ok(seen)
    } else if module_at(modules, name) is None {
        Err(name)
    } else if depth == 0 {
        Ok(seen)
    } else {
        gathered_all(modules, needs_of(modules, name), seen.push(name), (depth - 1) as nat)
    }
}

/// The modules that were seen once each of some is followed.
pub open spec fn gathered_all(
    modules: Seq<HelperModule>,
    names: Seq<Seq<char>>,
    seen: Seq<Seq<char>>,
    depth: nat,
) -> std::result::Result<Seq<Seq<char>>, Seq<char>>
    decreases depth, names.len(),
{
    if names.len() == 0 {
        Ok(seen)
    } else {
        match gathered_all(modules, names.drop_last(), seen, depth) {
            Err(name) => Err(name),
            Ok(seen) => gathered(modules, names.last(), seen, depth),
        }
    }
}

proof fn lemma_gathered_front(
    modules: Seq<HelperModule>,
    names: Seq<Seq<char>>,
    seen: Seq<Seq<char>>,
    depth: nat,
    count: int,
)
    requires
        0 <= count <= names.len(),
        gathered_all(modules, names.take(count), seen, depth) is Err,
    ensures
        gathered_all(modules, names, seen, depth) == gathered_all(
            modules,
            names.take(count),
            seen,
            depth,
        ),
    decreases names.len() - count,
{
    if count < names.len() {
        assert(names.take(count + 1).drop_last() =~= names.take(count));
        lemma_gathered_front(modules, names, seen, depth, count + 1);
    } else {
        assert(names.take(count) =~= names);
    }
}

/// Whether what was seen is what there is to see.
pub open spec fn seen_is(
    r: Result<()>,
    seen: Seq<String>,
    wanted: std::result::Result<Seq<Seq<char>>, Seq<char>>,
) -> bool {
    match wanted {
        Ok(list) => r is Ok && views(seen) == list,
        Err(name) => r is Err && crate::error::is_invariant(
            r->Err_0,
            "loaded helper module `"@ + name + "` has no source identity"@,
        ),
    }
}

fn gather(modules: &Vec<HelperModule>, name: &str, seen: &mut Vec<String>, depth: usize) -> (r: Result<
    (),
>)
    ensures
        seen_is(
            r,
            final(seen)@,
            gathered(modules@, name@, views(old(seen)@), depth as nat),
        ),
    decreases depth,
{
    if holds(seen, name) {
        return Ok(());
    }
    let module = match find_module(modules, name) {
        Some(module) => module,
        None => {
            return Err(
                WombatError::Invariant(
                    cat3("loaded helper module `", name, "` has no source identity"),
                ),
            );
        },
    };
    if depth == 0 {
        return Ok(());
    }
    let ghost before_push = views(seen@);
    push_text(seen, name);
    let ghost start = views(seen@);
    let ghost all = needs_of(modules@, name@);
    let mut i: usize = 0;
    assert(module.needs@.len() == views(module.needs@).len());
    assert(all.take(0) =~= Seq::empty());
    while i < module.needs.len()
        invariant
            0 <= i <= module.needs@.len(),
            depth > 0,
            all == views(module.needs@),
            all == needs_of(modules@, name@),
            module_at(modules@, name@) is Some,
            start == before_push.push(name@),
            before_push == views(old(seen)@),
            !before_push.contains(name@),
            gathered_all(modules@, all.take(i as int), start, (depth - 1) as nat)
                == std::result::Result::<Seq<Seq<char>>, Seq<char>>::Ok(views(seen@)),
        decreases module.needs@.len() - i,
    {
        assert(all[i as int] == module.needs@[i as int]@);
        assert(all.take(i + 1).drop_last() =~= all.take(i as int));
        assert(all.take(i + 1).last() == all[i as int]);
        proof {
            if gathered_all(modules@, all.take(i + 1), start, (depth - 1) as nat) is Err {
                lemma_gathered_front(modules@, all, start, (depth - 1) as nat, i + 1);
            }
        }
        gather(modules, module.needs[i].as_str(), seen, depth - 1)?;
        i += 1;
    }
    assert(all.take(i as int) =~= all);
    Ok(())
}

/// The modules that a pack is made of: its own and all that it needs.
pub open spec fn modules_of(modules: Seq<HelperModule>, root: Seq<char>) -> std::result::Result<
    Seq<Seq<char>>,
    Seq<char>,
> {
    gathered(modules, root, Seq::empty(), (modules.len() + 1) as nat)
}

/// Names in their order.
pub open spec fn named_in_order(list: Seq<Seq<char>>) -> Seq<Seq<char>>
    decreases list.len(),
{
    if list.len() == 0 {
        list
    } else {
        with_name(named_in_order(list.drop_last()), list.last())
    }
}

/// Sources with one more, behind all that do not come after it.
pub open spec fn source_placed(list: Seq<SourceView>, item: SourceView) -> Seq<SourceView>
    decreases list.len(),
{
    if list.len() == 0 || !precedes(item.0, list.last().0) {
        list.push(item)
    } else {
        source_placed(list.drop_last(), item).push(list.last())
    }
}

/// The sources of modules, in the order of their paths.
pub open spec fn sources_of(modules: Seq<HelperModule>, names: Seq<Seq<char>>) -> Seq<SourceView>
    decreases names.len(),
{
    if names.len() == 0 {
        Seq::empty()
    } else {
        let source = module_at(modules, names.last())->0.source;
        source_placed(
            sources_of(modules, names.drop_last()),
            (source.path@, source.digest@),
        )
    }
}

proof fn lemma_source_placed(list: Seq<SourceView>, item: SourceView, at: int)
    requires
        0 <= at <= list.len(),
        at > 0 ==> !precedes(item.0, list[at - 1].0),
        forall|j: int| at <= j < list.len() ==> precedes(item.0, (#[trigger] list[j]).0),
    ensures
        source_placed(list, item) == list.insert(at, item),
    decreases list.len(),
{
    if at == list.len() {
        assert(list.insert(at, item) =~= list.push(item));
        if at > 0 {
            assert(list.last() == list[at - 1]);
        }
    } else {
        assert(list.last() == list[list.len() - 1]);
        lemma_source_placed(list.drop_last(), item, at);
        assert(list.insert(at, item) =~= list.drop_last().insert(at, item).push(list.last()));
    }
}

fn place_source(list: &mut Vec<SourceFile>, source: &SourceFile)
    ensures
        source_views(final(list)@) == source_placed(
            source_views(old(list)@),
            (source.path@, source.digest@),
        ),
{
    let ghost all = source_views(list@);
    let ghost item = (source.path@, source.digest@);
    let mut at: usize = list.len();
    while at > 0 && before(source.path.as_str(), list[at - 1].path.as_str())
        invariant
            0 <= at <= list@.len(),
            list@ == old(list)@,
            all == source_views(list@),
            item == (source.path@, source.digest@),
            forall|j: int| at <= j < list@.len() ==> precedes(item.0, (#[trigger] all[j]).0),
        decreases at,
    {
        assert(all[at - 1].0 == list@[at - 1].path@);
        at -= 1;
    }
    proof {
        if at > 0 {
            assert(all[at - 1].0 == list@[at - 1].path@);
        }
        lemma_source_placed(all, item, at as int);
    }
    list.insert(at, source.copy());
    assert(source_views(list@) =~= all.insert(at as int, item));
}

fn order_names(list: &Vec<String>) -> (r: Vec<String>)
    ensures
        views(r@) == named_in_order(views(list@)),
{
    let ghost all = views(list@);
    let mut r: Vec<String> = Vec::new();
    let mut i: usize = 0;
    assert(views(r@) =~= Seq::empty());
    assert(all.take(0) =~= Seq::empty());
    while i < list.len()
        invariant
            0 <= i <= list@.len(),
            all == views(list@),
            views(r@) == named_in_order(all.take(i as int)),
        decreases list@.len() - i,
    {
        assert(all[i as int] == list@[i as int]@);
        assert(all.take(i + 1).drop_last() =~= all.take(i as int));
        assert(all.take(i + 1).last() == all[i as int]);
        add_name(&mut r, list[i].as_str());
        i += 1;
    }
    assert(all.take(i as int) =~= all);
    r
}

/// Finds the sources of a pack: that of its module and of all that it needs, in the
/// order of their paths.
pub fn transitive_sources(modules: &Vec<HelperModule>, root: &str) -> (r: Result<Vec<SourceFile>>)
    requires
        modules@.len() < usize::MAX,
    ensures
        match modules_of(modules@, root@) {
            Ok(names) => r is Ok && source_views(r->Ok_0@) == sources_of(
                modules@,
                named_in_order(names),
            ),
            Err(name) => r is Err && crate::error::is_invariant(
                r->Err_0,
                "loaded helper module `"@ + name + "` has no source identity"@,
            ),
        },
{
    let mut seen: Vec<String> = Vec::new();
    assert(views(seen@) =~= Seq::empty());
    gather(modules, root, &mut seen, modules.len() + 1)?;
    proof {
        lemma_all_loaded(modules@, root@, Seq::empty(), (modules@.len() + 1) as nat);
        lemma_ordered_members(views(seen@));
    }
    let names = order_names(&seen);
    let ghost all = named_in_order(views(seen@));
    let mut list: Vec<SourceFile> = Vec::new();
    let mut i: usize = 0;
    assert(source_views(list@) =~= Seq::empty());
    assert(all.take(0) =~= Seq::empty());
    assert(names@.len() == views(names@).len());
    while i < names.len()
        invariant
            0 <= i <= names@.len(),
            views(names@) == all,
            names@.len() == all.len(),
            forall|j: int|
                0 <= j < all.len() ==> module_at(modules@, #[trigger] all[j]) is Some,
            source_views(list@) == sources_of(modules@, all.take(i as int)),
        decreases names@.len() - i,
    {
        assert(views(names@)[i as int] == names@[i as int]@);
        assert(all.take(i + 1).drop_last() =~= all.take(i as int));
        assert(all.take(i + 1).last() == all[i as int]);
        if let Some(module) = find_module(modules, names[i].as_str()) {
            place_source(&mut list, &module.source);
        }
        i += 1;
    }
    assert(all.take(i as int) =~= all);
    Ok(list)
}

/// Whether every name is that of a loaded module.
spec fn all_loaded(modules: Seq<HelperModule>, names: Seq<Seq<char>>) -> bool {
    forall|i: int| 0 <= i < names.len() ==> module_at(modules, #[trigger] names[i]) is Some
}

proof fn lemma_all_loaded(
    modules: Seq<HelperModule>,
    name: Seq<char>,
    seen: Seq<Seq<char>>,
    depth: nat,
)
    requires
        all_loaded(modules, seen),
    ensures
        gathered(modules, name, seen, depth) matches Ok(list) ==> all_loaded(modules, list),
    decreases depth, 0nat,
{
    if !seen.contains(name) && module_at(modules, name) is Some && depth > 0 {
        lemma_all_loaded_each(
            modules,
            needs_of(modules, name),
            seen.push(name),
            (depth - 1) as nat,
        );
    }
}

proof fn lemma_all_loaded_each(
    modules: Seq<HelperModule>,
    names: Seq<Seq<char>>,
    seen: Seq<Seq<char>>,
    depth: nat,
)
    requires
        all_loaded(modules, seen),
    ensures
        gathered_all(modules, names, seen, depth) matches Ok(list) ==> all_loaded(modules, list),
    decreases depth, names.len(),
{
    if names.len() > 0 {
        lemma_all_loaded_each(modules, names.drop_last(), seen, depth);
        if let Ok(inner) = gathered_all(modules, names.drop_last(), seen, depth) {
            lemma_all_loaded(modules, names.last(), inner, depth);
        }
    }
}

proof fn lemma_ordered_members(list: Seq<Seq<char>>)
    ensures
        forall|x: Seq<char>| #[trigger] named_in_order(list).contains(x) <==> list.contains(x),
        forall|i: int|
            0 <= i < named_in_order(list).len() ==> list.contains(
                #[trigger] named_in_order(list)[i],
            ),
    decreases list.len(),
{
    if list.len() > 0 {
        let front = list.drop_last();
        lemma_ordered_members(front);
        crate::lua::cycles::lemma_with_name_members(named_in_order(front), list.last());
        assert forall|x: Seq<char>| #[trigger] named_in_order(list).contains(x)
            <==> list.contains(x) by {
            assert(named_in_order(front).contains(x) <==> front.contains(x));
            if list.contains(x) {
                let k = choose|k: int| 0 <= k < list.len() && list[k] == x;
                if k < front.len() {
                    assert(front[k] == x);
                }
            }
            if front.contains(x) {
                let k = choose|k: int| 0 <= k < front.len() && front[k] == x;
                assert(list[k] == x);
            }
            assert(list[list.len() - 1] == list.last());
        }
    }
    assert forall|i: int| 0 <= i < named_in_order(list).len() implies list.contains(
        #[trigger] named_in_order(list)[i],
    ) by {
        assert(named_in_order(list).contains(named_in_order(list)[i]));
    }
}

/// Whether all that a module needs is in a list.
pub open spec fn provided(
    modules: Seq<HelperModule>,
    list: Seq<Seq<char>>,
    name: Seq<char>,
) -> bool {
    forall|i: int|
        0 <= i < needs_of(modules, name).len() ==> list.contains(
            #[trigger] needs_of(modules, name)[i],
        )
}

/// Whether modules were followed so far: the open ones are loaded modules that
/// differ, and all others have what they need.
spec fn following(
    modules: Seq<HelperModule>,
    seen: Seq<Seq<char>>,
    open: Seq<Seq<char>>,
) -> bool {
    &&& open.no_duplicates()
    &&& all_loaded(modules, open)
    &&& forall|i: int| 0 <= i < open.len() ==> seen.contains(#[trigger] open[i])
    &&& forall|x: Seq<char>|
        seen.contains(x) && !open.contains(x) ==> #[trigger] provided(modules, seen, x)
}

/// The names of loaded modules.
spec fn module_names(modules: Seq<HelperModule>) -> Seq<Seq<char>> {
    Seq::new(modules.len(), |i: int| modules[i].name@)
}

proof fn lemma_loaded_name(modules: Seq<HelperModule>, name: Seq<char>)
    requires
        module_at(modules, name) is Some,
    ensures
        module_names(modules).contains(name),
    decreases modules.len(),
{
    if modules[0].name@ == name {
        assert(module_names(modules)[0] == name);
    } else {
        lemma_loaded_name(modules.skip(1), name);
        let k = choose|k: int|
            0 <= k < modules.skip(1).len() && module_names(modules.skip(1))[k] == name;
        assert(module_names(modules)[k + 1] == name);
    }
}

proof fn lemma_open_bound(modules: Seq<HelperModule>, open: Seq<Seq<char>>)
    requires
        open.no_duplicates(),
        all_loaded(modules, open),
    ensures
        open.len() <= modules.len(),
{
    let names = module_names(modules);
    open.unique_seq_to_set();
    names.lemma_cardinality_of_set();
    assert forall|x: Seq<char>| open.to_set().contains(x) implies names.to_set().contains(x) by {
        let k = choose|k: int| 0 <= k < open.len() && open[k] == x;
        lemma_loaded_name(modules, open[k]);
    }
    vstd::set_lib::lemma_len_subset(open.to_set(), names.to_set());
}

proof fn lemma_more_seen(
    modules: Seq<HelperModule>,
    list: Seq<Seq<char>>,
    more: Seq<Seq<char>>,
    name: Seq<char>,
)
    requires
        provided(modules, list, name),
        forall|x: Seq<char>| list.contains(x) ==> #[trigger] more.contains(x),
    ensures
        provided(modules, more, name),
{
    assert forall|i: int| 0 <= i < needs_of(modules, name).len() implies more.contains(
        #[trigger] needs_of(modules, name)[i],
    ) by {
        assert(list.contains(needs_of(modules, name)[i]));
    }
}

proof fn lemma_gathered(
    modules: Seq<HelperModule>,
    name: Seq<char>,
    seen: Seq<Seq<char>>,
    depth: nat,
    open: Seq<Seq<char>>,
)
    requires
        following(modules, seen, open),
        depth + open.len() >= modules.len() + 1,
    ensures
        gathered(modules, name, seen, depth) matches Ok(list) ==> {
            &&& following(modules, list, open)
            &&& list.contains(name)
            &&& forall|x: Seq<char>| seen.contains(x) ==> #[trigger] list.contains(x)
        },
    decreases depth, 0nat,
{
    if seen.contains(name) {
    } else if module_at(modules, name) is Some {
        lemma_open_bound(modules, open);
        assert(depth > 0);
        let deeper = open.push(name);
        let more = seen.push(name);
        assert(more[seen.len() as int] == name);
        assert forall|x: Seq<char>| seen.contains(x) implies #[trigger] more.contains(x) by {
            let k = choose|k: int| 0 <= k < seen.len() && seen[k] == x;
            assert(more[k] == x);
        }
        assert(deeper.no_duplicates()) by {
            assert(!open.contains(name)) by {
                if open.contains(name) {
                    let k = choose|k: int| 0 <= k < open.len() && open[k] == name;
                    assert(seen.contains(open[k]));
                }
            }
        }
        assert forall|i: int| 0 <= i < deeper.len() implies more.contains(#[trigger] deeper[i]) by {
            if i < open.len() {
                assert(seen.contains(open[i]));
            }
        }
        assert forall|x: Seq<char>| more.contains(x) && !deeper.contains(
            x,
        ) implies #[trigger] provided(modules, more, x) by {
            assert(deeper[open.len() as int] == name);
            let k = choose|k: int| 0 <= k < more.len() && more[k] == x;
            assert(k < seen.len());
            assert(seen[k] == x);
            assert(!open.contains(x)) by {
                if open.contains(x) {
                    let m = choose|m: int| 0 <= m < open.len() && open[m] == x;
                    assert(deeper[m] == x);
                }
            }
            assert(provided(modules, seen, x));
            lemma_more_seen(modules, seen, more, x);
        }
        let needs = needs_of(modules, name);
        lemma_gathered_each(modules, needs, more, (depth - 1) as nat, deeper);
        if let Ok(list) = gathered_all(modules, needs, more, (depth - 1) as nat) {
            assert(provided(modules, list, name));
            assert forall|x: Seq<char>| list.contains(x) && !open.contains(
                x,
            ) implies #[trigger] provided(modules, list, x) by {
                if x != name {
                    assert(!deeper.contains(x)) by {
                        if deeper.contains(x) {
                            let m = choose|m: int| 0 <= m < deeper.len() && deeper[m] == x;
                            assert(open[m] == x);
                        }
                    }
                }
            }
            assert forall|i: int| 0 <= i < open.len() implies list.contains(#[trigger] open[i]) by {
                assert(deeper[i] == open[i]);
            }
            assert forall|x: Seq<char>| seen.contains(x) implies #[trigger] list.contains(x) by {
                assert(more.contains(x));
            }
            assert(list.contains(deeper[open.len() as int]));
        }
    }
}

proof fn lemma_gathered_each(
    modules: Seq<HelperModule>,
    names: Seq<Seq<char>>,
    seen: Seq<Seq<char>>,
    depth: nat,
    open: Seq<Seq<char>>,
)
    requires
        following(modules, seen, open),
        depth + open.len() >= modules.len() + 1,
    ensures
        gathered_all(modules, names, seen, depth) matches Ok(list) ==> {
            &&& following(modules, list, open)
            &&& forall|i: int| 0 <= i < names.len() ==> list.contains(#[trigger] names[i])
            &&& forall|x: Seq<char>| seen.contains(x) ==> #[trigger] list.contains(x)
        },
    decreases depth, names.len(),
{
    if names.len() > 0 {
        let front = names.drop_last();
        lemma_gathered_each(modules, front, seen, depth, open);
        if let Ok(inner) = gathered_all(modules, front, seen, depth) {
            lemma_gathered(modules, names.last(), inner, depth, open);
            if let Ok(list) = gathered(modules, names.last(), inner, depth) {
                assert forall|i: int| 0 <= i < names.len() implies list.contains(
                    #[trigger] names[i],
                ) by {
                    if i < front.len() {
                        assert(front[i] == names[i]);
                        assert(inner.contains(front[i]));
                    }
                }
                assert forall|x: Seq<char>| seen.contains(x) implies #[trigger] list.contains(x) by {
                    assert(inner.contains(x));
                }
            }
        }
    }
}

/// A pack is made of its own module and of all that its modules need: nothing that is
/// asked for is left out.
pub proof fn law_packs_have_all_they_need(modules: Seq<HelperModule>, root: Seq<char>)
    ensures
        modules_of(modules, root) matches Ok(list) ==> {
            &&& list.contains(root)
            &&& forall|x: Seq<char>| #[trigger] list.contains(x) ==> provided(modules, list, x)
        },
{
    let none = Seq::<Seq<char>>::empty();
    assert(following(modules, none, none));
    lemma_gathered(modules, root, none, (modules.len() + 1) as nat, none);
    if let Ok(list) = modules_of(modules, root) {
        assert forall|x: Seq<char>| #[trigger] list.contains(x) implies provided(
            modules,
            list,
            x,
        ) by {
            assert(!none.contains(x));
        }
    }
}

/// The digest of the packs of a plan and of their contract.
pub open spec fn registry_of(packs: Seq<TemplateHelperPack>) -> Seq<char> {
    text_digest_of(
        compact(
            JsonTree::Array(
                seq![
                    JsonTree::Integer(CONTRACT_VERSION as int),
                    JsonTree::Array(template_helper_pack_trees(packs)),
                ],
            ),
        ),
    )
}

/// Digests the packs of a plan and their contract.
pub fn registry_digest(packs: &Vec<TemplateHelperPack>) -> (r: String)
    ensures
        r@ == registry_of(packs@),
{
    let mut parts = Vec::new();
    parts.push(unsigned_value(CONTRACT_VERSION as u64));
    parts.push(template_helper_pack_values(packs));
    assert(all_contents(parts@) =~= seq![
        JsonTree::Integer(CONTRACT_VERSION as int),
        JsonTree::Array(template_helper_pack_trees(packs@)),
    ]);
    text_digest(compact_text(&array_value(parts)).as_str())
}

/// Where a helper function is defined. `source` is the path of its chunk, as messages
/// write it, where that is known.
pub fn function_location(module: &str, source: Option<&str>, line: Option<u32>) -> (r: SourceLocation)
    ensures
        r.source@ == match source {
            Some(path) => path@,
            None => "lua/"@ + replaced(module@, '.', "/"@) + ".lua"@,
        },
        r.line == line,
        r.column is None,
{
    let path = match source {
        Some(path) => path.to_string(),
        None => cat3("lua/", replace_char(module, '.', "/").as_str(), ".lua"),
    };
    SourceLocation { source: path, line, column: None }
}

/// What comes next when a module asks for another.
#[derive(Debug, PartialEq)]
pub enum HelperLoad {
    /// It was loaded before
    Cached,
    /// It is loaded from one of these files beneath the directory of modules, the
    /// first that is there
    Files(String, String),
}

/// What is wrong with asking for a module that was not loaded before.
pub open spec fn ask_problem(loading: Seq<Seq<char>>, module: Seq<char>) -> Option<Seq<char>> {
    if loading.contains(module) {
        Some(helper_cycle(module))
    } else {
        None
    }
}

/// Decides what comes next when a helper module is asked for. `loading` are the
/// modules that are being loaded.
pub fn load_module(modules: &Vec<HelperModule>, loading: &Vec<String>, module: &str) -> (r: Result<
    HelperLoad,
>)
    ensures
        if helper_problem(module@) is Some {
            crate::error::reports(r, helper_problem(module@))
        } else if module_at(modules@, module@) is Some {
            r matches Ok(HelperLoad::Cached)
        } else if ask_problem(views(loading@), module@) is Some {
            crate::error::reports(r, ask_problem(views(loading@), module@))
        } else {
            r matches Ok(HelperLoad::Files(direct, initial)) && direct@ == replaced(
                module@,
                '.',
                "/"@,
            ) + ".lua"@ && initial@ == replaced(module@, '.', "/"@) + "/init.lua"@
        },
{
    let relative = helper_module_path(module)?;
    if find_module(modules, module).is_some() {
        return Ok(HelperLoad::Cached);
    }
    if holds(loading, module) {
        return Err(
            WombatError::Configuration(
                cat3("template helper module dependency cycle includes `", module, "`"),
            ),
        );
    }
    Ok(
        HelperLoad::Files(
            cat2(relative.as_str(), ".lua"),
            cat2(relative.as_str(), "/init.lua"),
        ),
    )
}

/// The message about a module that is nowhere.
pub fn missing_module(module: &str) -> (r: WombatError)
    ensures
        is_configuration(
            r,
            "cannot find template helper module `"@ + module@ + "` under `lua/`"@,
        ),
{
    WombatError::Configuration(
        cat3("cannot find template helper module `", module, "` under `lua/`"),
    )
}

/// Where text first stands.
pub open spec fn first_at(text: Seq<char>, needle: Seq<char>) -> Option<int> {
    if exists|i: int| first_occurrence(text, needle, i) {
        Some(choose|i: int| first_occurrence(text, needle, i))
    } else {
        None
    }
}

fn find_first(text: &str, needle: &str) -> (r: Option<usize>)
    ensures
        match r {
            Some(at) => first_at(text@, needle@) == Some(at as int) && occurs_at(
                text@,
                needle@,
                at as int,
            ),
            None => first_at(text@, needle@) is None,
        },
{
    match find(text, needle) {
        Some(at) => {
            proof {
                let other = choose|i: int| first_occurrence(text@, needle@, i);
                assert(first_occurrence(text@, needle@, at as int));
                assert(first_occurrence(text@, needle@, other));
                if other < at {
                    assert(!occurs_at(text@, needle@, other));
                } else if at < other {
                    assert(!occurs_at(text@, needle@, at as int));
                }
            }
            Some(at)
        },
        None => None,
    }
}

/// The place that a message names in a source: where the source first stands in it,
/// and the line behind the colon that follows.
pub open spec fn place_in(raw: Seq<char>, source: Seq<char>) -> Option<(int, nat)> {
    match first_at(raw, source) {
        None => None,
        Some(at) => {
            let colon = at + source.len();
            let end = crate::lua::diagnostics::digits_end(raw, colon + 1);
            if colon < raw.len() && raw[colon] == ':' {
                match unsigned_parsed(raw.subrange(colon + 1, end), u32::MAX as nat) {
                    Some(line) => Some((at, line)),
                    None => None,
                }
            } else {
                None
            }
        },
    }
}

fn find_place(raw: &str, source: &str) -> (r: Option<(usize, u32)>)
    ensures
        match r {
            Some(place) => place_in(raw@, source@) == Some((place.0 as int, place.1 as nat)),
            None => place_in(raw@, source@) is None,
        },
{
    let at = match find_first(raw, source) {
        Some(at) => at,
        None => {
            return None;
        },
    };
    let chars = chars_of(raw);
    let total = chars.len();
    let length = source.unicode_len();
    assert(at + length <= total);
    let colon = at + length;
    if colon >= total || chars[colon] != ':' {
        return None;
    }
    let mut end: usize = colon + 1;
    while end < chars.len() && '0' <= chars[end] && chars[end] <= '9'
        invariant
            colon < end <= chars@.len(),
            chars@ == raw@,
            crate::lua::diagnostics::digits_end(raw@, colon + 1)
                == crate::lua::diagnostics::digits_end(raw@, end as int),
        decreases chars@.len() - end,
    {
        end += 1;
    }
    let digits = text_of(&chars, colon + 1, end);
    assert(digits@ =~= raw@.subrange(colon + 1, end as int));
    match parse_unsigned(digits.as_str(), u32::MAX as u64) {
        Some(line) => Some((at, line as u32)),
        None => None,
    }
}

/// The place that a message names first, among sources: the source, where it stands
/// in the message, and the line.
pub open spec fn named_place(raw: Seq<char>, sources: Seq<TrackedSource>) -> Option<
    (Seq<char>, int, nat),
>
    decreases sources.len(),
{
    if sources.len() == 0 {
        None
    } else {
        let path = sources.last().manifest.path@;
        match (named_place(raw, sources.drop_last()), place_in(raw, path)) {
            (None, None) => None,
            (None, Some(place)) => Some((path, place.0, place.1)),
            (Some(best), None) => Some(best),
            (Some(best), Some(place)) => if place.0 < best.1 {
                Some((path, place.0, place.1))
            } else {
                Some(best)
            },
        }
    }
}

/// The source of a module, as far as it is known.
pub open spec fn source_of(sources: Seq<TrackedSource>, module: Seq<char>) -> Seq<char>
    decreases sources.len(),
{
    let relative = replaced(module, '.', "/"@);
    if sources.len() == 0 {
        "lua/"@ + relative + ".lua"@
    } else if ("/"@ + relative + ".lua"@).is_suffix_of(sources[0].manifest.path@) || ("/"@
        + relative + "/init.lua"@).is_suffix_of(sources[0].manifest.path@) {
        sources[0].manifest.path@
    } else {
        source_of(sources.skip(1), module)
    }
}

fn find_source_of(sources: &Vec<TrackedSource>, module: &str) -> (r: String)
    ensures
        r@ == source_of(sources@, module@),
{
    let relative = replace_char(module, '.', "/");
    let direct = cat3("/", relative.as_str(), ".lua");
    let initial = cat3("/", relative.as_str(), "/init.lua");
    let mut i: usize = 0;
    assert(sources@.skip(0) =~= sources@);
    while i < sources.len()
        invariant
            0 <= i <= sources@.len(),
            relative@ == replaced(module@, '.', "/"@),
            direct@ == "/"@ + relative@ + ".lua"@,
            initial@ == "/"@ + relative@ + "/init.lua"@,
            source_of(sources@, module@) == source_of(sources@.skip(i as int), module@),
        decreases sources@.len() - i,
    {
        assert(sources@.skip(i as int)[0] == sources@[i as int]);
        assert(sources@.skip(i as int).skip(1) =~= sources@.skip(i + 1));
        let path = sources[i].manifest.path.as_str();
        if ends_with(path, direct.as_str()) || ends_with(path, initial.as_str()) {
            return sources[i].manifest.path.clone();
        }
        i += 1;
    }
    cat3("lua/", relative.as_str(), ".lua")
}

/// Where a message about a helper module places the error.
pub open spec fn error_place(
    sources: Seq<TrackedSource>,
    module: Seq<char>,
    raw: Seq<char>,
) -> (Seq<char>, Option<nat>) {
    match named_place(raw, sources) {
        Some(place) => (place.0, Some(place.2)),
        None => (source_of(sources, module), line_among(pieces(raw, ':'))),
    }
}

/// Finds where a message about a helper module places the error.
pub fn helper_error_location(sources: &Vec<TrackedSource>, module: &str, raw: &str) -> (r: (
    String,
    Option<u32>,
))
    ensures
        r.0@ == error_place(sources@, module@, raw@).0,
        match r.1 {
            Some(line) => error_place(sources@, module@, raw@).1 == Some(line as nat),
            None => error_place(sources@, module@, raw@).1 is None,
        },
{
    let mut best: Option<(usize, usize, u32)> = None;
    let mut i: usize = 0;
    assert(sources@.take(0) =~= Seq::empty());
    while i < sources.len()
        invariant
            0 <= i <= sources@.len(),
            match best {
                Some(found) => found.0 < sources@.len() && named_place(
                    raw@,
                    sources@.take(i as int),
                ) == Some(
                    (
                        sources@[found.0 as int].manifest.path@,
                        found.1 as int,
                        found.2 as nat,
                    ),
                ),
                None => named_place(raw@, sources@.take(i as int)) is None,
            },
        decreases sources@.len() - i,
    {
        assert(sources@.take(i + 1).drop_last() =~= sources@.take(i as int));
        assert(sources@.take(i + 1).last() == sources@[i as int]);
        if let Some((at, line)) = find_place(raw, sources[i].manifest.path.as_str()) {
            let better = match best {
                Some(found) => at < found.1,
                None => true,
            };
            if better {
                best = Some((i, at, line));
            }
        }
        i += 1;
    }
    assert(sources@.take(i as int) =~= sources@);
    match best {
        Some(found) => (sources[found.0].manifest.path.clone(), Some(found.2)),
        None => (find_source_of(sources, module), parse_lua_line(raw)),
    }
}

/// Whether an error tells that a pack could not be loaded.
pub open spec fn load_failure(
    error: WombatError,
    sources: Seq<TrackedSource>,
    module: Seq<char>,
    declaration: SourceTrace,
    raw: Seq<char>,
) -> bool {
    let place = error_place(sources, module, raw);
    error matches WombatError::Located(d) && d.message@
        == "failed to load template helper pack `"@ + module + "`: "@ + reason_of(raw)
        && d.primary is Some && d.primary->0.source@ == place.0 && d.primary->0.column is None
        && (match d.primary->0.line {
        Some(line) => place.1 == Some(line as nat),
        None => place.1 is None,
    }) && (match d.source_line {
        Some(text) => line_of(sources, d.primary->0) == Some(text@),
        None => line_of(sources, d.primary->0) is None,
    }) && d.user_frames@.len() == 0 && views(d.notes@) == seq![
        "registered at "@ + declaration.text(),
    ] && d.underlying is Some && d.underlying->0@ == raw
}

/// Tells that a pack could not be loaded: where, and where it was declared.
pub fn helper_load_error(
    sources: &Vec<TrackedSource>,
    module: &str,
    declaration: &SourceTrace,
    raw: &str,
) -> (r: WombatError)
    ensures
        load_failure(r, sources@, module@, *declaration, raw@),
{
    let (source, line) = helper_error_location(sources, module, raw);
    let message = cat4(
        "failed to load template helper pack `",
        module,
        "`: ",
        clean_lua_reason(raw).as_str(),
    );
    let mut diagnostic = Diagnostic::new(message.as_str());
    assert(views(diagnostic.notes@) =~= Seq::empty());
    let place = SourceLocation { source, line, column: None };
    diagnostic.source_line = find_line(sources, &place);
    diagnostic.primary = Some(place);
    let note = cat2("registered at ", declaration.display().as_str());
    push_text(&mut diagnostic.notes, note.as_str());
    assert(views(diagnostic.notes@) =~= seq!["registered at "@ + declaration.text()]);
    diagnostic.underlying = Some(raw.to_string());
    WombatError::Located(diagnostic)
}

} // verus!
