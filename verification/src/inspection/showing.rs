//! What inspections and explanations promise: everything is shown, and what is explained is
//! what was asked about.
use vstd::prelude::*;
use vstd::string::*;

use crate::inspection::explain::{
    artifact_problem, asks_for, module_named, named_places, names_artifact, own_preparations,
    preparation_named, provider_named, recorded, relationships, requirement_explained,
    requirements_explained, subject_of, task_named, Subject,
};
use crate::inspection::sections::{
    is_script, listed, outcome_items, outcome_text, set_in, stacked, JournalAction,
};
use crate::model::manifest::{
    Artifact, Dependency, Manifest, ManifestModule, Provider, ProviderPreparation,
    Requirement, Script, SourceFile, Task,
};
use crate::model::path::path_join;
use crate::text::{
    cut, holds_text, lemma_holds_itself, lemma_holds_within, lemma_pieces, lemma_pieces_concat,
    lemma_pieces_single, lines, occurs_at, pieces,
};

verus! {

/// A list shows its title and every item, each from a line of its own on; an empty list
/// says that there is nothing.
pub proof fn law_lists_show_every_item(title: Seq<char>, items: Seq<Seq<char>>, at: int)
    ensures
        title.is_prefix_of(listed(title, items)),
        items.len() == 0 ==> listed(title, items) == title + "\n  none\n"@,
        0 <= at < items.len() ==> holds_text(listed(title, items), set_in(lines(items[at]))),
        0 <= at < items.len() && lines(items[at]).len() > 0 ==> holds_text(
            listed(title, items),
            "  "@ + lines(items[at])[0] + "\n"@,
        ),
{
    let text = listed(title, items);
    assert(text.subrange(0, title.len() as int) =~= title);
    if 0 <= at < items.len() {
        let front = title + "\n"@;
        let none = Seq::<char>::empty();
        let part = set_in(lines(items[at]));
        lemma_stacked(items, at);
        lemma_holds_within(front, stacked(items), none, part);
        assert(front + stacked(items) + none =~= text);
        if lines(items[at]).len() > 0 {
            let first = "  "@ + lines(items[at])[0] + "\n"@;
            lemma_set_in(lines(items[at]));
            lemma_holds_inside(text, part, first);
        }
    }
}

proof fn lemma_stacked(items: Seq<Seq<char>>, at: int)
    requires
        0 <= at < items.len(),
    ensures
        holds_text(stacked(items), set_in(lines(items[at]))),
    decreases items.len(),
{
    let front = stacked(items.drop_last());
    let back = set_in(lines(items.last()));
    let none = Seq::<char>::empty();
    let part = set_in(lines(items[at]));
    if at == items.len() - 1 {
        lemma_holds_itself(part);
        lemma_holds_within(front, back, none, part);
        assert(front + back + none =~= stacked(items));
    } else {
        lemma_stacked(items.drop_last(), at);
        lemma_holds_within(none, front, back, part);
        assert(none + front + back =~= stacked(items));
    }
}

proof fn lemma_set_in(item: Seq<Seq<char>>)
    requires
        item.len() > 0,
    ensures
        holds_text(set_in(item), "  "@ + item[0] + "\n"@),
    decreases item.len(),
{
    let none = Seq::<char>::empty();
    let first = "  "@ + item[0] + "\n"@;
    if item.len() == 1 {
        assert(set_in(item.drop_last()) =~= none);
        assert(set_in(item) =~= first);
        lemma_holds_itself(first);
    } else {
        lemma_set_in(item.drop_last());
        let back = "    "@ + item.last() + "\n"@;
        lemma_holds_within(none, set_in(item.drop_last()), back, first);
        assert(none + set_in(item.drop_last()) + back =~= set_in(item));
    }
}

/// What a part of a text holds the text holds.
proof fn lemma_holds_inside(text: Seq<char>, part: Seq<char>, inner: Seq<char>)
    requires
        holds_text(text, part),
        holds_text(part, inner),
    ensures
        holds_text(text, inner),
{
    let at = choose|at: int| occurs_at(text, part, at);
    let front = text.take(at);
    let back = text.skip(at + part.len());
    assert(front + part + back =~= text);
    lemma_holds_within(front, part, back, inner);
}

/// The outcomes that are shown are those of the scripts of a product, every one of them.
pub proof fn law_outcomes_of_scripts_are_shown(
    actions: Seq<JournalAction>,
    scripts: Seq<Script>,
    at: int,
)
    requires
        0 <= at < actions.len(),
    ensures
        (exists|k: int| 0 <= k < scripts.len() && (#[trigger] scripts[k]).identity@ == actions[at].identity@)
            ==> outcome_items(actions, scripts).contains(outcome_text(actions[at])),
        outcome_items(actions, scripts).len() <= actions.len(),
        (forall|k: int| 0 <= k < actions.len() ==> !is_script(scripts, (#[trigger] actions[k]).identity@))
            ==> outcome_items(actions, scripts).len() == 0,
    decreases actions.len(),
{
    let front = actions.drop_last();
    let last = actions.len() - 1;
    let rest = outcome_items(front, scripts);
    let all = outcome_items(actions, scripts);
    if front.len() > 0 {
        law_outcomes_of_scripts_are_shown(
            front,
            scripts,
            if at < last {
                at
            } else {
                0
            },
        );
    }
    assert(actions[last] == actions.last());
    if is_script(scripts, actions[at].identity@) {
        if at < last {
            let i = choose|i: int| 0 <= i < rest.len() && rest[i] == outcome_text(actions[at]);
            assert(all[i] == rest[i]);
        } else {
            assert(all[rest.len() as int] == outcome_text(actions[at]));
        }
    }
    if forall|k: int| 0 <= k < actions.len() ==> !is_script(scripts, (#[trigger] actions[k]).identity@) {
        assert forall|k: int| 0 <= k < front.len() implies !is_script(
            scripts,
            (#[trigger] front[k]).identity@,
        ) by {
            assert(front[k] == actions[k]);
        }
    }
}

/// What is looked up by its name is found under it, and missing only where nothing has it.
pub proof fn law_what_is_named_is_found(manifest: Manifest, name: Seq<char>)
    ensures
        match task_named(manifest.tasks@, name) {
            Some(task) => task.identity@ == name && manifest.tasks@.contains(task),
            None => forall|i: int|
                0 <= i < manifest.tasks@.len() ==> (#[trigger] manifest.tasks@[i]).identity@
                    != name,
        },
        match provider_named(manifest.providers@, name) {
            Some(provider) => provider.name@ == name && manifest.providers@.contains(provider),
            None => forall|i: int|
                0 <= i < manifest.providers@.len() ==> (#[trigger] manifest.providers@[i]).name@
                    != name,
        },
        match module_named(manifest.modules@, name) {
            Some(module) => module.name@ == name && manifest.modules@.contains(module),
            None => forall|i: int|
                0 <= i < manifest.modules@.len() ==> (#[trigger] manifest.modules@[i]).name@ != name,
        },
        match recorded(manifest.sources@, name) {
            Some(source) => source.path@ == name && manifest.sources@.contains(source),
            None => forall|i: int|
                0 <= i < manifest.sources@.len() ==> (#[trigger] manifest.sources@[i]).path@ != name,
        },
        match preparation_named(manifest.preparations@, name) {
            Some(operation) => operation.provider@ + ":"@ + operation.identity@ == name
                && manifest.preparations@.contains(operation),
            None => forall|i: int|
                0 <= i < manifest.preparations@.len() ==> (
                #[trigger] manifest.preparations@[i]).provider@ + ":"@
                    + manifest.preparations@[i].identity@ != name,
        },
{
    lemma_task_named(manifest.tasks@, name);
    lemma_provider_named(manifest.providers@, name);
    lemma_module_named(manifest.modules@, name);
    lemma_recorded(manifest.sources@, name);
    lemma_preparation_named(manifest.preparations@, name);
}

proof fn lemma_task_named(list: Seq<Task>, name: Seq<char>)
    ensures
        match task_named(list, name) {
            Some(found) => found.identity@ == name && list.contains(found),
            None => forall|i: int| 0 <= i < list.len() ==> (#[trigger] list[i]).identity@ != name,
        },
    decreases list.len(),
{
    if list.len() > 0 {
        let rest = list.skip(1);
        lemma_task_named(rest, name);
        assert(list[0] == list[0]);
        if task_named(list, name) is None {
            assert forall|i: int| 0 <= i < list.len() implies (#[trigger] list[i]).identity@
                != name by {
                if i > 0 {
                    assert(rest[i - 1] == list[i]);
                }
            }
        } else if list[0].identity@ != name {
            let found = task_named(rest, name)->0;
            let i = choose|i: int| 0 <= i < rest.len() && rest[i] == found;
            assert(list[i + 1] == found);
        }
    }
}

proof fn lemma_provider_named(list: Seq<Provider>, name: Seq<char>)
    ensures
        match provider_named(list, name) {
            Some(found) => found.name@ == name && list.contains(found),
            None => forall|i: int| 0 <= i < list.len() ==> (#[trigger] list[i]).name@ != name,
        },
    decreases list.len(),
{
    if list.len() > 0 {
        let rest = list.skip(1);
        lemma_provider_named(rest, name);
        assert(list[0] == list[0]);
        if provider_named(list, name) is None {
            assert forall|i: int| 0 <= i < list.len() implies (#[trigger] list[i]).name@
                != name by {
                if i > 0 {
                    assert(rest[i - 1] == list[i]);
                }
            }
        } else if list[0].name@ != name {
            let found = provider_named(rest, name)->0;
            let i = choose|i: int| 0 <= i < rest.len() && rest[i] == found;
            assert(list[i + 1] == found);
        }
    }
}

proof fn lemma_module_named(list: Seq<ManifestModule>, name: Seq<char>)
    ensures
        match module_named(list, name) {
            Some(found) => found.name@ == name && list.contains(found),
            None => forall|i: int| 0 <= i < list.len() ==> (#[trigger] list[i]).name@ != name,
        },
    decreases list.len(),
{
    if list.len() > 0 {
        let rest = list.skip(1);
        lemma_module_named(rest, name);
        assert(list[0] == list[0]);
        if module_named(list, name) is None {
            assert forall|i: int| 0 <= i < list.len() implies (#[trigger] list[i]).name@
                != name by {
                if i > 0 {
                    assert(rest[i - 1] == list[i]);
                }
            }
        } else if list[0].name@ != name {
            let found = module_named(rest, name)->0;
            let i = choose|i: int| 0 <= i < rest.len() && rest[i] == found;
            assert(list[i + 1] == found);
        }
    }
}

proof fn lemma_recorded(list: Seq<SourceFile>, name: Seq<char>)
    ensures
        match recorded(list, name) {
            Some(found) => found.path@ == name && list.contains(found),
            None => forall|i: int| 0 <= i < list.len() ==> (#[trigger] list[i]).path@ != name,
        },
    decreases list.len(),
{
    if list.len() > 0 {
        let rest = list.skip(1);
        lemma_recorded(rest, name);
        assert(list[0] == list[0]);
        if recorded(list, name) is None {
            assert forall|i: int| 0 <= i < list.len() implies (#[trigger] list[i]).path@
                != name by {
                if i > 0 {
                    assert(rest[i - 1] == list[i]);
                }
            }
        } else if list[0].path@ != name {
            let found = recorded(rest, name)->0;
            let i = choose|i: int| 0 <= i < rest.len() && rest[i] == found;
            assert(list[i + 1] == found);
        }
    }
}

proof fn lemma_preparation_named(list: Seq<ProviderPreparation>, name: Seq<char>)
    ensures
        match preparation_named(list, name) {
            Some(found) => found.provider@ + ":"@ + found.identity@ == name && list.contains(found),
            None => forall|i: int| 0 <= i < list.len() ==> (#[trigger] list[i]).provider@ + ":"@ + list[i].identity@ != name,
        },
    decreases list.len(),
{
    if list.len() > 0 {
        let rest = list.skip(1);
        lemma_preparation_named(rest, name);
        assert(list[0] == list[0]);
        if preparation_named(list, name) is None {
            assert forall|i: int| 0 <= i < list.len() implies (#[trigger] list[i]).provider@ + ":"@ + list[i].identity@
                != name by {
                if i > 0 {
                    assert(rest[i - 1] == list[i]);
                }
            }
        } else if list[0].provider@ + ":"@ + list[0].identity@ != name {
            let found = preparation_named(rest, name)->0;
            let i = choose|i: int| 0 <= i < rest.len() && rest[i] == found;
            assert(list[i + 1] == found);
        }
    }
}

/// Whether an artifact is meant by a selector: by its target, by its source or by where it
/// stands in the home directory.
pub open spec fn meant(artifact: Artifact, home: Option<&str>, selector: Seq<char>) -> bool {
    ||| artifact.target.path@ == selector
    ||| artifact.source@ == selector
    ||| home is Some && path_join((home->0)@, artifact.target.path@) == selector
}

/// An artifact is explained where it is the only one that is meant; where none or more than
/// one is meant, that is an error.
pub proof fn law_one_artifact_is_meant(manifest: Manifest, home: Option<&str>, selector: Seq<char>)
    ensures
        artifact_problem(manifest, home, selector) is None ==> {
            let place = named_places(manifest.artifacts@, home, selector)[0];
            &&& 0 <= place < manifest.artifacts@.len()
            &&& meant(manifest.artifacts@[place], home, selector)
            &&& forall|i: int|
                0 <= i < manifest.artifacts@.len() && i != place ==> !meant(
                    #[trigger] manifest.artifacts@[i],
                    home,
                    selector,
                )
        },
        (exists|place: int|
            0 <= place < manifest.artifacts@.len() && meant(
                #[trigger] manifest.artifacts@[place],
                home,
                selector,
            ) && forall|i: int|
                0 <= i < manifest.artifacts@.len() && i != place ==> !meant(
                    #[trigger] manifest.artifacts@[i],
                    home,
                    selector,
                )) ==> artifact_problem(manifest, home, selector) is None,
{
    let list = manifest.artifacts@;
    let places = named_places(list, home, selector);
    lemma_places(list, home, selector);
    if places.len() == 1 {
        assert forall|i: int| 0 <= i < list.len() && i != places[0] implies !meant(
            #[trigger] list[i],
            home,
            selector,
        ) by {
            if meant(list[i], home, selector) {
                assert(places.contains(i));
            }
        }
        assert(places.contains(places[0]));
    }
    if exists|place: int|
        0 <= place < list.len() && meant(#[trigger] list[place], home, selector) && forall|i: int|
            0 <= i < list.len() && i != place ==> !meant(#[trigger] list[i], home, selector) {
        let place = choose|place: int|
            0 <= place < list.len() && meant(#[trigger] list[place], home, selector) && forall|
                i: int,
            |
                0 <= i < list.len() && i != place ==> !meant(#[trigger] list[i], home, selector);
        assert(places.contains(place));
        if places.len() > 1 {
            assert(places.contains(places[0]) && places.contains(places[1]));
            assert(meant(list[places[0]], home, selector) && meant(list[places[1]], home, selector));
        }
    }
}

proof fn lemma_places(list: Seq<Artifact>, home: Option<&str>, selector: Seq<char>)
    ensures
        forall|i: int| #[trigger]
            named_places(list, home, selector).contains(i) <==> 0 <= i < list.len() && meant(
                list[i],
                home,
                selector,
            ),
        forall|i: int, j: int|
            0 <= i < j < named_places(list, home, selector).len() ==> #[trigger] named_places(
                list,
                home,
                selector,
            )[i] < #[trigger] named_places(list, home, selector)[j],
    decreases list.len(),
{
    if list.len() > 0 {
        let front = list.drop_last();
        let last = list.len() - 1;
        let rest = named_places(front, home, selector);
        let all = named_places(list, home, selector);
        lemma_places(front, home, selector);
        assert(names_artifact(list[last], home, selector) == meant(list[last], home, selector));
        assert forall|i: int| #[trigger] all.contains(i) <==> 0 <= i < list.len() && meant(
            list[i],
            home,
            selector,
        ) by {
            assert(rest.contains(i) <==> 0 <= i < front.len() && meant(front[i], home, selector));
            if rest.contains(i) {
                let k = choose|k: int| 0 <= k < rest.len() && rest[k] == i;
                assert(all[k] == i);
            }
            if i == last && meant(list[last], home, selector) {
                assert(all[rest.len() as int] == last);
            }
            if all.contains(i) {
                let k = choose|k: int| 0 <= k < all.len() && all[k] == i;
                if k < rest.len() {
                    assert(rest[k] == i);
                }
            }
        }
        assert forall|i: int, j: int| 0 <= i < j < all.len() implies #[trigger] all[i]
            < #[trigger] all[j] by {
            if j < rest.len() {
                assert(rest[i] < rest[j]);
            } else {
                assert(rest.contains(rest[i]));
            }
        }
    }
}

/// A selector says what it is about: its lead tells tasks, providers, preparations and
/// requirements from artifacts.
pub proof fn law_selectors_say_what_they_are_about(rest: Seq<char>)
    ensures
        subject_of("task:"@ + rest) == Subject::Task(rest),
        subject_of("provider:"@ + rest) == Subject::Provider(rest),
        subject_of("preparation:"@ + rest) == Subject::Preparation(rest),
        subject_of("command:"@ + rest) == Subject::Requirement("command"@, rest),
        subject_of("package:"@ + rest) == Subject::Requirement("package"@, rest),
        !rest.contains(':') ==> subject_of(rest) == Subject::Artifact,
{
    lemma_task_subject(rest);
    lemma_provider_subject(rest);
    lemma_preparation_subject(rest);
    lemma_command_subject(rest);
    lemma_package_subject(rest);
    if !rest.contains(':') {
        lemma_pieces_single(rest, ':');
        lemma_foreign_plain(rest);
    }
}

proof fn lemma_task_subject(rest: Seq<char>)
    ensures
        subject_of("task:"@ + rest) == Subject::Task(rest),
{
    lemma_led("task:"@, rest);
}

proof fn lemma_provider_subject(rest: Seq<char>)
    ensures
        subject_of("provider:"@ + rest) == Subject::Provider(rest),
{
    let whole = "provider:"@ + rest;
    lemma_led("provider:"@, rest);
    assert(!"task:"@.is_prefix_of(whole)) by {
        reveal_strlit("task:");
        reveal_strlit("provider:");
        if "task:"@.is_prefix_of(whole) {
            assert(whole.subrange(0, 5)[0] == 't');
        }
    }
}

proof fn lemma_preparation_subject(rest: Seq<char>)
    ensures
        subject_of("preparation:"@ + rest) == Subject::Preparation(rest),
{
    let whole = "preparation:"@ + rest;
    lemma_led("preparation:"@, rest);
    assert(!"task:"@.is_prefix_of(whole) && !"provider:"@.is_prefix_of(whole)) by {
        reveal_strlit("task:");
        reveal_strlit("provider:");
        reveal_strlit("preparation:");
        if "task:"@.is_prefix_of(whole) {
            assert(whole.subrange(0, 5)[0] == 't');
        }
        if "provider:"@.is_prefix_of(whole) {
            assert(whole.subrange(0, 9)[2] == 'o');
        }
    }
}

proof fn lemma_command_subject(rest: Seq<char>)
    ensures
        subject_of("command:"@ + rest) == Subject::Requirement("command"@, rest),
{
    let whole = "command:"@ + rest;
    assert(whole[0] == 'c' && whole.len() > 2 && whole == "command"@.push(':') + rest
        && !"command"@.contains(':')) by {
        reveal_strlit("command:");
        reveal_strlit("command");
        assert(whole =~= "command"@.push(':') + rest);
    }
    lemma_plain_lead("command"@, rest);
    lemma_foreign(whole);
}

proof fn lemma_package_subject(rest: Seq<char>)
    ensures
        subject_of("package:"@ + rest) == Subject::Requirement("package"@, rest),
{
    let whole = "package:"@ + rest;
    assert(whole[0] == 'p' && whole[1] == 'a' && whole.len() > 2 && whole == "package"@.push(':')
        + rest && !"package"@.contains(':')) by {
        reveal_strlit("package:");
        reveal_strlit("package");
        assert(whole =~= "package"@.push(':') + rest);
    }
    lemma_plain_lead("package"@, rest);
    lemma_foreign(whole);
}

proof fn lemma_led(lead: Seq<char>, rest: Seq<char>)
    ensures
        lead.is_prefix_of(lead + rest),
        (lead + rest).skip(lead.len() as int) == rest,
{
    assert((lead + rest).subrange(0, lead.len() as int) =~= lead);
    assert((lead + rest).skip(lead.len() as int) =~= rest);
}

proof fn lemma_plain_lead(lead: Seq<char>, rest: Seq<char>)
    requires
        !lead.contains(':'),
    ensures
        cut(lead.push(':') + rest, ':') == Some((lead, rest)),
{
    lemma_pieces_single(lead, ':');
    lemma_pieces_concat(lead, rest, ':');
    lemma_pieces(rest, ':');
    let whole = lead.push(':') + rest;
    assert(pieces(whole, ':')[0] == lead);
    assert(whole.skip(lead.len() as int + 1) =~= rest);
}

proof fn lemma_foreign(text: Seq<char>)
    requires
        text.len() > 2,
        text[0] == 'c' || (text[0] == 'p' && text[1] == 'a'),
    ensures
        !"task:"@.is_prefix_of(text),
        !"provider:"@.is_prefix_of(text),
        !"preparation:"@.is_prefix_of(text),
{
    reveal_strlit("task:");
    reveal_strlit("provider:");
    reveal_strlit("preparation:");
    if "task:"@.is_prefix_of(text) {
        assert(text.subrange(0, 5)[0] == 't');
    }
    if "provider:"@.is_prefix_of(text) {
        assert(text.subrange(0, 9)[0] == 'p' && text.subrange(0, 9)[1] == 'r');
    }
    if "preparation:"@.is_prefix_of(text) {
        assert(text.subrange(0, 12)[0] == 'p' && text.subrange(0, 12)[1] == 'r');
    }
}

proof fn lemma_foreign_plain(text: Seq<char>)
    requires
        !text.contains(':'),
    ensures
        !"task:"@.is_prefix_of(text),
        !"provider:"@.is_prefix_of(text),
        !"preparation:"@.is_prefix_of(text),
{
    reveal_strlit("task:");
    reveal_strlit("provider:");
    reveal_strlit("preparation:");
    if "task:"@.is_prefix_of(text) {
        assert(text.subrange(0, 5)[4] == ':');
        assert(text[4] == ':');
    }
    if "provider:"@.is_prefix_of(text) {
        assert(text.subrange(0, 9)[8] == ':');
        assert(text[8] == ':');
    }
    if "preparation:"@.is_prefix_of(text) {
        assert(text.subrange(0, 12)[11] == ':');
        assert(text[11] == ':');
    }
}

/// Whether a requirement asks for a thing: it is of that kind, and one of its candidates has
/// the name.
pub open spec fn about(requirement: Requirement, kind: Seq<char>, name: Seq<char>) -> bool {
    &&& requirement.kind.wire() == kind
    &&& exists|i: int|
        0 <= i < requirement.candidates@.len() && (
        #[trigger] requirement.candidates@[i]).product() == name
}

/// An explanation of a requirement tells of every requirement that asks for the thing, and
/// one of a module or a provider of everything that belongs to it.
pub proof fn law_explanations_leave_nothing_out(
    manifest: Manifest,
    kind: Seq<char>,
    name: Seq<char>,
    at: int,
)
    ensures
        0 <= at < manifest.requirements@.len() && about(manifest.requirements@[at], kind, name)
            ==> holds_text(
            requirements_explained(manifest.requirements@, kind, name),
            requirement_explained(manifest.requirements@[at]),
        ),
        0 <= at < manifest.dependencies@.len() && (manifest.dependencies@[at].from@ == name
            || manifest.dependencies@[at].to@ == name) ==> relationships(
            manifest.dependencies@,
            name,
        ).contains(
            manifest.dependencies@[at].kind.label() + " "@ + manifest.dependencies@[at].from@
                + " -> "@ + manifest.dependencies@[at].to@ + " at "@
                + manifest.dependencies@[at].declared_at.text(),
        ),
        0 <= at < manifest.preparations@.len() && manifest.preparations@[at].provider@ == name
            ==> exists|i: int|
            0 <= i < own_preparations(manifest.preparations@, name).len() && (
            manifest.preparations@[at].identity@ + ": "@
                + manifest.preparations@[at].description@).is_prefix_of(
                #[trigger] own_preparations(manifest.preparations@, name)[i],
            ),
{
    if 0 <= at < manifest.requirements@.len() && about(manifest.requirements@[at], kind, name) {
        lemma_explained(manifest.requirements@, kind, name, at);
    }
    if 0 <= at < manifest.dependencies@.len() && (manifest.dependencies@[at].from@ == name
        || manifest.dependencies@[at].to@ == name) {
        lemma_relationships(manifest.dependencies@, name, at);
    }
    if 0 <= at < manifest.preparations@.len() && manifest.preparations@[at].provider@ == name {
        lemma_own(manifest.preparations@, name, at);
    }
}

proof fn lemma_explained(list: Seq<Requirement>, kind: Seq<char>, name: Seq<char>, at: int)
    requires
        0 <= at < list.len(),
        about(list[at], kind, name),
    ensures
        holds_text(requirements_explained(list, kind, name), requirement_explained(list[at])),
    decreases list.len(),
{
    let none = Seq::<char>::empty();
    let part = requirement_explained(list[at]);
    let front = requirements_explained(list.drop_last(), kind, name);
    assert(asks_for(list[at], kind, name));
    if at == list.len() - 1 {
        lemma_holds_itself(part);
        lemma_holds_within(front, part, none, part);
        assert(front + part + none =~= requirements_explained(list, kind, name));
    } else {
        lemma_explained(list.drop_last(), kind, name, at);
        let back = if asks_for(list.last(), kind, name) {
            requirement_explained(list.last())
        } else {
            none
        };
        lemma_holds_within(none, front, back, part);
        assert(none + front + back =~= requirements_explained(list, kind, name));
    }
}

proof fn lemma_relationships(list: Seq<Dependency>, name: Seq<char>, at: int)
    requires
        0 <= at < list.len(),
        list[at].from@ == name || list[at].to@ == name,
    ensures
        relationships(list, name).contains(
            list[at].kind.label() + " "@ + list[at].from@ + " -> "@ + list[at].to@ + " at "@
                + list[at].declared_at.text(),
        ),
    decreases list.len(),
{
    let text = list[at].kind.label() + " "@ + list[at].from@ + " -> "@ + list[at].to@ + " at "@
        + list[at].declared_at.text();
    let all = relationships(list, name);
    let rest = relationships(list.drop_last(), name);
    if at == list.len() - 1 {
        assert(all[rest.len() as int] == text);
    } else {
        lemma_relationships(list.drop_last(), name, at);
        let i = choose|i: int| 0 <= i < rest.len() && rest[i] == text;
        assert(all[i] == text);
    }
}

proof fn lemma_own(list: Seq<ProviderPreparation>, name: Seq<char>, at: int)
    requires
        0 <= at < list.len(),
        list[at].provider@ == name,
    ensures
        exists|i: int|
            0 <= i < own_preparations(list, name).len() && (list[at].identity@ + ": "@
                + list[at].description@).is_prefix_of(
                #[trigger] own_preparations(list, name)[i],
            ),
    decreases list.len(),
{
    let lead = list[at].identity@ + ": "@ + list[at].description@;
    let all = own_preparations(list, name);
    let rest = own_preparations(list.drop_last(), name);
    if at == list.len() - 1 {
        let text = all[rest.len() as int];
        assert(text.subrange(0, lead.len() as int) =~= lead);
        assert(lead.is_prefix_of(all[rest.len() as int]));
    } else {
        lemma_own(list.drop_last(), name, at);
        let i = choose|i: int| 0 <= i < rest.len() && lead.is_prefix_of(#[trigger] rest[i]);
        assert(all[i] == rest[i]);
        assert(lead.is_prefix_of(all[i]));
    }
}

} // verus!
