//! What reading the context promises: every fact that is read is noted.
use vstd::prelude::*;
use vstd::string::*;

use crate::lua::context::{
    at_keys, at_path, child_path, entries_noted, facts_in_order, law_first_readings_stay, noted,
    same_fact, snapshot_noted, Observed,
};
use crate::lua::options::option;
use crate::model::frozen::FrozenValue;
use crate::model::manifest::ObservationSubject;
use crate::text::{lemma_pieces_concat, lemma_pieces_single, pieces};

verus! {

/// Whether a fact was noted.
pub open spec fn has_fact(list: Seq<Observed>, subject: ObservationSubject, path: Seq<char>) -> bool {
    exists|i: int|
        0 <= i < list.len() && (#[trigger] list[i]).subject == subject && list[i].path == path
}

proof fn lemma_noted_kept(list: Seq<Observed>, item: Observed)
    requires
        facts_in_order(list),
    ensures
        facts_in_order(noted(list, item)),
        has_fact(noted(list, item), item.subject, item.path),
        forall|subject: ObservationSubject, path: Seq<char>|
            has_fact(list, subject, path) ==> #[trigger] has_fact(
                noted(list, item),
                subject,
                path,
            ),
{
    law_first_readings_stay(list, item, item);
    lemma_noted_present(list, item);
    let made = noted(list, item);
    assert forall|subject: ObservationSubject, path: Seq<char>|
        has_fact(list, subject, path) implies #[trigger] has_fact(made, subject, path) by {
        let i = choose|i: int|
            0 <= i < list.len() && (#[trigger] list[i]).subject == subject && list[i].path == path;
        assert(made.contains(list[i]));
        let k = choose|k: int| 0 <= k < made.len() && made[k] == list[i];
        assert(made[k].subject == subject);
    }
}

proof fn lemma_noted_present(list: Seq<Observed>, item: Observed)
    ensures
        has_fact(noted(list, item), item.subject, item.path),
    decreases list.len(),
{
    let made = noted(list, item);
    if list.len() == 0 {
        assert(made[0] == item);
    } else if same_fact(list.last(), item) {
        assert(made[list.len() - 1] == list.last());
    } else if crate::lua::context::noted_before(list.last(), item) {
        assert(made[list.len() as int] == item);
    } else {
        let inner = noted(list.drop_last(), item);
        lemma_noted_present(list.drop_last(), item);
        let i = choose|i: int|
            0 <= i < inner.len() && (#[trigger] inner[i]).subject == item.subject && inner[i].path
                == item.path;
        assert(made[i] == inner[i]);
    }
}

/// A fact that is read is noted, with the value that was read where it is read for the first
/// time; nothing that was noted is lost.
pub proof fn law_what_is_read_is_noted(list: Seq<Observed>, item: Observed)
    requires
        facts_in_order(list),
    ensures
        has_fact(noted(list, item), item.subject, item.path),
        !has_fact(list, item.subject, item.path) ==> noted(list, item).contains(item)
            && noted(list, item).len() == list.len() + 1,
        has_fact(list, item.subject, item.path) ==> noted(list, item) == list,
    decreases list.len(),
{
    lemma_noted_present(list, item);
    let made = noted(list, item);
    if list.len() == 0 {
        assert(made[0] == item);
    } else {
        let last = list.last();
        let front = list.drop_last();
        assert(list[list.len() - 1] == last);
        assert(facts_in_order(front));
        if same_fact(last, item) {
        } else if crate::lua::context::noted_before(last, item) {
            assert(made[list.len() as int] == item);
            if has_fact(list, item.subject, item.path) {
                let i = choose|i: int|
                    0 <= i < list.len() && (#[trigger] list[i]).subject == item.subject
                        && list[i].path == item.path;
                assert(crate::lua::context::noted_before(list[i], list[list.len() - 1]));
                crate::lua::context::lemma_noted_before(list[i], last, item);
                crate::lua::context::lemma_noted_before(list[i], item, item);
            }
        } else {
            law_what_is_read_is_noted(front, item);
            let inner = noted(front, item);
            if has_fact(list, item.subject, item.path) {
                let i = choose|i: int|
                    0 <= i < list.len() && (#[trigger] list[i]).subject == item.subject
                        && list[i].path == item.path;
                assert(front[i] == list[i]);
                assert(front.push(last) =~= list);
            } else {
                if has_fact(front, item.subject, item.path) {
                    let i = choose|i: int|
                        0 <= i < front.len() && (#[trigger] front[i]).subject == item.subject
                            && front[i].path == item.path;
                    assert(list[i] == front[i]);
                }
                let k = choose|k: int| 0 <= k < inner.len() && inner[k] == item;
                assert(made[k] == item);
            }
        }
    }
}

proof fn lemma_snapshot_grows(
    list: Seq<Observed>,
    subject: ObservationSubject,
    path: Seq<char>,
    value: FrozenValue,
)
    requires
        facts_in_order(list),
    ensures
        facts_in_order(snapshot_noted(list, subject, path, value)),
        forall|s: ObservationSubject, p: Seq<char>|
            has_fact(list, s, p) ==> #[trigger] has_fact(
                snapshot_noted(list, subject, path, value),
                s,
                p,
            ),
    decreases value, 0nat,
{
    match value {
        FrozenValue::Table(entries) => {
            lemma_entries_grow(list, subject, path, entries@);
        },
        _ => {
            lemma_noted_kept(list, Observed { subject, path, value: value.tree() });
        },
    }
}

proof fn lemma_entries_grow(
    list: Seq<Observed>,
    subject: ObservationSubject,
    path: Seq<char>,
    entries: Seq<(String, FrozenValue)>,
)
    requires
        facts_in_order(list),
    ensures
        facts_in_order(entries_noted(list, subject, path, entries)),
        forall|s: ObservationSubject, p: Seq<char>|
            has_fact(list, s, p) ==> #[trigger] has_fact(
                entries_noted(list, subject, path, entries),
                s,
                p,
            ),
    decreases entries, entries.len(),
{
    if entries.len() > 0 {
        let before = entries_noted(list, subject, path, entries.drop_last());
        lemma_entries_grow(list, subject, path, entries.drop_last());
        lemma_snapshot_grows(
            before,
            subject,
            child_path(path, entries.last().0@),
            entries.last().1,
        );
        assert forall|s: ObservationSubject, p: Seq<char>|
            has_fact(list, s, p) implies #[trigger] has_fact(
            entries_noted(list, subject, path, entries),
            s,
            p,
        ) by {
            assert(has_fact(before, s, p));
        }
    }
}

/// Where the whole context is read, every fact in it is noted under its path: each entry of
/// a table that is no table itself, and so on within the tables that stand in it. Only the
/// two facts that make up a target are no observations.
pub proof fn law_whole_readings_note_every_fact(
    list: Seq<Observed>,
    subject: ObservationSubject,
    path: Seq<char>,
    entries: Seq<(String, FrozenValue)>,
    at: int,
)
    requires
        facts_in_order(list),
        0 <= at < entries.len(),
        entries[at].0@.len() > 0,
    ensures
        !(entries[at].1 is Table) && !(subject == ObservationSubject::Target && (child_path(
            path,
            entries[at].0@,
        ) == "os.name"@ || child_path(path, entries[at].0@) == "arch"@)) ==> has_fact(
            entries_noted(list, subject, path, entries),
            subject,
            child_path(path, entries[at].0@),
        ),
        entries[at].1 matches FrozenValue::Table(inner) ==> forall|k: int|
            0 <= k < inner@.len() && !((#[trigger] inner@[k]).1 is Table) && inner@[k].0@.len() > 0
                && !(subject == ObservationSubject::Target && (child_path(
                child_path(path, entries[at].0@),
                inner@[k].0@,
            ) == "os.name"@ || child_path(child_path(path, entries[at].0@), inner@[k].0@)
                == "arch"@)) ==> has_fact(
                entries_noted(list, subject, path, entries),
                subject,
                child_path(child_path(path, entries[at].0@), inner@[k].0@),
            ),
    decreases entries, entries.len(),
{
    let front = entries.drop_last();
    let last = entries.len() - 1;
    let before = entries_noted(list, subject, path, front);
    let whole = entries_noted(list, subject, path, entries);
    let child = child_path(path, entries[last].0@);
    lemma_entries_grow(list, subject, path, front);
    lemma_snapshot_grows(before, subject, child, entries[last].1);
    if at < last {
        assert(front[at] == entries[at]);
        law_whole_readings_note_every_fact(list, subject, path, front, at);
    } else {
        match entries[at].1 {
            FrozenValue::Table(inner) => {
                assert forall|k: int|
                    0 <= k < inner@.len() && !((#[trigger] inner@[k]).1 is Table)
                        && inner@[k].0@.len() > 0 && !(subject == ObservationSubject::Target && (
                    child_path(child, inner@[k].0@) == "os.name"@ || child_path(
                        child,
                        inner@[k].0@,
                    ) == "arch"@)) implies has_fact(
                    whole,
                    subject,
                    child_path(child, inner@[k].0@),
                ) by {
                    law_whole_readings_note_every_fact(before, subject, child, inner@, k);
                }
            },
            _ => {
                if child.len() > 0 {
                    lemma_noted_kept(
                        before,
                        Observed { subject, path: child, value: entries[at].1.tree() },
                    );
                }
            },
        }
    }
}

/// A path leads through tables, key by key: one without a dot names an entry, and behind a
/// dot it goes on in the entry that was named.
pub proof fn law_paths_lead_through_tables(
    entries: Vec<(String, FrozenValue)>,
    key: Seq<char>,
    rest: Seq<char>,
)
    requires
        !key.contains('.'),
    ensures
        at_path(FrozenValue::Table(entries), key) == option(entries@, key),
        at_path(FrozenValue::Table(entries), key + "."@ + rest) == match option(entries@, key) {
            Some(value) => at_path(value, rest),
            None => None,
        },
{
    reveal_strlit(".");
    let root = FrozenValue::Table(entries);
    lemma_pieces_single(key, '.');
    assert(pieces(key, '.').skip(1) =~= Seq::empty());
    if option(entries@, key) is Some {
        assert(at_keys(option(entries@, key)->0, Seq::<Seq<char>>::empty()) == Some(
            option(entries@, key)->0,
        ));
    }
    assert(key + "."@ + rest =~= key.push('.') + rest);
    lemma_pieces_concat(key, rest, '.');
    let all = pieces(key.push('.') + rest, '.');
    assert(all[0] == key);
    assert(all.skip(1) =~= pieces(rest, '.'));
}

} // verus!
