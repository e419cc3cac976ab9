//! The sources of template helpers that a plan carries along.
use vstd::prelude::*;
use vstd::string::*;

use crate::digest::{digest, digest_of};
use crate::error::{
    corrupt_if, either, is_configuration, is_corrupt_state, problem_if, reports, settles, Problem,
    Result, WombatError,
};
use crate::lua::conflicts::{ancestor, is_path_ancestor};
use crate::lua::loading::{helper_module_path, helper_name};
use crate::model::frozen::FrozenValue;
use crate::model::manifest::{SourceFile, TemplateHelperPack};
use crate::model::source::EntryKind;
use crate::number::{decimal, decimal_text};
use crate::order::{before, precedes};
use crate::text::{cat2, cat3, cat4, holds, join, joined, push_text, replaced, same, views};

verus! {

/// A source: its path and its digest.
pub type SourceView = (Seq<char>, Seq<char>);

/// What sources say.
pub open spec fn source_views(list: Seq<SourceFile>) -> Seq<SourceView> {
    Seq::new(list.len(), |i: int| (list[i].path@, list[i].digest@))
}

/// The sources of the first packs, one after the other.
pub open spec fn all_sources(packs: Seq<TemplateHelperPack>, count: int) -> Seq<SourceView>
    decreases count,
{
    if count <= 0 {
        Seq::empty()
    } else {
        all_sources(packs, count - 1) + source_views(packs[count - 1].sources@)
    }
}

/// The digest that a path has in a list.
pub open spec fn digest_in(list: Seq<SourceView>, path: Seq<char>) -> Option<Seq<char>>
    decreases list.len(),
{
    if list.len() == 0 {
        None
    } else if list.last().0 == path {
        Some(list.last().1)
    } else {
        digest_in(list.drop_last(), path)
    }
}

/// Sources in the order of their paths with one more, where it is new.
pub open spec fn with_source(list: Seq<SourceView>, item: SourceView) -> Seq<SourceView>
    decreases list.len(),
{
    if list.len() == 0 {
        seq![item]
    } else if list.last().0 == item.0 {
        list
    } else if precedes(list.last().0, item.0) {
        list.push(item)
    } else {
        with_source(list.drop_last(), item).push(list.last())
    }
}

/// Sources in the order of their paths, each once, or the path that has two digests.
pub open spec fn catalogued(list: Seq<SourceView>) -> std::result::Result<
    Seq<SourceView>,
    Seq<char>,
>
    decreases list.len(),
{
    if list.len() == 0 {
        Ok(list)
    } else {
        match catalogued(list.drop_last()) {
            Err(path) => Err(path),
            Ok(sofar) => {
                let item = list.last();
                match digest_in(sofar, item.0) {
                    Some(other) => if other == item.1 {
                        Ok(sofar)
                    } else {
                        Err(item.0)
                    },
                    None => Ok(with_source(sofar, item)),
                }
            },
        }
    }
}

proof fn lemma_catalogued_front(list: Seq<SourceView>, count: int)
    requires
        0 <= count <= list.len(),
        catalogued(list.take(count)) is Err,
    ensures
        catalogued(list) == catalogued(list.take(count)),
    decreases list.len() - count,
{
    if count < list.len() {
        assert(list.take(count + 1).drop_last() =~= list.take(count));
        lemma_catalogued_front(list, count + 1);
    } else {
        assert(list.take(count) =~= list);
    }
}

proof fn lemma_with_source(list: Seq<SourceView>, item: SourceView, at: int)
    requires
        0 <= at <= list.len(),
        digest_in(list, item.0) is None,
        forall|j: int| at <= j < list.len() ==> !precedes((#[trigger] list[j]).0, item.0),
        at > 0 ==> precedes(list[at - 1].0, item.0),
    ensures
        with_source(list, item) == list.insert(at, item),
    decreases list.len(),
{
    if at == list.len() {
        if at == 0 {
            assert(list.insert(at, item) =~= seq![item]);
        } else {
            assert(list.last() == list[at - 1]);
            assert(list.insert(at, item) =~= list.push(item));
        }
    } else {
        assert(list.last() == list[list.len() - 1]);
        lemma_with_source(list.drop_last(), item, at);
        assert(list.insert(at, item) =~= list.drop_last().insert(at, item).push(list.last()));
    }
}

fn find_source(list: &Vec<SourceFile>, path: &str) -> (r: Option<usize>)
    ensures
        match r {
            Some(i) => i < list@.len() && list@[i as int].path@ == path@ && digest_in(
                source_views(list@),
                path@,
            ) == Some(list@[i as int].digest@),
            None => digest_in(source_views(list@), path@) is None,
        },
{
    let ghost all = source_views(list@);
    let mut i: usize = list.len();
    assert(all.take(all.len() as int) =~= all);
    while i > 0
        invariant
            0 <= i <= list@.len(),
            all == source_views(list@),
            digest_in(all, path@) == digest_in(all.take(i as int), path@),
        decreases i,
    {
        assert(all.take(i as int).drop_last() =~= all.take(i - 1));
        i -= 1;
        if same(list[i].path.as_str(), path) {
            return Some(i);
        }
    }
    None
}

fn place_source(list: &mut Vec<SourceFile>, source: &SourceFile)
    requires
        digest_in(source_views(old(list)@), source.path@) is None,
    ensures
        source_views(final(list)@) == with_source(
            source_views(old(list)@),
            (source.path@, source.digest@),
        ),
{
    let ghost all = source_views(list@);
    let ghost item = (source.path@, source.digest@);
    let mut at: usize = list.len();
    while at > 0 && !before(list[at - 1].path.as_str(), source.path.as_str())
        invariant
            0 <= at <= list@.len(),
            list@ == old(list)@,
            all == source_views(list@),
            item == (source.path@, source.digest@),
            forall|j: int| at <= j < list@.len() ==> !precedes((#[trigger] all[j]).0, item.0),
        decreases at,
    {
        assert(all[at - 1].0 == list@[at - 1].path@);
        at -= 1;
    }
    proof {
        if at > 0 {
            assert(all[at - 1].0 == list@[at - 1].path@);
        }
        lemma_with_source(all, item, at as int);
    }
    list.insert(at, source.copy());
    assert(source_views(list@) =~= all.insert(at as int, item));
}

/// What is wrong with the sources of packs.
pub open spec fn conflict_of(packs: Seq<TemplateHelperPack>) -> Option<Problem> {
    match catalogued(all_sources(packs, packs.len() as int)) {
        Ok(_) => None,
        Err(path) => Some(
            Problem::Corrupt(
                "template helper source `"@ + path + "` has conflicting identities"@,
            ),
        ),
    }
}

/// The sources that packs are made of.
pub open spec fn catalog_of(packs: Seq<TemplateHelperPack>) -> Seq<SourceView> {
    catalogued(all_sources(packs, packs.len() as int))->Ok_0
}

fn add_sources(list: &mut Vec<SourceFile>, pack: &TemplateHelperPack, Ghost(earlier): Ghost<
    Seq<SourceView>,
>) -> (r: Result<()>)
    requires
        catalogued(earlier) == std::result::Result::<Seq<SourceView>, Seq<char>>::Ok(
            source_views(old(list)@),
        ),
    ensures
        match catalogued(earlier + source_views(pack.sources@)) {
            Ok(all) => r is Ok && source_views(final(list)@) == all,
            Err(path) => r is Err && is_corrupt_state(
                r->Err_0,
                "template helper source `"@ + path + "` has conflicting identities"@,
            ),
        },
{
    let ghost own = source_views(pack.sources@);
    let ghost whole = earlier + own;
    let mut i: usize = 0;
    assert(whole.take(earlier.len() as int) =~= earlier);
    while i < pack.sources.len()
        invariant
            0 <= i <= pack.sources@.len(),
            own == source_views(pack.sources@),
            whole == earlier + own,
            catalogued(whole.take(earlier.len() + i)) == std::result::Result::<
                Seq<SourceView>,
                Seq<char>,
            >::Ok(source_views(list@)),
        decreases pack.sources@.len() - i,
    {
        let source = &pack.sources[i];
        proof {
            let next = whole.take(earlier.len() + i + 1);
            assert(next.drop_last() =~= whole.take(earlier.len() + i));
            assert(next.last() == own[i as int]);
            if catalogued(next) is Err {
                lemma_catalogued_front(whole, earlier.len() + i + 1);
            }
        }
        match find_source(list, source.path.as_str()) {
            Some(known) => {
                if !same(list[known].digest.as_str(), source.digest.as_str()) {
                    return Err(
                        WombatError::CorruptState(
                            cat3(
                                "template helper source `",
                                source.path.as_str(),
                                "` has conflicting identities",
                            ),
                        ),
                    );
                }
            },
            None => {
                place_source(list, source);
            },
        }
        i += 1;
    }
    assert(whole.take(earlier.len() + i) =~= whole);
    Ok(())
}

/// Finds the sources that packs are made of, in the order of their paths.
pub fn source_catalog(packs: &Vec<TemplateHelperPack>) -> (r: Result<Vec<SourceFile>>)
    ensures
        settles(r, conflict_of(packs@)),
        r matches Ok(list) ==> source_views(list@) == catalog_of(packs@),
{
    let mut list: Vec<SourceFile> = Vec::new();
    let mut i: usize = 0;
    assert(source_views(list@) =~= Seq::empty());
    while i < packs.len()
        invariant
            0 <= i <= packs@.len(),
            catalogued(all_sources(packs@, i as int)) == std::result::Result::<
                Seq<SourceView>,
                Seq<char>,
            >::Ok(source_views(list@)),
        decreases packs@.len() - i,
    {
        let ghost earlier = all_sources(packs@, i as int);
        proof {
            let next = all_sources(packs@, i + 1);
            if catalogued(next) is Err {
                lemma_all_sources(packs@, i + 1, packs@.len() as int);
            }
        }
        add_sources(&mut list, &packs[i], Ghost(earlier))?;
        i += 1;
    }
    Ok(list)
}

/// A conflict among the sources of the first packs is one among those of all.
proof fn lemma_all_sources(packs: Seq<TemplateHelperPack>, count: int, total: int)
    requires
        0 <= count <= total,
        catalogued(all_sources(packs, count)) is Err,
    ensures
        catalogued(all_sources(packs, total)) == catalogued(all_sources(packs, count)),
    decreases total - count,
{
    if count < total {
        lemma_all_sources(packs, count, total - 1);
        let front = all_sources(packs, total - 1);
        let whole = all_sources(packs, total);
        assert(whole.take(front.len() as int) =~= front);
        lemma_catalogued_front(whole, front.len() as int);
    }
}

/// Makes sure that a source still holds what it held when the plan was made.
pub fn check_published_source(source: &SourceFile, bytes: &Vec<u8>) -> (r: Result<()>)
    ensures
        reports(
            r,
            problem_if(
                digest_of(bytes@) != source.digest@,
                "template helper source `"@ + source.path@
                    + "` changed during plan publication"@,
            ),
        ),
{
    if !same(digest(bytes.as_slice()).as_str(), source.digest.as_str()) {
        return Err(
            WombatError::Configuration(
                cat3(
                    "template helper source `",
                    source.path.as_str(),
                    "` changed during plan publication",
                ),
            ),
        );
    }
    Ok(())
}

/// Something beneath the payload of a plan.
#[derive(Debug, PartialEq)]
pub struct PayloadEntry {
    /// Its path
    pub path: String,
    /// Its path beneath the payload
    pub relative: String,
    /// What it is
    pub kind: EntryKind,
    /// What it holds, where it is a file, or why that could not be read
    pub content: std::result::Result<Vec<u8>, String>,
}

/// What is wrong with something beneath the payload.
pub open spec fn entry_problem(expected: Seq<SourceView>, entry: PayloadEntry) -> Option<Problem> {
    match entry.kind {
        EntryKind::Symlink => Some(
            Problem::Corrupt(
                "template helper payload `"@ + entry.path@ + "` must not be a symbolic link"@,
            ),
        ),
        EntryKind::Directory => corrupt_if(
            !leads_to(expected, entry.relative@),
            "unexpected template helper payload directory `"@ + entry.relative@ + "`"@,
        ),
        EntryKind::File => match digest_in(expected, entry.relative@) {
            None => Some(
                Problem::Corrupt("unexpected template helper payload `"@ + entry.relative@ + "`"@),
            ),
            Some(wanted) => match entry.content {
                Err(message) => Some(Problem::Io(message@)),
                Ok(bytes) => corrupt_if(
                    digest_of(bytes@) != wanted,
                    "template helper payload `"@ + entry.relative@ + "` failed verification"@,
                ),
            },
        },
        _ => Some(
            Problem::Corrupt(
                "template helper payload `"@ + entry.path@ + "` must be a regular file"@,
            ),
        ),
    }
}

/// Whether an expected source stands beneath a directory.
pub open spec fn leads_to(expected: Seq<SourceView>, directory: Seq<char>) -> bool {
    exists|i: int| 0 <= i < expected.len() && ancestor(directory, (#[trigger] expected[i]).0)
}

fn is_on_the_way(expected: &Vec<SourceFile>, directory: &str) -> (r: bool)
    ensures
        r == leads_to(source_views(expected@), directory@),
{
    let ghost all = source_views(expected@);
    let mut i: usize = 0;
    while i < expected.len()
        invariant
            0 <= i <= expected@.len(),
            all == source_views(expected@),
            forall|j: int| 0 <= j < i ==> !ancestor(directory@, (#[trigger] all[j]).0),
        decreases expected@.len() - i,
    {
        assert(all[i as int].0 == expected@[i as int].path@);
        if is_path_ancestor(directory, expected[i].path.as_str()) {
            return true;
        }
        i += 1;
    }
    false
}

fn check_entry(expected: &Vec<SourceFile>, entry: &PayloadEntry) -> (r: Result<()>)
    ensures
        settles(r, entry_problem(source_views(expected@), *entry)),
{
    match entry.kind {
        EntryKind::Symlink => Err(
            WombatError::CorruptState(
                cat3(
                    "template helper payload `",
                    entry.path.as_str(),
                    "` must not be a symbolic link",
                ),
            ),
        ),
        EntryKind::Directory => {
            if !is_on_the_way(expected, entry.relative.as_str()) {
                return Err(
                    WombatError::CorruptState(
                        cat3(
                            "unexpected template helper payload directory `",
                            entry.relative.as_str(),
                            "`",
                        ),
                    ),
                );
            }
            Ok(())
        },
        EntryKind::File => match find_source(expected, entry.relative.as_str()) {
            None => Err(
                WombatError::CorruptState(
                    cat3(
                        "unexpected template helper payload `",
                        entry.relative.as_str(),
                        "`",
                    ),
                ),
            ),
            Some(i) => match &entry.content {
                Err(message) => Err(WombatError::Io(message.clone())),
                Ok(bytes) => {
                    if !same(
                        digest(bytes.as_slice()).as_str(),
                        expected[i].digest.as_str(),
                    ) {
                        return Err(
                            WombatError::CorruptState(
                                cat3(
                                    "template helper payload `",
                                    entry.relative.as_str(),
                                    "` failed verification",
                                ),
                            ),
                        );
                    }
                    Ok(())
                },
            },
        },
        _ => Err(
            WombatError::CorruptState(
                cat3(
                    "template helper payload `",
                    entry.path.as_str(),
                    "` must be a regular file",
                ),
            ),
        ),
    }
}

/// What is wrong with what stands beneath the payload, in the order of the walk.
pub open spec fn entries_problem(
    expected: Seq<SourceView>,
    entries: Seq<PayloadEntry>,
    count: int,
) -> Option<Problem>
    decreases count,
{
    if count <= 0 {
        None
    } else {
        either(
            entries_problem(expected, entries, count - 1),
            entry_problem(expected, entries[count - 1]),
        )
    }
}

proof fn lemma_entries(
    expected: Seq<SourceView>,
    entries: Seq<PayloadEntry>,
    count: int,
    total: int,
)
    requires
        0 <= count <= total,
        entries_problem(expected, entries, count) is Some,
    ensures
        entries_problem(expected, entries, total) == entries_problem(expected, entries, count),
    decreases total - count,
{
    if count < total {
        lemma_entries(expected, entries, count, total - 1);
    }
}

/// Whether a file stands at a path.
pub open spec fn has_file(entries: Seq<PayloadEntry>, path: Seq<char>) -> bool {
    exists|i: int|
        0 <= i < entries.len() && (#[trigger] entries[i]).kind == EntryKind::File
            && entries[i].relative@ == path
}

fn is_there(entries: &Vec<PayloadEntry>, path: &str) -> (r: bool)
    ensures
        r == has_file(entries@, path@),
{
    let mut i: usize = 0;
    while i < entries.len()
        invariant
            0 <= i <= entries@.len(),
            forall|j: int|
                0 <= j < i ==> !((#[trigger] entries@[j]).kind == EntryKind::File
                    && entries@[j].relative@ == path@),
        decreases entries@.len() - i,
    {
        if entries[i].kind == EntryKind::File && same(entries[i].relative.as_str(), path) {
            assert(entries@[i as int].relative@ == path@);
            return true;
        }
        i += 1;
    }
    false
}

/// The expected sources that are not there.
pub open spec fn missing_paths(
    expected: Seq<SourceView>,
    entries: Seq<PayloadEntry>,
) -> Seq<Seq<char>>
    decreases expected.len(),
{
    if expected.len() == 0 {
        Seq::empty()
    } else {
        let rest = missing_paths(expected.drop_last(), entries);
        if has_file(entries, expected.last().0) {
            rest
        } else {
            rest.push(expected.last().0)
        }
    }
}

fn find_missing(expected: &Vec<SourceFile>, entries: &Vec<PayloadEntry>) -> (r: Vec<String>)
    ensures
        views(r@) == missing_paths(source_views(expected@), entries@),
{
    let ghost all = source_views(expected@);
    let mut r: Vec<String> = Vec::new();
    let mut i: usize = 0;
    assert(all.take(0) =~= Seq::empty());
    assert(views(r@) =~= Seq::empty());
    while i < expected.len()
        invariant
            0 <= i <= expected@.len(),
            all == source_views(expected@),
            views(r@) == missing_paths(all.take(i as int), entries@),
        decreases expected@.len() - i,
    {
        assert(all.take(i + 1).drop_last() =~= all.take(i as int));
        assert(all.take(i + 1).last() == all[i as int]);
        if !is_there(entries, expected[i].path.as_str()) {
            push_text(&mut r, expected[i].path.as_str());
        }
        i += 1;
    }
    assert(all.take(i as int) =~= all);
    r
}

/// What is wrong with the payload of helpers. `root` is what stands at its place, or
/// why that could not be found out, and `entries` what stands beneath it, in the
/// order of the walk.
pub open spec fn payload_problem(
    expected: Seq<SourceView>,
    root: std::result::Result<EntryKind, String>,
    entries: Seq<PayloadEntry>,
) -> Option<Problem> {
    match root {
        Err(message) => Some(Problem::Io(message@)),
        Ok(kind) => if expected.len() == 0 {
            corrupt_if(
                kind != EntryKind::Missing,
                "plan contains an unexpected template helper payload tree"@,
            )
        } else {
            either(
                corrupt_if(
                    kind != EntryKind::Directory,
                    "template helper payload root must be a plain directory"@,
                ),
                either(
                    entries_problem(expected, entries, entries.len() as int),
                    corrupt_if(
                        missing_paths(expected, entries).len() > 0,
                        "template helper payload tree is missing "@ + joined(
                            missing_paths(expected, entries),
                            ", "@,
                        ),
                    ),
                ),
            )
        },
    }
}

/// Makes sure that the payload of helpers is exactly what their packs are made of.
pub fn verify_payloads(
    packs: &Vec<TemplateHelperPack>,
    root: &std::result::Result<EntryKind, String>,
    entries: &Vec<PayloadEntry>,
) -> (r: Result<()>)
    ensures
        settles(
            r,
            either(
                conflict_of(packs@),
                payload_problem(catalog_of(packs@), *root, entries@),
            ),
        ),
{
    let expected = source_catalog(packs)?;
    let ghost wanted = source_views(expected@);
    let kind = match root {
        Err(message) => {
            return Err(WombatError::Io(message.clone()));
        },
        Ok(kind) => *kind,
    };
    if expected.len() == 0 {
        if kind != EntryKind::Missing {
            return Err(
                WombatError::CorruptState(
                    "plan contains an unexpected template helper payload tree".to_string(),
                ),
            );
        }
        return Ok(());
    }
    if kind != EntryKind::Directory {
        return Err(
            WombatError::CorruptState(
                "template helper payload root must be a plain directory".to_string(),
            ),
        );
    }
    let mut i: usize = 0;
    while i < entries.len()
        invariant
            0 <= i <= entries@.len(),
            wanted == source_views(expected@),
            wanted == catalog_of(packs@),
            wanted.len() > 0,
            conflict_of(packs@) is None,
            *root == std::result::Result::<EntryKind, String>::Ok(EntryKind::Directory),
            entries_problem(wanted, entries@, i as int) is None,
        decreases entries@.len() - i,
    {
        proof {
            if entries_problem(wanted, entries@, i + 1) is Some {
                lemma_entries(wanted, entries@, i + 1, entries@.len() as int);
            }
        }
        check_entry(&expected, &entries[i])?;
        i += 1;
    }
    let missing = find_missing(&expected, entries);
    assert(missing@.len() == views(missing@).len());
    if missing.len() > 0 {
        return Err(
            WombatError::CorruptState(
                cat2(
                    "template helper payload tree is missing ",
                    join(&missing, ", ").as_str(),
                ),
            ),
        );
    }
    Ok(())
}

/// Whether a file with these contents stands at a path.
pub open spec fn holds_file(
    entries: Seq<PayloadEntry>,
    path: Seq<char>,
    digest: Seq<char>,
) -> bool {
    exists|i: int|
        0 <= i < entries.len() && (#[trigger] entries[i]).kind == EntryKind::File
            && entries[i].relative@ == path && entries[i].content is Ok && digest_of(
            entries[i].content->Ok_0@,
        ) == digest
}

/// A payload that is accepted holds what its packs are made of and no other file:
/// every source stands there with its digest, and every file is one of the sources.
pub proof fn law_accepted_payloads_are_complete(
    expected: Seq<SourceView>,
    root: std::result::Result<EntryKind, String>,
    entries: Seq<PayloadEntry>,
)
    requires
        expected.len() > 0,
        payload_problem(expected, root, entries) is None,
    ensures
        forall|path: Seq<char>|
            (#[trigger] digest_in(expected, path)) matches Some(digest) ==> holds_file(
                entries,
                path,
                digest,
            ),
        forall|i: int|
            0 <= i < entries.len() && (#[trigger] entries[i]).kind == EntryKind::File ==> digest_in(
                expected,
                entries[i].relative@,
            ) is Some,
{
    assert forall|i: int| 0 <= i < entries.len() implies entry_problem(
        expected,
        #[trigger] entries[i],
    ) is None by {
        lemma_no_entry_problem(expected, entries, entries.len() as int, i);
    }
    assert forall|path: Seq<char>| (#[trigger] digest_in(expected, path)) matches Some(
        digest,
    ) implies holds_file(entries, path, digest_in(expected, path)->0) by {
        lemma_nothing_missing(expected, entries, path);
        let i = choose|i: int|
            0 <= i < entries.len() && (#[trigger] entries[i]).kind == EntryKind::File
                && entries[i].relative@ == path;
        assert(entry_problem(expected, entries[i]) is None);
    }
}

proof fn lemma_no_entry_problem(
    expected: Seq<SourceView>,
    entries: Seq<PayloadEntry>,
    count: int,
    index: int,
)
    requires
        0 <= index < count,
        entries_problem(expected, entries, count) is None,
    ensures
        entry_problem(expected, entries[index]) is None,
    decreases count,
{
    if index < count - 1 {
        lemma_no_entry_problem(expected, entries, count - 1, index);
    }
}

proof fn lemma_nothing_missing(
    expected: Seq<SourceView>,
    entries: Seq<PayloadEntry>,
    path: Seq<char>,
)
    requires
        missing_paths(expected, entries).len() == 0,
        digest_in(expected, path) is Some,
    ensures
        has_file(entries, path),
    decreases expected.len(),
{
    if expected.last().0 != path {
        lemma_nothing_missing(expected.drop_last(), entries, path);
    }
}

/// The source of a helper module in the payload, or why there is none.
pub open spec fn payload_source(sources: Seq<SourceView>, module: Seq<char>) -> std::result::Result<
    Seq<char>,
    Seq<char>,
> {
    let relative = replaced(module, '.', "/"@);
    let direct = "lua/"@ + relative + ".lua"@;
    let initial = "lua/"@ + relative + "/init.lua"@;
    if !helper_name(module) {
        Err("invalid repository Lua module name `"@ + module + "`"@)
    } else if digest_in(sources, direct) is Some {
        Ok(direct)
    } else if digest_in(sources, initial) is Some {
        Ok(initial)
    } else {
        Err(
            "template helper module `"@ + module
                + "` was not captured during construction; require dependencies at module initialization"@,
        )
    }
}

/// The message about helper modules that need each other.
pub open spec fn helper_cycle(module: Seq<char>) -> Seq<char> {
    "template helper module dependency cycle includes `"@ + module + "`"@
}

/// Finds the source of a helper module in the payload. `loading` are the modules that
/// are being loaded.
pub fn load_payload_module(sources: &Vec<SourceFile>, loading: &Vec<String>, module: &str) -> (r: Result<
    String,
>)
    ensures
        if helper_name(module@) && views(loading@).contains(module@) {
            r is Err && is_configuration(r->Err_0, helper_cycle(module@))
        } else {
            match payload_source(source_views(sources@), module@) {
                Ok(path) => r is Ok && r->Ok_0@ == path,
                Err(message) => r is Err && is_configuration(r->Err_0, message),
            }
        },
{
    let relative = helper_module_path(module)?;
    if holds(loading, module) {
        return Err(
            WombatError::Configuration(
                cat3("template helper module dependency cycle includes `", module, "`"),
            ),
        );
    }
    let direct = cat3("lua/", relative.as_str(), ".lua");
    if find_source(sources, direct.as_str()).is_some() {
        return Ok(direct);
    }
    let initial = cat3("lua/", relative.as_str(), "/init.lua");
    if find_source(sources, initial.as_str()).is_some() {
        return Ok(initial);
    }
    Err(
        WombatError::Configuration(
            cat3(
                "template helper module `",
                module,
                "` was not captured during construction; require dependencies at module initialization",
            ),
        ),
    )
}

/// Makes sure that a module returns at most one value. Returns whether it returns
/// one.
pub fn check_returned(module: &str, count: usize) -> (r: Result<bool>)
    ensures
        reports(
            r,
            problem_if(
                count > 1,
                "template helper module `"@ + module@ + "` must return exactly one value"@,
            ),
        ),
        r matches Ok(one) ==> one == (count == 1),
{
    if count > 1 {
        return Err(
            WombatError::Configuration(
                cat3("template helper module `", module, "` must return exactly one value"),
            ),
        );
    }
    Ok(count == 1)
}

/// What a helper may return: one value that is not `nil`, which can be frozen.
/// `returned` is how many it returned, `nil` whether that was `nil`, and `value` the
/// value, as far as it could be frozen.
pub fn check_result(name: &str, returned: usize, nil: bool, value: Result<FrozenValue>) -> (r: Result<
    FrozenValue,
>)
    ensures
        if returned != 1 {
            reports(
                r,
                Some(
                    "template helper `"@ + name@ + "` must return exactly one value; returned "@
                        + decimal(returned as nat),
                ),
            )
        } else if nil {
            reports(
                r,
                Some(
                    "template helper `"@ + name@
                        + "` returned nil; return w.null for explicit null"@,
                ),
            )
        } else {
            match value {
                Ok(value) => r is Ok && r->Ok_0 == value,
                Err(error) => reports(
                    r,
                    Some(
                        "template helper `"@ + name@ + "` returned an invalid value: "@
                            + error.message(),
                    ),
                ),
            }
        },
{
    if returned != 1 {
        return Err(
            WombatError::Configuration(
                cat4(
                    "template helper `",
                    name,
                    "` must return exactly one value; returned ",
                    decimal_text(returned as u64).as_str(),
                ),
            ),
        );
    }
    if nil {
        return Err(
            WombatError::Configuration(
                cat3(
                    "template helper `",
                    name,
                    "` returned nil; return w.null for explicit null",
                ),
            ),
        );
    }
    match value {
        Ok(value) => Ok(value),
        Err(error) => Err(
            WombatError::Configuration(
                cat4(
                    "template helper `",
                    name,
                    "` returned an invalid value: ",
                    error.text().as_str(),
                ),
            ),
        ),
    }
}

} // verus!
