//! What policy reads of the building machine and of the target, and what is kept of it.
use vstd::prelude::*;
use vstd::string::*;

use crate::error::{first, problem_if, reports, Result, WombatError};
use crate::json::{object_tree, JsonTree};
use crate::lua::options::{get, option};
use crate::lua::selections::TargetState;
use crate::lua::state::Location;
use crate::model::context::OperatingSystemName;
use crate::model::frozen::{entry_trees, insert_entry, lemma_entries, with_entry, FrozenValue};
use crate::model::manifest::{Observation, ObservationSubject};
use crate::model::path::{absolute, absolute_problem, is_absolute, join_path, path_join, validate_absolute_target};
use crate::order::{
    ascending, before, lemma_asymmetric, lemma_total, lemma_transitive, precedes,
};
use crate::text::{cat2, cat3, cat7, decode, decoded, pieces, same, split, trim, trimmed, views};

verus! {

/// What an observation says.
pub ghost struct Observed {
    /// What it is of
    pub subject: ObservationSubject,
    /// Its name
    pub path: Seq<char>,
    /// The JSON form of what was read
    pub value: JsonTree,
}

/// What observations say.
pub open spec fn observed(list: Seq<Observation>) -> Seq<Observed> {
    Seq::new(
        list.len(),
        |i: int|
            Observed {
                subject: list[i].subject,
                path: list[i].path@,
                value: list[i].value.tree(),
            },
    )
}

/// Whether an observation comes first: those of the building machine before those
/// of the target, and by name.
pub open spec fn noted_before(a: Observed, b: Observed) -> bool {
    if a.subject == b.subject {
        precedes(a.path, b.path)
    } else {
        a.subject == ObservationSubject::Host
    }
}

/// Whether two observations are of the same fact.
pub open spec fn same_fact(a: Observed, b: Observed) -> bool {
    a.subject == b.subject && a.path == b.path
}

/// The observations once a fact was read: what was first read of it stays.
pub open spec fn noted(list: Seq<Observed>, item: Observed) -> Seq<Observed>
    decreases list.len(),
{
    if list.len() == 0 {
        seq![item]
    } else if same_fact(list.last(), item) {
        list
    } else if noted_before(list.last(), item) {
        list.push(item)
    } else {
        noted(list.drop_last(), item).push(list.last())
    }
}

proof fn lemma_noted(list: Seq<Observed>, item: Observed, at: int)
    requires
        0 <= at <= list.len(),
        forall|j: int|
            at <= j < list.len() ==> !same_fact(#[trigger] list[j], item) && !noted_before(
                list[j],
                item,
            ),
        at > 0 ==> same_fact(list[at - 1], item) || noted_before(list[at - 1], item),
    ensures
        noted(list, item) == if at > 0 && same_fact(list[at - 1], item) {
            list
        } else {
            list.insert(at, item)
        },
    decreases list.len(),
{
    if at == list.len() {
        if at == 0 {
            assert(list.insert(at, item) =~= seq![item]);
        } else {
            assert(list.last() == list[at - 1]);
            assert(list.insert(at, item) =~= list.push(item));
        }
    } else {
        assert(list.last() == list[list.len() - 1]);
        lemma_noted(list.drop_last(), item, at);
        assert(list.drop_last().push(list.last()) =~= list);
        assert(list.insert(at, item) =~= list.drop_last().insert(at, item).push(list.last()));
    }
}

/// Keeps what was read of a fact, if it is the first time.
pub fn note(
    list: &mut Vec<Observation>,
    subject: ObservationSubject,
    path: &str,
    value: &FrozenValue,
)
    ensures
        observed(final(list)@) == noted(
            observed(old(list)@),
            (Observed { subject, path: path@, value: value.tree() }),
        ),
{
    let ghost item = Observed { subject, path: path@, value: value.tree() };
    let ghost all = observed(list@);
    let mut at: usize = list.len();
    let mut known = false;
    while at > 0
        invariant_except_break
            !known,
        invariant
            0 <= at <= list@.len(),
            list@ == old(list)@,
            all == observed(list@),
            item == (Observed { subject, path: path@, value: value.tree() }),
            forall|j: int|
                at <= j < list@.len() ==> !same_fact(#[trigger] all[j], item) && !noted_before(
                    all[j],
                    item,
                ),
        ensures
            at > 0 ==> same_fact(all[at - 1], item) || noted_before(all[at - 1], item),
            known == (at > 0 && same_fact(all[at - 1], item)),
        decreases at,
    {
        let last = &list[at - 1];
        assert(all[at - 1].path == last.path@);
        if last.subject == subject {
            if same(last.path.as_str(), path) {
                known = true;
                break;
            }
            if before(last.path.as_str(), path) {
                break;
            }
        } else if last.subject == ObservationSubject::Host {
            break;
        }
        at -= 1;
    }
    proof {
        lemma_noted(all, item, at as int);
    }
    if !known {
        list.insert(at, Observation { subject, path: path.to_string(), value: value.copy() });
        assert(observed(list@) =~= all.insert(at as int, item));
    }
}

/// Whether observations stand in order, each fact once.
pub open spec fn facts_in_order(list: Seq<Observed>) -> bool {
    forall|i: int, j: int|
        0 <= i < j < list.len() ==> noted_before(#[trigger] list[i], #[trigger] list[j])
}

pub proof fn lemma_noted_before(a: Observed, b: Observed, c: Observed)
    ensures
        noted_before(a, b) || same_fact(a, b) || noted_before(b, a),
        noted_before(a, b) ==> !same_fact(a, b) && !noted_before(b, a),
        noted_before(a, b) && noted_before(b, c) ==> noted_before(a, c),
        noted_before(a, b) && same_fact(b, c) ==> noted_before(a, c),
{
    lemma_total(a.path, b.path);
    if precedes(a.path, b.path) {
        lemma_asymmetric(a.path, b.path);
        if precedes(b.path, c.path) {
            lemma_transitive(a.path, b.path, c.path);
        }
    }
}

/// What was first read of a fact stays: reading it again changes nothing, reading
/// another fact loses nothing, and every fact stands once, in order.
pub proof fn law_first_readings_stay(list: Seq<Observed>, item: Observed, again: Observed)
    requires
        facts_in_order(list),
        same_fact(item, again),
    ensures
        facts_in_order(noted(list, item)),
        forall|i: int| 0 <= i < list.len() ==> noted(list, item).contains(#[trigger] list[i]),
        forall|k: int|
            0 <= k < noted(list, item).len() ==> list.contains(#[trigger] noted(list, item)[k])
                || noted(list, item)[k] == item,
        noted(noted(list, item), again) == noted(list, item),
    decreases list.len(),
{
    let made = noted(list, item);
    if list.len() == 0 {
        assert(made.last() == item);
    } else {
        let last = list.last();
        let front = list.drop_last();
        assert forall|i: int| 0 <= i < front.len() implies noted_before(
            #[trigger] front[i],
            last,
        ) by {
            assert(noted_before(list[i], list[list.len() - 1]));
        }
        lemma_noted_before(last, item, item);
        if same_fact(last, item) {
            assert forall|i: int| 0 <= i < list.len() implies made.contains(#[trigger] list[i]) by {
                assert(made[i] == list[i]);
            }
            assert forall|k: int| 0 <= k < made.len() implies list.contains(
                #[trigger] made[k],
            ) by {
                assert(list[k] == made[k]);
            }
        } else if noted_before(last, item) {
            assert forall|i: int, j: int| 0 <= i < j < made.len() implies noted_before(
                #[trigger] made[i],
                #[trigger] made[j],
            ) by {
                if j == made.len() - 1 && i < list.len() - 1 {
                    assert(noted_before(list[i], last));
                    lemma_noted_before(list[i], last, item);
                }
            }
            assert forall|i: int| 0 <= i < list.len() implies made.contains(#[trigger] list[i]) by {
                assert(made[i] == list[i]);
            }
            assert(made.last() == item);
        } else {
            law_first_readings_stay(front, item, again);
            let inner = noted(front, item);
            assert(made == inner.push(last));
            assert forall|i: int, j: int| 0 <= i < j < made.len() implies noted_before(
                #[trigger] made[i],
                #[trigger] made[j],
            ) by {
                if j == made.len() - 1 {
                    assert(made[i] == inner[i]);
                    if front.contains(inner[i]) {
                        let k = front.index_of(inner[i]);
                        assert(noted_before(front[k], last));
                    }
                } else {
                    assert(noted_before(inner[i], inner[j]));
                }
            }
            assert forall|i: int| 0 <= i < list.len() implies made.contains(#[trigger] list[i]) by {
                if i < list.len() - 1 {
                    assert(list[i] == front[i]);
                    assert(inner.contains(front[i]));
                    let k = inner.index_of(front[i]);
                    assert(made[k] == list[i]);
                } else {
                    assert(made[made.len() - 1] == list[i]);
                }
            }
            assert forall|k: int| 0 <= k < made.len() implies list.contains(#[trigger] made[k])
                || made[k] == item by {
                if k < inner.len() {
                    assert(made[k] == inner[k]);
                    if front.contains(inner[k]) {
                        let j = front.index_of(inner[k]);
                        assert(list[j] == made[k]);
                    }
                } else {
                    assert(list[list.len() - 1] == made[k]);
                }
            }
            lemma_noted_before(item, last, last);
            lemma_noted_before(last, again, again);
            lemma_noted_before(again, last, last);
            assert(made.drop_last() =~= inner);
            assert(made.last() == last);
        }
    }
}

/// What stands in a frozen value behind a list of keys.
pub open spec fn at_keys(root: FrozenValue, keys: Seq<Seq<char>>) -> Option<FrozenValue>
    decreases keys.len(),
{
    if keys.len() == 0 {
        Some(root)
    } else {
        match root {
            FrozenValue::Table(entries) => match option(entries@, keys[0]) {
                Some(value) => at_keys(value, keys.skip(1)),
                None => None,
            },
            _ => None,
        }
    }
}

/// What stands in a frozen value at a path whose keys dots separate.
pub open spec fn at_path(root: FrozenValue, path: Seq<char>) -> Option<FrozenValue> {
    at_keys(root, pieces(path, '.'))
}

/// Looks a path up.
pub fn frozen_at_path<'a>(root: &'a FrozenValue, path: &str) -> (r: Option<&'a FrozenValue>)
    ensures
        match r {
            Some(value) => at_path(*root, path@) == Some(*value),
            None => at_path(*root, path@) is None,
        },
{
    let keys = split(path, '.');
    let ghost all = pieces(path@, '.');
    assert(keys@.len() == views(keys@).len());
    let mut value = root;
    let mut i: usize = 0;
    assert(all.skip(0) =~= all);
    while i < keys.len()
        invariant
            0 <= i <= keys@.len(),
            views(keys@) == all,
            all == pieces(path@, '.'),
            keys@.len() == all.len(),
            at_path(*root, path@) == at_keys(*value, all.skip(i as int)),
        decreases keys@.len() - i,
    {
        assert(views(keys@)[i as int] == keys@[i as int]@);
        assert(all.skip(i as int).skip(1) =~= all.skip(i + 1));
        assert(all.skip(i as int)[0] == all[i as int]);
        match value {
            FrozenValue::Table(entries) => match get(entries, keys[i].as_str()) {
                Some(inner) => {
                    value = inner;
                },
                None => {
                    return None;
                },
            },
            _ => {
                return None;
            },
        }
        i += 1;
    }
    Some(value)
}

/// Whether a fact is one that every target has, so that reading it tells nothing.
pub open spec fn foundational(subject: ObservationSubject, path: Seq<char>) -> bool {
    subject == ObservationSubject::Target && (path == "os.name"@ || path == "arch"@)
}

/// Whether a fact is one that every target has.
pub fn is_foundational_target(subject: ObservationSubject, path: &str) -> (r: bool)
    ensures
        r == foundational(subject, path@),
{
    subject == ObservationSubject::Target && (same(path, "os.name") || same(path, "arch"))
}

/// The target and its readers, and what was observed.
#[derive(Debug, PartialEq)]
pub struct ContextState {
    /// The building machine and the target
    pub target: TargetState,
    /// The observations, in their order
    pub observations: Vec<Observation>,
}

/// Whether the target is the same but for having been read at this place.
pub open spec fn target_read(before: TargetState, after: TargetState, place: Location) -> bool {
    &&& after.host == before.host
    &&& after.target == before.target
    &&& after.target_override == before.target_override
    &&& match before.target_first_read {
        Some(first) => after.target_first_read == Some(first),
        None => after.target_first_read matches Some(read) && read.trace.same(place.trace),
    }
}

fn mark_target_read(state: &mut TargetState, location: &Location)
    ensures
        target_read(*old(state), *final(state), *location),
{
    if state.target_first_read.is_none() {
        state.target_first_read = Some(location.copy());
    }
}

/// What policy reads at a path: nothing there reads as null.
pub open spec fn read_tree(root: FrozenValue, path: Seq<char>) -> JsonTree {
    match at_path(root, path) {
        Some(value) => value.tree(),
        None => JsonTree::Null,
    }
}

/// The observations once a path was read: maps are only observed in their parts.
pub open spec fn read_noted(
    list: Seq<Observed>,
    subject: ObservationSubject,
    root: FrozenValue,
    path: Seq<char>,
) -> Seq<Observed> {
    if at_path(root, path) matches Some(FrozenValue::Table(_)) {
        list
    } else {
        noted(list, Observed { subject, path, value: read_tree(root, path) })
    }
}

/// Whether a value is what stands at a path.
pub open spec fn value_at(r: Option<FrozenValue>, root: FrozenValue, path: Seq<char>) -> bool {
    match at_path(root, path) {
        Some(value) => r matches Some(read) && read.tree() == value.tree() && (read is Table
            <==> value is Table),
        None => r is None,
    }
}

fn read_and_note(
    observations: &mut Vec<Observation>,
    subject: ObservationSubject,
    root: &FrozenValue,
    path: &str,
) -> (r: Option<FrozenValue>)
    ensures
        value_at(r, *root, path@),
        observed(final(observations)@) == read_noted(
            observed(old(observations)@),
            subject,
            *root,
            path@,
        ),
{
    match frozen_at_path(root, path) {
        None => {
            note(observations, subject, path, &FrozenValue::Null);
            None
        },
        Some(value) => {
            let is_map = match value {
                FrozenValue::Table(_) => true,
                _ => false,
            };
            if !is_map {
                note(observations, subject, path, value);
            }
            Some(value.copy())
        },
    }
}

/// Reads a fact of the building machine or of the target, whose facts are `root`.
/// Reading the target fixes it.
pub fn context_access(
    state: &mut ContextState,
    subject: ObservationSubject,
    root: &FrozenValue,
    path: &str,
    location: &Location,
) -> (r: Option<FrozenValue>)
    ensures
        value_at(r, *root, path@),
        if subject == ObservationSubject::Target {
            target_read(old(state).target, final(state).target, *location)
        } else {
            final(state).target == old(state).target
        },
        observed(final(state).observations@) == if foundational(subject, path@) {
            observed(old(state).observations@)
        } else {
            read_noted(observed(old(state).observations@), subject, *root, path@)
        },
{
    if subject == ObservationSubject::Target {
        mark_target_read(&mut state.target, location);
    }
    if is_foundational_target(subject, path) {
        return match frozen_at_path(root, path) {
            Some(value) => Some(value.copy()),
            None => None,
        };
    }
    read_and_note(&mut state.observations, subject, root, path)
}

/// The path of a child.
pub open spec fn child_path(path: Seq<char>, key: Seq<char>) -> Seq<char> {
    if path.len() == 0 {
        key
    } else {
        path + "."@ + key
    }
}

/// The path of a child.
pub fn child(path: &str, key: &str) -> (r: String)
    ensures
        r@ == child_path(path@, key@),
{
    if path.is_empty() {
        key.to_string()
    } else {
        cat3(path, ".", key)
    }
}

/// The observations once all that stands at a path was read.
pub open spec fn snapshot_noted(
    list: Seq<Observed>,
    subject: ObservationSubject,
    path: Seq<char>,
    value: FrozenValue,
) -> Seq<Observed>
    decreases value, 0nat,
{
    match value {
        FrozenValue::Table(entries) => entries_noted(list, subject, path, entries@),
        _ => if path.len() == 0 || foundational(subject, path) {
            list
        } else {
            noted(list, Observed { subject, path, value: value.tree() })
        },
    }
}

/// The observations once the entries of a map were read.
pub open spec fn entries_noted(
    list: Seq<Observed>,
    subject: ObservationSubject,
    path: Seq<char>,
    entries: Seq<(String, FrozenValue)>,
) -> Seq<Observed>
    decreases entries, entries.len(),
{
    if entries.len() == 0 {
        list
    } else {
        snapshot_noted(
            entries_noted(list, subject, path, entries.drop_last()),
            subject,
            child_path(path, entries.last().0@),
            entries.last().1,
        )
    }
}

fn record_context_snapshot(
    observations: &mut Vec<Observation>,
    subject: ObservationSubject,
    path: &str,
    value: &FrozenValue,
)
    ensures
        observed(final(observations)@) == snapshot_noted(
            observed(old(observations)@),
            subject,
            path@,
            *value,
        ),
    decreases *value,
{
    if let FrozenValue::Table(entries) = value {
        let ghost start = observed(observations@);
        let mut i: usize = 0;
        assert(entries@.take(0) =~= Seq::empty());
        while i < entries.len()
            invariant
                0 <= i <= entries@.len(),
                *value is Table,
                *entries == value->Table_0,
                start == observed(old(observations)@),
                observed(observations@) == entries_noted(
                    start,
                    subject,
                    path@,
                    entries@.take(i as int),
                ),
            decreases entries@.len() - i,
        {
            proof {
                assert(decreases_to!(*value => value->Table_0));
                assert(decreases_to!(value->Table_0 => value->Table_0@));
                assert(decreases_to!(entries@ => entries@[i as int]));
                assert(decreases_to!(entries@[i as int] => entries@[i as int].1));
                assert(entries@.take(i + 1).drop_last() =~= entries@.take(i as int));
                assert(entries@.take(i + 1).last() == entries@[i as int]);
            }
            let name = child(path, entries[i].0.as_str());
            record_context_snapshot(observations, subject, name.as_str(), &entries[i].1);
            i += 1;
        }
        assert(entries@.take(i as int) =~= entries@);
    } else if !path.is_empty() && !is_foundational_target(subject, path) {
        note(observations, subject, path, value);
    }
}

/// What is wrong with reading local facts: the target is another platform.
pub open spec fn local_problem(state: TargetState, place: Seq<char>) -> Option<Seq<char>> {
    problem_if(
        !state.target.platform.compatible(state.host),
        "common local context is unavailable because build target `"@
            + state.target.platform.compact_text() + "` differs from host `"@
            + state.host.compact_text() + "` at "@ + place
            + "; use w.host or w.target explicitly"@,
    )
}

fn require_local_context(state: &mut TargetState, location: &Location) -> (r: Result<()>)
    ensures
        reports(r, local_problem(*old(state), location.trace.text())),
        target_read(*old(state), *final(state), *location),
{
    mark_target_read(state, location);
    if !state.target.platform.locally_compatible_with(&state.host) {
        return Err(
            WombatError::Configuration(
                cat7(
                    "common local context is unavailable because build target `",
                    state.target.platform.compact().as_str(),
                    "` differs from host `",
                    state.host.compact().as_str(),
                    "` at ",
                    location.display().as_str(),
                    "; use w.host or w.target explicitly",
                ),
            ),
        );
    }
    Ok(())
}

/// Reads a fact of the building machine, whose facts are `host`, that also holds of
/// the target.
pub fn common_host_value(
    state: &mut ContextState,
    host: &FrozenValue,
    path: &str,
    location: &Location,
) -> (r: Result<Option<FrozenValue>>)
    ensures
        reports(r, local_problem(old(state).target, location.trace.text())),
        target_read(old(state).target, final(state).target, *location),
        r is Err ==> final(state).observations == old(state).observations,
        r matches Ok(value) ==> value_at(value, *host, path@) && observed(
            final(state).observations@,
        ) == read_noted(
            observed(old(state).observations@),
            ObservationSubject::Host,
            *host,
            path@,
        ),
{
    require_local_context(&mut state.target, location)?;
    Ok(read_and_note(&mut state.observations, ObservationSubject::Host, host, path))
}

/// The path that a common name reads.
pub open spec fn common_path(name: Seq<char>) -> Option<Seq<char>> {
    if name == "arch"@ {
        Some("arch"@)
    } else if name == "macos"@ || name == "linux"@ {
        Some("os.name"@)
    } else if name == "wsl"@ {
        Some("wsl"@)
    } else {
        None
    }
}

/// What a common name stands for: what it reads, or whether the building machine
/// runs the named system.
pub open spec fn common_tree(host: FrozenValue, name: Seq<char>) -> JsonTree {
    if name == "macos"@ || name == "linux"@ {
        JsonTree::Bool(read_tree(host, "os.name"@) == JsonTree::Text(name))
    } else {
        read_tree(host, common_path(name)->0)
    }
}

/// Reads a common name.
pub fn common_value(
    state: &mut ContextState,
    host: &FrozenValue,
    name: &str,
    location: &Location,
) -> (r: Result<FrozenValue>)
    ensures
        match common_path(name@) {
            None => r is Err && crate::error::is_invariant(
                r->Err_0,
                "unknown common context value `"@ + name@ + "`"@,
            ) && *final(state) == *old(state),
            Some(path) => {
                &&& reports(r, local_problem(old(state).target, location.trace.text()))
                &&& target_read(old(state).target, final(state).target, *location)
                &&& r is Err ==> final(state).observations == old(state).observations
                &&& r matches Ok(value) ==> value.tree() == common_tree(*host, name@) && observed(
                    final(state).observations@,
                ) == read_noted(
                    observed(old(state).observations@),
                    ObservationSubject::Host,
                    *host,
                    path,
                )
            },
        },
{
    proof {
        reveal_strlit("arch");
        reveal_strlit("macos");
        reveal_strlit("linux");
        reveal_strlit("wsl");
        assert("arch"@.len() == 4 && "macos"@.len() == 5 && "linux"@.len() == 5 && "wsl"@.len() == 3);
    }
    let system = if same(name, "macos") {
        Some(OperatingSystemName::Macos)
    } else if same(name, "linux") {
        Some(OperatingSystemName::Linux)
    } else {
        None
    };
    let path = if same(name, "arch") {
        "arch"
    } else if system.is_some() {
        "os.name"
    } else if same(name, "wsl") {
        "wsl"
    } else {
        return Err(
            WombatError::Invariant(cat3("unknown common context value `", name, "`")),
        );
    };
    let found = common_host_value(state, host, path, location)?;
    let value = match found {
        Some(value) => value,
        None => FrozenValue::Null,
    };
    if let Some(expected) = system {
        let runs = match &value {
            FrozenValue::String(text) => same(text.as_str(), expected.as_str()),
            _ => false,
        };
        return Ok(FrozenValue::Boolean(runs));
    }
    Ok(value)
}

/// What is known of the building machine besides its platform.
#[derive(Debug, PartialEq)]
pub struct HostPaths {
    /// The repository
    pub repository: String,
    /// The home directory
    pub home: Option<String>,
    /// The directory of configuration
    pub config: Option<String>,
    /// The directory of data
    pub data: Option<String>,
    /// The directory of state
    pub state: Option<String>,
    /// The directory of caches
    pub cache: Option<String>,
    /// Whether it runs beneath Windows
    pub wsl: bool,
}

/// What a key of `w.paths` names, and under which name it is observed.
pub open spec fn named_path(paths: HostPaths, key: Seq<char>) -> Option<
    (Option<Seq<char>>, Seq<char>),
> {
    if key == "home"@ {
        Some((text_option(paths.home), "home"@))
    } else if key == "local_root"@ {
        Some(
            (
                match paths.home {
                    Some(home) => Some(path_join(home@, ".local"@)),
                    None => None,
                },
                "paths.local_root"@,
            ),
        )
    } else if key == "config"@ {
        Some((text_option(paths.config), "paths.config"@))
    } else if key == "data"@ {
        Some((text_option(paths.data), "paths.data"@))
    } else if key == "state"@ {
        Some((text_option(paths.state), "paths.state"@))
    } else if key == "cache"@ {
        Some((text_option(paths.cache), "paths.cache"@))
    } else {
        None
    }
}

/// An optional string.
pub open spec fn text_option(value: Option<String>) -> Option<Seq<char>> {
    match value {
        Some(text) => Some(text@),
        None => None,
    }
}

/// What is wrong with reading a path.
pub open spec fn path_problem(
    paths: HostPaths,
    state: TargetState,
    key: Seq<char>,
    place: Seq<char>,
) -> Option<Seq<char>> {
    if key == "repository"@ {
        None
    } else {
        first(
            local_problem(state, place),
            match named_path(paths, key) {
                None => Some("unknown w.paths key `"@ + key + "`"@),
                Some(named) => match named.0 {
                    None => Some(
                        "w.paths."@ + key + " is unavailable because HOME is not set"@,
                    ),
                    Some(path) => problem_if(
                        !absolute(path),
                        "w.paths."@ + key + " must be absolute, got `"@ + path + "`"@,
                    ),
                },
            },
        )
    }
}

/// The path that a key reads.
pub open spec fn path_read(paths: HostPaths, key: Seq<char>) -> Seq<char> {
    if key == "repository"@ {
        paths.repository@
    } else {
        (named_path(paths, key)->0).0->0
    }
}

/// The observations once a path was read.
pub open spec fn path_noted(list: Seq<Observed>, paths: HostPaths, key: Seq<char>) -> Seq<Observed> {
    if key == "repository"@ {
        list
    } else {
        noted(
            list,
            Observed {
                subject: ObservationSubject::Host,
                path: (named_path(paths, key)->0).1,
                value: JsonTree::Text(path_read(paths, key)),
            },
        )
    }
}

/// How the target stands once a path was read.
pub open spec fn path_target(
    key: Seq<char>,
    before: TargetState,
    after: TargetState,
    place: Location,
) -> bool {
    if key == "repository"@ {
        after == before
    } else {
        target_read(before, after, place)
    }
}

fn copied(value: &Option<String>) -> (r: Option<String>)
    ensures
        text_option(r) == text_option(*value),
{
    match value {
        Some(text) => Some(text.clone()),
        None => None,
    }
}

fn find_path(paths: &HostPaths, key: &str) -> (r: Option<(Option<String>, &'static str)>)
    requires
        key@ != "repository"@,
    ensures
        match r {
            Some(found) => named_path(*paths, key@) == Some((text_option(found.0), found.1@)),
            None => named_path(*paths, key@) is None,
        },
{
    if same(key, "home") {
        Some((copied(&paths.home), "home"))
    } else if same(key, "local_root") {
        let root = match &paths.home {
            Some(home) => Some(join_path(home.as_str(), ".local")),
            None => None,
        };
        Some((root, "paths.local_root"))
    } else if same(key, "config") {
        Some((copied(&paths.config), "paths.config"))
    } else if same(key, "data") {
        Some((copied(&paths.data), "paths.data"))
    } else if same(key, "state") {
        Some((copied(&paths.state), "paths.state"))
    } else if same(key, "cache") {
        Some((copied(&paths.cache), "paths.cache"))
    } else {
        None
    }
}

/// Reads a path of the building machine.
pub fn path_value(
    state: &mut ContextState,
    paths: &HostPaths,
    key: &str,
    location: &Location,
) -> (r: Result<String>)
    ensures
        reports(r, path_problem(*paths, old(state).target, key@, location.trace.text())),
        path_target(key@, old(state).target, final(state).target, *location),
        r is Err ==> final(state).observations == old(state).observations,
        r matches Ok(path) ==> path@ == path_read(*paths, key@) && observed(
            final(state).observations@,
        ) == path_noted(observed(old(state).observations@), *paths, key@),
{
    if same(key, "repository") {
        return Ok(paths.repository.clone());
    }
    require_local_context(&mut state.target, location)?;
    let (found, observation) = match find_path(paths, key) {
        Some(found) => found,
        None => {
            return Err(WombatError::Configuration(cat3("unknown w.paths key `", key, "`")));
        },
    };
    let path = match found {
        Some(path) => path,
        None => {
            return Err(
                WombatError::Configuration(
                    cat3("w.paths.", key, " is unavailable because HOME is not set"),
                ),
            );
        },
    };
    if !is_absolute(path.as_str()) {
        return Err(
            WombatError::Configuration(
                crate::text::cat5("w.paths.", key, " must be absolute, got `", path.as_str(), "`"),
            ),
        );
    }
    let value = FrozenValue::String(path);
    note(&mut state.observations, ObservationSubject::Host, observation, &value);
    match value {
        FrozenValue::String(path) => Ok(path),
        _ => Ok(String::new()),
    }
}

/// What is wrong with reading paths of Windows.
pub open spec fn windows_problem(state: TargetState, wsl: bool, place: Seq<char>) -> Option<
    Seq<char>,
> {
    first(
        local_problem(state, place),
        problem_if(!wsl, "w.paths.windows is available only inside WSL"@),
    )
}

/// The observation that the building machine runs beneath Windows.
pub open spec fn wsl_noted(list: Seq<Observed>) -> Seq<Observed> {
    noted(
        list,
        Observed {
            subject: ObservationSubject::Host,
            path: "wsl"@,
            value: JsonTree::Bool(true),
        },
    )
}

/// Makes sure that there are paths of Windows.
pub fn windows_paths_available(state: &mut ContextState, wsl: bool, location: &Location) -> (r:
    Result<()>)
    ensures
        reports(r, windows_problem(old(state).target, wsl, location.trace.text())),
        target_read(old(state).target, final(state).target, *location),
        r is Err ==> final(state).observations == old(state).observations,
        r is Ok ==> observed(final(state).observations@) == wsl_noted(
            observed(old(state).observations@),
        ),
{
    require_local_context(&mut state.target, location)?;
    if !wsl {
        return Err(WombatError::configuration("w.paths.windows is available only inside WSL"));
    }
    note(
        &mut state.observations,
        ObservationSubject::Host,
        "wsl",
        &FrozenValue::Boolean(true),
    );
    Ok(())
}

/// Whether the outcome of reading a path of Windows is what it should be.
pub open spec fn windows_outcome(
    r: Result<String>,
    state: TargetState,
    wsl: bool,
    key: Seq<char>,
    home: Result<String>,
    place: Seq<char>,
) -> bool {
    if key != "home"@ {
        reports(r, Some("unknown w.paths.windows key `"@ + key + "`"@))
    } else if windows_problem(state, wsl, place) is Some {
        reports(r, windows_problem(state, wsl, place))
    } else {
        match home {
            Err(error) => r is Err && r->Err_0 == error,
            Ok(path) => reports(
                r,
                problem_if(
                    !absolute(path@),
                    "w.paths.windows.home must resolve to an absolute WSL path, got `"@ + path@
                        + "`"@,
                ),
            ) && (r matches Ok(read) ==> read@ == path@),
        }
    }
}

/// The observations once the home directory of Windows was looked for.
pub open spec fn windows_noted(
    list: Seq<Observed>,
    r: Result<String>,
    problem: Option<Seq<char>>,
) -> Seq<Observed> {
    if problem is Some {
        list
    } else {
        match r {
            Ok(path) => noted(
                wsl_noted(list),
                Observed {
                    subject: ObservationSubject::Host,
                    path: "paths.windows.home"@,
                    value: JsonTree::Text(path@),
                },
            ),
            Err(_) => wsl_noted(list),
        }
    }
}

/// Reads a path of Windows. `home` is the home directory, as far as it could be
/// found.
pub fn windows_path_value(
    state: &mut ContextState,
    wsl: bool,
    key: &str,
    home: Result<String>,
    location: &Location,
) -> (r: Result<String>)
    ensures
        windows_outcome(r, old(state).target, wsl, key@, home, location.trace.text()),
        if key@ != "home"@ {
            *final(state) == *old(state)
        } else {
            target_read(old(state).target, final(state).target, *location) && observed(
                final(state).observations@,
            ) == windows_noted(
                observed(old(state).observations@),
                r,
                windows_problem(old(state).target, wsl, location.trace.text()),
            )
        },
{
    if !same(key, "home") {
        return Err(
            WombatError::Configuration(cat3("unknown w.paths.windows key `", key, "`")),
        );
    }
    windows_paths_available(state, wsl, location)?;
    let path = home?;
    if !is_absolute(path.as_str()) {
        return Err(
            WombatError::Configuration(
                cat3(
                    "w.paths.windows.home must resolve to an absolute WSL path, got `",
                    path.as_str(),
                    "`",
                ),
            ),
        );
    }
    let value = FrozenValue::String(path);
    note(&mut state.observations, ObservationSubject::Host, "paths.windows.home", &value);
    match value {
        FrozenValue::String(path) => Ok(path),
        _ => Ok(String::new()),
    }
}

/// What a process that was asked for a fact has answered.
#[derive(Debug, PartialEq)]
pub struct Answer {
    /// Whether it succeeded
    pub success: bool,
    /// How it ended
    pub status: String,
    /// What it wrote
    pub output: Vec<u8>,
    /// Whether it wrote more than that
    pub truncated: bool,
}

/// What is wrong with the profile that Windows names. `run` holds the answer, or
/// why there is none.
pub open spec fn profile_problem(run: std::result::Result<Answer, String>) -> Option<Seq<char>> {
    match run {
        Err(reason) => Some(
            "cannot resolve Windows home: cmd.exe is unavailable through WSL interop: "@ + reason@,
        ),
        Ok(answer) => if !answer.success || answer.truncated {
            Some(
                "cannot resolve Windows home: cmd.exe did not return a complete profile path ("@
                    + answer.status@ + ")"@,
            )
        } else {
            match decoded(answer.output@) {
                None => Some("cannot resolve Windows home: cmd.exe returned non-UTF-8 output"@),
                Some(text) => problem_if(
                    trimmed(text).len() == 0,
                    "cannot resolve Windows home: USERPROFILE is empty in Windows interop"@,
                ),
            }
        },
    }
}

/// Reads the profile that Windows names.
pub fn windows_profile(run: &std::result::Result<Answer, String>) -> (r: Result<String>)
    ensures
        reports(r, profile_problem(*run)),
        r matches Ok(profile) ==> profile@ == trimmed(decoded(run->Ok_0.output@)->0),
{
    match run {
        Err(reason) => Err(
            WombatError::Configuration(
                cat2(
                    "cannot resolve Windows home: cmd.exe is unavailable through WSL interop: ",
                    reason.as_str(),
                ),
            ),
        ),
        Ok(answer) => {
            if !answer.success || answer.truncated {
                return Err(
                    WombatError::Configuration(
                        cat3(
                            "cannot resolve Windows home: cmd.exe did not return a complete profile path (",
                            answer.status.as_str(),
                            ")",
                        ),
                    ),
                );
            }
            match decode(answer.output.as_slice()) {
                None => Err(
                    WombatError::configuration(
                        "cannot resolve Windows home: cmd.exe returned non-UTF-8 output",
                    ),
                ),
                Some(text) => {
                    let profile = trim(text.as_str());
                    if profile.as_str().is_empty() {
                        return Err(
                            WombatError::configuration(
                                "cannot resolve Windows home: USERPROFILE is empty in Windows interop",
                            ),
                        );
                    }
                    Ok(profile)
                },
            }
        },
    }
}

/// What is wrong with the translation of the profile.
pub open spec fn translation_problem(run: std::result::Result<Answer, String>) -> Option<Seq<char>> {
    match run {
        Err(reason) => Some(
            "cannot translate Windows home: wslpath is unavailable: "@ + reason@,
        ),
        Ok(answer) => if !answer.success || answer.truncated {
            Some("cannot translate Windows home with wslpath: "@ + answer.status@)
        } else {
            match decoded(answer.output@) {
                None => Some("cannot translate Windows home: wslpath returned non-UTF-8 output"@),
                Some(text) => absolute_problem(trimmed(text)),
            }
        },
    }
}

/// Reads the translation of the profile.
pub fn windows_home(run: &std::result::Result<Answer, String>) -> (r: Result<String>)
    ensures
        reports(r, translation_problem(*run)),
        r matches Ok(home) ==> home@ == trimmed(decoded(run->Ok_0.output@)->0),
{
    match run {
        Err(reason) => Err(
            WombatError::Configuration(
                cat2("cannot translate Windows home: wslpath is unavailable: ", reason.as_str()),
            ),
        ),
        Ok(answer) => {
            if !answer.success || answer.truncated {
                return Err(
                    WombatError::Configuration(
                        cat2(
                            "cannot translate Windows home with wslpath: ",
                            answer.status.as_str(),
                        ),
                    ),
                );
            }
            match decode(answer.output.as_slice()) {
                None => Err(
                    WombatError::configuration(
                        "cannot translate Windows home: wslpath returned non-UTF-8 output",
                    ),
                ),
                Some(text) => {
                    let home = trim(text.as_str());
                    validate_absolute_target(home.as_str())?;
                    Ok(home)
                },
            }
        },
    }
}

/// What stands at a path, the root at the empty one.
pub open spec fn snapshot_value(root: FrozenValue, path: Seq<char>) -> Option<FrozenValue> {
    if path.len() == 0 {
        Some(root)
    } else {
        at_path(root, path)
    }
}

/// Whether the outcome of reading all that stands at a path is what it should be.
pub open spec fn snapshot_outcome(r: Result<FrozenValue>, root: FrozenValue, path: Seq<char>) -> bool {
    match snapshot_value(root, path) {
        Some(value) => r matches Ok(read) && read.tree() == value.tree(),
        None => r is Err && crate::error::is_invariant(
            r->Err_0,
            "native lazy context path `"@ + path + "` no longer exists"@,
        ),
    }
}

fn snapshot_at_path<'a>(root: &'a FrozenValue, path: &str) -> (r: Result<&'a FrozenValue>)
    ensures
        match snapshot_value(*root, path@) {
            Some(value) => r matches Ok(read) && *read == value,
            None => r is Err && crate::error::is_invariant(
                r->Err_0,
                "native lazy context path `"@ + path@ + "` no longer exists"@,
            ),
        },
{
    if path.is_empty() {
        return Ok(root);
    }
    match frozen_at_path(root, path) {
        Some(value) => Ok(value),
        None => Err(
            WombatError::Invariant(
                cat3("native lazy context path `", path, "` no longer exists"),
            ),
        ),
    }
}

/// Reads all that stands at a path of the building machine or of the target, whose
/// facts are `root`.
pub fn snapshot_explicit_context(
    state: &mut ContextState,
    subject: ObservationSubject,
    root: &FrozenValue,
    path: &str,
    location: &Location,
) -> (r: Result<FrozenValue>)
    ensures
        snapshot_outcome(r, *root, path@),
        if subject == ObservationSubject::Target {
            target_read(old(state).target, final(state).target, *location)
        } else {
            final(state).target == old(state).target
        },
        observed(final(state).observations@) == match snapshot_value(*root, path@) {
            Some(value) => snapshot_noted(
                observed(old(state).observations@),
                subject,
                path@,
                value,
            ),
            None => observed(old(state).observations@),
        },
{
    if subject == ObservationSubject::Target {
        mark_target_read(&mut state.target, location);
    }
    let value = snapshot_at_path(root, path)?;
    record_context_snapshot(&mut state.observations, subject, path, value);
    Ok(value.copy())
}

/// Reads all that stands at a path of the building machine, whose facts are `host`
/// and also hold of the target.
pub fn snapshot_common_context(
    state: &mut ContextState,
    host: &FrozenValue,
    path: &str,
    location: &Location,
) -> (r: Result<FrozenValue>)
    ensures
        if local_problem(old(state).target, location.trace.text()) is Some {
            reports(r, local_problem(old(state).target, location.trace.text()))
                && final(state).observations == old(state).observations
        } else {
            snapshot_outcome(r, *host, path@) && observed(final(state).observations@)
                == match snapshot_value(*host, path@) {
                Some(value) => snapshot_noted(
                    observed(old(state).observations@),
                    ObservationSubject::Host,
                    path@,
                    value,
                ),
                None => observed(old(state).observations@),
            }
        },
        target_read(old(state).target, final(state).target, *location),
{
    require_local_context(&mut state.target, location)?;
    let value = snapshot_at_path(host, path)?;
    record_context_snapshot(&mut state.observations, ObservationSubject::Host, path, value);
    Ok(value.copy())
}

/// The keys of `w.paths` in the order in which they are read.
pub open spec fn path_keys() -> Seq<Seq<char>> {
    seq![
        "repository"@,
        "home"@,
        "local_root"@,
        "config"@,
        "data"@,
        "state"@,
        "cache"@,
    ]
}

/// What is wrong with reading paths: the problem of the first wrong one.
pub open spec fn paths_problem(
    paths: HostPaths,
    state: TargetState,
    keys: Seq<Seq<char>>,
    place: Seq<char>,
) -> Option<Seq<char>>
    decreases keys.len(),
{
    if keys.len() == 0 {
        None
    } else {
        first(
            paths_problem(paths, state, keys.drop_last(), place),
            path_problem(paths, state, keys.last(), place),
        )
    }
}

/// The observations once paths were read.
pub open spec fn paths_noted(
    list: Seq<Observed>,
    paths: HostPaths,
    keys: Seq<Seq<char>>,
) -> Seq<Observed>
    decreases keys.len(),
{
    if keys.len() == 0 {
        list
    } else {
        path_noted(paths_noted(list, paths, keys.drop_last()), paths, keys.last())
    }
}

/// The entries of paths that were read.
pub open spec fn paths_entries(paths: HostPaths, keys: Seq<Seq<char>>) -> Seq<
    (Seq<char>, JsonTree),
>
    decreases keys.len(),
{
    if keys.len() == 0 {
        Seq::empty()
    } else {
        with_entry(
            paths_entries(paths, keys.drop_last()),
            keys.last(),
            JsonTree::Text(path_read(paths, keys.last())),
        )
    }
}

proof fn lemma_paths_front(
    paths: HostPaths,
    state: TargetState,
    keys: Seq<Seq<char>>,
    place: Seq<char>,
    count: int,
)
    requires
        0 <= count <= keys.len(),
        paths_problem(paths, state, keys.take(count), place) is Some,
    ensures
        paths_problem(paths, state, keys, place) == paths_problem(
            paths,
            state,
            keys.take(count),
            place,
        ),
    decreases keys.len() - count,
{
    if count < keys.len() {
        assert(keys.take(count + 1).drop_last() =~= keys.take(count));
        lemma_paths_front(paths, state, keys, place, count + 1);
    } else {
        assert(keys.take(count) =~= keys);
    }
}

/// Which problem a local place has does not depend on who has read the target.
proof fn lemma_path_target(
    paths: HostPaths,
    a: TargetState,
    b: TargetState,
    key: Seq<char>,
    place: Seq<char>,
)
    requires
        a.host == b.host,
        a.target == b.target,
    ensures
        path_problem(paths, a, key, place) == path_problem(paths, b, key, place),
        windows_problem(a, paths.wsl, place) == windows_problem(b, paths.wsl, place),
{
}

/// Whether the paths were read and their entries gathered.
pub open spec fn paths_gathered(
    r: Result<Vec<(String, FrozenValue)>>,
    paths: HostPaths,
    before: ContextState,
    after: ContextState,
    location: Location,
) -> bool {
    &&& reports(r, paths_problem(paths, before.target, path_keys(), location.trace.text()))
    &&& target_read(before.target, after.target, location)
    &&& r matches Ok(entries) ==> ascending(crate::model::frozen::keys(entries@)) && entry_trees(
        entries@,
    ) == paths_entries(paths, path_keys())
        && observed(after.observations@) == paths_noted(
        observed(before.observations@),
        paths,
        path_keys(),
    )
}

fn gather_paths(state: &mut ContextState, paths: &HostPaths, location: &Location) -> (r: Result<
    Vec<(String, FrozenValue)>,
>)
    ensures
        paths_gathered(r, *paths, *old(state), *final(state), *location),
{
    let keys = ["repository", "home", "local_root", "config", "data", "state", "cache"];
    let ghost all = path_keys();
    let ghost start = *state;
    let mut entries: Vec<(String, FrozenValue)> = Vec::new();
    let mut i: usize = 0;
    assert(entry_trees(entries@) =~= Seq::empty());
    assert(all.take(0) =~= Seq::empty());
    proof {
        reveal_strlit("repository");
        reveal_strlit("home");
        assert("repository"@.len() == 10 && "home"@.len() == 4);
    }
    while i < keys.len()
        invariant
            0 <= i <= 7,
            keys@.len() == 7,
            all == path_keys(),
            forall|j: int| 0 <= j < 7 ==> (#[trigger] keys@[j])@ == all[j],
            start == *old(state),
            "home"@ != "repository"@,
            state.target.host == start.target.host,
            state.target.target == start.target.target,
            i < 2 ==> state.target == start.target,
            i >= 2 ==> target_read(start.target, state.target, *location),
            paths_problem(*paths, start.target, all.take(i as int), location.trace.text()) is None,
            ascending(crate::model::frozen::keys(entries@)),
            entry_trees(entries@) == paths_entries(*paths, all.take(i as int)),
            observed(state.observations@) == paths_noted(
                observed(start.observations@),
                *paths,
                all.take(i as int),
            ),
        decreases 7 - i,
    {
        proof {
            assert(all.take(i + 1).drop_last() =~= all.take(i as int));
            assert(all.take(i + 1).last() == all[i as int]);
            lemma_path_target(*paths, start.target, state.target, all[i as int], location.trace.text());
            if paths_problem(*paths, start.target, all.take(i + 1), location.trace.text()) is Some {
                lemma_paths_front(*paths, start.target, all, location.trace.text(), i + 1);
            }
        }
        let path = path_value(state, paths, keys[i], location)?;
        insert_entry(&mut entries, keys[i].to_string(), FrozenValue::String(path));
        i += 1;
    }
    assert(all.take(i as int) =~= all);
    Ok(entries)
}

/// The JSON form of the paths of Windows.
pub open spec fn windows_tree(home: Seq<char>) -> JsonTree {
    object_tree(seq![("home"@, JsonTree::Text(home))])
}

/// Reads the paths of Windows. `home` is the home directory, as far as it could be
/// found.
pub fn snapshot_windows_paths(
    state: &mut ContextState,
    wsl: bool,
    home: Result<String>,
    location: &Location,
) -> (r: Result<FrozenValue>)
    ensures
        windows_snapshot(r, *old(state), *final(state), wsl, home, *location),
{
    let path = windows_path_value(state, wsl, "home", home, location)?;
    let ghost text = path@;
    let mut entries: Vec<(String, FrozenValue)> = Vec::new();
    entries.push(("home".to_string(), FrozenValue::String(path)));
    proof {
        lemma_entries(entries@);
        assert(entry_trees(entries@) =~= seq![("home"@, JsonTree::Text(text))]);
    }
    Ok(FrozenValue::Table(entries))
}

/// Whether the paths of Windows were read as they should be.
pub open spec fn windows_snapshot(
    r: Result<FrozenValue>,
    before: ContextState,
    after: ContextState,
    wsl: bool,
    home: Result<String>,
    location: Location,
) -> bool {
    let problem = windows_problem(before.target, wsl, location.trace.text());
    let relative = home is Ok && !absolute(home->Ok_0@);
    &&& target_read(before.target, after.target, location)
    &&& if problem is Some {
        reports(r, problem) && observed(after.observations@) == observed(before.observations@)
    } else if home is Err {
        r is Err && r->Err_0 == home->Err_0 && observed(after.observations@) == wsl_noted(
            observed(before.observations@),
        )
    } else if relative {
        reports(
            r,
            Some(
                "w.paths.windows.home must resolve to an absolute WSL path, got `"@ + home->Ok_0@
                    + "`"@,
            ),
        ) && observed(after.observations@) == wsl_noted(observed(before.observations@))
    } else {
        r is Ok && r->Ok_0.tree() == windows_tree(home->Ok_0@) && observed(after.observations@)
            == noted(
            wsl_noted(observed(before.observations@)),
            Observed {
                subject: ObservationSubject::Host,
                path: "paths.windows.home"@,
                value: JsonTree::Text(home->Ok_0@),
            },
        )
    }
}

/// The entries of all paths.
pub open spec fn all_paths(paths: HostPaths, home: Result<String>) -> Seq<(Seq<char>, JsonTree)> {
    let own = paths_entries(paths, path_keys());
    if paths.wsl {
        with_entry(own, "windows"@, windows_tree(home->Ok_0@))
    } else {
        own
    }
}

/// Reads all paths of the building machine. `windows` is the home directory of
/// Windows, as far as it could be found; it matters only beneath Windows.
pub fn snapshot_paths(
    state: &mut ContextState,
    paths: &HostPaths,
    windows: Result<String>,
    location: &Location,
) -> (r: Result<FrozenValue>)
    ensures
        target_read(old(state).target, final(state).target, *location),
        ({
            let place = location.trace.text();
            let problem = paths_problem(*paths, old(state).target, path_keys(), place);
            if problem is Some {
                reports(r, problem)
            } else if !paths.wsl || (windows is Ok && absolute(windows->Ok_0@)) {
                r is Ok && r->Ok_0.tree() == object_tree(all_paths(*paths, windows))
            } else if windows is Err {
                r is Err && r->Err_0 == windows->Err_0
            } else {
                reports(
                    r,
                    Some(
                        "w.paths.windows.home must resolve to an absolute WSL path, got `"@
                            + windows->Ok_0@ + "`"@,
                    ),
                )
            }
        }),
        r is Ok ==> observed(final(state).observations@) == ({
            let own = paths_noted(observed(old(state).observations@), *paths, path_keys());
            if paths.wsl {
                noted(
                    wsl_noted(own),
                    (Observed {
                        subject: ObservationSubject::Host,
                        path: "paths.windows.home"@,
                        value: JsonTree::Text(windows->Ok_0@),
                    }),
                )
            } else {
                own
            }
        }),
{
    let ghost start = *state;
    let mut entries = gather_paths(state, paths, location)?;
    proof {
        let keys = path_keys();
        assert(keys.take(2).last() == "home"@);
        assert(keys.take(1).last() == "repository"@);
        if paths_problem(*paths, start.target, keys.take(2), location.trace.text()) is Some {
            lemma_paths_front(*paths, start.target, keys, location.trace.text(), 2);
        }
        reveal_strlit("repository");
        reveal_strlit("home");
        assert("repository"@.len() == 10 && "home"@.len() == 4);
        assert(local_problem(start.target, location.trace.text()) is None);
    }
    if paths.wsl {
        let below = snapshot_windows_paths(state, true, windows, location)?;
        insert_entry(&mut entries, "windows".to_string(), below);
    }
    Ok(FrozenValue::Table(entries))
}

/// Whether a template gets this value as its context: only maps can be.
pub fn resolve_template_context(resolved: Result<FrozenValue>) -> (r: Result<FrozenValue>)
    ensures
        match resolved {
            Err(error) => r is Err && r->Err_0 == error,
            Ok(value) => if value is Table {
                r is Ok && r->Ok_0 == value
            } else {
                reports(r, Some("w.template.context() requires a string-keyed map"@))
            },
        },
{
    let value = resolved?;
    let is_map = match &value {
        FrozenValue::Table(_) => true,
        _ => false,
    };
    if !is_map {
        return Err(
            WombatError::configuration("w.template.context() requires a string-keyed map"),
        );
    }
    Ok(value)
}

} // verus!
