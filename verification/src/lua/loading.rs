//! The Lua sources of a repository.
use vstd::prelude::*;
use vstd::string::*;

use crate::digest::{digest, digest_of};
use crate::error::{configured, either, first, problem_if, reports, settles, Problem, Result, WombatError};
use crate::lua::state::TrackedSource;
use crate::model::manifest::SourceFile;
use crate::model::source::{EntryKind, SourceFingerprint};
use crate::order::{ascending, before, lemma_asymmetric, lemma_total, lemma_transitive, precedes};
use crate::text::{
    cat3, chars_of, decode, decoded, pieces, replace_char, replaced, same, split, views,
};

verus! {

/// Whether a part of the name of a helper is made of letters, digits, `_` and `-`.
pub open spec fn plain_part(part: Seq<char>) -> bool {
    part.len() > 0 && forall|i: int|
        0 <= i < part.len() ==> crate::project::inputs::alphanumeric(#[trigger] part[i]) || part[i]
            == '_' || part[i] == '-'
}

/// Whether text names a helper: parts of letters, digits, `_` and `-` between dots.
pub open spec fn helper_name(module: Seq<char>) -> bool {
    forall|i: int|
        0 <= i < pieces(module, '.').len() ==> plain_part(#[trigger] pieces(module, '.')[i])
}

fn is_plain_part(part: &str) -> (r: bool)
    ensures
        r == plain_part(part@),
{
    let chars = chars_of(part);
    let mut i: usize = 0;
    while i < chars.len()
        invariant
            0 <= i <= chars@.len(),
            chars@ == part@,
            forall|j: int|
                0 <= j < i ==> crate::project::inputs::alphanumeric(#[trigger] part@[j])
                    || part@[j] == '_' || part@[j] == '-',
        decreases chars@.len() - i,
    {
        let c = chars[i];
        let plain = ('a' <= c && c <= 'z') || ('A' <= c && c <= 'Z') || ('0' <= c && c <= '9') || c
            == '_' || c == '-';
        if !plain {
            assert(part@[i as int] == c);
            return false;
        }
        i += 1;
    }
    chars.len() > 0
}

/// Whether text names a helper.
pub fn is_helper_name(module: &str) -> (r: bool)
    ensures
        r == helper_name(module@),
{
    let parts = split(module, '.');
    let ghost all = pieces(module@, '.');
    assert(parts@.len() == views(parts@).len());
    let mut i: usize = 0;
    while i < parts.len()
        invariant
            0 <= i <= parts@.len(),
            views(parts@) == all,
            all == pieces(module@, '.'),
            parts@.len() == all.len(),
            forall|j: int| 0 <= j < i ==> plain_part(#[trigger] all[j]),
        decreases parts@.len() - i,
    {
        assert(views(parts@)[i as int] == parts@[i as int]@);
        if !is_plain_part(parts[i].as_str()) {
            assert(!plain_part(all[i as int]));
            return false;
        }
        i += 1;
    }
    true
}

/// What is wrong with the name of a module of the repository.
pub open spec fn helper_problem(name: Seq<char>) -> Option<Seq<char>> {
    problem_if(!helper_name(name), "invalid repository Lua module name `"@ + name + "`"@)
}

/// The path of a module of the repository, without its extension.
pub fn helper_module_path(name: &str) -> (r: Result<String>)
    ensures
        reports(r, helper_problem(name@)),
        r matches Ok(path) ==> path@ == replaced(name@, '.', "/"@),
{
    if !is_helper_name(name) {
        return Err(
            WombatError::Configuration(cat3("invalid repository Lua module name `", name, "`")),
        );
    }
    Ok(replace_char(name, '.', "/"))
}

/// A component of a path, as it was found.
#[derive(Debug, PartialEq)]
pub struct FoundComponent {
    /// Whether it is a name, rather than a step up or the like
    pub normal: bool,
    /// What stands there, or why that could not be found out
    pub kind: std::result::Result<EntryKind, String>,
}

/// A source file as it was found: before it was read, what it held, and after.
#[derive(Debug, PartialEq)]
pub struct FoundSource {
    /// The components of its path beneath the repository
    pub components: Vec<FoundComponent>,
    /// What stood there before, or why that could not be found out
    pub before: std::result::Result<(EntryKind, SourceFingerprint), String>,
    /// What it held, or why that could not be read
    pub bytes: std::result::Result<Vec<u8>, String>,
    /// What told whether it had changed after, or why that could not be found out
    pub after: std::result::Result<SourceFingerprint, String>,
}

/// The message about a source.
pub open spec fn about(path: Seq<char>, what: Seq<char>) -> Seq<char> {
    "Lua source `"@ + path + "` "@ + what
}

fn refuse(path: &str, what: &str) -> (r: WombatError)
    ensures
        crate::error::is_configuration(r, about(path@, what@)),
{
    WombatError::Configuration(crate::text::cat4("Lua source `", path, "` ", what))
}

/// What is wrong with a component of the path of a source.
pub open spec fn component_problem(path: Seq<char>, component: FoundComponent) -> Option<Problem> {
    if !component.normal {
        Some(Problem::Configuration(about(path, "contains an invalid path component"@)))
    } else {
        match component.kind {
            Err(message) => Some(Problem::Io(message@)),
            Ok(kind) => if kind == EntryKind::Symlink {
                Some(Problem::Configuration(about(path, "must not contain symbolic links"@)))
            } else {
                None
            },
        }
    }
}

/// What is wrong with the path of a source: the problem of its first wrong component.
pub open spec fn components_problem(
    path: Seq<char>,
    components: Seq<FoundComponent>,
) -> Option<Problem>
    decreases components.len(),
{
    if components.len() == 0 {
        None
    } else {
        either(
            components_problem(path, components.drop_last()),
            component_problem(path, components.last()),
        )
    }
}

proof fn lemma_components_front(path: Seq<char>, components: Seq<FoundComponent>, count: int)
    requires
        0 <= count <= components.len(),
        components_problem(path, components.take(count)) is Some,
    ensures
        components_problem(path, components) == components_problem(path, components.take(count)),
    decreases components.len() - count,
{
    if count < components.len() {
        assert(components.take(count + 1).drop_last() =~= components.take(count));
        lemma_components_front(path, components, count + 1);
    } else {
        assert(components.take(count) =~= components);
    }
}

fn check_components(path: &str, components: &Vec<FoundComponent>) -> (r: Result<()>)
    ensures
        settles(r, components_problem(path@, components@)),
{
    let mut i: usize = 0;
    assert(components@.take(0) =~= Seq::empty());
    while i < components.len()
        invariant
            0 <= i <= components@.len(),
            components_problem(path@, components@.take(i as int)) is None,
        decreases components@.len() - i,
    {
        proof {
            assert(components@.take(i + 1).drop_last() =~= components@.take(i as int));
            assert(components@.take(i + 1).last() == components@[i as int]);
            if components_problem(path@, components@.take(i + 1)) is Some {
                lemma_components_front(path@, components@, i + 1);
            }
        }
        if !components[i].normal {
            return Err(refuse(path, "contains an invalid path component"));
        }
        match &components[i].kind {
            Err(message) => {
                return Err(WombatError::Io(message.clone()));
            },
            Ok(kind) => {
                if *kind == EntryKind::Symlink {
                    return Err(refuse(path, "must not contain symbolic links"));
                }
            },
        }
        i += 1;
    }
    assert(components@.take(i as int) =~= components@);
    Ok(())
}

/// What is wrong with a source as it was read: it must be a file of text that did
/// not change meanwhile.
pub open spec fn reading_problem(path: Seq<char>, found: FoundSource) -> Option<Problem> {
    match found.before {
        Err(message) => Some(Problem::Io(message@)),
        Ok(before) => if before.0 != EntryKind::File {
            Some(Problem::Configuration(about(path, "is not a regular file"@)))
        } else {
            match found.bytes {
                Err(message) => Some(Problem::Io(message@)),
                Ok(bytes) => match found.after {
                    Err(message) => Some(Problem::Io(message@)),
                    Ok(after) => configured(
                        first(
                            problem_if(
                                after != before.1,
                                about(path, "changed while it was being read"@),
                            ),
                            problem_if(
                                decoded(bytes@) is None,
                                about(path, "is not valid UTF-8"@),
                            ),
                        ),
                    ),
                },
            }
        },
    }
}

/// The paths of the sources.
pub open spec fn source_paths(sources: Seq<TrackedSource>) -> Seq<Seq<char>> {
    Seq::new(sources.len(), |i: int| sources[i].manifest.path@)
}

/// Whether a source is known, at this place.
pub open spec fn known_at(sources: Seq<TrackedSource>, path: Seq<char>, index: int) -> bool {
    0 <= index < sources.len() && sources[index].manifest.path@ == path
}

/// Whether a source is known.
pub open spec fn known(sources: Seq<TrackedSource>, path: Seq<char>) -> bool {
    exists|i: int| known_at(sources, path, i)
}

/// Whether what is known of a source still holds.
pub open spec fn unchanged(source: TrackedSource, found: FoundSource) -> bool {
    &&& source.manifest.digest@ == digest_of(found.bytes->Ok_0@)
    &&& source.fingerprint == (found.before->Ok_0).1
}

/// What is wrong with reading a source.
pub open spec fn source_problem(
    sources: Seq<TrackedSource>,
    path: Seq<char>,
    relative: Option<&str>,
    found: FoundSource,
) -> Option<Problem> {
    match relative {
        None => Some(Problem::Configuration(about(path, "escapes the repository"@))),
        Some(relative) => {
            let portable = replaced(relative@, '\\', "/"@);
            either(
                components_problem(path, found.components@),
                either(
                    reading_problem(path, found),
                    configured(
                        problem_if(
                            known(sources, portable) && !unchanged(
                                sources[choose|i: int| known_at(sources, portable, i)],
                                found,
                            ),
                            about(portable, "changed during evaluation"@),
                        ),
                    ),
                ),
            )
        },
    }
}

/// Whether a source is kept as it was read.
pub open spec fn kept_as(source: TrackedSource, portable: Seq<char>, found: FoundSource) -> bool {
    &&& source.manifest.path@ == portable
    &&& source.manifest.digest@ == digest_of(found.bytes->Ok_0@)
    &&& source.fingerprint == (found.before->Ok_0).1
    &&& decoded(found.bytes->Ok_0@) == Some(source.snapshot@)
}

proof fn lemma_one_source(sources: Seq<TrackedSource>, path: Seq<char>, index: int)
    requires
        ascending(source_paths(sources)),
        known_at(sources, path, index),
    ensures
        (choose|i: int| known_at(sources, path, i)) == index,
{
    let other = choose|i: int| known_at(sources, path, i);
    let paths = source_paths(sources);
    assert(known_at(sources, path, other));
    if other < index {
        assert(precedes(paths[other], paths[index]));
        lemma_asymmetric(paths[other], paths[index]);
    } else if index < other {
        assert(precedes(paths[index], paths[other]));
        lemma_asymmetric(paths[index], paths[other]);
    }
}

fn find_known(sources: &Vec<TrackedSource>, path: &str) -> (r: Option<usize>)
    ensures
        match r {
            Some(i) => known_at(sources@, path@, i as int),
            None => !known(sources@, path@),
        },
{
    let mut i: usize = 0;
    while i < sources.len()
        invariant
            0 <= i <= sources@.len(),
            forall|j: int| 0 <= j < i ==> !known_at(sources@, path@, j),
        decreases sources@.len() - i,
    {
        if same(sources[i].manifest.path.as_str(), path) {
            return Some(i);
        }
        i += 1;
    }
    None
}

fn insert_source(sources: &mut Vec<TrackedSource>, source: TrackedSource) -> (at: usize)
    requires
        ascending(source_paths(old(sources)@)),
        !known(old(sources)@, source.manifest.path@),
    ensures
        at <= old(sources)@.len(),
        final(sources)@ == old(sources)@.insert(at as int, source),
        ascending(source_paths(final(sources)@)),
{
    let ghost paths = source_paths(sources@);
    let ghost path = source.manifest.path@;
    let mut at: usize = sources.len();
    while at > 0 && before(source.manifest.path.as_str(), sources[at - 1].manifest.path.as_str())
        invariant
            0 <= at <= sources@.len(),
            sources@ == old(sources)@,
            paths == source_paths(sources@),
            ascending(paths),
            path == source.manifest.path@,
            forall|j: int| at <= j < sources@.len() ==> precedes(path, #[trigger] paths[j]),
        decreases at,
    {
        assert(paths[at - 1] == sources@[at - 1].manifest.path@);
        at -= 1;
    }
    proof {
        assert forall|j: int| 0 <= j < at implies precedes(#[trigger] paths[j], path) by {
            let last = paths[at - 1];
            assert(last == sources@[at - 1].manifest.path@);
            assert(last != path) by {
                if last == path {
                    assert(known_at(sources@, path, at - 1));
                }
            }
            lemma_total(last, path);
            if j < at - 1 {
                lemma_transitive(paths[j], last, path);
            }
        }
    }
    sources.insert(at, source);
    proof {
        let now = source_paths(sources@);
        assert(now =~= paths.insert(at as int, path));
        assert forall|i: int, j: int| 0 <= i < j < now.len() implies precedes(
            #[trigger] now[i],
            #[trigger] now[j],
        ) by {
            let a = if i < at { i } else { i - 1 };
            let b = if j < at { j } else { j - 1 };
            if i == at {
                assert(now[j] == paths[b]);
            } else if j == at {
                assert(now[i] == paths[i]);
            } else {
                assert(now[i] == paths[a] && now[j] == paths[b]);
            }
        }
    }
    at
}

/// Reads a Lua source and keeps track of it: however often it is read, it must hold
/// the same. `relative` is its path beneath the repository, where it stands beneath
/// it, and `found` is what was found there.
pub fn load_tracked_source(
    sources: &mut Vec<TrackedSource>,
    path: &str,
    relative: Option<&str>,
    found: &FoundSource,
) -> (r: Result<String>)
    requires
        ascending(source_paths(old(sources)@)),
    ensures
        ascending(source_paths(final(sources)@)),
        settles(r, source_problem(old(sources)@, path@, relative, *found)),
        r is Err ==> final(sources)@ == old(sources)@,
        r matches Ok(text) ==> {
            let portable = replaced(relative->0@, '\\', "/"@);
            if known(old(sources)@, portable) {
                final(sources)@ == old(sources)@ && text@ == old(sources)@[choose|i: int|
                    known_at(old(sources)@, portable, i)].snapshot@
            } else {
                decoded(found.bytes->Ok_0@) == Some(text@) && exists|at: int|
                    0 <= at <= old(sources)@.len() && kept_as(
                        #[trigger] final(sources)@[at],
                        portable,
                        *found,
                    ) && final(sources)@ == old(sources)@.insert(at, final(sources)@[at])
            }
        },
{
    let relative = match relative {
        Some(relative) => relative,
        None => {
            return Err(refuse(path, "escapes the repository"));
        },
    };
    check_components(path, &found.components)?;
    let fingerprint = match &found.before {
        Err(message) => {
            return Err(WombatError::Io(message.clone()));
        },
        Ok(before) => {
            if before.0 != EntryKind::File {
                return Err(refuse(path, "is not a regular file"));
            }
            before.1
        },
    };
    let bytes = match &found.bytes {
        Err(message) => {
            return Err(WombatError::Io(message.clone()));
        },
        Ok(bytes) => bytes,
    };
    match &found.after {
        Err(message) => {
            return Err(WombatError::Io(message.clone()));
        },
        Ok(after) => {
            if *after != fingerprint {
                return Err(refuse(path, "changed while it was being read"));
            }
        },
    }
    let text = match decode(bytes.as_slice()) {
        Some(text) => text,
        None => {
            return Err(refuse(path, "is not valid UTF-8"));
        },
    };
    let portable = replace_char(relative, '\\', "/");
    let identity = digest(bytes.as_slice());
    if let Some(i) = find_known(sources, portable.as_str()) {
        proof {
            lemma_one_source(sources@, portable@, i as int);
        }
        if !same(sources[i].manifest.digest.as_str(), identity.as_str()) || sources[i].fingerprint
            != fingerprint {
            return Err(refuse(portable.as_str(), "changed during evaluation"));
        }
        return Ok(sources[i].snapshot.clone());
    }
    let ghost before_insert = sources@;
    let source = TrackedSource {
        manifest: SourceFile { path: portable, digest: identity },
        fingerprint,
        snapshot: text.clone(),
    };
    let ghost kept = source;
    let at = insert_source(sources, source);
    assert(sources@[at as int] == kept);
    Ok(text)
}

} // verus!
