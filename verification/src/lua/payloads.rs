//! The files that a script takes along.
use globset::{Glob, GlobSet};
use vstd::prelude::*;
use vstd::string::*;

use crate::digest::{digest, digest_of};
use crate::error::{first, problem_if, reports, Result, WombatError};
use crate::glob::{
    any_matches, compile_globs, glob_refusal, glob_rules, parse_glob, set_matches, set_refusal,
    set_rules, GlobRule,
};
use crate::model::manifest::ScriptPayload;
use crate::model::path::{relative_problem, validate_relative_path};
use crate::model::source::EntryKind;
use crate::order::{ascending, insert_sorted};
use crate::text::{cat2, cat3, cat4, views};

verus! {

/// The most files that a script takes along.
pub const MAX_SCRIPT_FILES: usize = 4096;

/// The largest file that a script takes along.
pub const MAX_SCRIPT_FILE_SIZE: u64 = 16777216;

/// How companion patterns are read: `*` crosses slashes, a backslash escapes.
pub open spec fn companion_rule(pattern: Seq<char>) -> GlobRule {
    GlobRule { pattern, literal_separator: false, backslash_escape: true }
}

/// The rules of companion patterns.
pub open spec fn companion_rules(patterns: Seq<Seq<char>>) -> Seq<GlobRule> {
    patterns.map_values(|p: Seq<char>| companion_rule(p))
}

/// What is wrong with a companion pattern.
pub open spec fn companion_problem(pattern: Seq<char>) -> Option<Seq<char>> {
    first(
        relative_problem(pattern, "script companion pattern"@),
        match glob_refusal(companion_rule(pattern)) {
            Some(reason) => Some(
                "invalid script companion glob `"@ + pattern + "`: "@ + reason,
            ),
            None => None,
        },
    )
}

/// What is wrong with companion patterns.
pub open spec fn companions_problem(patterns: Seq<Seq<char>>) -> Option<Seq<char>> {
    first(
        crate::error::first_among(patterns, |p: Seq<char>| companion_problem(p)),
        if patterns.len() == 0 {
            None
        } else {
            match set_refusal(companion_rules(patterns)) {
                Some(reason) => Some("invalid script companion globs: "@ + reason),
                None => None,
            }
        },
    )
}

/// Compiled companion patterns.
#[derive(Debug)]
pub struct CompanionMatcher {
    /// The compiled patterns, where there are any
    set: Option<GlobSet>,
}

impl CompanionMatcher {
    /// The rules of the patterns.
    pub closed spec fn rules(self) -> Seq<GlobRule> {
        match self.set {
            Some(set) => set_rules(set),
            None => Seq::empty(),
        }
    }

    /// Whether a pattern matches a path.
    pub fn is_match(&self, path: &str) -> (r: bool)
        ensures
            r == any_matches(self.rules(), path@),
    {
        match &self.set {
            Some(set) => set_matches(set, path),
            None => false,
        }
    }
}

/// Compiles companion patterns.
pub fn compile_companions(patterns: &Vec<String>) -> (r: Result<CompanionMatcher>)
    ensures
        reports(r, companions_problem(views(patterns@))),
        r matches Ok(m) ==> m.rules() == companion_rules(views(patterns@)),
{
    let ghost all = views(patterns@);
    let ghost problem = |p: Seq<char>| companion_problem(p);
    if patterns.len() == 0 {
        assert(all =~= Seq::empty());
        assert(companion_rules(all) =~= Seq::empty());
        return Ok(CompanionMatcher { set: None });
    }
    let mut globs: Vec<Glob> = Vec::new();
    let mut i: usize = 0;
    assert(all.take(0) =~= Seq::empty());
    assert(glob_rules(globs@) =~= companion_rules(all).take(0));
    while i < patterns.len()
        invariant
            0 <= i <= patterns@.len(),
            all == views(patterns@),
            problem == (|p: Seq<char>| companion_problem(p)),
            crate::error::first_among(all.take(i as int), problem) is None,
            glob_rules(globs@) == companion_rules(all).take(i as int),
        decreases patterns@.len() - i,
    {
        proof {
            assert(all.take(i + 1).drop_last() =~= all.take(i as int));
            assert(all.take(i + 1).last() == patterns@[i as int]@);
            crate::error::lemma_first_among(all, problem, i + 1);
            assert(problem(all[i as int]) == companion_problem(all[i as int]));
        }
        let pattern = patterns[i].as_str();
        validate_relative_path(pattern, "script companion pattern")?;
        match parse_glob(pattern, false, true) {
            Ok(glob) => {
                let ghost held = globs@;
                globs.push(glob);
                assert(glob_rules(globs@) =~= glob_rules(held).push(companion_rule(pattern@)));
                assert(companion_rules(all).take(i + 1) =~= companion_rules(all).take(
                    i as int,
                ).push(companion_rule(pattern@)));
            },
            Err(reason) => {
                return Err(
                    WombatError::Configuration(
                        cat4(
                            "invalid script companion glob `",
                            pattern,
                            "`: ",
                            reason.as_str(),
                        ),
                    ),
                );
            },
        }
        i += 1;
    }
    assert(all.take(i as int) =~= all);
    assert(companion_rules(all).take(i as int) =~= companion_rules(all));
    match compile_globs(globs) {
        Ok(set) => Ok(CompanionMatcher { set: Some(set) }),
        Err(reason) => Err(
            WombatError::Configuration(
                cat2("invalid script companion globs: ", reason.as_str()),
            ),
        ),
    }
}

/// What the search for companions does with an entry.
#[derive(Clone, Copy, Debug, PartialEq, Eq, Structural)]
pub enum CompanionStep {
    /// It searches the directory
    Descend,
    /// It asks the patterns about the file
    Consider,
    /// It passes over the entry
    Pass,
}

/// Decides what the search for companions does with an entry: symbolic links are
/// refused.
pub fn companion_step(kind: EntryKind, path: &str) -> (r: Result<CompanionStep>)
    ensures
        reports(
            r,
            problem_if(
                kind == EntryKind::Symlink,
                "script payload `"@ + path@ + "` must not be a symbolic link"@,
            ),
        ),
        r matches Ok(step) ==> step == (match kind {
            EntryKind::Directory => CompanionStep::Descend,
            EntryKind::File => CompanionStep::Consider,
            _ => CompanionStep::Pass,
        }),
{
    match kind {
        EntryKind::Symlink => Err(
            WombatError::Configuration(
                cat3("script payload `", path, "` must not be a symbolic link"),
            ),
        ),
        EntryKind::Directory => Ok(CompanionStep::Descend),
        EntryKind::File => Ok(CompanionStep::Consider),
        _ => Ok(CompanionStep::Pass),
    }
}

/// The files that a script takes along: its own, and those that a pattern
/// matches.
pub open spec fn companions(
    entrypoint: Seq<char>,
    rules: Seq<GlobRule>,
    files: Seq<Seq<char>>,
) -> Set<Seq<char>> {
    Set::new(
        |f: Seq<char>| f == entrypoint || (files.contains(f) && any_matches(rules, f)),
    )
}

/// Chooses the files that a script takes along, in the order of their paths.
pub fn select_companions(
    entrypoint: &str,
    matcher: &CompanionMatcher,
    files: &Vec<String>,
) -> (r: Result<Vec<String>>)
    ensures
        match r {
            Ok(selected) => {
                &&& selected@.len() <= MAX_SCRIPT_FILES
                &&& ascending(views(selected@))
                &&& forall|f: Seq<char>|
                    views(selected@).contains(f) <==> #[trigger] companions(
                        entrypoint@,
                        matcher.rules(),
                        views(files@),
                    ).contains(f)
            },
            Err(error) => {
                &&& crate::error::is_configuration(error, "script payload exceeds 4096 files"@)
                &&& exists|selected: Seq<Seq<char>>| #[trigger]
                    ascending(selected) && selected.len() > MAX_SCRIPT_FILES && forall|f: Seq<char>|
                        selected.contains(f) <==> #[trigger] companions(
                            entrypoint@,
                            matcher.rules(),
                            views(files@),
                        ).contains(f)
            },
        },
{
    let mut selected: Vec<String> = Vec::new();
    let ghost wanted = companions(entrypoint@, matcher.rules(), views(files@));
    insert_sorted(&mut selected, entrypoint);
    let mut i: usize = 0;
    proof {
        assert forall|f: Seq<char>| views(selected@).contains(f) <==> f == entrypoint@ by {
            assert(views(selected@).to_set().contains(f) == (f == entrypoint@));
        }
    }
    while i < files.len()
        invariant
            0 <= i <= files@.len(),
            ascending(views(selected@)),
            forall|f: Seq<char>|
                #![trigger views(selected@).contains(f)]
                views(selected@).contains(f) <==> f == entrypoint@ || (views(files@).take(
                    i as int,
                ).contains(f) && any_matches(matcher.rules(), f)),
        decreases files@.len() - i,
    {
        let ghost held = views(selected@);
        let ghost file = files@[i as int]@;
        let ghost earlier = views(files@).take(i as int);
        let ghost grown = views(files@).take(i + 1);
        let matched = matcher.is_match(files[i].as_str());
        if matched {
            insert_sorted(&mut selected, files[i].as_str());
        }
        proof {
            assert(grown =~= earlier.push(file));
            assert forall|f: Seq<char>| #![trigger views(selected@).contains(f)]
                views(selected@).contains(f) <==> f == entrypoint@ || (grown.contains(f)
                    && any_matches(matcher.rules(), f)) by {
                assert(grown.contains(f) <==> earlier.contains(f) || f == file) by {
                    if earlier.contains(f) {
                        let k = choose|k: int| 0 <= k < earlier.len() && earlier[k] == f;
                        assert(grown[k] == f);
                    }
                    if f == file {
                        assert(grown[i as int] == f);
                    }
                    if grown.contains(f) {
                        let k = choose|k: int| 0 <= k < grown.len() && grown[k] == f;
                        if k < i {
                            assert(earlier[k] == f);
                        }
                    }
                }
                assert(held.contains(f) <==> f == entrypoint@ || (earlier.contains(f)
                    && any_matches(matcher.rules(), f)));
                assert(views(selected@).contains(f) == views(selected@).to_set().contains(f));
                assert(held.contains(f) == held.to_set().contains(f));
            }
        }
        i += 1;
    }
    proof {
        assert(views(files@).take(i as int) =~= views(files@));
        assert forall|f: Seq<char>| views(selected@).contains(f) <==> #[trigger] wanted.contains(
            f,
        ) by {}
    }
    if selected.len() > MAX_SCRIPT_FILES {
        assert(ascending(views(selected@)));
        return Err(WombatError::configuration("script payload exceeds 4096 files"));
    }
    Ok(selected)
}

/// A file as it was read.
#[derive(Debug, PartialEq)]
pub struct PayloadFile {
    /// Its path beneath the scripts
    pub relative: String,
    /// Whether it is a regular file
    pub regular: bool,
    /// Its size
    pub size: u64,
    /// Its bytes
    pub bytes: Vec<u8>,
    /// Whether it may be run
    pub executable: bool,
}

/// What is wrong with a file.
pub open spec fn payload_problem(file: PayloadFile) -> Option<Seq<char>> {
    problem_if(
        !file.regular || file.size > MAX_SCRIPT_FILE_SIZE,
        "script payload `"@ + file.relative@
            + "` must be a regular file no larger than 16 MiB"@,
    )
}

/// Whether a payload records a file.
pub open spec fn payload_is(payload: ScriptPayload, file: PayloadFile) -> bool {
    &&& payload.source@ == "scripts/"@ + file.relative@
    &&& payload.relative@ == file.relative@
    &&& payload.digest@ == digest_of(file.bytes@)
    &&& payload.size == file.size
    &&& payload.executable == file.executable
}

/// Records a file that a script takes along.
pub fn script_payload(file: PayloadFile) -> (r: Result<ScriptPayload>)
    ensures
        reports(r, payload_problem(file)),
        r matches Ok(payload) ==> payload_is(payload, file),
{
    if !file.regular || file.size > MAX_SCRIPT_FILE_SIZE {
        return Err(
            WombatError::Configuration(
                cat3(
                    "script payload `",
                    file.relative.as_str(),
                    "` must be a regular file no larger than 16 MiB",
                ),
            ),
        );
    }
    Ok(
        ScriptPayload {
            source: cat2("scripts/", file.relative.as_str()),
            digest: digest(file.bytes.as_slice()),
            relative: file.relative,
            size: file.size,
            executable: file.executable,
        },
    )
}

} // verus!
