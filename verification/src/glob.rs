//! Glob patterns of `globset`.
use globset::{Glob, GlobBuilder, GlobSet};
use vstd::prelude::*;
use vstd::string::*;

verus! {

/// `globset::Glob`, a parsed pattern.
#[verifier::external_type_specification]
#[verifier::external_body]
pub struct ExternalGlob(globset::Glob);

/// `globset::GlobSet`, compiled patterns.
#[verifier::external_type_specification]
#[verifier::external_body]
pub struct ExternalGlobSet(globset::GlobSet);

/// A pattern and how it is read.
pub struct GlobRule {
    /// The pattern
    pub pattern: Seq<char>,
    /// Whether `*` and `?` stop at a slash
    pub literal_separator: bool,
    /// Whether a backslash escapes
    pub backslash_escape: bool,
}

/// The rule that a parsed pattern was made from.
pub uninterp spec fn glob_rule(glob: Glob) -> GlobRule;

/// The rules that a set was made from.
pub uninterp spec fn set_rules(set: GlobSet) -> Seq<GlobRule>;

/// Why a pattern does not parse.
pub uninterp spec fn glob_refusal(rule: GlobRule) -> Option<Seq<char>>;

/// Why patterns do not compile.
pub uninterp spec fn set_refusal(rules: Seq<GlobRule>) -> Option<Seq<char>>;

/// Whether a pattern matches a path.
pub uninterp spec fn rule_matches(rule: GlobRule, path: Seq<char>) -> bool;

/// The rules of a list of parsed patterns.
pub open spec fn glob_rules(globs: Seq<Glob>) -> Seq<GlobRule> {
    globs.map_values(|g: Glob| glob_rule(g))
}

/// Whether one of the patterns matches a path.
pub open spec fn any_matches(rules: Seq<GlobRule>, path: Seq<char>) -> bool {
    exists|i: int| 0 <= i < rules.len() && #[trigger] rule_matches(rules[i], path)
}

/// `globset::GlobBuilder::build` parses a pattern under the two options; whether
/// it does, and what the error says, depends on these alone.
#[verifier::external_body]
pub(crate) fn parse_glob(pattern: &str, literal_separator: bool, backslash_escape: bool) -> (r:
    Result<Glob, String>)
    ensures
        match r {
            Ok(glob) => glob_refusal(glob_rule(glob)) is None && glob_rule(glob) == (GlobRule {
                pattern: pattern@,
                literal_separator,
                backslash_escape,
            }),
            Err(reason) => glob_refusal(
                (GlobRule { pattern: pattern@, literal_separator, backslash_escape }),
            ) == Some(reason@),
        },
{
    GlobBuilder::new(pattern)
        .literal_separator(literal_separator)
        .backslash_escape(backslash_escape)
        .build()
        .map_err(|error| error.to_string())
}

/// `globset::GlobSet::new` compiles patterns; whether it does, and what the error
/// says, depends on the patterns alone.
#[verifier::external_body]
pub(crate) fn compile_globs(globs: Vec<Glob>) -> (r: Result<GlobSet, String>)
    ensures
        match r {
            Ok(set) => set_refusal(glob_rules(globs@)) is None && set_rules(set) == glob_rules(
                globs@,
            ),
            Err(reason) => set_refusal(glob_rules(globs@)) == Some(reason@),
        },
{
    GlobSet::new(globs).map_err(|error| error.to_string())
}

/// `globset::GlobSet::is_match`: whether any pattern of the set matches the path.
#[verifier::external_body]
pub(crate) fn set_matches(set: &GlobSet, path: &str) -> (r: bool)
    ensures
        r == (exists|i: int| 0 <= i < set_rules(*set).len() && #[trigger] rule_matches(
            set_rules(*set)[i],
            path@,
        )),
{
    set.is_match(path)
}

} // verus!
