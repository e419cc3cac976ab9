//! Targets beneath the home directory and the directory of configuration, and the
//! source trees that stand for them.
use vstd::prelude::*;
use vstd::string::*;

use crate::error::{first, problem_if, reports, Result, WombatError};
use crate::model::path::{
    join_relative, law_joined_paths_stay_valid, lemma_join_pieces, ordinary, relative_join,
    relative_problem, valid_relative, validate_relative_path,
};
use crate::text::{cat2, cat3, cat5, lemma_pieces, pieces, same, starts_with, strip_prefix};

verus! {

/// What a target is relative to.
#[derive(Clone, Copy, Debug, PartialEq, Eq, Structural)]
pub enum TargetAnchor {
    /// The home directory
    Home,
    /// The directory of configuration
    Config,
}

/// A source tree that stands for a target directory.
#[derive(Clone, Copy, Debug, PartialEq, Eq, Structural)]
pub enum SourceAnchor {
    /// The home directory
    Home,
    /// The directory of configuration
    DotConfig,
    /// The directory of local data
    DotLocal,
}

/// What a target was inferred from.
#[derive(Clone, Copy, Debug, PartialEq, Eq, Structural)]
pub enum InferenceBasis {
    /// The place of the module
    ModuleAnchor,
    /// The beginning of the source path
    SourcePrefix,
}

/// How a target came about.
#[derive(Debug, PartialEq)]
pub enum TargetOrigin {
    /// It was declared
    Explicit {
        /// As declared
        declared: String,
    },
    /// Its directory was declared
    DirectoryExplicit {
        /// As declared
        declared: String,
        /// Its path beneath the directory
        relative: String,
    },
    /// It was inferred
    Inferred {
        /// From what
        basis: InferenceBasis,
        /// From which source tree
        source_anchor: SourceAnchor,
    },
}

/// A target.
#[derive(Debug, PartialEq)]
pub struct TargetPath {
    /// What it is relative to
    pub anchor: TargetAnchor,
    /// Its path from there
    pub path: String,
    /// As views write it
    pub display: String,
    /// How it came about
    pub origin: TargetOrigin,
}

/// How a target directory came about.
#[derive(Debug, PartialEq)]
pub enum EvaluatedTargetOrigin {
    /// It was declared
    Explicit {
        /// As declared
        declared: String,
    },
    /// It was inferred
    Inferred {
        /// From what
        basis: InferenceBasis,
        /// From which source tree
        source_anchor: SourceAnchor,
    },
}

/// A target directory.
#[derive(Debug, PartialEq)]
pub struct EvaluatedTargetRoot {
    /// What it is relative to
    pub anchor: TargetAnchor,
    /// Its path from there
    pub path: String,
    /// How it came about
    pub origin: EvaluatedTargetOrigin,
}

impl TargetPath {
    /// What tells it from other targets.
    pub fn key(&self) -> (r: (TargetAnchor, &str))
        ensures
            r.0 == self.anchor,
            r.1@ == self.path@,
    {
        (self.anchor, self.path.as_str())
    }
}

impl SourceAnchor {
    /// The first component of its source paths.
    pub open spec fn prefix(self) -> Seq<char> {
        match self {
            SourceAnchor::Home => "home"@,
            SourceAnchor::DotConfig => "dot_config"@,
            SourceAnchor::DotLocal => "dot_local"@,
        }
    }

    /// The first component of its source paths.
    pub fn source_prefix(self) -> (r: &'static str)
        ensures
            r@ == self.prefix(),
    {
        match self {
            SourceAnchor::Home => "home",
            SourceAnchor::DotConfig => "dot_config",
            SourceAnchor::DotLocal => "dot_local",
        }
    }

    /// What its targets are relative to, and the path from there.
    pub open spec fn stands_for(self) -> (TargetAnchor, Seq<char>) {
        match self {
            SourceAnchor::Home => (TargetAnchor::Home, ""@),
            SourceAnchor::DotConfig => (TargetAnchor::Config, ""@),
            SourceAnchor::DotLocal => (TargetAnchor::Home, ".local"@),
        }
    }

    /// What its targets are relative to, and the path from there.
    pub fn target_root(self) -> (r: (TargetAnchor, &'static str))
        ensures
            (r.0, r.1@) == self.stands_for(),
    {
        match self {
            SourceAnchor::Home => (TargetAnchor::Home, ""),
            SourceAnchor::DotConfig => (TargetAnchor::Config, ""),
            SourceAnchor::DotLocal => (TargetAnchor::Home, ".local"),
        }
    }
}

/// A target as views write it.
pub open spec fn displayed(anchor: TargetAnchor, path: Seq<char>) -> Seq<char> {
    match anchor {
        TargetAnchor::Home => "~/"@ + path,
        TargetAnchor::Config => "~/.config/"@ + path,
    }
}

/// A target as views write it.
pub fn display_target(anchor: TargetAnchor, path: &str) -> (r: String)
    ensures
        r@ == displayed(anchor, path@),
{
    match anchor {
        TargetAnchor::Home => cat2("~/", path),
        TargetAnchor::Config => cat2("~/.config/", path),
    }
}

/// What is wrong with the path of a file.
pub open spec fn file_problem(anchor: TargetAnchor, path: Seq<char>) -> Option<Seq<char>> {
    first(
        problem_if(path.len() == 0, "an expanded file target must not be an anchor root"@),
        problem_if(
            anchor == TargetAnchor::Home && path == ".config"@,
            "an expanded file target must not be the configuration anchor root"@,
        ),
    )
}

/// A path in terms of the nearest anchor.
pub open spec fn canonical(anchor: TargetAnchor, path: Seq<char>) -> (TargetAnchor, Seq<char>) {
    if anchor == TargetAnchor::Home && ".config/"@.is_prefix_of(path) {
        (TargetAnchor::Config, path.skip(".config/"@.len() as int))
    } else {
        (anchor, path)
    }
}

fn canonical_target(anchor: TargetAnchor, path: &str) -> (r: Result<(TargetAnchor, String)>)
    ensures
        reports(r, file_problem(anchor, path@)),
        r matches Ok(target) ==> (target.0, target.1@) == canonical(anchor, path@),
{
    if path.is_empty() {
        return Err(
            WombatError::configuration("an expanded file target must not be an anchor root"),
        );
    }
    if anchor == TargetAnchor::Home {
        if same(path, ".config") {
            return Err(
                WombatError::configuration(
                    "an expanded file target must not be the configuration anchor root",
                ),
            );
        }
        if let Some(relative) = strip_prefix(path, ".config/") {
            return Ok((TargetAnchor::Config, relative));
        }
    }
    Ok((anchor, path.to_string()))
}

/// Whether a target stands at a path.
pub open spec fn stands_at(target: TargetPath, anchor: TargetAnchor, path: Seq<char>) -> bool {
    &&& (target.anchor, target.path@) == canonical(anchor, path)
    &&& target.display@ == displayed(target.anchor, target.path@)
}

/// What is wrong with a declared target directory.
pub open spec fn root_problem(value: Seq<char>) -> Option<Seq<char>> {
    if !"~/"@.is_prefix_of(value) {
        Some("invalid target `"@ + value + "`; explicit targets must begin with `~/`"@)
    } else if value.skip("~/"@.len() as int).len() > 0 {
        relative_problem(value.skip("~/"@.len() as int), "target"@)
    } else {
        None
    }
}

/// Where a declared target directory stands.
pub open spec fn declared_root(value: Seq<char>) -> (TargetAnchor, Seq<char>) {
    let relative = value.skip("~/"@.len() as int);
    if relative == ".config"@ {
        (TargetAnchor::Config, Seq::empty())
    } else {
        canonical(TargetAnchor::Home, relative)
    }
}

/// Reads a declared target directory.
pub fn parse_explicit_target_root(value: &str) -> (r: Result<EvaluatedTargetRoot>)
    ensures
        reports(r, root_problem(value@)),
        r matches Ok(root) ==> (root.anchor, root.path@) == declared_root(value@)
            && (root.origin matches EvaluatedTargetOrigin::Explicit { declared } && declared@
            == value@),
{
    let relative = match strip_prefix(value, "~/") {
        Some(relative) => relative,
        None => {
            return Err(
                WombatError::Configuration(
                    cat3(
                        "invalid target `",
                        value,
                        "`; explicit targets must begin with `~/`",
                    ),
                ),
            );
        },
    };
    if !relative.as_str().is_empty() {
        validate_relative_path(relative.as_str(), "target")?;
    }
    let (anchor, path) = if same(relative.as_str(), ".config") {
        (TargetAnchor::Config, String::new())
    } else {
        match strip_prefix(relative.as_str(), ".config/") {
            Some(path) => (TargetAnchor::Config, path),
            None => (TargetAnchor::Home, relative),
        }
    };
    Ok(
        EvaluatedTargetRoot {
            anchor,
            path,
            origin: EvaluatedTargetOrigin::Explicit { declared: value.to_string() },
        },
    )
}

/// What is wrong with a declared target.
pub open spec fn target_problem(value: Seq<char>) -> Option<Seq<char>> {
    first(
        root_problem(value),
        first(
            problem_if(
                declared_root(value).1.len() == 0,
                "invalid target `"@ + value + "`; a file target must not be an anchor root"@,
            ),
            file_problem(declared_root(value).0, declared_root(value).1),
        ),
    )
}

/// Reads a declared target.
pub fn parse_explicit_target(value: &str) -> (r: Result<TargetPath>)
    ensures
        reports(r, target_problem(value@)),
        r matches Ok(target) ==> stands_at(
            target,
            declared_root(value@).0,
            declared_root(value@).1,
        ) && (target.origin matches TargetOrigin::Explicit { declared } && declared@ == value@),
{
    let root = parse_explicit_target_root(value)?;
    if root.path.as_str().is_empty() {
        return Err(
            WombatError::Configuration(
                cat3(
                    "invalid target `",
                    value,
                    "`; a file target must not be an anchor root",
                ),
            ),
        );
    }
    let (anchor, path) = canonical_target(root.anchor, root.path.as_str())?;
    let display = display_target(anchor, path.as_str());
    Ok(
        TargetPath {
            anchor,
            path,
            display,
            origin: TargetOrigin::Explicit { declared: value.to_string() },
        },
    )
}

/// What views write of a target reads back as that target: the anchor and the path of
/// a target that no nearer anchor covers.
pub proof fn law_displays_read_back(anchor: TargetAnchor, path: Seq<char>)
    requires
        path != ".config"@,
        canonical(anchor, path) == (anchor, path),
    ensures
        "~/"@.is_prefix_of(displayed(anchor, path)),
        declared_root(displayed(anchor, path)) == (anchor, path),
{
    reveal_strlit("~/");
    reveal_strlit(".config/");
    reveal_strlit("~/.config/");
    reveal_strlit(".config");
    let shown = displayed(anchor, path);
    let relative = shown.skip("~/"@.len() as int);
    assert("~/"@ =~= shown.subrange(0, 2));
    match anchor {
        TargetAnchor::Home => {
            assert(relative =~= path);
        },
        TargetAnchor::Config => {
            assert("~/.config/"@ =~= "~/"@ + ".config/"@);
            assert(relative =~= ".config/"@ + path);
            assert(".config/"@ =~= relative.subrange(0, 8));
            assert(relative.skip(8) =~= path);
            assert(relative.len() >= 8);
        },
    }
}

/// What is wrong with a file beneath a target directory.
pub open spec fn expansion_problem(root: EvaluatedTargetRoot, relative: Seq<char>) -> Option<
    Seq<char>,
> {
    first(
        relative_problem(relative, "expanded target path"@),
        file_problem(root.anchor, relative_join(root.path@, relative)),
    )
}

/// Whether a target came about as its directory says.
pub open spec fn origin_beneath(
    origin: TargetOrigin,
    root: EvaluatedTargetOrigin,
    relative: Seq<char>,
) -> bool {
    match root {
        EvaluatedTargetOrigin::Explicit { declared } => (
        origin matches TargetOrigin::DirectoryExplicit { declared: d, relative: r } && d@
            == declared@ && r@ == relative),
        EvaluatedTargetOrigin::Inferred { basis, source_anchor } => origin
            == TargetOrigin::Inferred { basis, source_anchor },
    }
}

/// Places a file beneath a target directory.
pub fn expand_target_root(root: &EvaluatedTargetRoot, relative: &str) -> (r: Result<TargetPath>)
    ensures
        reports(r, expansion_problem(*root, relative@)),
        r matches Ok(target) ==> stands_at(
            target,
            root.anchor,
            relative_join(root.path@, relative@),
        ) && origin_beneath(target.origin, root.origin, relative@),
{
    validate_relative_path(relative, "expanded target path")?;
    let joined = join_relative(root.path.as_str(), relative);
    let (anchor, path) = canonical_target(root.anchor, joined.as_str())?;
    let origin = match &root.origin {
        EvaluatedTargetOrigin::Explicit { declared } => TargetOrigin::DirectoryExplicit {
            declared: declared.clone(),
            relative: relative.to_string(),
        },
        EvaluatedTargetOrigin::Inferred { basis, source_anchor } => TargetOrigin::Inferred {
            basis: *basis,
            source_anchor: *source_anchor,
        },
    };
    let display = display_target(anchor, path.as_str());
    Ok(TargetPath { anchor, path, display, origin })
}

/// A declared target directory with the path of a file behind it, as one would write the
/// target of that file.
pub open spec fn written_beneath(declared: Seq<char>, relative: Seq<char>) -> Seq<char> {
    if declared.len() > 0 && declared.last() == '/' {
        declared + relative
    } else {
        declared + "/"@ + relative
    }
}

/// Placing a file beneath a declared target directory agrees with declaring its target:
/// the one is accepted exactly where the other is, both stand at the same anchor and path,
/// and views write what one would have declared. No target of the home directory lies in
/// the directory of configuration.
pub proof fn law_expanding_agrees_with_declaring(
    declared: Seq<char>,
    root: EvaluatedTargetRoot,
    relative: Seq<char>,
    expanded: TargetPath,
    written: TargetPath,
)
    requires
        root_problem(declared) is None,
        (root.anchor, root.path@) == declared_root(declared),
    ensures
        expansion_problem(root, relative) is None <==> target_problem(written_beneath(declared, relative))
            is None,
        expansion_problem(root, relative) is None && stands_at(
            expanded,
            root.anchor,
            relative_join(root.path@, relative),
        ) && stands_at(
            written,
            declared_root(written_beneath(declared, relative)).0,
            declared_root(written_beneath(declared, relative)).1,
        ) ==> {
            &&& expanded.anchor == written.anchor
            &&& expanded.path@ == written.path@
            &&& expanded.display@ == written_beneath(declared, relative)
            &&& written.display@ == written_beneath(declared, relative)
            &&& expanded.anchor == TargetAnchor::Home ==> expanded.path@ != ".config"@
                && !".config/"@.is_prefix_of(expanded.path@)
        },
{
    reveal_strlit("~/");
    reveal_strlit("/");
    reveal_strlit(".config");
    reveal_strlit(".config/");
    reveal_strlit("~/.config/");
    let text = written_beneath(declared, relative);
    let inner = declared.skip(2);
    let whole = text.skip(2);
    assert(declared.subrange(0, 2) =~= "~/"@);
    lemma_empty_path(relative);
    assert(root.anchor == declared_root(declared).0);
    assert(root.path@ == declared_root(declared).1);
    assert("~/"@.len() == 2);
    if inner.len() == 0 {
        assert(declared =~= "~/"@);
        assert(whole =~= relative);
        assert(text =~= "~/"@ + whole);
        assert(inner != ".config"@);
        assert(root.anchor == TargetAnchor::Home && root.path@.len() == 0);
    } else {
        lemma_last_ordinary(inner);
        assert(declared.last() == inner.last());
        assert(whole =~= inner + "/"@ + relative);
        assert(text =~= "~/"@ + whole);
        lemma_both_valid(inner, relative);
        lemma_config_prefix(inner, relative);
        if ".config/"@.is_prefix_of(inner) {
            assert(inner.len() > 8) by {
                assert(inner.subrange(0, 8) =~= ".config/"@);
                if inner.len() == 8 {
                    assert(inner.last() == ".config/"@[7]);
                }
            }
        }
    }
    lemma_target(whole);
    let joined = relative_join(root.path@, relative);
    if relative.len() > 0 {
        assert(canonical(root.anchor, joined) == canonical(TargetAnchor::Home, whole));
        assert(file_problem(root.anchor, joined) is None <==> whole != ".config"@);
    }
}

/// A written target is accepted where its path is valid and not the directory of
/// configuration, stands at the nearest anchor, and is written so again.
proof fn lemma_target(path: Seq<char>)
    ensures
        ({
            let text = "~/"@ + path;
            let root = declared_root(text);
            let at = canonical(TargetAnchor::Home, path);
            &&& target_problem(text) is None <==> valid_relative(path) && path != ".config"@
            &&& valid_relative(path) && path != ".config"@ ==> canonical(root.0, root.1) == at
            &&& displayed(at.0, at.1) == text
            &&& path != ".config"@ && at.0 == TargetAnchor::Home ==> at.1 != ".config"@
                && !".config/"@.is_prefix_of(at.1)
        }),
{
    reveal_strlit("~/");
    reveal_strlit(".config");
    reveal_strlit(".config/");
    reveal_strlit("~/.config/");
    let text = "~/"@ + path;
    lemma_written(path);
    lemma_empty_path(path);
    if ".config/"@.is_prefix_of(path) {
        assert(path.subrange(0, 8) =~= ".config/"@);
        assert("~/.config/"@ =~= "~/"@ + ".config/"@);
        assert(path =~= ".config/"@ + path.skip(8));
        assert(displayed(TargetAnchor::Config, path.skip(8)) =~= text);
        if valid_relative(path) {
            lemma_last_ordinary(path);
            if path.len() == 8 {
                assert(path.last() == ".config/"@[7]);
            }
        }
    }
}

/// An empty path is no valid one.
proof fn lemma_empty_path(path: Seq<char>)
    ensures
        path.len() == 0 ==> !valid_relative(path),
{
    if path.len() == 0 {
        lemma_pieces(path, '/');
        assert(pieces(path, '/')[0].len() == 0);
        assert(!ordinary(pieces(path, '/')[0]));
    }
}

/// A valid path ends in no slash.
proof fn lemma_last_ordinary(path: Seq<char>)
    requires
        valid_relative(path),
        path.len() > 0,
    ensures
        path.last() != '/',
{
    if path.last() == '/' {
        let all = pieces(path, '/');
        assert(all.last().len() == 0);
        assert(!ordinary(all[all.len() - 1]));
    }
}

/// A joined path is valid exactly where both parts are.
proof fn lemma_both_valid(left: Seq<char>, right: Seq<char>)
    ensures
        valid_relative(left + "/"@ + right) <==> valid_relative(left) && valid_relative(right),
{
    reveal_strlit("/");
    lemma_join_pieces(left, right);
    let whole = left + "/"@ + right;
    let a = pieces(left, '/');
    let b = pieces(right, '/');
    let all = pieces(whole, '/');
    assert(all == a + b);
    if valid_relative(whole) {
        assert forall|i: int| 0 <= i < a.len() implies ordinary(#[trigger] a[i]) by {
            assert(ordinary(all[i]));
        }
        assert forall|i: int| 0 <= i < b.len() implies ordinary(#[trigger] b[i]) by {
            assert(all[a.len() + i] == b[i]);
            assert(ordinary(all[a.len() + i]));
        }
        assert forall|i: int| 0 <= i < left.len() implies left[i] != '\\' by {
            assert(whole.contains(whole[i]));
        }
        assert forall|i: int| 0 <= i < right.len() implies right[i] != '\\' by {
            assert(whole.contains(whole[left.len() + 1 + i]));
        }
    }
    if valid_relative(left) && valid_relative(right) {
        law_joined_paths_stay_valid(left, right);
    }
}

/// What stands behind `~/` in a written target is its path.
proof fn lemma_written(path: Seq<char>)
    ensures
        "~/"@.is_prefix_of("~/"@ + path),
        ("~/"@ + path).skip("~/"@.len() as int) == path,
{
    reveal_strlit("~/");
    let text = "~/"@ + path;
    assert(text.subrange(0, 2) =~= "~/"@);
    assert(text.skip(2) =~= path);
}

/// A joined path lies in the directory of configuration exactly where its first part does.
proof fn lemma_config_prefix(left: Seq<char>, right: Seq<char>)
    requires
        left.len() > 0,
    ensures
        ({
            let whole = left + "/"@ + right;
            &&& whole != ".config"@
            &&& ".config/"@.is_prefix_of(whole) <==> left == ".config"@ || ".config/"@.is_prefix_of(
                left,
            )
            &&& left == ".config"@ ==> whole.skip(8) == right
            &&& ".config/"@.is_prefix_of(left) ==> whole.skip(8) == left.skip(8) + "/"@ + right
        }),
{
    reveal_strlit("/");
    reveal_strlit(".config");
    reveal_strlit(".config/");
    let whole = left + "/"@ + right;
    assert(whole[left.len() as int] == '/');
    let mark = ".config/"@;
    assert(mark =~= ".config"@.push('/'));
    assert(forall|i: int| 0 <= i < 7 ==> mark[i] != '/');
    if whole == ".config"@ {
        assert(".config"@[left.len() as int] == '/');
    }
    if mark.is_prefix_of(whole) {
        assert(mark =~= whole.subrange(0, 8));
        if left.len() < 7 {
            assert(mark[left.len() as int] == whole[left.len() as int]);
        } else if left.len() == 7 {
            assert(left =~= ".config"@) by {
                assert forall|i: int| 0 <= i < 7 implies left[i] == ".config"@[i] by {
                    assert(left[i] == whole[i]);
                    assert(mark[i] == whole[i]);
                }
            }
        } else {
            assert(left.subrange(0, 8) =~= mark);
        }
    }
    if left == ".config"@ {
        assert(whole.subrange(0, 8) =~= mark);
        assert(whole.skip(8) =~= right);
    }
    if mark.is_prefix_of(left) {
        assert(left.subrange(0, 8) =~= mark);
        assert(whole.subrange(0, 8) =~= mark);
        assert(whole.skip(8) =~= left.skip(8) + "/"@ + right);
    }
}

/// What is wrong with the directory that a source tree stands for.
pub open spec fn inferred_root_problem(relative: Seq<char>) -> Option<Seq<char>> {
    if relative.len() > 0 {
        relative_problem(relative, "directory target path"@)
    } else {
        None
    }
}

/// Finds the directory that a source directory stands for.
pub fn infer_target_root(source_anchor: SourceAnchor, relative_path: &str, basis: InferenceBasis) -> (r:
    Result<EvaluatedTargetRoot>)
    ensures
        reports(r, inferred_root_problem(relative_path@)),
        r matches Ok(root) ==> root.anchor == source_anchor.stands_for().0 && root.path@
            == relative_join(source_anchor.stands_for().1, relative_path@) && root.origin
            == (EvaluatedTargetOrigin::Inferred { basis, source_anchor }),
{
    if !relative_path.is_empty() {
        validate_relative_path(relative_path, "directory target path")?;
    }
    let (anchor, prefix) = source_anchor.target_root();
    Ok(
        EvaluatedTargetRoot {
            anchor,
            path: join_relative(prefix, relative_path),
            origin: EvaluatedTargetOrigin::Inferred { basis, source_anchor },
        },
    )
}

/// What is wrong with the target that a source stands for.
pub open spec fn inferred_problem(source_anchor: SourceAnchor, relative: Seq<char>) -> Option<Seq<char>> {
    first(
        relative_problem(relative, "artifact target path"@),
        first(
            relative_problem(relative, "expanded target path"@),
            file_problem(
                source_anchor.stands_for().0,
                relative_join(
                    relative_join(source_anchor.stands_for().1, Seq::empty()),
                    relative,
                ),
            ),
        ),
    )
}

/// Finds the target that a source stands for.
pub fn infer_target(source_anchor: SourceAnchor, relative_path: &str, basis: InferenceBasis) -> (r: Result<
    TargetPath,
>)
    ensures
        reports(r, inferred_problem(source_anchor, relative_path@)),
        r matches Ok(target) ==> stands_at(
            target,
            source_anchor.stands_for().0,
            relative_join(source_anchor.stands_for().1, relative_path@),
        ) && target.origin == (TargetOrigin::Inferred { basis, source_anchor }),
{
    proof {
        reveal_strlit("");
        assert(""@ =~= Seq::empty());
        assert(relative_join(source_anchor.stands_for().1, Seq::empty())
            =~= source_anchor.stands_for().1);
    }
    validate_relative_path(relative_path, "artifact target path")?;
    let root = infer_target_root(source_anchor, "", basis)?;
    expand_target_root(&root, relative_path)
}

/// Whether a path is this one or stands beneath it.
pub open spec fn at_or_beneath(path: Seq<char>, tree: Seq<char>) -> bool {
    path == tree || (tree + "/"@).is_prefix_of(path)
}

fn is_at_or_beneath(path: &str, tree: &str) -> (r: bool)
    ensures
        r == at_or_beneath(path@, tree@),
{
    same(path, tree) || starts_with(path, cat2(tree, "/").as_str())
}

/// What is wrong with a source path: it names a target directory instead of the tree
/// that stands for it.
pub open spec fn legacy_problem(value: Seq<char>) -> Option<Seq<char>> {
    first(
        problem_if(
            at_or_beneath(value, ".config"@),
            "unsupported source path `"@ + value
                + "`; use the `dot_config/` source anchor instead of `.config/`"@,
        ),
        first(
            problem_if(
                at_or_beneath(value, ".local"@),
                "unsupported source path `"@ + value
                    + "`; use the `dot_local/` source anchor instead of `.local/`"@,
            ),
            first(
                problem_if(
                    at_or_beneath(value, "home/.config"@),
                    "unsupported source path `"@ + value
                        + "`; use the `dot_config/` source anchor instead"@,
                ),
                problem_if(
                    at_or_beneath(value, "home/.local"@),
                    "unsupported source path `"@ + value
                        + "`; use the `dot_local/` source anchor instead"@,
                ),
            ),
        ),
    )
}

fn reject_legacy(value: &str) -> (r: Result<()>)
    ensures
        reports(r, legacy_problem(value@)),
{
    if is_at_or_beneath(value, ".config") {
        return Err(
            WombatError::Configuration(
                cat3(
                    "unsupported source path `",
                    value,
                    "`; use the `dot_config/` source anchor instead of `.config/`",
                ),
            ),
        );
    }
    if is_at_or_beneath(value, ".local") {
        return Err(
            WombatError::Configuration(
                cat3(
                    "unsupported source path `",
                    value,
                    "`; use the `dot_local/` source anchor instead of `.local/`",
                ),
            ),
        );
    }
    if is_at_or_beneath(value, "home/.config") {
        return Err(
            WombatError::Configuration(
                cat3(
                    "unsupported source path `",
                    value,
                    "`; use the `dot_config/` source anchor instead",
                ),
            ),
        );
    }
    if is_at_or_beneath(value, "home/.local") {
        return Err(
            WombatError::Configuration(
                cat3(
                    "unsupported source path `",
                    value,
                    "`; use the `dot_local/` source anchor instead",
                ),
            ),
        );
    }
    Ok(())
}

/// The source tree that a path stands in, and the path from there.
pub open spec fn tree_of(value: Seq<char>) -> Option<(SourceAnchor, Seq<char>)> {
    if at_or_beneath(value, "home"@) {
        Some((SourceAnchor::Home, beneath(value, "home"@)))
    } else if at_or_beneath(value, "dot_config"@) {
        Some((SourceAnchor::DotConfig, beneath(value, "dot_config"@)))
    } else if at_or_beneath(value, "dot_local"@) {
        Some((SourceAnchor::DotLocal, beneath(value, "dot_local"@)))
    } else {
        None
    }
}

/// A path from a tree that it stands in.
pub open spec fn beneath(path: Seq<char>, tree: Seq<char>) -> Seq<char> {
    if path == tree {
        Seq::empty()
    } else {
        path.skip((tree + "/"@).len() as int)
    }
}

/// What is wrong with a source path.
pub open spec fn prefix_problem(value: Seq<char>) -> Option<Seq<char>> {
    first(
        legacy_problem(value),
        match tree_of(value) {
            Some(found) => if value == found.0.prefix() {
                None
            } else {
                relative_problem(found.1, "artifact source"@)
            },
            None => None,
        },
    )
}

fn within(value: &str, anchor: SourceAnchor) -> (r: Result<Option<(SourceAnchor, String)>>)
    ensures
        if !at_or_beneath(value@, anchor.prefix()) {
            r matches Ok(None)
        } else {
            reports(
                r,
                if value@ == anchor.prefix() {
                    None
                } else {
                    relative_problem(beneath(value@, anchor.prefix()), "artifact source"@)
                },
            ) && (r matches Ok(found) ==> found is Some && (found->0).0 == anchor && (found->0).1@
                == beneath(value@, anchor.prefix()))
        },
{
    let prefix = anchor.source_prefix();
    if same(value, prefix) {
        return Ok(Some((anchor, String::new())));
    }
    match strip_prefix(value, cat2(prefix, "/").as_str()) {
        Some(relative) => {
            validate_relative_path(relative.as_str(), "artifact source")?;
            Ok(Some((anchor, relative)))
        },
        None => Ok(None),
    }
}

/// Finds the source tree that a path stands in, and the path from there.
pub fn prefixed_source(value: &str) -> (r: Result<Option<(SourceAnchor, String)>>)
    ensures
        reports(r, prefix_problem(value@)),
        r matches Ok(found) ==> match found {
            Some(place) => tree_of(value@) == Some((place.0, place.1@)),
            None => tree_of(value@) is None,
        },
{
    reject_legacy(value)?;
    let found = within(value, SourceAnchor::Home)?;
    if found.is_some() {
        return Ok(found);
    }
    let found = within(value, SourceAnchor::DotConfig)?;
    if found.is_some() {
        return Ok(found);
    }
    within(value, SourceAnchor::DotLocal)
}

/// A source tree that is not there under its own name, and what stands for it.
pub open spec fn noncanonical_trees() -> Seq<(Seq<char>, Seq<char>)> {
    seq![
        (".config"@, "dot_config"@),
        (".local"@, "dot_local"@),
        ("home/.config"@, "dot_config"@),
        ("home/.local"@, "dot_local"@),
        ("modules/.config"@, "modules/dot_config"@),
        ("modules/.local"@, "modules/dot_local"@),
    ]
}

/// What is wrong with the first of these trees. `exists` tells which are there.
pub open spec fn tree_problem(exists: Seq<bool>, count: int) -> Option<Seq<char>>
    decreases count,
{
    if count <= 0 {
        None
    } else {
        first(
            tree_problem(exists, count - 1),
            problem_if(
                exists[count - 1],
                "unsupported source tree `"@ + noncanonical_trees()[count - 1].0 + "`; use `"@
                    + noncanonical_trees()[count - 1].1
                    + "/` to keep artifact source state canonical"@,
            ),
        )
    }
}

proof fn lemma_tree_front(exists: Seq<bool>, count: int, total: int)
    requires
        0 <= count <= total,
        tree_problem(exists, count) is Some,
    ensures
        tree_problem(exists, total) == tree_problem(exists, count),
    decreases total - count,
{
    if count < total {
        lemma_tree_front(exists, count, total - 1);
    }
}

/// Refuses source trees that are named like the target directories that others stand
/// for. `exists` tells which are there.
pub fn reject_noncanonical_artifact_trees(exists: &[bool; 6]) -> (r: Result<()>)
    ensures
        reports(r, tree_problem(exists@, 6)),
{
    let names = [
        ".config",
        ".local",
        "home/.config",
        "home/.local",
        "modules/.config",
        "modules/.local",
    ];
    let trees = [
        "dot_config",
        "dot_local",
        "dot_config",
        "dot_local",
        "modules/dot_config",
        "modules/dot_local",
    ];
    let ghost all = noncanonical_trees();
    let mut i: usize = 0;
    while i < 6
        invariant
            0 <= i <= 6,
            exists@.len() == 6,
            names@.len() == 6,
            trees@.len() == 6,
            all == noncanonical_trees(),
            forall|j: int| 0 <= j < 6 ==> (#[trigger] names@[j])@ == all[j].0,
            forall|j: int| 0 <= j < 6 ==> (#[trigger] trees@[j])@ == all[j].1,
            tree_problem(exists@, i as int) is None,
        decreases 6 - i,
    {
        proof {
            if tree_problem(exists@, i + 1) is Some {
                lemma_tree_front(exists@, i + 1, 6);
            }
        }
        if exists[i] {
            assert(names@[i as int]@ == all[i as int].0);
            assert(trees@[i as int]@ == all[i as int].1);
            return Err(
                WombatError::Configuration(
                    cat5(
                        "unsupported source tree `",
                        names[i],
                        "`; use `",
                        trees[i],
                        "/` to keep artifact source state canonical",
                    ),
                ),
            );
        }
        i += 1;
    }
    Ok(())
}

/// Accepts the declared source of an artifact: a relative path, or the whole tree.
pub fn validate_declared_source(value: &str) -> (r: Result<()>)
    ensures
        reports(
            r,
            if value@ == "."@ {
                None
            } else {
                relative_problem(value@, "static artifact source"@)
            },
        ),
{
    if same(value, ".") {
        return Ok(());
    }
    validate_relative_path(value, "static artifact source")
}

} // verus!
