//! Target path validation and the rules for turning a declaration into a
//! deployment path.
//!
//! Root-relative paths stay inside the target root; explicit absolute paths keep
//! their literal place. Traversal, backslashes and shell expansion are refused,
//! not normalised away.
use vstd::prelude::*;
use vstd::string::*;

use crate::error::{first, problem_if, reports, Result, WombatError};
use crate::model::manifest::{
    EvaluatedTargetOrigin, EvaluatedTargetRoot, TargetOrigin, TargetPath, TargetScope,
};
use crate::text::{
    cat2, cat3, cat5, contains_char, lemma_pieces, lemma_pieces_concat, pieces, same, split,
    starts_with, views,
};

verus! {

/// Whether a component of a relative path is an ordinary name.
pub open spec fn ordinary(component: Seq<char>) -> bool {
    component.len() > 0 && component != "."@ && component != ".."@
}

/// Whether every component is an ordinary name.
pub open spec fn all_ordinary(components: Seq<Seq<char>>) -> bool {
    forall|i: int| 0 <= i < components.len() ==> ordinary(#[trigger] components[i])
}

/// Whether a path is relative and neither climbs nor holds an empty component or
/// a backslash.
pub open spec fn valid_relative(path: Seq<char>) -> bool {
    !path.contains('\\') && all_ordinary(pieces(path, '/'))
}

/// Whether no component of a path stays or climbs.
pub open spec fn never_climbs(components: Seq<Seq<char>>) -> bool {
    forall|i: int|
        0 <= i < components.len() ==> #[trigger] components[i] != "."@ && components[i] != ".."@
}

/// Whether a path starts at the root of the file system.
pub open spec fn absolute(path: Seq<char>) -> bool {
    path.len() > 0 && path[0] == '/'
}

/// Whether a path is absolute and neither climbs nor holds a backslash.
pub open spec fn valid_absolute(path: Seq<char>) -> bool {
    absolute(path) && !path.contains('\\') && never_climbs(pieces(path, '/'))
}

/// What is wrong with a relative path.
pub open spec fn relative_problem(value: Seq<char>, subject: Seq<char>) -> Option<Seq<char>> {
    problem_if(
        !valid_relative(value),
        "invalid "@ + subject + " `"@ + value
            + "`; expected a UTF-8 relative path without traversal, empty components, or backslashes"@,
    )
}

/// What is wrong with an absolute path.
pub open spec fn absolute_problem(value: Seq<char>) -> Option<Seq<char>> {
    problem_if(
        !valid_absolute(value),
        "invalid absolute target `"@ + value
            + "`; expected a UTF-8 POSIX absolute path without traversal or backslashes"@,
    )
}

/// Whether a path starts at the root of the file system.
pub fn is_absolute(path: &str) -> (r: bool)
    ensures
        r == absolute(path@),
{
    path.unicode_len() > 0 && path.get_char(0) == '/'
}

/// Whether a path is relative and neither climbs nor holds an empty component or
/// a backslash.
pub fn is_valid_relative(value: &str) -> (r: bool)
    ensures
        r == valid_relative(value@),
{
    if contains_char(value, '\\') {
        return false;
    }
    let components = split(value, '/');
    let mut i: usize = 0;
    while i < components.len()
        invariant
            0 <= i <= components@.len(),
            views(components@) == pieces(value@, '/'),
            forall|j: int| 0 <= j < i ==> ordinary(#[trigger] views(components@)[j]),
        decreases components@.len() - i,
    {
        let component = components[i].as_str();
        assert(views(components@)[i as int] == component@);
        if component.is_empty() || same(component, ".") || same(component, "..") {
            assert(!ordinary(pieces(value@, '/')[i as int]));
            return false;
        }
        i += 1;
    }
    true
}

/// Accepts a relative path that neither climbs nor holds an empty component or a
/// backslash.
pub fn validate_relative_path(value: &str, subject: &str) -> (r: Result<()>)
    ensures
        reports(r, relative_problem(value@, subject@)),
{
    if !is_valid_relative(value) {
        return Err(
            WombatError::Configuration(
                cat5(
                    "invalid ",
                    subject,
                    " `",
                    value,
                    "`; expected a UTF-8 relative path without traversal, empty components, or backslashes",
                ),
            ),
        );
    }
    Ok(())
}

/// What is wrong with a declared source.
pub open spec fn declared_source_problem(value: Seq<char>) -> Option<Seq<char>> {
    if value == "."@ {
        None
    } else {
        relative_problem(value, "artifact source"@)
    }
}

/// Accepts a declared source: the base itself or a relative path.
pub fn validate_declared_source(value: &str) -> (r: Result<()>)
    ensures
        reports(r, declared_source_problem(value@)),
{
    if same(value, ".") {
        Ok(())
    } else {
        validate_relative_path(value, "artifact source")
    }
}

/// Accepts an absolute path that neither climbs nor holds a backslash.
pub fn validate_absolute_target(value: &str) -> (r: Result<()>)
    ensures
        reports(r, absolute_problem(value@)),
{
    let mut valid = is_absolute(value) && !contains_char(value, '\\');
    let components = split(value, '/');
    let mut i: usize = 0;
    while i < components.len()
        invariant
            0 <= i <= components@.len(),
            views(components@) == pieces(value@, '/'),
            valid == (absolute(value@) && !value@.contains('\\') && forall|j: int|
                0 <= j < i ==> #[trigger] views(components@)[j] != "."@ && views(components@)[j]
                    != ".."@),
        decreases components@.len() - i,
    {
        let component = components[i].as_str();
        assert(views(components@)[i as int] == component@);
        if same(component, ".") || same(component, "..") {
            valid = false;
        }
        i += 1;
    }
    if !valid {
        return Err(
            WombatError::Configuration(
                cat3(
                    "invalid absolute target `",
                    value,
                    "`; expected a UTF-8 POSIX absolute path without traversal or backslashes",
                ),
            ),
        );
    }
    Ok(())
}

/// Two relative paths, one beneath the other; either may be empty.
pub open spec fn relative_join(left: Seq<char>, right: Seq<char>) -> Seq<char> {
    if left.len() == 0 {
        right
    } else if right.len() == 0 {
        left
    } else {
        left + "/"@ + right
    }
}

/// Puts one relative path beneath another; either may be empty.
pub fn join_relative(left: &str, right: &str) -> (r: String)
    ensures
        r@ == relative_join(left@, right@),
{
    if left.is_empty() {
        right.to_owned()
    } else if right.is_empty() {
        left.to_owned()
    } else {
        cat3(left, "/", right)
    }
}

/// A path beneath another: the second alone where it is absolute, and no second
/// slash where the first ends in one.
pub open spec fn path_join(base: Seq<char>, rest: Seq<char>) -> Seq<char> {
    if absolute(rest) || base.len() == 0 {
        rest
    } else if base.last() == '/' {
        base + rest
    } else {
        base + "/"@ + rest
    }
}

/// Puts a path beneath another.
pub fn join_path(base: &str, rest: &str) -> (r: String)
    ensures
        r@ == path_join(base@, rest@),
{
    if is_absolute(rest) || base.is_empty() {
        rest.to_owned()
    } else if base.get_char(base.unicode_len() - 1) == '/' {
        cat2(base, rest)
    } else {
        cat3(base, "/", rest)
    }
}

/// Whether a target path was inferred from this source.
pub open spec fn inferred_target(target: TargetPath, path: Seq<char>, source: Seq<char>) -> bool {
    &&& target.path@ == path
    &&& target.scope == TargetScope::DeploymentRoot
    &&& target.origin matches TargetOrigin::Inferred { source: s } && s@ == source
}

/// Infers a target from a relative path.
pub fn infer_target(relative_path: &str, source: &str) -> (r: Result<TargetPath>)
    ensures
        reports(r, relative_problem(relative_path@, "artifact target path"@)),
        r matches Ok(target) ==> inferred_target(target, relative_path@, source@),
{
    validate_relative_path(relative_path, "artifact target path")?;
    Ok(
        TargetPath {
            path: relative_path.to_owned(),
            scope: TargetScope::DeploymentRoot,
            origin: TargetOrigin::Inferred { source: source.to_owned() },
        },
    )
}

/// Whether a target root was inferred from this source.
pub open spec fn inferred_root(
    root: EvaluatedTargetRoot,
    path: Seq<char>,
    source: Seq<char>,
) -> bool {
    &&& root.path@ == path
    &&& root.scope == TargetScope::DeploymentRoot
    &&& root.origin matches EvaluatedTargetOrigin::Inferred { source: s } && s@ == source
}

/// What is wrong with the path of an inferred target root.
pub open spec fn root_problem(path: Seq<char>, subject: Seq<char>) -> Option<Seq<char>> {
    if path.len() == 0 {
        None
    } else {
        relative_problem(path, subject)
    }
}

/// Infers a target root from a relative path, which may be empty.
pub fn infer_target_root(relative_path: &str, source: &str) -> (r: Result<EvaluatedTargetRoot>)
    ensures
        reports(r, root_problem(relative_path@, "directory target path"@)),
        r matches Ok(root) ==> inferred_root(root, relative_path@, source@),
{
    if !relative_path.is_empty() {
        validate_relative_path(relative_path, "directory target path")?;
    }
    Ok(
        EvaluatedTargetRoot {
            path: relative_path.to_owned(),
            scope: TargetScope::DeploymentRoot,
            origin: EvaluatedTargetOrigin::Inferred { source: source.to_owned() },
        },
    )
}

/// Whether a path asks for the home directory of a shell.
pub open spec fn names_home(value: Seq<char>) -> bool {
    value == "~"@ || "~/"@.is_prefix_of(value)
}

fn asks_for_home(value: &str) -> (r: bool)
    ensures
        r == names_home(value@),
{
    same(value, "~") || starts_with(value, "~/")
}

/// The scope that a declared path asks for.
pub open spec fn declared_scope(value: Seq<char>) -> TargetScope {
    if absolute(value) {
        TargetScope::Absolute
    } else {
        TargetScope::DeploymentRoot
    }
}

/// What is wrong with an explicit target.
pub open spec fn explicit_target_problem(value: Seq<char>) -> Option<Seq<char>> {
    first(
        problem_if(
            names_home(value) || value.contains('%'),
            "target paths must not use `~` or Windows `%VARIABLE%` expansion"@,
        ),
        if absolute(value) {
            absolute_problem(value)
        } else {
            relative_problem(value, "target"@)
        },
    )
}

/// Whether a target path was declared so.
pub open spec fn explicit_target(target: TargetPath, value: Seq<char>) -> bool {
    &&& target.path@ == value
    &&& target.scope == declared_scope(value)
    &&& target.origin matches TargetOrigin::Explicit { declared } && declared@ == value
}

/// Reads an explicit target: relative to the deployment root, or absolute.
pub fn parse_explicit_target(value: &str) -> (r: Result<TargetPath>)
    ensures
        reports(r, explicit_target_problem(value@)),
        r matches Ok(target) ==> explicit_target(target, value@),
{
    if asks_for_home(value) || contains_char(value, '%') {
        return Err(
            WombatError::configuration(
                "target paths must not use `~` or Windows `%VARIABLE%` expansion",
            ),
        );
    }
    let scope = if is_absolute(value) {
        validate_absolute_target(value)?;
        TargetScope::Absolute
    } else {
        validate_relative_path(value, "target")?;
        TargetScope::DeploymentRoot
    };
    Ok(
        TargetPath {
            path: value.to_owned(),
            scope,
            origin: TargetOrigin::Explicit { declared: value.to_owned() },
        },
    )
}

/// Whether a target root was declared so.
pub open spec fn explicit_root(
    root: EvaluatedTargetRoot,
    value: Seq<char>,
    scope: TargetScope,
) -> bool {
    &&& root.path@ == value
    &&& root.scope == scope
    &&& root.origin matches EvaluatedTargetOrigin::Explicit { declared } && declared@ == value
}

/// What is wrong with an explicit target root of a module.
pub open spec fn explicit_root_problem(value: Seq<char>) -> Option<Seq<char>> {
    first(
        problem_if(
            names_home(value),
            "target roots are deployment-root-relative and must not use `~`"@,
        ),
        root_problem(value, "target root"@),
    )
}

/// Reads an explicit target root, relative to the deployment root.
pub fn parse_explicit_target_root(value: &str) -> (r: Result<EvaluatedTargetRoot>)
    ensures
        reports(r, explicit_root_problem(value@)),
        r matches Ok(root) ==> explicit_root(root, value@, TargetScope::DeploymentRoot),
{
    if asks_for_home(value) {
        return Err(
            WombatError::configuration(
                "target roots are deployment-root-relative and must not use `~`",
            ),
        );
    }
    if !value.is_empty() {
        validate_relative_path(value, "target root")?;
    }
    Ok(
        EvaluatedTargetRoot {
            path: value.to_owned(),
            scope: TargetScope::DeploymentRoot,
            origin: EvaluatedTargetOrigin::Explicit { declared: value.to_owned() },
        },
    )
}

/// What is wrong with an explicit target root of an install.
pub open spec fn install_root_problem(value: Seq<char>) -> Option<Seq<char>> {
    first(
        problem_if(
            names_home(value) || value.contains('%'),
            "target roots must not use `~` or Windows `%VARIABLE%` expansion"@,
        ),
        if absolute(value) {
            absolute_problem(value)
        } else {
            root_problem(value, "target root"@)
        },
    )
}

/// Reads the explicit target root of a directory or glob install, which may
/// name a second file system root. Module bases keep to the deployment root.
pub fn parse_install_target_root(value: &str) -> (r: Result<EvaluatedTargetRoot>)
    ensures
        reports(r, install_root_problem(value@)),
        r matches Ok(root) ==> explicit_root(root, value@, declared_scope(value@)),
{
    if asks_for_home(value) || contains_char(value, '%') {
        return Err(
            WombatError::configuration(
                "target roots must not use `~` or Windows `%VARIABLE%` expansion",
            ),
        );
    }
    let scope = if is_absolute(value) {
        validate_absolute_target(value)?;
        TargetScope::Absolute
    } else {
        if !value.is_empty() {
            validate_relative_path(value, "target root")?;
        }
        TargetScope::DeploymentRoot
    };
    Ok(
        EvaluatedTargetRoot {
            path: value.to_owned(),
            scope,
            origin: EvaluatedTargetOrigin::Explicit { declared: value.to_owned() },
        },
    )
}

/// The path of a file beneath a target root.
pub open spec fn expanded_path(root: EvaluatedTargetRoot, relative: Seq<char>) -> Seq<char> {
    match root.scope {
        TargetScope::DeploymentRoot => relative_join(root.path@, relative),
        TargetScope::Absolute => path_join(root.path@, relative),
    }
}

/// What is wrong with a file beneath a target root.
pub open spec fn expansion_problem(root: EvaluatedTargetRoot, relative: Seq<char>) -> Option<
    Seq<char>,
> {
    first(
        relative_problem(relative, "expanded target path"@),
        match root.scope {
            TargetScope::DeploymentRoot => relative_problem(
                expanded_path(root, relative),
                "expanded target path"@,
            ),
            TargetScope::Absolute => absolute_problem(expanded_path(root, relative)),
        },
    )
}

/// Whether the origin of a file follows from that of its root.
pub open spec fn expanded_origin(
    origin: TargetOrigin,
    root: EvaluatedTargetOrigin,
    relative: Seq<char>,
) -> bool {
    match root {
        EvaluatedTargetOrigin::Explicit { declared } => origin matches
            TargetOrigin::DirectoryExplicit { declared: d, relative: r } && d@ == declared@ && r@
            == relative,
        EvaluatedTargetOrigin::Inferred { source } => origin matches TargetOrigin::Inferred {
            source: s,
        } && s@ == source@,
    }
}

/// Places a file beneath a target root.
pub fn expand_target_root(root: &EvaluatedTargetRoot, relative: &str) -> (r: Result<TargetPath>)
    ensures
        reports(r, expansion_problem(*root, relative@)),
        r matches Ok(target) ==> target.path@ == expanded_path(*root, relative@) && target.scope
            == root.scope && expanded_origin(target.origin, root.origin, relative@),
{
    validate_relative_path(relative, "expanded target path")?;
    let path = match root.scope {
        TargetScope::DeploymentRoot => {
            let path = join_relative(root.path.as_str(), relative);
            validate_relative_path(path.as_str(), "expanded target path")?;
            path
        },
        TargetScope::Absolute => {
            let path = join_path(root.path.as_str(), relative);
            validate_absolute_target(path.as_str())?;
            path
        },
    };
    let origin = match &root.origin {
        EvaluatedTargetOrigin::Explicit { declared } => TargetOrigin::DirectoryExplicit {
            declared: declared.clone(),
            relative: relative.to_owned(),
        },
        EvaluatedTargetOrigin::Inferred { source } => TargetOrigin::Inferred {
            source: source.clone(),
        },
    };
    Ok(TargetPath { path, scope: root.scope, origin })
}

/// The path as views write it.
pub fn display_target(path: &str) -> (r: String)
    ensures
        r@ == path@,
{
    path.to_owned()
}

/// The message about a source tree of an unsupported layout.
pub open spec fn legacy_message(name: Seq<char>) -> Seq<char> {
    "legacy source tree `"@ + name
        + "/` is unsupported; move it beneath `src/` and update modules to use `w.module.from()`"@
}

/// Refuses a repository with source trees of an unsupported layout, given which
/// of them exist.
pub fn reject_legacy_artifact_trees(home: bool, dot_config: bool, dot_local: bool) -> (r: Result<
    (),
>)
    ensures
        reports(
            r,
            first(
                problem_if(home, legacy_message("home"@)),
                first(
                    problem_if(dot_config, legacy_message("dot_config"@)),
                    problem_if(dot_local, legacy_message("dot_local"@)),
                ),
            ),
        ),
{
    let name = if home {
        "home"
    } else if dot_config {
        "dot_config"
    } else if dot_local {
        "dot_local"
    } else {
        return Ok(());
    };
    Err(
        WombatError::Configuration(
            cat3(
                "legacy source tree `",
                name,
                "/` is unsupported; move it beneath `src/` and update modules to use `w.module.from()`",
            ),
        ),
    )
}

/// The components of a joined path are those of both parts.
pub proof fn lemma_join_pieces(left: Seq<char>, right: Seq<char>)
    ensures
        pieces(left + "/"@ + right, '/') == pieces(left, '/') + pieces(right, '/'),
{
    reveal_strlit("/");
    assert(left + "/"@ + right =~= left.push('/') + right);
    lemma_pieces_concat(left, right, '/');
}

/// Two valid relative paths, one beneath the other, are a valid relative path.
pub proof fn law_joined_paths_stay_valid(left: Seq<char>, right: Seq<char>)
    requires
        valid_relative(left),
        valid_relative(right),
    ensures
        valid_relative(relative_join(left, right)),
{
    reveal_strlit("/");
    lemma_join_pieces(left, right);
    let whole = left + "/"@ + right;
    let a = pieces(left, '/');
    let b = pieces(right, '/');
    assert forall|i: int| 0 <= i < (a + b).len() implies ordinary(#[trigger] (a + b)[i]) by {
        if i < a.len() {
            assert(ordinary(a[i]));
        } else {
            assert(ordinary(b[i - a.len()]));
        }
    }
    assert forall|i: int| 0 <= i < whole.len() implies whole[i] != '\\' by {
        if i < left.len() {
            assert(left.contains(left[i]));
        } else if i > left.len() {
            assert(right.contains(right[i - left.len() - 1]));
        }
    }
}

/// A file placed beneath a target root stays beneath it: the components of its
/// path are those of the root, then those of the file.
pub proof fn law_expanded_targets_stay_beneath_their_root(
    root: EvaluatedTargetRoot,
    relative: Seq<char>,
)
    requires
        root.scope == TargetScope::DeploymentRoot,
        root.path@.len() > 0,
        expansion_problem(root, relative) is None,
    ensures
        pieces(expanded_path(root, relative), '/') == pieces(root.path@, '/') + pieces(
            relative,
            '/',
        ),
        valid_relative(expanded_path(root, relative)),
{
    lemma_pieces(relative, '/');
    if relative.len() == 0 {
        assert(relative =~= Seq::<char>::empty());
        assert(pieces(relative, '/')[0].len() == 0);
        assert(!ordinary(pieces(relative, '/')[0]));
    }
    lemma_join_pieces(root.path@, relative);
}

/// A valid relative path is accepted beneath every valid target root.
pub proof fn law_valid_files_expand_beneath_valid_roots(
    root: EvaluatedTargetRoot,
    relative: Seq<char>,
)
    requires
        root.scope == TargetScope::DeploymentRoot,
        root.path@.len() == 0 || valid_relative(root.path@),
        valid_relative(relative),
    ensures
        expansion_problem(root, relative) is None,
{
    if root.path@.len() > 0 {
        law_joined_paths_stay_valid(root.path@, relative);
    }
}

} // verus!
