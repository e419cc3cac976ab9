//! Source selection, projection, and artifact registration.
use vstd::prelude::*;
use vstd::string::*;

use crate::error::{
    configured, either, first, first_among, lemma_first_among, problem_if, reports, settles,
    Problem, Result, WombatError,
};
use crate::glob::any_matches;
use crate::json::{object_tree, JsonTree};
use crate::lua::state::{Location, ModuleRegistry, ArtifactRegistry, SourceBase};
use crate::model::frozen::{
    freezing_problem, thawed_as, Frozen, FrozenValue, LuaHeap, LuaValue,
};
use crate::model::manifest::{
    copy_text, copy_texts, ArtifactKind, ArtifactNotice, ArtifactNoticeKind, ArtifactSelection,
    ArtifactSelectionKind, EvaluatedArtifact, EvaluatedDirectory, EvaluatedProduction,
    EvaluatedTargetRoot, SourceOrigin, SourceProjection, SourceTrace, TargetOrigin, TargetPath,
    TargetScope, UnallocatedPolicy,
};
use crate::model::path::{
    declared_scope, explicit_root, explicit_target, explicit_target_problem, infer_target,
    infer_target_root, inferred_root, inferred_target, install_root_problem, join_relative,
    law_joined_paths_stay_valid, parse_explicit_target, parse_install_target_root, relative_join,
    relative_problem, root_problem, valid_relative,
};
use crate::model::selection::{
    allocated_components, any_hidden, authorized, compile_selector, excluded,
    hidden_components_authorized, in_static_scope, is_entry, is_excluded, is_hidden_component,
    law_projected_paths_are_valid, matcher, matcher_problem, names_entry, physical_selector,
    project_physical, projected_path, projection_problem, selector_is, selector_problem,
    selector_rules, static_scope, CompiledSelector, SelectorMatcher,
};
use crate::model::source::{DirectoryLeaf, EntryKind, SourceFingerprint};
use crate::text::{
    cat2, cat3, cat7, ends_with, join, joined, lemma_pieces, pieces, replace_char, replaced, same,
    split, strip_prefix, strip_suffix, trim_leading, trim_trailing, views, without_leading,
    without_trailing,
};

verus! {

/// A declared installation of sources.
#[derive(Debug, PartialEq)]
pub struct ArtifactDeclaration {
    /// The selector
    pub source_path: String,
    /// Whether it may name hidden components
    pub hidden: bool,
    /// The target
    pub explicit_target: Option<String>,
    /// How the artifacts are produced: `auto`, `file` or `template`
    pub requested_kind: String,
    /// What is left out
    pub exclusions: Vec<String>,
    /// Whether the selection may be empty
    pub allow_empty: bool,
    /// The declaration
    pub location: Location,
}

/// What stands where a selector points.
#[derive(Debug, PartialEq)]
pub struct SourceObservation {
    /// At the path itself
    pub exact: EntryKind,
    /// At the path with `.tmpl` after it
    pub template: EntryKind,
    /// Whether a directory is at the path, symbolic links followed
    pub directory: bool,
    /// What the file system said where the path could not be read
    pub failure: String,
    /// What tells whether the file has changed
    pub fingerprint: SourceFingerprint,
    /// The files that were found beneath the directory or the base
    pub leaves: Vec<DirectoryLeaf>,
}

/// A path as views write it.
pub open spec fn shown_path(path: Seq<char>) -> Seq<char> {
    replaced(path, '\\', "/"@)
}

/// A path as views write it.
pub fn display_path(path: &str) -> (r: String)
    ensures
        r@ == shown_path(path@),
{
    replace_char(path, '\\', "/")
}

/// What is wrong with one exclusion.
pub open spec fn exclusion_problem(value: Seq<char>, hidden: bool) -> Option<Seq<char>> {
    first(selector_problem(value, hidden), matcher_problem(physical_selector(value, hidden)))
}

/// What is wrong with the exclusions.
pub open spec fn exclusions_problem(values: Seq<Seq<char>>, hidden: bool) -> Option<Seq<char>> {
    first_among(values, |v: Seq<char>| exclusion_problem(v, hidden))
}

/// Compiles the exclusions of a declaration.
pub fn compile_exclusions(exclusions: &Vec<String>, hidden: bool) -> (r: Result<
    Vec<SelectorMatcher>,
>)
    ensures
        reports(r, exclusions_problem(views(exclusions@), hidden)),
        r matches Ok(matchers) ==> matchers@.len() == exclusions@.len() && forall|i: int|
            0 <= i < matchers@.len() ==> (#[trigger] matchers@[i]).rules() == selector_rules(
                physical_selector(exclusions@[i]@, hidden),
            ),
{
    let ghost values = views(exclusions@);
    let ghost problem = |v: Seq<char>| exclusion_problem(v, hidden);
    let mut matchers: Vec<SelectorMatcher> = Vec::new();
    let mut i: usize = 0;
    assert(values.take(0) =~= Seq::empty());
    while i < exclusions.len()
        invariant
            0 <= i <= exclusions@.len(),
            values == views(exclusions@),
            problem == (|v: Seq<char>| exclusion_problem(v, hidden)),
            first_among(values.take(i as int), problem) is None,
            matchers@.len() == i,
            forall|j: int|
                0 <= j < i ==> (#[trigger] matchers@[j]).rules() == selector_rules(
                    physical_selector(exclusions@[j]@, hidden),
                ),
        decreases exclusions@.len() - i,
    {
        proof {
            assert(values.take(i + 1).drop_last() =~= values.take(i as int));
            assert(values.take(i + 1).last() == exclusions@[i as int]@);
            lemma_first_among(values, problem, i + 1);
            assert(problem(values[i as int]) == exclusion_problem(values[i as int], hidden));
        }
        let selector = compile_selector(exclusions[i].as_str(), hidden)?;
        let compiled = matcher(selector.physical.as_str())?;
        matchers.push(compiled);
        i += 1;
    }
    assert(values.take(i as int) =~= values);
    Ok(matchers)
}

/// Whether a search by pattern visits a path.
pub open spec fn pattern_visits(
    selector: CompiledSelector,
    exclusions: Seq<SelectorMatcher>,
    relative: Seq<char>,
    directory: bool,
) -> bool {
    static_scope(relative, selector.static_root@) && authorized(relative, selector.physical@)
        && !excluded(exclusions, relative, directory)
}

/// Whether a search by pattern visits the path of an entry.
pub fn visits_pattern(
    selector: &CompiledSelector,
    exclusions: &Vec<SelectorMatcher>,
    relative: &str,
    directory: bool,
) -> (r: bool)
    requires
        names_entry(relative@),
    ensures
        r == pattern_visits(*selector, exclusions@, relative@, directory),
{
    in_static_scope(relative, selector.static_root.as_str()) && hidden_components_authorized(
        relative,
        selector.physical.as_str(),
    ) && !is_excluded(exclusions, relative, directory)
}

fn holds_hidden(path: &str) -> (r: bool)
    ensures
        r == any_hidden(pieces(path@, '/')),
{
    let parts = split(path, '/');
    let mut i: usize = 0;
    assert(parts@.len() == views(parts@).len());
    while i < parts.len()
        invariant
            0 <= i <= parts@.len(),
            parts@.len() == pieces(path@, '/').len(),
            views(parts@) == pieces(path@, '/'),
            forall|j: int|
                0 <= j < i ==> !crate::model::selection::hidden_component(
                    #[trigger] pieces(path@, '/')[j],
                ),
        decreases parts@.len() - i,
    {
        assert(views(parts@)[i as int] == parts@[i as int]@);
        if is_hidden_component(parts[i].as_str()) {
            assert(crate::model::selection::hidden_component(pieces(path@, '/')[i as int]));
            return true;
        }
        i += 1;
    }
    false
}

/// Whether a search of a directory visits a path: hidden ones are passed over.
pub fn visits_directory(
    exclusions: &Vec<SelectorMatcher>,
    relative: &str,
    directory: bool,
) -> (r: bool)
    ensures
        r == (!any_hidden(pieces(relative@, '/')) && !excluded(
            exclusions@,
            relative@,
            directory,
        )),
{
    proof {
        reveal_strlit("..");
        lemma_pieces(relative@, '/');
        let parts = pieces(relative@, '/');
        if !names_entry(relative@) {
            assert(parts[parts.len() - 1] == ".."@);
            assert(crate::model::selection::hidden_component(parts[parts.len() - 1]));
        }
    }
    !holds_hidden(relative) && !is_excluded(exclusions, relative, directory)
}

/// Whether the template beside the named file is meant.
pub open spec fn template_meant(physical: Seq<char>, glob: bool, found: SourceObservation) -> bool {
    !glob && !".tmpl"@.is_suffix_of(physical) && found.exact == EntryKind::Missing
        && found.template == EntryKind::File
}

/// Whether both the named file and the template beside it are there.
pub open spec fn template_ambiguous(
    physical: Seq<char>,
    glob: bool,
    found: SourceObservation,
) -> bool {
    !glob && !".tmpl"@.is_suffix_of(physical) && found.exact == EntryKind::File && found.template
        == EntryKind::File
}

/// The message about a file and a template of the same name.
pub open spec fn ambiguous_message(
    source_path: Seq<char>,
    base: Seq<char>,
    physical: Seq<char>,
) -> Seq<char> {
    let file = if physical == "."@ {
        base
    } else {
        relative_join(base, physical)
    };
    "artifact source `"@ + source_path + "` is ambiguous: both `"@ + shown_path(file) + "` and `"@
        + shown_path(relative_join(base, physical + ".tmpl"@))
        + "` exist; name the physical `.tmpl` source explicitly or remove one candidate"@
}

/// How a selection finds its sources.
pub open spec fn kind_of_selection(glob: bool, directory: bool) -> ArtifactSelectionKind {
    if glob {
        ArtifactSelectionKind::Glob
    } else if directory {
        ArtifactSelectionKind::Directory
    } else {
        ArtifactSelectionKind::Exact
    }
}

/// What is wrong with where a selector points.
pub open spec fn pointing_problem(
    source_path: Seq<char>,
    requested_kind: Seq<char>,
    base: Seq<char>,
    physical: Seq<char>,
    glob: bool,
    found: SourceObservation,
) -> Option<Seq<char>> {
    first(
        problem_if(
            template_ambiguous(physical, glob, found),
            ambiguous_message(source_path, base, physical),
        ),
        problem_if(
            !glob && found.directory && requested_kind != "auto"@,
            "install."@ + requested_kind
                + "() cannot select a directory; use install() for directory selection"@,
        ),
    )
}

/// Follows a selector to the template beside the named file where only that is
/// there.
pub fn follow_selector(
    selector: CompiledSelector,
    requested_kind: &str,
    base: &str,
    found: &SourceObservation,
) -> (r: Result<CompiledSelector>)
    ensures
        reports(
            r,
            pointing_problem(
                selector.declared@,
                requested_kind@,
                base@,
                selector.physical@,
                selector.glob,
                *found,
            ),
        ),
        r matches Ok(followed) ==> {
            let added = if template_meant(selector.physical@, selector.glob, *found) {
                ".tmpl"@
            } else {
                Seq::empty()
            };
            &&& followed.declared@ == selector.declared@
            &&& followed.physical@ == selector.physical@ + added
            &&& followed.expanded@ == selector.expanded@ + added
            &&& followed.hidden == selector.hidden
            &&& followed.glob == selector.glob
            &&& followed.static_root@ == selector.static_root@
        },
{
    let mut selector = selector;
    let ghost start = selector;
    if !selector.glob && !ends_with(selector.physical.as_str(), ".tmpl") {
        if found.exact == EntryKind::File && found.template == EntryKind::File {
            let exact = if same(selector.physical.as_str(), ".") {
                base.to_owned()
            } else {
                join_relative(base, selector.physical.as_str())
            };
            let template = join_relative(base, cat2(selector.physical.as_str(), ".tmpl").as_str());
            return Err(
                WombatError::Configuration(
                    cat7(
                        "artifact source `",
                        selector.declared.as_str(),
                        "` is ambiguous: both `",
                        display_path(exact.as_str()).as_str(),
                        "` and `",
                        display_path(template.as_str()).as_str(),
                        "` exist; name the physical `.tmpl` source explicitly or remove one candidate",
                    ),
                ),
            );
        }
        if found.exact == EntryKind::Missing && found.template == EntryKind::File {
            selector.physical = cat2(selector.physical.as_str(), ".tmpl");
            selector.expanded = cat2(selector.expanded.as_str(), ".tmpl");
        }
    }
    if !selector.glob && found.directory && !same(requested_kind, "auto") {
        return Err(
            WombatError::Configuration(
                cat3(
                    "install.",
                    requested_kind,
                    "() cannot select a directory; use install() for directory selection",
                ),
            ),
        );
    }
    proof {
        assert(start.physical@ + Seq::<char>::empty() =~= start.physical@);
        assert(start.expanded@ + Seq::<char>::empty() =~= start.expanded@);
    }
    Ok(selector)
}

/// The path of a leaf of a directory, from where the selection starts.
pub open spec fn leaf_path(physical: Seq<char>, leaf: Seq<char>) -> Seq<char> {
    if physical == "."@ {
        leaf
    } else {
        physical + "/"@ + leaf
    }
}

/// The leaves that a pattern selects.
pub open spec fn matching_leaves(leaves: Seq<DirectoryLeaf>, physical: Seq<char>) -> Seq<
    (Seq<char>, SourceFingerprint),
>
    decreases leaves.len(),
{
    if leaves.len() == 0 {
        Seq::empty()
    } else {
        let rest = matching_leaves(leaves.drop_last(), physical);
        if names_entry(leaves.last().relative@) && any_matches(
            selector_rules(physical),
            leaves.last().relative@,
        ) {
            rest.push((leaves.last().relative@, leaves.last().fingerprint))
        } else {
            rest
        }
    }
}

/// The leaves beneath a directory.
pub open spec fn directory_leaves(leaves: Seq<DirectoryLeaf>, physical: Seq<char>) -> Seq<
    (Seq<char>, SourceFingerprint),
> {
    leaves.map_values(
        |leaf: DirectoryLeaf| (leaf_path(physical, leaf.relative@), leaf.fingerprint),
    )
}

/// The sources that a selector selects.
pub open spec fn selected_sources(
    physical: Seq<char>,
    glob: bool,
    found: SourceObservation,
) -> Seq<(Seq<char>, SourceFingerprint)> {
    if glob {
        matching_leaves(found.leaves@, physical)
    } else if found.directory {
        directory_leaves(found.leaves@, physical)
    } else {
        seq![(physical, found.fingerprint)]
    }
}

/// What is wrong with a named file.
pub open spec fn file_problem(
    source_path: Seq<char>,
    restricted: bool,
    found: SourceObservation,
    template: bool,
) -> Option<Problem> {
    if restricted {
        Some(
            Problem::Configuration(
                "`exclude` and `allow_empty` are only valid for directory or glob selectors"@,
            ),
        )
    } else if template || found.exact == EntryKind::File {
        None
    } else if found.exact == EntryKind::Missing {
        Some(
            Problem::Configuration(
                "artifact source `"@ + source_path
                    + "` does not exist beneath its declaration base"@,
            ),
        )
    } else if found.exact == EntryKind::Unreadable {
        Some(Problem::Io(found.failure@))
    } else {
        Some(
            Problem::Configuration(
                "artifact source `"@ + source_path + "` must be a regular file or directory"@,
            ),
        )
    }
}

/// What is wrong with what a selector selects.
pub open spec fn gathering_problem(
    source_path: Seq<char>,
    physical: Seq<char>,
    glob: bool,
    excluding: bool,
    allow_empty: bool,
    template: bool,
    found: SourceObservation,
) -> Option<Problem> {
    either(
        if glob {
            configured(matcher_problem(physical))
        } else if found.directory {
            None
        } else {
            file_problem(source_path, excluding || allow_empty, found, template)
        },
        configured(
            problem_if(
                selected_sources(physical, glob, found).len() == 0 && !((glob || found.directory)
                    && allow_empty),
                "artifact selector `"@ + source_path
                    + "` matched no files; set `allow_empty = true` if this is intentional"@,
            ),
        ),
    )
}

/// The views of selected sources.
pub open spec fn source_views(list: Seq<(String, SourceFingerprint)>) -> Seq<
    (Seq<char>, SourceFingerprint),
> {
    list.map_values(|s: (String, SourceFingerprint)| (s.0@, s.1))
}

/// Gathers the sources that a selector selects. `template` tells that the
/// selector was followed to a template.
pub fn gather_sources(
    source_path: &str,
    physical: &str,
    glob: bool,
    excluding: bool,
    allow_empty: bool,
    template: bool,
    found: &SourceObservation,
) -> (r: Result<Vec<(String, SourceFingerprint)>>)
    ensures
        settles(
            r,
            gathering_problem(
                source_path@,
                physical@,
                glob,
                excluding,
                allow_empty,
                template,
                *found,
            ),
        ),
        r matches Ok(list) ==> source_views(list@) == selected_sources(physical@, glob, *found),
{
    let mut selected: Vec<(String, SourceFingerprint)> = Vec::new();
    let mut i: usize = 0;
    if glob {
        let compiled = matcher(physical)?;
        assert(found.leaves@.take(0) =~= Seq::empty());
        assert(source_views(selected@) =~= Seq::empty());
        while i < found.leaves.len()
            invariant
                0 <= i <= found.leaves@.len(),
                compiled.rules() == selector_rules(physical@),
                source_views(selected@) == matching_leaves(found.leaves@.take(i as int), physical@),
            decreases found.leaves@.len() - i,
        {
            assert(found.leaves@.take(i + 1).drop_last() =~= found.leaves@.take(i as int));
            let relative = found.leaves[i].relative.as_str();
            if is_entry(relative) && compiled.is_match(relative) {
                let ghost held = selected@;
                selected.push((found.leaves[i].relative.clone(), found.leaves[i].fingerprint));
                assert(source_views(selected@) =~= source_views(held).push(
                    (found.leaves@[i as int].relative@, found.leaves@[i as int].fingerprint),
                ));
            }
            i += 1;
        }
        assert(found.leaves@.take(i as int) =~= found.leaves@);
    } else if found.directory {
        let ghost wanted = directory_leaves(found.leaves@, physical@);
        assert(source_views(selected@) =~= wanted.take(0));
        while i < found.leaves.len()
            invariant
                0 <= i <= found.leaves@.len(),
                wanted == directory_leaves(found.leaves@, physical@),
                source_views(selected@) == wanted.take(i as int),
            decreases found.leaves@.len() - i,
        {
            let relative = if same(physical, ".") {
                found.leaves[i].relative.clone()
            } else {
                cat3(physical, "/", found.leaves[i].relative.as_str())
            };
            let ghost held = selected@;
            let ghost shown = (relative@, found.leaves@[i as int].fingerprint);
            selected.push((relative, found.leaves[i].fingerprint));
            assert(source_views(selected@) =~= source_views(held).push(shown));
            assert(wanted.take(i + 1) =~= wanted.take(i as int).push(shown));
            i += 1;
        }
        assert(wanted.take(i as int) =~= wanted);
    } else {
        if excluding || allow_empty {
            return Err(
                WombatError::configuration(
                    "`exclude` and `allow_empty` are only valid for directory or glob selectors",
                ),
            );
        }
        if !template && found.exact != EntryKind::File {
            if found.exact == EntryKind::Missing {
                return Err(
                    WombatError::Configuration(
                        cat3(
                            "artifact source `",
                            source_path,
                            "` does not exist beneath its declaration base",
                        ),
                    ),
                );
            }
            if found.exact == EntryKind::Unreadable {
                return Err(WombatError::Io(found.failure.clone()));
            }
            return Err(
                WombatError::Configuration(
                    cat3(
                        "artifact source `",
                        source_path,
                        "` must be a regular file or directory",
                    ),
                ),
            );
        }
        selected.push((physical.to_owned(), found.fingerprint));
        assert(source_views(selected@) =~= seq![(physical@, found.fingerprint)]);
    }
    assert(selected@.len() == source_views(selected@).len());
    if selected.len() == 0 && !((glob || found.directory) && allow_empty) {
        return Err(
            WombatError::Configuration(
                cat3(
                    "artifact selector `",
                    source_path,
                    "` matched no files; set `allow_empty = true` if this is intentional",
                ),
            ),
        );
    }
    Ok(selected)
}

/// Everything that decides where a selected source goes.
#[derive(Debug, PartialEq)]
pub struct Scene {
    /// The selector as declared
    pub source_path: String,
    /// The selector with its shorthands written out
    pub expanded: String,
    /// The selector in physical names
    pub physical: String,
    /// Whether it selects a set of files
    pub set: bool,
    /// Where that set starts
    pub selection_root: String,
    /// How the artifacts are produced
    pub kind: String,
    /// The declared target
    pub explicit_target: Option<String>,
    /// The same, as a directory
    pub explicit_root: Option<EvaluatedTargetRoot>,
    /// Where sources are looked up
    pub base_path: String,
    /// The target of that directory
    pub base_target: Option<String>,
    /// The context of templates
    pub context: FrozenValue,
    /// What is left out
    pub exclusions: Vec<String>,
    /// Whether the selection may be empty
    pub allow_empty: bool,
    /// The module that declares it
    pub owner: String,
    /// The declaration
    pub trace: SourceTrace,
}

/// Everything that decides where a selected source goes, as text and numbers.
pub struct SceneView {
    /// The selector as declared
    pub source_path: Seq<char>,
    /// The selector with its shorthands written out
    pub expanded: Seq<char>,
    /// The selector in physical names
    pub physical: Seq<char>,
    /// Whether it selects a set of files
    pub set: bool,
    /// Where that set starts
    pub selection_root: Seq<char>,
    /// How the artifacts are produced
    pub kind: Seq<char>,
    /// The declared target
    pub explicit_target: Option<Seq<char>>,
    /// The same, as a directory and what that is relative to
    pub explicit_root: Option<(Seq<char>, TargetScope)>,
    /// Where sources are looked up
    pub base_path: Seq<char>,
    /// The target of that directory
    pub base_target: Option<Seq<char>>,
    /// Whether no context was given
    pub plain: bool,
    /// The context that templates are rendered with
    pub context: JsonTree,
    /// What is left out
    pub exclusions: Seq<Seq<char>>,
    /// Whether the selection may be empty
    pub allow_empty: bool,
    /// The module that declares it
    pub owner: Seq<char>,
    /// The declaration
    pub trace: SourceTrace,
}

/// The view of optional text.
pub open spec fn text_view(text: Option<String>) -> Option<Seq<char>> {
    match text {
        Some(text) => Some(text@),
        None => None,
    }
}

impl View for Scene {
    type V = SceneView;

    open spec fn view(&self) -> SceneView {
        SceneView {
            source_path: self.source_path@,
            expanded: self.expanded@,
            physical: self.physical@,
            set: self.set,
            selection_root: self.selection_root@,
            kind: self.kind@,
            explicit_target: text_view(self.explicit_target),
            explicit_root: match self.explicit_root {
                Some(root) => Some((root.path@, root.scope)),
                None => None,
            },
            base_path: self.base_path@,
            base_target: text_view(self.base_target),
            plain: self.context is Null,
            context: if self.context is Null {
                object_tree(Seq::empty())
            } else {
                self.context.tree()
            },
            exclusions: views(self.exclusions@),
            allow_empty: self.allow_empty,
            owner: self.owner@,
            trace: self.trace,
        }
    }
}

/// What becomes of a selected source.
pub enum Step {
    /// It is hidden and passed over
    Ignored,
    /// It has no target
    Skipped,
    /// It becomes an artifact
    Made,
    /// It is an error
    Refused(Seq<char>),
}

impl SceneView {
    /// The path of a source from where its set starts.
    pub open spec fn from_root(self, relative: Seq<char>) -> Seq<char> {
        without_leading(
            if self.selection_root.is_prefix_of(relative) {
                relative.skip(self.selection_root.len() as int)
            } else {
                relative
            },
            '/',
        )
    }

    /// The path that decides the target beneath a declared directory.
    pub open spec fn placed(self, relative: Seq<char>) -> Seq<char> {
        if self.from_root(relative).len() == 0 {
            relative
        } else {
            self.from_root(relative)
        }
    }

    /// What is wrong with the names of a source.
    pub open spec fn naming_problem(self, relative: Seq<char>) -> Option<Seq<char>> {
        let from_root = self.from_root(relative);
        first(
            projection_problem(relative, authorized(relative, self.physical)),
            if from_root.len() == 0 {
                None
            } else {
                projection_problem(from_root, authorized(from_root, self.physical))
            },
        )
    }

    /// The target beneath the target of the base.
    pub open spec fn inferred(self, relative: Seq<char>) -> Option<Seq<char>> {
        match self.base_target {
            Some(base) => if allocated_components(pieces(relative, '/')) {
                Some(relative_join(base, projected_path(relative)))
            } else {
                None
            },
            None => None,
        }
    }

    /// The target of a source, before a template loses its suffix.
    pub open spec fn target(self, relative: Seq<char>) -> Option<Seq<char>> {
        if !self.set {
            if self.explicit_target is Some {
                self.explicit_target
            } else {
                self.inferred(relative)
            }
        } else {
            match self.explicit_root {
                Some(root) => if allocated_components(pieces(self.placed(relative), '/')) {
                    Some(relative_join(root.0, projected_path(self.placed(relative))))
                } else {
                    None
                },
                None => self.inferred(relative),
            }
        }
    }

    /// Whether a source is rendered.
    pub open spec fn is_template(self, relative: Seq<char>) -> bool {
        if self.kind == "template"@ {
            true
        } else if self.kind == "file"@ {
            false
        } else {
            ".tmpl"@.is_suffix_of(relative) || (!self.set && !self.plain)
        }
    }

    /// The target of a source.
    pub open spec fn target_path(self, relative: Seq<char>) -> Seq<char> {
        let target = self.target(relative)->0;
        if self.is_template(relative) && self.explicit_target is None && ".tmpl"@.is_suffix_of(
            target,
        ) {
            target.take(target.len() - 5)
        } else {
            target
        }
    }

    /// The source as views write it.
    pub open spec fn source(self, relative: Seq<char>) -> Seq<char> {
        shown_path(relative_join(self.base_path, relative))
    }

    /// What is wrong with the target of a source.
    pub open spec fn target_problem(self, relative: Seq<char>) -> Option<Seq<char>> {
        if !self.set && self.explicit_target is Some {
            explicit_target_problem(self.target_path(relative))
        } else if self.explicit_root is Some {
            None
        } else {
            relative_problem(self.target_path(relative), "artifact target path"@)
        }
    }

    /// Whether a hidden source is passed over.
    pub open spec fn passes_over(self, relative: Seq<char>) -> bool {
        any_hidden(pieces(relative, '/')) && !authorized(relative, self.physical)
    }

    /// What becomes of a source.
    pub open spec fn step(self, relative: Seq<char>) -> Step {
        if self.passes_over(relative) {
            Step::Ignored
        } else if self.naming_problem(relative) is Some {
            Step::Refused(self.naming_problem(relative)->0)
        } else if self.target(relative) is None {
            Step::Skipped
        } else if self.target_problem(relative) is Some {
            Step::Refused(self.target_problem(relative)->0)
        } else {
            Step::Made
        }
    }

    /// What is wrong with a source.
    pub open spec fn step_problem(self, relative: Seq<char>) -> Option<Seq<char>> {
        match self.step(relative) {
            Step::Refused(message) => Some(message),
            _ => None,
        }
    }

    /// Whether the origin of an artifact is what it should be.
    pub open spec fn origin_is(self, origin: SourceOrigin, relative: Seq<char>) -> bool {
        if self.set {
            origin matches SourceOrigin::Directory {
                declared,
                expanded,
                root,
                relative: found,
                exclusions,
                allow_empty,
            } && declared@ == self.source_path && expanded@ == self.expanded && root@
                == shown_path(relative_join(self.base_path, self.selection_root)) && found@
                == self.from_root(relative) && views(exclusions@) == self.exclusions
                && allow_empty == self.allow_empty
        } else {
            origin matches SourceOrigin::Direct { declared, expanded } && declared@
                == self.source_path && expanded@ == self.expanded
        }
    }

    /// Whether the target of an artifact is what it should be.
    pub open spec fn target_is(self, target: TargetPath, relative: Seq<char>) -> bool {
        if !self.set && self.explicit_target is Some {
            explicit_target(target, self.target_path(relative))
        } else if self.explicit_root is Some {
            &&& target.path@ == self.target_path(relative)
            &&& target.scope == (self.explicit_root->0).1
            &&& target.origin matches TargetOrigin::DirectoryExplicit { declared, relative: r }
                && declared@ == (self.explicit_root->0).0 && r@ == projected_path(
                self.placed(relative),
            )
        } else {
            inferred_target(target, self.target_path(relative), self.source(relative))
        }
    }

    /// Whether an artifact is what a source should become.
    pub open spec fn artifact_is(
        self,
        artifact: EvaluatedArtifact,
        relative: Seq<char>,
        fingerprint: SourceFingerprint,
    ) -> bool {
        &&& artifact.kind == ArtifactKind::File
        &&& artifact.source@ == self.source(relative)
        &&& self.origin_is(artifact.source_origin, relative)
        &&& artifact.source_projection matches Some(projection)
        &&& projection.physical@ == self.source(relative)
        &&& projection.logical@ == projected_path(relative)
        &&& projection.allocated == allocated_components(pieces(relative, '/'))
        &&& projection.hidden == any_hidden(pieces(relative, '/'))
        &&& crate::model::selection::components_are(
            projection.components@,
            pieces(relative, '/'),
        )
        &&& if self.is_template(relative) {
            artifact.production matches EvaluatedProduction::Template { context } && context.tree()
                == self.context
        } else {
            artifact.production is Static
        }
        &&& self.target_is(artifact.target, relative)
        &&& artifact.fingerprint == Some(fingerprint)
        &&& artifact.owner@ == self.owner
        &&& artifact.declared_at.same(self.trace)
    }
}

/// What a source becomes.
#[derive(Debug, PartialEq)]
pub enum Placement {
    /// Nothing: it is hidden
    Ignored,
    /// Nothing: it has no target
    Skipped,
    /// An artifact
    Made(EvaluatedArtifact),
}

fn beneath_base(base: &Option<String>, projection: &SourceProjection) -> (r: Option<String>)
    ensures
        match *base {
            Some(b) => if projection.allocated {
                r matches Some(t) && t@ == relative_join(b@, projection.logical@)
            } else {
                r is None
            },
            None => r is None,
        },
{
    match base {
        Some(base) => if projection.allocated {
            Some(join_relative(base.as_str(), projection.logical.as_str()))
        } else {
            None
        },
        None => None,
    }
}

/// Places a selected source.
pub fn place_source(scene: &Scene, relative: &str, fingerprint: SourceFingerprint) -> (r: Result<
    Placement,
>)
    ensures
        reports(r, scene@.step_problem(relative@)),
        r matches Ok(Placement::Ignored) ==> scene@.step(relative@) is Ignored,
        r matches Ok(Placement::Skipped) ==> scene@.step(relative@) is Skipped,
        r matches Ok(Placement::Made(artifact)) ==> scene@.step(relative@) is Made
            && scene@.artifact_is(artifact, relative@, fingerprint),
{
    let hidden_authorized = hidden_components_authorized(relative, scene.physical.as_str());
    if holds_hidden(relative) && !hidden_authorized {
        return Ok(Placement::Ignored);
    }
    let mut projection = project_physical(relative, hidden_authorized)?;
    let stripped = match strip_prefix(relative, scene.selection_root.as_str()) {
        Some(rest) => rest,
        None => relative.to_owned(),
    };
    let from_root = trim_leading(stripped.as_str(), '/');
    assert(from_root@ == scene@.from_root(relative@));
    let beneath = if from_root.as_str().is_empty() {
        projection.copy()
    } else {
        project_physical(
            from_root.as_str(),
            hidden_components_authorized(from_root.as_str(), scene.physical.as_str()),
        )?
    };
    assert(beneath.logical@ == projected_path(scene@.placed(relative@)));
    assert(beneath.allocated == allocated_components(pieces(scene@.placed(relative@), '/')));
    let found = if !scene.set {
        match &scene.explicit_target {
            Some(target) => Some(target.clone()),
            None => beneath_base(&scene.base_target, &projection),
        }
    } else {
        match &scene.explicit_root {
            Some(root) => if beneath.allocated {
                Some(join_relative(root.path.as_str(), beneath.logical.as_str()))
            } else {
                None
            },
            None => beneath_base(&scene.base_target, &projection),
        }
    };
    let mut target_path = match found {
        Some(path) => path,
        None => {
            return Ok(Placement::Skipped);
        },
    };
    assert(scene@.target(relative@) == Some(target_path@));
    let template = if same(scene.kind.as_str(), "template") {
        true
    } else if same(scene.kind.as_str(), "file") {
        false
    } else {
        let plain = match &scene.context {
            FrozenValue::Null => true,
            _ => false,
        };
        ends_with(relative, ".tmpl") || (!scene.set && !plain)
    };
    if template && scene.explicit_target.is_none() {
        let ghost whole = target_path@;
        if let Some(shorter) = strip_suffix(target_path.as_str(), ".tmpl") {
            proof {
                reveal_strlit(".tmpl");
                assert(whole.take(whole.len() - 5) =~= shorter@);
            }
            target_path = shorter;
        }
    }
    assert(target_path@ == scene@.target_path(relative@));
    let source = display_path(join_relative(scene.base_path.as_str(), relative).as_str());
    let target = if !scene.set && scene.explicit_target.is_some() {
        parse_explicit_target(target_path.as_str())?
    } else {
        match &scene.explicit_root {
            Some(root) => TargetPath {
                path: target_path,
                scope: root.scope,
                origin: TargetOrigin::DirectoryExplicit {
                    declared: root.path.clone(),
                    relative: beneath.logical.clone(),
                },
            },
            None => infer_target(target_path.as_str(), source.as_str())?,
        }
    };
    let origin = if scene.set {
        let root = join_relative(scene.base_path.as_str(), scene.selection_root.as_str());
        SourceOrigin::Directory {
            declared: scene.source_path.clone(),
            expanded: scene.expanded.clone(),
            root: display_path(root.as_str()),
            relative: from_root,
            exclusions: copy_texts(&scene.exclusions),
            allow_empty: scene.allow_empty,
        }
    } else {
        SourceOrigin::Direct {
            declared: scene.source_path.clone(),
            expanded: scene.expanded.clone(),
        }
    };
    projection.physical = source.clone();
    let production = if template {
        EvaluatedProduction::Template {
            context: match &scene.context {
                FrozenValue::Null => FrozenValue::empty_map(),
                value => value.copy(),
            },
        }
    } else {
        EvaluatedProduction::Static
    };
    Ok(
        Placement::Made(
            EvaluatedArtifact {
                kind: ArtifactKind::File,
                source,
                source_origin: origin,
                source_projection: Some(projection),
                production,
                target,
                fingerprint: Some(fingerprint),
                owner: scene.owner.clone(),
                declared_at: scene.trace.copy(),
            },
        ),
    )
}

/// The directory part of a path.
pub open spec fn parent_path(path: Seq<char>) -> Seq<char> {
    joined(pieces(path, '/').drop_last(), "/"@)
}

fn parent_of(path: &str) -> (r: String)
    ensures
        r@ == parent_path(path@),
{
    let mut parts = split(path, '/');
    let ghost all = parts@;
    parts.pop();
    assert(views(parts@) =~= views(all).drop_last());
    join(&parts, "/")
}

/// What is wrong with the declared kind of production.
pub open spec fn requested_kind_problem(kind: Seq<char>) -> Option<Seq<char>> {
    problem_if(
        kind != "auto"@ && kind != "file"@ && kind != "template"@,
        "unsupported artifact production kind `"@ + kind + "`"@,
    )
}

impl ArtifactDeclaration {
    /// The selector in physical names.
    pub open spec fn physical(self) -> Seq<char> {
        physical_selector(self.source_path@, self.hidden)
    }

    /// Whether the selector is a pattern.
    pub open spec fn glob(self) -> bool {
        crate::model::selection::globbed(self.physical())
    }

    /// What is added to the selector where it means a template.
    pub open spec fn suffix(self, found: SourceObservation) -> Seq<char> {
        if template_meant(self.physical(), self.glob(), found) {
            ".tmpl"@
        } else {
            Seq::empty()
        }
    }

    /// What is wrong with the declaration itself.
    pub open spec fn declared_problem(self) -> Option<Seq<char>> {
        first(
            requested_kind_problem(self.requested_kind@),
            first(
                selector_problem(self.source_path@, self.hidden),
                exclusions_problem(views(self.exclusions@), self.hidden),
            ),
        )
    }

    /// The sources that it selects.
    pub open spec fn sources(self, found: SourceObservation) -> Seq<
        (Seq<char>, SourceFingerprint),
    > {
        selected_sources(self.physical() + self.suffix(found), self.glob(), found)
    }

    /// Everything that decides where these go.
    pub open spec fn scene(
        self,
        modules: ModuleRegistry,
        found: SourceObservation,
        context: JsonTree,
    ) -> SceneView {
        let physical = self.physical() + self.suffix(found);
        SceneView {
            source_path: self.source_path@,
            expanded: crate::model::selection::expanded_selector(self.source_path@) + self.suffix(
                found,
            ),
            physical,
            set: self.glob() || found.directory,
            selection_root: if self.glob() {
                without_trailing(crate::model::selection::static_part(self.physical()), '/')
            } else if found.directory {
                physical
            } else {
                parent_path(physical)
            },
            kind: self.requested_kind@,
            explicit_target: text_view(self.explicit_target),
            explicit_root: match self.explicit_target {
                Some(target) => Some((target@, declared_scope(target@))),
                None => None,
            },
            base_path: modules.base_path(),
            base_target: modules.base_target(),
            plain: context == JsonTree::Null,
            context: if context == JsonTree::Null {
                object_tree(Seq::empty())
            } else {
                context
            },
            exclusions: views(self.exclusions@),
            allow_empty: self.allow_empty,
            owner: modules.owner(),
            trace: self.location.trace,
        }
    }
}

/// The sources without a target.
pub open spec fn skipped_sources(
    scene: SceneView,
    sources: Seq<(Seq<char>, SourceFingerprint)>,
) -> Seq<Seq<char>>
    decreases sources.len(),
{
    if sources.len() == 0 {
        Seq::empty()
    } else {
        let rest = skipped_sources(scene, sources.drop_last());
        if scene.step(sources.last().0) is Skipped {
            rest.push(sources.last().0)
        } else {
            rest
        }
    }
}

/// The sources that become artifacts.
pub open spec fn made_sources(
    scene: SceneView,
    sources: Seq<(Seq<char>, SourceFingerprint)>,
) -> Seq<(Seq<char>, SourceFingerprint)>
    decreases sources.len(),
{
    if sources.len() == 0 {
        Seq::empty()
    } else {
        let rest = made_sources(scene, sources.drop_last());
        if scene.step(sources.last().0) is Made {
            rest.push(sources.last())
        } else {
            rest
        }
    }
}

/// The first source that is an error.
pub open spec fn sources_problem(
    scene: SceneView,
    sources: Seq<(Seq<char>, SourceFingerprint)>,
) -> Option<Seq<char>>
    decreases sources.len(),
{
    if sources.len() == 0 {
        None
    } else {
        first(
            sources_problem(scene, sources.drop_last()),
            scene.step_problem(sources.last().0),
        )
    }
}

proof fn lemma_sources_problem(
    scene: SceneView,
    sources: Seq<(Seq<char>, SourceFingerprint)>,
    count: int,
)
    requires
        0 <= count <= sources.len(),
    ensures
        sources_problem(scene, sources.take(count)) is Some ==> sources_problem(scene, sources)
            == sources_problem(scene, sources.take(count)),
    decreases sources.len() - count,
{
    if count < sources.len() {
        lemma_sources_problem(scene, sources, count + 1);
        assert(sources.take(count + 1).drop_last() =~= sources.take(count));
    } else {
        assert(sources.take(count) =~= sources);
    }
}

/// The sources before the first that is an error.
pub open spec fn placed_front(
    scene: SceneView,
    sources: Seq<(Seq<char>, SourceFingerprint)>,
) -> Seq<(Seq<char>, SourceFingerprint)>
    decreases sources.len(),
{
    if sources.len() == 0 || sources_problem(scene, sources) is None {
        sources
    } else {
        placed_front(scene, sources.drop_last())
    }
}

proof fn lemma_placed_front(
    scene: SceneView,
    sources: Seq<(Seq<char>, SourceFingerprint)>,
    count: int,
    total: int,
)
    requires
        0 <= count < total <= sources.len(),
        sources_problem(scene, sources.take(count)) is None,
        sources_problem(scene, sources.take(count + 1)) is Some,
    ensures
        placed_front(scene, sources.take(total)) == sources.take(count),
    decreases total,
{
    assert(sources.take(total).take(count + 1) =~= sources.take(count + 1));
    lemma_sources_problem(scene, sources.take(total), count + 1);
    assert(sources.take(total).drop_last() =~= sources.take(total - 1));
    if count + 1 < total {
        lemma_placed_front(scene, sources, count, total - 1);
    } else {
        assert(placed_front(scene, sources.take(count)) == sources.take(count));
    }
}

/// What is wrong with sources that have no target.
pub open spec fn unallocated_problem(
    scene: SceneView,
    policy: UnallocatedPolicy,
    skipped: Seq<Seq<char>>,
) -> Option<Seq<char>> {
    if skipped.len() == 0 {
        None
    } else if !scene.set {
        Some(
            "unallocated artifact source `"@ + scene.source_path + "` requires an explicit `to`"@,
        )
    } else {
        problem_if(
            policy == UnallocatedPolicy::Error,
            "artifact selector `"@ + scene.source_path
                + "` contains unallocated children without an explicit `to`"@,
        )
    }
}

/// What is wrong with a set that becomes no artifact.
pub open spec fn nothing_made_problem(scene: SceneView, made: nat) -> Option<Seq<char>> {
    problem_if(
        scene.set && made == 0 && !scene.allow_empty,
        "artifact selector `"@ + scene.source_path
            + "` produced no allocated files after exclusions and source policy; set `allow_empty = true` if this is intentional"@,
    )
}

/// What is wrong with the target root of a set.
pub open spec fn set_root_problem(scene: SceneView) -> Option<Seq<char>> {
    if scene.set && scene.explicit_root is None && scene.base_target is Some {
        root_problem(scene.base_target->0, "directory target path"@)
    } else {
        None
    }
}

/// What is wrong with placing the selected sources.
pub open spec fn placing_problem(
    scene: SceneView,
    policy: UnallocatedPolicy,
    sources: Seq<(Seq<char>, SourceFingerprint)>,
) -> Option<Seq<char>> {
    first(
        sources_problem(scene, sources),
        first(
            unallocated_problem(scene, policy, skipped_sources(scene, sources)),
            first(
                nothing_made_problem(scene, made_sources(scene, sources).len()),
                set_root_problem(scene),
            ),
        ),
    )
}

/// Whether artifacts are what the sources should become.
pub open spec fn artifacts_are(
    artifacts: Seq<EvaluatedArtifact>,
    scene: SceneView,
    made: Seq<(Seq<char>, SourceFingerprint)>,
) -> bool {
    &&& artifacts.len() == made.len()
    &&& forall|i: int|
        0 <= i < made.len() ==> scene.artifact_is(#[trigger] artifacts[i], made[i].0, made[i].1)
}

/// The paths of sources.
pub open spec fn source_paths(sources: Seq<(Seq<char>, SourceFingerprint)>) -> Seq<Seq<char>> {
    sources.map_values(|s: (Seq<char>, SourceFingerprint)| s.0)
}

/// Whether artifacts have grown by what sources should become.
pub open spec fn artifacts_grown(
    before: Seq<EvaluatedArtifact>,
    after: Seq<EvaluatedArtifact>,
    scene: SceneView,
    made: Seq<(Seq<char>, SourceFingerprint)>,
) -> bool {
    &&& after.len() == before.len() + made.len()
    &&& after.take(before.len() as int) == before
    &&& artifacts_are(after.skip(before.len() as int), scene, made)
}

proof fn lemma_artifacts_grown(
    before: Seq<EvaluatedArtifact>,
    after: Seq<EvaluatedArtifact>,
    scene: SceneView,
    made: Seq<(Seq<char>, SourceFingerprint)>,
    artifact: EvaluatedArtifact,
    source: (Seq<char>, SourceFingerprint),
)
    requires
        artifacts_grown(before, after, scene, made),
        scene.artifact_is(artifact, source.0, source.1),
    ensures
        artifacts_grown(before, after.push(artifact), scene, made.push(source)),
{
    let grown = after.push(artifact);
    assert(grown.take(before.len() as int) =~= after.take(before.len() as int));
    let added = grown.skip(before.len() as int);
    assert(added =~= after.skip(before.len() as int).push(artifact));
    assert forall|k: int| 0 <= k < made.len() + 1 implies scene.artifact_is(
        #[trigger] added[k],
        made.push(source)[k].0,
        made.push(source)[k].1,
    ) by {
        if k < made.len() {
            assert(added[k] == after.skip(before.len() as int)[k]);
        }
    }
}

/// Which of the selected sources became artifacts and which have no target.
#[derive(Debug, PartialEq)]
pub struct Placed {
    /// The sources that artifacts were made from
    pub matched: Vec<String>,
    /// The sources without a target
    pub skipped: Vec<String>,
}

/// Places the selected sources, one after the other, up to the first that is an error.
pub fn place_sources(
    scene: &Scene,
    sources: &Vec<(String, SourceFingerprint)>,
    artifacts: &mut Vec<EvaluatedArtifact>,
) -> (r: Result<Placed>)
    ensures
        reports(r, sources_problem(scene@, source_views(sources@))),
        artifacts_grown(
            old(artifacts)@,
            final(artifacts)@,
            scene@,
            made_sources(scene@, placed_front(scene@, source_views(sources@))),
        ),
        r matches Ok(placed) ==> {
            &&& views(placed.matched@) == source_paths(
                made_sources(scene@, source_views(sources@)),
            )
            &&& views(placed.skipped@) == skipped_sources(scene@, source_views(sources@))
        },
{
    let ghost all = source_views(sources@);
    let ghost start = artifacts@;
    let mut matched: Vec<String> = Vec::new();
    let mut skipped: Vec<String> = Vec::new();
    let mut i: usize = 0;
    assert(all.take(0) =~= Seq::empty());
    assert(views(matched@) =~= source_paths(made_sources(scene@, all.take(0))));
    assert(views(skipped@) =~= skipped_sources(scene@, all.take(0)));
    assert(start.take(start.len() as int) =~= start);
    while i < sources.len()
        invariant
            0 <= i <= sources@.len(),
            start == old(artifacts)@,
            all == source_views(sources@),
            sources_problem(scene@, all.take(i as int)) is None,
            artifacts_grown(start, artifacts@, scene@, made_sources(scene@, all.take(i as int))),
            views(matched@) == source_paths(made_sources(scene@, all.take(i as int))),
            views(skipped@) == skipped_sources(scene@, all.take(i as int)),
        decreases sources@.len() - i,
    {
        proof {
            assert(all.take(i + 1).drop_last() =~= all.take(i as int));
            assert(all.take(i + 1).last() == all[i as int]);
            lemma_sources_problem(scene@, all, i + 1);
            if sources_problem(scene@, all.take(i + 1)) is Some {
                assert(all.take(all.len() as int) =~= all);
                lemma_placed_front(scene@, all, i as int, all.len() as int);
            }
        }
        let ghost relative = sources@[i as int].0@;
        let ghost before = made_sources(scene@, all.take(i as int));
        match place_source(scene, sources[i].0.as_str(), sources[i].1)? {
            Placement::Ignored => {},
            Placement::Skipped => {
                let ghost held = skipped@;
                skipped.push(sources[i].0.clone());
                assert(views(skipped@) =~= views(held).push(relative));
            },
            Placement::Made(artifact) => {
                let ghost held = matched@;
                matched.push(sources[i].0.clone());
                proof {
                    assert(views(matched@) =~= views(held).push(relative));
                    let grown = before.push(all[i as int]);
                    assert(source_paths(grown) =~= source_paths(before).push(relative));
                    lemma_artifacts_grown(
                        start,
                        artifacts@,
                        scene@,
                        before,
                        artifact,
                        all[i as int],
                    );
                }
                artifacts.push(artifact);
            },
        }
        i += 1;
    }
    assert(all.take(i as int) =~= all);
    Ok(Placed { matched, skipped })
}

fn check_unallocated(scene: &Scene, policy: UnallocatedPolicy, skipped: &Vec<String>) -> (r: Result<
    (),
>)
    ensures
        reports(r, unallocated_problem(scene@, policy, views(skipped@))),
{
    assert(skipped@.len() == views(skipped@).len());
    if skipped.len() > 0 {
        if !scene.set {
            return Err(
                WombatError::Configuration(
                    cat3(
                        "unallocated artifact source `",
                        scene.source_path.as_str(),
                        "` requires an explicit `to`",
                    ),
                ),
            );
        }
        if policy == UnallocatedPolicy::Error {
            return Err(
                WombatError::Configuration(
                    cat3(
                        "artifact selector `",
                        scene.source_path.as_str(),
                        "` contains unallocated children without an explicit `to`",
                    ),
                ),
            );
        }
    }
    Ok(())
}

fn check_made(scene: &Scene, made: usize) -> (r: Result<()>)
    ensures
        reports(r, nothing_made_problem(scene@, made as nat)),
{
    if scene.set && made == 0 && !scene.allow_empty {
        return Err(
            WombatError::Configuration(
                cat3(
                    "artifact selector `",
                    scene.source_path.as_str(),
                    "` produced no allocated files after exclusions and source policy; set `allow_empty = true` if this is intentional",
                ),
            ),
        );
    }
    Ok(())
}

/// What is wrong with the context of templates.
pub open spec fn context_problem(frozen: Frozen) -> Option<Problem> {
    match frozen {
        Frozen::Value(tree) => configured(
            problem_if(
                !(tree is Null) && !(tree is Object),
                "template `with` context must be a string-keyed map"@,
            ),
        ),
        Frozen::Refused(problem) => freezing_problem(frozen),
    }
}

/// What is wrong with a declared installation.
pub open spec fn registration_problem(
    modules: ModuleRegistry,
    policy: UnallocatedPolicy,
    declaration: ArtifactDeclaration,
    frozen: Frozen,
    found: SourceObservation,
) -> Option<Problem> {
    either(
        configured(declaration.declared_problem()),
        either(
            preparing_problem(modules.base_path(), declaration, frozen, found),
            configured(
                placing_problem(
                    declaration.scene(modules, found, frozen->Value_0),
                    policy,
                    declaration.sources(found),
                ),
            ),
        ),
    )
}

/// Whether a notice tells of the sources without a target.
pub open spec fn notice_is(
    notice: ArtifactNotice,
    scene: SceneView,
    skipped: Seq<Seq<char>>,
) -> bool {
    &&& notice.kind == ArtifactNoticeKind::UnallocatedSkipped
    &&& notice.owner@ == scene.owner
    &&& notice.selector@ == scene.source_path
    &&& views(notice.skipped@) == skipped
    &&& notice.declared_at.same(scene.trace)
}

/// Whether a selection records what was selected.
pub open spec fn selection_is(
    selection: ArtifactSelection,
    modules: ModuleRegistry,
    declaration: ArtifactDeclaration,
    scene: SceneView,
    kind: ArtifactSelectionKind,
    matched: Seq<Seq<char>>,
    skipped: Seq<Seq<char>>,
) -> bool {
    &&& selection.owner@ == scene.owner
    &&& selection.declared@ == scene.source_path
    &&& selection.expanded@ == scene.expanded
    &&& selection.physical@ == scene.physical
    &&& selection.source_base@ == shown_path(scene.base_path)
    &&& selection.source_base_logical@ == modules.base_logical()
    &&& text_view(selection.source_base_target) == scene.base_target
    &&& selection.source_base_hidden == modules.base_hidden()
    &&& selection.hidden == declaration.hidden
    &&& selection.kind == kind
    &&& selection.static_root@ == crate::model::selection::static_part(declaration.physical())
    &&& views(selection.exclusions@) == scene.exclusions
    &&& selection.allow_empty == scene.allow_empty
    &&& text_view(selection.explicit_target) == scene.explicit_target
    &&& views(selection.matches@) == matched
    &&& views(selection.skipped_unallocated@) == skipped
    &&& selection.declared_at.same(scene.trace)
}

/// Whether a directory records what was searched.
pub open spec fn directory_is(
    directory: EvaluatedDirectory,
    declaration: ArtifactDeclaration,
    scene: SceneView,
    found: SourceObservation,
) -> bool {
    &&& directory.declared_source@ == scene.source_path
    &&& directory.root@ == shown_path(
        if declaration.glob() || scene.physical == "."@ {
            scene.base_path
        } else {
            relative_join(scene.base_path, scene.physical)
        },
    )
    &&& directory.physical_selector@ == scene.physical
    &&& directory.static_root@ == crate::model::selection::static_part(declaration.physical())
    &&& directory.hidden == declaration.hidden
    &&& directory.glob == declaration.glob()
    &&& views(directory.exclusions@) == scene.exclusions
    &&& match scene.explicit_root {
        Some(root) => directory.target_root is Some && explicit_root(
            directory.target_root->0,
            root.0,
            root.1,
        ),
        None => match scene.base_target {
            Some(target) => directory.target_root is Some && inferred_root(
                directory.target_root->0,
                target,
                "selector:"@ + scene.source_path,
            ),
            None => directory.target_root is None,
        },
    }
    &&& directory.owner@ == scene.owner
    &&& directory.declared_at.same(scene.trace)
    &&& directory.snapshot@ == found.leaves@
}

/// Whether the artifacts have grown by what a declaration selects. What was recorded
/// before an error stays: artifacts up to the faulty source, the notice of sources
/// without a target, and the selection.
pub open spec fn registry_grown(
    before: ArtifactRegistry,
    after: ArtifactRegistry,
    modules: ModuleRegistry,
    declaration: ArtifactDeclaration,
    context: JsonTree,
    found: SourceObservation,
) -> bool {
    let scene = declaration.scene(modules, found, context);
    let sources = declaration.sources(found);
    let made = made_sources(scene, sources);
    let skipped = skipped_sources(scene, sources);
    let placed = sources_problem(scene, sources) is None && unallocated_problem(
        scene,
        before.policy.unallocated,
        skipped,
    ) is None;
    let chosen = placed && nothing_made_problem(scene, made.len()) is None;
    &&& after.policy == before.policy
    &&& artifacts_grown(
        before.artifacts@,
        after.artifacts@,
        scene,
        made_sources(scene, placed_front(scene, sources)),
    )
    &&& if placed && skipped.len() > 0 && before.policy.unallocated == UnallocatedPolicy::Warn {
        &&& after.notices@.len() == before.notices@.len() + 1
        &&& after.notices@.drop_last() == before.notices@
        &&& notice_is(after.notices@.last(), scene, skipped)
    } else {
        after.notices@ == before.notices@
    }
    &&& if chosen {
        &&& after.selections@.len() == before.selections@.len() + 1
        &&& after.selections@.drop_last() == before.selections@
        &&& selection_is(
            after.selections@.last(),
            modules,
            declaration,
            scene,
            kind_of_selection(declaration.glob(), found.directory),
            source_paths(made),
            skipped,
        )
    } else {
        after.selections@ == before.selections@
    }
    &&& if chosen && scene.set && set_root_problem(scene) is None {
        &&& after.directories@.len() == before.directories@.len() + 1
        &&& after.directories@.drop_last() == before.directories@
        &&& directory_is(after.directories@.last(), declaration, scene, found)
    } else {
        after.directories@ == before.directories@
    }
}

/// Compiles the selectors of a declaration.
fn compile_declaration(declaration: &ArtifactDeclaration) -> (r: Result<CompiledSelector>)
    ensures
        reports(r, declaration.declared_problem()),
        r matches Ok(selector) ==> selector_is(
            selector,
            declaration.source_path@,
            declaration.hidden,
        ),
{
    let kind = declaration.requested_kind.as_str();
    if !same(kind, "auto") && !same(kind, "file") && !same(kind, "template") {
        return Err(
            WombatError::Configuration(
                cat3("unsupported artifact production kind `", kind, "`"),
            ),
        );
    }
    let compiled = compile_selector(declaration.source_path.as_str(), declaration.hidden)?;
    compile_exclusions(&declaration.exclusions, declaration.hidden)?;
    Ok(compiled)
}

/// A declaration with everything that decides where its sources go.
struct Prepared {
    scene: Scene,
    sources: Vec<(String, SourceFingerprint)>,
    kind: ArtifactSelectionKind,
    static_root: String,
    hidden: bool,
    glob: bool,
}

/// What is wrong with a declaration before its sources are placed.
pub open spec fn preparing_problem(
    base: Seq<char>,
    declaration: ArtifactDeclaration,
    frozen: Frozen,
    found: SourceObservation,
) -> Option<Problem> {
    let physical = declaration.physical();
    let glob = declaration.glob();
    either(
        configured(
            pointing_problem(
                declaration.source_path@,
                declaration.requested_kind@,
                base,
                physical,
                glob,
                found,
            ),
        ),
        either(
            gathering_problem(
                declaration.source_path@,
                physical + declaration.suffix(found),
                glob,
                declaration.exclusions@.len() > 0,
                declaration.allow_empty,
                template_meant(physical, glob, found),
                found,
            ),
            either(
                context_problem(frozen),
                match declaration.explicit_target {
                    Some(target) => configured(install_root_problem(target@)),
                    None => None,
                },
            ),
        ),
    )
}

fn prepare(
    base: &SourceBase,
    owner: String,
    declaration: ArtifactDeclaration,
    compiled: CompiledSelector,
    heap: &LuaHeap,
    context: &LuaValue,
    found: &SourceObservation,
    modules: Ghost<ModuleRegistry>,
) -> (r: Result<Prepared>)
    requires
        selector_is(compiled, declaration.source_path@, declaration.hidden),
        base.path@ == modules@.base_path(),
        text_view(base.target) == modules@.base_target(),
        owner@ == modules@.owner(),
    ensures
        settles(
            r,
            preparing_problem(base.path@, declaration, thawed_as(*heap, *context), *found),
        ),
        r matches Ok(p) ==> {
            &&& p.scene@ == declaration.scene(
                modules@,
                *found,
                thawed_as(*heap, *context)->Value_0,
            )
            &&& p.scene.explicit_root matches Some(root) ==> explicit_root(
                root,
                root.path@,
                root.scope,
            )
            &&& source_views(p.sources@) == declaration.sources(*found)
            &&& p.kind == kind_of_selection(declaration.glob(), found.directory)
            &&& p.static_root@ == crate::model::selection::static_part(declaration.physical())
            &&& p.hidden == declaration.hidden
            &&& p.glob == declaration.glob()
        },
{
    let template = !compiled.glob && !ends_with(compiled.physical.as_str(), ".tmpl")
        && found.exact == EntryKind::Missing && found.template == EntryKind::File;
    let selector = follow_selector(
        compiled,
        declaration.requested_kind.as_str(),
        base.path.as_str(),
        found,
    )?;
    assert(selector.physical@ == declaration.physical() + declaration.suffix(*found));
    let glob = selector.glob;
    let set = glob || found.directory;
    let sources = gather_sources(
        declaration.source_path.as_str(),
        selector.physical.as_str(),
        glob,
        declaration.exclusions.len() > 0,
        declaration.allow_empty,
        template,
        found,
    )?;
    let frozen = FrozenValue::from_lua(heap, context)?;
    let shaped = match &frozen {
        FrozenValue::Null => true,
        FrozenValue::Table(_) => true,
        _ => false,
    };
    if !shaped {
        return Err(
            WombatError::configuration("template `with` context must be a string-keyed map"),
        );
    }
    let root = match &declaration.explicit_target {
        Some(target) => Some(parse_install_target_root(target.as_str())?),
        None => None,
    };
    let selection_root = if glob {
        trim_trailing(selector.static_root.as_str(), '/')
    } else if set {
        selector.physical.clone()
    } else {
        parent_of(selector.physical.as_str())
    };
    let kind = if glob {
        ArtifactSelectionKind::Glob
    } else if set {
        ArtifactSelectionKind::Directory
    } else {
        ArtifactSelectionKind::Exact
    };
    let hidden = declaration.hidden;
    let scene = Scene {
        source_path: declaration.source_path,
        expanded: selector.expanded,
        physical: selector.physical,
        set,
        selection_root,
        kind: declaration.requested_kind,
        explicit_target: declaration.explicit_target,
        explicit_root: root,
        base_path: base.path.clone(),
        base_target: copy_text(&base.target),
        context: frozen,
        exclusions: declaration.exclusions,
        allow_empty: declaration.allow_empty,
        owner,
        trace: declaration.location.trace,
    };
    Ok(Prepared { scene, sources, kind, static_root: selector.static_root, hidden, glob })
}

/// The directory that the targets of a set are placed beneath.
fn set_target_root(scene: &Scene) -> (r: Result<Option<EvaluatedTargetRoot>>)
    requires
        scene.explicit_root matches Some(root) ==> explicit_root(root, root.path@, root.scope),
    ensures
        reports(r, set_root_problem(scene@)),
        r matches Ok(found) ==> if scene.set {
            match scene@.explicit_root {
                Some(root) => found is Some && explicit_root(found->0, root.0, root.1),
                None => match scene@.base_target {
                    Some(target) => found is Some && inferred_root(
                        found->0,
                        target,
                        "selector:"@ + scene.source_path@,
                    ),
                    None => found is None,
                },
            }
        } else {
            found is None
        },
{
    if !scene.set {
        return Ok(None);
    }
    match &scene.explicit_root {
        Some(root) => Ok(Some(root.copy())),
        None => match &scene.base_target {
            Some(target) => Ok(
                Some(
                    infer_target_root(
                        target.as_str(),
                        cat2("selector:", scene.source_path.as_str()).as_str(),
                    )?,
                ),
            ),
            None => Ok(None),
        },
    }
}

/// Registers the artifacts of a declared installation, given what stands where
/// its selector points. Sources without a target are passed over, told of or
/// refused as the policy says; a named file without one is always refused.
pub fn register_artifact(
    modules: &mut ModuleRegistry,
    registry: &mut ArtifactRegistry,
    declaration: ArtifactDeclaration,
    heap: &LuaHeap,
    context: &LuaValue,
    found: SourceObservation,
) -> (r: Result<()>)
    requires
        old(modules).wf(),
    ensures
        settles(
            r,
            registration_problem(
                *old(modules),
                old(registry).policy.unallocated,
                declaration,
                thawed_as(*heap, *context),
                found,
            ),
        ),
        if declaration.declared_problem() is Some || preparing_problem(
            old(modules).base_path(),
            declaration,
            thawed_as(*heap, *context),
            found,
        ) is Some {
            *final(registry) == *old(registry)
        } else {
            registry_grown(
                *old(registry),
                *final(registry),
                *old(modules),
                declaration,
                thawed_as(*heap, *context)->Value_0,
                found,
            )
        },
        final(modules).wf(),
        final(modules).stack == old(modules).stack,
        final(modules).dependencies == old(modules).dependencies,
        final(modules).root_policy_started == old(modules).root_policy_started,
        final(modules).records@ == if declaration.declared_problem() is None {
            old(modules).started_records()
        } else {
            old(modules).records@
        },
{
    let ghost start = *modules;
    let ghost before = *registry;
    let compiled = compile_declaration(&declaration)?;
    let base = modules.active_location();
    let owner = modules.current_owner();
    modules.mark_started();
    let prepared = prepare(
        &base,
        owner,
        declaration,
        compiled,
        heap,
        context,
        &found,
        Ghost(start),
    )?;
    let scene = prepared.scene;
    let placed = place_sources(&scene, &prepared.sources, &mut registry.artifacts)?;
    check_unallocated(&scene, registry.policy.unallocated, &placed.skipped)?;
    assert(placed.skipped@.len() == views(placed.skipped@).len());
    if placed.skipped.len() > 0 && registry.policy.unallocated == UnallocatedPolicy::Warn {
        registry.notices.push(
            ArtifactNotice {
                kind: ArtifactNoticeKind::UnallocatedSkipped,
                owner: scene.owner.clone(),
                selector: scene.source_path.clone(),
                skipped: copy_texts(&placed.skipped),
                declared_at: scene.trace.copy(),
            },
        );
        assert(registry.notices@.drop_last() =~= before.notices@);
    }
    assert(placed.matched@.len() == views(placed.matched@).len());
    check_made(&scene, placed.matched.len())?;
    registry.selections.push(
        ArtifactSelection {
            owner: scene.owner.clone(),
            declared: scene.source_path.clone(),
            expanded: scene.expanded.clone(),
            physical: scene.physical.clone(),
            source_base: display_path(scene.base_path.as_str()),
            source_base_logical: base.logical,
            source_base_target: copy_text(&scene.base_target),
            source_base_hidden: base.hidden,
            hidden: prepared.hidden,
            kind: prepared.kind,
            static_root: prepared.static_root.clone(),
            exclusions: copy_texts(&scene.exclusions),
            allow_empty: scene.allow_empty,
            explicit_target: copy_text(&scene.explicit_target),
            matches: placed.matched,
            skipped_unallocated: placed.skipped,
            declared_at: scene.trace.copy(),
        },
    );
    assert(registry.selections@.drop_last() =~= before.selections@);
    let target_root = set_target_root(&scene)?;
    if scene.set {
        let searched = if prepared.glob || same(scene.physical.as_str(), ".") {
            scene.base_path.clone()
        } else {
            join_relative(scene.base_path.as_str(), scene.physical.as_str())
        };
        registry.directories.push(
            EvaluatedDirectory {
                declared_source: scene.source_path.clone(),
                root: display_path(searched.as_str()),
                physical_selector: scene.physical.clone(),
                static_root: prepared.static_root,
                hidden: prepared.hidden,
                glob: prepared.glob,
                exclusions: copy_texts(&scene.exclusions),
                target_root,
                owner: scene.owner.clone(),
                declared_at: scene.trace.copy(),
                snapshot: found.leaves,
            },
        );
        assert(registry.directories@.drop_last() =~= before.directories@);
    }
    Ok(())
}

/// An artifact whose target is relative to the deployment root stays beneath it: its
/// target is a relative path that neither climbs nor holds an empty component, whatever
/// the sources are called and whatever target was declared.
pub proof fn law_artifacts_stay_beneath_the_deployment_root(
    modules: ModuleRegistry,
    declaration: ArtifactDeclaration,
    frozen: Frozen,
    found: SourceObservation,
    artifact: EvaluatedArtifact,
    relative: Seq<char>,
    fingerprint: SourceFingerprint,
)
    requires
        preparing_problem(modules.base_path(), declaration, frozen, found) is None,
        ({
            let scene = declaration.scene(modules, found, frozen->Value_0);
            &&& scene.step(relative) is Made
            &&& scene.artifact_is(artifact, relative, fingerprint)
        }),
        artifact.target.scope == TargetScope::DeploymentRoot,
    ensures
        valid_relative(artifact.target.path@),
{
    let scene = declaration.scene(modules, found, frozen->Value_0);
    if scene.set && scene.explicit_root is Some {
        let root = (scene.explicit_root->0).0;
        let placed = scene.placed(relative);
        law_projected_paths_are_valid(placed, authorized(placed, scene.physical));
        if root.len() > 0 {
            law_joined_paths_stay_valid(root, projected_path(placed));
        }
    }
}

} // verus!
