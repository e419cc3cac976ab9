//! What installing promises of the files that it selects.
use vstd::prelude::*;
use vstd::string::*;

use crate::glob::any_matches;
use crate::json::{object_tree, JsonTree};
use crate::lua::artifacts::{
    artifacts_grown, leaf_path, made_sources, matching_leaves, placed_front, registry_grown,
    shown_path, skipped_sources, sources_problem, ArtifactDeclaration, SceneView, SourceObservation,
};
use crate::lua::state::{ArtifactRegistry, ModuleRegistry};
use crate::model::manifest::{
    ArtifactNoticeKind, EvaluatedArtifact, EvaluatedProduction, TargetOrigin, TargetScope,
    UnallocatedPolicy,
};
use crate::model::path::relative_join;
use crate::model::selection::{
    allocated_components, any_hidden, authorized, hidden_component, metadata, names_entry,
    projected_name, projected_names, projected_path, projection_problem, selector_rules, Metadata,
};
use crate::model::source::{DirectoryLeaf, SourceFingerprint};
use crate::text::{joined, lemma_pieces, pieces, repeated, views};

verus! {

/// Whether text ends in the suffix of templates.
pub open spec fn ends_as_template(path: Seq<char>) -> bool {
    path.len() >= 5 && path[path.len() - 5] == '.' && path[path.len() - 4] == 't' && path[path.len()
        - 3] == 'm' && path[path.len() - 2] == 'p' && path[path.len() - 1] == 'l'
}

/// Whether an artifact is one that a declaration has just brought.
pub open spec fn brought(
    before: ArtifactRegistry,
    after: ArtifactRegistry,
    artifact: EvaluatedArtifact,
) -> bool {
    exists|k: int|
        before.artifacts@.len() <= k < after.artifacts@.len() && artifact
            == #[trigger] after.artifacts@[k]
}

/// How a selected file is produced. Where the kind is left open, every file whose name ends
/// in `.tmpl` is rendered, whether it was selected alone, by a directory or by a pattern;
/// any other is rendered exactly where it was named alone and a context was given. Where
/// the kind is declared, that decides.
pub proof fn law_templates_are_rendered(
    before: ArtifactRegistry,
    after: ArtifactRegistry,
    modules: ModuleRegistry,
    declaration: ArtifactDeclaration,
    context: JsonTree,
    found: SourceObservation,
    artifact: EvaluatedArtifact,
)
    requires
        registry_grown(before, after, modules, declaration, context, found),
        brought(before, after, artifact),
    ensures
        artifact.production is Static || artifact.production is Template,
        artifact.production matches EvaluatedProduction::Template { context: given }
            ==> given.tree() == if context == JsonTree::Null {
            object_tree(Seq::empty())
        } else {
            context
        },
        declaration.requested_kind@ == "template"@ ==> artifact.production is Template,
        declaration.requested_kind@ == "file"@ ==> artifact.production is Static,
        declaration.requested_kind@ == "auto"@ ==> {
            &&& ends_as_template(artifact.source@) ==> artifact.production is Template
            &&& !ends_as_template(artifact.source@) && (found.directory || declaration.glob()
                || context == JsonTree::Null) ==> artifact.production is Static
            &&& !found.directory && !declaration.glob() && context != JsonTree::Null
                ==> artifact.production is Template
        },
{
    let scene = declaration.scene(modules, found, context);
    let relative = lemma_brought(before, after, modules, declaration, context, found, artifact);
    reveal_strlit("template");
    reveal_strlit("file");
    reveal_strlit("auto");
    assert("template"@.len() == 8 && "file"@.len() == 4 && "auto"@.len() == 4);
    assert("file"@[0] == 'f' && "auto"@[0] == 'a');
    lemma_step(scene, relative);
    lemma_shown_suffix(scene.base_path, relative);
    lemma_suffix(relative);
}

/// Where no target was declared, a file goes beneath the target of its base, to the path
/// that it stands for; a file that is rendered and whose name ends in `.tmpl` loses that
/// suffix. Where a directory was declared as the target of a set, each file goes beneath it.
/// Where the target of one file was declared, it is that.
pub proof fn law_files_go_where_they_are_meant(
    before: ArtifactRegistry,
    after: ArtifactRegistry,
    modules: ModuleRegistry,
    declaration: ArtifactDeclaration,
    context: JsonTree,
    found: SourceObservation,
    artifact: EvaluatedArtifact,
)
    requires
        registry_grown(before, after, modules, declaration, context, found),
        brought(before, after, artifact),
    ensures
        artifact.source_projection is Some,
        declaration.explicit_target is None ==> {
            let logical = (artifact.source_projection->0).logical@;
            &&& modules.base_target() is Some
            &&& artifact.target.scope == TargetScope::DeploymentRoot
            &&& ends_as_template(artifact.source@) && artifact.production is Template
                ==> ends_as_template(logical) && artifact.target.path@ == relative_join(
                modules.base_target()->0,
                logical,
            ).take(relative_join(modules.base_target()->0, logical).len() - 5)
            &&& artifact.production is Static ==> artifact.target.path@ == relative_join(
                modules.base_target()->0,
                logical,
            )
        },
        declaration.explicit_target is Some && (found.directory || declaration.glob()) ==> {
            &&& artifact.target.origin matches TargetOrigin::DirectoryExplicit { declared, relative }
            &&& declared@ == (declaration.explicit_target->0)@
            &&& artifact.target.path@ == relative_join(declared@, relative@)
            &&& (artifact.target.scope == TargetScope::Absolute) == (declared@.len() > 0
                && declared@[0] == '/')
        },
        declaration.explicit_target is Some && !found.directory && !declaration.glob()
            ==> artifact.target.path@ == (declaration.explicit_target->0)@,
{
    let scene = declaration.scene(modules, found, context);
    let relative = lemma_brought(before, after, modules, declaration, context, found, artifact);
    lemma_step(scene, relative);
    lemma_shown_suffix(scene.base_path, relative);
    lemma_suffix(relative);
    lemma_projected_suffix(relative, authorized(relative, scene.physical));
    if declaration.explicit_target is None {
        let whole = relative_join(modules.base_target()->0, projected_path(relative));
        lemma_suffix(whole);
        if ends_as_template(relative) {
            lemma_joined_suffix(modules.base_target()->0, projected_path(relative));
        }
    }
}

/// Whether a source was selected by a declaration.
pub open spec fn is_selected(
    declaration: ArtifactDeclaration,
    found: SourceObservation,
    relative: Seq<char>,
) -> bool {
    exists|i: int|
        0 <= i < declaration.sources(found).len() && (#[trigger] declaration.sources(found)[i]).0
            == relative
}

/// No selected file is lost. Where a declaration is accepted, each one is hidden and not
/// named, or becomes an artifact, or has no target and is listed as such; and the listed
/// ones are selected files.
pub proof fn law_no_selected_file_is_lost(
    before: ArtifactRegistry,
    after: ArtifactRegistry,
    modules: ModuleRegistry,
    declaration: ArtifactDeclaration,
    context: JsonTree,
    found: SourceObservation,
    relative: Seq<char>,
)
    requires
        registry_grown(before, after, modules, declaration, context, found),
        after.selections@.len() > before.selections@.len(),
        is_selected(declaration, found, relative),
    ensures
        ({
            let selection = after.selections@.last();
            let hidden = any_hidden(pieces(relative, '/')) && !authorized(
                relative,
                selection.physical@,
            );
            &&& hidden || views(selection.matches@).contains(relative) || views(
                selection.skipped_unallocated@,
            ).contains(relative)
            &&& hidden ==> !views(selection.matches@).contains(relative)
            &&& views(selection.matches@).contains(relative) ==> exists|k: int|
                before.artifacts@.len() <= k < after.artifacts@.len() && (
                #[trigger] after.artifacts@[k]).source@ == shown_path(
                    relative_join(modules.base_path(), relative),
                )
            &&& views(selection.skipped_unallocated@).contains(relative) ==> !hidden
        }),
{
    let scene = declaration.scene(modules, found, context);
    let sources = declaration.sources(found);
    let made = made_sources(scene, sources);
    let skipped = skipped_sources(scene, sources);
    let i = choose|i: int| 0 <= i < sources.len() && (#[trigger] sources[i]).0 == relative;
    lemma_placing(scene, sources);
    lemma_no_refusal(scene, sources);
    lemma_placed(scene, sources, i);
    assert(placed_front(scene, sources) == sources);
    let matched = crate::lua::artifacts::source_paths(made);
    lemma_fate(scene, relative);
    assert(scene.step_problem(sources[i].0) is None);
    if scene.step(relative) is Made {
        let k = choose|k: int| 0 <= k < made.len() && made[k] == sources[i];
        assert(matched[k] == relative);
    }
    if matched.contains(relative) {
        let k = choose|k: int| 0 <= k < matched.len() && matched[k] == relative;
        assert(made[k].0 == relative);
        assert(made_from(scene, sources, made[k]));
        lemma_added(scene, before, after, made, k);
    }
    if skipped.contains(relative) {
        let k = choose|k: int| 0 <= k < skipped.len() && skipped[k] == relative;
        assert(scene.step(skipped[k]) is Skipped);
    }
}

/// What becomes of a file that is no error.
proof fn lemma_fate(scene: SceneView, relative: Seq<char>)
    ensures
        scene.step_problem(relative) is None ==> scene.step(relative) is Ignored || scene.step(
            relative,
        ) is Made || scene.step(relative) is Skipped,
        scene.step(relative) is Ignored <==> any_hidden(pieces(relative, '/')) && !authorized(
            relative,
            scene.physical,
        ),
{
}

proof fn lemma_added(
    scene: SceneView,
    before: ArtifactRegistry,
    after: ArtifactRegistry,
    made: Seq<(Seq<char>, SourceFingerprint)>,
    k: int,
)
    requires
        artifacts_grown(before.artifacts@, after.artifacts@, scene, made),
        0 <= k < made.len(),
    ensures
        before.artifacts@.len() + k < after.artifacts@.len(),
        after.artifacts@[before.artifacts@.len() + k].source@ == shown_path(
            relative_join(scene.base_path, made[k].0),
        ),
{
    let added = after.artifacts@.skip(before.artifacts@.len() as int);
    assert(scene.artifact_is(added[k], made[k].0, made[k].1));
    assert(after.artifacts@[before.artifacts@.len() + k] == added[k]);
}

/// What a selector selects of what was found: a pattern every file beneath its base that
/// one of its rules matches, a directory every file beneath it, and any other the one file.
pub proof fn law_selectors_select_what_they_match(
    declaration: ArtifactDeclaration,
    found: SourceObservation,
    leaf: DirectoryLeaf,
)
    requires
        found.leaves@.contains(leaf),
        names_entry(leaf.relative@),
    ensures
        declaration.glob() ==> (is_selected(declaration, found, leaf.relative@) <==> any_matches(
            selector_rules(declaration.physical()),
            leaf.relative@,
        )),
        !declaration.glob() && found.directory ==> is_selected(
            declaration,
            found,
            leaf_path(declaration.physical() + declaration.suffix(found), leaf.relative@),
        ),
        !declaration.glob() && !found.directory ==> declaration.sources(found).len() == 1,
{
    let sources = declaration.sources(found);
    let physical = declaration.physical();
    let leaves = found.leaves@;
    let at = choose|at: int| 0 <= at < leaves.len() && leaves[at] == leaf;
    if declaration.glob() {
        assert(declaration.suffix(found) =~= Seq::empty());
        assert(physical + declaration.suffix(found) =~= physical);
        lemma_matching(leaves, physical);
        if any_matches(selector_rules(physical), leaf.relative@) {
            assert(matching_leaves(leaves, physical).contains((leaves[at].relative@, leaves[at].fingerprint)));
            let k = choose|k: int|
                0 <= k < sources.len() && sources[k] == (leaves[at].relative@, leaves[at].fingerprint);
            assert(sources[k].0 == leaf.relative@);
        }
        if is_selected(declaration, found, leaf.relative@) {
            let k = choose|k: int|
                0 <= k < sources.len() && (#[trigger] sources[k]).0 == leaf.relative@;
            assert(any_matches(selector_rules(physical), matching_leaves(leaves, physical)[k].0));
        }
    } else if found.directory {
        assert(sources[at].0 == leaf_path(
            physical + declaration.suffix(found),
            leaf.relative@,
        ));
    }
}

/// Files without a target follow the policy: refused where one file was named or the policy
/// says so, told of where it warns, and otherwise passed over in silence.
pub proof fn law_files_without_a_target_follow_the_policy(
    before: ArtifactRegistry,
    after: ArtifactRegistry,
    modules: ModuleRegistry,
    declaration: ArtifactDeclaration,
    context: JsonTree,
    found: SourceObservation,
)
    requires
        registry_grown(before, after, modules, declaration, context, found),
        after.selections@.len() > before.selections@.len(),
    ensures
        ({
            let skipped = views(after.selections@.last().skipped_unallocated@);
            &&& skipped.len() > 0 ==> (declaration.glob() || found.directory)
                && before.policy.unallocated != UnallocatedPolicy::Error
            &&& skipped.len() > 0 && before.policy.unallocated == UnallocatedPolicy::Warn ==> {
                &&& after.notices@.len() == before.notices@.len() + 1
                &&& after.notices@.last().kind == ArtifactNoticeKind::UnallocatedSkipped
                &&& views(after.notices@.last().skipped@) == skipped
            }
            &&& skipped.len() == 0 || before.policy.unallocated == UnallocatedPolicy::Ignore
                ==> after.notices@ == before.notices@
            &&& after.policy == before.policy
        }),
{
}

/// A file becomes an artifact without a declared target only where no part of its path is
/// marked as having none, and goes without one only where some part is or its base has none.
pub proof fn law_marked_files_have_no_target(
    scene: SceneView,
    relative: Seq<char>,
)
    requires
        scene.explicit_target is None,
        scene.explicit_root is None,
        !(scene.step(relative) is Refused),
        !(scene.step(relative) is Ignored),
    ensures
        scene.step(relative) is Made <==> scene.base_target is Some && allocated_components(
            pieces(relative, '/'),
        ),
        scene.step(relative) is Skipped <==> !(scene.step(relative) is Made),
{
}

/// Whether a source is among those selected and becomes an artifact.
pub open spec fn made_from(
    scene: SceneView,
    sources: Seq<(Seq<char>, SourceFingerprint)>,
    source: (Seq<char>, SourceFingerprint),
) -> bool {
    sources.contains(source) && scene.step(source.0) is Made
}

proof fn lemma_brought(
    before: ArtifactRegistry,
    after: ArtifactRegistry,
    modules: ModuleRegistry,
    declaration: ArtifactDeclaration,
    context: JsonTree,
    found: SourceObservation,
    artifact: EvaluatedArtifact,
) -> (relative: Seq<char>)
    requires
        registry_grown(before, after, modules, declaration, context, found),
        brought(before, after, artifact),
    ensures
        ({
            let scene = declaration.scene(modules, found, context);
            &&& scene.step(relative) is Made
            &&& exists|fingerprint: SourceFingerprint| #[trigger]
                scene.artifact_is(artifact, relative, fingerprint)
        }),
{
    let scene = declaration.scene(modules, found, context);
    let sources = placed_front(scene, declaration.sources(found));
    let made = made_sources(scene, sources);
    let k = choose|k: int|
        before.artifacts@.len() <= k < after.artifacts@.len() && artifact
            == #[trigger] after.artifacts@[k];
    let at = k - before.artifacts@.len();
    lemma_placing(scene, sources);
    let added = after.artifacts@.skip(before.artifacts@.len() as int);
    assert(added[at] == artifact);
    assert(scene.artifact_is(added[at], made[at].0, made[at].1));
    assert(made_from(scene, sources, made[at]));
    made[at].0
}

proof fn lemma_placing(scene: SceneView, sources: Seq<(Seq<char>, SourceFingerprint)>)
    ensures
        forall|k: int|
            0 <= k < made_sources(scene, sources).len() ==> #[trigger] made_from(
                scene,
                sources,
                made_sources(scene, sources)[k],
            ),
        forall|k: int|
            0 <= k < skipped_sources(scene, sources).len() ==> #[trigger] scene.step(
                skipped_sources(scene, sources)[k],
            ) is Skipped,
    decreases sources.len(),
{
    if sources.len() > 0 {
        let front = sources.drop_last();
        let made = made_sources(scene, sources);
        let earlier = made_sources(scene, front);
        let skipped = skipped_sources(scene, sources);
        let passed = skipped_sources(scene, front);
        lemma_placing(scene, front);
        assert forall|k: int| 0 <= k < made.len() implies #[trigger] made_from(scene, sources, made[k]) by {
            if k < earlier.len() {
                assert(made_from(scene, front, earlier[k]));
                let i = choose|i: int| 0 <= i < front.len() && front[i] == earlier[k];
                assert(sources[i] == made[k]);
            } else {
                assert(sources[sources.len() - 1] == made[k]);
            }
        }
        assert forall|k: int| 0 <= k < skipped.len() implies #[trigger] scene.step(skipped[k]) is Skipped by {
            if k < passed.len() {
                assert(scene.step(passed[k]) is Skipped);
            }
        }
    }
}

proof fn lemma_placed(scene: SceneView, sources: Seq<(Seq<char>, SourceFingerprint)>, i: int)
    requires
        0 <= i < sources.len(),
    ensures
        scene.step(sources[i].0) is Made ==> made_sources(scene, sources).contains(sources[i]),
        scene.step(sources[i].0) is Skipped ==> skipped_sources(scene, sources).contains(
            sources[i].0,
        ),
    decreases sources.len(),
{
    let front = sources.drop_last();
    let made = made_sources(scene, sources);
    let skipped = skipped_sources(scene, sources);
    if i < front.len() {
        assert(front[i] == sources[i]);
        lemma_placed(scene, front, i);
        let earlier = made_sources(scene, front);
        let passed = skipped_sources(scene, front);
        if scene.step(sources[i].0) is Made {
            let k = choose|k: int| 0 <= k < earlier.len() && earlier[k] == front[i];
            assert(made[k] == sources[i]);
        }
        if scene.step(sources[i].0) is Skipped {
            let k = choose|k: int| 0 <= k < passed.len() && passed[k] == front[i].0;
            assert(skipped[k] == sources[i].0);
        }
    } else {
        if scene.step(sources[i].0) is Made {
            assert(made[made.len() - 1] == sources[i]);
        }
        if scene.step(sources[i].0) is Skipped {
            assert(skipped[skipped.len() - 1] == sources[i].0);
        }
    }
}

proof fn lemma_no_refusal(scene: SceneView, sources: Seq<(Seq<char>, SourceFingerprint)>)
    requires
        sources_problem(scene, sources) is None,
    ensures
        forall|i: int|
            0 <= i < sources.len() ==> scene.step_problem((#[trigger] sources[i]).0) is None,
    decreases sources.len(),
{
    if sources.len() > 0 {
        let front = sources.drop_last();
        lemma_no_refusal(scene, front);
        assert forall|i: int| 0 <= i < sources.len() implies scene.step_problem(
            (#[trigger] sources[i]).0,
        ) is None by {
            if i < front.len() {
                assert(front[i] == sources[i]);
            }
        }
    }
}

proof fn lemma_matching(leaves: Seq<DirectoryLeaf>, physical: Seq<char>)
    ensures
        forall|i: int|
            0 <= i < leaves.len() && names_entry((#[trigger] leaves[i]).relative@) && any_matches(
                selector_rules(physical),
                leaves[i].relative@,
            ) ==> matching_leaves(leaves, physical).contains(
                (leaves[i].relative@, leaves[i].fingerprint),
            ),
        forall|k: int|
            0 <= k < matching_leaves(leaves, physical).len() ==> any_matches(
                selector_rules(physical),
                (#[trigger] matching_leaves(leaves, physical)[k]).0,
            ),
    decreases leaves.len(),
{
    if leaves.len() > 0 {
        let front = leaves.drop_last();
        let rest = matching_leaves(front, physical);
        let all = matching_leaves(leaves, physical);
        lemma_matching(front, physical);
        assert forall|i: int|
            0 <= i < leaves.len() && names_entry((#[trigger] leaves[i]).relative@) && any_matches(
                selector_rules(physical),
                leaves[i].relative@,
            ) implies all.contains((leaves[i].relative@, leaves[i].fingerprint)) by {
            if i < front.len() {
                assert(front[i] == leaves[i]);
                let k = choose|k: int|
                    0 <= k < rest.len() && rest[k] == (front[i].relative@, front[i].fingerprint);
                assert(all[k] == rest[k]);
            } else {
                assert(all[all.len() - 1] == (leaves[i].relative@, leaves[i].fingerprint));
            }
        }
        assert forall|k: int| 0 <= k < all.len() implies any_matches(
            selector_rules(physical),
            (#[trigger] all[k]).0,
        ) by {
            if k < rest.len() {
                assert(any_matches(selector_rules(physical), rest[k].0));
            }
        }
    }
}

proof fn lemma_suffix(path: Seq<char>)
    ensures
        ".tmpl"@.is_suffix_of(path) <==> ends_as_template(path),
{
    reveal_strlit(".tmpl");
    let mark = ".tmpl"@;
    if ends_as_template(path) {
        assert(path.subrange(path.len() - 5, path.len() as int) =~= mark);
    }
    if mark.is_suffix_of(path) {
        let tail = path.subrange(path.len() - 5, path.len() as int);
        assert(tail =~= mark);
        assert(tail[0] == path[path.len() - 5]);
        assert(tail[1] == path[path.len() - 4]);
        assert(tail[2] == path[path.len() - 3]);
        assert(tail[3] == path[path.len() - 2]);
        assert(tail[4] == path[path.len() - 1]);
    }
}

/// What is made has a name.
proof fn lemma_step(scene: SceneView, relative: Seq<char>)
    requires
        scene.step(relative) is Made,
    ensures
        relative.len() > 0,
        projection_problem(relative, authorized(relative, scene.physical)) is None,
{
    lemma_pieces(relative, '/');
    if relative.len() == 0 {
        assert(pieces(relative, '/')[0].len() == 0);
        assert(!crate::model::path::ordinary(pieces(relative, '/')[0]));
    }
}

proof fn lemma_replaced(path: Seq<char>)
    ensures
        shown_path(path).len() == path.len(),
        forall|i: int|
            0 <= i < path.len() ==> #[trigger] shown_path(path)[i] == if path[i] == '\\' {
                '/'
            } else {
                path[i]
            },
    decreases path.len(),
{
    reveal_strlit("/");
    if path.len() > 0 {
        lemma_replaced(path.drop_last());
        let front = shown_path(path.drop_last());
        assert forall|i: int| 0 <= i < path.len() implies #[trigger] shown_path(path)[i] == if path[i]
            == '\\' {
            '/'
        } else {
            path[i]
        } by {
            if i < front.len() {
                assert(front[i] == shown_path(path)[i]);
            }
        }
    }
}

proof fn lemma_shown_suffix(base: Seq<char>, relative: Seq<char>)
    requires
        relative.len() > 0,
    ensures
        ends_as_template(shown_path(relative_join(base, relative))) <==> ends_as_template(relative),
{
    reveal_strlit("/");
    let whole = relative_join(base, relative);
    lemma_replaced(whole);
    lemma_joined_suffix(base, relative);
    let shown = shown_path(whole);
    if whole.len() >= 5 {
        assert(shown[whole.len() - 5] == if whole[whole.len() - 5] == '\\' { '/' } else { whole[whole.len() - 5] });
        assert(shown[whole.len() - 4] == if whole[whole.len() - 4] == '\\' { '/' } else { whole[whole.len() - 4] });
        assert(shown[whole.len() - 3] == if whole[whole.len() - 3] == '\\' { '/' } else { whole[whole.len() - 3] });
        assert(shown[whole.len() - 2] == if whole[whole.len() - 2] == '\\' { '/' } else { whole[whole.len() - 2] });
        assert(shown[whole.len() - 1] == if whole[whole.len() - 1] == '\\' { '/' } else { whole[whole.len() - 1] });
    }
}

proof fn lemma_joined_suffix(base: Seq<char>, relative: Seq<char>)
    requires
        relative.len() > 0,
    ensures
        ends_as_template(relative_join(base, relative)) <==> ends_as_template(relative),
{
    reveal_strlit("/");
    let whole = relative_join(base, relative);
    if base.len() > 0 {
        assert(whole[base.len() as int] == '/');
        assert forall|i: int| 0 <= i < relative.len() implies #[trigger] relative[i] == whole[base.len() + 1
            + i] by {}
        if relative.len() >= 5 {
            let n = relative.len();
            assert(relative[n - 5] == whole[whole.len() - 5]);
            assert(relative[n - 4] == whole[whole.len() - 4]);
            assert(relative[n - 3] == whole[whole.len() - 3]);
            assert(relative[n - 2] == whole[whole.len() - 2]);
            assert(relative[n - 1] == whole[whole.len() - 1]);
        }
    }
}

/// What a component stands for ends in the suffix of templates where the component does.
proof fn lemma_name_suffix(component: Seq<char>)
    requires
        ends_as_template(component),
    ensures
        ends_as_template(projected_name(component)),
{
    if !hidden_component(component) {
        lemma_metadata_suffix(component, false);
        match metadata(component, false) {
            Metadata::Repeated => {},
            Metadata::Parsed { attributes, dots, payload } => {
                let name = repeated(seq!['.'], dots) + payload;
                let n = payload.len();
                assert(name[name.len() - 5] == payload[n - 5]);
                assert(name[name.len() - 4] == payload[n - 4]);
                assert(name[name.len() - 3] == payload[n - 3]);
                assert(name[name.len() - 2] == payload[n - 2]);
                assert(name[name.len() - 1] == payload[n - 1]);
            },
        }
    }
}

proof fn lemma_metadata_suffix(rest: Seq<char>, unallocated: bool)
    requires
        ends_as_template(rest),
    ensures
        metadata(rest, unallocated) matches Metadata::Parsed { payload, .. } ==> ends_as_template(
            payload,
        ),
    decreases rest.len(),
{
    let dot = crate::model::selection::dot_mark();
    let unalloc = crate::model::selection::unalloc_mark();
    let literal = crate::model::selection::literal_mark();
    if dot.is_prefix_of(rest) {
        assert(rest.subrange(0, 4) =~= dot);
        assert(rest[3] == dot[3]);
        lemma_behind_mark(rest, 4);
        lemma_metadata_suffix(rest.skip(4), unallocated);
    } else if unalloc.is_prefix_of(rest) {
        assert(rest.subrange(0, 8) =~= unalloc);
        assert(rest[7] == unalloc[7]);
        lemma_behind_mark(rest, 8);
        if !unallocated {
            lemma_metadata_suffix(rest.skip(8), true);
        }
    } else if literal.is_prefix_of(rest) {
        assert(rest.subrange(0, 8) =~= literal);
        assert(rest[7] == literal[7]);
        lemma_behind_mark(rest, 8);
    }
}

proof fn lemma_behind_mark(rest: Seq<char>, count: int)
    requires
        ends_as_template(rest),
        0 < count <= rest.len(),
        rest[count - 1] == '_',
    ensures
        ends_as_template(rest.skip(count)),
{
    let n = rest.len();
    assert(count <= n - 5);
    let tail = rest.skip(count);
    assert(tail[tail.len() - 5] == rest[n - 5]);
    assert(tail[tail.len() - 4] == rest[n - 4]);
    assert(tail[tail.len() - 3] == rest[n - 3]);
    assert(tail[tail.len() - 2] == rest[n - 2]);
    assert(tail[tail.len() - 1] == rest[n - 1]);
}

/// The last piece holds the end of a path.
proof fn lemma_last_piece_suffix(path: Seq<char>)
    requires
        ends_as_template(path),
    ensures
        pieces(path, '/').len() > 0,
        ends_as_template(pieces(path, '/').last()),
{
    lemma_pieces(path, '/');
    let p = path.drop_last();
    let q = p.drop_last();
    let r = q.drop_last();
    let s = r.drop_last();
    let t = s.drop_last();
    assert(path.last() == 'l' && p.last() == 'p' && q.last() == 'm' && r.last() == 't' && s.last()
        == '.');
    lemma_pieces(p, '/');
    lemma_pieces(q, '/');
    lemma_pieces(r, '/');
    lemma_pieces(s, '/');
    lemma_pieces(t, '/');
    let a = pieces(t, '/').last();
    assert(pieces(s, '/').last() == a.push('.'));
    assert(pieces(r, '/').last() == a.push('.').push('t'));
    assert(pieces(q, '/').last() == a.push('.').push('t').push('m'));
    assert(pieces(p, '/').last() == a.push('.').push('t').push('m').push('p'));
    assert(pieces(path, '/').last() == a.push('.').push('t').push('m').push('p').push('l'));
}

/// What a path stands for ends in the suffix of templates where the path does.
proof fn lemma_projected_suffix(path: Seq<char>, allowed: bool)
    requires
        projection_problem(path, allowed) is None,
    ensures
        ends_as_template(path) ==> ends_as_template(projected_path(path)),
        projected_path(path).len() > 0,
{
    crate::model::selection::law_projected_paths_are_valid(path, allowed);
    let logical = projected_path(path);
    if logical.len() == 0 {
        lemma_pieces(logical, '/');
        assert(pieces(logical, '/')[0].len() == 0);
        assert(!crate::model::path::ordinary(pieces(logical, '/')[0]));
    }
    if ends_as_template(path) {
        lemma_last_piece_suffix(path);
        let parts = pieces(path, '/');
        let names = projected_names(parts);
        lemma_name_suffix(parts.last());
        assert(names.last() == projected_name(parts.last()));
        let last = names.last();
        reveal_strlit("/");
        if names.len() > 1 {
            let head = joined(names.drop_last(), "/"@) + "/"@;
            assert(logical == head + last);
        } else {
            assert(logical == last);
        }
        let n = last.len();
        assert(logical[logical.len() - 5] == last[n - 5]);
        assert(logical[logical.len() - 4] == last[n - 4]);
        assert(logical[logical.len() - 3] == last[n - 3]);
        assert(logical[logical.len() - 2] == last[n - 2]);
        assert(logical[logical.len() - 1] == last[n - 1]);
    }
}

} // verus!
