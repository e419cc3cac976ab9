//! What serialised forms promise: two things with the same form are the same, so that
//! whatever is told by its form is told whole.
use vstd::prelude::*;
use vstd::string::*;

use crate::json::{equal, member, no_members, object_tree, optional_text, text_trees, JsonTree};
use crate::model::manifest::{
    Artifact, ArtifactNotice, ArtifactPolicy, ArtifactSelection, ArtifactSelectionKind, BuildInput,
    BuildInputKind, BuildInputOrigin, Dependency, DependencyKind, ExecutionMode, FileContent,
    InterpreterFamily, ManifestModule, ModuleSourceBase, Observation, ObservationSubject,
    PlannedArtifact, PlannedProduction, ProcessEnvironmentChange, ProcessInvocation,
    ProcessObservation, Production, Provider, ProviderBinding, ProviderFile, ProviderOrigin,
    ProviderPreparation, ProviderPrerequisite, Publications, RendererIdentity, Requirement,
    RequirementCandidate, RequirementChoice, RequirementKind, ResolutionAttempt, ResolutionOutcome,
    Script, ScriptOutcomeStatus, ScriptPayload, ScriptSchedule, ScriptScope, SourceAttribute,
    SourceComponent, SourceFile, SourceLocation, SourceOrigin, SourceProjection, SourceTrace,
    TargetOrigin, TargetPath, TargetScope, Task, TaskCachePolicy, TaskLogPolicy, TaskOutput,
    TaskRunner, TaskTargetRoot, TemplateHelperExport, TemplateHelperPack, UnallocatedPolicy,
};
use crate::model::wire::{
    pair_trees, process_environment_change_trees, provider_file_trees, requirement_candidate_trees,
    resolution_attempt_trees, script_payload_trees, source_attribute_trees, source_component_trees,
    source_file_trees, source_location_trees, task_output_trees, template_helper_export_trees,
    optional_code, optional_number,
};
use crate::text::{views};
use crate::trees::{
    lemma_collected, lemma_equal_items, lemma_equal_trees, lemma_pair_pushed, pair_value,
    well_formed,
};

verus! {

/// Lists of texts have the same form only where they hold the same.
proof fn lemma_equal_texts(a: Seq<String>, b: Seq<String>)
    requires
        equal(JsonTree::Array(text_trees(a)), JsonTree::Array(text_trees(b))),
    ensures
        views(a) == views(b),
{
    lemma_equal_items(text_trees(a), text_trees(b));
    assert forall|i: int| 0 <= i < a.len() implies #[trigger] a[i]@ == b[i]@ by {
        assert(text_trees(a)[i] == JsonTree::Text(a[i]@));
        assert(text_trees(b)[i] == JsonTree::Text(b[i]@));
    }
    assert(views(a) =~= views(b));
}

/// No two values of an execution mode have the same name.
pub proof fn law_names_tell_execution_modes_apart(a: ExecutionMode, b: ExecutionMode)
    requires
        a.wire() == b.wire(),
    ensures
        a == b,
{
    reveal_strlit("normal");
    reveal_strlit("compile_only");
    assert("normal"@.len() == 6 && "compile_only"@.len() == 12);
}

/// No two values of an unallocated policy have the same name.
pub proof fn law_names_tell_unallocated_policies_apart(a: UnallocatedPolicy, b: UnallocatedPolicy)
    requires
        a.wire() == b.wire(),
    ensures
        a == b,
{
    reveal_strlit("ignore");
    reveal_strlit("warn");
    reveal_strlit("error");
    assert("ignore"@.len() == 6 && "warn"@.len() == 4 && "error"@.len() == 5);
}

/// No two values of an artifact selection kind have the same name.
pub proof fn law_names_tell_artifact_selection_kinds_apart(a: ArtifactSelectionKind, b: ArtifactSelectionKind)
    requires
        a.wire() == b.wire(),
    ensures
        a == b,
{
    reveal_strlit("exact");
    reveal_strlit("directory");
    reveal_strlit("glob");
    assert("exact"@.len() == 5 && "directory"@.len() == 9 && "glob"@.len() == 4);
}

/// No two values of a requirement kind have the same name.
pub proof fn law_names_tell_requirement_kinds_apart(a: RequirementKind, b: RequirementKind)
    requires
        a.wire() == b.wire(),
    ensures
        a == b,
{
    reveal_strlit("command");
    reveal_strlit("package");
    assert("command"@.len() == 7 && "package"@.len() == 7);
    assert("command"@[0] == 'c' && "package"@[0] == 'p');
}

/// No two values of a requirement choice have the same name.
pub proof fn law_names_tell_requirement_choices_apart(a: RequirementChoice, b: RequirementChoice)
    requires
        a.wire() == b.wire(),
    ensures
        a == b,
{
    reveal_strlit("required");
    reveal_strlit("preferred");
    reveal_strlit("accepted");
    assert("required"@.len() == 8 && "preferred"@.len() == 9 && "accepted"@.len() == 8);
    assert("required"@[0] == 'r' && "accepted"@[0] == 'a');
}

/// No two values of a build input kind have the same name.
pub proof fn law_names_tell_build_input_kinds_apart(a: BuildInputKind, b: BuildInputKind)
    requires
        a.wire() == b.wire(),
    ensures
        a == b,
{
    reveal_strlit("flag");
    reveal_strlit("choice");
    reveal_strlit("string");
    reveal_strlit("integer");
    reveal_strlit("target");
    assert("flag"@.len() == 4 && "choice"@.len() == 6 && "string"@.len() == 6
        && "integer"@.len() == 7 && "target"@.len() == 6);
    assert("choice"@[0] == 'c' && "string"@[0] == 's' && "target"@[0] == 't');
}

/// No two values of a build input origin have the same name.
pub proof fn law_names_tell_build_input_origins_apart(a: BuildInputOrigin, b: BuildInputOrigin)
    requires
        a.wire() == b.wire(),
    ensures
        a == b,
{
    reveal_strlit("default");
    reveal_strlit("command_line");
    assert("default"@.len() == 7 && "command_line"@.len() == 12);
}

/// No two values of an observation subject have the same name.
pub proof fn law_names_tell_observation_subjects_apart(a: ObservationSubject, b: ObservationSubject)
    requires
        a.wire() == b.wire(),
    ensures
        a == b,
{
    reveal_strlit("host");
    reveal_strlit("target");
    assert("host"@.len() == 4 && "target"@.len() == 6);
}

/// No two values of a dependency kind have the same name.
pub proof fn law_names_tell_dependency_kinds_apart(a: DependencyKind, b: DependencyKind)
    requires
        a.wire() == b.wire(),
    ensures
        a == b,
{
    reveal_strlit("use");
    reveal_strlit("using");
    assert("use"@.len() == 3 && "using"@.len() == 5);
}

/// No two values of a source attribute have the same name.
pub proof fn law_names_tell_source_attributes_apart(a: SourceAttribute, b: SourceAttribute)
    requires
        a.wire() == b.wire(),
    ensures
        a == b,
{
    reveal_strlit("dot");
    reveal_strlit("unallocated");
    reveal_strlit("literal");
    assert("dot"@.len() == 3 && "unallocated"@.len() == 11 && "literal"@.len() == 7);
}

/// No two values of a target scope have the same name.
pub proof fn law_names_tell_target_scopes_apart(a: TargetScope, b: TargetScope)
    requires
        a.wire() == b.wire(),
    ensures
        a == b,
{
    reveal_strlit("deployment_root");
    reveal_strlit("absolute");
    assert("deployment_root"@.len() == 15 && "absolute"@.len() == 8);
}

/// No two values of an interpreter family have the same name.
pub proof fn law_names_tell_interpreter_families_apart(a: InterpreterFamily, b: InterpreterFamily)
    requires
        a.wire() == b.wire(),
    ensures
        a == b,
{
    reveal_strlit("python");
    reveal_strlit("posix_shell");
    reveal_strlit("bash");
    reveal_strlit("custom");
    assert("python"@.len() == 6 && "posix_shell"@.len() == 11 && "bash"@.len() == 4
        && "custom"@.len() == 6);
    assert("python"@[0] == 'p' && "custom"@[0] == 'c');
}

/// No two values of a task log policy have the same name.
pub proof fn law_names_tell_task_log_policies_apart(a: TaskLogPolicy, b: TaskLogPolicy)
    requires
        a.wire() == b.wire(),
    ensures
        a == b,
{
    reveal_strlit("failure");
    reveal_strlit("always");
    reveal_strlit("never");
    assert("failure"@.len() == 7 && "always"@.len() == 6 && "never"@.len() == 5);
}

/// No two values of a script schedule have the same name.
pub proof fn law_names_tell_script_schedules_apart(a: ScriptSchedule, b: ScriptSchedule)
    requires
        a.wire() == b.wire(),
    ensures
        a == b,
{
    reveal_strlit("always");
    reveal_strlit("once");
    reveal_strlit("onchange");
    assert("always"@.len() == 6 && "once"@.len() == 4 && "onchange"@.len() == 8);
}

/// No two values of a script scope have the same name.
pub proof fn law_names_tell_script_scopes_apart(a: ScriptScope, b: ScriptScope)
    requires
        a.wire() == b.wire(),
    ensures
        a == b,
{
    reveal_strlit("target");
    reveal_strlit("host");
    assert("target"@.len() == 6 && "host"@.len() == 4);
}

/// No two values of a script outcome status have the same name.
pub proof fn law_names_tell_script_outcome_status_apart(a: ScriptOutcomeStatus, b: ScriptOutcomeStatus)
    requires
        a.wire() == b.wire(),
    ensures
        a == b,
{
    reveal_strlit("ran");
    reveal_strlit("scheduled_skip");
    reveal_strlit("compile_only_skip");
    reveal_strlit("refused");
    assert("ran"@.len() == 3 && "scheduled_skip"@.len() == 14 && "compile_only_skip"@.len() == 17
        && "refused"@.len() == 7);
}

/// What stands where in the serialised form.
proof fn lemma_source_file(v: SourceFile)
    ensures
        well_formed(v.tree()),
        member(v.tree(), "path"@) == Some(JsonTree::Text(v.path@)),
        member(v.tree(), "digest"@) == Some(JsonTree::Text(v.digest@)),
{
    broadcast use lemma_pair_pushed;

    reveal_strlit("path");
    reveal_strlit("digest");
    assert("path"@.len() == 4 && "digest"@.len() == 6);
    let m = no_members();
    let m = m.push(("path"@, JsonTree::Text(v.path@)));
    let m = m.push(("digest"@, JsonTree::Text(v.digest@)));
    lemma_collected(m);
    assert(v.tree() == object_tree(m));
    assert(member(v.tree(), "path"@) == pair_value(m, "path"@));
    assert(member(v.tree(), "digest"@) == pair_value(m, "digest"@));
}

/// The serialised form of a source file tells all of it.
pub proof fn law_forms_tell_source_files_apart(a: SourceFile, b: SourceFile)
    requires
        equal(a.tree(), b.tree()),
    ensures
        a.path@ == b.path@,
        a.digest@ == b.digest@,
{
    lemma_source_file(a);
    lemma_source_file(b);
    lemma_equal_trees(a.tree(), b.tree(), "path"@);
    lemma_equal_trees(a.tree(), b.tree(), "digest"@);
}

/// What stands where in the serialised form.
proof fn lemma_source_location(v: SourceLocation)
    ensures
        well_formed(v.tree()),
        member(v.tree(), "source"@) == Some(JsonTree::Text(v.source@)),
        member(v.tree(), "line"@) == (if v.line is Some {
            Some(JsonTree::Integer(v.line->0 as int))
        } else {
            None
        }),
        member(v.tree(), "column"@) == (if v.column is Some {
            Some(JsonTree::Integer(v.column->0 as int))
        } else {
            None
        }),
{
    broadcast use lemma_pair_pushed;

    reveal_strlit("source");
    reveal_strlit("line");
    reveal_strlit("column");
    assert("source"@.len() == 6 && "line"@.len() == 4 && "column"@.len() == 6);
    assert("source"@[0] == 's' && "column"@[0] == 'c');
    let m = no_members();
    let m = m.push(("source"@, JsonTree::Text(v.source@)));
    let m = if v.line is Some {
        m.push(("line"@, JsonTree::Integer(v.line->0 as int)))
    } else {
        m
    };
    let m = if v.column is Some {
        m.push(("column"@, JsonTree::Integer(v.column->0 as int)))
    } else {
        m
    };
    lemma_collected(m);
    assert(v.tree() == object_tree(m));
    assert(member(v.tree(), "source"@) == pair_value(m, "source"@));
    assert(member(v.tree(), "line"@) == pair_value(m, "line"@));
    assert(member(v.tree(), "column"@) == pair_value(m, "column"@));
}

/// The serialised form of a source location tells all of it.
pub proof fn law_forms_tell_source_locations_apart(a: SourceLocation, b: SourceLocation)
    requires
        equal(a.tree(), b.tree()),
    ensures
        a.source@ == b.source@,
        a.line is Some <==> b.line is Some,
        a.line is Some ==> a.line->0 == b.line->0,
        a.column is Some <==> b.column is Some,
        a.column is Some ==> a.column->0 == b.column->0,
{
    lemma_source_location(a);
    lemma_source_location(b);
    lemma_equal_trees(a.tree(), b.tree(), "source"@);
    lemma_equal_trees(a.tree(), b.tree(), "line"@);
    lemma_equal_trees(a.tree(), b.tree(), "column"@);
}

/// What stands where in the serialised form.
proof fn lemma_source_trace(v: SourceTrace)
    ensures
        well_formed(v.tree()),
        member(v.tree(), "primary"@) == Some(v.primary.tree()),
        member(v.tree(), "callers"@) == Some(JsonTree::Array(source_location_trees(v.callers@))),
{
    broadcast use lemma_pair_pushed;

    reveal_strlit("primary");
    reveal_strlit("callers");
    assert("primary"@.len() == 7 && "callers"@.len() == 7);
    assert("primary"@[0] == 'p' && "callers"@[0] == 'c');
    let m = no_members();
    let m = m.push(("primary"@, v.primary.tree()));
    let m = m.push(("callers"@, JsonTree::Array(source_location_trees(v.callers@))));
    lemma_collected(m);
    assert(v.tree() == object_tree(m));
    assert(member(v.tree(), "primary"@) == pair_value(m, "primary"@));
    assert(member(v.tree(), "callers"@) == pair_value(m, "callers"@));
}

/// The serialised form of a source trace tells all of it.
pub proof fn law_forms_tell_source_traces_apart(a: SourceTrace, b: SourceTrace)
    requires
        equal(a.tree(), b.tree()),
    ensures
        equal(a.primary.tree(), b.primary.tree()),
        a.callers@.len() == b.callers@.len(),
        forall|i: int|
            0 <= i < a.callers@.len() ==> equal(
                (#[trigger] a.callers@[i]).tree(),
                b.callers@[i].tree(),
            ),
{
    lemma_source_trace(a);
    lemma_source_trace(b);
    lemma_equal_trees(a.tree(), b.tree(), "primary"@);
    lemma_equal_trees(a.tree(), b.tree(), "callers"@);
    lemma_equal_items(source_location_trees(a.callers@), source_location_trees(b.callers@));
    assert forall|i: int| 0 <= i < a.callers@.len() implies equal(
        (#[trigger] a.callers@[i]).tree(),
        b.callers@[i].tree(),
    ) by {
        assert(source_location_trees(a.callers@)[i] == a.callers@[i].tree());
        assert(source_location_trees(b.callers@)[i] == b.callers@[i].tree());
    }
}

/// What stands where in the serialised form.
proof fn lemma_artifact_policy(v: ArtifactPolicy)
    ensures
        well_formed(v.tree()),
        member(v.tree(), "unallocated"@) == Some(JsonTree::Text(v.unallocated.wire())),
{
    broadcast use lemma_pair_pushed;

    reveal_strlit("unallocated");
    let m = no_members();
    let m = m.push(("unallocated"@, JsonTree::Text(v.unallocated.wire())));
    lemma_collected(m);
    assert(v.tree() == object_tree(m));
    assert(member(v.tree(), "unallocated"@) == pair_value(m, "unallocated"@));
}

/// The serialised form of an artifact policy tells all of it.
pub proof fn law_forms_tell_artifact_policies_apart(a: ArtifactPolicy, b: ArtifactPolicy)
    requires
        equal(a.tree(), b.tree()),
    ensures
        a.unallocated.wire() == b.unallocated.wire(),
{
    lemma_artifact_policy(a);
    lemma_artifact_policy(b);
    lemma_equal_trees(a.tree(), b.tree(), "unallocated"@);
}

/// What stands where in the serialised form.
proof fn lemma_artifact_notice(v: ArtifactNotice)
    ensures
        well_formed(v.tree()),
        member(v.tree(), "kind"@) == Some(JsonTree::Text(v.kind.wire())),
        member(v.tree(), "owner"@) == Some(JsonTree::Text(v.owner@)),
        member(v.tree(), "selector"@) == Some(JsonTree::Text(v.selector@)),
        member(v.tree(), "skipped"@) == Some(JsonTree::Array(text_trees(v.skipped@))),
        member(v.tree(), "declared_at"@) == Some(v.declared_at.tree()),
{
    broadcast use lemma_pair_pushed;

    reveal_strlit("kind");
    reveal_strlit("owner");
    reveal_strlit("selector");
    reveal_strlit("skipped");
    reveal_strlit("declared_at");
    assert("kind"@.len() == 4 && "owner"@.len() == 5 && "selector"@.len() == 8
        && "skipped"@.len() == 7 && "declared_at"@.len() == 11);
    let m = no_members();
    let m = m.push(("kind"@, JsonTree::Text(v.kind.wire())));
    let m = m.push(("owner"@, JsonTree::Text(v.owner@)));
    let m = m.push(("selector"@, JsonTree::Text(v.selector@)));
    let m = m.push(("skipped"@, JsonTree::Array(text_trees(v.skipped@))));
    let m = m.push(("declared_at"@, v.declared_at.tree()));
    lemma_collected(m);
    assert(v.tree() == object_tree(m));
    assert(member(v.tree(), "kind"@) == pair_value(m, "kind"@));
    assert(member(v.tree(), "owner"@) == pair_value(m, "owner"@));
    assert(member(v.tree(), "selector"@) == pair_value(m, "selector"@));
    assert(member(v.tree(), "skipped"@) == pair_value(m, "skipped"@));
    assert(member(v.tree(), "declared_at"@) == pair_value(m, "declared_at"@));
}

/// The serialised form of an artifact notice tells all of it.
pub proof fn law_forms_tell_artifact_notices_apart(a: ArtifactNotice, b: ArtifactNotice)
    requires
        equal(a.tree(), b.tree()),
    ensures
        a.kind.wire() == b.kind.wire(),
        a.owner@ == b.owner@,
        a.selector@ == b.selector@,
        views(a.skipped@) == views(b.skipped@),
        equal(a.declared_at.tree(), b.declared_at.tree()),
{
    lemma_artifact_notice(a);
    lemma_artifact_notice(b);
    lemma_equal_trees(a.tree(), b.tree(), "kind"@);
    lemma_equal_trees(a.tree(), b.tree(), "owner"@);
    lemma_equal_trees(a.tree(), b.tree(), "selector"@);
    lemma_equal_trees(a.tree(), b.tree(), "skipped"@);
    lemma_equal_texts(a.skipped@, b.skipped@);
    lemma_equal_trees(a.tree(), b.tree(), "declared_at"@);
}

/// What stands where in the serialised form.
proof fn lemma_artifact_selection(v: ArtifactSelection)
    ensures
        well_formed(v.tree()),
        member(v.tree(), "owner"@) == Some(JsonTree::Text(v.owner@)),
        member(v.tree(), "declared"@) == Some(JsonTree::Text(v.declared@)),
        member(v.tree(), "expanded"@) == Some(JsonTree::Text(v.expanded@)),
        member(v.tree(), "physical"@) == Some(JsonTree::Text(v.physical@)),
        member(v.tree(), "source_base"@) == Some(JsonTree::Text(v.source_base@)),
        member(v.tree(), "source_base_logical"@) == Some(JsonTree::Text(v.source_base_logical@)),
        member(v.tree(), "source_base_target"@) == (if v.source_base_target is Some {
            Some(JsonTree::Text(v.source_base_target->0@))
        } else {
            None
        }),
        member(v.tree(), "source_base_hidden"@) == Some(JsonTree::Bool(v.source_base_hidden)),
        member(v.tree(), "hidden"@) == Some(JsonTree::Bool(v.hidden)),
        member(v.tree(), "kind"@) == Some(JsonTree::Text(v.kind.wire())),
        member(v.tree(), "static_root"@) == Some(JsonTree::Text(v.static_root@)),
        member(v.tree(), "exclusions"@) == Some(JsonTree::Array(text_trees(v.exclusions@))),
        member(v.tree(), "allow_empty"@) == Some(JsonTree::Bool(v.allow_empty)),
        member(v.tree(), "explicit_target"@) == (if v.explicit_target is Some {
            Some(JsonTree::Text(v.explicit_target->0@))
        } else {
            None
        }),
        member(v.tree(), "matches"@) == Some(JsonTree::Array(text_trees(v.matches@))),
        member(v.tree(), "skipped_unallocated"@) == Some(
            JsonTree::Array(text_trees(v.skipped_unallocated@)),
        ),
        member(v.tree(), "declared_at"@) == Some(v.declared_at.tree()),
{
    broadcast use lemma_pair_pushed;

    reveal_strlit("owner");
    reveal_strlit("declared");
    reveal_strlit("expanded");
    reveal_strlit("physical");
    reveal_strlit("source_base");
    reveal_strlit("source_base_logical");
    reveal_strlit("source_base_target");
    reveal_strlit("source_base_hidden");
    reveal_strlit("hidden");
    reveal_strlit("kind");
    reveal_strlit("static_root");
    reveal_strlit("exclusions");
    reveal_strlit("allow_empty");
    reveal_strlit("explicit_target");
    reveal_strlit("matches");
    reveal_strlit("skipped_unallocated");
    reveal_strlit("declared_at");
    assert("owner"@.len() == 5 && "declared"@.len() == 8 && "expanded"@.len() == 8
        && "physical"@.len() == 8 && "source_base"@.len() == 11
        && "source_base_logical"@.len() == 19 && "source_base_target"@.len() == 18
        && "source_base_hidden"@.len() == 18 && "hidden"@.len() == 6 && "kind"@.len() == 4
        && "static_root"@.len() == 11 && "exclusions"@.len() == 10 && "allow_empty"@.len() == 11
        && "explicit_target"@.len() == 15 && "matches"@.len() == 7
        && "skipped_unallocated"@.len() == 19 && "declared_at"@.len() == 11);
    assert("declared"@[0] == 'd' && "expanded"@[0] == 'e' && "physical"@[0] == 'p');
    assert("source_base"@[1] == 'o' && "static_root"@[1] == 't' && "allow_empty"@[1] == 'l'
        && "declared_at"@[1] == 'e');
    assert("source_base_logical"@[1] == 'o' && "skipped_unallocated"@[1] == 'k');
    assert("source_base_target"@[12] == 't' && "source_base_hidden"@[12] == 'h');
    let m = no_members();
    let m = m.push(("owner"@, JsonTree::Text(v.owner@)));
    let m = m.push(("declared"@, JsonTree::Text(v.declared@)));
    let m = m.push(("expanded"@, JsonTree::Text(v.expanded@)));
    let m = m.push(("physical"@, JsonTree::Text(v.physical@)));
    let m = m.push(("source_base"@, JsonTree::Text(v.source_base@)));
    let m = m.push(("source_base_logical"@, JsonTree::Text(v.source_base_logical@)));
    let m = if v.source_base_target is Some {
        m.push(("source_base_target"@, JsonTree::Text(v.source_base_target->0@)))
    } else {
        m
    };
    let m = m.push(("source_base_hidden"@, JsonTree::Bool(v.source_base_hidden)));
    let m = m.push(("hidden"@, JsonTree::Bool(v.hidden)));
    let m = m.push(("kind"@, JsonTree::Text(v.kind.wire())));
    let m = m.push(("static_root"@, JsonTree::Text(v.static_root@)));
    let m = m.push(("exclusions"@, JsonTree::Array(text_trees(v.exclusions@))));
    let m = m.push(("allow_empty"@, JsonTree::Bool(v.allow_empty)));
    let m = if v.explicit_target is Some {
        m.push(("explicit_target"@, JsonTree::Text(v.explicit_target->0@)))
    } else {
        m
    };
    let m = m.push(("matches"@, JsonTree::Array(text_trees(v.matches@))));
    let m = m.push(("skipped_unallocated"@, JsonTree::Array(text_trees(v.skipped_unallocated@))));
    let m = m.push(("declared_at"@, v.declared_at.tree()));
    lemma_collected(m);
    assert(v.tree() == object_tree(m));
    assert(member(v.tree(), "owner"@) == pair_value(m, "owner"@));
    assert(member(v.tree(), "declared"@) == pair_value(m, "declared"@));
    assert(member(v.tree(), "expanded"@) == pair_value(m, "expanded"@));
    assert(member(v.tree(), "physical"@) == pair_value(m, "physical"@));
    assert(member(v.tree(), "source_base"@) == pair_value(m, "source_base"@));
    assert(member(v.tree(), "source_base_logical"@) == pair_value(m, "source_base_logical"@));
    assert(member(v.tree(), "source_base_target"@) == pair_value(m, "source_base_target"@));
    assert(member(v.tree(), "source_base_hidden"@) == pair_value(m, "source_base_hidden"@));
    assert(member(v.tree(), "hidden"@) == pair_value(m, "hidden"@));
    assert(member(v.tree(), "kind"@) == pair_value(m, "kind"@));
    assert(member(v.tree(), "static_root"@) == pair_value(m, "static_root"@));
    assert(member(v.tree(), "exclusions"@) == pair_value(m, "exclusions"@));
    assert(member(v.tree(), "allow_empty"@) == pair_value(m, "allow_empty"@));
    assert(member(v.tree(), "explicit_target"@) == pair_value(m, "explicit_target"@));
    assert(member(v.tree(), "matches"@) == pair_value(m, "matches"@));
    assert(member(v.tree(), "skipped_unallocated"@) == pair_value(m, "skipped_unallocated"@));
    assert(member(v.tree(), "declared_at"@) == pair_value(m, "declared_at"@));
}

/// The serialised form of an artifact selection tells all of it.
pub proof fn law_forms_tell_artifact_selections_apart(a: ArtifactSelection, b: ArtifactSelection)
    requires
        equal(a.tree(), b.tree()),
    ensures
        a.owner@ == b.owner@,
        a.declared@ == b.declared@,
        a.expanded@ == b.expanded@,
        a.physical@ == b.physical@,
        a.source_base@ == b.source_base@,
        a.source_base_logical@ == b.source_base_logical@,
        a.source_base_target is Some <==> b.source_base_target is Some,
        a.source_base_target is Some ==> a.source_base_target->0@ == b.source_base_target->0@,
        a.source_base_hidden == b.source_base_hidden,
        a.hidden == b.hidden,
        a.kind.wire() == b.kind.wire(),
        a.static_root@ == b.static_root@,
        views(a.exclusions@) == views(b.exclusions@),
        a.allow_empty == b.allow_empty,
        a.explicit_target is Some <==> b.explicit_target is Some,
        a.explicit_target is Some ==> a.explicit_target->0@ == b.explicit_target->0@,
        views(a.matches@) == views(b.matches@),
        views(a.skipped_unallocated@) == views(b.skipped_unallocated@),
        equal(a.declared_at.tree(), b.declared_at.tree()),
{
    lemma_artifact_selection(a);
    lemma_artifact_selection(b);
    lemma_equal_trees(a.tree(), b.tree(), "owner"@);
    lemma_equal_trees(a.tree(), b.tree(), "declared"@);
    lemma_equal_trees(a.tree(), b.tree(), "expanded"@);
    lemma_equal_trees(a.tree(), b.tree(), "physical"@);
    lemma_equal_trees(a.tree(), b.tree(), "source_base"@);
    lemma_equal_trees(a.tree(), b.tree(), "source_base_logical"@);
    lemma_equal_trees(a.tree(), b.tree(), "source_base_target"@);
    lemma_equal_trees(a.tree(), b.tree(), "source_base_hidden"@);
    lemma_equal_trees(a.tree(), b.tree(), "hidden"@);
    lemma_equal_trees(a.tree(), b.tree(), "kind"@);
    lemma_equal_trees(a.tree(), b.tree(), "static_root"@);
    lemma_equal_trees(a.tree(), b.tree(), "exclusions"@);
    lemma_equal_texts(a.exclusions@, b.exclusions@);
    lemma_equal_trees(a.tree(), b.tree(), "allow_empty"@);
    lemma_equal_trees(a.tree(), b.tree(), "explicit_target"@);
    lemma_equal_trees(a.tree(), b.tree(), "matches"@);
    lemma_equal_texts(a.matches@, b.matches@);
    lemma_equal_trees(a.tree(), b.tree(), "skipped_unallocated"@);
    lemma_equal_texts(a.skipped_unallocated@, b.skipped_unallocated@);
    lemma_equal_trees(a.tree(), b.tree(), "declared_at"@);
}

/// What stands where in the serialised form.
proof fn lemma_provider_file(v: ProviderFile)
    ensures
        well_formed(v.tree()),
        member(v.tree(), "source"@) == Some(JsonTree::Text(v.source@)),
        member(v.tree(), "payload"@) == Some(JsonTree::Text(v.payload@)),
        member(v.tree(), "digest"@) == Some(JsonTree::Text(v.digest@)),
        member(v.tree(), "size"@) == Some(JsonTree::Integer(v.size as int)),
{
    broadcast use lemma_pair_pushed;

    reveal_strlit("source");
    reveal_strlit("payload");
    reveal_strlit("digest");
    reveal_strlit("size");
    assert("source"@.len() == 6 && "payload"@.len() == 7 && "digest"@.len() == 6
        && "size"@.len() == 4);
    assert("source"@[0] == 's' && "digest"@[0] == 'd');
    let m = no_members();
    let m = m.push(("source"@, JsonTree::Text(v.source@)));
    let m = m.push(("payload"@, JsonTree::Text(v.payload@)));
    let m = m.push(("digest"@, JsonTree::Text(v.digest@)));
    let m = m.push(("size"@, JsonTree::Integer(v.size as int)));
    lemma_collected(m);
    assert(v.tree() == object_tree(m));
    assert(member(v.tree(), "source"@) == pair_value(m, "source"@));
    assert(member(v.tree(), "payload"@) == pair_value(m, "payload"@));
    assert(member(v.tree(), "digest"@) == pair_value(m, "digest"@));
    assert(member(v.tree(), "size"@) == pair_value(m, "size"@));
}

/// The serialised form of a provider file tells all of it.
pub proof fn law_forms_tell_provider_files_apart(a: ProviderFile, b: ProviderFile)
    requires
        equal(a.tree(), b.tree()),
    ensures
        a.source@ == b.source@,
        a.payload@ == b.payload@,
        a.digest@ == b.digest@,
        a.size == b.size,
{
    lemma_provider_file(a);
    lemma_provider_file(b);
    lemma_equal_trees(a.tree(), b.tree(), "source"@);
    lemma_equal_trees(a.tree(), b.tree(), "payload"@);
    lemma_equal_trees(a.tree(), b.tree(), "digest"@);
    lemma_equal_trees(a.tree(), b.tree(), "size"@);
}

/// What stands where in the serialised form.
proof fn lemma_provider_origin(v: ProviderOrigin)
    ensures
        well_formed(v.tree()),
        match v {
            ProviderOrigin::Builtin { contract_version } => {
                &&& member(v.tree(), "kind"@) == Some(JsonTree::Text("builtin"@))
                &&& member(v.tree(), "contract_version"@) == Some(
                    JsonTree::Integer(contract_version as int),
                )
            },
            ProviderOrigin::Custom { entrypoint, files } => {
                &&& member(v.tree(), "kind"@) == Some(JsonTree::Text("custom"@))
                &&& member(v.tree(), "entrypoint"@) == Some(JsonTree::Text(entrypoint@))
                &&& member(v.tree(), "files"@) == Some(JsonTree::Array(provider_file_trees(files@)))
            },
        },
{
    broadcast use lemma_pair_pushed;

    reveal_strlit("kind");
    reveal_strlit("contract_version");
    reveal_strlit("entrypoint");
    reveal_strlit("files");
    assert("kind"@.len() == 4 && "contract_version"@.len() == 16 && "entrypoint"@.len() == 10
        && "files"@.len() == 5);
    match v {
        ProviderOrigin::Builtin { contract_version } => {
            let m = no_members();
            let m = m.push(("kind"@, JsonTree::Text("builtin"@)));
            let m = m.push(("contract_version"@, JsonTree::Integer(contract_version as int)));
            lemma_collected(m);
            assert(v.tree() == object_tree(m));
            assert(member(v.tree(), "kind"@) == pair_value(m, "kind"@));
            assert(member(v.tree(), "contract_version"@) == pair_value(m, "contract_version"@));
        },
        ProviderOrigin::Custom { entrypoint, files } => {
            let m = no_members();
            let m = m.push(("kind"@, JsonTree::Text("custom"@)));
            let m = m.push(("entrypoint"@, JsonTree::Text(entrypoint@)));
            let m = m.push(("files"@, JsonTree::Array(provider_file_trees(files@))));
            lemma_collected(m);
            assert(v.tree() == object_tree(m));
            assert(member(v.tree(), "kind"@) == pair_value(m, "kind"@));
            assert(member(v.tree(), "entrypoint"@) == pair_value(m, "entrypoint"@));
            assert(member(v.tree(), "files"@) == pair_value(m, "files"@));
        },
    }
}

/// The serialised form of a provider origin tells all of it.
pub proof fn law_forms_tell_provider_origins_apart(a: ProviderOrigin, b: ProviderOrigin)
    requires
        equal(a.tree(), b.tree()),
    ensures
        match (a, b) {
            (
                ProviderOrigin::Builtin { contract_version: x_contract_version },
                ProviderOrigin::Builtin { contract_version: y_contract_version },
            ) => {
                &&& x_contract_version == y_contract_version
            },
            (
                ProviderOrigin::Custom { entrypoint: x_entrypoint, files: x_files },
                ProviderOrigin::Custom { entrypoint: y_entrypoint, files: y_files },
            ) => {
                &&& x_entrypoint@ == y_entrypoint@
                &&& x_files@.len() == y_files@.len()
                &&& forall|i: int|
                    0 <= i < x_files@.len() ==> equal(
                        (#[trigger] x_files@[i]).tree(),
                        y_files@[i].tree(),
                    )
            },
            _ => false,
        },
{
    lemma_provider_origin(a);
    lemma_provider_origin(b);
    lemma_equal_trees(a.tree(), b.tree(), "kind"@);
    reveal_strlit("builtin");
    reveal_strlit("custom");
    assert("builtin"@.len() == 7 && "custom"@.len() == 6);
    match (a, b) {
        (
            ProviderOrigin::Builtin { contract_version: x_contract_version },
            ProviderOrigin::Builtin { contract_version: y_contract_version },
        ) => {
            lemma_equal_trees(a.tree(), b.tree(), "contract_version"@);
        },
        (
            ProviderOrigin::Custom { entrypoint: x_entrypoint, files: x_files },
            ProviderOrigin::Custom { entrypoint: y_entrypoint, files: y_files },
        ) => {
            lemma_equal_trees(a.tree(), b.tree(), "entrypoint"@);
            lemma_equal_trees(a.tree(), b.tree(), "files"@);
            lemma_equal_items(provider_file_trees(x_files@), provider_file_trees(y_files@));
            assert forall|i: int| 0 <= i < x_files@.len() implies equal(
                (#[trigger] x_files@[i]).tree(),
                y_files@[i].tree(),
            ) by {
                assert(provider_file_trees(x_files@)[i] == x_files@[i].tree());
                assert(provider_file_trees(y_files@)[i] == y_files@[i].tree());
            }
        },
        _ => {},
    }
}

/// What stands where in the serialised form.
proof fn lemma_provider(v: Provider)
    ensures
        well_formed(v.tree()),
        member(v.tree(), "name"@) == Some(JsonTree::Text(v.name@)),
        member(v.tree(), "priority"@) == Some(JsonTree::Integer(v.priority as int)),
        member(v.tree(), "config"@) == Some(v.config.tree()),
        member(v.tree(), "origin"@) == Some(v.origin.tree()),
        member(v.tree(), "declared_at"@) == Some(v.declared_at.tree()),
{
    broadcast use lemma_pair_pushed;

    reveal_strlit("name");
    reveal_strlit("priority");
    reveal_strlit("config");
    reveal_strlit("origin");
    reveal_strlit("declared_at");
    assert("name"@.len() == 4 && "priority"@.len() == 8 && "config"@.len() == 6
        && "origin"@.len() == 6 && "declared_at"@.len() == 11);
    assert("config"@[0] == 'c' && "origin"@[0] == 'o');
    let m = no_members();
    let m = m.push(("name"@, JsonTree::Text(v.name@)));
    let m = m.push(("priority"@, JsonTree::Integer(v.priority as int)));
    let m = m.push(("config"@, v.config.tree()));
    let m = m.push(("origin"@, v.origin.tree()));
    let m = m.push(("declared_at"@, v.declared_at.tree()));
    lemma_collected(m);
    assert(v.tree() == object_tree(m));
    assert(member(v.tree(), "name"@) == pair_value(m, "name"@));
    assert(member(v.tree(), "priority"@) == pair_value(m, "priority"@));
    assert(member(v.tree(), "config"@) == pair_value(m, "config"@));
    assert(member(v.tree(), "origin"@) == pair_value(m, "origin"@));
    assert(member(v.tree(), "declared_at"@) == pair_value(m, "declared_at"@));
}

/// The serialised form of a provider tells all of it.
pub proof fn law_forms_tell_providers_apart(a: Provider, b: Provider)
    requires
        equal(a.tree(), b.tree()),
    ensures
        a.name@ == b.name@,
        a.priority == b.priority,
        equal(a.config.tree(), b.config.tree()),
        equal(a.origin.tree(), b.origin.tree()),
        equal(a.declared_at.tree(), b.declared_at.tree()),
{
    lemma_provider(a);
    lemma_provider(b);
    lemma_equal_trees(a.tree(), b.tree(), "name"@);
    lemma_equal_trees(a.tree(), b.tree(), "priority"@);
    lemma_equal_trees(a.tree(), b.tree(), "config"@);
    lemma_equal_trees(a.tree(), b.tree(), "origin"@);
    lemma_equal_trees(a.tree(), b.tree(), "declared_at"@);
}

/// What stands where in the serialised form.
proof fn lemma_publications(v: Publications)
    ensures
        well_formed(v.tree()),
        member(v.tree(), "commands"@) == Some(JsonTree::Array(text_trees(v.commands@))),
{
    broadcast use lemma_pair_pushed;

    reveal_strlit("commands");
    let m = no_members();
    let m = m.push(("commands"@, JsonTree::Array(text_trees(v.commands@))));
    lemma_collected(m);
    assert(v.tree() == object_tree(m));
    assert(member(v.tree(), "commands"@) == pair_value(m, "commands"@));
}

/// The serialised form of a publications tells all of it.
pub proof fn law_forms_tell_publications_apart(a: Publications, b: Publications)
    requires
        equal(a.tree(), b.tree()),
    ensures
        views(a.commands@) == views(b.commands@),
{
    lemma_publications(a);
    lemma_publications(b);
    lemma_equal_trees(a.tree(), b.tree(), "commands"@);
    lemma_equal_texts(a.commands@, b.commands@);
}

/// What stands where in the serialised form.
proof fn lemma_requirement_candidate(v: RequirementCandidate)
    ensures
        well_formed(v.tree()),
        match v {
            RequirementCandidate::Command { name, minimum } => {
                &&& member(v.tree(), "kind"@) == Some(JsonTree::Text("command"@))
                &&& member(v.tree(), "name"@) == Some(JsonTree::Text(name@))
                &&& member(v.tree(), "minimum"@) == (if minimum is Some {
                    Some(JsonTree::Text(minimum->0@))
                } else {
                    None
                })
            },
            RequirementCandidate::Package { name, provider, minimum, publications, with } => {
                &&& member(v.tree(), "kind"@) == Some(JsonTree::Text("package"@))
                &&& member(v.tree(), "name"@) == Some(JsonTree::Text(name@))
                &&& member(v.tree(), "provider"@) == (if provider is Some {
                    Some(JsonTree::Text(provider->0@))
                } else {
                    None
                })
                &&& member(v.tree(), "minimum"@) == (if minimum is Some {
                    Some(JsonTree::Text(minimum->0@))
                } else {
                    None
                })
                &&& member(v.tree(), "publications"@) == Some(publications.tree())
                &&& member(v.tree(), "with"@) == Some(with.tree())
            },
        },
{
    broadcast use lemma_pair_pushed;

    reveal_strlit("kind");
    reveal_strlit("name");
    reveal_strlit("minimum");
    reveal_strlit("provider");
    reveal_strlit("publications");
    reveal_strlit("with");
    assert("kind"@.len() == 4 && "name"@.len() == 4 && "minimum"@.len() == 7
        && "provider"@.len() == 8 && "publications"@.len() == 12 && "with"@.len() == 4);
    assert("kind"@[0] == 'k' && "name"@[0] == 'n' && "with"@[0] == 'w');
    match v {
        RequirementCandidate::Command { name, minimum } => {
            let m = no_members();
            let m = m.push(("kind"@, JsonTree::Text("command"@)));
            let m = m.push(("name"@, JsonTree::Text(name@)));
            let m = if minimum is Some {
                m.push(("minimum"@, JsonTree::Text(minimum->0@)))
            } else {
                m
            };
            lemma_collected(m);
            assert(v.tree() == object_tree(m));
            assert(member(v.tree(), "kind"@) == pair_value(m, "kind"@));
            assert(member(v.tree(), "name"@) == pair_value(m, "name"@));
            assert(member(v.tree(), "minimum"@) == pair_value(m, "minimum"@));
        },
        RequirementCandidate::Package { name, provider, minimum, publications, with } => {
            let m = no_members();
            let m = m.push(("kind"@, JsonTree::Text("package"@)));
            let m = m.push(("name"@, JsonTree::Text(name@)));
            let m = if provider is Some {
                m.push(("provider"@, JsonTree::Text(provider->0@)))
            } else {
                m
            };
            let m = if minimum is Some {
                m.push(("minimum"@, JsonTree::Text(minimum->0@)))
            } else {
                m
            };
            let m = m.push(("publications"@, publications.tree()));
            let m = m.push(("with"@, with.tree()));
            lemma_collected(m);
            assert(v.tree() == object_tree(m));
            assert(member(v.tree(), "kind"@) == pair_value(m, "kind"@));
            assert(member(v.tree(), "name"@) == pair_value(m, "name"@));
            assert(member(v.tree(), "provider"@) == pair_value(m, "provider"@));
            assert(member(v.tree(), "minimum"@) == pair_value(m, "minimum"@));
            assert(member(v.tree(), "publications"@) == pair_value(m, "publications"@));
            assert(member(v.tree(), "with"@) == pair_value(m, "with"@));
        },
    }
}

/// The serialised form of a requirement candidate tells all of it.
pub proof fn law_forms_tell_requirement_candidates_apart(a: RequirementCandidate, b: RequirementCandidate)
    requires
        equal(a.tree(), b.tree()),
    ensures
        match (a, b) {
            (
                RequirementCandidate::Command { name: x_name, minimum: x_minimum },
                RequirementCandidate::Command { name: y_name, minimum: y_minimum },
            ) => {
                &&& x_name@ == y_name@
                &&& (x_minimum is Some <==> y_minimum is Some)
                &&& (x_minimum is Some ==> x_minimum->0@ == y_minimum->0@)
            },
            (
                RequirementCandidate::Package { name: x_name, provider: x_provider, minimum: x_minimum, publications: x_publications, with: x_with },
                RequirementCandidate::Package { name: y_name, provider: y_provider, minimum: y_minimum, publications: y_publications, with: y_with },
            ) => {
                &&& x_name@ == y_name@
                &&& (x_provider is Some <==> y_provider is Some)
                &&& (x_provider is Some ==> x_provider->0@ == y_provider->0@)
                &&& (x_minimum is Some <==> y_minimum is Some)
                &&& (x_minimum is Some ==> x_minimum->0@ == y_minimum->0@)
                &&& equal(x_publications.tree(), y_publications.tree())
                &&& equal(x_with.tree(), y_with.tree())
            },
            _ => false,
        },
{
    lemma_requirement_candidate(a);
    lemma_requirement_candidate(b);
    lemma_equal_trees(a.tree(), b.tree(), "kind"@);
    reveal_strlit("command");
    reveal_strlit("package");
    assert("command"@.len() == 7 && "package"@.len() == 7);
    assert("command"@[0] == 'c' && "package"@[0] == 'p');
    match (a, b) {
        (
            RequirementCandidate::Command { name: x_name, minimum: x_minimum },
            RequirementCandidate::Command { name: y_name, minimum: y_minimum },
        ) => {
            lemma_equal_trees(a.tree(), b.tree(), "name"@);
            lemma_equal_trees(a.tree(), b.tree(), "minimum"@);
        },
        (
            RequirementCandidate::Package { name: x_name, provider: x_provider, minimum: x_minimum, publications: x_publications, with: x_with },
            RequirementCandidate::Package { name: y_name, provider: y_provider, minimum: y_minimum, publications: y_publications, with: y_with },
        ) => {
            lemma_equal_trees(a.tree(), b.tree(), "name"@);
            lemma_equal_trees(a.tree(), b.tree(), "provider"@);
            lemma_equal_trees(a.tree(), b.tree(), "minimum"@);
            lemma_equal_trees(a.tree(), b.tree(), "publications"@);
            lemma_equal_trees(a.tree(), b.tree(), "with"@);
        },
        _ => {},
    }
}

/// What stands where in the serialised form.
proof fn lemma_resolution_outcome(v: ResolutionOutcome)
    ensures
        well_formed(v.tree()),
        match v {
            ResolutionOutcome::Selected => {
                &&& member(v.tree(), "kind"@) == Some(JsonTree::Text("selected"@))
            },
            ResolutionOutcome::Unsupported { reason } => {
                &&& member(v.tree(), "kind"@) == Some(JsonTree::Text("unsupported"@))
                &&& member(v.tree(), "reason"@) == Some(JsonTree::Text(reason@))
            },
        },
{
    broadcast use lemma_pair_pushed;

    reveal_strlit("kind");
    reveal_strlit("reason");
    assert("kind"@.len() == 4 && "reason"@.len() == 6);
    match v {
        ResolutionOutcome::Selected => {
            let m = no_members();
            let m = m.push(("kind"@, JsonTree::Text("selected"@)));
            lemma_collected(m);
            assert(v.tree() == object_tree(m));
            assert(member(v.tree(), "kind"@) == pair_value(m, "kind"@));
        },
        ResolutionOutcome::Unsupported { reason } => {
            let m = no_members();
            let m = m.push(("kind"@, JsonTree::Text("unsupported"@)));
            let m = m.push(("reason"@, JsonTree::Text(reason@)));
            lemma_collected(m);
            assert(v.tree() == object_tree(m));
            assert(member(v.tree(), "kind"@) == pair_value(m, "kind"@));
            assert(member(v.tree(), "reason"@) == pair_value(m, "reason"@));
        },
    }
}

/// The serialised form of a resolution outcome tells all of it.
pub proof fn law_forms_tell_resolution_outcomes_apart(a: ResolutionOutcome, b: ResolutionOutcome)
    requires
        equal(a.tree(), b.tree()),
    ensures
        match (a, b) {
            (ResolutionOutcome::Selected, ResolutionOutcome::Selected) => true,
            (
                ResolutionOutcome::Unsupported { reason: x_reason },
                ResolutionOutcome::Unsupported { reason: y_reason },
            ) => {
                &&& x_reason@ == y_reason@
            },
            _ => false,
        },
{
    lemma_resolution_outcome(a);
    lemma_resolution_outcome(b);
    lemma_equal_trees(a.tree(), b.tree(), "kind"@);
    reveal_strlit("selected");
    reveal_strlit("unsupported");
    assert("selected"@.len() == 8 && "unsupported"@.len() == 11);
    match (a, b) {
        (
            ResolutionOutcome::Unsupported { reason: x_reason },
            ResolutionOutcome::Unsupported { reason: y_reason },
        ) => {
            lemma_equal_trees(a.tree(), b.tree(), "reason"@);
        },
        _ => {},
    }
}

/// What stands where in the serialised form.
proof fn lemma_resolution_attempt(v: ResolutionAttempt)
    ensures
        well_formed(v.tree()),
        member(v.tree(), "candidate"@) == Some(JsonTree::Integer(v.candidate as int)),
        member(v.tree(), "provider"@) == Some(JsonTree::Text(v.provider@)),
        member(v.tree(), "outcome"@) == Some(v.outcome.tree()),
{
    broadcast use lemma_pair_pushed;

    reveal_strlit("candidate");
    reveal_strlit("provider");
    reveal_strlit("outcome");
    assert("candidate"@.len() == 9 && "provider"@.len() == 8 && "outcome"@.len() == 7);
    let m = no_members();
    let m = m.push(("candidate"@, JsonTree::Integer(v.candidate as int)));
    let m = m.push(("provider"@, JsonTree::Text(v.provider@)));
    let m = m.push(("outcome"@, v.outcome.tree()));
    lemma_collected(m);
    assert(v.tree() == object_tree(m));
    assert(member(v.tree(), "candidate"@) == pair_value(m, "candidate"@));
    assert(member(v.tree(), "provider"@) == pair_value(m, "provider"@));
    assert(member(v.tree(), "outcome"@) == pair_value(m, "outcome"@));
}

/// The serialised form of a resolution attempt tells all of it.
pub proof fn law_forms_tell_resolution_attempts_apart(a: ResolutionAttempt, b: ResolutionAttempt)
    requires
        equal(a.tree(), b.tree()),
    ensures
        a.candidate == b.candidate,
        a.provider@ == b.provider@,
        equal(a.outcome.tree(), b.outcome.tree()),
{
    lemma_resolution_attempt(a);
    lemma_resolution_attempt(b);
    lemma_equal_trees(a.tree(), b.tree(), "candidate"@);
    lemma_equal_trees(a.tree(), b.tree(), "provider"@);
    lemma_equal_trees(a.tree(), b.tree(), "outcome"@);
}

/// What stands where in the serialised form.
proof fn lemma_provider_binding(v: ProviderBinding)
    ensures
        well_formed(v.tree()),
        member(v.tree(), "provider"@) == Some(JsonTree::Text(v.provider@)),
        member(v.tree(), "identity"@) == Some(JsonTree::Text(v.identity@)),
        member(v.tree(), "elevated"@) == Some(JsonTree::Bool(v.elevated)),
        member(v.tree(), "package"@) == (if v.package is Some {
            Some(JsonTree::Text(v.package->0@))
        } else {
            None
        }),
        member(v.tree(), "publications"@) == Some(v.publications.tree()),
        member(v.tree(), "prerequisites"@) == Some(JsonTree::Array(text_trees(v.prerequisites@))),
        member(v.tree(), "data"@) == Some(v.data.tree()),
{
    broadcast use lemma_pair_pushed;

    reveal_strlit("provider");
    reveal_strlit("identity");
    reveal_strlit("elevated");
    reveal_strlit("package");
    reveal_strlit("publications");
    reveal_strlit("prerequisites");
    reveal_strlit("data");
    assert("provider"@.len() == 8 && "identity"@.len() == 8 && "elevated"@.len() == 8
        && "package"@.len() == 7 && "publications"@.len() == 12 && "prerequisites"@.len() == 13
        && "data"@.len() == 4);
    assert("provider"@[0] == 'p' && "identity"@[0] == 'i' && "elevated"@[0] == 'e');
    let m = no_members();
    let m = m.push(("provider"@, JsonTree::Text(v.provider@)));
    let m = m.push(("identity"@, JsonTree::Text(v.identity@)));
    let m = m.push(("elevated"@, JsonTree::Bool(v.elevated)));
    let m = if v.package is Some {
        m.push(("package"@, JsonTree::Text(v.package->0@)))
    } else {
        m
    };
    let m = m.push(("publications"@, v.publications.tree()));
    let m = m.push(("prerequisites"@, JsonTree::Array(text_trees(v.prerequisites@))));
    let m = m.push(("data"@, v.data.tree()));
    lemma_collected(m);
    assert(v.tree() == object_tree(m));
    assert(member(v.tree(), "provider"@) == pair_value(m, "provider"@));
    assert(member(v.tree(), "identity"@) == pair_value(m, "identity"@));
    assert(member(v.tree(), "elevated"@) == pair_value(m, "elevated"@));
    assert(member(v.tree(), "package"@) == pair_value(m, "package"@));
    assert(member(v.tree(), "publications"@) == pair_value(m, "publications"@));
    assert(member(v.tree(), "prerequisites"@) == pair_value(m, "prerequisites"@));
    assert(member(v.tree(), "data"@) == pair_value(m, "data"@));
}

/// The serialised form of a provider binding tells all of it.
pub proof fn law_forms_tell_provider_bindings_apart(a: ProviderBinding, b: ProviderBinding)
    requires
        equal(a.tree(), b.tree()),
    ensures
        a.provider@ == b.provider@,
        a.identity@ == b.identity@,
        a.elevated == b.elevated,
        a.package is Some <==> b.package is Some,
        a.package is Some ==> a.package->0@ == b.package->0@,
        equal(a.publications.tree(), b.publications.tree()),
        views(a.prerequisites@) == views(b.prerequisites@),
        equal(a.data.tree(), b.data.tree()),
{
    lemma_provider_binding(a);
    lemma_provider_binding(b);
    lemma_equal_trees(a.tree(), b.tree(), "provider"@);
    lemma_equal_trees(a.tree(), b.tree(), "identity"@);
    lemma_equal_trees(a.tree(), b.tree(), "elevated"@);
    lemma_equal_trees(a.tree(), b.tree(), "package"@);
    lemma_equal_trees(a.tree(), b.tree(), "publications"@);
    lemma_equal_trees(a.tree(), b.tree(), "prerequisites"@);
    lemma_equal_texts(a.prerequisites@, b.prerequisites@);
    lemma_equal_trees(a.tree(), b.tree(), "data"@);
}

/// What stands where in the serialised form.
proof fn lemma_requirement(v: Requirement)
    ensures
        well_formed(v.tree()),
        member(v.tree(), "kind"@) == Some(JsonTree::Text(v.kind.wire())),
        member(v.tree(), "owner"@) == Some(JsonTree::Text(v.owner@)),
        member(v.tree(), "declared_at"@) == Some(v.declared_at.tree()),
        member(v.tree(), "candidates"@) == Some(
            JsonTree::Array(requirement_candidate_trees(v.candidates@)),
        ),
        member(v.tree(), "attempts"@) == Some(
            JsonTree::Array(resolution_attempt_trees(v.attempts@)),
        ),
        member(v.tree(), "selected"@) == Some(JsonTree::Integer(v.selected as int)),
        member(v.tree(), "choice"@) == Some(JsonTree::Text(v.choice.wire())),
        member(v.tree(), "binding"@) == Some(v.binding.tree()),
        member(v.tree(), "when"@) == Some(v.when.tree()),
{
    broadcast use lemma_pair_pushed;

    reveal_strlit("kind");
    reveal_strlit("owner");
    reveal_strlit("declared_at");
    reveal_strlit("candidates");
    reveal_strlit("attempts");
    reveal_strlit("selected");
    reveal_strlit("choice");
    reveal_strlit("binding");
    reveal_strlit("when");
    assert("kind"@.len() == 4 && "owner"@.len() == 5 && "declared_at"@.len() == 11
        && "candidates"@.len() == 10 && "attempts"@.len() == 8 && "selected"@.len() == 8
        && "choice"@.len() == 6 && "binding"@.len() == 7 && "when"@.len() == 4);
    assert("kind"@[0] == 'k' && "when"@[0] == 'w');
    assert("attempts"@[0] == 'a' && "selected"@[0] == 's');
    let m = no_members();
    let m = m.push(("kind"@, JsonTree::Text(v.kind.wire())));
    let m = m.push(("owner"@, JsonTree::Text(v.owner@)));
    let m = m.push(("declared_at"@, v.declared_at.tree()));
    let m = m.push(("candidates"@, JsonTree::Array(requirement_candidate_trees(v.candidates@))));
    let m = m.push(("attempts"@, JsonTree::Array(resolution_attempt_trees(v.attempts@))));
    let m = m.push(("selected"@, JsonTree::Integer(v.selected as int)));
    let m = m.push(("choice"@, JsonTree::Text(v.choice.wire())));
    let m = m.push(("binding"@, v.binding.tree()));
    let m = m.push(("when"@, v.when.tree()));
    lemma_collected(m);
    assert(v.tree() == object_tree(m));
    assert(member(v.tree(), "kind"@) == pair_value(m, "kind"@));
    assert(member(v.tree(), "owner"@) == pair_value(m, "owner"@));
    assert(member(v.tree(), "declared_at"@) == pair_value(m, "declared_at"@));
    assert(member(v.tree(), "candidates"@) == pair_value(m, "candidates"@));
    assert(member(v.tree(), "attempts"@) == pair_value(m, "attempts"@));
    assert(member(v.tree(), "selected"@) == pair_value(m, "selected"@));
    assert(member(v.tree(), "choice"@) == pair_value(m, "choice"@));
    assert(member(v.tree(), "binding"@) == pair_value(m, "binding"@));
    assert(member(v.tree(), "when"@) == pair_value(m, "when"@));
}

/// The serialised form of a requirement tells all of it.
pub proof fn law_forms_tell_requirements_apart(a: Requirement, b: Requirement)
    requires
        equal(a.tree(), b.tree()),
    ensures
        a.kind.wire() == b.kind.wire(),
        a.owner@ == b.owner@,
        equal(a.declared_at.tree(), b.declared_at.tree()),
        a.candidates@.len() == b.candidates@.len(),
        forall|i: int|
            0 <= i < a.candidates@.len() ==> equal(
                (#[trigger] a.candidates@[i]).tree(),
                b.candidates@[i].tree(),
            ),
        a.attempts@.len() == b.attempts@.len(),
        forall|i: int|
            0 <= i < a.attempts@.len() ==> equal(
                (#[trigger] a.attempts@[i]).tree(),
                b.attempts@[i].tree(),
            ),
        a.selected == b.selected,
        a.choice.wire() == b.choice.wire(),
        equal(a.binding.tree(), b.binding.tree()),
        equal(a.when.tree(), b.when.tree()),
{
    lemma_requirement(a);
    lemma_requirement(b);
    lemma_equal_trees(a.tree(), b.tree(), "kind"@);
    lemma_equal_trees(a.tree(), b.tree(), "owner"@);
    lemma_equal_trees(a.tree(), b.tree(), "declared_at"@);
    lemma_equal_trees(a.tree(), b.tree(), "candidates"@);
    lemma_equal_items(requirement_candidate_trees(a.candidates@), requirement_candidate_trees(b.candidates@));
    assert forall|i: int| 0 <= i < a.candidates@.len() implies equal(
        (#[trigger] a.candidates@[i]).tree(),
        b.candidates@[i].tree(),
    ) by {
        assert(requirement_candidate_trees(a.candidates@)[i] == a.candidates@[i].tree());
        assert(requirement_candidate_trees(b.candidates@)[i] == b.candidates@[i].tree());
    }
    lemma_equal_trees(a.tree(), b.tree(), "attempts"@);
    lemma_equal_items(resolution_attempt_trees(a.attempts@), resolution_attempt_trees(b.attempts@));
    assert forall|i: int| 0 <= i < a.attempts@.len() implies equal(
        (#[trigger] a.attempts@[i]).tree(),
        b.attempts@[i].tree(),
    ) by {
        assert(resolution_attempt_trees(a.attempts@)[i] == a.attempts@[i].tree());
        assert(resolution_attempt_trees(b.attempts@)[i] == b.attempts@[i].tree());
    }
    lemma_equal_trees(a.tree(), b.tree(), "selected"@);
    lemma_equal_trees(a.tree(), b.tree(), "choice"@);
    lemma_equal_trees(a.tree(), b.tree(), "binding"@);
    lemma_equal_trees(a.tree(), b.tree(), "when"@);
}

/// What stands where in the serialised form.
proof fn lemma_provider_prerequisite(v: ProviderPrerequisite)
    ensures
        well_formed(v.tree()),
        member(v.tree(), "provider"@) == Some(JsonTree::Text(v.provider@)),
        member(v.tree(), "identity"@) == Some(JsonTree::Text(v.identity@)),
        member(v.tree(), "description"@) == Some(JsonTree::Text(v.description@)),
        member(v.tree(), "when"@) == Some(v.when.tree()),
        member(v.tree(), "elevated"@) == Some(JsonTree::Bool(v.elevated)),
        member(v.tree(), "data"@) == Some(v.data.tree()),
{
    broadcast use lemma_pair_pushed;

    reveal_strlit("provider");
    reveal_strlit("identity");
    reveal_strlit("description");
    reveal_strlit("when");
    reveal_strlit("elevated");
    reveal_strlit("data");
    assert("provider"@.len() == 8 && "identity"@.len() == 8 && "description"@.len() == 11
        && "when"@.len() == 4 && "elevated"@.len() == 8 && "data"@.len() == 4);
    assert("provider"@[0] == 'p' && "identity"@[0] == 'i' && "elevated"@[0] == 'e');
    assert("when"@[0] == 'w' && "data"@[0] == 'd');
    let m = no_members();
    let m = m.push(("provider"@, JsonTree::Text(v.provider@)));
    let m = m.push(("identity"@, JsonTree::Text(v.identity@)));
    let m = m.push(("description"@, JsonTree::Text(v.description@)));
    let m = m.push(("when"@, v.when.tree()));
    let m = m.push(("elevated"@, JsonTree::Bool(v.elevated)));
    let m = m.push(("data"@, v.data.tree()));
    lemma_collected(m);
    assert(v.tree() == object_tree(m));
    assert(member(v.tree(), "provider"@) == pair_value(m, "provider"@));
    assert(member(v.tree(), "identity"@) == pair_value(m, "identity"@));
    assert(member(v.tree(), "description"@) == pair_value(m, "description"@));
    assert(member(v.tree(), "when"@) == pair_value(m, "when"@));
    assert(member(v.tree(), "elevated"@) == pair_value(m, "elevated"@));
    assert(member(v.tree(), "data"@) == pair_value(m, "data"@));
}

/// The serialised form of a provider prerequisite tells all of it.
pub proof fn law_forms_tell_provider_prerequisites_apart(a: ProviderPrerequisite, b: ProviderPrerequisite)
    requires
        equal(a.tree(), b.tree()),
    ensures
        a.provider@ == b.provider@,
        a.identity@ == b.identity@,
        a.description@ == b.description@,
        equal(a.when.tree(), b.when.tree()),
        a.elevated == b.elevated,
        equal(a.data.tree(), b.data.tree()),
{
    lemma_provider_prerequisite(a);
    lemma_provider_prerequisite(b);
    lemma_equal_trees(a.tree(), b.tree(), "provider"@);
    lemma_equal_trees(a.tree(), b.tree(), "identity"@);
    lemma_equal_trees(a.tree(), b.tree(), "description"@);
    lemma_equal_trees(a.tree(), b.tree(), "when"@);
    lemma_equal_trees(a.tree(), b.tree(), "elevated"@);
    lemma_equal_trees(a.tree(), b.tree(), "data"@);
}

/// What stands where in the serialised form.
proof fn lemma_provider_preparation(v: ProviderPreparation)
    ensures
        well_formed(v.tree()),
        member(v.tree(), "provider"@) == Some(JsonTree::Text(v.provider@)),
        member(v.tree(), "identity"@) == Some(JsonTree::Text(v.identity@)),
        member(v.tree(), "description"@) == Some(JsonTree::Text(v.description@)),
        member(v.tree(), "elevated"@) == Some(JsonTree::Bool(v.elevated)),
        member(v.tree(), "data"@) == Some(v.data.tree()),
{
    broadcast use lemma_pair_pushed;

    reveal_strlit("provider");
    reveal_strlit("identity");
    reveal_strlit("description");
    reveal_strlit("elevated");
    reveal_strlit("data");
    assert("provider"@.len() == 8 && "identity"@.len() == 8 && "description"@.len() == 11
        && "elevated"@.len() == 8 && "data"@.len() == 4);
    assert("provider"@[0] == 'p' && "identity"@[0] == 'i' && "elevated"@[0] == 'e');
    let m = no_members();
    let m = m.push(("provider"@, JsonTree::Text(v.provider@)));
    let m = m.push(("identity"@, JsonTree::Text(v.identity@)));
    let m = m.push(("description"@, JsonTree::Text(v.description@)));
    let m = m.push(("elevated"@, JsonTree::Bool(v.elevated)));
    let m = m.push(("data"@, v.data.tree()));
    lemma_collected(m);
    assert(v.tree() == object_tree(m));
    assert(member(v.tree(), "provider"@) == pair_value(m, "provider"@));
    assert(member(v.tree(), "identity"@) == pair_value(m, "identity"@));
    assert(member(v.tree(), "description"@) == pair_value(m, "description"@));
    assert(member(v.tree(), "elevated"@) == pair_value(m, "elevated"@));
    assert(member(v.tree(), "data"@) == pair_value(m, "data"@));
}

/// The serialised form of a provider preparation tells all of it.
pub proof fn law_forms_tell_provider_preparations_apart(a: ProviderPreparation, b: ProviderPreparation)
    requires
        equal(a.tree(), b.tree()),
    ensures
        a.provider@ == b.provider@,
        a.identity@ == b.identity@,
        a.description@ == b.description@,
        a.elevated == b.elevated,
        equal(a.data.tree(), b.data.tree()),
{
    lemma_provider_preparation(a);
    lemma_provider_preparation(b);
    lemma_equal_trees(a.tree(), b.tree(), "provider"@);
    lemma_equal_trees(a.tree(), b.tree(), "identity"@);
    lemma_equal_trees(a.tree(), b.tree(), "description"@);
    lemma_equal_trees(a.tree(), b.tree(), "elevated"@);
    lemma_equal_trees(a.tree(), b.tree(), "data"@);
}

/// What stands where in the serialised form.
proof fn lemma_build_input(v: BuildInput)
    ensures
        well_formed(v.tree()),
        member(v.tree(), "name"@) == Some(JsonTree::Text(v.name@)),
        member(v.tree(), "kind"@) == Some(JsonTree::Text(v.kind.wire())),
        member(v.tree(), "value"@) == Some(v.value.tree()),
        member(v.tree(), "origin"@) == Some(JsonTree::Text(v.origin.wire())),
        member(v.tree(), "declared_at"@) == Some(v.declared_at.tree()),
{
    broadcast use lemma_pair_pushed;

    reveal_strlit("name");
    reveal_strlit("kind");
    reveal_strlit("value");
    reveal_strlit("origin");
    reveal_strlit("declared_at");
    assert("name"@.len() == 4 && "kind"@.len() == 4 && "value"@.len() == 5 && "origin"@.len() == 6
        && "declared_at"@.len() == 11);
    assert("name"@[0] == 'n' && "kind"@[0] == 'k');
    let m = no_members();
    let m = m.push(("name"@, JsonTree::Text(v.name@)));
    let m = m.push(("kind"@, JsonTree::Text(v.kind.wire())));
    let m = m.push(("value"@, v.value.tree()));
    let m = m.push(("origin"@, JsonTree::Text(v.origin.wire())));
    let m = m.push(("declared_at"@, v.declared_at.tree()));
    lemma_collected(m);
    assert(v.tree() == object_tree(m));
    assert(member(v.tree(), "name"@) == pair_value(m, "name"@));
    assert(member(v.tree(), "kind"@) == pair_value(m, "kind"@));
    assert(member(v.tree(), "value"@) == pair_value(m, "value"@));
    assert(member(v.tree(), "origin"@) == pair_value(m, "origin"@));
    assert(member(v.tree(), "declared_at"@) == pair_value(m, "declared_at"@));
}

/// The serialised form of a build input tells all of it.
pub proof fn law_forms_tell_build_inputs_apart(a: BuildInput, b: BuildInput)
    requires
        equal(a.tree(), b.tree()),
    ensures
        a.name@ == b.name@,
        a.kind.wire() == b.kind.wire(),
        equal(a.value.tree(), b.value.tree()),
        a.origin.wire() == b.origin.wire(),
        equal(a.declared_at.tree(), b.declared_at.tree()),
{
    lemma_build_input(a);
    lemma_build_input(b);
    lemma_equal_trees(a.tree(), b.tree(), "name"@);
    lemma_equal_trees(a.tree(), b.tree(), "kind"@);
    lemma_equal_trees(a.tree(), b.tree(), "value"@);
    lemma_equal_trees(a.tree(), b.tree(), "origin"@);
    lemma_equal_trees(a.tree(), b.tree(), "declared_at"@);
}

/// What stands where in the serialised form.
proof fn lemma_observation(v: Observation)
    ensures
        well_formed(v.tree()),
        member(v.tree(), "subject"@) == Some(JsonTree::Text(v.subject.wire())),
        member(v.tree(), "path"@) == Some(JsonTree::Text(v.path@)),
        member(v.tree(), "value"@) == Some(v.value.tree()),
{
    broadcast use lemma_pair_pushed;

    reveal_strlit("subject");
    reveal_strlit("path");
    reveal_strlit("value");
    assert("subject"@.len() == 7 && "path"@.len() == 4 && "value"@.len() == 5);
    let m = no_members();
    let m = m.push(("subject"@, JsonTree::Text(v.subject.wire())));
    let m = m.push(("path"@, JsonTree::Text(v.path@)));
    let m = m.push(("value"@, v.value.tree()));
    lemma_collected(m);
    assert(v.tree() == object_tree(m));
    assert(member(v.tree(), "subject"@) == pair_value(m, "subject"@));
    assert(member(v.tree(), "path"@) == pair_value(m, "path"@));
    assert(member(v.tree(), "value"@) == pair_value(m, "value"@));
}

/// The serialised form of an observation tells all of it.
pub proof fn law_forms_tell_observations_apart(a: Observation, b: Observation)
    requires
        equal(a.tree(), b.tree()),
    ensures
        a.subject.wire() == b.subject.wire(),
        a.path@ == b.path@,
        equal(a.value.tree(), b.value.tree()),
{
    lemma_observation(a);
    lemma_observation(b);
    lemma_equal_trees(a.tree(), b.tree(), "subject"@);
    lemma_equal_trees(a.tree(), b.tree(), "path"@);
    lemma_equal_trees(a.tree(), b.tree(), "value"@);
}

/// What stands where in the serialised form.
proof fn lemma_process_invocation(v: ProcessInvocation)
    ensures
        well_formed(v.tree()),
        match v {
            ProcessInvocation::Exec { argv } => {
                &&& member(v.tree(), "kind"@) == Some(JsonTree::Text("exec"@))
                &&& member(v.tree(), "argv"@) == Some(JsonTree::Array(text_trees(argv@)))
            },
            ProcessInvocation::Shell { command, shell } => {
                &&& member(v.tree(), "kind"@) == Some(JsonTree::Text("shell"@))
                &&& member(v.tree(), "command"@) == Some(JsonTree::Text(command@))
                &&& member(v.tree(), "shell"@) == Some(JsonTree::Text(shell@))
            },
        },
{
    broadcast use lemma_pair_pushed;

    reveal_strlit("kind");
    reveal_strlit("argv");
    reveal_strlit("command");
    reveal_strlit("shell");
    assert("kind"@.len() == 4 && "argv"@.len() == 4 && "command"@.len() == 7
        && "shell"@.len() == 5);
    assert("kind"@[0] == 'k' && "argv"@[0] == 'a');
    match v {
        ProcessInvocation::Exec { argv } => {
            let m = no_members();
            let m = m.push(("kind"@, JsonTree::Text("exec"@)));
            let m = m.push(("argv"@, JsonTree::Array(text_trees(argv@))));
            lemma_collected(m);
            assert(v.tree() == object_tree(m));
            assert(member(v.tree(), "kind"@) == pair_value(m, "kind"@));
            assert(member(v.tree(), "argv"@) == pair_value(m, "argv"@));
        },
        ProcessInvocation::Shell { command, shell } => {
            let m = no_members();
            let m = m.push(("kind"@, JsonTree::Text("shell"@)));
            let m = m.push(("command"@, JsonTree::Text(command@)));
            let m = m.push(("shell"@, JsonTree::Text(shell@)));
            lemma_collected(m);
            assert(v.tree() == object_tree(m));
            assert(member(v.tree(), "kind"@) == pair_value(m, "kind"@));
            assert(member(v.tree(), "command"@) == pair_value(m, "command"@));
            assert(member(v.tree(), "shell"@) == pair_value(m, "shell"@));
        },
    }
}

/// The serialised form of a process invocation tells all of it.
pub proof fn law_forms_tell_process_invocations_apart(a: ProcessInvocation, b: ProcessInvocation)
    requires
        equal(a.tree(), b.tree()),
    ensures
        match (a, b) {
            (
                ProcessInvocation::Exec { argv: x_argv },
                ProcessInvocation::Exec { argv: y_argv },
            ) => {
                &&& views(x_argv@) == views(y_argv@)
            },
            (
                ProcessInvocation::Shell { command: x_command, shell: x_shell },
                ProcessInvocation::Shell { command: y_command, shell: y_shell },
            ) => {
                &&& x_command@ == y_command@
                &&& x_shell@ == y_shell@
            },
            _ => false,
        },
{
    lemma_process_invocation(a);
    lemma_process_invocation(b);
    lemma_equal_trees(a.tree(), b.tree(), "kind"@);
    reveal_strlit("exec");
    reveal_strlit("shell");
    assert("exec"@.len() == 4 && "shell"@.len() == 5);
    match (a, b) {
        (ProcessInvocation::Exec { argv: x_argv }, ProcessInvocation::Exec { argv: y_argv }) => {
            lemma_equal_trees(a.tree(), b.tree(), "argv"@);
            lemma_equal_texts(x_argv@, y_argv@);
        },
        (
            ProcessInvocation::Shell { command: x_command, shell: x_shell },
            ProcessInvocation::Shell { command: y_command, shell: y_shell },
        ) => {
            lemma_equal_trees(a.tree(), b.tree(), "command"@);
            lemma_equal_trees(a.tree(), b.tree(), "shell"@);
        },
        _ => {},
    }
}

/// What stands where in the serialised form.
proof fn lemma_process_environment_change(v: ProcessEnvironmentChange)
    ensures
        well_formed(v.tree()),
        member(v.tree(), "name"@) == Some(JsonTree::Text(v.name@)),
        member(v.tree(), "value"@) == Some(optional_text(v.value)),
{
    broadcast use lemma_pair_pushed;

    reveal_strlit("name");
    reveal_strlit("value");
    assert("name"@.len() == 4 && "value"@.len() == 5);
    let m = no_members();
    let m = m.push(("name"@, JsonTree::Text(v.name@)));
    let m = m.push(("value"@, optional_text(v.value)));
    lemma_collected(m);
    assert(v.tree() == object_tree(m));
    assert(member(v.tree(), "name"@) == pair_value(m, "name"@));
    assert(member(v.tree(), "value"@) == pair_value(m, "value"@));
}

/// The serialised form of a process environment change tells all of it.
pub proof fn law_forms_tell_process_environment_changes_apart(a: ProcessEnvironmentChange, b: ProcessEnvironmentChange)
    requires
        equal(a.tree(), b.tree()),
    ensures
        a.name@ == b.name@,
        a.value is Some <==> b.value is Some,
        a.value is Some ==> (a.value->0)@ == (b.value->0)@,
{
    lemma_process_environment_change(a);
    lemma_process_environment_change(b);
    lemma_equal_trees(a.tree(), b.tree(), "name"@);
    lemma_equal_trees(a.tree(), b.tree(), "value"@);
}

/// What stands where in the serialised form.
proof fn lemma_process_observation(v: ProcessObservation)
    ensures
        well_formed(v.tree()),
        member(v.tree(), "invocation"@) == Some(v.invocation.tree()),
        member(v.tree(), "cwd"@) == Some(JsonTree::Text(v.cwd@)),
        member(v.tree(), "environment"@) == Some(
            JsonTree::Array(process_environment_change_trees(v.environment@)),
        ),
        member(v.tree(), "stdin_digest"@) == Some(optional_text(v.stdin_digest)),
        member(v.tree(), "timeout_ms"@) == Some(optional_number(v.timeout_ms)),
        member(v.tree(), "max_output"@) == Some(JsonTree::Integer(v.max_output as int)),
        member(v.tree(), "sensitive"@) == Some(JsonTree::Bool(v.sensitive)),
        member(v.tree(), "ok"@) == Some(JsonTree::Bool(v.ok)),
        member(v.tree(), "code"@) == Some(optional_code(v.code)),
        member(v.tree(), "signal"@) == Some(optional_code(v.signal)),
        member(v.tree(), "stdout_size"@) == Some(JsonTree::Integer(v.stdout_size as int)),
        member(v.tree(), "stdout_digest"@) == Some(JsonTree::Text(v.stdout_digest@)),
        member(v.tree(), "stderr_size"@) == Some(JsonTree::Integer(v.stderr_size as int)),
        member(v.tree(), "stderr_digest"@) == Some(JsonTree::Text(v.stderr_digest@)),
        member(v.tree(), "declared_at"@) == Some(v.declared_at.tree()),
{
    broadcast use lemma_pair_pushed;

    reveal_strlit("invocation");
    reveal_strlit("cwd");
    reveal_strlit("environment");
    reveal_strlit("stdin_digest");
    reveal_strlit("timeout_ms");
    reveal_strlit("max_output");
    reveal_strlit("sensitive");
    reveal_strlit("ok");
    reveal_strlit("code");
    reveal_strlit("signal");
    reveal_strlit("stdout_size");
    reveal_strlit("stdout_digest");
    reveal_strlit("stderr_size");
    reveal_strlit("stderr_digest");
    reveal_strlit("declared_at");
    assert("invocation"@.len() == 10 && "cwd"@.len() == 3 && "environment"@.len() == 11
        && "stdin_digest"@.len() == 12 && "timeout_ms"@.len() == 10 && "max_output"@.len() == 10
        && "sensitive"@.len() == 9 && "ok"@.len() == 2 && "code"@.len() == 4
        && "signal"@.len() == 6 && "stdout_size"@.len() == 11 && "stdout_digest"@.len() == 13
        && "stderr_size"@.len() == 11 && "stderr_digest"@.len() == 13
        && "declared_at"@.len() == 11);
    assert("invocation"@[0] == 'i' && "timeout_ms"@[0] == 't' && "max_output"@[0] == 'm');
    assert("environment"@[3] == 'i' && "stdout_size"@[3] == 'o' && "stderr_size"@[3] == 'e'
        && "declared_at"@[3] == 'l');
    assert("stdout_digest"@[3] == 'o' && "stderr_digest"@[3] == 'e');
    let m = no_members();
    let m = m.push(("invocation"@, v.invocation.tree()));
    let m = m.push(("cwd"@, JsonTree::Text(v.cwd@)));
    let m = m.push(
        ("environment"@, JsonTree::Array(process_environment_change_trees(v.environment@))),
    );
    let m = m.push(("stdin_digest"@, optional_text(v.stdin_digest)));
    let m = m.push(("timeout_ms"@, optional_number(v.timeout_ms)));
    let m = m.push(("max_output"@, JsonTree::Integer(v.max_output as int)));
    let m = m.push(("sensitive"@, JsonTree::Bool(v.sensitive)));
    let m = m.push(("ok"@, JsonTree::Bool(v.ok)));
    let m = m.push(("code"@, optional_code(v.code)));
    let m = m.push(("signal"@, optional_code(v.signal)));
    let m = m.push(("stdout_size"@, JsonTree::Integer(v.stdout_size as int)));
    let m = m.push(("stdout_digest"@, JsonTree::Text(v.stdout_digest@)));
    let m = m.push(("stderr_size"@, JsonTree::Integer(v.stderr_size as int)));
    let m = m.push(("stderr_digest"@, JsonTree::Text(v.stderr_digest@)));
    let m = m.push(("declared_at"@, v.declared_at.tree()));
    lemma_collected(m);
    assert(v.tree() == object_tree(m));
    assert(member(v.tree(), "invocation"@) == pair_value(m, "invocation"@));
    assert(member(v.tree(), "cwd"@) == pair_value(m, "cwd"@));
    assert(member(v.tree(), "environment"@) == pair_value(m, "environment"@));
    assert(member(v.tree(), "stdin_digest"@) == pair_value(m, "stdin_digest"@));
    assert(member(v.tree(), "timeout_ms"@) == pair_value(m, "timeout_ms"@));
    assert(member(v.tree(), "max_output"@) == pair_value(m, "max_output"@));
    assert(member(v.tree(), "sensitive"@) == pair_value(m, "sensitive"@));
    assert(member(v.tree(), "ok"@) == pair_value(m, "ok"@));
    assert(member(v.tree(), "code"@) == pair_value(m, "code"@));
    assert(member(v.tree(), "signal"@) == pair_value(m, "signal"@));
    assert(member(v.tree(), "stdout_size"@) == pair_value(m, "stdout_size"@));
    assert(member(v.tree(), "stdout_digest"@) == pair_value(m, "stdout_digest"@));
    assert(member(v.tree(), "stderr_size"@) == pair_value(m, "stderr_size"@));
    assert(member(v.tree(), "stderr_digest"@) == pair_value(m, "stderr_digest"@));
    assert(member(v.tree(), "declared_at"@) == pair_value(m, "declared_at"@));
}

/// The serialised form of a process observation tells all of it.
pub proof fn law_forms_tell_process_observations_apart(a: ProcessObservation, b: ProcessObservation)
    requires
        equal(a.tree(), b.tree()),
    ensures
        equal(a.invocation.tree(), b.invocation.tree()),
        a.cwd@ == b.cwd@,
        a.environment@.len() == b.environment@.len(),
        forall|i: int|
            0 <= i < a.environment@.len() ==> equal(
                (#[trigger] a.environment@[i]).tree(),
                b.environment@[i].tree(),
            ),
        a.stdin_digest is Some <==> b.stdin_digest is Some,
        a.stdin_digest is Some ==> (a.stdin_digest->0)@ == (b.stdin_digest->0)@,
        a.timeout_ms == b.timeout_ms,
        a.max_output == b.max_output,
        a.sensitive == b.sensitive,
        a.ok == b.ok,
        a.code == b.code,
        a.signal == b.signal,
        a.stdout_size == b.stdout_size,
        a.stdout_digest@ == b.stdout_digest@,
        a.stderr_size == b.stderr_size,
        a.stderr_digest@ == b.stderr_digest@,
        equal(a.declared_at.tree(), b.declared_at.tree()),
{
    lemma_process_observation(a);
    lemma_process_observation(b);
    lemma_equal_trees(a.tree(), b.tree(), "invocation"@);
    lemma_equal_trees(a.tree(), b.tree(), "cwd"@);
    lemma_equal_trees(a.tree(), b.tree(), "environment"@);
    lemma_equal_items(process_environment_change_trees(a.environment@), process_environment_change_trees(b.environment@));
    assert forall|i: int| 0 <= i < a.environment@.len() implies equal(
        (#[trigger] a.environment@[i]).tree(),
        b.environment@[i].tree(),
    ) by {
        assert(process_environment_change_trees(a.environment@)[i] == a.environment@[i].tree());
        assert(process_environment_change_trees(b.environment@)[i] == b.environment@[i].tree());
    }
    lemma_equal_trees(a.tree(), b.tree(), "stdin_digest"@);
    lemma_equal_trees(a.tree(), b.tree(), "timeout_ms"@);
    lemma_equal_trees(a.tree(), b.tree(), "max_output"@);
    lemma_equal_trees(a.tree(), b.tree(), "sensitive"@);
    lemma_equal_trees(a.tree(), b.tree(), "ok"@);
    lemma_equal_trees(a.tree(), b.tree(), "code"@);
    lemma_equal_trees(a.tree(), b.tree(), "signal"@);
    lemma_equal_trees(a.tree(), b.tree(), "stdout_size"@);
    lemma_equal_trees(a.tree(), b.tree(), "stdout_digest"@);
    lemma_equal_trees(a.tree(), b.tree(), "stderr_size"@);
    lemma_equal_trees(a.tree(), b.tree(), "stderr_digest"@);
    lemma_equal_trees(a.tree(), b.tree(), "declared_at"@);
}

/// What stands where in the serialised form.
proof fn lemma_module_source_base(v: ModuleSourceBase)
    ensures
        well_formed(v.tree()),
        member(v.tree(), "declared"@) == Some(JsonTree::Text(v.declared@)),
        member(v.tree(), "expanded"@) == Some(JsonTree::Text(v.expanded@)),
        member(v.tree(), "physical"@) == Some(JsonTree::Text(v.physical@)),
        member(v.tree(), "logical"@) == Some(JsonTree::Text(v.logical@)),
        member(v.tree(), "target"@) == (if v.target is Some {
            Some(JsonTree::Text(v.target->0@))
        } else {
            None
        }),
        member(v.tree(), "hidden"@) == Some(JsonTree::Bool(v.hidden)),
{
    broadcast use lemma_pair_pushed;

    reveal_strlit("declared");
    reveal_strlit("expanded");
    reveal_strlit("physical");
    reveal_strlit("logical");
    reveal_strlit("target");
    reveal_strlit("hidden");
    assert("declared"@.len() == 8 && "expanded"@.len() == 8 && "physical"@.len() == 8
        && "logical"@.len() == 7 && "target"@.len() == 6 && "hidden"@.len() == 6);
    assert("declared"@[0] == 'd' && "expanded"@[0] == 'e' && "physical"@[0] == 'p');
    assert("target"@[0] == 't' && "hidden"@[0] == 'h');
    let m = no_members();
    let m = m.push(("declared"@, JsonTree::Text(v.declared@)));
    let m = m.push(("expanded"@, JsonTree::Text(v.expanded@)));
    let m = m.push(("physical"@, JsonTree::Text(v.physical@)));
    let m = m.push(("logical"@, JsonTree::Text(v.logical@)));
    let m = if v.target is Some {
        m.push(("target"@, JsonTree::Text(v.target->0@)))
    } else {
        m
    };
    let m = m.push(("hidden"@, JsonTree::Bool(v.hidden)));
    lemma_collected(m);
    assert(v.tree() == object_tree(m));
    assert(member(v.tree(), "declared"@) == pair_value(m, "declared"@));
    assert(member(v.tree(), "expanded"@) == pair_value(m, "expanded"@));
    assert(member(v.tree(), "physical"@) == pair_value(m, "physical"@));
    assert(member(v.tree(), "logical"@) == pair_value(m, "logical"@));
    assert(member(v.tree(), "target"@) == pair_value(m, "target"@));
    assert(member(v.tree(), "hidden"@) == pair_value(m, "hidden"@));
}

/// The serialised form of a module source base tells all of it.
pub proof fn law_forms_tell_module_source_bases_apart(a: ModuleSourceBase, b: ModuleSourceBase)
    requires
        equal(a.tree(), b.tree()),
    ensures
        a.declared@ == b.declared@,
        a.expanded@ == b.expanded@,
        a.physical@ == b.physical@,
        a.logical@ == b.logical@,
        a.target is Some <==> b.target is Some,
        a.target is Some ==> a.target->0@ == b.target->0@,
        a.hidden == b.hidden,
{
    lemma_module_source_base(a);
    lemma_module_source_base(b);
    lemma_equal_trees(a.tree(), b.tree(), "declared"@);
    lemma_equal_trees(a.tree(), b.tree(), "expanded"@);
    lemma_equal_trees(a.tree(), b.tree(), "physical"@);
    lemma_equal_trees(a.tree(), b.tree(), "logical"@);
    lemma_equal_trees(a.tree(), b.tree(), "target"@);
    lemma_equal_trees(a.tree(), b.tree(), "hidden"@);
}

/// What stands where in the serialised form.
proof fn lemma_manifest_module(v: ManifestModule)
    ensures
        well_formed(v.tree()),
        member(v.tree(), "name"@) == Some(JsonTree::Text(v.name@)),
        member(v.tree(), "source"@) == Some(JsonTree::Text(v.source@)),
        member(v.tree(), "config"@) == Some(v.config.tree()),
        member(v.tree(), "source_base"@) == (if v.source_base is Some {
            Some(v.source_base->0.tree())
        } else {
            None
        }),
{
    broadcast use lemma_pair_pushed;

    reveal_strlit("name");
    reveal_strlit("source");
    reveal_strlit("config");
    reveal_strlit("source_base");
    assert("name"@.len() == 4 && "source"@.len() == 6 && "config"@.len() == 6
        && "source_base"@.len() == 11);
    assert("source"@[0] == 's' && "config"@[0] == 'c');
    let m = no_members();
    let m = m.push(("name"@, JsonTree::Text(v.name@)));
    let m = m.push(("source"@, JsonTree::Text(v.source@)));
    let m = m.push(("config"@, v.config.tree()));
    let m = if v.source_base is Some {
        m.push(("source_base"@, v.source_base->0.tree()))
    } else {
        m
    };
    lemma_collected(m);
    assert(v.tree() == object_tree(m));
    assert(member(v.tree(), "name"@) == pair_value(m, "name"@));
    assert(member(v.tree(), "source"@) == pair_value(m, "source"@));
    assert(member(v.tree(), "config"@) == pair_value(m, "config"@));
    assert(member(v.tree(), "source_base"@) == pair_value(m, "source_base"@));
}

/// The serialised form of a manifest module tells all of it.
pub proof fn law_forms_tell_manifest_modules_apart(a: ManifestModule, b: ManifestModule)
    requires
        equal(a.tree(), b.tree()),
    ensures
        a.name@ == b.name@,
        a.source@ == b.source@,
        equal(a.config.tree(), b.config.tree()),
        a.source_base is Some <==> b.source_base is Some,
        a.source_base is Some ==> equal(a.source_base->0.tree(), b.source_base->0.tree()),
{
    lemma_manifest_module(a);
    lemma_manifest_module(b);
    lemma_equal_trees(a.tree(), b.tree(), "name"@);
    lemma_equal_trees(a.tree(), b.tree(), "source"@);
    lemma_equal_trees(a.tree(), b.tree(), "config"@);
    lemma_equal_trees(a.tree(), b.tree(), "source_base"@);
}

/// What stands where in the serialised form.
proof fn lemma_dependency(v: Dependency)
    ensures
        well_formed(v.tree()),
        member(v.tree(), "kind"@) == Some(JsonTree::Text(v.kind.wire())),
        member(v.tree(), "from"@) == Some(JsonTree::Text(v.from@)),
        member(v.tree(), "to"@) == Some(JsonTree::Text(v.to@)),
        member(v.tree(), "declared_at"@) == Some(v.declared_at.tree()),
{
    broadcast use lemma_pair_pushed;

    reveal_strlit("kind");
    reveal_strlit("from");
    reveal_strlit("to");
    reveal_strlit("declared_at");
    assert("kind"@.len() == 4 && "from"@.len() == 4 && "to"@.len() == 2
        && "declared_at"@.len() == 11);
    assert("kind"@[0] == 'k' && "from"@[0] == 'f');
    let m = no_members();
    let m = m.push(("kind"@, JsonTree::Text(v.kind.wire())));
    let m = m.push(("from"@, JsonTree::Text(v.from@)));
    let m = m.push(("to"@, JsonTree::Text(v.to@)));
    let m = m.push(("declared_at"@, v.declared_at.tree()));
    lemma_collected(m);
    assert(v.tree() == object_tree(m));
    assert(member(v.tree(), "kind"@) == pair_value(m, "kind"@));
    assert(member(v.tree(), "from"@) == pair_value(m, "from"@));
    assert(member(v.tree(), "to"@) == pair_value(m, "to"@));
    assert(member(v.tree(), "declared_at"@) == pair_value(m, "declared_at"@));
}

/// The serialised form of a dependency tells all of it.
pub proof fn law_forms_tell_dependencies_apart(a: Dependency, b: Dependency)
    requires
        equal(a.tree(), b.tree()),
    ensures
        a.kind.wire() == b.kind.wire(),
        a.from@ == b.from@,
        a.to@ == b.to@,
        equal(a.declared_at.tree(), b.declared_at.tree()),
{
    lemma_dependency(a);
    lemma_dependency(b);
    lemma_equal_trees(a.tree(), b.tree(), "kind"@);
    lemma_equal_trees(a.tree(), b.tree(), "from"@);
    lemma_equal_trees(a.tree(), b.tree(), "to"@);
    lemma_equal_trees(a.tree(), b.tree(), "declared_at"@);
}

/// What stands where in the serialised form.
proof fn lemma_source_origin(v: SourceOrigin)
    ensures
        well_formed(v.tree()),
        match v {
            SourceOrigin::Direct { declared, expanded } => {
                &&& member(v.tree(), "kind"@) == Some(JsonTree::Text("direct"@))
                &&& member(v.tree(), "declared"@) == Some(JsonTree::Text(declared@))
                &&& member(v.tree(), "expanded"@) == Some(JsonTree::Text(expanded@))
            },
            SourceOrigin::Directory { declared, expanded, root, relative, exclusions, allow_empty } => {
                &&& member(v.tree(), "kind"@) == Some(JsonTree::Text("directory"@))
                &&& member(v.tree(), "declared"@) == Some(JsonTree::Text(declared@))
                &&& member(v.tree(), "expanded"@) == Some(JsonTree::Text(expanded@))
                &&& member(v.tree(), "root"@) == Some(JsonTree::Text(root@))
                &&& member(v.tree(), "relative"@) == Some(JsonTree::Text(relative@))
                &&& member(v.tree(), "exclusions"@) == Some(
                    JsonTree::Array(text_trees(exclusions@)),
                )
                &&& member(v.tree(), "allow_empty"@) == Some(JsonTree::Bool(allow_empty))
            },
            SourceOrigin::Generated { name } => {
                &&& member(v.tree(), "kind"@) == Some(JsonTree::Text("generated"@))
                &&& member(v.tree(), "name"@) == Some(JsonTree::Text(name@))
            },
            SourceOrigin::Task { identity, relative } => {
                &&& member(v.tree(), "kind"@) == Some(JsonTree::Text("task"@))
                &&& member(v.tree(), "identity"@) == Some(JsonTree::Text(identity@))
                &&& member(v.tree(), "relative"@) == Some(JsonTree::Text(relative@))
            },
        },
{
    broadcast use lemma_pair_pushed;

    reveal_strlit("kind");
    reveal_strlit("declared");
    reveal_strlit("expanded");
    reveal_strlit("root");
    reveal_strlit("relative");
    reveal_strlit("exclusions");
    reveal_strlit("allow_empty");
    reveal_strlit("name");
    reveal_strlit("identity");
    assert("kind"@.len() == 4 && "declared"@.len() == 8 && "expanded"@.len() == 8
        && "root"@.len() == 4 && "relative"@.len() == 8 && "exclusions"@.len() == 10
        && "allow_empty"@.len() == 11 && "name"@.len() == 4 && "identity"@.len() == 8);
    assert("kind"@[0] == 'k' && "root"@[0] == 'r' && "name"@[0] == 'n');
    assert("declared"@[0] == 'd' && "expanded"@[0] == 'e' && "relative"@[0] == 'r'
        && "identity"@[0] == 'i');
    match v {
        SourceOrigin::Direct { declared, expanded } => {
            let m = no_members();
            let m = m.push(("kind"@, JsonTree::Text("direct"@)));
            let m = m.push(("declared"@, JsonTree::Text(declared@)));
            let m = m.push(("expanded"@, JsonTree::Text(expanded@)));
            lemma_collected(m);
            assert(v.tree() == object_tree(m));
            assert(member(v.tree(), "kind"@) == pair_value(m, "kind"@));
            assert(member(v.tree(), "declared"@) == pair_value(m, "declared"@));
            assert(member(v.tree(), "expanded"@) == pair_value(m, "expanded"@));
        },
        SourceOrigin::Directory { declared, expanded, root, relative, exclusions, allow_empty } => {
            let m = no_members();
            let m = m.push(("kind"@, JsonTree::Text("directory"@)));
            let m = m.push(("declared"@, JsonTree::Text(declared@)));
            let m = m.push(("expanded"@, JsonTree::Text(expanded@)));
            let m = m.push(("root"@, JsonTree::Text(root@)));
            let m = m.push(("relative"@, JsonTree::Text(relative@)));
            let m = m.push(("exclusions"@, JsonTree::Array(text_trees(exclusions@))));
            let m = m.push(("allow_empty"@, JsonTree::Bool(allow_empty)));
            lemma_collected(m);
            assert(v.tree() == object_tree(m));
            assert(member(v.tree(), "kind"@) == pair_value(m, "kind"@));
            assert(member(v.tree(), "declared"@) == pair_value(m, "declared"@));
            assert(member(v.tree(), "expanded"@) == pair_value(m, "expanded"@));
            assert(member(v.tree(), "root"@) == pair_value(m, "root"@));
            assert(member(v.tree(), "relative"@) == pair_value(m, "relative"@));
            assert(member(v.tree(), "exclusions"@) == pair_value(m, "exclusions"@));
            assert(member(v.tree(), "allow_empty"@) == pair_value(m, "allow_empty"@));
        },
        SourceOrigin::Generated { name } => {
            let m = no_members();
            let m = m.push(("kind"@, JsonTree::Text("generated"@)));
            let m = m.push(("name"@, JsonTree::Text(name@)));
            lemma_collected(m);
            assert(v.tree() == object_tree(m));
            assert(member(v.tree(), "kind"@) == pair_value(m, "kind"@));
            assert(member(v.tree(), "name"@) == pair_value(m, "name"@));
        },
        SourceOrigin::Task { identity, relative } => {
            let m = no_members();
            let m = m.push(("kind"@, JsonTree::Text("task"@)));
            let m = m.push(("identity"@, JsonTree::Text(identity@)));
            let m = m.push(("relative"@, JsonTree::Text(relative@)));
            lemma_collected(m);
            assert(v.tree() == object_tree(m));
            assert(member(v.tree(), "kind"@) == pair_value(m, "kind"@));
            assert(member(v.tree(), "identity"@) == pair_value(m, "identity"@));
            assert(member(v.tree(), "relative"@) == pair_value(m, "relative"@));
        },
    }
}

/// The serialised form of a source origin tells all of it.
pub proof fn law_forms_tell_source_origins_apart(a: SourceOrigin, b: SourceOrigin)
    requires
        equal(a.tree(), b.tree()),
    ensures
        match (a, b) {
            (
                SourceOrigin::Direct { declared: x_declared, expanded: x_expanded },
                SourceOrigin::Direct { declared: y_declared, expanded: y_expanded },
            ) => {
                &&& x_declared@ == y_declared@
                &&& x_expanded@ == y_expanded@
            },
            (
                SourceOrigin::Directory { declared: x_declared, expanded: x_expanded, root: x_root, relative: x_relative, exclusions: x_exclusions, allow_empty: x_allow_empty },
                SourceOrigin::Directory { declared: y_declared, expanded: y_expanded, root: y_root, relative: y_relative, exclusions: y_exclusions, allow_empty: y_allow_empty },
            ) => {
                &&& x_declared@ == y_declared@
                &&& x_expanded@ == y_expanded@
                &&& x_root@ == y_root@
                &&& x_relative@ == y_relative@
                &&& views(x_exclusions@) == views(y_exclusions@)
                &&& x_allow_empty == y_allow_empty
            },
            (
                SourceOrigin::Generated { name: x_name },
                SourceOrigin::Generated { name: y_name },
            ) => {
                &&& x_name@ == y_name@
            },
            (
                SourceOrigin::Task { identity: x_identity, relative: x_relative },
                SourceOrigin::Task { identity: y_identity, relative: y_relative },
            ) => {
                &&& x_identity@ == y_identity@
                &&& x_relative@ == y_relative@
            },
            _ => false,
        },
{
    lemma_source_origin(a);
    lemma_source_origin(b);
    lemma_equal_trees(a.tree(), b.tree(), "kind"@);
    reveal_strlit("direct");
    reveal_strlit("directory");
    reveal_strlit("generated");
    reveal_strlit("task");
    assert("direct"@.len() == 6 && "directory"@.len() == 9 && "generated"@.len() == 9
        && "task"@.len() == 4);
    assert("directory"@[0] == 'd' && "generated"@[0] == 'g');
    match (a, b) {
        (
            SourceOrigin::Direct { declared: x_declared, expanded: x_expanded },
            SourceOrigin::Direct { declared: y_declared, expanded: y_expanded },
        ) => {
            lemma_equal_trees(a.tree(), b.tree(), "declared"@);
            lemma_equal_trees(a.tree(), b.tree(), "expanded"@);
        },
        (
            SourceOrigin::Directory { declared: x_declared, expanded: x_expanded, root: x_root, relative: x_relative, exclusions: x_exclusions, allow_empty: x_allow_empty },
            SourceOrigin::Directory { declared: y_declared, expanded: y_expanded, root: y_root, relative: y_relative, exclusions: y_exclusions, allow_empty: y_allow_empty },
        ) => {
            lemma_equal_trees(a.tree(), b.tree(), "declared"@);
            lemma_equal_trees(a.tree(), b.tree(), "expanded"@);
            lemma_equal_trees(a.tree(), b.tree(), "root"@);
            lemma_equal_trees(a.tree(), b.tree(), "relative"@);
            lemma_equal_trees(a.tree(), b.tree(), "exclusions"@);
            lemma_equal_texts(x_exclusions@, y_exclusions@);
            lemma_equal_trees(a.tree(), b.tree(), "allow_empty"@);
        },
        (SourceOrigin::Generated { name: x_name }, SourceOrigin::Generated { name: y_name }) => {
            lemma_equal_trees(a.tree(), b.tree(), "name"@);
        },
        (
            SourceOrigin::Task { identity: x_identity, relative: x_relative },
            SourceOrigin::Task { identity: y_identity, relative: y_relative },
        ) => {
            lemma_equal_trees(a.tree(), b.tree(), "identity"@);
            lemma_equal_trees(a.tree(), b.tree(), "relative"@);
        },
        _ => {},
    }
}

/// What stands where in the serialised form.
proof fn lemma_source_component(v: SourceComponent)
    ensures
        well_formed(v.tree()),
        member(v.tree(), "physical"@) == Some(JsonTree::Text(v.physical@)),
        member(v.tree(), "logical"@) == Some(JsonTree::Text(v.logical@)),
        member(v.tree(), "attributes"@) == Some(
            JsonTree::Array(source_attribute_trees(v.attributes@)),
        ),
{
    broadcast use lemma_pair_pushed;

    reveal_strlit("physical");
    reveal_strlit("logical");
    reveal_strlit("attributes");
    assert("physical"@.len() == 8 && "logical"@.len() == 7 && "attributes"@.len() == 10);
    let m = no_members();
    let m = m.push(("physical"@, JsonTree::Text(v.physical@)));
    let m = m.push(("logical"@, JsonTree::Text(v.logical@)));
    let m = m.push(("attributes"@, JsonTree::Array(source_attribute_trees(v.attributes@))));
    lemma_collected(m);
    assert(v.tree() == object_tree(m));
    assert(member(v.tree(), "physical"@) == pair_value(m, "physical"@));
    assert(member(v.tree(), "logical"@) == pair_value(m, "logical"@));
    assert(member(v.tree(), "attributes"@) == pair_value(m, "attributes"@));
}

/// The serialised form of a source component tells all of it.
pub proof fn law_forms_tell_source_components_apart(a: SourceComponent, b: SourceComponent)
    requires
        equal(a.tree(), b.tree()),
    ensures
        a.physical@ == b.physical@,
        a.logical@ == b.logical@,
        a.attributes@.len() == b.attributes@.len(),
        forall|i: int|
            0 <= i < a.attributes@.len() ==> (#[trigger] a.attributes@[i]).wire()
                == b.attributes@[i].wire(),
{
    lemma_source_component(a);
    lemma_source_component(b);
    lemma_equal_trees(a.tree(), b.tree(), "physical"@);
    lemma_equal_trees(a.tree(), b.tree(), "logical"@);
    lemma_equal_trees(a.tree(), b.tree(), "attributes"@);
    lemma_equal_items(source_attribute_trees(a.attributes@), source_attribute_trees(b.attributes@));
    assert forall|i: int| 0 <= i < a.attributes@.len() implies (#[trigger] a.attributes@[i]).wire()
        == b.attributes@[i].wire() by {
        assert(source_attribute_trees(a.attributes@)[i] == JsonTree::Text(a.attributes@[i].wire()));
        assert(source_attribute_trees(b.attributes@)[i] == JsonTree::Text(b.attributes@[i].wire()));
    }
}

/// What stands where in the serialised form.
proof fn lemma_source_projection(v: SourceProjection)
    ensures
        well_formed(v.tree()),
        member(v.tree(), "physical"@) == Some(JsonTree::Text(v.physical@)),
        member(v.tree(), "logical"@) == Some(JsonTree::Text(v.logical@)),
        member(v.tree(), "allocated"@) == Some(JsonTree::Bool(v.allocated)),
        member(v.tree(), "hidden"@) == Some(JsonTree::Bool(v.hidden)),
        member(v.tree(), "components"@) == Some(
            JsonTree::Array(source_component_trees(v.components@)),
        ),
{
    broadcast use lemma_pair_pushed;

    reveal_strlit("physical");
    reveal_strlit("logical");
    reveal_strlit("allocated");
    reveal_strlit("hidden");
    reveal_strlit("components");
    assert("physical"@.len() == 8 && "logical"@.len() == 7 && "allocated"@.len() == 9
        && "hidden"@.len() == 6 && "components"@.len() == 10);
    let m = no_members();
    let m = m.push(("physical"@, JsonTree::Text(v.physical@)));
    let m = m.push(("logical"@, JsonTree::Text(v.logical@)));
    let m = m.push(("allocated"@, JsonTree::Bool(v.allocated)));
    let m = m.push(("hidden"@, JsonTree::Bool(v.hidden)));
    let m = m.push(("components"@, JsonTree::Array(source_component_trees(v.components@))));
    lemma_collected(m);
    assert(v.tree() == object_tree(m));
    assert(member(v.tree(), "physical"@) == pair_value(m, "physical"@));
    assert(member(v.tree(), "logical"@) == pair_value(m, "logical"@));
    assert(member(v.tree(), "allocated"@) == pair_value(m, "allocated"@));
    assert(member(v.tree(), "hidden"@) == pair_value(m, "hidden"@));
    assert(member(v.tree(), "components"@) == pair_value(m, "components"@));
}

/// The serialised form of a source projection tells all of it.
pub proof fn law_forms_tell_source_projections_apart(a: SourceProjection, b: SourceProjection)
    requires
        equal(a.tree(), b.tree()),
    ensures
        a.physical@ == b.physical@,
        a.logical@ == b.logical@,
        a.allocated == b.allocated,
        a.hidden == b.hidden,
        a.components@.len() == b.components@.len(),
        forall|i: int|
            0 <= i < a.components@.len() ==> equal(
                (#[trigger] a.components@[i]).tree(),
                b.components@[i].tree(),
            ),
{
    lemma_source_projection(a);
    lemma_source_projection(b);
    lemma_equal_trees(a.tree(), b.tree(), "physical"@);
    lemma_equal_trees(a.tree(), b.tree(), "logical"@);
    lemma_equal_trees(a.tree(), b.tree(), "allocated"@);
    lemma_equal_trees(a.tree(), b.tree(), "hidden"@);
    lemma_equal_trees(a.tree(), b.tree(), "components"@);
    lemma_equal_items(source_component_trees(a.components@), source_component_trees(b.components@));
    assert forall|i: int| 0 <= i < a.components@.len() implies equal(
        (#[trigger] a.components@[i]).tree(),
        b.components@[i].tree(),
    ) by {
        assert(source_component_trees(a.components@)[i] == a.components@[i].tree());
        assert(source_component_trees(b.components@)[i] == b.components@[i].tree());
    }
}

/// What stands where in the serialised form.
proof fn lemma_target_origin(v: TargetOrigin)
    ensures
        well_formed(v.tree()),
        match v {
            TargetOrigin::Explicit { declared } => {
                &&& member(v.tree(), "kind"@) == Some(JsonTree::Text("explicit"@))
                &&& member(v.tree(), "declared"@) == Some(JsonTree::Text(declared@))
            },
            TargetOrigin::Inferred { source } => {
                &&& member(v.tree(), "kind"@) == Some(JsonTree::Text("inferred"@))
                &&& member(v.tree(), "source"@) == Some(JsonTree::Text(source@))
            },
            TargetOrigin::DirectoryExplicit { declared, relative } => {
                &&& member(v.tree(), "kind"@) == Some(JsonTree::Text("directory_explicit"@))
                &&& member(v.tree(), "declared"@) == Some(JsonTree::Text(declared@))
                &&& member(v.tree(), "relative"@) == Some(JsonTree::Text(relative@))
            },
        },
{
    broadcast use lemma_pair_pushed;

    reveal_strlit("kind");
    reveal_strlit("declared");
    reveal_strlit("source");
    reveal_strlit("relative");
    assert("kind"@.len() == 4 && "declared"@.len() == 8 && "source"@.len() == 6
        && "relative"@.len() == 8);
    assert("declared"@[0] == 'd' && "relative"@[0] == 'r');
    match v {
        TargetOrigin::Explicit { declared } => {
            let m = no_members();
            let m = m.push(("kind"@, JsonTree::Text("explicit"@)));
            let m = m.push(("declared"@, JsonTree::Text(declared@)));
            lemma_collected(m);
            assert(v.tree() == object_tree(m));
            assert(member(v.tree(), "kind"@) == pair_value(m, "kind"@));
            assert(member(v.tree(), "declared"@) == pair_value(m, "declared"@));
        },
        TargetOrigin::Inferred { source } => {
            let m = no_members();
            let m = m.push(("kind"@, JsonTree::Text("inferred"@)));
            let m = m.push(("source"@, JsonTree::Text(source@)));
            lemma_collected(m);
            assert(v.tree() == object_tree(m));
            assert(member(v.tree(), "kind"@) == pair_value(m, "kind"@));
            assert(member(v.tree(), "source"@) == pair_value(m, "source"@));
        },
        TargetOrigin::DirectoryExplicit { declared, relative } => {
            let m = no_members();
            let m = m.push(("kind"@, JsonTree::Text("directory_explicit"@)));
            let m = m.push(("declared"@, JsonTree::Text(declared@)));
            let m = m.push(("relative"@, JsonTree::Text(relative@)));
            lemma_collected(m);
            assert(v.tree() == object_tree(m));
            assert(member(v.tree(), "kind"@) == pair_value(m, "kind"@));
            assert(member(v.tree(), "declared"@) == pair_value(m, "declared"@));
            assert(member(v.tree(), "relative"@) == pair_value(m, "relative"@));
        },
    }
}

/// The serialised form of a target origin tells all of it.
pub proof fn law_forms_tell_target_origins_apart(a: TargetOrigin, b: TargetOrigin)
    requires
        equal(a.tree(), b.tree()),
    ensures
        match (a, b) {
            (
                TargetOrigin::Explicit { declared: x_declared },
                TargetOrigin::Explicit { declared: y_declared },
            ) => {
                &&& x_declared@ == y_declared@
            },
            (
                TargetOrigin::Inferred { source: x_source },
                TargetOrigin::Inferred { source: y_source },
            ) => {
                &&& x_source@ == y_source@
            },
            (
                TargetOrigin::DirectoryExplicit { declared: x_declared, relative: x_relative },
                TargetOrigin::DirectoryExplicit { declared: y_declared, relative: y_relative },
            ) => {
                &&& x_declared@ == y_declared@
                &&& x_relative@ == y_relative@
            },
            _ => false,
        },
{
    lemma_target_origin(a);
    lemma_target_origin(b);
    lemma_equal_trees(a.tree(), b.tree(), "kind"@);
    reveal_strlit("explicit");
    reveal_strlit("inferred");
    reveal_strlit("directory_explicit");
    assert("explicit"@.len() == 8 && "inferred"@.len() == 8 && "directory_explicit"@.len() == 18);
    assert("explicit"@[0] == 'e' && "inferred"@[0] == 'i');
    match (a, b) {
        (
            TargetOrigin::Explicit { declared: x_declared },
            TargetOrigin::Explicit { declared: y_declared },
        ) => {
            lemma_equal_trees(a.tree(), b.tree(), "declared"@);
        },
        (
            TargetOrigin::Inferred { source: x_source },
            TargetOrigin::Inferred { source: y_source },
        ) => {
            lemma_equal_trees(a.tree(), b.tree(), "source"@);
        },
        (
            TargetOrigin::DirectoryExplicit { declared: x_declared, relative: x_relative },
            TargetOrigin::DirectoryExplicit { declared: y_declared, relative: y_relative },
        ) => {
            lemma_equal_trees(a.tree(), b.tree(), "declared"@);
            lemma_equal_trees(a.tree(), b.tree(), "relative"@);
        },
        _ => {},
    }
}

/// What stands where in the serialised form.
proof fn lemma_target_path(v: TargetPath)
    ensures
        well_formed(v.tree()),
        member(v.tree(), "path"@) == Some(JsonTree::Text(v.path@)),
        member(v.tree(), "scope"@) == Some(JsonTree::Text(v.scope.wire())),
        member(v.tree(), "origin"@) == Some(v.origin.tree()),
{
    broadcast use lemma_pair_pushed;

    reveal_strlit("path");
    reveal_strlit("scope");
    reveal_strlit("origin");
    assert("path"@.len() == 4 && "scope"@.len() == 5 && "origin"@.len() == 6);
    let m = no_members();
    let m = m.push(("path"@, JsonTree::Text(v.path@)));
    let m = m.push(("scope"@, JsonTree::Text(v.scope.wire())));
    let m = m.push(("origin"@, v.origin.tree()));
    lemma_collected(m);
    assert(v.tree() == object_tree(m));
    assert(member(v.tree(), "path"@) == pair_value(m, "path"@));
    assert(member(v.tree(), "scope"@) == pair_value(m, "scope"@));
    assert(member(v.tree(), "origin"@) == pair_value(m, "origin"@));
}

/// The serialised form of a target path tells all of it.
pub proof fn law_forms_tell_target_paths_apart(a: TargetPath, b: TargetPath)
    requires
        equal(a.tree(), b.tree()),
    ensures
        a.path@ == b.path@,
        a.scope.wire() == b.scope.wire(),
        equal(a.origin.tree(), b.origin.tree()),
{
    lemma_target_path(a);
    lemma_target_path(b);
    lemma_equal_trees(a.tree(), b.tree(), "path"@);
    lemma_equal_trees(a.tree(), b.tree(), "scope"@);
    lemma_equal_trees(a.tree(), b.tree(), "origin"@);
}

/// What stands where in the serialised form.
proof fn lemma_renderer_identity(v: RendererIdentity)
    ensures
        well_formed(v.tree()),
        member(v.tree(), "name"@) == Some(JsonTree::Text(v.name@)),
        member(v.tree(), "contract_version"@) == Some(JsonTree::Integer(v.contract_version as int)),
{
    broadcast use lemma_pair_pushed;

    reveal_strlit("name");
    reveal_strlit("contract_version");
    assert("name"@.len() == 4 && "contract_version"@.len() == 16);
    let m = no_members();
    let m = m.push(("name"@, JsonTree::Text(v.name@)));
    let m = m.push(("contract_version"@, JsonTree::Integer(v.contract_version as int)));
    lemma_collected(m);
    assert(v.tree() == object_tree(m));
    assert(member(v.tree(), "name"@) == pair_value(m, "name"@));
    assert(member(v.tree(), "contract_version"@) == pair_value(m, "contract_version"@));
}

/// The serialised form of a renderer identity tells all of it.
pub proof fn law_forms_tell_renderer_identities_apart(a: RendererIdentity, b: RendererIdentity)
    requires
        equal(a.tree(), b.tree()),
    ensures
        a.name@ == b.name@,
        a.contract_version == b.contract_version,
{
    lemma_renderer_identity(a);
    lemma_renderer_identity(b);
    lemma_equal_trees(a.tree(), b.tree(), "name"@);
    lemma_equal_trees(a.tree(), b.tree(), "contract_version"@);
}

/// What stands where in the serialised form.
proof fn lemma_file_content(v: FileContent)
    ensures
        well_formed(v.tree()),
        member(v.tree(), "digest"@) == Some(JsonTree::Text(v.digest@)),
        member(v.tree(), "size"@) == Some(JsonTree::Integer(v.size as int)),
        member(v.tree(), "executable"@) == Some(JsonTree::Bool(v.executable)),
{
    broadcast use lemma_pair_pushed;

    reveal_strlit("digest");
    reveal_strlit("size");
    reveal_strlit("executable");
    assert("digest"@.len() == 6 && "size"@.len() == 4 && "executable"@.len() == 10);
    let m = no_members();
    let m = m.push(("digest"@, JsonTree::Text(v.digest@)));
    let m = m.push(("size"@, JsonTree::Integer(v.size as int)));
    let m = m.push(("executable"@, JsonTree::Bool(v.executable)));
    lemma_collected(m);
    assert(v.tree() == object_tree(m));
    assert(member(v.tree(), "digest"@) == pair_value(m, "digest"@));
    assert(member(v.tree(), "size"@) == pair_value(m, "size"@));
    assert(member(v.tree(), "executable"@) == pair_value(m, "executable"@));
}

/// The serialised form of a file content tells all of it.
pub proof fn law_forms_tell_file_contents_apart(a: FileContent, b: FileContent)
    requires
        equal(a.tree(), b.tree()),
    ensures
        a.digest@ == b.digest@,
        a.size == b.size,
        a.executable == b.executable,
{
    lemma_file_content(a);
    lemma_file_content(b);
    lemma_equal_trees(a.tree(), b.tree(), "digest"@);
    lemma_equal_trees(a.tree(), b.tree(), "size"@);
    lemma_equal_trees(a.tree(), b.tree(), "executable"@);
}

/// What stands where in the serialised form.
proof fn lemma_production(v: Production)
    ensures
        well_formed(v.tree()),
        match v {
            Production::Static => {
                &&& member(v.tree(), "kind"@) == Some(JsonTree::Text("static"@))
            },
            Production::Template { renderer, source_digest, context } => {
                &&& member(v.tree(), "kind"@) == Some(JsonTree::Text("template"@))
                &&& member(v.tree(), "renderer"@) == Some(renderer.tree())
                &&& member(v.tree(), "source_digest"@) == Some(JsonTree::Text(source_digest@))
                &&& member(v.tree(), "context"@) == Some(context.tree())
            },
            Production::GeneratedLua { contract_version } => {
                &&& member(v.tree(), "kind"@) == Some(JsonTree::Text("generated_lua"@))
                &&& member(v.tree(), "contract_version"@) == Some(
                    JsonTree::Integer(contract_version as int),
                )
            },
            Production::Task { contract_version, identity, output } => {
                &&& member(v.tree(), "kind"@) == Some(JsonTree::Text("task"@))
                &&& member(v.tree(), "contract_version"@) == Some(
                    JsonTree::Integer(contract_version as int),
                )
                &&& member(v.tree(), "identity"@) == Some(JsonTree::Text(identity@))
                &&& member(v.tree(), "output"@) == Some(JsonTree::Text(output@))
            },
        },
{
    broadcast use lemma_pair_pushed;

    reveal_strlit("kind");
    reveal_strlit("renderer");
    reveal_strlit("source_digest");
    reveal_strlit("context");
    reveal_strlit("contract_version");
    reveal_strlit("identity");
    reveal_strlit("output");
    assert("kind"@.len() == 4 && "renderer"@.len() == 8 && "source_digest"@.len() == 13
        && "context"@.len() == 7 && "contract_version"@.len() == 16 && "identity"@.len() == 8
        && "output"@.len() == 6);
    assert("renderer"@[0] == 'r' && "identity"@[0] == 'i');
    match v {
        Production::Static => {
            let m = no_members();
            let m = m.push(("kind"@, JsonTree::Text("static"@)));
            lemma_collected(m);
            assert(v.tree() == object_tree(m));
            assert(member(v.tree(), "kind"@) == pair_value(m, "kind"@));
        },
        Production::Template { renderer, source_digest, context } => {
            let m = no_members();
            let m = m.push(("kind"@, JsonTree::Text("template"@)));
            let m = m.push(("renderer"@, renderer.tree()));
            let m = m.push(("source_digest"@, JsonTree::Text(source_digest@)));
            let m = m.push(("context"@, context.tree()));
            lemma_collected(m);
            assert(v.tree() == object_tree(m));
            assert(member(v.tree(), "kind"@) == pair_value(m, "kind"@));
            assert(member(v.tree(), "renderer"@) == pair_value(m, "renderer"@));
            assert(member(v.tree(), "source_digest"@) == pair_value(m, "source_digest"@));
            assert(member(v.tree(), "context"@) == pair_value(m, "context"@));
        },
        Production::GeneratedLua { contract_version } => {
            let m = no_members();
            let m = m.push(("kind"@, JsonTree::Text("generated_lua"@)));
            let m = m.push(("contract_version"@, JsonTree::Integer(contract_version as int)));
            lemma_collected(m);
            assert(v.tree() == object_tree(m));
            assert(member(v.tree(), "kind"@) == pair_value(m, "kind"@));
            assert(member(v.tree(), "contract_version"@) == pair_value(m, "contract_version"@));
        },
        Production::Task { contract_version, identity, output } => {
            let m = no_members();
            let m = m.push(("kind"@, JsonTree::Text("task"@)));
            let m = m.push(("contract_version"@, JsonTree::Integer(contract_version as int)));
            let m = m.push(("identity"@, JsonTree::Text(identity@)));
            let m = m.push(("output"@, JsonTree::Text(output@)));
            lemma_collected(m);
            assert(v.tree() == object_tree(m));
            assert(member(v.tree(), "kind"@) == pair_value(m, "kind"@));
            assert(member(v.tree(), "contract_version"@) == pair_value(m, "contract_version"@));
            assert(member(v.tree(), "identity"@) == pair_value(m, "identity"@));
            assert(member(v.tree(), "output"@) == pair_value(m, "output"@));
        },
    }
}

/// The serialised form of a production tells all of it.
pub proof fn law_forms_tell_productions_apart(a: Production, b: Production)
    requires
        equal(a.tree(), b.tree()),
    ensures
        match (a, b) {
            (Production::Static, Production::Static) => true,
            (
                Production::Template { renderer: x_renderer, source_digest: x_source_digest, context: x_context },
                Production::Template { renderer: y_renderer, source_digest: y_source_digest, context: y_context },
            ) => {
                &&& equal(x_renderer.tree(), y_renderer.tree())
                &&& x_source_digest@ == y_source_digest@
                &&& equal(x_context.tree(), y_context.tree())
            },
            (
                Production::GeneratedLua { contract_version: x_contract_version },
                Production::GeneratedLua { contract_version: y_contract_version },
            ) => {
                &&& x_contract_version == y_contract_version
            },
            (
                Production::Task { contract_version: x_contract_version, identity: x_identity, output: x_output },
                Production::Task { contract_version: y_contract_version, identity: y_identity, output: y_output },
            ) => {
                &&& x_contract_version == y_contract_version
                &&& x_identity@ == y_identity@
                &&& x_output@ == y_output@
            },
            _ => false,
        },
{
    lemma_production(a);
    lemma_production(b);
    lemma_equal_trees(a.tree(), b.tree(), "kind"@);
    reveal_strlit("static");
    reveal_strlit("template");
    reveal_strlit("generated_lua");
    reveal_strlit("task");
    assert("static"@.len() == 6 && "template"@.len() == 8 && "generated_lua"@.len() == 13
        && "task"@.len() == 4);
    match (a, b) {
        (
            Production::Template { renderer: x_renderer, source_digest: x_source_digest, context: x_context },
            Production::Template { renderer: y_renderer, source_digest: y_source_digest, context: y_context },
        ) => {
            lemma_equal_trees(a.tree(), b.tree(), "renderer"@);
            lemma_equal_trees(a.tree(), b.tree(), "source_digest"@);
            lemma_equal_trees(a.tree(), b.tree(), "context"@);
        },
        (
            Production::GeneratedLua { contract_version: x_contract_version },
            Production::GeneratedLua { contract_version: y_contract_version },
        ) => {
            lemma_equal_trees(a.tree(), b.tree(), "contract_version"@);
        },
        (
            Production::Task { contract_version: x_contract_version, identity: x_identity, output: x_output },
            Production::Task { contract_version: y_contract_version, identity: y_identity, output: y_output },
        ) => {
            lemma_equal_trees(a.tree(), b.tree(), "contract_version"@);
            lemma_equal_trees(a.tree(), b.tree(), "identity"@);
            lemma_equal_trees(a.tree(), b.tree(), "output"@);
        },
        _ => {},
    }
}

/// What stands where in the serialised form.
proof fn lemma_artifact(v: Artifact)
    ensures
        well_formed(v.tree()),
        member(v.tree(), "kind"@) == Some(JsonTree::Text(v.kind.wire())),
        member(v.tree(), "source"@) == Some(JsonTree::Text(v.source@)),
        member(v.tree(), "source_origin"@) == Some(v.source_origin.tree()),
        member(v.tree(), "source_projection"@) == (if v.source_projection is Some {
            Some(v.source_projection->0.tree())
        } else {
            None
        }),
        member(v.tree(), "production"@) == Some(v.production.tree()),
        member(v.tree(), "target"@) == Some(v.target.tree()),
        member(v.tree(), "content"@) == Some(v.content.tree()),
        member(v.tree(), "owner"@) == Some(JsonTree::Text(v.owner@)),
        member(v.tree(), "declared_at"@) == Some(v.declared_at.tree()),
{
    broadcast use lemma_pair_pushed;

    reveal_strlit("kind");
    reveal_strlit("source");
    reveal_strlit("source_origin");
    reveal_strlit("source_projection");
    reveal_strlit("production");
    reveal_strlit("target");
    reveal_strlit("content");
    reveal_strlit("owner");
    reveal_strlit("declared_at");
    assert("kind"@.len() == 4 && "source"@.len() == 6 && "source_origin"@.len() == 13
        && "source_projection"@.len() == 17 && "production"@.len() == 10 && "target"@.len() == 6
        && "content"@.len() == 7 && "owner"@.len() == 5 && "declared_at"@.len() == 11);
    assert("source"@[0] == 's' && "target"@[0] == 't');
    let m = no_members();
    let m = m.push(("kind"@, JsonTree::Text(v.kind.wire())));
    let m = m.push(("source"@, JsonTree::Text(v.source@)));
    let m = m.push(("source_origin"@, v.source_origin.tree()));
    let m = if v.source_projection is Some {
        m.push(("source_projection"@, v.source_projection->0.tree()))
    } else {
        m
    };
    let m = m.push(("production"@, v.production.tree()));
    let m = m.push(("target"@, v.target.tree()));
    let m = m.push(("content"@, v.content.tree()));
    let m = m.push(("owner"@, JsonTree::Text(v.owner@)));
    let m = m.push(("declared_at"@, v.declared_at.tree()));
    lemma_collected(m);
    assert(v.tree() == object_tree(m));
    assert(member(v.tree(), "kind"@) == pair_value(m, "kind"@));
    assert(member(v.tree(), "source"@) == pair_value(m, "source"@));
    assert(member(v.tree(), "source_origin"@) == pair_value(m, "source_origin"@));
    assert(member(v.tree(), "source_projection"@) == pair_value(m, "source_projection"@));
    assert(member(v.tree(), "production"@) == pair_value(m, "production"@));
    assert(member(v.tree(), "target"@) == pair_value(m, "target"@));
    assert(member(v.tree(), "content"@) == pair_value(m, "content"@));
    assert(member(v.tree(), "owner"@) == pair_value(m, "owner"@));
    assert(member(v.tree(), "declared_at"@) == pair_value(m, "declared_at"@));
}

/// The serialised form of an artifact tells all of it.
pub proof fn law_forms_tell_artifacts_apart(a: Artifact, b: Artifact)
    requires
        equal(a.tree(), b.tree()),
    ensures
        a.kind.wire() == b.kind.wire(),
        a.source@ == b.source@,
        equal(a.source_origin.tree(), b.source_origin.tree()),
        a.source_projection is Some <==> b.source_projection is Some,
        a.source_projection is Some ==> equal(
            a.source_projection->0.tree(),
            b.source_projection->0.tree(),
        ),
        equal(a.production.tree(), b.production.tree()),
        equal(a.target.tree(), b.target.tree()),
        equal(a.content.tree(), b.content.tree()),
        a.owner@ == b.owner@,
        equal(a.declared_at.tree(), b.declared_at.tree()),
{
    lemma_artifact(a);
    lemma_artifact(b);
    lemma_equal_trees(a.tree(), b.tree(), "kind"@);
    lemma_equal_trees(a.tree(), b.tree(), "source"@);
    lemma_equal_trees(a.tree(), b.tree(), "source_origin"@);
    lemma_equal_trees(a.tree(), b.tree(), "source_projection"@);
    lemma_equal_trees(a.tree(), b.tree(), "production"@);
    lemma_equal_trees(a.tree(), b.tree(), "target"@);
    lemma_equal_trees(a.tree(), b.tree(), "content"@);
    lemma_equal_trees(a.tree(), b.tree(), "owner"@);
    lemma_equal_trees(a.tree(), b.tree(), "declared_at"@);
}

/// What stands where in the serialised form.
proof fn lemma_planned_production(v: PlannedProduction)
    ensures
        well_formed(v.tree()),
        match v {
            PlannedProduction::Static { source_digest, executable } => {
                &&& member(v.tree(), "kind"@) == Some(JsonTree::Text("static"@))
                &&& member(v.tree(), "source_digest"@) == Some(JsonTree::Text(source_digest@))
                &&& member(v.tree(), "executable"@) == Some(JsonTree::Bool(executable))
            },
            PlannedProduction::Template { renderer, source_digest, context, executable } => {
                &&& member(v.tree(), "kind"@) == Some(JsonTree::Text("template"@))
                &&& member(v.tree(), "renderer"@) == Some(renderer.tree())
                &&& member(v.tree(), "source_digest"@) == Some(JsonTree::Text(source_digest@))
                &&& member(v.tree(), "context"@) == Some(context.tree())
                &&& member(v.tree(), "executable"@) == Some(JsonTree::Bool(executable))
            },
            PlannedProduction::GeneratedLua { contract_version, content_digest, size, executable } => {
                &&& member(v.tree(), "kind"@) == Some(JsonTree::Text("generated_lua"@))
                &&& member(v.tree(), "contract_version"@) == Some(
                    JsonTree::Integer(contract_version as int),
                )
                &&& member(v.tree(), "content_digest"@) == Some(JsonTree::Text(content_digest@))
                &&& member(v.tree(), "size"@) == Some(JsonTree::Integer(size as int))
                &&& member(v.tree(), "executable"@) == Some(JsonTree::Bool(executable))
            },
        },
{
    broadcast use lemma_pair_pushed;

    reveal_strlit("kind");
    reveal_strlit("source_digest");
    reveal_strlit("executable");
    reveal_strlit("renderer");
    reveal_strlit("context");
    reveal_strlit("contract_version");
    reveal_strlit("content_digest");
    reveal_strlit("size");
    assert("kind"@.len() == 4 && "source_digest"@.len() == 13 && "executable"@.len() == 10
        && "renderer"@.len() == 8 && "context"@.len() == 7 && "contract_version"@.len() == 16
        && "content_digest"@.len() == 14 && "size"@.len() == 4);
    assert("kind"@[0] == 'k' && "size"@[0] == 's');
    match v {
        PlannedProduction::Static { source_digest, executable } => {
            let m = no_members();
            let m = m.push(("kind"@, JsonTree::Text("static"@)));
            let m = m.push(("source_digest"@, JsonTree::Text(source_digest@)));
            let m = m.push(("executable"@, JsonTree::Bool(executable)));
            lemma_collected(m);
            assert(v.tree() == object_tree(m));
            assert(member(v.tree(), "kind"@) == pair_value(m, "kind"@));
            assert(member(v.tree(), "source_digest"@) == pair_value(m, "source_digest"@));
            assert(member(v.tree(), "executable"@) == pair_value(m, "executable"@));
        },
        PlannedProduction::Template { renderer, source_digest, context, executable } => {
            let m = no_members();
            let m = m.push(("kind"@, JsonTree::Text("template"@)));
            let m = m.push(("renderer"@, renderer.tree()));
            let m = m.push(("source_digest"@, JsonTree::Text(source_digest@)));
            let m = m.push(("context"@, context.tree()));
            let m = m.push(("executable"@, JsonTree::Bool(executable)));
            lemma_collected(m);
            assert(v.tree() == object_tree(m));
            assert(member(v.tree(), "kind"@) == pair_value(m, "kind"@));
            assert(member(v.tree(), "renderer"@) == pair_value(m, "renderer"@));
            assert(member(v.tree(), "source_digest"@) == pair_value(m, "source_digest"@));
            assert(member(v.tree(), "context"@) == pair_value(m, "context"@));
            assert(member(v.tree(), "executable"@) == pair_value(m, "executable"@));
        },
        PlannedProduction::GeneratedLua { contract_version, content_digest, size, executable } => {
            let m = no_members();
            let m = m.push(("kind"@, JsonTree::Text("generated_lua"@)));
            let m = m.push(("contract_version"@, JsonTree::Integer(contract_version as int)));
            let m = m.push(("content_digest"@, JsonTree::Text(content_digest@)));
            let m = m.push(("size"@, JsonTree::Integer(size as int)));
            let m = m.push(("executable"@, JsonTree::Bool(executable)));
            lemma_collected(m);
            assert(v.tree() == object_tree(m));
            assert(member(v.tree(), "kind"@) == pair_value(m, "kind"@));
            assert(member(v.tree(), "contract_version"@) == pair_value(m, "contract_version"@));
            assert(member(v.tree(), "content_digest"@) == pair_value(m, "content_digest"@));
            assert(member(v.tree(), "size"@) == pair_value(m, "size"@));
            assert(member(v.tree(), "executable"@) == pair_value(m, "executable"@));
        },
    }
}

/// The serialised form of a planned production tells all of it.
pub proof fn law_forms_tell_planned_productions_apart(a: PlannedProduction, b: PlannedProduction)
    requires
        equal(a.tree(), b.tree()),
    ensures
        match (a, b) {
            (
                PlannedProduction::Static { source_digest: x_source_digest, executable: x_executable },
                PlannedProduction::Static { source_digest: y_source_digest, executable: y_executable },
            ) => {
                &&& x_source_digest@ == y_source_digest@
                &&& x_executable == y_executable
            },
            (
                PlannedProduction::Template { renderer: x_renderer, source_digest: x_source_digest, context: x_context, executable: x_executable },
                PlannedProduction::Template { renderer: y_renderer, source_digest: y_source_digest, context: y_context, executable: y_executable },
            ) => {
                &&& equal(x_renderer.tree(), y_renderer.tree())
                &&& x_source_digest@ == y_source_digest@
                &&& equal(x_context.tree(), y_context.tree())
                &&& x_executable == y_executable
            },
            (
                PlannedProduction::GeneratedLua { contract_version: x_contract_version, content_digest: x_content_digest, size: x_size, executable: x_executable },
                PlannedProduction::GeneratedLua { contract_version: y_contract_version, content_digest: y_content_digest, size: y_size, executable: y_executable },
            ) => {
                &&& x_contract_version == y_contract_version
                &&& x_content_digest@ == y_content_digest@
                &&& x_size == y_size
                &&& x_executable == y_executable
            },
            _ => false,
        },
{
    lemma_planned_production(a);
    lemma_planned_production(b);
    lemma_equal_trees(a.tree(), b.tree(), "kind"@);
    reveal_strlit("static");
    reveal_strlit("template");
    reveal_strlit("generated_lua");
    assert("static"@.len() == 6 && "template"@.len() == 8 && "generated_lua"@.len() == 13);
    match (a, b) {
        (
            PlannedProduction::Static { source_digest: x_source_digest, executable: x_executable },
            PlannedProduction::Static { source_digest: y_source_digest, executable: y_executable },
        ) => {
            lemma_equal_trees(a.tree(), b.tree(), "source_digest"@);
            lemma_equal_trees(a.tree(), b.tree(), "executable"@);
        },
        (
            PlannedProduction::Template { renderer: x_renderer, source_digest: x_source_digest, context: x_context, executable: x_executable },
            PlannedProduction::Template { renderer: y_renderer, source_digest: y_source_digest, context: y_context, executable: y_executable },
        ) => {
            lemma_equal_trees(a.tree(), b.tree(), "renderer"@);
            lemma_equal_trees(a.tree(), b.tree(), "source_digest"@);
            lemma_equal_trees(a.tree(), b.tree(), "context"@);
            lemma_equal_trees(a.tree(), b.tree(), "executable"@);
        },
        (
            PlannedProduction::GeneratedLua { contract_version: x_contract_version, content_digest: x_content_digest, size: x_size, executable: x_executable },
            PlannedProduction::GeneratedLua { contract_version: y_contract_version, content_digest: y_content_digest, size: y_size, executable: y_executable },
        ) => {
            lemma_equal_trees(a.tree(), b.tree(), "contract_version"@);
            lemma_equal_trees(a.tree(), b.tree(), "content_digest"@);
            lemma_equal_trees(a.tree(), b.tree(), "size"@);
            lemma_equal_trees(a.tree(), b.tree(), "executable"@);
        },
        _ => {},
    }
}

/// What stands where in the serialised form.
proof fn lemma_planned_artifact(v: PlannedArtifact)
    ensures
        well_formed(v.tree()),
        member(v.tree(), "source"@) == Some(JsonTree::Text(v.source@)),
        member(v.tree(), "source_origin"@) == Some(v.source_origin.tree()),
        member(v.tree(), "source_projection"@) == (if v.source_projection is Some {
            Some(v.source_projection->0.tree())
        } else {
            None
        }),
        member(v.tree(), "production"@) == Some(v.production.tree()),
        member(v.tree(), "target"@) == Some(v.target.tree()),
        member(v.tree(), "owner"@) == Some(JsonTree::Text(v.owner@)),
        member(v.tree(), "declared_at"@) == Some(v.declared_at.tree()),
{
    broadcast use lemma_pair_pushed;

    reveal_strlit("source");
    reveal_strlit("source_origin");
    reveal_strlit("source_projection");
    reveal_strlit("production");
    reveal_strlit("target");
    reveal_strlit("owner");
    reveal_strlit("declared_at");
    assert("source"@.len() == 6 && "source_origin"@.len() == 13
        && "source_projection"@.len() == 17 && "production"@.len() == 10 && "target"@.len() == 6
        && "owner"@.len() == 5 && "declared_at"@.len() == 11);
    assert("source"@[0] == 's' && "target"@[0] == 't');
    let m = no_members();
    let m = m.push(("source"@, JsonTree::Text(v.source@)));
    let m = m.push(("source_origin"@, v.source_origin.tree()));
    let m = if v.source_projection is Some {
        m.push(("source_projection"@, v.source_projection->0.tree()))
    } else {
        m
    };
    let m = m.push(("production"@, v.production.tree()));
    let m = m.push(("target"@, v.target.tree()));
    let m = m.push(("owner"@, JsonTree::Text(v.owner@)));
    let m = m.push(("declared_at"@, v.declared_at.tree()));
    lemma_collected(m);
    assert(v.tree() == object_tree(m));
    assert(member(v.tree(), "source"@) == pair_value(m, "source"@));
    assert(member(v.tree(), "source_origin"@) == pair_value(m, "source_origin"@));
    assert(member(v.tree(), "source_projection"@) == pair_value(m, "source_projection"@));
    assert(member(v.tree(), "production"@) == pair_value(m, "production"@));
    assert(member(v.tree(), "target"@) == pair_value(m, "target"@));
    assert(member(v.tree(), "owner"@) == pair_value(m, "owner"@));
    assert(member(v.tree(), "declared_at"@) == pair_value(m, "declared_at"@));
}

/// The serialised form of a planned artifact tells all of it.
pub proof fn law_forms_tell_planned_artifacts_apart(a: PlannedArtifact, b: PlannedArtifact)
    requires
        equal(a.tree(), b.tree()),
    ensures
        a.source@ == b.source@,
        equal(a.source_origin.tree(), b.source_origin.tree()),
        a.source_projection is Some <==> b.source_projection is Some,
        a.source_projection is Some ==> equal(
            a.source_projection->0.tree(),
            b.source_projection->0.tree(),
        ),
        equal(a.production.tree(), b.production.tree()),
        equal(a.target.tree(), b.target.tree()),
        a.owner@ == b.owner@,
        equal(a.declared_at.tree(), b.declared_at.tree()),
{
    lemma_planned_artifact(a);
    lemma_planned_artifact(b);
    lemma_equal_trees(a.tree(), b.tree(), "source"@);
    lemma_equal_trees(a.tree(), b.tree(), "source_origin"@);
    lemma_equal_trees(a.tree(), b.tree(), "source_projection"@);
    lemma_equal_trees(a.tree(), b.tree(), "production"@);
    lemma_equal_trees(a.tree(), b.tree(), "target"@);
    lemma_equal_trees(a.tree(), b.tree(), "owner"@);
    lemma_equal_trees(a.tree(), b.tree(), "declared_at"@);
}

/// What stands where in the serialised form.
proof fn lemma_task_runner(v: TaskRunner)
    ensures
        well_formed(v.tree()),
        match v {
            TaskRunner::EmbeddedLua { contract_version } => {
                &&& member(v.tree(), "kind"@) == Some(JsonTree::Text("embedded_lua"@))
                &&& member(v.tree(), "contract_version"@) == Some(
                    JsonTree::Integer(contract_version as int),
                )
            },
            TaskRunner::Direct { contract_version } => {
                &&& member(v.tree(), "kind"@) == Some(JsonTree::Text("direct"@))
                &&& member(v.tree(), "contract_version"@) == Some(
                    JsonTree::Integer(contract_version as int),
                )
            },
            TaskRunner::Interpreter { contract_version, family, command, args } => {
                &&& member(v.tree(), "kind"@) == Some(JsonTree::Text("interpreter"@))
                &&& member(v.tree(), "contract_version"@) == Some(
                    JsonTree::Integer(contract_version as int),
                )
                &&& member(v.tree(), "family"@) == Some(JsonTree::Text(family.wire()))
                &&& member(v.tree(), "command"@) == Some(JsonTree::Text(command@))
                &&& member(v.tree(), "args"@) == Some(JsonTree::Array(text_trees(args@)))
            },
        },
{
    broadcast use lemma_pair_pushed;

    reveal_strlit("kind");
    reveal_strlit("contract_version");
    reveal_strlit("family");
    reveal_strlit("command");
    reveal_strlit("args");
    assert("kind"@.len() == 4 && "contract_version"@.len() == 16 && "family"@.len() == 6
        && "command"@.len() == 7 && "args"@.len() == 4);
    assert("kind"@[0] == 'k' && "args"@[0] == 'a');
    match v {
        TaskRunner::EmbeddedLua { contract_version } => {
            let m = no_members();
            let m = m.push(("kind"@, JsonTree::Text("embedded_lua"@)));
            let m = m.push(("contract_version"@, JsonTree::Integer(contract_version as int)));
            lemma_collected(m);
            assert(v.tree() == object_tree(m));
            assert(member(v.tree(), "kind"@) == pair_value(m, "kind"@));
            assert(member(v.tree(), "contract_version"@) == pair_value(m, "contract_version"@));
        },
        TaskRunner::Direct { contract_version } => {
            let m = no_members();
            let m = m.push(("kind"@, JsonTree::Text("direct"@)));
            let m = m.push(("contract_version"@, JsonTree::Integer(contract_version as int)));
            lemma_collected(m);
            assert(v.tree() == object_tree(m));
            assert(member(v.tree(), "kind"@) == pair_value(m, "kind"@));
            assert(member(v.tree(), "contract_version"@) == pair_value(m, "contract_version"@));
        },
        TaskRunner::Interpreter { contract_version, family, command, args } => {
            let m = no_members();
            let m = m.push(("kind"@, JsonTree::Text("interpreter"@)));
            let m = m.push(("contract_version"@, JsonTree::Integer(contract_version as int)));
            let m = m.push(("family"@, JsonTree::Text(family.wire())));
            let m = m.push(("command"@, JsonTree::Text(command@)));
            let m = m.push(("args"@, JsonTree::Array(text_trees(args@))));
            lemma_collected(m);
            assert(v.tree() == object_tree(m));
            assert(member(v.tree(), "kind"@) == pair_value(m, "kind"@));
            assert(member(v.tree(), "contract_version"@) == pair_value(m, "contract_version"@));
            assert(member(v.tree(), "family"@) == pair_value(m, "family"@));
            assert(member(v.tree(), "command"@) == pair_value(m, "command"@));
            assert(member(v.tree(), "args"@) == pair_value(m, "args"@));
        },
    }
}

/// The serialised form of a task runner tells all of it.
pub proof fn law_forms_tell_task_runners_apart(a: TaskRunner, b: TaskRunner)
    requires
        equal(a.tree(), b.tree()),
    ensures
        match (a, b) {
            (
                TaskRunner::EmbeddedLua { contract_version: x_contract_version },
                TaskRunner::EmbeddedLua { contract_version: y_contract_version },
            ) => {
                &&& x_contract_version == y_contract_version
            },
            (
                TaskRunner::Direct { contract_version: x_contract_version },
                TaskRunner::Direct { contract_version: y_contract_version },
            ) => {
                &&& x_contract_version == y_contract_version
            },
            (
                TaskRunner::Interpreter { contract_version: x_contract_version, family: x_family, command: x_command, args: x_args },
                TaskRunner::Interpreter { contract_version: y_contract_version, family: y_family, command: y_command, args: y_args },
            ) => {
                &&& x_contract_version == y_contract_version
                &&& x_family.wire() == y_family.wire()
                &&& x_command@ == y_command@
                &&& views(x_args@) == views(y_args@)
            },
            _ => false,
        },
{
    lemma_task_runner(a);
    lemma_task_runner(b);
    lemma_equal_trees(a.tree(), b.tree(), "kind"@);
    reveal_strlit("embedded_lua");
    reveal_strlit("direct");
    reveal_strlit("interpreter");
    assert("embedded_lua"@.len() == 12 && "direct"@.len() == 6 && "interpreter"@.len() == 11);
    match (a, b) {
        (
            TaskRunner::EmbeddedLua { contract_version: x_contract_version },
            TaskRunner::EmbeddedLua { contract_version: y_contract_version },
        ) => {
            lemma_equal_trees(a.tree(), b.tree(), "contract_version"@);
        },
        (
            TaskRunner::Direct { contract_version: x_contract_version },
            TaskRunner::Direct { contract_version: y_contract_version },
        ) => {
            lemma_equal_trees(a.tree(), b.tree(), "contract_version"@);
        },
        (
            TaskRunner::Interpreter { contract_version: x_contract_version, family: x_family, command: x_command, args: x_args },
            TaskRunner::Interpreter { contract_version: y_contract_version, family: y_family, command: y_command, args: y_args },
        ) => {
            lemma_equal_trees(a.tree(), b.tree(), "contract_version"@);
            lemma_equal_trees(a.tree(), b.tree(), "family"@);
            lemma_equal_trees(a.tree(), b.tree(), "command"@);
            lemma_equal_trees(a.tree(), b.tree(), "args"@);
            lemma_equal_texts(x_args@, y_args@);
        },
        _ => {},
    }
}

/// What stands where in the serialised form.
proof fn lemma_task_cache_policy(v: TaskCachePolicy)
    ensures
        well_formed(v.tree()),
        member(v.tree(), "enabled"@) == Some(JsonTree::Bool(v.enabled)),
        member(v.tree(), "revision"@) == (if v.revision is Some {
            Some(JsonTree::Text(v.revision->0@))
        } else {
            None
        }),
{
    broadcast use lemma_pair_pushed;

    reveal_strlit("enabled");
    reveal_strlit("revision");
    assert("enabled"@.len() == 7 && "revision"@.len() == 8);
    let m = no_members();
    let m = m.push(("enabled"@, JsonTree::Bool(v.enabled)));
    let m = if v.revision is Some {
        m.push(("revision"@, JsonTree::Text(v.revision->0@)))
    } else {
        m
    };
    lemma_collected(m);
    assert(v.tree() == object_tree(m));
    assert(member(v.tree(), "enabled"@) == pair_value(m, "enabled"@));
    assert(member(v.tree(), "revision"@) == pair_value(m, "revision"@));
}

/// The serialised form of a task cache policy tells all of it.
pub proof fn law_forms_tell_task_cache_policies_apart(a: TaskCachePolicy, b: TaskCachePolicy)
    requires
        equal(a.tree(), b.tree()),
    ensures
        a.enabled == b.enabled,
        a.revision is Some <==> b.revision is Some,
        a.revision is Some ==> a.revision->0@ == b.revision->0@,
{
    lemma_task_cache_policy(a);
    lemma_task_cache_policy(b);
    lemma_equal_trees(a.tree(), b.tree(), "enabled"@);
    lemma_equal_trees(a.tree(), b.tree(), "revision"@);
}

/// What stands where in the serialised form.
proof fn lemma_task_target_root(v: TaskTargetRoot)
    ensures
        well_formed(v.tree()),
        member(v.tree(), "path"@) == Some(JsonTree::Text(v.path@)),
        member(v.tree(), "origin"@) == Some(v.origin.tree()),
{
    broadcast use lemma_pair_pushed;

    reveal_strlit("path");
    reveal_strlit("origin");
    assert("path"@.len() == 4 && "origin"@.len() == 6);
    let m = no_members();
    let m = m.push(("path"@, JsonTree::Text(v.path@)));
    let m = m.push(("origin"@, v.origin.tree()));
    lemma_collected(m);
    assert(v.tree() == object_tree(m));
    assert(member(v.tree(), "path"@) == pair_value(m, "path"@));
    assert(member(v.tree(), "origin"@) == pair_value(m, "origin"@));
}

/// The serialised form of a task target root tells all of it.
pub proof fn law_forms_tell_task_target_roots_apart(a: TaskTargetRoot, b: TaskTargetRoot)
    requires
        equal(a.tree(), b.tree()),
    ensures
        a.path@ == b.path@,
        equal(a.origin.tree(), b.origin.tree()),
{
    lemma_task_target_root(a);
    lemma_task_target_root(b);
    lemma_equal_trees(a.tree(), b.tree(), "path"@);
    lemma_equal_trees(a.tree(), b.tree(), "origin"@);
}

/// What stands where in the serialised form.
proof fn lemma_task_output(v: TaskOutput)
    ensures
        well_formed(v.tree()),
        member(v.tree(), "relative"@) == Some(JsonTree::Text(v.relative@)),
        member(v.tree(), "content"@) == Some(v.content.tree()),
{
    broadcast use lemma_pair_pushed;

    reveal_strlit("relative");
    reveal_strlit("content");
    assert("relative"@.len() == 8 && "content"@.len() == 7);
    let m = no_members();
    let m = m.push(("relative"@, JsonTree::Text(v.relative@)));
    let m = m.push(("content"@, v.content.tree()));
    lemma_collected(m);
    assert(v.tree() == object_tree(m));
    assert(member(v.tree(), "relative"@) == pair_value(m, "relative"@));
    assert(member(v.tree(), "content"@) == pair_value(m, "content"@));
}

/// The serialised form of a task output tells all of it.
pub proof fn law_forms_tell_task_outputs_apart(a: TaskOutput, b: TaskOutput)
    requires
        equal(a.tree(), b.tree()),
    ensures
        a.relative@ == b.relative@,
        equal(a.content.tree(), b.content.tree()),
{
    lemma_task_output(a);
    lemma_task_output(b);
    lemma_equal_trees(a.tree(), b.tree(), "relative"@);
    lemma_equal_trees(a.tree(), b.tree(), "content"@);
}

/// What stands where in the serialised form.
proof fn lemma_task(v: Task)
    ensures
        well_formed(v.tree()),
        member(v.tree(), "identity"@) == Some(JsonTree::Text(v.identity@)),
        member(v.tree(), "declaration_order"@) == Some(
            JsonTree::Integer(v.declaration_order as int),
        ),
        member(v.tree(), "owner"@) == Some(JsonTree::Text(v.owner@)),
        member(v.tree(), "entrypoint"@) == Some(JsonTree::Text(v.entrypoint@)),
        member(v.tree(), "entrypoint_digest"@) == Some(JsonTree::Text(v.entrypoint_digest@)),
        member(v.tree(), "params"@) == Some(v.params.tree()),
        member(v.tree(), "runner"@) == Some(v.runner.tree()),
        member(v.tree(), "python_helper"@) == Some(JsonTree::Bool(v.python_helper)),
        member(v.tree(), "logs"@) == Some(JsonTree::Text(v.logs.wire())),
        member(v.tree(), "cache"@) == Some(v.cache.tree()),
        member(v.tree(), "at"@) == Some(v.at.tree()),
        member(v.tree(), "target_root"@) == (if v.target_root is Some {
            Some(v.target_root->0.tree())
        } else {
            None
        }),
        member(v.tree(), "declared_at"@) == Some(v.declared_at.tree()),
        member(v.tree(), "outputs"@) == Some(JsonTree::Array(task_output_trees(v.outputs@))),
{
    broadcast use lemma_pair_pushed;

    reveal_strlit("identity");
    reveal_strlit("declaration_order");
    reveal_strlit("owner");
    reveal_strlit("entrypoint");
    reveal_strlit("entrypoint_digest");
    reveal_strlit("params");
    reveal_strlit("runner");
    reveal_strlit("python_helper");
    reveal_strlit("logs");
    reveal_strlit("cache");
    reveal_strlit("at");
    reveal_strlit("target_root");
    reveal_strlit("declared_at");
    reveal_strlit("outputs");
    assert("identity"@.len() == 8 && "declaration_order"@.len() == 17 && "owner"@.len() == 5
        && "entrypoint"@.len() == 10 && "entrypoint_digest"@.len() == 17 && "params"@.len() == 6
        && "runner"@.len() == 6 && "python_helper"@.len() == 13 && "logs"@.len() == 4
        && "cache"@.len() == 5 && "at"@.len() == 2 && "target_root"@.len() == 11
        && "declared_at"@.len() == 11 && "outputs"@.len() == 7);
    assert("declaration_order"@[0] == 'd' && "entrypoint_digest"@[0] == 'e');
    assert("owner"@[0] == 'o' && "cache"@[0] == 'c');
    assert("params"@[0] == 'p' && "runner"@[0] == 'r');
    assert("target_root"@[0] == 't' && "declared_at"@[0] == 'd');
    let m = no_members();
    let m = m.push(("identity"@, JsonTree::Text(v.identity@)));
    let m = m.push(("declaration_order"@, JsonTree::Integer(v.declaration_order as int)));
    let m = m.push(("owner"@, JsonTree::Text(v.owner@)));
    let m = m.push(("entrypoint"@, JsonTree::Text(v.entrypoint@)));
    let m = m.push(("entrypoint_digest"@, JsonTree::Text(v.entrypoint_digest@)));
    let m = m.push(("params"@, v.params.tree()));
    let m = m.push(("runner"@, v.runner.tree()));
    let m = m.push(("python_helper"@, JsonTree::Bool(v.python_helper)));
    let m = m.push(("logs"@, JsonTree::Text(v.logs.wire())));
    let m = m.push(("cache"@, v.cache.tree()));
    let m = m.push(("at"@, v.at.tree()));
    let m = if v.target_root is Some {
        m.push(("target_root"@, v.target_root->0.tree()))
    } else {
        m
    };
    let m = m.push(("declared_at"@, v.declared_at.tree()));
    let m = m.push(("outputs"@, JsonTree::Array(task_output_trees(v.outputs@))));
    lemma_collected(m);
    assert(v.tree() == object_tree(m));
    assert(member(v.tree(), "identity"@) == pair_value(m, "identity"@));
    assert(member(v.tree(), "declaration_order"@) == pair_value(m, "declaration_order"@));
    assert(member(v.tree(), "owner"@) == pair_value(m, "owner"@));
    assert(member(v.tree(), "entrypoint"@) == pair_value(m, "entrypoint"@));
    assert(member(v.tree(), "entrypoint_digest"@) == pair_value(m, "entrypoint_digest"@));
    assert(member(v.tree(), "params"@) == pair_value(m, "params"@));
    assert(member(v.tree(), "runner"@) == pair_value(m, "runner"@));
    assert(member(v.tree(), "python_helper"@) == pair_value(m, "python_helper"@));
    assert(member(v.tree(), "logs"@) == pair_value(m, "logs"@));
    assert(member(v.tree(), "cache"@) == pair_value(m, "cache"@));
    assert(member(v.tree(), "at"@) == pair_value(m, "at"@));
    assert(member(v.tree(), "target_root"@) == pair_value(m, "target_root"@));
    assert(member(v.tree(), "declared_at"@) == pair_value(m, "declared_at"@));
    assert(member(v.tree(), "outputs"@) == pair_value(m, "outputs"@));
}

/// The serialised form of a task tells all of it.
pub proof fn law_forms_tell_tasks_apart(a: Task, b: Task)
    requires
        equal(a.tree(), b.tree()),
    ensures
        a.identity@ == b.identity@,
        a.declaration_order == b.declaration_order,
        a.owner@ == b.owner@,
        a.entrypoint@ == b.entrypoint@,
        a.entrypoint_digest@ == b.entrypoint_digest@,
        equal(a.params.tree(), b.params.tree()),
        equal(a.runner.tree(), b.runner.tree()),
        a.python_helper == b.python_helper,
        a.logs.wire() == b.logs.wire(),
        equal(a.cache.tree(), b.cache.tree()),
        equal(a.at.tree(), b.at.tree()),
        a.target_root is Some <==> b.target_root is Some,
        a.target_root is Some ==> equal(a.target_root->0.tree(), b.target_root->0.tree()),
        equal(a.declared_at.tree(), b.declared_at.tree()),
        a.outputs@.len() == b.outputs@.len(),
        forall|i: int|
            0 <= i < a.outputs@.len() ==> equal(
                (#[trigger] a.outputs@[i]).tree(),
                b.outputs@[i].tree(),
            ),
{
    lemma_task(a);
    lemma_task(b);
    lemma_equal_trees(a.tree(), b.tree(), "identity"@);
    lemma_equal_trees(a.tree(), b.tree(), "declaration_order"@);
    lemma_equal_trees(a.tree(), b.tree(), "owner"@);
    lemma_equal_trees(a.tree(), b.tree(), "entrypoint"@);
    lemma_equal_trees(a.tree(), b.tree(), "entrypoint_digest"@);
    lemma_equal_trees(a.tree(), b.tree(), "params"@);
    lemma_equal_trees(a.tree(), b.tree(), "runner"@);
    lemma_equal_trees(a.tree(), b.tree(), "python_helper"@);
    lemma_equal_trees(a.tree(), b.tree(), "logs"@);
    lemma_equal_trees(a.tree(), b.tree(), "cache"@);
    lemma_equal_trees(a.tree(), b.tree(), "at"@);
    lemma_equal_trees(a.tree(), b.tree(), "target_root"@);
    lemma_equal_trees(a.tree(), b.tree(), "declared_at"@);
    lemma_equal_trees(a.tree(), b.tree(), "outputs"@);
    lemma_equal_items(task_output_trees(a.outputs@), task_output_trees(b.outputs@));
    assert forall|i: int| 0 <= i < a.outputs@.len() implies equal(
        (#[trigger] a.outputs@[i]).tree(),
        b.outputs@[i].tree(),
    ) by {
        assert(task_output_trees(a.outputs@)[i] == a.outputs@[i].tree());
        assert(task_output_trees(b.outputs@)[i] == b.outputs@[i].tree());
    }
}

/// What stands where in the serialised form.
proof fn lemma_script_payload(v: ScriptPayload)
    ensures
        well_formed(v.tree()),
        member(v.tree(), "source"@) == Some(JsonTree::Text(v.source@)),
        member(v.tree(), "relative"@) == Some(JsonTree::Text(v.relative@)),
        member(v.tree(), "digest"@) == Some(JsonTree::Text(v.digest@)),
        member(v.tree(), "size"@) == Some(JsonTree::Integer(v.size as int)),
        member(v.tree(), "executable"@) == Some(JsonTree::Bool(v.executable)),
{
    broadcast use lemma_pair_pushed;

    reveal_strlit("source");
    reveal_strlit("relative");
    reveal_strlit("digest");
    reveal_strlit("size");
    reveal_strlit("executable");
    assert("source"@.len() == 6 && "relative"@.len() == 8 && "digest"@.len() == 6
        && "size"@.len() == 4 && "executable"@.len() == 10);
    assert("source"@[0] == 's' && "digest"@[0] == 'd');
    let m = no_members();
    let m = m.push(("source"@, JsonTree::Text(v.source@)));
    let m = m.push(("relative"@, JsonTree::Text(v.relative@)));
    let m = m.push(("digest"@, JsonTree::Text(v.digest@)));
    let m = m.push(("size"@, JsonTree::Integer(v.size as int)));
    let m = m.push(("executable"@, JsonTree::Bool(v.executable)));
    lemma_collected(m);
    assert(v.tree() == object_tree(m));
    assert(member(v.tree(), "source"@) == pair_value(m, "source"@));
    assert(member(v.tree(), "relative"@) == pair_value(m, "relative"@));
    assert(member(v.tree(), "digest"@) == pair_value(m, "digest"@));
    assert(member(v.tree(), "size"@) == pair_value(m, "size"@));
    assert(member(v.tree(), "executable"@) == pair_value(m, "executable"@));
}

/// The serialised form of a script payload tells all of it.
pub proof fn law_forms_tell_script_payloads_apart(a: ScriptPayload, b: ScriptPayload)
    requires
        equal(a.tree(), b.tree()),
    ensures
        a.source@ == b.source@,
        a.relative@ == b.relative@,
        a.digest@ == b.digest@,
        a.size == b.size,
        a.executable == b.executable,
{
    lemma_script_payload(a);
    lemma_script_payload(b);
    lemma_equal_trees(a.tree(), b.tree(), "source"@);
    lemma_equal_trees(a.tree(), b.tree(), "relative"@);
    lemma_equal_trees(a.tree(), b.tree(), "digest"@);
    lemma_equal_trees(a.tree(), b.tree(), "size"@);
    lemma_equal_trees(a.tree(), b.tree(), "executable"@);
}

/// What stands where in the serialised form.
proof fn lemma_script(v: Script)
    ensures
        well_formed(v.tree()),
        member(v.tree(), "identity"@) == Some(JsonTree::Text(v.identity@)),
        member(v.tree(), "declaration_order"@) == Some(
            JsonTree::Integer(v.declaration_order as int),
        ),
        member(v.tree(), "owner"@) == Some(JsonTree::Text(v.owner@)),
        member(v.tree(), "entrypoint"@) == Some(JsonTree::Text(v.entrypoint@)),
        member(v.tree(), "params"@) == Some(v.params.tree()),
        member(v.tree(), "runner"@) == Some(v.runner.tree()),
        member(v.tree(), "python_helper"@) == Some(JsonTree::Bool(v.python_helper)),
        member(v.tree(), "logs"@) == Some(JsonTree::Text(v.logs.wire())),
        member(v.tree(), "at"@) == Some(v.at.tree()),
        member(v.tree(), "schedule"@) == Some(JsonTree::Text(v.schedule.wire())),
        member(v.tree(), "scope"@) == Some(JsonTree::Text(v.scope.wire())),
        member(v.tree(), "payloads"@) == Some(JsonTree::Array(script_payload_trees(v.payloads@))),
        member(v.tree(), "revision"@) == (if v.revision is Some {
            Some(JsonTree::Text(v.revision->0@))
        } else {
            None
        }),
        member(v.tree(), "env"@) == Some(object_tree(pair_trees(v.env@))),
        member(v.tree(), "timeout_seconds"@) == (if v.timeout_seconds is Some {
            Some(JsonTree::Integer(v.timeout_seconds->0 as int))
        } else {
            None
        }),
        member(v.tree(), "declared_at"@) == Some(v.declared_at.tree()),
{
    broadcast use lemma_pair_pushed;

    reveal_strlit("identity");
    reveal_strlit("declaration_order");
    reveal_strlit("owner");
    reveal_strlit("entrypoint");
    reveal_strlit("params");
    reveal_strlit("runner");
    reveal_strlit("python_helper");
    reveal_strlit("logs");
    reveal_strlit("at");
    reveal_strlit("schedule");
    reveal_strlit("scope");
    reveal_strlit("payloads");
    reveal_strlit("revision");
    reveal_strlit("env");
    reveal_strlit("timeout_seconds");
    reveal_strlit("declared_at");
    assert("identity"@.len() == 8 && "declaration_order"@.len() == 17 && "owner"@.len() == 5
        && "entrypoint"@.len() == 10 && "params"@.len() == 6 && "runner"@.len() == 6
        && "python_helper"@.len() == 13 && "logs"@.len() == 4 && "at"@.len() == 2
        && "schedule"@.len() == 8 && "scope"@.len() == 5 && "payloads"@.len() == 8
        && "revision"@.len() == 8 && "env"@.len() == 3 && "timeout_seconds"@.len() == 15
        && "declared_at"@.len() == 11);
    assert("identity"@[0] == 'i' && "schedule"@[0] == 's' && "payloads"@[0] == 'p'
        && "revision"@[0] == 'r');
    assert("owner"@[0] == 'o' && "scope"@[0] == 's');
    assert("params"@[0] == 'p' && "runner"@[0] == 'r');
    let m = no_members();
    let m = m.push(("identity"@, JsonTree::Text(v.identity@)));
    let m = m.push(("declaration_order"@, JsonTree::Integer(v.declaration_order as int)));
    let m = m.push(("owner"@, JsonTree::Text(v.owner@)));
    let m = m.push(("entrypoint"@, JsonTree::Text(v.entrypoint@)));
    let m = m.push(("params"@, v.params.tree()));
    let m = m.push(("runner"@, v.runner.tree()));
    let m = m.push(("python_helper"@, JsonTree::Bool(v.python_helper)));
    let m = m.push(("logs"@, JsonTree::Text(v.logs.wire())));
    let m = m.push(("at"@, v.at.tree()));
    let m = m.push(("schedule"@, JsonTree::Text(v.schedule.wire())));
    let m = m.push(("scope"@, JsonTree::Text(v.scope.wire())));
    let m = m.push(("payloads"@, JsonTree::Array(script_payload_trees(v.payloads@))));
    let m = if v.revision is Some {
        m.push(("revision"@, JsonTree::Text(v.revision->0@)))
    } else {
        m
    };
    let m = m.push(("env"@, object_tree(pair_trees(v.env@))));
    let m = if v.timeout_seconds is Some {
        m.push(("timeout_seconds"@, JsonTree::Integer(v.timeout_seconds->0 as int)))
    } else {
        m
    };
    let m = m.push(("declared_at"@, v.declared_at.tree()));
    lemma_collected(m);
    assert(v.tree() == object_tree(m));
    assert(member(v.tree(), "identity"@) == pair_value(m, "identity"@));
    assert(member(v.tree(), "declaration_order"@) == pair_value(m, "declaration_order"@));
    assert(member(v.tree(), "owner"@) == pair_value(m, "owner"@));
    assert(member(v.tree(), "entrypoint"@) == pair_value(m, "entrypoint"@));
    assert(member(v.tree(), "params"@) == pair_value(m, "params"@));
    assert(member(v.tree(), "runner"@) == pair_value(m, "runner"@));
    assert(member(v.tree(), "python_helper"@) == pair_value(m, "python_helper"@));
    assert(member(v.tree(), "logs"@) == pair_value(m, "logs"@));
    assert(member(v.tree(), "at"@) == pair_value(m, "at"@));
    assert(member(v.tree(), "schedule"@) == pair_value(m, "schedule"@));
    assert(member(v.tree(), "scope"@) == pair_value(m, "scope"@));
    assert(member(v.tree(), "payloads"@) == pair_value(m, "payloads"@));
    assert(member(v.tree(), "revision"@) == pair_value(m, "revision"@));
    assert(member(v.tree(), "env"@) == pair_value(m, "env"@));
    assert(member(v.tree(), "timeout_seconds"@) == pair_value(m, "timeout_seconds"@));
    assert(member(v.tree(), "declared_at"@) == pair_value(m, "declared_at"@));
}

/// The serialised form of a script tells all of it.
pub proof fn law_forms_tell_scripts_apart(a: Script, b: Script)
    requires
        equal(a.tree(), b.tree()),
    ensures
        a.identity@ == b.identity@,
        a.declaration_order == b.declaration_order,
        a.owner@ == b.owner@,
        a.entrypoint@ == b.entrypoint@,
        equal(a.params.tree(), b.params.tree()),
        equal(a.runner.tree(), b.runner.tree()),
        a.python_helper == b.python_helper,
        a.logs.wire() == b.logs.wire(),
        equal(a.at.tree(), b.at.tree()),
        a.schedule.wire() == b.schedule.wire(),
        a.scope.wire() == b.scope.wire(),
        a.payloads@.len() == b.payloads@.len(),
        forall|i: int|
            0 <= i < a.payloads@.len() ==> equal(
                (#[trigger] a.payloads@[i]).tree(),
                b.payloads@[i].tree(),
            ),
        a.revision is Some <==> b.revision is Some,
        a.revision is Some ==> a.revision->0@ == b.revision->0@,
        equal(object_tree(pair_trees(a.env@)), object_tree(pair_trees(b.env@))),
        a.timeout_seconds is Some <==> b.timeout_seconds is Some,
        a.timeout_seconds is Some ==> a.timeout_seconds->0 == b.timeout_seconds->0,
        equal(a.declared_at.tree(), b.declared_at.tree()),
{
    lemma_script(a);
    lemma_script(b);
    lemma_equal_trees(a.tree(), b.tree(), "identity"@);
    lemma_equal_trees(a.tree(), b.tree(), "declaration_order"@);
    lemma_equal_trees(a.tree(), b.tree(), "owner"@);
    lemma_equal_trees(a.tree(), b.tree(), "entrypoint"@);
    lemma_equal_trees(a.tree(), b.tree(), "params"@);
    lemma_equal_trees(a.tree(), b.tree(), "runner"@);
    lemma_equal_trees(a.tree(), b.tree(), "python_helper"@);
    lemma_equal_trees(a.tree(), b.tree(), "logs"@);
    lemma_equal_trees(a.tree(), b.tree(), "at"@);
    lemma_equal_trees(a.tree(), b.tree(), "schedule"@);
    lemma_equal_trees(a.tree(), b.tree(), "scope"@);
    lemma_equal_trees(a.tree(), b.tree(), "payloads"@);
    lemma_equal_items(script_payload_trees(a.payloads@), script_payload_trees(b.payloads@));
    assert forall|i: int| 0 <= i < a.payloads@.len() implies equal(
        (#[trigger] a.payloads@[i]).tree(),
        b.payloads@[i].tree(),
    ) by {
        assert(script_payload_trees(a.payloads@)[i] == a.payloads@[i].tree());
        assert(script_payload_trees(b.payloads@)[i] == b.payloads@[i].tree());
    }
    lemma_equal_trees(a.tree(), b.tree(), "revision"@);
    lemma_equal_trees(a.tree(), b.tree(), "env"@);
    lemma_equal_trees(a.tree(), b.tree(), "timeout_seconds"@);
    lemma_equal_trees(a.tree(), b.tree(), "declared_at"@);
}

/// What stands where in the serialised form.
proof fn lemma_template_helper_export(v: TemplateHelperExport)
    ensures
        well_formed(v.tree()),
        member(v.tree(), "export"@) == Some(JsonTree::Text(v.export@)),
        member(v.tree(), "name"@) == Some(JsonTree::Text(v.name@)),
        member(v.tree(), "defined_at"@) == Some(v.defined_at.tree()),
{
    broadcast use lemma_pair_pushed;

    reveal_strlit("export");
    reveal_strlit("name");
    reveal_strlit("defined_at");
    assert("export"@.len() == 6 && "name"@.len() == 4 && "defined_at"@.len() == 10);
    let m = no_members();
    let m = m.push(("export"@, JsonTree::Text(v.export@)));
    let m = m.push(("name"@, JsonTree::Text(v.name@)));
    let m = m.push(("defined_at"@, v.defined_at.tree()));
    lemma_collected(m);
    assert(v.tree() == object_tree(m));
    assert(member(v.tree(), "export"@) == pair_value(m, "export"@));
    assert(member(v.tree(), "name"@) == pair_value(m, "name"@));
    assert(member(v.tree(), "defined_at"@) == pair_value(m, "defined_at"@));
}

/// The serialised form of a template helper export tells all of it.
pub proof fn law_forms_tell_template_helper_exports_apart(a: TemplateHelperExport, b: TemplateHelperExport)
    requires
        equal(a.tree(), b.tree()),
    ensures
        a.export@ == b.export@,
        a.name@ == b.name@,
        equal(a.defined_at.tree(), b.defined_at.tree()),
{
    lemma_template_helper_export(a);
    lemma_template_helper_export(b);
    lemma_equal_trees(a.tree(), b.tree(), "export"@);
    lemma_equal_trees(a.tree(), b.tree(), "name"@);
    lemma_equal_trees(a.tree(), b.tree(), "defined_at"@);
}

/// What stands where in the serialised form.
proof fn lemma_template_helper_pack(v: TemplateHelperPack)
    ensures
        well_formed(v.tree()),
        member(v.tree(), "contract_version"@) == Some(JsonTree::Integer(v.contract_version as int)),
        member(v.tree(), "module"@) == Some(JsonTree::Text(v.module@)),
        member(v.tree(), "prefix"@) == Some(JsonTree::Text(v.prefix@)),
        member(v.tree(), "exports"@) == Some(
            JsonTree::Array(template_helper_export_trees(v.exports@)),
        ),
        member(v.tree(), "sources"@) == Some(JsonTree::Array(source_file_trees(v.sources@))),
        member(v.tree(), "declared_at"@) == Some(v.declared_at.tree()),
{
    broadcast use lemma_pair_pushed;

    reveal_strlit("contract_version");
    reveal_strlit("module");
    reveal_strlit("prefix");
    reveal_strlit("exports");
    reveal_strlit("sources");
    reveal_strlit("declared_at");
    assert("contract_version"@.len() == 16 && "module"@.len() == 6 && "prefix"@.len() == 6
        && "exports"@.len() == 7 && "sources"@.len() == 7 && "declared_at"@.len() == 11);
    assert("module"@[0] == 'm' && "prefix"@[0] == 'p');
    assert("exports"@[0] == 'e' && "sources"@[0] == 's');
    let m = no_members();
    let m = m.push(("contract_version"@, JsonTree::Integer(v.contract_version as int)));
    let m = m.push(("module"@, JsonTree::Text(v.module@)));
    let m = m.push(("prefix"@, JsonTree::Text(v.prefix@)));
    let m = m.push(("exports"@, JsonTree::Array(template_helper_export_trees(v.exports@))));
    let m = m.push(("sources"@, JsonTree::Array(source_file_trees(v.sources@))));
    let m = m.push(("declared_at"@, v.declared_at.tree()));
    lemma_collected(m);
    assert(v.tree() == object_tree(m));
    assert(member(v.tree(), "contract_version"@) == pair_value(m, "contract_version"@));
    assert(member(v.tree(), "module"@) == pair_value(m, "module"@));
    assert(member(v.tree(), "prefix"@) == pair_value(m, "prefix"@));
    assert(member(v.tree(), "exports"@) == pair_value(m, "exports"@));
    assert(member(v.tree(), "sources"@) == pair_value(m, "sources"@));
    assert(member(v.tree(), "declared_at"@) == pair_value(m, "declared_at"@));
}

/// The serialised form of a template helper pack tells all of it.
pub proof fn law_forms_tell_template_helper_packs_apart(a: TemplateHelperPack, b: TemplateHelperPack)
    requires
        equal(a.tree(), b.tree()),
    ensures
        a.contract_version == b.contract_version,
        a.module@ == b.module@,
        a.prefix@ == b.prefix@,
        a.exports@.len() == b.exports@.len(),
        forall|i: int|
            0 <= i < a.exports@.len() ==> equal(
                (#[trigger] a.exports@[i]).tree(),
                b.exports@[i].tree(),
            ),
        a.sources@.len() == b.sources@.len(),
        forall|i: int|
            0 <= i < a.sources@.len() ==> equal(
                (#[trigger] a.sources@[i]).tree(),
                b.sources@[i].tree(),
            ),
        equal(a.declared_at.tree(), b.declared_at.tree()),
{
    lemma_template_helper_pack(a);
    lemma_template_helper_pack(b);
    lemma_equal_trees(a.tree(), b.tree(), "contract_version"@);
    lemma_equal_trees(a.tree(), b.tree(), "module"@);
    lemma_equal_trees(a.tree(), b.tree(), "prefix"@);
    lemma_equal_trees(a.tree(), b.tree(), "exports"@);
    lemma_equal_items(template_helper_export_trees(a.exports@), template_helper_export_trees(b.exports@));
    assert forall|i: int| 0 <= i < a.exports@.len() implies equal(
        (#[trigger] a.exports@[i]).tree(),
        b.exports@[i].tree(),
    ) by {
        assert(template_helper_export_trees(a.exports@)[i] == a.exports@[i].tree());
        assert(template_helper_export_trees(b.exports@)[i] == b.exports@[i].tree());
    }
    lemma_equal_trees(a.tree(), b.tree(), "sources"@);
    lemma_equal_items(source_file_trees(a.sources@), source_file_trees(b.sources@));
    assert forall|i: int| 0 <= i < a.sources@.len() implies equal(
        (#[trigger] a.sources@[i]).tree(),
        b.sources@[i].tree(),
    ) by {
        assert(source_file_trees(a.sources@)[i] == a.sources@[i].tree());
        assert(source_file_trees(b.sources@)[i] == b.sources@[i].tree());
    }
    lemma_equal_trees(a.tree(), b.tree(), "declared_at"@);
}

} // verus!
