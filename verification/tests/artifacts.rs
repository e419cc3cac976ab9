//! Declared artifacts.
use wombat::lua::actions::{declare_generated, GeneratedOptions};
use wombat::lua::artifacts::{
    compile_exclusions, register_artifact, visits_directory, visits_pattern, ArtifactDeclaration,
    SourceObservation,
};
use wombat::lua::conflicts::validate_artifact_conflicts;
use wombat::lua::evaluation::begin_module;
use wombat::lua::selections::register_selection;
use wombat::lua::state::{ArtifactRegistry, Location, ModuleRegistry};
use wombat::model::frozen::{LuaHeap, LuaTable, LuaValue};
use wombat::model::manifest::{
    ArtifactPolicy, ArtifactSelectionKind, EvaluatedProduction, SourceLocation, SourceOrigin,
    SourceTrace, TargetOrigin, UnallocatedPolicy,
};
use wombat::model::selection::compile_selector;
use wombat::model::source::{DirectoryLeaf, EntryKind, SourceFingerprint};

fn place() -> Location {
    Location {
        trace: SourceTrace {
            primary: SourceLocation {
                source: "modules/shell.lua".to_string(),
                line: Some(3),
                column: None,
            },
            callers: Vec::new(),
        },
    }
}

fn modules() -> ModuleRegistry {
    let mut registry = ModuleRegistry {
        stack: Vec::new(),
        records: Vec::new(),
        dependencies: Vec::new(),
        root_policy_started: false,
    };
    register_selection(&mut registry, "shell", None, place()).unwrap();
    begin_module(&mut registry, "shell", Ok("modules/shell.lua".to_string())).unwrap();
    registry
}

fn artifacts(unallocated: UnallocatedPolicy) -> ArtifactRegistry {
    ArtifactRegistry {
        policy: ArtifactPolicy { unallocated },
        artifacts: Vec::new(),
        directories: Vec::new(),
        notices: Vec::new(),
        selections: Vec::new(),
    }
}

fn print() -> SourceFingerprint {
    SourceFingerprint {
        size: 3,
        modified_seconds: 1,
        modified_nanoseconds: 2,
        executable: false,
    }
}

fn nothing() -> LuaHeap {
    LuaHeap { tables: Vec::new() }
}

fn declaration(source: &str, kind: &str) -> ArtifactDeclaration {
    ArtifactDeclaration {
        source_path: source.to_string(),
        hidden: false,
        explicit_target: None,
        requested_kind: kind.to_string(),
        exclusions: Vec::new(),
        allow_empty: false,
        location: place(),
    }
}

fn file() -> SourceObservation {
    SourceObservation {
        exact: EntryKind::File,
        template: EntryKind::Missing,
        directory: false,
        failure: String::new(),
        fingerprint: print(),
        leaves: Vec::new(),
    }
}

fn directory(leaves: &[&str]) -> SourceObservation {
    SourceObservation {
        exact: EntryKind::Directory,
        template: EntryKind::Missing,
        directory: true,
        failure: String::new(),
        fingerprint: print(),
        leaves: leaves
            .iter()
            .map(|relative| DirectoryLeaf {
                relative: relative.to_string(),
                fingerprint: print(),
            })
            .collect(),
    }
}

#[test]
fn a_file_is_installed_where_its_name_says() {
    let mut registry = artifacts(UnallocatedPolicy::Warn);
    let mut modules = modules();
    register_artifact(
        &mut modules,
        &mut registry,
        declaration(".config/app.toml", "auto"),
        &nothing(),
        &LuaValue::Nil,
        file(),
    )
    .unwrap();
    let artifact = &registry.artifacts[0];
    assert_eq!(artifact.source, "src/dot_config/app.toml");
    assert_eq!(artifact.target.path, ".config/app.toml");
    assert_eq!(artifact.owner, "shell");
    assert!(matches!(artifact.production, EvaluatedProduction::Static));
    assert_eq!(
        artifact.source_origin,
        SourceOrigin::Direct {
            declared: ".config/app.toml".to_string(),
            expanded: ".config/app.toml".to_string(),
        }
    );
    assert_eq!(registry.selections[0].kind, ArtifactSelectionKind::Exact);
    assert!(registry.directories.is_empty());
    assert!(modules.records[0].1.declarations_started);
}

#[test]
fn a_template_next_to_a_missing_file_is_followed() {
    let mut registry = artifacts(UnallocatedPolicy::Warn);
    let mut found = file();
    found.exact = EntryKind::Missing;
    found.template = EntryKind::File;
    let heap = LuaHeap {
        tables: vec![LuaTable {
            pairs: vec![(LuaValue::Text("a".to_string()), LuaValue::Integer(1))],
            marked_array: false,
        }],
    };
    register_artifact(
        &mut modules(),
        &mut registry,
        declaration("app.toml", "auto"),
        &heap,
        &LuaValue::Table(0),
        found,
    )
    .unwrap();
    let artifact = &registry.artifacts[0];
    assert_eq!(artifact.source, "src/app.toml.tmpl");
    assert_eq!(artifact.target.path, "app.toml");
    assert!(matches!(artifact.production, EvaluatedProduction::Template { .. }));
    let mut both = file();
    both.template = EntryKind::File;
    assert!(register_artifact(
        &mut modules(),
        &mut registry,
        declaration("app.toml", "auto"),
        &nothing(),
        &LuaValue::Nil,
        both,
    )
    .unwrap_err()
    .text()
    .contains("is ambiguous"));
}

#[test]
fn a_directory_places_each_file_beneath_its_target() {
    let mut registry = artifacts(UnallocatedPolicy::Warn);
    let mut wanted = declaration("nvim", "auto");
    wanted.explicit_target = Some(".config/nvim".to_string());
    register_artifact(
        &mut modules(),
        &mut registry,
        wanted,
        &nothing(),
        &LuaValue::Nil,
        directory(&["init.lua", "unalloc_notes.md"]),
    )
    .unwrap();
    assert_eq!(registry.artifacts.len(), 1);
    assert_eq!(registry.artifacts[0].target.path, ".config/nvim/init.lua");
    assert_eq!(
        registry.artifacts[0].target.origin,
        TargetOrigin::DirectoryExplicit {
            declared: ".config/nvim".to_string(),
            relative: "init.lua".to_string(),
        }
    );
    assert_eq!(registry.notices[0].skipped, ["nvim/unalloc_notes.md"]);
    assert_eq!(registry.selections[0].matches, ["nvim/init.lua"]);
    assert_eq!(registry.directories[0].root, "src/nvim");
    assert_eq!(registry.directories[0].snapshot.len(), 2);
}

#[test]
fn what_was_made_before_an_error_stays() {
    let mut registry = artifacts(UnallocatedPolicy::Error);
    let error = register_artifact(
        &mut modules(),
        &mut registry,
        declaration("nvim", "auto"),
        &nothing(),
        &LuaValue::Nil,
        directory(&["init.lua", "unalloc_notes.md"]),
    )
    .unwrap_err();
    assert_eq!(
        error.text(),
        "artifact selector `nvim` contains unallocated children without an explicit `to`"
    );
    assert_eq!(registry.artifacts.len(), 1);
    assert!(registry.notices.is_empty());
    assert!(registry.selections.is_empty());
    let error = register_artifact(
        &mut modules(),
        &mut registry,
        declaration("nvim", "auto"),
        &nothing(),
        &LuaValue::Nil,
        directory(&["a.lua", "unalloc_unalloc_b.lua", "c.lua"]),
    );
    assert!(error.is_err());
    assert_eq!(registry.artifacts.len(), 2);
    assert_eq!(registry.artifacts[1].target.path, "nvim/a.lua");
}

#[test]
fn faulty_declarations_change_nothing() {
    let mut registry = artifacts(UnallocatedPolicy::Warn);
    for (source, kind) in [("app", "link"), ("../app", "auto"), ("unalloc_app", "file")] {
        assert!(register_artifact(
            &mut modules(),
            &mut registry,
            declaration(source, kind),
            &nothing(),
            &LuaValue::Nil,
            file(),
        )
        .is_err());
    }
    assert!(register_artifact(
        &mut modules(),
        &mut registry,
        declaration("nvim", "file"),
        &nothing(),
        &LuaValue::Nil,
        directory(&["init.lua"]),
    )
    .unwrap_err()
    .text()
    .starts_with("install.file() cannot select a directory"));
    assert!(register_artifact(
        &mut modules(),
        &mut registry,
        declaration("app", "auto"),
        &nothing(),
        &LuaValue::Integer(3),
        file(),
    )
    .unwrap_err()
    .text()
    .contains("string-keyed map"));
    let mut gone = file();
    gone.exact = EntryKind::Missing;
    assert!(register_artifact(
        &mut modules(),
        &mut registry,
        declaration("app", "auto"),
        &nothing(),
        &LuaValue::Nil,
        gone,
    )
    .unwrap_err()
    .text()
    .contains("does not exist beneath its declaration base"));
    assert!(registry.artifacts.is_empty());
}

#[test]
fn no_name_leads_out_of_the_deployment_root() {
    for name in ["dot_.", "dot_dot_", "literal_..", "dot_literal_."] {
        let mut registry = artifacts(UnallocatedPolicy::Warn);
        let mut wanted = declaration("nvim", "auto");
        wanted.explicit_target = Some(".config".to_string());
        let result = register_artifact(
            &mut modules(),
            &mut registry,
            wanted,
            &nothing(),
            &LuaValue::Nil,
            directory(&[name]),
        );
        assert!(result.is_err(), "{name}");
        assert!(registry.artifacts.is_empty());
    }
    let mut climbing = declaration("app", "auto");
    climbing.explicit_target = Some("../app".to_string());
    assert!(register_artifact(
        &mut modules(),
        &mut artifacts(UnallocatedPolicy::Warn),
        climbing,
        &nothing(),
        &LuaValue::Nil,
        file(),
    )
    .is_err());
}

#[test]
fn globs_visit_what_they_authorise() {
    let selector = compile_selector("nvim/**", false).unwrap();
    let exclusions = compile_exclusions(&vec!["nvim/cache".to_string()], false).unwrap();
    assert!(visits_pattern(&selector, &exclusions, "nvim/lua", true));
    assert!(!visits_pattern(&selector, &exclusions, "nvim/cache", true));
    assert!(!visits_pattern(&selector, &exclusions, "nvim/.git", true));
    assert!(!visits_pattern(&selector, &exclusions, "other", true));
    assert!(visits_directory(&exclusions, "lua", true));
    assert!(!visits_directory(&exclusions, ".git", true));
    let mut registry = artifacts(UnallocatedPolicy::Warn);
    let mut found = directory(&["nvim/a.lua", "nvim/deep/b.lua", "nvim/notes.md"]);
    found.directory = false;
    register_artifact(
        &mut modules(),
        &mut registry,
        declaration("nvim/**/*.lua", "auto"),
        &nothing(),
        &LuaValue::Nil,
        found,
    )
    .unwrap();
    let targets: Vec<&str> =
        registry.artifacts.iter().map(|artifact| artifact.target.path.as_str()).collect();
    assert_eq!(targets, ["nvim/a.lua", "nvim/deep/b.lua"]);
    assert_eq!(registry.selections[0].kind, ArtifactSelectionKind::Glob);
}

fn generated(to: Option<&str>) -> GeneratedOptions {
    GeneratedOptions {
        keys: vec![LuaValue::Text("content".to_string())],
        content: Some(b"hello".to_vec()),
        to: Ok(to.map(str::to_string)),
        executable: Ok(Some(true)),
    }
}

#[test]
fn generated_files_stay_beneath_the_deployment_root() {
    let mut registry = artifacts(UnallocatedPolicy::Warn);
    let mut modules = modules();
    declare_generated(&mut modules, &mut registry, "motd", Some(generated(None)), place()).unwrap();
    assert_eq!(registry.artifacts[0].source, "generated/shell/motd");
    assert_eq!(registry.artifacts[0].target.path, "motd");
    assert!(modules.root_policy_started);
    assert!(declare_generated(
        &mut modules,
        &mut registry,
        "motd",
        Some(generated(Some("/etc/motd"))),
        place()
    )
    .unwrap_err()
    .text()
    .starts_with("w.generate() targets must remain"));
    assert!(declare_generated(&mut modules, &mut registry, "motd", None, place()).is_err());
    assert!(declare_generated(&mut modules, &mut registry, "../x", Some(generated(None)), place())
        .is_err());
    let mut unknown = generated(None);
    unknown.keys.push(LuaValue::Text("mode".to_string()));
    assert_eq!(
        declare_generated(&mut modules, &mut registry, "x", Some(unknown), place())
            .unwrap_err()
            .text(),
        "w.generate() does not support option `mode`"
    );
}

#[test]
fn conflicting_targets_are_reported() {
    let mut registry = artifacts(UnallocatedPolicy::Warn);
    let mut modules = modules();
    declare_generated(&mut modules, &mut registry, "a", Some(generated(Some("x"))), place()).unwrap();
    declare_generated(&mut modules, &mut registry, "b", Some(generated(Some("y"))), place()).unwrap();
    assert!(validate_artifact_conflicts(&registry.artifacts).is_ok());
    declare_generated(&mut modules, &mut registry, "c", Some(generated(Some("x/y"))), place())
        .unwrap();
    assert_eq!(
        validate_artifact_conflicts(&registry.artifacts).unwrap_err().text(),
        "artifact conflict at `x`: file target is an ancestor of `x/y`; declarations: shell from `generated/shell/a` (generated value `a`) declared at modules/shell.lua:3; shell from `generated/shell/c` (generated value `c`) declared at modules/shell.lua:3"
    );
    registry.artifacts.pop();
    declare_generated(&mut modules, &mut registry, "d", Some(generated(Some("x"))), place()).unwrap();
    assert_eq!(
        validate_artifact_conflicts(&registry.artifacts).unwrap_err().text(),
        "artifact conflict at `x`: multiple artifacts resolve to the same target; declarations: shell from `generated/shell/a` (generated value `a`) declared at modules/shell.lua:3; shell from `generated/shell/d` (generated value `d`) declared at modules/shell.lua:3"
    );
}
