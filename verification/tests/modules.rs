//! Selection and evaluation of modules.
use wombat::error::WombatError;
use wombat::lua::bases::{decode_source_selector, declare_module_from, module_base_path};
use wombat::lua::cycles::validate_dependency_cycles;
use wombat::lua::evaluation::{
    begin_module, collect_module_file, finish_module, name_cycle, next_module, resolve_module,
    ModuleEntry,
};
use wombat::lua::selections::{
    consume_module, consumed_export, current_module_config, effective_target, register_selection,
    set_target, TargetDeclaration, TargetState,
};
use wombat::lua::state::{EvaluationState, Location, ModuleRegistry};
use wombat::model::context::{
    Architecture, OperatingSystem, OperatingSystemName, PlatformOrigin, ResolvedTarget,
    TargetPlatform,
};
use wombat::model::frozen::{FrozenValue, LuaValue};
use wombat::model::manifest::{DependencyKind, SourceLocation, SourceTrace};
use wombat::model::source::EntryKind;

fn place(line: u32) -> Location {
    Location {
        trace: SourceTrace {
            primary: SourceLocation {
                source: "wombat.lua".to_string(),
                line: Some(line),
                column: None,
            },
            callers: Vec::new(),
        },
    }
}

fn empty() -> ModuleRegistry {
    ModuleRegistry {
        stack: Vec::new(),
        records: Vec::new(),
        dependencies: Vec::new(),
        root_policy_started: false,
    }
}

fn config(value: i64) -> Option<Result<FrozenValue, WombatError>> {
    Some(Ok(FrozenValue::Table(vec![(
        "size".to_string(),
        FrozenValue::Integer(value),
    )])))
}

fn platform(name: OperatingSystemName) -> TargetPlatform {
    TargetPlatform {
        os: OperatingSystem {
            name,
            version: None,
            kernel: None,
            distribution: None,
        },
        arch: Architecture::Aarch64,
    }
}

#[test]
fn selected_modules_keep_one_configuration() {
    let mut registry = empty();
    register_selection(&mut registry, "theme", config(1), place(1)).unwrap();
    register_selection(&mut registry, "theme", config(1), place(2)).unwrap();
    assert!(registry.root_policy_started);
    let record = &registry.records[0].1;
    assert_eq!(record.state, EvaluationState::Selected);
    assert_eq!(record.explicit_config.as_ref().unwrap().locations.len(), 2);
    let error = register_selection(&mut registry, "theme", config(2), place(3)).unwrap_err();
    assert_eq!(
        error.text(),
        "conflicting configuration for module `theme`: first selected at wombat.lua:1, wombat.lua:2; conflicting selection at wombat.lua:3"
    );
    assert_eq!(registry.records.len(), 1);
    assert_eq!(registry.dependencies.len(), 3);
    assert!(register_selection(&mut registry, "a.b", None, place(4)).is_err());
}

#[test]
fn modules_do_not_configure_each_other() {
    let mut registry = empty();
    register_selection(&mut registry, "shell", None, place(1)).unwrap();
    assert!(begin_module(&mut registry, "shell", Ok("modules/shell.lua".to_string())).unwrap());
    let error = register_selection(&mut registry, "theme", config(1), place(2)).unwrap_err();
    assert!(error.text().starts_with("module `shell` cannot configure module `theme`"));
    register_selection(&mut registry, "theme", None, place(3)).unwrap();
    assert_eq!(registry.dependencies.last().unwrap().kind, DependencyKind::Use);
}

#[test]
fn modules_are_evaluated_once_and_in_order() {
    let mut registry = empty();
    register_selection(&mut registry, "theme", None, place(2)).unwrap();
    register_selection(&mut registry, "shell", None, place(1)).unwrap();
    assert_eq!(next_module(&registry).as_deref(), Some("shell"));
    assert!(begin_module(&mut registry, "shell", Ok("modules/shell.lua".to_string())).unwrap());
    consume_module(&mut registry, "theme", place(5)).unwrap();
    assert!(consume_module(&mut registry, "other", place(5))
        .unwrap_err()
        .text()
        .contains("was not selected with use()"));
    assert!(consumed_export(&registry, "theme").is_err());
    assert!(begin_module(&mut registry, "theme", Ok("modules/theme.lua".to_string())).unwrap());
    assert!(begin_module(&mut registry, "shell", Ok("modules/shell.lua".to_string())).is_err());
    assert_eq!(current_module_config(&registry).unwrap(), FrozenValue::empty_map());
    finish_module(&mut registry, Ok(FrozenValue::Integer(7))).unwrap();
    assert_eq!(consumed_export(&registry, "theme").unwrap(), FrozenValue::Integer(7));
    assert!(!begin_module(&mut registry, "theme", Ok(String::new())).unwrap());
    finish_module(&mut registry, Ok(FrozenValue::Null)).unwrap();
    assert!(registry.stack.is_empty());
    assert_eq!(next_module(&registry), None);
    assert!(current_module_config(&registry).is_err());
    assert!(consume_module(&mut registry, "theme", place(6)).is_err());
    assert!(validate_dependency_cycles(&registry).is_ok());
}

#[test]
fn failures_name_where_a_module_was_selected() {
    let mut registry = empty();
    register_selection(&mut registry, "shell", None, place(4)).unwrap();
    begin_module(&mut registry, "shell", Ok("modules/shell.lua".to_string())).unwrap();
    let noted =
        finish_module(&mut registry, Err(WombatError::Lua("boom".to_string()))).unwrap_err();
    assert_eq!(noted.error, WombatError::Lua("boom".to_string()));
    assert_eq!(
        noted.note.as_deref(),
        Some("module `shell` was selected at wombat.lua:4")
    );
    assert_eq!(registry.records[0].1.state, EvaluationState::Failed);
    let missing = begin_module(&mut registry, "absent", Err(WombatError::Io("gone".to_string())));
    assert_eq!(missing.unwrap_err(), WombatError::Io("gone".to_string()));
}

#[test]
fn dependency_cycles_are_reported() {
    let mut registry = empty();
    register_selection(&mut registry, "a", None, place(1)).unwrap();
    register_selection(&mut registry, "b", None, place(2)).unwrap();
    begin_module(&mut registry, "a", Ok("modules/a.lua".to_string())).unwrap();
    consume_module(&mut registry, "b", place(3)).unwrap();
    begin_module(&mut registry, "b", Ok("modules/b.lua".to_string())).unwrap();
    consume_module(&mut registry, "a", place(4)).unwrap();
    let error = validate_dependency_cycles(&registry).unwrap_err();
    assert!(error.text().contains("a -> b -> a"), "{}", error.text());
    assert_eq!(
        name_cycle(&vec!["a".to_string(), "b".to_string()], "a"),
        ["a", "b", "a"]
    );
}

#[test]
fn module_files_are_found_by_name() {
    let files = vec![
        "modules/shell.lua".to_string(),
        "modules/theme/init.lua".to_string(),
        "modules/twice.lua".to_string(),
        "modules/twice/init.lua".to_string(),
    ];
    assert_eq!(resolve_module(&files, "shell").unwrap(), "modules/shell.lua");
    assert!(resolve_module(&files, "none").is_err());
    assert_eq!(
        collect_module_file("modules/shell.lua", EntryKind::File).unwrap(),
        ModuleEntry::Take
    );
    assert_eq!(
        collect_module_file("modules/theme", EntryKind::Directory).unwrap(),
        ModuleEntry::Enter
    );
    assert_eq!(
        collect_module_file("modules/notes.txt", EntryKind::File).unwrap(),
        ModuleEntry::Pass
    );
    assert!(collect_module_file("modules/link.lua", EntryKind::Symlink).is_err());
}

#[test]
fn a_module_names_its_source_base_once() {
    let mut registry = empty();
    register_selection(&mut registry, "shell", None, place(1)).unwrap();
    assert!(declare_module_from(
        &mut registry,
        ".config",
        false,
        None,
        &place(2),
        &Ok(EntryKind::Directory)
    )
    .is_err());
    begin_module(&mut registry, "shell", Ok("modules/shell.lua".to_string())).unwrap();
    assert_eq!(
        module_base_path(&registry, ".config", false, &place(2)).unwrap(),
        "src/dot_config"
    );
    assert!(declare_module_from(
        &mut registry,
        ".config",
        false,
        None,
        &place(2),
        &Ok(EntryKind::File)
    )
    .is_err());
    declare_module_from(
        &mut registry,
        ".config",
        false,
        None,
        &place(2),
        &Ok(EntryKind::Directory),
    )
    .unwrap();
    let base = registry.records[0].1.source_base.as_ref().unwrap();
    assert_eq!(base.physical, "src/dot_config");
    assert_eq!(base.logical, ".config");
    assert_eq!(base.target.as_deref(), Some(".config"));
    assert!(module_base_path(&registry, ".", false, &place(3)).is_err());
    assert!(module_base_path(&registry, "*", false, &place(3)).is_err());
}

#[test]
fn source_selectors_are_text_or_marked() {
    assert_eq!(
        decode_source_selector(&LuaValue::Text("a".to_string()), &None).unwrap(),
        ("a".to_string(), false)
    );
    assert_eq!(
        decode_source_selector(&LuaValue::Table(0), &Some(".x".to_string())).unwrap(),
        (".x".to_string(), true)
    );
    assert!(decode_source_selector(&LuaValue::Integer(1), &None).is_err());
}

#[test]
fn targets_are_overridden_once_before_anything_reads_them() {
    let mut modules = empty();
    let mut state = TargetState {
        host: platform(OperatingSystemName::Macos),
        target: ResolvedTarget {
            platform: platform(OperatingSystemName::Macos),
            origin: PlatformOrigin::Host,
            declared_at: None,
        },
        target_override: None,
        target_first_read: None,
    };
    assert_eq!(effective_target(&state).os.name, OperatingSystemName::Macos);
    set_target(
        &modules,
        &mut state,
        Ok(TargetDeclaration::Compact("linux/aarch64".to_string())),
        place(1),
    )
    .unwrap();
    assert_eq!(effective_target(&state).os.name, OperatingSystemName::Linux);
    let error = set_target(
        &modules,
        &mut state,
        Ok(TargetDeclaration::Compact("macos/aarch64".to_string())),
        place(2),
    )
    .unwrap_err();
    assert_eq!(
        error.text(),
        "w.target() may override the target only once; first at wombat.lua:1, repeated at wombat.lua:2"
    );
    modules.root_policy_started = true;
    assert!(set_target(
        &modules,
        &mut state,
        Ok(TargetDeclaration::Compact("linux/aarch64".to_string())),
        place(3)
    )
    .unwrap_err()
    .text()
    .contains("before module selection"));
}
