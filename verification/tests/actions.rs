//! Declared tasks, scripts, providers and requirements.
use wombat::error::WombatError;
use wombat::lua::actions::{
    command_requirement, declare_ladder, declare_script, declare_task, note_action_file,
    parse_ladder_rungs, parse_script, parse_task, parse_task_runner, script_runner, task_runner,
    validate_interpreter_command,
};
use wombat::lua::payloads::{
    companion_step, compile_companions, script_payload, select_companions, CompanionStep,
    PayloadFile,
};
use wombat::lua::planning::{
    frozen_binding, frozen_candidate, frozen_preparation, plan_provider, plan_provider_actions,
    provider_bindings, provider_lua_error, provider_module_candidates, require_builtin,
    require_custom, validate_custom_provider, PlannedProvider, ProviderModule,
};
use wombat::lua::providers::{
    configure_providers, read_name, record_provider_sources, ProviderSource,
};
use wombat::lua::requirements::{
    parse_publications, validate_product_name, validate_provider_module_name,
    validate_provider_name,
};
use wombat::lua::resolution::{
    begin_requirement, declare_requirement, next_question, parse_provider_resolution,
    parse_requirement, Resolution,
};
use wombat::lua::state::{
    ActionRegistry, Location, ModuleRegistry, RequirementRegistry, TrackedSource,
};
use wombat::model::frozen::FrozenValue;
use wombat::model::ladder::{ExecutionLadder, FlatRung, RungId};
use wombat::model::manifest::{
    ProviderOrigin, RequirementChoice, RequirementKind, ScriptScope, SourceFile, SourceLocation,
    SourceTrace, TaskLogPolicy, TaskRunner,
};
use wombat::model::source::{EntryKind, SourceFingerprint};

fn place() -> Location {
    Location {
        trace: SourceTrace {
            primary: SourceLocation {
                source: "wombat.lua".to_string(),
                line: Some(9),
                column: None,
            },
            callers: Vec::new(),
        },
    }
}

fn modules() -> ModuleRegistry {
    ModuleRegistry {
        stack: Vec::new(),
        records: Vec::new(),
        dependencies: Vec::new(),
        root_policy_started: false,
    }
}

fn actions() -> ActionRegistry {
    ActionRegistry {
        interpreters: Vec::new(),
        tasks: Vec::new(),
        scripts: Vec::new(),
        ladder: None,
        next_action_order: 0,
    }
}

fn text(value: &str) -> FrozenValue {
    FrozenValue::String(value.to_string())
}

fn table(entries: Vec<(&str, FrozenValue)>) -> FrozenValue {
    FrozenValue::Table(
        entries
            .into_iter()
            .map(|(key, value)| (key.to_string(), value))
            .collect(),
    )
}

fn none() -> FrozenValue {
    FrozenValue::empty_map()
}

#[test]
fn interpreters_follow_the_extension() {
    let python = parse_task_runner("a.py", None, false, &Vec::new()).unwrap();
    assert_eq!(python.command(), Some("python3"));
    assert!(python.is_python());
    let shell = parse_task_runner("a.sh", None, false, &Vec::new()).unwrap();
    assert_eq!(shell.command(), Some("sh"));
    let direct = parse_task_runner("tool", None, true, &Vec::new()).unwrap();
    assert!(direct.is_direct());
    assert!(parse_task_runner("tool", None, false, &Vec::new()).is_err());
    let named = parse_task_runner("a.py", Some(&text("uv")), false, &Vec::new()).unwrap();
    assert_eq!(named.command(), Some("uv"));
    assert!(parse_task_runner("a.py", Some(&text("")), false, &Vec::new()).is_err());
    assert!(validate_interpreter_command("bin/python").is_err());
    assert!(validate_interpreter_command("/bin/python").is_ok());
    assert_eq!(command_requirement(&python, true).as_deref(), Some("python3"));
    assert_eq!(command_requirement(&python, false), None);
    assert_eq!(command_requirement(&direct, true), None);
}

#[test]
fn scripts_are_declared_once() {
    let mut modules = modules();
    let mut actions = actions();
    let options = || {
        Ok(table(vec![
            ("env", table(vec![("A", text("1"))])),
            ("name", text("one")),
            ("scope", text("host")),
            ("timeout", FrozenValue::Integer(30)),
        ]))
    };
    let request = parse_script("setup.sh", Ok(none()), options()).unwrap();
    assert_eq!(request.scope, ScriptScope::Host);
    assert_eq!(request.timeout_seconds, Some(30));
    assert_eq!(request.env, [("A".to_string(), "1".to_string())]);
    let runner = script_runner(&request, false, &Vec::new()).unwrap();
    declare_script(&mut modules, &mut actions, request, runner, Vec::new(), place()).unwrap();
    assert_eq!(actions.scripts[0].entrypoint, "scripts/setup.sh");
    assert_eq!(actions.next_action_order, 1);
    assert!(modules.root_policy_started);
    let identity = actions.scripts[0].identity.clone();
    assert!(identity.contains(":setup.sh#one:host:"), "{identity}");
    let again = parse_script("setup.sh", Ok(none()), options()).unwrap();
    let runner = script_runner(&again, false, &Vec::new()).unwrap();
    let error =
        declare_script(&mut modules, &mut actions, again, runner, Vec::new(), place()).unwrap_err();
    assert_eq!(
        error.text(),
        format!("script `{identity}` is declared more than once; add a unique `name` option")
    );
}

#[test]
fn script_options_are_checked() {
    for options in [
        table(vec![("timeout", FrozenValue::Integer(0))]),
        table(vec![("env", text("x"))]),
        table(vec![("env", table(vec![("A=B", text("x"))]))]),
        table(vec![("scope", text("moon"))]),
        table(vec![("name", text("a b"))]),
    ] {
        assert!(parse_script("setup.sh", Ok(none()), Ok(options)).is_err());
    }
    assert!(parse_script("../setup.sh", Ok(none()), Ok(none())).is_err());
    assert!(parse_script("setup.sh", Ok(text("x")), Ok(none())).is_err());
    assert!(parse_script("setup.sh", Err(WombatError::Lua("bad".to_string())), Ok(none())).is_err());
    let unknown = parse_script("setup.sh", Ok(none()), Ok(table(vec![("odd", text("x"))]))).unwrap();
    assert!(script_runner(&unknown, false, &Vec::new()).is_err());
}

#[test]
fn tasks_are_declared_once() {
    let mut modules = modules();
    let mut actions = actions();
    let print = SourceFingerprint {
        size: 1,
        modified_seconds: 0,
        modified_nanoseconds: 0,
        executable: false,
    };
    let request = parse_task(
        "gen.py",
        Ok(table(vec![("n", FrozenValue::Integer(1))])),
        Ok(table(vec![
            ("cache", table(vec![("revision", text("2"))])),
            ("logs", text("always")),
            ("to", text(".config")),
        ])),
    )
    .unwrap();
    assert_eq!(request.logs, TaskLogPolicy::Always);
    assert!(request.cache.enabled);
    assert_eq!(request.cache.revision.as_deref(), Some("2"));
    let runner = task_runner(&request, false, &Vec::new()).unwrap();
    declare_task(&mut modules, &mut actions, request, runner, b"abc", print, place()).unwrap();
    let task = &actions.tasks[0].task;
    assert_eq!(task.entrypoint, "tasks/gen.py");
    assert_eq!(
        task.entrypoint_digest,
        "sha256:ba7816bf8f01cfea414140de5dae2223b00361a396177a9cb410ff61f20015ad"
    );
    assert_eq!(task.target_root.as_ref().unwrap().path, ".config");
    let request = parse_task("gen.py", Ok(none()), Ok(none())).unwrap();
    let runner = task_runner(&request, false, &Vec::new()).unwrap();
    assert!(declare_task(&mut modules, &mut actions, request, runner, b"", print, place()).is_err());
    assert!(parse_task("gen.py", Ok(none()), Ok(table(vec![("logs", text("loud"))]))).is_err());
    assert!(parse_task("gen.py", Ok(text("x")), Ok(none())).is_err());
}

#[test]
fn ladders_are_read_and_declared_once() {
    let rungs = FrozenValue::Array(vec![table(vec![
        ("children", FrozenValue::Array(vec![table(vec![("id", text("a.b"))])])),
        ("id", text("a")),
    ])]);
    let read = parse_ladder_rungs(&rungs, "ladder").unwrap();
    assert_eq!(read[0].id.id(), "a");
    assert_eq!(read[0].children[0].id.id(), "a.b");
    assert!(parse_ladder_rungs(&text("x"), "ladder").is_err());
    let ladder = || {
        Ok(ExecutionLadder {
            name: "short".to_string(),
            flattened: vec![FlatRung {
                id: RungId { name: "a".to_string() },
                depth: 0,
                core: None,
                parent: None,
            }],
        })
    };
    let mut modules = modules();
    let mut actions = actions();
    declare_ladder(&mut modules, &mut actions, ladder(), &place()).unwrap();
    assert_eq!(
        declare_ladder(&mut modules, &mut actions, ladder(), &place()).unwrap_err().error.text(),
        "root configuration selects more than one ladder at wombat.lua:9"
    );
    let faulty = WombatError::Configuration("bad".to_string());
    let noted = declare_ladder(&mut modules, &mut actions, Err(faulty), &place()).unwrap_err();
    assert_eq!(noted.error.text(), "bad");
    assert_eq!(noted.note.unwrap(), "declared at wombat.lua:9");
    let missing = Err(WombatError::Io("no such file".to_string()));
    let noted = note_action_file(missing, "task", "a.sh", "tasks").unwrap_err();
    assert_eq!(noted.note.unwrap(), "task `a.sh` must be a regular file beneath `tasks/`");
}

#[test]
fn companions_are_selected_with_the_entrypoint() {
    let matcher = compile_companions(&vec!["lib/*.sh".to_string()]).unwrap();
    let files = vec![
        "lib/a.sh".to_string(),
        "other.txt".to_string(),
        "setup.sh".to_string(),
    ];
    assert_eq!(
        select_companions("setup.sh", &matcher, &files).unwrap(),
        ["lib/a.sh", "setup.sh"]
    );
    assert!(compile_companions(&vec!["../x".to_string()]).is_err());
    assert!(compile_companions(&vec!["a[".to_string()]).is_err());
    assert_eq!(companion_step(EntryKind::Directory, "lib").unwrap(), CompanionStep::Descend);
    assert_eq!(companion_step(EntryKind::File, "a").unwrap(), CompanionStep::Consider);
    assert!(companion_step(EntryKind::Symlink, "a").is_err());
    let payload = script_payload(PayloadFile {
        relative: "setup.sh".to_string(),
        regular: true,
        size: 3,
        bytes: b"abc".to_vec(),
        executable: true,
    })
    .unwrap();
    assert_eq!(payload.source, "scripts/setup.sh");
    assert_eq!(
        payload.digest,
        "sha256:ba7816bf8f01cfea414140de5dae2223b00361a396177a9cb410ff61f20015ad"
    );
    assert!(script_payload(PayloadFile {
        relative: "big".to_string(),
        regular: true,
        size: 16 * 1024 * 1024 + 1,
        bytes: Vec::new(),
        executable: false,
    })
    .is_err());
}

fn registry() -> RequirementRegistry {
    RequirementRegistry {
        providers: Vec::new(),
        requirements: Vec::new(),
    }
}

fn sources() -> Vec<Result<ProviderSource, WombatError>> {
    vec![
        Ok(ProviderSource::Builtin {
            contract_version: 1,
            conflicting: false,
        }),
        Ok(ProviderSource::Custom {
            source: "abc".to_string(),
        }),
    ]
}

fn configured() -> (ModuleRegistry, RequirementRegistry) {
    let mut modules = modules();
    let mut registry = registry();
    let entries = FrozenValue::Array(vec![
        text("brew"),
        table(vec![("name", text("mine")), ("with", none())]),
    ]);
    configure_providers(&mut modules, &mut registry, false, Ok(entries), sources(), &place())
        .unwrap();
    (modules, registry)
}

#[test]
fn providers_are_configured_once_and_in_order() {
    let (mut modules, mut registry) = configured();
    assert!(modules.root_policy_started);
    assert_eq!(registry.providers[0].priority, 0);
    assert_eq!(registry.providers[1].name, "mine");
    match &registry.providers[1].origin {
        ProviderOrigin::Custom { entrypoint, files } => {
            assert_eq!(entrypoint, "mine.lua");
            assert_eq!(files[0].source, "providers/mine.lua");
            assert_eq!(files[0].size, 3);
            assert_eq!(
                files[0].digest,
                "sha256:ba7816bf8f01cfea414140de5dae2223b00361a396177a9cb410ff61f20015ad"
            );
        }
        _ => panic!("a provider of the repository"),
    }
    assert_eq!(
        configure_providers(
            &mut modules,
            &mut registry,
            false,
            Ok(FrozenValue::Array(Vec::new())),
            Vec::new(),
            &place()
        )
        .unwrap_err()
        .error
        .text(),
        "w.providers() may be declared only once; repeated at wombat.lua:9"
    );
}

#[test]
fn faulty_providers_are_refused() {
    let refused = |entries: Vec<FrozenValue>, found: Vec<Result<ProviderSource, WombatError>>| {
        let mut modules = modules();
        let mut registry = registry();
        let error = configure_providers(
            &mut modules,
            &mut registry,
            false,
            Ok(FrozenValue::Array(entries)),
            found,
            &place(),
        )
        .unwrap_err();
        assert!(modules.root_policy_started);
        assert!(registry.providers.is_empty());
        error
    };
    let told = |entries: Vec<FrozenValue>, found: Vec<Result<ProviderSource, WombatError>>| {
        let noted = refused(entries, found);
        assert_eq!(noted.note, None);
        noted.error.text()
    };
    assert_eq!(
        told(vec![text("brew"), text("brew")], sources()),
        "provider `brew` is configured more than once"
    );
    assert_eq!(
        told(vec![text("brew"), FrozenValue::Integer(1)], sources()),
        "provider entry 2 must be a string or table"
    );
    assert!(told(vec![text("a/b")], sources()).contains("a/b"));
    assert_eq!(
        told(
            vec![text("brew")],
            vec![Ok(ProviderSource::Builtin {
                contract_version: 1,
                conflicting: true
            })]
        ),
        "custom provider `providers/brew.lua` conflicts with reserved built-in provider `brew`"
    );
    let lost = refused(
        vec![text("mine")],
        vec![Err(WombatError::Io("no such file".to_string()))],
    );
    assert_eq!(lost.error, WombatError::Io("no such file".to_string()));
    assert_eq!(
        lost.note.unwrap(),
        "custom provider `mine` must be defined at `providers/mine.lua`"
    );
    assert_eq!(read_name(&text("mine"), 0).unwrap(), "mine");
    assert!(read_name(&FrozenValue::Integer(1), 0).is_err());
    let mut late = modules();
    assert!(configure_providers(
        &mut late,
        &mut registry(),
        true,
        Ok(FrozenValue::Array(Vec::new())),
        Vec::new(),
        &place()
    )
    .unwrap_err()
    .error
    .text()
    .contains("must run before"));
    assert!(!late.root_policy_started);
}

fn resolved(identity: &str) -> Resolution {
    parse_provider_resolution(
        "brew",
        &table(vec![
            ("data", none()),
            ("identity", text(identity)),
            ("kind", text("binding")),
            ("prerequisites", FrozenValue::Array(vec![text("tap")])),
        ]),
    )
    .unwrap()
}

#[test]
fn requirements_are_bound_by_the_first_provider_that_takes_them() {
    let (mut modules, mut registry) = configured();
    let request = parse_requirement(
        "package",
        "ripgrep",
        Ok(table(vec![(
            "accept",
            FrozenValue::Array(vec![table(vec![("name", text("grep"))])]),
        )])),
        true,
    )
    .unwrap();
    assert_eq!(request.kind, RequirementKind::Package);
    begin_requirement(&mut modules, &registry, &request, &place()).unwrap();
    assert_eq!(
        next_question(&request.candidates, &registry.providers, 0).unwrap(),
        Some((0, 0))
    );
    assert_eq!(
        next_question(&request.candidates, &registry.providers, 2).unwrap(),
        Some((1, 0))
    );
    assert_eq!(next_question(&request.candidates, &registry.providers, 4).unwrap(), None);
    let answers = vec![
        Resolution::Unsupported("no formula".to_string()),
        Resolution::Unsupported("no way".to_string()),
        resolved("grep"),
    ];
    declare_requirement(&modules, &mut registry, request, answers, place()).unwrap();
    let requirement = &registry.requirements[0];
    assert_eq!(requirement.selected, 1);
    assert_eq!(requirement.choice, RequirementChoice::Accepted);
    assert_eq!(requirement.attempts.len(), 3);
    assert_eq!(requirement.binding.identity, "grep");
}

#[test]
fn requirements_that_nobody_takes_are_refused() {
    let (modules, mut registry) = configured();
    let request = parse_requirement("command", "rg", Ok(none()), false).unwrap();
    let answers = vec![
        Resolution::Unsupported("a".to_string()),
        Resolution::Unsupported("b".to_string()),
    ];
    assert_eq!(
        declare_requirement(&modules, &mut registry, request, answers, place()).unwrap_err().text(),
        "no configured provider can resolve command requirement `rg` at wombat.lua:9: candidate 1 through `brew`: a; candidate 1 through `mine`: b"
    );
    assert!(registry.requirements.is_empty());
}

#[test]
fn faulty_requirements_are_refused() {
    assert!(parse_requirement("font", "x", Ok(none()), false).is_err());
    assert!(parse_requirement("command", "a b", Ok(none()), false).is_err());
    assert!(parse_requirement("command", "x", Ok(text("y")), false).is_err());
    assert_eq!(
        parse_requirement("command", "x", Ok(table(vec![("accept", text("y"))])), false)
            .unwrap_err()
            .text(),
        "w.need() does not support `accept`; use w.prefer()"
    );
    assert!(parse_requirement("command", "x", Ok(table(vec![("minimum", text(""))])), false).is_err());
    let request = parse_requirement("command", "x", Ok(none()), false).unwrap();
    let mut modules = modules();
    assert_eq!(
        begin_requirement(&mut modules, &registry(), &request, &place()).unwrap_err().text(),
        "requirements need provider policy; call w.providers() before w.need() at wombat.lua:9"
    );
    assert!(!modules.root_policy_started);
    assert!(validate_product_name("--x", RequirementKind::Command).is_err());
    assert!(validate_provider_name("brew").is_ok());
    assert!(validate_provider_module_name("a.b").is_ok());
    assert!(validate_provider_module_name("a..b").is_err());
    assert!(parse_publications(
        "publishes",
        &table(vec![("commands", FrozenValue::Array(vec![text("a"), text("a")]))])
    )
    .is_err());
    assert_eq!(
        parse_publications(
            "publishes",
            &table(vec![("commands", FrozenValue::Array(vec![text("b"), text("a")]))])
        )
        .unwrap()
        .commands,
        ["a", "b"]
    );
    assert_eq!(
        parse_provider_resolution("brew", &table(vec![("kind", text("odd"))]))
            .unwrap_err()
            .text(),
        "provider `brew` returned unknown resolution kind `odd`"
    );
}

fn bound() -> RequirementRegistry {
    let (modules, mut registry) = configured();
    let request = parse_requirement("package", "grep", Ok(none()), false).unwrap();
    declare_requirement(&modules, &mut registry, request, vec![resolved("grep")], place()).unwrap();
    registry
}

fn planned(returned: Vec<FrozenValue>) -> PlannedProvider {
    PlannedProvider {
        name: "brew".to_string(),
        custom: true,
        returned: Some(FrozenValue::Array(returned)),
        failures: [None, None, None],
    }
}

fn prerequisite(identity: &str) -> FrozenValue {
    table(vec![
        ("data", none()),
        ("description", text("add a tap")),
        ("elevated", FrozenValue::Boolean(false)),
        ("identity", text(identity)),
        ("kind", text("prerequisite")),
    ])
}

#[test]
fn plans_match_what_bindings_refer_to() {
    let registry = bound();
    let plan =
        plan_provider_actions(&registry.requirements, &vec![planned(vec![prerequisite("tap")])])
            .unwrap();
    assert_eq!(plan.prerequisites[0].identity, "tap");
    assert!(plan.preparations.is_empty());
    assert_eq!(
        plan_provider_actions(&registry.requirements, &vec![planned(Vec::new())])
            .unwrap_err()
            .text(),
        "provider `brew` binding references absent prerequisite `tap`"
    );
    assert_eq!(
        plan_provider_actions(
            &registry.requirements,
            &vec![planned(vec![prerequisite("tap"), prerequisite("other")])]
        )
        .unwrap_err()
        .text(),
        "provider `brew` planned unreferenced prerequisite `other`"
    );
    assert_eq!(
        plan_provider_actions(
            &registry.requirements,
            &vec![planned(vec![prerequisite("tap"), prerequisite("tap")])]
        )
        .unwrap_err()
        .text(),
        "provider `brew` planned duplicate prerequisite `tap`"
    );
}

#[test]
fn plans_need_the_functions_that_carry_them_out() {
    let mut provider = planned(vec![prerequisite("tap")]);
    provider.failures[1] = Some("nil".to_string());
    assert_eq!(
        plan_provider(&provider).unwrap_err().text(),
        "provider `brew` planned prerequisites require reconcile_prerequisite() failed: nil"
    );
    provider.custom = false;
    assert!(plan_provider(&provider).is_ok());
    provider.returned = None;
    assert!(plan_provider(&provider).unwrap().prerequisites.is_empty());
    assert!(plan_provider(&planned(vec![table(vec![("kind", text("odd"))])])).is_err());
    assert!(plan_provider(&planned(vec![text("x")])).is_err());
    assert!(validate_custom_provider("mine", &[None, None, None]).is_ok());
    assert_eq!(
        validate_custom_provider("mine", &[None, Some("nil".to_string()), None])
            .unwrap_err()
            .text(),
        "provider `mine` definition requires check() failed: nil"
    );
    assert_eq!(
        provider_lua_error("mine", "load", "boom").text(),
        "provider `mine` load failed: boom"
    );
}

#[test]
fn provider_code_sees_plain_values() {
    let registry = bound();
    let requirement = &registry.requirements[0];
    let binding = frozen_binding(&requirement.binding);
    let FrozenValue::Table(entries) = &binding else {
        panic!("a table")
    };
    let keys: Vec<&str> = entries.iter().map(|(key, _)| key.as_str()).collect();
    assert_eq!(
        keys,
        ["data", "elevated", "identity", "prerequisites", "provider", "publications"]
    );
    assert_eq!(provider_bindings(&registry.requirements, "brew"), [binding.copy()]);
    assert!(provider_bindings(&registry.requirements, "mine").is_empty());
    assert_eq!(
        frozen_candidate(&requirement.candidates[0]),
        table(vec![
            ("kind", text("package")),
            ("name", text("grep")),
            (
                "publications",
                table(vec![("commands", FrozenValue::Array(Vec::new()))])
            ),
            ("with", none()),
        ])
    );
    let operation = table(vec![
        ("data", none()),
        ("description", text("update")),
        ("elevated", FrozenValue::Boolean(true)),
        ("identity", text("update-index")),
        ("kind", text("operation")),
    ]);
    let plan = plan_provider(&planned(vec![operation])).unwrap();
    assert_eq!(
        frozen_preparation(&plan.preparations[0]),
        table(vec![
            ("data", none()),
            ("description", text("update")),
            ("elevated", FrozenValue::Boolean(true)),
            ("identity", text("update-index")),
            ("provider", text("brew")),
        ])
    );
}

#[test]
fn provider_code_loads_only_its_own_modules() {
    assert_eq!(require_builtin("wombat.provider").unwrap(), ProviderModule::Api);
    assert!(require_builtin("x").is_err());
    assert_eq!(
        provider_module_candidates("mine", "a.b"),
        (
            "providers/mine/a/b.lua".to_string(),
            "providers/mine/a/b/init.lua".to_string()
        )
    );
    assert_eq!(
        require_custom("mine", "a.b", false, true).unwrap(),
        ProviderModule::File("providers/mine/a/b/init.lua".to_string())
    );
    assert_eq!(
        require_custom("mine", "a.b", false, false).unwrap_err().text(),
        "provider `mine` cannot find helper module `a.b`"
    );
    assert!(require_custom("mine", "../a", true, true).is_err());
}

#[test]
fn provider_files_are_the_tracked_sources() {
    let held = |path: &str| TrackedSource {
        manifest: SourceFile {
            path: path.to_string(),
            digest: "sha256:d".to_string(),
        },
        fingerprint: SourceFingerprint {
            size: 2,
            modified_seconds: 0,
            modified_nanoseconds: 0,
            executable: false,
        },
        snapshot: "é".to_string(),
    };
    let files = record_provider_sources(
        &vec![
            held("modules/x.lua"),
            held("providers/mine.lua"),
            held("providers/mine/a.lua"),
        ],
        "mine",
    );
    assert_eq!(files.len(), 2);
    assert_eq!(files[1].payload, "mine/a.lua");
    assert_eq!(files[0].size, 2);
}

#[test]
fn runners_tell_what_they_are() {
    let runner = TaskRunner::EmbeddedLua { contract_version: 1 };
    assert!(runner.is_embedded_lua());
    assert_eq!(runner.command(), None);
    assert!(runner.args().is_empty());
    assert_eq!(runner.contract_version(), 1);
}
