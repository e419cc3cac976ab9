//! Plans, products, and what is shown of them.
use wombat::digest::digest;
use wombat::error::WombatError;
use wombat::inspection::compare::compare;
use wombat::inspection::explain::{
    explain, explained_source, portable_join, select_artifact, source_freshness, Excerpt,
};
use wombat::inspection::sections::{
    inspect, inspect_plan, render_list, ExecutionJournal, InspectSection, JournalAction,
    PlanInspectSection,
};
use wombat::lua::context::ContextState;
use wombat::lua::manifesting::{
    build_manifest, evaluate, normalize_requirements, validate_ladder_actions, Evaluation,
    EvaluationOutcome,
};
use wombat::lua::selections::TargetState;
use wombat::lua::state::{
    ActionRegistry, ArtifactRegistry, ModuleRegistry, RequirementRegistry, TrackedSource,
};
use wombat::model::context::{
    Architecture, OperatingSystem, OperatingSystemName, PlatformOrigin, ResolvedTarget,
    TargetPlatform,
};
use wombat::model::frozen::FrozenValue;
use wombat::model::ladder::{CoreRung, ExecutionLadder, FlatRung};
use wombat::model::manifest::{
    Artifact, ArtifactKind, ArtifactPolicy, BuildPlan, EvaluatedArtifact, EvaluatedProduction,
    ExecutionMode, FileContent, Manifest, Production, Provider, ProviderBinding, ProviderOrigin,
    Publications, Requirement, RequirementCandidate, RequirementChoice, RequirementKind,
    SourceFile, SourceLocation, SourceOrigin, SourceTrace, TargetOrigin, TargetPath, TargetScope,
    UnallocatedPolicy,
};
use wombat::model::plan::{
    check_execution, check_provider_file, compute_id, freeze, validate, validate_actions,
    ArtifactSource,
};
use wombat::model::source::SourceFingerprint;
use wombat::requirements::bootstrap::{
    accept_answer, after_preparation, after_recheck, after_reconciliation, begin_bootstrap,
    bootstrap, bootstrap_exact, needs_answer, BootstrapAction, BootstrapStart,
};
use wombat::requirements::check::{
    begin_check, brew_query, brew_state, check, check_output_limit, check_requirement,
    ensure_compatible_host, output_detail, resume_check, CheckItem, CheckOutcome, CheckProgress,
    CheckStage, CheckStatus, CheckStep, Probe, Ran, Reply,
};
use wombat::requirements::commands::{brew_operation, preflight, reconcile_requirement, Work};

fn trace(line: u32) -> SourceTrace {
    SourceTrace {
        primary: SourceLocation {
            source: "modules/shell.lua".to_string(),
            line: Some(line),
            column: None,
        },
        callers: Vec::new(),
    }
}

fn platform(name: OperatingSystemName) -> TargetPlatform {
    TargetPlatform {
        os: OperatingSystem {
            name,
            version: None,
            kernel: None,
            distribution: None,
        },
        arch: Architecture::X86_64,
    }
}

fn target() -> ResolvedTarget {
    ResolvedTarget {
        platform: platform(OperatingSystemName::Linux),
        origin: PlatformOrigin::Host,
        declared_at: None,
    }
}

fn ladder() -> ExecutionLadder {
    let rung = |core: CoreRung| FlatRung {
        id: core.rung(),
        depth: 0,
        core: Some(core),
        parent: None,
    };
    ExecutionLadder {
        name: "default".to_string(),
        flattened: vec![
            rung(CoreRung::MaterialiseBefore),
            rung(CoreRung::MaterialiseTasks),
            rung(CoreRung::MaterialiseArtifacts),
            rung(CoreRung::DeployAfter),
        ],
    }
}

fn binding(provider: &str, data: Vec<(&str, &str)>) -> ProviderBinding {
    ProviderBinding {
        provider: provider.to_string(),
        identity: "ripgrep".to_string(),
        elevated: false,
        package: Some("ripgrep".to_string()),
        publications: Publications::command("rg"),
        prerequisites: Vec::new(),
        data: FrozenValue::Table(
            data.into_iter()
                .map(|(key, value)| (key.to_string(), FrozenValue::String(value.to_string())))
                .collect(),
        ),
    }
}

fn requirement(kind: RequirementKind, provider: &str, minimum: Option<&str>) -> Requirement {
    let minimum = minimum.map(str::to_string);
    Requirement {
        kind,
        owner: "shell".to_string(),
        declared_at: trace(2),
        candidates: vec![match kind {
            RequirementKind::Command => RequirementCandidate::Command {
                name: "rg".to_string(),
                minimum,
            },
            RequirementKind::Package => RequirementCandidate::Package {
                name: "ripgrep".to_string(),
                provider: None,
                minimum,
                publications: Publications::command("rg"),
                with: FrozenValue::empty_map(),
            },
        }],
        attempts: Vec::new(),
        selected: 0,
        choice: RequirementChoice::Required,
        binding: binding(
            provider,
            if provider == "brew" {
                vec![("kind", "formula"), ("name", "ripgrep")]
            } else {
                vec![("name", "ripgrep")]
            },
        ),
        when: CoreRung::MaterialiseBefore.rung(),
    }
}

fn provider(name: &str) -> Provider {
    Provider {
        name: name.to_string(),
        priority: 0,
        config: FrozenValue::empty_map(),
        origin: ProviderOrigin::Builtin { contract_version: 1 },
        declared_at: trace(1),
    }
}

fn artifact() -> Artifact {
    Artifact {
        kind: ArtifactKind::File,
        source: "src/dot_zshrc".to_string(),
        source_origin: SourceOrigin::Direct {
            declared: ".zshrc".to_string(),
            expanded: ".zshrc".to_string(),
        },
        source_projection: None,
        production: Production::Static,
        target: TargetPath {
            path: ".zshrc".to_string(),
            scope: TargetScope::DeploymentRoot,
            origin: TargetOrigin::Inferred {
                source: "src/dot_zshrc".to_string(),
            },
        },
        content: FileContent {
            digest: digest(b"abc"),
            size: 3,
            executable: false,
        },
        owner: "shell".to_string(),
        declared_at: trace(3),
    }
}

fn product(requirements: Vec<Requirement>) -> Manifest {
    Manifest {
        format_version: 1,
        wombat_version: "0.1.0".to_string(),
        build_id: "build-1".to_string(),
        plan_id: "plan-1".to_string(),
        execution_mode: ExecutionMode::Normal,
        skipped_requirement_gates: Vec::new(),
        sources: vec![SourceFile {
            path: "modules/shell.lua".to_string(),
            digest: digest(b"one\ntwo\nthree\n"),
        }],
        inputs: Vec::new(),
        target: target(),
        observations: Vec::new(),
        process_observations: Vec::new(),
        modules: Vec::new(),
        dependencies: Vec::new(),
        template_helpers: Vec::new(),
        project_identity: "project".to_string(),
        ladder: ladder(),
        providers: vec![provider("brew"), provider("apt")],
        requirements,
        prerequisites: Vec::new(),
        preparations: Vec::new(),
        tasks: Vec::new(),
        scripts: Vec::new(),
        artifact_policy: ArtifactPolicy {
            unallocated: UnallocatedPolicy::Warn,
        },
        artifact_notices: Vec::new(),
        artifact_selections: Vec::new(),
        artifacts: vec![artifact()],
    }
}

fn evaluation() -> Evaluation {
    Evaluation {
        project: Some("dots".to_string()),
        root: b"/repo".to_vec(),
        arguments: Vec::new(),
        sources: vec![TrackedSource {
            manifest: SourceFile {
                path: "modules/shell.lua".to_string(),
                digest: digest(b"x"),
            },
            fingerprint: SourceFingerprint {
                size: 1,
                modified_seconds: 0,
                modified_nanoseconds: 0,
                executable: false,
            },
            snapshot: "x".to_string(),
        }],
        modules: ModuleRegistry {
            stack: Vec::new(),
            records: Vec::new(),
            dependencies: Vec::new(),
            root_policy_started: true,
        },
        inputs: Vec::new(),
        context: ContextState {
            target: TargetState {
                host: platform(OperatingSystemName::Linux),
                target: target(),
                target_override: None,
                target_first_read: None,
            },
            observations: Vec::new(),
        },
        processes: Vec::new(),
        helpers: Vec::new(),
        requirements: RequirementRegistry {
            providers: vec![provider("brew")],
            requirements: vec![
                requirement(RequirementKind::Package, "brew", None),
                requirement(RequirementKind::Package, "brew", None),
            ],
        },
        actions: ActionRegistry {
            interpreters: Vec::new(),
            tasks: Vec::new(),
            scripts: Vec::new(),
            ladder: None,
            next_action_order: 0,
        },
        artifacts: ArtifactRegistry {
            policy: ArtifactPolicy {
                unallocated: UnallocatedPolicy::Warn,
            },
            artifacts: vec![generated("motd"), generated("banner")],
            directories: Vec::new(),
            notices: Vec::new(),
            selections: Vec::new(),
        },
    }
}

fn generated(name: &str) -> EvaluatedArtifact {
    EvaluatedArtifact {
        kind: ArtifactKind::File,
        source: format!("generated/root/{name}"),
        source_origin: SourceOrigin::Generated {
            name: name.to_string(),
        },
        source_projection: None,
        production: EvaluatedProduction::GeneratedLua {
            content: b"abc".to_vec(),
            executable: false,
        },
        target: TargetPath {
            path: name.to_string(),
            scope: TargetScope::DeploymentRoot,
            origin: TargetOrigin::Inferred {
                source: format!("generated:{name}"),
            },
        },
        fingerprint: None,
        owner: "<root>".to_string(),
        declared_at: trace(4),
    }
}

fn found() -> Vec<Result<ArtifactSource, wombat::error::WombatError>> {
    vec![
        Ok(ArtifactSource {
            bytes: Vec::new(),
            executable: false,
        }),
        Ok(ArtifactSource {
            bytes: Vec::new(),
            executable: false,
        }),
    ]
}

fn plan() -> BuildPlan {
    let evaluated = build_manifest(evaluation(), Vec::new(), ladder()).unwrap();
    freeze(evaluated, found(), "0.1.0", 4).unwrap()
}

#[test]
fn evaluation_becomes_a_manifest_in_order() {
    let evaluated = build_manifest(evaluation(), Vec::new(), ladder()).unwrap();
    assert_eq!(evaluated.project.as_deref(), Some("dots"));
    assert_eq!(evaluated.requirements.len(), 1);
    let targets: Vec<&str> =
        evaluated.artifacts.iter().map(|artifact| artifact.target.path.as_str()).collect();
    assert_eq!(targets, ["banner", "motd"]);
}

#[test]
fn frozen_plans_carry_their_identity() {
    let frozen = plan();
    assert_eq!(frozen.plan_id, compute_id(&frozen));
    assert_eq!(frozen.construction_version, 4);
    assert!(validate(&frozen, 4, Ok(()), Ok(())).is_ok());
    assert!(validate(&frozen, 5, Ok(()), Ok(())).is_err());
    let again = plan();
    assert_eq!(again.plan_id, frozen.plan_id);
    let mut renamed = plan();
    renamed.wombat_version = "9.9.9".to_string();
    assert_eq!(compute_id(&renamed), frozen.plan_id);
    let mut changed = plan();
    changed.artifacts.pop();
    assert_ne!(compute_id(&changed), frozen.plan_id);
    changed.plan_id = frozen.plan_id.clone();
    assert!(validate(&changed, 4, Ok(()), Ok(())).is_err());
    assert!(check_execution(&frozen.plan_id, &frozen).is_ok());
    assert!(check_execution("plan-2", &frozen).is_err());
    assert!(validate_actions(&frozen.ladder, &frozen.tasks, &frozen.scripts).is_ok());
}

#[test]
fn unreadable_artifacts_stop_freezing() {
    let mut evaluated = build_manifest(evaluation(), Vec::new(), ladder()).unwrap();
    evaluated.artifacts[0].production = EvaluatedProduction::Static;
    let error = freeze(
        evaluated,
        vec![
            Err(wombat::error::WombatError::Io("gone".to_string())),
            Ok(ArtifactSource {
                bytes: Vec::new(),
                executable: false,
            }),
        ],
        "0.1.0",
        4,
    )
    .unwrap_err();
    assert_eq!(error, wombat::error::WombatError::Io("gone".to_string()));
}

#[test]
fn provider_files_are_checked_by_digest() {
    let file = wombat::model::manifest::ProviderFile {
        source: "providers/mine.lua".to_string(),
        payload: "mine.lua".to_string(),
        digest: digest(b"abc"),
        size: 3,
    };
    assert!(check_provider_file(&file, &b"abc".to_vec()).is_ok());
    assert!(check_provider_file(&file, &b"abd".to_vec()).is_err());
}

#[test]
fn equal_requirements_are_merged() {
    let merged = normalize_requirements(
        vec![
            requirement(RequirementKind::Package, "brew", None),
            requirement(RequirementKind::Package, "brew", None),
            requirement(RequirementKind::Package, "apt", None),
        ],
        &ladder(),
    )
    .unwrap();
    assert_eq!(merged.len(), 2);
    assert!(validate_ladder_actions(&ladder(), &merged, &Vec::new(), &Vec::new()).is_ok());
    let mut lost = merged;
    lost[0].when.name = "nowhere".to_string();
    assert!(validate_ladder_actions(&ladder(), &lost, &Vec::new(), &Vec::new()).is_err());
}

#[test]
fn products_are_listed_by_section() {
    let manifest = product(vec![requirement(RequirementKind::Package, "brew", Some("14"))]);
    let overview = inspect(&manifest, None, InspectSection::Overview);
    assert!(overview.contains("build-1"), "{overview}");
    assert!(inspect(&manifest, None, InspectSection::Artifacts).contains(".zshrc"));
    assert!(inspect(&manifest, None, InspectSection::Requirements).contains("ripgrep"));
    assert!(inspect(&manifest, None, InspectSection::Target).contains("linux"));
    assert!(inspect(&manifest, None, InspectSection::Sources).contains("modules/shell.lua"));
    for section in [
        InspectSection::Inputs,
        InspectSection::Modules,
        InspectSection::Dependencies,
        InspectSection::Providers,
        InspectSection::Ladder,
        InspectSection::Tasks,
        InspectSection::Observations,
    ] {
        assert!(inspect(&manifest, None, section).ends_with('\n'));
    }
    let journal = ExecutionJournal {
        plan_id: "plan-1".to_string(),
        build_id: Some("build-1".to_string()),
        actions: vec![JournalAction {
            identity: "script:x".to_string(),
            rung: CoreRung::DeployAfter.rung(),
            status: "ran".to_string(),
            reason: "changed".to_string(),
        }],
    };
    assert!(!inspect(&manifest, Some(&journal), InspectSection::Scripts).is_empty());
    let empty = render_list("Tasks", &Vec::new());
    assert!(empty.starts_with("Tasks"));
}

#[test]
fn sections_are_written_exactly() {
    let manifest = product(vec![requirement(RequirementKind::Package, "brew", Some("14"))]);
    assert_eq!(
        inspect(&manifest, None, InspectSection::Overview),
        "Build build-1\n  manifest: v1\n  plan: plan-1\n  wombat: 0.1.0\n  target: linux/x86_64\n  sources: 1\n  inputs: 0\n  modules: 0\n  dependencies: 0\n  providers: 2\n  preparations: 0\n  requirements: 1\n  tasks: 0\n  artifact selections: 0\n  artifacts: 1\n"
    );
    assert_eq!(
        inspect(&manifest, None, InspectSection::Requirements),
        "Requirements\n  package:ripgrep\n      owner: shell\n      choice: Required\n      when: materialise.before\n      provider: brew\n      binding: ripgrep\n      candidates: 1\n      declared at: modules/shell.lua:2\n"
    );
    assert_eq!(
        inspect(&manifest, None, InspectSection::Artifacts),
        format!(
            "Artifact selections\n  none\nArtifacts\n  .zshrc\n      owner: shell\n      source: src/dot_zshrc\n      production: static\n      digest: {}\n",
            digest(b"abc")
        )
    );
    assert_eq!(
        inspect(&manifest, None, InspectSection::Scripts),
        "Scripts\n  none\nMaterialisation outcomes\n  unavailable (no matching execution journal)\n"
    );
    let ladder = inspect(&manifest, None, InspectSection::Ladder);
    assert!(
        ladder.starts_with(
            "Ladder default\n  materialise.before\n      kind: core MaterialiseBefore\n      parent: top-level\n"
        ),
        "{ladder}"
    );
    let providers = inspect(&manifest, None, InspectSection::Providers);
    assert!(
        providers.starts_with(
            "Providers\n  brew (priority 0)\n      origin: built-in contract v1\n      config: {}\n      declared at: modules/shell.lua:1\n"
        ),
        "{providers}"
    );
    assert!(providers.ends_with("Preparations\n  none\n"));
    let target = inspect(&manifest, None, InspectSection::Target);
    assert!(target.starts_with("Target\n"), "{target}");
    assert!(target.ends_with("  origin: Host\nObservations\n  none\n"), "{target}");
}

#[test]
fn explanations_are_written_exactly() {
    let manifest = product(vec![requirement(RequirementKind::Package, "brew", None)]);
    let read = Excerpt::Read(b"one\ntwo\nthree\n".to_vec());
    assert_eq!(
        explain(&manifest, "src/dot_zshrc", None, &read).unwrap(),
        format!(
            "Artifact .zshrc\n  build: build-1\n  owner: shell\n  source: src/dot_zshrc\n  source origin: {{\"kind\":\"direct\",\"declared\":\".zshrc\",\"expanded\":\".zshrc\"}}\n  production: static\n  target inference: {{\"kind\":\"inferred\",\"source\":\"src/dot_zshrc\"}}\n  content: 3 bytes, {}, executable=false\n  declared at: modules/shell.lua:3\nRelationships\n  none\nSource excerpt\n  modules/shell.lua:3\n  3 | three\n",
            digest(b"abc")
        )
    );
    assert_eq!(
        explain(&manifest, "provider:brew", None, &Excerpt::NoRepository).unwrap(),
        "Provider brew\n  build: build-1\n  priority: 0\n  origin: {\"kind\":\"builtin\",\"contract_version\":1}\n  config: {}\n  declared at: modules/shell.lua:1\nPreparations\n  none\n"
    );
    assert_eq!(
        explain(&manifest, "package:ripgrep", None, &Excerpt::NoRepository).unwrap(),
        "Requirement package:ripgrep\n  build: build-1\n  package:ripgrep\n    owner: shell\n    choice: Required\n    when: materialise.before\n    provider: brew\n    binding: ripgrep\n    candidates: 1\n    declared at: modules/shell.lua:2\n  attempts: []\n  publications: {\"commands\":[\"rg\"]}\n"
    );
    for (selector, message) in [
        ("task:x", "no task in build `build-1` matches `task:x`"),
        ("provider:x", "no provider in build `build-1` matches `provider:x`"),
        ("preparation:x", "no preparation in build `build-1` matches `preparation:x`"),
        ("command:x", "no requirement in build `build-1` matches `command:x`"),
        ("x", "no artifact in build `build-1` matches `x`"),
    ] {
        assert_eq!(
            explain(&manifest, selector, None, &Excerpt::NoRepository).unwrap_err().text(),
            message
        );
    }
    let excerpt = |found: &Excerpt, line: Option<u32>| {
        source_freshness(&manifest.sources, "modules/shell.lua", line, found)
    };
    assert_eq!(
        excerpt(&Excerpt::NoRepository, Some(1)),
        "Source excerpt\n  unavailable: source repository is not available\n"
    );
    assert_eq!(
        excerpt(&Excerpt::Missing, Some(1)),
        "Source excerpt\n  unavailable: recorded source is missing\n"
    );
    assert_eq!(
        excerpt(&read, None),
        "Source excerpt\n  unavailable: no line was recorded\n"
    );
    assert_eq!(
        excerpt(&read, Some(9)),
        "Source excerpt\n  unavailable: recorded line is outside current source\n"
    );
}

#[test]
fn plans_are_listed_by_section() {
    let frozen = plan();
    assert!(inspect_plan(&frozen, PlanInspectSection::Overview).contains(&frozen.plan_id));
    assert!(inspect_plan(&frozen, PlanInspectSection::Artifacts).contains("motd"));
    assert!(inspect_plan(&frozen, PlanInspectSection::Requirements).contains("ripgrep"));
}

#[test]
fn a_product_equals_itself() {
    let manifest = product(vec![requirement(RequirementKind::Package, "brew", None)]);
    assert_eq!(compare(&manifest, &manifest), "Products are identical: build-1\n");
    let mut other = product(Vec::new());
    other.build_id = "build-2".to_string();
    let report = compare(&manifest, &other);
    assert!(report.starts_with("Product comparison\n  left: build-1\n  right: build-2\n"));
    assert!(report.contains("Requirements\n  Remove Package:ripgrep@modules/shell.lua:2\n    - {"));
    let mut changed = product(vec![requirement(RequirementKind::Package, "brew", None)]);
    changed.build_id = "build-3".to_string();
    changed.sources[0].digest = "sha256:0".to_string();
    changed.sources.push(SourceFile {
        path: "wombat.lua".to_string(),
        digest: "sha256:1".to_string(),
    });
    changed.artifact_policy.unallocated = UnallocatedPolicy::Error;
    assert_eq!(
        compare(&manifest, &changed),
        format!(
            "Product comparison\n  left: build-1\n  right: build-3\nSources\n  Change modules/shell.lua\n    - {{\"digest\":\"{}\",\"path\":\"modules/shell.lua\"}}\n    + {{\"digest\":\"sha256:0\",\"path\":\"modules/shell.lua\"}}\n  Add wombat.lua\n    + {{\"digest\":\"sha256:1\",\"path\":\"wombat.lua\"}}\nArtifact policy\n  - {{\"unallocated\":\"warn\"}}\n  + {{\"unallocated\":\"error\"}}\n",
            digest(b"one\ntwo\nthree\n")
        )
    );
}

#[test]
fn artifacts_are_explained_by_target() {
    let manifest = product(vec![requirement(RequirementKind::Package, "brew", None)]);
    assert_eq!(select_artifact(&manifest, Some("/home/me"), ".zshrc").unwrap(), 0);
    assert_eq!(select_artifact(&manifest, Some("/home/me"), "/home/me/.zshrc").unwrap(), 0);
    assert!(select_artifact(&manifest, None, "nothing").is_err());
    let text = explain(&manifest, ".zshrc", Some("/home/me"), &Excerpt::NoRepository).unwrap();
    assert!(text.contains("src/dot_zshrc"), "{text}");
    assert!(explain(&manifest, "nothing", None, &Excerpt::NoRepository).is_err());
    assert!(explain(&manifest, "provider:brew", None, &Excerpt::NoRepository)
        .unwrap()
        .contains("brew"));
    assert!(explained_source(&manifest, ".zshrc", Some("/home/me")).is_some());
    assert_eq!(portable_join("/home/me", ".zshrc"), "/home/me/.zshrc");
    let fresh = source_freshness(
        &manifest.sources,
        "modules/shell.lua",
        Some(2),
        &Excerpt::Read(b"one\ntwo\nthree\n".to_vec()),
    );
    assert!(fresh.contains("two"), "{fresh}");
    let stale = source_freshness(
        &manifest.sources,
        "modules/shell.lua",
        Some(2),
        &Excerpt::Read(b"changed".to_vec()),
    );
    assert_ne!(fresh, stale);
}

fn ran(success: bool, output: &str) -> Ran {
    Ran {
        success,
        code: Some(1),
        status: "exit status: 1".to_string(),
        stdout: output.as_bytes().to_vec(),
        stderr: Vec::new(),
    }
}

fn ask(step: CheckStep) -> (CheckStage, Probe) {
    match step {
        CheckStep::Ask(stage, probe) => (stage, probe),
        CheckStep::Done(item) => panic!("done: {item:?}"),
    }
}

fn done(step: CheckStep) -> CheckItem {
    match step {
        CheckStep::Ask(stage, _) => panic!("asks: {stage:?}"),
        CheckStep::Done(item) => item,
    }
}

#[test]
fn commands_count_wherever_they_come_from() {
    let needed = requirement(RequirementKind::Command, "brew", Some("14.0"));
    let manifest = product(Vec::new());
    let (stage, probe) = ask(begin_check(&manifest, &needed).unwrap());
    assert_eq!(probe, Probe::Which("rg".to_string()));
    let step = check_requirement(
        &manifest,
        &needed,
        stage,
        Reply::Found(Some("/bin/rg".to_string())),
    )
    .unwrap();
    let (stage, probe) = ask(step);
    assert_eq!(probe, Probe::Run(vec!["/bin/rg".to_string(), "--version".to_string()]));
    let item = done(
        check_requirement(&manifest, &needed, stage, Reply::Ran(Ok(ran(true, "ripgrep 15.2.0"))))
            .unwrap(),
    );
    assert_eq!(item.status, CheckStatus::Satisfied);
    assert_eq!(item.requirement, "command:rg");
}

#[test]
fn homebrew_packages_are_compared_by_version() {
    let needed = requirement(RequirementKind::Package, "brew", Some("14.0"));
    let manifest = product(Vec::new());
    let (stage, probe) = ask(begin_check(&manifest, &needed).unwrap());
    assert_eq!(probe, Probe::Which("brew".to_string()));
    let step =
        check_requirement(&manifest, &needed, stage, Reply::Found(Some("/b/brew".to_string())))
            .unwrap();
    let (stage, _) = ask(step);
    let item = done(
        check_requirement(
            &manifest,
            &needed,
            stage,
            Reply::Ran(Ok(ran(
                true,
                r#"{"formulae":[{"installed":[{"version":"13.0.0"}]}],"casks":[]}"#,
            ))),
        )
        .unwrap(),
    );
    assert_eq!(item.status, CheckStatus::Outdated);
    let (stage, _) = ask(begin_check(&manifest, &needed).unwrap());
    let item = done(check_requirement(&manifest, &needed, stage, Reply::Found(None)).unwrap());
    assert_eq!(item.status, CheckStatus::Unavailable);
    assert_eq!(item.detail, "Homebrew is not available on PATH");
}

#[test]
fn missing_packages_are_told() {
    let needed = requirement(RequirementKind::Package, "brew", None);
    let manifest = product(Vec::new());
    let (stage, _) = ask(begin_check(&manifest, &needed).unwrap());
    let (stage, _) = ask(
        check_requirement(&manifest, &needed, stage, Reply::Found(Some("/b/brew".to_string())))
            .unwrap(),
    );
    let item = done(
        check_requirement(
            &manifest,
            &needed,
            stage,
            Reply::Ran(Ok(ran(true, r#"{"formulae":[{"installed":[]}],"casks":[]}"#))),
        )
        .unwrap(),
    );
    assert_eq!(item.status, CheckStatus::Missing);
    let broken = requirement(RequirementKind::Package, "brew", None);
    let (stage, _) = ask(begin_check(&manifest, &broken).unwrap());
    let (stage, _) = ask(
        check_requirement(&manifest, &broken, stage, Reply::Found(Some("/b/brew".to_string())))
            .unwrap(),
    );
    assert!(check_requirement(&manifest, &broken, stage, Reply::Ran(Ok(ran(true, "no json"))))
        .is_err());
}

fn steps(needed: &Requirement, replies: Vec<Reply>) -> (Vec<Probe>, Option<CheckItem>) {
    let manifest = product(Vec::new());
    let mut probes = Vec::new();
    let mut step = begin_check(&manifest, needed).unwrap();
    for reply in replies {
        let (stage, probe) = ask(step);
        probes.push(probe);
        step = check_requirement(&manifest, needed, stage, reply).unwrap();
    }
    match step {
        CheckStep::Ask(_, probe) => {
            probes.push(probe);
            (probes, None)
        }
        CheckStep::Done(item) => (probes, Some(item)),
    }
}

fn run(argv: &[&str]) -> Probe {
    Probe::Run(argv.iter().map(|argument| argument.to_string()).collect())
}

fn at(path: &str) -> Reply {
    Reply::Found(Some(path.to_string()))
}

#[test]
fn apt_packages_are_compared_by_dpkg() {
    let needed = requirement(RequirementKind::Package, "apt", Some("14.0"));
    let (probes, found) = steps(
        &needed,
        vec![
            at("/usr/bin/dpkg-query"),
            Reply::Ran(Ok(ran(true, "install ok installed\t15.0-1\n"))),
            at("/usr/bin/dpkg"),
            Reply::Ran(Ok(ran(true, ""))),
            at("/usr/bin/rg"),
        ],
    );
    assert_eq!(
        probes,
        [
            Probe::Which("dpkg-query".to_string()),
            run(&["/usr/bin/dpkg-query", "-W", "-f=${Status}\t${Version}", "ripgrep"]),
            Probe::Which("dpkg".to_string()),
            run(&["/usr/bin/dpkg", "--compare-versions", "15.0-1", "ge", "14.0"]),
            Probe::Which("rg".to_string()),
        ]
    );
    let found = found.unwrap();
    assert_eq!(found.status, CheckStatus::Satisfied);
    assert_eq!(found.detail, "package ripgrep 15.0-1");
    assert_eq!(found.requirement, "package:ripgrep");
    let (_, found) = steps(
        &needed,
        vec![
            at("/usr/bin/dpkg-query"),
            Reply::Ran(Ok(ran(true, "install ok installed\t13.0\n"))),
            at("/usr/bin/dpkg"),
            Reply::Ran(Ok(ran(false, ""))),
        ],
    );
    assert_eq!(found.unwrap().detail, "observed 13.0; needs at least 14.0");
}

#[test]
fn apt_candidates_are_looked_up() {
    let needed = requirement(RequirementKind::Package, "apt", None);
    let policy = |output: &str| {
        let (probes, found) = steps(
            &needed,
            vec![
                at("/usr/bin/dpkg-query"),
                Reply::Ran(Ok(ran(false, ""))),
                at("/usr/bin/apt-cache"),
                Reply::Ran(Ok(ran(true, output))),
            ],
        );
        assert_eq!(probes[3], run(&["/usr/bin/apt-cache", "policy", "ripgrep"]));
        found.unwrap()
    };
    let found = policy("ripgrep:\n  Installed: (none)\n  Candidate: 14.1\n");
    assert_eq!(found.status, CheckStatus::Missing);
    assert_eq!(found.detail, "not installed; candidate 14.1");
    let found = policy("ripgrep:\n  Candidate: (none)\n");
    assert_eq!(found.status, CheckStatus::Unavailable);
    assert_eq!(found.detail, "no Apt candidate is available");
    let (_, found) = steps(
        &needed,
        vec![
            at("/usr/bin/dpkg-query"),
            Reply::Ran(Ok(ran(true, "deinstall ok config-files\t14.1"))),
        ],
    );
    assert_eq!(found.unwrap().detail, "dpkg status is deinstall ok config-files");
    let (_, found) = steps(
        &needed,
        vec![
            at("/usr/bin/dpkg-query"),
            Reply::Ran(Ok(ran(true, "install ok installed\t14.1"))),
            Reply::Found(None),
        ],
    );
    assert_eq!(
        found.unwrap().detail,
        "package is present but published command `rg` is absent from PATH"
    );
}

fn item(status: CheckStatus) -> CheckItem {
    CheckItem {
        requirement: "package:ripgrep".to_string(),
        provider: "brew".to_string(),
        status,
        detail: "not installed".to_string(),
    }
}

fn check_with(manifest: &Manifest, replies: Vec<Reply>) -> CheckOutcome {
    let mut progress = check(manifest, &platform(OperatingSystemName::Linux)).unwrap();
    for reply in replies {
        progress = match progress {
            CheckProgress::Ask(run, _) => resume_check(manifest, run, reply).unwrap(),
            CheckProgress::Finished(_) => panic!("nothing is left to ask"),
        };
    }
    match progress {
        CheckProgress::Finished(outcome) => outcome,
        CheckProgress::Ask(_, probe) => panic!("{probe:?}"),
    }
}

#[test]
fn every_requirement_has_its_row() {
    let manifest = product(vec![
        requirement(RequirementKind::Command, "brew", None),
        requirement(RequirementKind::Package, "brew", None),
    ]);
    let outcome = check_with(&manifest, vec![Reply::Found(None), Reply::Found(None), Reply::Found(None)]);
    assert_eq!(outcome.build_id, "build-1");
    let rows: Vec<(&str, &str, CheckStatus)> = outcome
        .items
        .iter()
        .map(|item| (item.requirement.as_str(), item.provider.as_str(), item.status))
        .collect();
    assert_eq!(
        rows,
        vec![
            ("command:rg", "brew", CheckStatus::Unavailable),
            ("package:ripgrep", "brew", CheckStatus::Unavailable),
        ]
    );
    assert!(check_with(&product(Vec::new()), Vec::new()).items.is_empty());
}

#[test]
fn checks_need_the_machine_that_the_product_is_for() {
    let manifest = product(vec![requirement(RequirementKind::Package, "brew", None)]);
    let host = platform(OperatingSystemName::Linux);
    assert!(check(&manifest, &platform(OperatingSystemName::Macos)).is_err());
    let outcome = check_with(
        &manifest,
        vec![
            Reply::Found(Some("/b/brew".to_string())),
            Reply::Ran(Ok(ran(true, r#"{"formulae":[{"installed":[]}],"casks":[]}"#))),
        ],
    );
    assert!(!outcome.satisfied());
    assert!(!outcome.operational_failure());
    assert!(outcome.display().starts_with("requirements for build-1\n"));
    assert!(ensure_compatible_host(&manifest, &host).is_ok());
    assert_eq!(
        ensure_compatible_host(&manifest, &platform(OperatingSystemName::Macos))
            .unwrap_err()
            .text(),
        "requirements target linux/x86_64, but this execution environment is macos/x86_64; check and bootstrap require an exact local OS and architecture"
    );
    assert!(check_output_limit("brew", 10, 10).is_ok());
    assert!(check_output_limit("brew", usize::MAX, 0).is_err());
    assert_eq!(output_detail(&ran(false, "boom\nmore")), "boom");
}

#[test]
fn bootstrapping_meets_what_is_missing() {
    let manifest = product(vec![requirement(RequirementKind::Package, "brew", None)]);
    let host = platform(OperatingSystemName::Linux);
    let outcome = |status: CheckStatus| CheckOutcome {
        build_id: "build-1".to_string(),
        items: vec![item(status)],
    };
    match bootstrap(&manifest, &host, Ok(outcome(CheckStatus::Satisfied))).unwrap() {
        BootstrapStart::Finished(done) => assert_eq!(done.already_satisfied, ["package:ripgrep"]),
        BootstrapStart::Plan(_) => panic!("nothing is missing"),
    }
    let plan = match bootstrap(&manifest, &host, Ok(outcome(CheckStatus::Missing))).unwrap() {
        BootstrapStart::Finished(_) => panic!("something is missing"),
        BootstrapStart::Plan(plan) => plan,
    };
    assert_eq!(plan.pending, [0]);
    assert_eq!(
        plan.announcement,
        "bootstrap will reconcile:\n  brew\n    package:ripgrep (missing)\n"
    );
    assert!(!plan.elevated);
    assert_eq!(begin_bootstrap(&plan), BootstrapAction::Reconcile(0));
    let items = vec![item(CheckStatus::Missing)];
    let mut completed = Vec::new();
    assert_eq!(
        after_reconciliation(&items, &plan, &completed, 0, Ok(())).unwrap(),
        BootstrapAction::Recheck(0)
    );
    let failed = after_reconciliation(
        &items,
        &plan,
        &completed,
        0,
        Err(wombat::error::WombatError::Process("boom".to_string())),
    )
    .unwrap_err();
    assert_eq!(
        failed.note.as_deref(),
        Some("completed: none; remaining: package:ripgrep; no rollback was attempted")
    );
    let unmet = after_recheck(
        &manifest,
        &items,
        &plan,
        &mut completed,
        0,
        Ok(item(CheckStatus::Missing)),
    )
    .unwrap_err();
    assert!(unmet.error.text().contains("post-check reported missing"));
    match after_recheck(
        &manifest,
        &items,
        &plan,
        &mut completed,
        0,
        Ok(item(CheckStatus::Satisfied)),
    )
    .unwrap()
    {
        BootstrapAction::Finished(done) => {
            assert_eq!(done.completed, ["package:ripgrep"]);
            assert!(done.display().contains("build-1"));
        }
        other => panic!("{other:?}"),
    }
}

#[test]
fn preparations_come_first() {
    let mut manifest = product(vec![requirement(RequirementKind::Package, "apt", None)]);
    manifest.preparations.push(wombat::model::manifest::ProviderPreparation {
        provider: "apt".to_string(),
        identity: "update-index".to_string(),
        description: "refresh the package index".to_string(),
        elevated: true,
        data: FrozenValue::empty_map(),
    });
    let host = platform(OperatingSystemName::Linux);
    let outcome = CheckOutcome {
        build_id: "build-1".to_string(),
        items: vec![CheckItem {
            provider: "apt".to_string(),
            ..item(CheckStatus::Missing)
        }],
    };
    let items = vec![item(CheckStatus::Missing)];
    let plan = match bootstrap_exact(&manifest, "build-1", &host, Ok(outcome)).unwrap() {
        BootstrapStart::Finished(_) => panic!("something is missing"),
        BootstrapStart::Plan(plan) => plan,
    };
    assert!(plan.elevated);
    assert_eq!(
        plan.announcement,
        "bootstrap will reconcile:\n  apt\n    prepare refresh the package index (elevated)\n    package:ripgrep (missing)\n"
    );
    assert_eq!(begin_bootstrap(&plan), BootstrapAction::Prepare(0));
    let mut completed = Vec::new();
    assert_eq!(
        after_preparation(&manifest, &items, &plan, &mut completed, 0, Ok(())).unwrap(),
        BootstrapAction::Reconcile(0)
    );
    assert_eq!(completed, ["prepare:apt:update-index"]);
    let empty = CheckOutcome {
        build_id: "build-1".to_string(),
        items: vec![item(CheckStatus::Missing)],
    };
    assert!(bootstrap_exact(&manifest, "build-9", &host, Ok(empty)).is_err());
}

#[test]
fn bootstrapping_asks_before_it_acts() {
    assert!(needs_answer(false, true).unwrap());
    assert!(!needs_answer(true, false).unwrap());
    assert!(needs_answer(false, false).is_err());
    assert!(accept_answer(" yes \n").is_ok());
    assert_eq!(accept_answer("no\n").unwrap_err().text(), "bootstrap cancelled");
}

#[test]
fn homebrew_acts_by_what_is_installed() {
    let package = requirement(RequirementKind::Package, "brew", Some("14.0")).binding;
    let asked = |output: &str| Some(Ok(ran(true, output)));
    let old = r#"{"formulae":[{"installed":[{"version":"13.0.0"}]}],"casks":[]}"#;
    let none = r#"{"formulae":[{"installed":[]}],"casks":[]}"#;
    assert_eq!(brew_state(&package, asked(old)).unwrap(), CheckStatus::Satisfied);
    assert_eq!(brew_operation(&package, asked(old)).unwrap(), "upgrade");
    assert_eq!(brew_operation(&package, asked(none)).unwrap(), "install");
    assert_eq!(
        brew_operation(&package, None).unwrap_err().text(),
        "Homebrew package state became unavailable during bootstrap"
    );
    assert!(brew_operation(&package, Some(Ok(ran(false, old)))).is_err());
    assert_eq!(
        brew_operation(&package, asked("{}")).unwrap_err().text(),
        "Homebrew returned no matching package record"
    );
    let lost = WombatError::Io("lost".to_string());
    assert_eq!(
        brew_operation(&package, Some(Err(lost))).unwrap_err(),
        WombatError::Io("lost".to_string())
    );
    assert!(matches!(brew_operation(&package, asked("no")), Err(WombatError::Json(_))));
    assert_eq!(
        brew_query(&package, Some("/b/brew".to_string())).unwrap().unwrap(),
        ["/b/brew", "info", "--json=v2", "--formula", "ripgrep"]
    );
    assert_eq!(brew_query(&package, None).unwrap(), None);
    let provider = Provider {
        name: "brew".to_string(),
        priority: 0,
        config: FrozenValue::empty_map(),
        origin: ProviderOrigin::Builtin { contract_version: 1 },
        declared_at: trace(1),
    };
    let brew = || Some("/b/brew".to_string());
    match reconcile_requirement(&provider, &package, brew(), asked(none)).unwrap() {
        Work::Command { program, arguments, elevated, .. } => {
            assert_eq!(program, "/b/brew");
            assert_eq!(arguments, ["install", "--formula", "ripgrep"]);
            assert!(!elevated);
        }
        other => panic!("{other:?}"),
    }
    match preflight(&provider, &package, brew(), asked(old)).unwrap() {
        Work::Command { arguments, .. } => {
            assert_eq!(arguments, ["upgrade", "--dry-run", "--formula", "ripgrep"]);
        }
        other => panic!("{other:?}"),
    }
    assert!(preflight(&provider, &package, None, None).is_err());
}

#[test]
fn an_excerpt_shows_the_bytes_that_were_compared() {
    let bytes = vec![0x61, 0xff];
    let sources = vec![SourceFile {
        path: "a.lua".to_string(),
        digest: digest(&bytes),
    }];
    assert_eq!(
        source_freshness(&sources, "a.lua", Some(1), &Excerpt::Read(bytes)),
        "Source excerpt\n  unavailable: current source is not UTF-8\n"
    );
}

#[test]
fn help_is_no_build() {
    let help = EvaluationOutcome::ProjectHelp("Options:".to_string());
    assert_eq!(
        evaluate(Ok(help)).unwrap_err().text(),
        "project help was requested during build evaluation"
    );
    let lost = WombatError::Io("lost".to_string());
    assert_eq!(evaluate(Err(lost)).unwrap_err(), WombatError::Io("lost".to_string()));
}
