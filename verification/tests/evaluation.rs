//! What evaluation observes and reports.
use wombat::error::WombatError;
use wombat::lua::context::{
    common_host_value, common_value, context_access, note, path_value, resolve_template_context,
    snapshot_explicit_context, windows_home, windows_path_value, windows_profile, Answer,
    ContextState, HostPaths,
};
use wombat::codec::YamlTag;
use wombat::lua::data::{
    check_data_path, check_yaml_events, parse_failure, reject_unsupported_yaml_tags, yaml_unsigned,
};
use wombat::lua::diagnostics::{
    caller_location, capture_user_frames, clean_lua_reason, failure_frames, find_line,
    lua_diagnostic, parse_lua_line, LuaFrame,
};
use wombat::lua::loading::{load_tracked_source, FoundComponent, FoundSource};
use wombat::lua::manifesting::{adjust_log_level, after_root, RootOutcome};
use wombat::lua::process::{
    check_process_result, exec_invocation, lua_string_array, observe_process,
    parse_process_options, reject_nul, require_directory, shell_invocation, ProcessOutcome,
    ProcessRequest, ProcessValue, VariableValue,
};
use wombat::lua::selections::TargetState;
use wombat::lua::state::{Location, TrackedSource};
use wombat::model::context::{
    Architecture, OperatingSystem, OperatingSystemName, PlatformOrigin, ResolvedTarget,
    TargetPlatform,
};
use wombat::model::frozen::FrozenValue;
use wombat::model::manifest::{
    ObservationSubject, ProcessInvocation, SourceFile, SourceLocation, SourceTrace,
};
use wombat::model::source::{EntryKind, SourceFingerprint};
use wombat::presentation::LogLevel;

fn place() -> Location {
    Location {
        trace: SourceTrace {
            primary: SourceLocation {
                source: "wombat.lua".to_string(),
                line: Some(2),
                column: None,
            },
            callers: Vec::new(),
        },
    }
}

fn text(value: &str) -> FrozenValue {
    FrozenValue::String(value.to_string())
}

fn table(entries: Vec<(&str, FrozenValue)>) -> FrozenValue {
    FrozenValue::Table(
        entries
            .into_iter()
            .map(|(key, value)| (key.to_string(), value))
            .collect(),
    )
}

fn platform() -> TargetPlatform {
    TargetPlatform {
        os: OperatingSystem {
            name: OperatingSystemName::Linux,
            version: None,
            kernel: None,
            distribution: None,
        },
        arch: Architecture::X86_64,
    }
}

fn state() -> ContextState {
    ContextState {
        target: TargetState {
            host: platform(),
            target: ResolvedTarget {
                platform: platform(),
                origin: PlatformOrigin::Host,
                declared_at: None,
            },
            target_override: None,
            target_first_read: None,
        },
        observations: Vec::new(),
    }
}

#[test]
fn first_readings_stay() {
    let mut list = Vec::new();
    note(&mut list, ObservationSubject::Target, "os.name", &text("linux"));
    note(&mut list, ObservationSubject::Host, "user", &text("a"));
    note(&mut list, ObservationSubject::Host, "arch", &text("x"));
    note(&mut list, ObservationSubject::Host, "user", &text("b"));
    let seen: Vec<(&str, &FrozenValue)> =
        list.iter().map(|item| (item.path.as_str(), &item.value)).collect();
    assert_eq!(
        seen,
        [
            ("arch", &text("x")),
            ("user", &text("a")),
            ("os.name", &text("linux"))
        ]
    );
}

#[test]
fn context_is_read_by_path() {
    let mut state = state();
    let root = table(vec![("os", table(vec![("name", text("linux"))]))]);
    let value = context_access(
        &mut state,
        ObservationSubject::Target,
        &root,
        "os.name",
        &place(),
    );
    assert_eq!(value, Some(text("linux")));
    assert!(state.target.target_first_read.is_some());
    assert_eq!(
        context_access(&mut state, ObservationSubject::Host, &root, "os.none", &place()),
        None
    );
    let whole =
        snapshot_explicit_context(&mut state, ObservationSubject::Host, &root, "os", &place());
    assert_eq!(whole.unwrap(), table(vec![("name", text("linux"))]));
    let host = table(vec![("arch", text("x86_64")), ("user", text("me"))]);
    assert!(common_host_value(&mut state, &host, "arch", &place()).unwrap().is_some());
    assert!(common_value(&mut state, &host, "no_such_value", &place()).is_err());
    assert!(resolve_template_context(Err(WombatError::Lua("x".to_string()))).is_err());
}

fn paths() -> HostPaths {
    HostPaths {
        repository: "/repo".to_string(),
        home: Some("/home/me".to_string()),
        config: None,
        data: None,
        state: None,
        cache: None,
        wsl: false,
    }
}

#[test]
fn paths_come_from_the_machine() {
    let mut state = state();
    assert_eq!(path_value(&mut state, &paths(), "repository", &place()).unwrap(), "/repo");
    assert_eq!(path_value(&mut state, &paths(), "home", &place()).unwrap(), "/home/me");
    assert!(path_value(&mut state, &paths(), "nowhere", &place()).is_err());
    assert!(
        windows_path_value(&mut state, false, "home", Ok("/mnt/c/Users/me".to_string()), &place())
            .is_err()
    );
    assert_eq!(
        windows_path_value(&mut state, true, "home", Ok("/mnt/c/Users/me".to_string()), &place())
            .unwrap(),
        "/mnt/c/Users/me"
    );
}

#[test]
fn windows_answers_are_checked() {
    let answer = |output: &str| {
        Ok(Answer {
            success: true,
            status: "exit status: 0".to_string(),
            output: output.as_bytes().to_vec(),
            truncated: false,
        })
    };
    assert_eq!(windows_profile(&answer("C:\\Users\\me\r\n")).unwrap(), "C:\\Users\\me");
    assert_eq!(windows_home(&answer("/mnt/c/Users/me\n")).unwrap(), "/mnt/c/Users/me");
    assert!(windows_home(&answer("relative\n")).is_err());
    assert!(windows_profile(&Err("not found".to_string())).is_err());
    assert!(windows_profile(&answer("\n")).is_err());
    let mut broken = answer("x");
    if let Ok(broken) = &mut broken {
        broken.output.push(0xff);
    }
    assert_eq!(
        windows_profile(&broken).unwrap_err().text(),
        "cannot resolve Windows home: cmd.exe returned non-UTF-8 output"
    );
}

#[test]
fn data_paths_stay_in_the_repository() {
    assert!(check_data_path("data/a.toml", "w.toml.decode", &place()).is_ok());
    assert!(check_data_path("../a.toml", "w.toml.decode", &place()).is_err());
    assert!(parse_failure("TOML", "a.toml", &place(), "bad").text().contains("a.toml"));
    assert!(yaml_unsigned(7).is_ok());
    assert!(yaml_unsigned(u64::MAX).is_err());
    let tag = |name: &str, core: bool| YamlTag {
        tag: name.to_string(),
        core,
        line: 3,
        column: 1,
    };
    assert!(check_yaml_events(&vec![Ok(None), Ok(Some(tag("!!str", true)))]).is_ok());
    assert!(check_yaml_events(&vec![Err("bad".to_string())]).is_err());
    assert_eq!(
        check_yaml_events(&vec![Ok(Some(tag("!secret", false)))]).unwrap_err(),
        "unsupported YAML tag `!secret` at 3:2; Wombat accepts only core null, bool, int, float, string, sequence, and map tags"
    );
    let mut last = tag("!secret", false);
    last.column = u64::MAX;
    assert!(check_yaml_events(&vec![Ok(Some(last))])
        .unwrap_err()
        .contains("at 3:18446744073709551616;"));
}

#[test]
fn yaml_keeps_to_core_tags() {
    assert!(reject_unsupported_yaml_tags("a: 1\nb: !!str 2\nc: [x, y]\n").is_ok());
    assert_eq!(
        reject_unsupported_yaml_tags("a: 1\nb: !secret x\n").unwrap_err(),
        "unsupported YAML tag `!secret` at 2:4; Wombat accepts only core null, bool, int, float, string, sequence, and map tags"
    );
    assert!(reject_unsupported_yaml_tags("a: [1, 2\nb: }\n").is_err());
}

#[test]
fn lua_messages_are_cleaned() {
    assert_eq!(parse_lua_line("modules/a.lua:12: boom"), Some(12));
    assert_eq!(parse_lua_line("boom"), None);
    assert_eq!(clean_lua_reason("runtime error: boom\nstack traceback:\n\tx"), "boom");
    assert_eq!(clean_lua_reason("modules/a.lua:12: boom: bang\nstack traceback:\n"), "boom: bang");
    assert_eq!(clean_lua_reason(" syntax error: near x "), "near x");
    assert_eq!(clean_lua_reason("plain"), "plain");
    let frame = |path: &str, line: u32| {
        Some(LuaFrame {
            source: format!("@{path}"),
            path: path.to_string(),
            line: Some(line),
            tail_call: false,
        })
    };
    let levels = vec![frame("modules/a.lua", 4), frame("wombat.lua", 1), None];
    let (frames, tail) = capture_user_frames(&levels);
    assert_eq!(frames.len(), 2);
    assert!(!tail);
    assert_eq!(caller_location(&levels).trace.primary.source, "modules/a.lua");
    assert_eq!(caller_location(&levels).trace.callers.len(), 1);
    let sources = vec![TrackedSource {
        manifest: SourceFile {
            path: "modules/a.lua".to_string(),
            digest: "sha256:x".to_string(),
        },
        fingerprint: print(),
        snapshot: "one\ntwo\nthree\nfour\n".to_string(),
    }];
    assert_eq!(find_line(&sources, &frames[0]).as_deref(), Some("four"));
    let error = lua_diagnostic("modules/a.lua:4: boom", &frames, false, &sources);
    assert!(matches!(&error, WombatError::Located(_)));
    assert!(error.text().contains("boom"));
    assert_eq!(failure_frames(frames, None, None).len(), 2);
}

fn print() -> SourceFingerprint {
    SourceFingerprint {
        size: 3,
        modified_seconds: 0,
        modified_nanoseconds: 0,
        executable: false,
    }
}

fn found(content: &str) -> FoundSource {
    FoundSource {
        components: vec![FoundComponent {
            normal: true,
            kind: Ok(EntryKind::File),
        }],
        before: Ok((EntryKind::File, print())),
        bytes: Ok(content.as_bytes().to_vec()),
        after: Ok(print()),
    }
}

#[test]
fn sources_are_tracked_as_they_were_first_read() {
    let mut sources = Vec::new();
    let loaded = load_tracked_source(&mut sources, "/r/a.lua", Some("a.lua"), &found("abc")).unwrap();
    assert_eq!(loaded, "abc");
    assert_eq!(
        sources[0].manifest.digest,
        "sha256:ba7816bf8f01cfea414140de5dae2223b00361a396177a9cb410ff61f20015ad"
    );
    assert_eq!(
        load_tracked_source(&mut sources, "/r/a.lua", Some("a.lua"), &found("abc")).unwrap(),
        "abc"
    );
    assert_eq!(sources.len(), 1);
    let mut changed = found("abc");
    changed.after = Ok(SourceFingerprint { size: 4, ..print() });
    assert!(load_tracked_source(&mut sources, "/r/b.lua", Some("b.lua"), &changed).is_err());
    let mut linked = found("abc");
    linked.components[0].kind = Ok(EntryKind::Symlink);
    assert!(load_tracked_source(&mut sources, "/r/b.lua", Some("b.lua"), &linked).is_err());
    assert!(load_tracked_source(&mut sources, "/x", None, &found("abc")).is_err());
    let mut binary = found("abc");
    binary.bytes = Ok(vec![0x61, 0xff]);
    assert_eq!(
        load_tracked_source(&mut sources, "/r/b.lua", Some("b.lua"), &binary).unwrap_err().text(),
        "Lua source `/r/b.lua` is not valid UTF-8"
    );
    assert_eq!(sources.len(), 1);
}

#[test]
fn process_options_are_checked() {
    let request = ProcessRequest::Table(vec![
        Ok(("cwd".to_string(), ProcessValue::Bytes {
            bytes: b"sub".to_vec(),
            text: Ok("sub".to_string()),
        })),
        Ok(("env".to_string(), ProcessValue::Table(vec![
            Ok(("B".to_string(), VariableValue::Removed)),
            Ok(("A".to_string(), VariableValue::Text("1".to_string()))),
        ]))),
        Ok(("timeout".to_string(), ProcessValue::Integer { value: 2, milliseconds: 2000 })),
    ]);
    let options = parse_process_options("/repo", &request, &place()).unwrap();
    assert_eq!(options.cwd, "/repo/sub");
    assert_eq!(options.timeout_ms, Some(2000));
    assert_eq!(options.environment[0].name, "A");
    assert_eq!(options.environment[1].value, None);
    assert_eq!(options.max_output, 1024 * 1024);
    assert!(require_directory(&options, true).is_ok());
    assert!(require_directory(&options, false).is_err());
    assert!(parse_process_options("/repo", &ProcessRequest::Other, &place()).is_err());
    let odd = ProcessRequest::Table(vec![Ok(("odd".to_string(), ProcessValue::Boolean(true)))]);
    assert!(parse_process_options("/repo", &odd, &place()).is_err());
    let escaping = ProcessRequest::Table(vec![Ok(("cwd".to_string(), ProcessValue::Bytes {
        bytes: b"../x".to_vec(),
        text: Ok("../x".to_string()),
    }))]);
    assert!(parse_process_options("/repo", &escaping, &place()).is_err());
}

#[test]
fn processes_are_observed_by_digest() {
    let options = parse_process_options("/repo", &ProcessRequest::Nothing, &place()).unwrap();
    let invocation = exec_invocation(
        &Some(vec![Ok("git".to_string()), Ok("status".to_string())]),
        2,
    )
    .unwrap();
    assert_eq!(
        invocation,
        ProcessInvocation::Exec {
            argv: vec!["git".to_string(), "status".to_string()]
        }
    );
    let outcome = ProcessOutcome {
        success: true,
        timed_out: false,
        code: Some(0),
        signal: None,
        stdout: b"abc".to_vec(),
        stdout_truncated: false,
        stderr: Vec::new(),
        stderr_truncated: false,
    };
    let observed = observe_process(options, invocation, &outcome, place()).unwrap();
    assert!(observed.ok);
    assert_eq!(observed.stdout_size, 3);
    assert_eq!(
        observed.stdout_digest,
        "sha256:ba7816bf8f01cfea414140de5dae2223b00361a396177a9cb410ff61f20015ad"
    );
    assert!(exec_invocation(&Some(Vec::new()), 0).is_err());
    assert!(exec_invocation(&None, 0).is_err());
    assert!(lua_string_array(&Some(vec![Ok("a".to_string())]), 1, "argv").is_ok());
    assert!(reject_nul("a\0b", "argument").is_err());
    assert!(check_process_result(true, &Vec::new(), &place()).is_ok());
    let said = check_process_result(false, &b"boom\xff".to_vec(), &place()).unwrap_err();
    assert!(said.text().ends_with(": boom\u{fffd}"));
}

#[test]
fn timeouts_and_long_output_are_refused() {
    let outcome = |timed_out: bool, truncated: bool| ProcessOutcome {
        success: false,
        timed_out,
        code: None,
        signal: Some(9),
        stdout: Vec::new(),
        stdout_truncated: truncated,
        stderr: Vec::new(),
        stderr_truncated: false,
    };
    for (timed_out, truncated) in [(true, false), (false, true)] {
        let options = parse_process_options("/repo", &ProcessRequest::Nothing, &place()).unwrap();
        let invocation = shell_invocation(&options, "sleep 1").unwrap();
        assert!(matches!(&invocation, ProcessInvocation::Shell { .. }));
        assert!(observe_process(options, invocation, &outcome(timed_out, truncated), place()).is_err());
    }
}

#[test]
fn root_policy_ends_in_help_or_modules() {
    assert_eq!(
        after_root(Ok(()), None, true, &Vec::new()).unwrap(),
        RootOutcome::Modules
    );
    assert_eq!(
        after_root(
            Err(WombatError::ProjectHelpRequested),
            Some("usage".to_string()),
            true,
            &Vec::new()
        )
        .unwrap(),
        RootOutcome::Help("usage".to_string())
    );
    assert!(after_root(Ok(()), None, false, &vec![Some("--x".to_string())]).is_err());
    assert_eq!(adjust_log_level(LogLevel::Warn, 1), LogLevel::Notice);
    assert_eq!(adjust_log_level(LogLevel::Error, -3), LogLevel::Error);
}
