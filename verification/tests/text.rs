//! Versions, digests, settings and presentation.
use wombat::digest::{digest, is_digest, text_digest, validate_sha_identity};
use wombat::number::{decimal_text, parse_signed, parse_unsigned, signed_text};
use wombat::presentation::{
    announced, can_confirm, confirm, emit_lua_log, ColorPolicy, Event, LogLevel, Presenter, Role,
};
use wombat::lua::state::Location;
use wombat::model::frozen::FrozenValue;
use wombat::model::manifest::{SourceLocation, SourceTrace, UnallocatedPolicy};
use wombat::project::settings::{
    default_settings, load, parse_freshness, validate_project_name, workflow_policy, ProjectConfig,
};
use wombat::requirements::version::{first_version, version_at_least};

fn here() -> Location {
    Location {
        trace: SourceTrace {
            primary: SourceLocation {
                source: "wombat.lua".to_string(),
                line: Some(4),
                column: None,
            },
            callers: Vec::new(),
        },
    }
}

#[test]
fn loose_versions_are_explicitly_monotonic() {
    assert!(version_at_least("ripgrep 15.2.0", "14.0"));
    assert!(!version_at_least("0.10.4", "0.11.0"));
    assert_eq!(first_version("tool version 2.3.4\n").as_deref(), Some("2.3.4"));
}

#[test]
fn versions_compare_with_themselves_and_each_other() {
    for version in ["1.2.3", "0", "2.0-rc1", ""] {
        assert!(version_at_least(version, version));
    }
    assert!(version_at_least("2.10", "2.9"));
    assert!(!version_at_least("2.9", "2.10"));
}

#[test]
fn never_is_byte_plain_and_always_resets_every_style() {
    let text = "Create ~/.config/app\n  owner: app\n1 changes: 1 create\n";
    assert_eq!(
        Presenter::new(ColorPolicy::Never, true, false).human_output(text),
        text
    );
    let colored = Presenter::new(ColorPolicy::Always, false, false).human_output(text);
    assert!(colored.contains("\u{1b}[32mCreate\u{1b}[0m"));
    assert!(colored.contains("\u{1b}[36m~/.config/app\u{1b}[0m"));
    assert!(!colored.ends_with("\u{1b}[0m\u{1b}[0m"));
}

#[test]
fn colour_follows_the_terminal_unless_it_is_switched_off() {
    assert!(Presenter::new(ColorPolicy::Auto, true, false).color_enabled());
    assert!(!Presenter::new(ColorPolicy::Auto, true, true).color_enabled());
    assert!(!Presenter::new(ColorPolicy::Auto, false, false).color_enabled());
    let plain = Presenter::new(ColorPolicy::Never, true, false);
    assert_eq!(plain.paint(Role::Error, "x"), "x");
    let bright = Presenter::new(ColorPolicy::Always, true, false);
    assert!(bright.paint(Role::Error, "x").ends_with("x\u{1b}[0m"));
}

#[test]
fn log_messages_respect_the_threshold() {
    assert_eq!(LogLevel::parse("warn"), Some(LogLevel::Warn));
    assert_eq!(LogLevel::parse("loud"), None);
    assert!(LogLevel::Debug.below(LogLevel::Info));
    let quiet = emit_lua_log("debug", LogLevel::Warn, "hidden", None, &here()).unwrap();
    assert!(quiet.is_none());
    let shown = emit_lua_log("warn", LogLevel::Warn, "careful", None, &here()).unwrap();
    let event = shown.unwrap();
    assert!(matches!(&event, Event::Log { level: LogLevel::Warn, .. }));
    assert!(announced(Some(Presenter::new(ColorPolicy::Never, false, false)), &event)
        .unwrap()
        .contains("careful"));
    assert!(emit_lua_log("loud", LogLevel::Warn, "x", None, &here()).is_err());
    let detailed = emit_lua_log(
        "error",
        LogLevel::Warn,
        "x",
        Some(Ok(FrozenValue::Integer(1))),
        &here(),
    )
    .unwrap();
    assert_eq!(
        detailed,
        Some(Event::Log {
            level: LogLevel::Error,
            message: "x 1 (wombat.lua:4)".to_string(),
        })
    );
}

#[test]
fn confirmation_needs_a_terminal_and_a_yes() {
    assert!(can_confirm(true, true, "apply").is_ok());
    assert!(can_confirm(true, false, "apply").is_err());
    assert!(confirm("y\n", "apply").is_ok());
    assert!(confirm("no\n", "apply").is_err());
}

#[test]
fn digests_name_their_bytes() {
    assert_eq!(
        digest(b""),
        "sha256:e3b0c44298fc1c149afbf4c8996fb92427ae41e4649b934ca495991b7852b855"
    );
    assert_eq!(text_digest("abc"), digest(b"abc"));
    assert!(is_digest(&digest(b"abc")));
    assert!(!is_digest("sha256:xyz"));
    assert!(validate_sha_identity(&digest(b"abc"), "build").is_ok());
    assert!(validate_sha_identity("abc", "build").is_err());
}

#[test]
fn numbers_read_back() {
    assert_eq!(decimal_text(0), "0");
    assert_eq!(decimal_text(u64::MAX), "18446744073709551615");
    assert_eq!(signed_text(i64::MIN), "-9223372036854775808");
    assert_eq!(parse_signed("-9223372036854775808"), Some(i64::MIN));
    assert_eq!(parse_signed("9223372036854775808"), None);
    assert_eq!(parse_unsigned("42", 100), Some(42));
    assert_eq!(parse_unsigned("142", 100), None);
}

#[test]
fn freshness_accepts_one_integral_unit() {
    assert_eq!(parse_freshness("0s").unwrap(), 0);
    assert_eq!(parse_freshness("5m").unwrap(), 300);
    assert!(parse_freshness("1.5h").is_err());
    assert!(parse_freshness("1h30m").is_err());
}

fn project(name: Option<&str>, version: u32) -> ProjectConfig {
    ProjectConfig {
        format_version: version,
        project: name.map(str::to_string),
        unallocated: UnallocatedPolicy::Warn,
        log_level: "notice".to_string(),
        reuse: true,
        freshness: "2h".to_string(),
    }
}

#[test]
fn project_settings_are_checked() {
    let bytes = b"format_version = 3\n".to_vec();
    let settings = load(project(Some("dots"), 3), &bytes).unwrap();
    assert_eq!(settings.project.as_deref(), Some("dots"));
    assert_eq!(settings.log_level, LogLevel::Notice);
    assert_eq!(settings.source.unwrap().digest, digest(&bytes));
    assert!(load(project(None, 2), &bytes).is_err());
    assert!(validate_project_name(String::new()).is_err());
    assert!(default_settings().source.is_none());
    let policy = workflow_policy(Some(&project(None, 3))).unwrap();
    assert!(policy.reuse);
    assert_eq!(policy.freshness, 7200);
}

fn bare(text: &str) -> String {
    let mut kept = String::new();
    let mut rest = text;
    while let Some(start) = rest.find("\u{1b}[") {
        kept.push_str(&rest[..start]);
        let sequence = &rest[start..];
        rest = &sequence[sequence.find('m').unwrap() + 1..];
    }
    kept.push_str(rest);
    kept
}

#[test]
fn colours_leave_the_text_and_end_with_the_line() {
    let text = "Create a b\nerror: c\nerror:\n-x\n+y\nplain\n  owner: o\n\nUsage: u";
    let coloured = Presenter::new(ColorPolicy::Always, false, false).human_output(text);
    assert_ne!(coloured, text);
    assert_eq!(bare(&coloured), text);
    for (line, styled) in text.split('\n').zip(coloured.split('\n')) {
        assert!(line == styled || styled.ends_with("\u{1b}[0m"));
    }
    assert_eq!(
        coloured.split('\n').next().unwrap(),
        "\u{1b}[32mCreate\u{1b}[0m \u{1b}[36ma b\u{1b}[0m"
    );
}
