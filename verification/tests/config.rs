//! Configuration of the user.
use wombat::error::{Result, WombatError};
use wombat::model::manifest::TaskRunner;
use wombat::project::settings::settings_text;
use wombat::project::config::{
    check_version, configured_task_interpreters, describe_source, repository_path, resolve_source,
    rewrite_repository, runners_config_path, select_source_with, set_configured_source,
    user_config_path, FoundConfig, InterpreterConfig, SourceLookup, SourceOrigin, UserConfig,
};

fn parse_config(contents: &str) -> UserConfig {
    let parsed: toml::Table = contents.parse().unwrap();
    let mut runners = Vec::new();
    if let Some(configured) = parsed.get("runners").and_then(|value| value.as_table()) {
        for (name, value) in configured {
            let args = value.get("args").and_then(|value| value.as_array());
            runners.push((
                name.clone(),
                InterpreterConfig {
                    command: value["command"].as_str().unwrap().to_string(),
                    args: args
                        .map(|list| {
                            list.iter().map(|item| item.as_str().unwrap().to_string()).collect()
                        })
                        .unwrap_or_default(),
                },
            ));
        }
    }
    UserConfig {
        format_version: parsed["format_version"].as_integer().unwrap() as u32,
        repository: parsed["repository"].as_str().unwrap().to_string(),
        runners,
    }
}

fn task_interpreters_from_config(
    path: &str,
    contents: &str,
    home: &str,
) -> Result<Vec<(String, TaskRunner)>> {
    configured_task_interpreters(parse_config(contents), path, Some(home))
}

fn resolve_source_with(
    explicit: Option<&str>,
    current: &str,
    home: Option<&str>,
    xdg: Option<&str>,
) -> Result<String> {
    match select_source_with(explicit, current, home, xdg)? {
        SourceLookup::Named(path) => Ok(path),
        SourceLookup::Config { path, home } => resolve_source(&path, &home, FoundConfig::Missing),
    }
}

#[test]
fn recording_a_source_preserves_comments_and_tables() {
    let existing = "# my wombat config\nformat_version = 2\nrepository = \"~/old\"\n\n# venv\n[runners.python]\ncommand = \"python3\"\n";
    let updated = rewrite_repository(existing, "/srv/dotfiles");
    assert!(updated.contains("# my wombat config"));
    assert!(updated.contains("repository = \"/srv/dotfiles\""));
    assert!(!updated.contains("~/old"));
    assert!(updated.contains("# venv"));
    assert!(updated.contains("[runners.python]"));
}

#[test]
fn recording_a_source_inserts_above_any_table() {
    let existing = "format_version = 2\n[runners.python]\ncommand = \"python3\"\n";
    let updated = rewrite_repository(existing, "/srv/dotfiles");
    let repository = updated.find("repository =").expect("key is inserted");
    let table = updated.find("[runners.python]").expect("table is kept");
    assert!(
        repository < table,
        "a top-level key must precede any table: {updated}"
    );
}

#[test]
fn reads_task_interpreters_and_expands_home() {
    let home = "/tmp/example/home";
    let path = "/tmp/example/config.toml";
    let interpreters = task_interpreters_from_config(
        path,
        r#"format_version = 2
repository = "~/dotfiles"

[runners.python]
command = "~/.venvs/wombat/bin/python"
args = ["-I"]
"#,
        home,
    )
    .unwrap();
    let (name, python) = &interpreters[0];
    assert_eq!(name, "python");
    assert_eq!(
        python.command(),
        Some("/tmp/example/home/.venvs/wombat/bin/python")
    );
    assert_eq!(python.args(), ["-I"]);
}

#[test]
fn rejects_unknown_and_relative_task_interpreters() {
    let home = "/tmp/example/home";
    let path = "/tmp/example/config.toml";
    let unknown = task_interpreters_from_config(
        path,
        "format_version = 2\nrepository = \"~/dotfiles\"\n[runners.ruby]\ncommand = \"ruby\"\n",
        home,
    )
    .unwrap_err();
    assert!(unknown.text().contains("unknown task interpreter `ruby`"));

    let relative = task_interpreters_from_config(
        path,
        "format_version = 2\nrepository = \"~/dotfiles\"\n[runners.python]\ncommand = \"venv/bin/python\"\n",
        home,
    )
    .unwrap_err();
    assert!(relative.text().contains("must be a bare command, absolute path"));
}

#[test]
fn explicit_source_bypasses_host_configuration() {
    let source = "/tmp/example/source";
    assert_eq!(
        resolve_source_with(Some(source), "/tmp/example", None, None).unwrap(),
        source
    );
    assert_eq!(
        resolve_source_with(Some("source"), "/tmp/example", None, None).unwrap(),
        source
    );
}

#[test]
fn reads_xdg_config_and_expands_home() {
    let home = "/tmp/example/home";
    let lookup = select_source_with(None, "/tmp", Some(home), Some("/tmp/example/xdg")).unwrap();
    assert_eq!(
        lookup,
        SourceLookup::Config {
            path: "/tmp/example/xdg/wombat/config.toml".to_string(),
            home: home.to_string(),
        }
    );
    let config = parse_config("format_version = 2\nrepository = \"~/dotfiles\"\n");
    assert_eq!(
        resolve_source("/tmp/example/xdg/wombat/config.toml", home, FoundConfig::Read(config))
            .unwrap(),
        "/tmp/example/home/dotfiles"
    );
}

#[test]
fn rejects_relative_xdg_and_config_repository() {
    let home = "/tmp/example/home";
    assert!(resolve_source_with(None, "/tmp", Some(home), Some("relative"))
        .unwrap_err()
        .text()
        .contains("must be absolute"));
    let config = parse_config("format_version = 2\nrepository = \"relative\"\n");
    assert!(
        resolve_source("/tmp/example/home/.config/wombat/config.toml", home, FoundConfig::Read(config))
            .unwrap_err()
            .text()
            .contains("must be absolute")
    );
}

#[test]
fn a_missing_configuration_means_the_default_repository() {
    assert_eq!(
        resolve_source("/h/.config/wombat/config.toml", "/h", FoundConfig::Missing).unwrap(),
        "/h/.local/share/wombat"
    );
    let failed = WombatError::Io("denied".to_string());
    assert_eq!(
        resolve_source("/c", "/h", FoundConfig::Failed(failed)).unwrap_err().text(),
        WombatError::Io("denied".to_string()).text()
    );
}

#[test]
fn configuration_paths_need_a_home() {
    assert_eq!(
        user_config_path(Some("/h"), None).unwrap(),
        "/h/.config/wombat/config.toml"
    );
    assert_eq!(
        user_config_path(None, None).unwrap_err().text(),
        "HOME is not set; cannot locate Wombat configuration"
    );
    assert!(user_config_path(Some("/h"), Some("x")).is_err());
    assert_eq!(runners_config_path(None, None).unwrap(), None);
}

#[test]
fn repositories_are_absolute_or_beneath_home() {
    assert_eq!(repository_path("c", "~", "/h").unwrap(), "/h");
    assert_eq!(repository_path("c", "~/", "/h").unwrap(), "/h");
    assert_eq!(repository_path("c", "~/d", "/h").unwrap(), "/h/d");
    assert_eq!(repository_path("c", "/d", "/h").unwrap(), "/d");
    assert_eq!(
        repository_path("c", "d", "/h").unwrap_err().text(),
        "repository in `c` must be absolute or begin with `~/`"
    );
}

#[test]
fn sources_are_described_by_where_they_came_from() {
    let described = describe_source(false, Ok("/c".to_string()), true, Ok("/s".to_string())).unwrap();
    assert_eq!(described.origin, SourceOrigin::Configured);
    assert_eq!(described.source, "/s");
    let described = describe_source(true, Ok("/c".to_string()), true, Ok("/s".to_string())).unwrap();
    assert_eq!(described.origin, SourceOrigin::Explicit);
    let described =
        describe_source(false, Ok("/c".to_string()), false, Ok("/s".to_string())).unwrap();
    assert_eq!(described.origin, SourceOrigin::Default);
}

#[test]
fn a_new_configuration_is_complete() {
    let written = set_configured_source("/srv/d", None).unwrap();
    assert_eq!(written, "format_version = 2\nrepository = \"/srv/d\"\n");
    assert!(set_configured_source("srv", None).is_err());
    let again = set_configured_source("/srv/e", Some(&written)).unwrap();
    assert_eq!(again, "format_version = 2\nrepository = \"/srv/e\"\n");
}

#[test]
fn other_configuration_formats_are_refused() {
    let mut config = parse_config("format_version = 2\nrepository = \"~\"\n");
    assert!(check_version(&config, "c").is_ok());
    config.format_version = 7;
    assert_eq!(
        check_version(&config, "c").unwrap_err().text(),
        "unsupported Wombat config format version 7 in `c`; expected 2"
    );
}

#[test]
fn recording_a_source_keeps_every_other_character() {
    assert_eq!(
        rewrite_repository("# a\r\nrepository = \"~/old\"\r\n[runners]\r\nx = 1", "/d"),
        "# a\r\nrepository = \"/d\"\r\n[runners]\r\nx = 1"
    );
    assert_eq!(
        rewrite_repository("a = 1\r\n\r\n[runners]\r\n", "/d"),
        "a = 1\r\n\r\nrepository = \"/d\"\n[runners]\r\n"
    );
    assert_eq!(
        rewrite_repository("  repository = 'x' # here", "/d"),
        "repository = \"/d\""
    );
    assert_eq!(rewrite_repository("a = 1", "/d"), "a = 1\nrepository = \"/d\"\n");
    assert_eq!(rewrite_repository("", "/d"), "repository = \"/d\"\n");
    assert_eq!(
        rewrite_repository("[t]\nrepository = 1\n", "/d"),
        "repository = \"/d\"\n[t]\nrepository = 1\n"
    );
}

#[test]
fn the_last_recorded_source_stands() {
    for text in ["", "a = 1", "[t]\nb = 2", "repository = 1\r\n\r\n", "\u{a0}repository = 1\n"] {
        let once = rewrite_repository(text, "/first");
        assert_eq!(rewrite_repository(&once, "/second"), rewrite_repository(text, "/second"));
    }
}

#[test]
fn a_recorded_source_reads_back() {
    for text in ["format_version = 2", "format_version = 2\r\nrepository = '~'\r\n"] {
        assert_eq!(parse_config(&rewrite_repository(text, "/srv/d")).repository, "/srv/d");
    }
}

#[test]
fn settings_are_text() {
    assert_eq!(settings_text(&b"format_version = 2\n".to_vec()).unwrap(), "format_version = 2\n");
    assert_eq!(
        settings_text(&vec![0x61, 0xff]).unwrap_err().text(),
        "repository `wombat.toml` must contain valid UTF-8"
    );
}
