//! Target paths and source selectors.
use wombat::lua::conflicts::is_path_ancestor;
use wombat::lua::loading::helper_module_path;
use wombat::lua::selections::validate_module_name;
use wombat::model::anchors;
use wombat::model::anchors::{InferenceBasis, SourceAnchor, TargetAnchor};
use wombat::model::manifest::{SourceAttribute, TargetOrigin, TargetScope};
use wombat::model::path::{
    expand_target_root, infer_target, join_path, parse_explicit_target, parse_explicit_target_root,
    parse_install_target_root, reject_legacy_artifact_trees, validate_absolute_target,
    validate_relative_path,
};
use wombat::model::selection::{
    compile_selector, encode_target_path, hidden_components_authorized, in_static_scope,
    is_entry, is_excluded, matcher, project_physical,
};

#[test]
fn generic_targets_are_root_relative() {
    let inferred = infer_target(".config/app.toml", "src/dot_config/app.toml").unwrap();
    assert_eq!(inferred.path, ".config/app.toml");

    let explicit = parse_explicit_target(".local/bin/tool").unwrap();
    assert_eq!(explicit.path, ".local/bin/tool");
    assert!(parse_explicit_target("~/.config/app").is_err());
    assert!(parse_explicit_target("/etc/app").is_ok());

    let root = parse_explicit_target_root(".config/nvim").unwrap();
    let expanded = expand_target_root(&root, "init.lua").unwrap();
    assert_eq!(expanded.path, ".config/nvim/init.lua");
}

#[test]
fn every_traversal_shape_is_rejected_at_target_boundaries() {
    for path in [
        "../escape",
        "safe/../escape",
        "./local",
        "safe//file",
        "safe\\file",
    ] {
        assert!(parse_explicit_target(path).is_err(), "accepted `{path}`");
    }
    for path in ["name", ".config/name", "nested/deep/name", "@literal"] {
        assert!(parse_explicit_target(path).is_ok(), "rejected `{path}`");
    }
}

#[test]
fn metadata_composes_and_literal_stops_parsing() {
    let projected = project_physical("unalloc_dot_config/literal_dot_file", false).unwrap();
    assert!(!projected.allocated);
    assert_eq!(projected.logical, ".config/dot_file");
    assert_eq!(
        projected.components[0].attributes,
        [SourceAttribute::Unallocated, SourceAttribute::Dot]
    );
    assert!(project_physical("unalloc_unalloc_file", false).is_err());
}

#[test]
fn shorthand_is_textual_before_globbing() {
    let selector = compile_selector("**@**", false).unwrap();
    assert_eq!(selector.physical, "**unalloc_**");
    assert!(selector.glob);
    assert!(matcher(&selector.physical)
        .unwrap()
        .is_match("nested/unalloc_examples/file"));
}

#[test]
fn target_paths_encode_metadata_like_literals() {
    assert_eq!(encode_target_path(".config/app").unwrap(), "dot_config/app");
    assert_eq!(
        encode_target_path("dot_config/@file").unwrap(),
        "literal_dot_config/literal_@file"
    );
}

#[test]
fn hidden_selectors_are_explicit() {
    let hidden = compile_selector(".external/file", true).unwrap();
    assert_eq!(hidden.physical, ".external/file");
    let ordinary = compile_selector(".external/file", false).unwrap();
    assert_eq!(ordinary.physical, "dot_external/file");
    assert!(compile_selector(".*", true).is_err());
    assert!(hidden_components_authorized(".external/file", ".external/**"));
    assert!(!hidden_components_authorized(".external/.secret", ".external/**"));
}

#[test]
fn metadata_projection_is_stable_across_composed_prefixes() {
    for (physical, logical, allocated) in [
        ("dot_config", ".config", true),
        ("unalloc_config", "config", false),
        ("unalloc_dot_config", ".config", false),
        ("literal_dot_config", "dot_config", true),
        ("dot_literal_dot_config", ".dot_config", true),
    ] {
        let first = project_physical(physical, false).unwrap();
        let second = project_physical(physical, false).unwrap();
        assert_eq!(
            first, second,
            "projection must be deterministic for {physical}"
        );
        assert_eq!(first.logical, logical);
        assert_eq!(first.allocated, allocated);
    }
}

#[test]
fn selector_globs_never_authorize_hidden_components_implicitly() {
    for pattern in ["*", "**", "dir/**", "**/*.toml", "**@**"] {
        let selector = compile_selector(pattern, false).unwrap();
        assert!(!hidden_components_authorized(".hidden/value", &selector.physical));
    }
}

#[test]
fn validates_portable_relative_paths() {
    assert!(validate_relative_path("nvim/init.lua", "source").is_ok());
    assert!(validate_relative_path("../init.lua", "source").is_err());
    assert!(validate_relative_path("nvim//init.lua", "source").is_err());
    assert!(validate_relative_path("nvim\\init.lua", "source").is_err());
    assert!(validate_relative_path("./init.lua", "source").is_err());
}

#[test]
fn normalizes_explicit_file_and_directory_targets() {
    let config = anchors::parse_explicit_target("~/.config/starship.toml").unwrap();
    assert_eq!(config.anchor, TargetAnchor::Config);
    assert_eq!(config.path, "starship.toml");
    assert_eq!(
        config.origin,
        anchors::TargetOrigin::Explicit {
            declared: "~/.config/starship.toml".to_string()
        }
    );
    assert!(anchors::parse_explicit_target("~/.config").is_err());
    assert!(anchors::parse_explicit_target("~/").is_err());

    let root = anchors::parse_explicit_target_root("~/").unwrap();
    let expanded = anchors::expand_target_root(&root, ".config/nvim/init.lua").unwrap();
    assert_eq!(expanded.anchor, TargetAnchor::Config);
    assert_eq!(expanded.path, "nvim/init.lua");
}

#[test]
fn recognizes_canonical_source_prefixes() {
    assert_eq!(
        anchors::prefixed_source("dot_config").unwrap(),
        Some((SourceAnchor::DotConfig, String::new()))
    );
    assert_eq!(
        anchors::prefixed_source("dot_local/bin/tool").unwrap(),
        Some((SourceAnchor::DotLocal, "bin/tool".to_string()))
    );
    assert_eq!(
        anchors::prefixed_source("home/.zshrc").unwrap(),
        Some((SourceAnchor::Home, ".zshrc".to_string()))
    );
    assert!(anchors::prefixed_source("home/.config/nvim").is_err());
    assert!(anchors::prefixed_source(".local/bin").is_err());
    assert_eq!(anchors::prefixed_source("other/file").unwrap(), None);

    let target = anchors::infer_target(
        SourceAnchor::DotLocal,
        "bin/tool",
        InferenceBasis::SourcePrefix,
    )
    .unwrap();
    assert_eq!(target.anchor, TargetAnchor::Home);
    assert_eq!(target.path, ".local/bin/tool");
}

#[test]
fn anchored_targets_read_back_from_their_display() {
    for text in ["~/.config/nvim/init.lua", "~/.zshrc"] {
        let target = anchors::parse_explicit_target(text).unwrap();
        assert_eq!(target.display, text);
        let again = anchors::parse_explicit_target(&target.display).unwrap();
        assert_eq!(again.anchor, target.anchor);
        assert_eq!(again.path, target.path);
    }
    assert_eq!(
        anchors::parse_explicit_target("/etc/passwd").unwrap_err().text(),
        "invalid target `/etc/passwd`; explicit targets must begin with `~/`"
    );
    assert_eq!(
        anchors::reject_noncanonical_artifact_trees(&[false, false, true, false, false, true])
            .unwrap_err()
            .text(),
        "unsupported source tree `home/.config`; use `dot_config/` to keep artifact source state canonical"
    );
    assert!(anchors::reject_noncanonical_artifact_trees(&[false; 6]).is_ok());
    assert!(anchors::validate_declared_source(".").is_ok());
    assert!(anchors::validate_declared_source("/x").is_err());
}

#[test]
fn anchored_directories_remember_what_they_were_declared_as() {
    let root = anchors::parse_explicit_target_root("~/.config").unwrap();
    assert_eq!(root.anchor, TargetAnchor::Config);
    assert_eq!(root.path, "");
    let target = anchors::expand_target_root(&root, "app/a.toml").unwrap();
    assert_eq!(target.display, "~/.config/app/a.toml");
    assert_eq!(
        target.origin,
        anchors::TargetOrigin::DirectoryExplicit {
            declared: "~/.config".to_string(),
            relative: "app/a.toml".to_string(),
        }
    );
    let inferred =
        anchors::infer_target_root(SourceAnchor::DotLocal, "share", InferenceBasis::ModuleAnchor)
            .unwrap();
    assert_eq!(inferred.path, ".local/share");
    assert_eq!(
        anchors::expand_target_root(&root, "../x").unwrap_err().text(),
        "invalid expanded target path `../x`; expected a UTF-8 relative path without traversal, empty components, or backslashes"
    );
}

#[test]
fn validates_initial_module_names() {
    assert!(validate_module_name("theme-2").is_ok());
    assert!(validate_module_name("themes.kanagawa").is_err());
    assert!(validate_module_name("../theme").is_err());
}

#[test]
fn detects_only_segment_ancestor_paths() {
    assert!(is_path_ancestor("nvim", "nvim/init.lua"));
    assert!(!is_path_ancestor("nvim", "nvim-old/init.lua"));
    assert!(!is_path_ancestor("nvim", "nvim"));
}

#[test]
fn normalizes_safe_repository_helper_names() {
    assert_eq!(helper_module_path("theme.colors").unwrap(), "theme/colors");
    assert!(helper_module_path("../theme").is_err());
    assert!(helper_module_path("theme/path").is_err());
}

#[test]
fn absolute_targets_keep_their_scope() {
    assert_eq!(parse_explicit_target("/etc/app").unwrap().scope, TargetScope::Absolute);
    assert_eq!(parse_explicit_target("app").unwrap().scope, TargetScope::DeploymentRoot);
    assert!(validate_absolute_target("/etc/../x").is_err());
    assert!(validate_absolute_target("etc").is_err());
    assert!(validate_absolute_target("/etc/app").is_ok());
    let root = parse_install_target_root("/opt").unwrap();
    let file = expand_target_root(&root, "bin/tool").unwrap();
    assert_eq!(file.path, "/opt/bin/tool");
    assert_eq!(
        file.origin,
        TargetOrigin::DirectoryExplicit {
            declared: "/opt".to_string(),
            relative: "bin/tool".to_string(),
        }
    );
    assert_eq!(join_path("/opt", "/etc"), "/etc");
    assert_eq!(join_path("/opt/", "bin"), "/opt/bin");
}

#[test]
fn legacy_trees_are_refused() {
    assert!(reject_legacy_artifact_trees(false, false, false).is_ok());
    assert!(reject_legacy_artifact_trees(true, false, false).is_err());
    assert!(reject_legacy_artifact_trees(false, false, true).is_err());
}

#[test]
fn projection_undoes_encoding() {
    for target in [".config/app", "dot_config/@file", "plain", ".literal_x/unalloc_y"] {
        let encoded = encode_target_path(target).unwrap();
        let projected = project_physical(&encoded, false).unwrap();
        assert_eq!(projected.logical, target);
        assert!(projected.allocated);
    }
}

#[test]
fn static_roots_bound_what_a_selector_visits() {
    let selector = compile_selector("nvim/lua/*.lua", false).unwrap();
    assert_eq!(selector.static_root, "nvim/lua");
    assert!(in_static_scope("nvim/lua/a.lua", &selector.static_root));
    assert!(!in_static_scope("other", &selector.static_root));
    let matched = matcher(&selector.physical).unwrap();
    assert!(matched.is_match("nvim/lua/a.lua"));
    assert!(!matched.is_match("nvim/lua/deep/a.lua"));
    let exclusions = vec![matcher("cache").unwrap()];
    assert!(is_excluded(&exclusions, "cache", true));
    assert!(!is_excluded(&exclusions, "data", true));
}

#[test]
fn expanding_agrees_with_declaring() {
    for declared in ["~/", "~/.config", "~/.config/app", "~/.conf", "~/a/b"] {
        let root = anchors::parse_explicit_target_root(declared).unwrap();
        for relative in ["x", ".config", ".config/x", "a/b", "", "../x", "a//b", "b/"] {
            let text = format!("{}/{relative}", declared.trim_end_matches('/'));
            let expanded = anchors::expand_target_root(&root, relative);
            let written = anchors::parse_explicit_target(&text);
            assert_eq!(expanded.is_ok(), written.is_ok(), "{text}");
            if let (Ok(expanded), Ok(written)) = (expanded, written) {
                assert_eq!(expanded.key(), written.key());
                assert_eq!(expanded.display, text);
                assert_eq!(written.display, text);
            }
        }
    }
}

#[test]
fn a_step_up_names_no_entry() {
    assert!(is_entry("a/b"));
    assert!(is_entry("a/..b"));
    assert!(!is_entry("a/.."));
    assert!(!is_entry(".."));
}
