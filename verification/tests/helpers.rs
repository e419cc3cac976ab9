//! Template helpers, commands and new repositories.
use wombat::digest::digest;
use wombat::error::WombatError;
use wombat::initialize::{
    finish_initialization, initialize, preflight_exact, preflight_gitignore, FoundPath, FoundRoot,
    InitStatus,
};
use wombat::lua::helper_modules::{
    function_location, helper_error_location, load_module, missing_module, registry_digest,
    transitive_sources, HelperLoad, HelperModule,
};
use wombat::lua::helper_payloads::{
    check_published_source, check_result, check_returned, load_payload_module, source_catalog,
    verify_payloads, PayloadEntry,
};
use wombat::lua::helpers::{
    add_pack, declare, order_declarations, validate_catalog, ExportedValue, HelperDeclaration,
    LoadedExport, LoadedPack, CONTRACT_VERSION,
};
use wombat::lua::state::Location;
use wombat::model::frozen::{FrozenValue, LuaValue};
use wombat::model::manifest::{
    ProviderFile, SourceFile, SourceLocation, SourceTrace, TemplateHelperPack,
};
use wombat::model::source::EntryKind;
use wombat::requirements::check::{CheckStatus, Ran};
use wombat::requirements::commands::{
    accept_homebrew, allow_elevation, apt_environment, authorization_arguments,
    authorization_command, authorize_elevation, brew_environment, effective_uid_is_root,
    environment_state_root, mutating_command, preflight_elevation, product_helper,
    require_command, run_mutating, which_candidates,
};

fn place() -> Location {
    Location {
        trace: SourceTrace {
            primary: SourceLocation {
                source: "wombat.lua".to_string(),
                line: Some(5),
                column: None,
            },
            callers: Vec::new(),
        },
    }
}

fn declaration(module: &str, prefix: &str) -> HelperDeclaration {
    HelperDeclaration {
        module: module.to_string(),
        prefix: prefix.to_string(),
        location: place(),
    }
}

fn function(name: &str) -> Result<LoadedExport, WombatError> {
    Ok(LoadedExport {
        key: LuaValue::Text(name.to_string()),
        value: ExportedValue::Function {
            in_lua: true,
            defined_at: SourceLocation {
                source: "lua/example.lua".to_string(),
                line: Some(1),
                column: None,
            },
        },
    })
}

fn sources() -> Vec<SourceFile> {
    vec![SourceFile {
        path: "lua/example.lua".to_string(),
        digest: digest(b"abc"),
    }]
}

fn packs() -> Vec<TemplateHelperPack> {
    let mut packs = Vec::new();
    add_pack(
        &mut packs,
        declaration("example", ""),
        LoadedPack::Plain(vec![function("upper"), function("join")]),
        Ok(sources()),
    )
    .unwrap();
    packs
}

#[test]
fn packs_list_their_exports_in_order() {
    let packs = packs();
    let names: Vec<&str> = packs[0].exports.iter().map(|export| export.name.as_str()).collect();
    assert_eq!(names, ["join", "upper"]);
    assert_eq!(packs[0].contract_version, CONTRACT_VERSION);
    assert!(validate_catalog(&packs).is_ok());
    assert_eq!(source_catalog(&packs).unwrap(), sources());
    assert_eq!(registry_digest(&packs), registry_digest(&packs));
    assert_ne!(registry_digest(&packs), registry_digest(&Vec::new()));
}

#[test]
fn helper_names_do_not_collide() {
    let mut packs = packs();
    let again = add_pack(
        &mut packs,
        declaration("other", ""),
        LoadedPack::Plain(vec![function("upper")]),
        Ok(Vec::new()),
    );
    assert!(again.unwrap_err().error.text().contains("upper"));
    assert_eq!(packs.len(), 1);
    assert!(add_pack(
        &mut packs,
        declaration("third", ""),
        LoadedPack::Plain(vec![function("if")]),
        Ok(Vec::new())
    )
    .is_err());
    assert!(add_pack(&mut packs, declaration("x", ""), LoadedPack::Other, Ok(Vec::new())).is_err());
    assert!(
        add_pack(&mut packs, declaration("x", ""), LoadedPack::Extended, Ok(Vec::new())).is_err()
    );
    let mut declarations = Vec::new();
    declare(&mut declarations, "b".to_string(), String::new(), place()).unwrap();
    declare(&mut declarations, "a".to_string(), "x_".to_string(), place()).unwrap();
    assert!(declare(&mut declarations, "../a".to_string(), String::new(), place()).is_err());
    let ordered = order_declarations(declarations);
    assert_eq!(ordered[0].module, "a");
}

#[test]
fn stored_helpers_have_names_of_their_own() {
    let mut stored = packs();
    let mut again = packs();
    again[0].module = "other".to_string();
    stored.push(again.remove(0));
    assert_eq!(
        validate_catalog(&stored).unwrap_err().text(),
        "template helper pack `other` has invalid or conflicting exports"
    );
    stored.pop();
    stored[0].exports[0].name = "if".to_string();
    assert!(validate_catalog(&stored).is_err());
    let mut unsorted = packs();
    unsorted[0].exports.reverse();
    assert!(validate_catalog(&unsorted).is_err());
}

#[test]
fn packs_carry_all_they_need() {
    let module = |name: &str, needs: &[&str]| HelperModule {
        name: name.to_string(),
        source: SourceFile {
            path: format!("lua/{name}.lua"),
            digest: digest(name.as_bytes()),
        },
        needs: needs.iter().map(|need| need.to_string()).collect(),
    };
    let modules = vec![module("a", &["b"]), module("b", &["c"]), module("c", &[]), module("d", &[])];
    let files: Vec<String> =
        transitive_sources(&modules, "a").unwrap().into_iter().map(|file| file.path).collect();
    assert_eq!(files, ["lua/a.lua", "lua/b.lua", "lua/c.lua"]);
    assert_eq!(
        load_module(&modules, &Vec::new(), "a").unwrap(),
        HelperLoad::Cached
    );
    assert_eq!(
        load_module(&modules, &Vec::new(), "x.y").unwrap(),
        HelperLoad::Files("x/y.lua".to_string(), "x/y/init.lua".to_string())
    );
    assert!(load_module(&Vec::new(), &vec!["x".to_string()], "x").is_err());
    assert!(missing_module("x").text().contains("x"));
    let place = function_location("a", Some("@lua/a.lua"), Some(3));
    assert_eq!(place.line, Some(3));
    assert_eq!(helper_error_location(&Vec::new(), "a", "lua/a.lua:7: boom").1, Some(7));
}

#[test]
fn payloads_are_exactly_the_catalog() {
    let entry = |relative: &str, content: &[u8]| PayloadEntry {
        path: format!("/p/{relative}"),
        relative: relative.to_string(),
        kind: EntryKind::File,
        content: Ok(content.to_vec()),
    };
    let whole = vec![
        PayloadEntry {
            path: "/p/lua".to_string(),
            relative: "lua".to_string(),
            kind: EntryKind::Directory,
            content: Err(String::new()),
        },
        entry("lua/example.lua", b"abc"),
    ];
    let root = Ok(EntryKind::Directory);
    assert!(verify_payloads(&packs(), &root, &whole).is_ok());
    assert!(verify_payloads(&packs(), &root, &Vec::new()).is_err());
    let mut changed = vec![entry("lua/example.lua", b"abd")];
    assert!(verify_payloads(&packs(), &root, &changed).is_err());
    changed = vec![entry("lua/example.lua", b"abc"), entry("lua/extra.lua", b"x")];
    assert!(verify_payloads(&packs(), &root, &changed).is_err());
    assert!(check_published_source(&sources()[0], &b"abc".to_vec()).is_ok());
    assert!(check_published_source(&sources()[0], &b"x".to_vec()).is_err());
    assert_eq!(
        load_payload_module(&sources(), &Vec::new(), "example").unwrap(),
        "lua/example.lua"
    );
    assert!(load_payload_module(&sources(), &Vec::new(), "absent").is_err());
}

#[test]
fn helpers_return_one_value() {
    assert!(check_returned("example", 1).unwrap());
    assert!(check_returned("example", 2).is_err());
    assert_eq!(
        check_result("upper", 1, false, Ok(FrozenValue::Integer(1))).unwrap(),
        FrozenValue::Integer(1)
    );
    assert!(check_result("upper", 2, false, Ok(FrozenValue::Integer(1))).is_err());
    assert!(check_result("upper", 1, true, Ok(FrozenValue::Null)).is_err());
}

fn ran(output: &str) -> Ran {
    Ran {
        success: true,
        code: Some(0),
        status: "exit status: 0".to_string(),
        stdout: output.as_bytes().to_vec(),
        stderr: Vec::new(),
    }
}

#[test]
fn elevation_is_asked_for_and_kept_apart() {
    assert!(effective_uid_is_root(&ran("0\n")).unwrap());
    assert!(!effective_uid_is_root(&ran("501\n")).unwrap());
    assert!(preflight_elevation(true, false, None).is_err());
    assert!(preflight_elevation(true, true, None).is_ok());
    assert!(preflight_elevation(false, false, None).is_ok());
    assert!(authorization_arguments(true).contains(&"-n".to_string()));
    assert!(authorize_elevation(true, false).is_ok());
    assert!(authorize_elevation(false, true).is_err());
    assert!(allow_elevation(false, false, false).is_ok());
    assert_eq!(
        allow_elevation(false, true, true),
        Err("observational provider processes cannot request elevation")
    );
    assert_eq!(
        allow_elevation(true, true, false),
        Err("provider operation did not declare elevation")
    );
    assert!(allow_elevation(true, true, true).is_ok());
}

#[test]
fn elevated_commands_go_through_sudo() {
    let line = mutating_command(
        "/usr/bin/apt-get",
        vec!["update".to_string()],
        apt_environment(),
        true,
        false,
        Some("/usr/bin/sudo".to_string()),
        true,
    )
    .unwrap();
    assert_eq!(line.program, "/usr/bin/sudo");
    assert_eq!(
        line.arguments,
        ["-n", "--", "env", "DEBIAN_FRONTEND=noninteractive", "/usr/bin/apt-get", "update"]
    );
    assert!(line.environment.is_empty());
    let plain = mutating_command(
        "brew",
        vec!["install".to_string()],
        brew_environment(),
        false,
        false,
        None,
        false,
    )
    .unwrap();
    assert_eq!(plain.program, "brew");
    assert_eq!(plain.environment.len(), 2);
    assert_eq!(
        run_mutating("apt-get", false, "exit status: 1").unwrap_err().text(),
        "provider command `apt-get` failed with exit status: 1"
    );
    assert_eq!(
        accept_homebrew("install", "jq", false, "exit status: 1").unwrap_err().text(),
        "Homebrew install failed for `jq` with exit status: 1"
    );
    assert_eq!(authorization_command(true, None, true).unwrap(), None);
    assert_eq!(
        authorization_command(false, Some("/s".to_string()), true).unwrap().unwrap(),
        ["/s", "-n", "--", "true"]
    );
    assert_eq!(
        authorization_command(false, Some("/s".to_string()), false).unwrap().unwrap(),
        ["/s", "-v"]
    );
    assert_eq!(
        authorization_command(false, None, true).unwrap_err().text(),
        "elevated bootstrap requires `sudo` to be available on PATH"
    );
    assert_eq!(
        require_command(None, "sudo", "elevated provider mutation").unwrap_err().text(),
        "elevated provider mutation requires `sudo` to be available on PATH"
    );
}

#[test]
fn places_follow_the_environment() {
    assert_eq!(
        which_candidates("rg", &vec!["/bin".to_string(), "/usr/bin".to_string()]),
        ["/bin/rg", "/usr/bin/rg"]
    );
    assert!(environment_state_root(None, Some("/h")).unwrap().starts_with("/h/.local/state"));
    assert!(environment_state_root(None, None).is_err());
    let files = vec![ProviderFile {
        source: "providers/mine/a.lua".to_string(),
        payload: "mine/a.lua".to_string(),
        digest: digest(b"abc"),
        size: 3,
    }];
    assert_eq!(product_helper("mine", &files, "a").unwrap(), "mine/a.lua");
    assert!(product_helper("mine", &files, "b").is_err());
}

fn missing() -> FoundPath {
    FoundPath {
        kind: Ok(EntryKind::Missing),
        text: Err(String::new()),
    }
}

fn holding(text: &str) -> FoundPath {
    FoundPath {
        kind: Ok(EntryKind::File),
        text: Ok(text.to_string()),
    }
}

#[test]
fn new_repositories_are_planned_whole() {
    let found = FoundRoot {
        root: Ok(EntryKind::Missing),
        configuration: missing(),
        modules: Ok(EntryKind::Missing),
        auto: missing(),
        ignored: missing(),
        missing: vec!["/h/dots".to_string()],
        parent: Some(("/h".to_string(), Ok(EntryKind::Directory))),
    };
    let plan = initialize("/h/dots", &found).unwrap();
    assert_eq!(plan.directories, ["/h/dots", "/h/dots/modules"]);
    let files: Vec<&str> = plan.files.iter().map(|(path, _)| path.as_str()).collect();
    assert_eq!(
        files,
        ["/h/dots/wombat.lua", "/h/dots/modules/auto.lua", "/h/dots/.gitignore"]
    );
    let outcome = finish_initialization("/h/dots", plan);
    assert_eq!(outcome.status, InitStatus::Initialized);
    assert_eq!(outcome.display(), "initialized Wombat repository at /h/dots");
}

#[test]
fn initialized_repositories_stay() {
    let found = FoundRoot {
        root: Ok(EntryKind::Directory),
        configuration: holding("local w = require(\"wombat\")\n\nw.use(\"auto\")\n"),
        modules: Ok(EntryKind::Directory),
        auto: holding("local w = require(\"wombat\")\n\n-- wombat:add begin\n-- wombat:add end\n"),
        ignored: holding("/build/\n"),
        missing: Vec::new(),
        parent: Some(("/h".to_string(), Ok(EntryKind::Directory))),
    };
    let plan = initialize("/h/dots", &found).unwrap();
    assert!(plan.files.is_empty() && plan.directories.is_empty());
    assert_eq!(
        finish_initialization("/h/dots", plan).status,
        InitStatus::AlreadyInitialized
    );
    assert!(preflight_exact("/h/dots/wombat.lua", &holding("mine"), "other").is_err());
    assert!(preflight_gitignore("/h/dots/.gitignore", &holding("target\n")).unwrap().is_some());
    assert!(preflight_gitignore("/h/dots/.gitignore", &holding("/build/\n")).unwrap().is_none());
}
