//! Inputs of a project.
use wombat::lua::project_inputs::{
    read_schema, register_input_spec, resolve_inputs, resolved_values, InputRegistry,
};
use wombat::lua::state::{Location, ModuleRegistry};
use wombat::model::context::{
    Architecture, OperatingSystem, OperatingSystemName, TargetPlatform,
};
use wombat::model::frozen::{FrozenValue, LuaValue};
use wombat::model::manifest::{BuildInputKind, BuildInputOrigin, SourceLocation, SourceTrace};
use wombat::project::inputs::{resolve, InputSpec, ResolvedInputs};

fn host() -> TargetPlatform {
    TargetPlatform {
        os: OperatingSystem {
            name: OperatingSystemName::Macos,
            version: None,
            kernel: None,
            distribution: None,
        },
        arch: Architecture::Aarch64,
    }
}

fn at(line: u32) -> SourceTrace {
    SourceTrace {
        primary: SourceLocation {
            source: "wombat.lua".to_string(),
            line: Some(line),
            column: None,
        },
        callers: Vec::new(),
    }
}

fn table(entries: Vec<(&str, FrozenValue)>) -> FrozenValue {
    FrozenValue::Table(
        entries
            .into_iter()
            .map(|(key, value)| (key.to_string(), value))
            .collect(),
    )
}

fn text(value: &str) -> FrozenValue {
    FrozenValue::String(value.to_string())
}

fn specs() -> Vec<(u64, InputSpec)> {
    vec![
        (
            1,
            InputSpec::parse(1, "flag", &table(vec![("default", FrozenValue::Boolean(true))]), at(1))
                .unwrap(),
        ),
        (
            2,
            InputSpec::parse(
                2,
                "choice",
                &table(vec![
                    ("default", text("dark")),
                    ("values", FrozenValue::Array(vec![text("dark"), text("light")])),
                ]),
                at(2),
            )
            .unwrap(),
        ),
        (3, InputSpec::parse(3, "target", &FrozenValue::empty_map(), at(3)).unwrap()),
    ]
}

fn schema() -> Vec<(String, u64)> {
    vec![
        ("enabled".to_string(), 1),
        ("theme".to_string(), 2),
        ("target".to_string(), 3),
    ]
}

fn arguments(list: &[&str]) -> Vec<Option<String>> {
    list.iter().map(|item| Some(item.to_string())).collect()
}

fn value<'a>(resolved: &'a ResolvedInputs, name: &str) -> &'a FrozenValue {
    &resolved.values.iter().find(|(key, _)| key == name).unwrap().1
}

#[test]
fn parses_flags_choices_and_target_with_stable_values() {
    let resolved = resolve(
        &schema(),
        &specs(),
        &arguments(&["--no-enabled", "--theme=light", "--target", "linux/amd64"]),
        &host(),
    )
    .unwrap();
    assert_eq!(*value(&resolved, "enabled"), FrozenValue::Boolean(false));
    assert_eq!(*value(&resolved, "theme"), text("light"));
    assert_eq!(*value(&resolved, "target"), text("linux/x86_64"));
}

#[test]
fn inputs_fall_back_to_their_defaults() {
    let resolved = resolve(&schema(), &specs(), &Vec::new(), &host()).unwrap();
    assert_eq!(*value(&resolved, "enabled"), FrozenValue::Boolean(true));
    assert_eq!(*value(&resolved, "theme"), text("dark"));
    assert_eq!(*value(&resolved, "target"), text("macos/aarch64"));
    assert!(resolved.manifest.iter().all(|input| input.origin == BuildInputOrigin::Default));
    assert!(resolved.help.is_none());
    let kinds: Vec<_> = resolved.manifest.iter().map(|input| input.kind).collect();
    assert!(kinds.contains(&BuildInputKind::Target));
}

#[test]
fn help_stands_alone() {
    let resolved = resolve(&schema(), &specs(), &arguments(&["--help"]), &host()).unwrap();
    assert_eq!(
        resolved.help.unwrap(),
        "Repository build inputs\n\nUsage: wombat build [WOMBAT OPTIONS] -- [PROJECT OPTIONS]\n\nOptions:\n      --enabled, --no-enabled\n          [default: true]\n      --theme <CHOICE>\n          [values: dark, light]\n          [default: dark]\n      --target <OS/ARCH>\n          [default: macos/aarch64]\n"
    );
    let error = resolve(
        &schema(),
        &specs(),
        &arguments(&["--help", "--theme=light"]),
        &host(),
    )
    .unwrap_err();
    assert_eq!(
        error.text(),
        "project `--help` cannot be combined with other project arguments"
    );
}

#[test]
fn faulty_arguments_are_refused() {
    for (list, message) in [
        (vec!["--"], "unexpected project argument `--`"),
        (vec!["--unknown"], "unknown project option `--unknown`"),
        (vec!["--no-theme"], "unknown project option `--no-theme`"),
        (vec!["--enabled=yes"], "project flag `--enabled` does not take a value"),
        (vec!["--theme="], "project option `--theme` requires a value"),
        (vec!["--theme"], "project option `--theme` requires a value"),
        (vec!["--theme", "-x"], "project option `--theme` requires a value"),
        (vec!["-"], "invalid project option `-`"),
        (vec!["-ab"], "combined or attached short project options are not supported: `-ab`"),
        (vec!["-z"], "unknown project option `-z`"),
        (vec!["plain"], "unexpected positional project argument `plain`"),
        (
            vec!["--theme=dark", "--theme=light"],
            "project option for `theme` was provided more than once",
        ),
    ] {
        assert_eq!(
            resolve(&schema(), &specs(), &arguments(&list), &host()).unwrap_err().text(),
            message
        );
    }
    assert!(resolve(&schema(), &specs(), &arguments(&["--theme=blue"]), &host()).is_err());
    assert_eq!(
        resolve(&schema(), &specs(), &vec![None], &host()).unwrap_err().text(),
        "project build arguments must be valid UTF-8"
    );
    let twice = vec![("theme".to_string(), 2), ("theme".to_string(), 1)];
    assert_eq!(
        resolve(&twice, &specs(), &Vec::new(), &host()).unwrap_err().text(),
        "duplicate input `theme`"
    );
    let reused = vec![("theme".to_string(), 2), ("other".to_string(), 2)];
    assert_eq!(
        resolve(&reused, &specs(), &Vec::new(), &host()).unwrap_err().text(),
        "Wombat input descriptor `2` is reused; create one descriptor per input"
    );
    let foreign = vec![("theme".to_string(), 9)];
    assert_eq!(
        resolve(&foreign, &specs(), &Vec::new(), &host()).unwrap_err().text(),
        "input `theme` is not a Wombat input descriptor"
    );
    let clash = vec![("no_enabled".to_string(), 2), ("enabled".to_string(), 1)];
    assert_eq!(
        resolve(&clash, &specs(), &Vec::new(), &host()).unwrap_err().text(),
        "invalid project long option `no-enabled`"
    );
}

#[test]
fn integers_keep_to_their_bounds() {
    let spec = InputSpec::parse(
        1,
        "integer",
        &table(vec![
            ("default", FrozenValue::Integer(4)),
            ("max", FrozenValue::Integer(9)),
            ("min", FrozenValue::Integer(1)),
            ("short", text("n")),
        ]),
        at(1),
    )
    .unwrap();
    assert_eq!(spec.short, Some('n'));
    let specs = vec![(1, spec)];
    let schema = vec![("count".to_string(), 1)];
    let resolved = resolve(&schema, &specs, &arguments(&["-n", "9"]), &host()).unwrap();
    assert_eq!(resolved.values[0].1, FrozenValue::Integer(9));
    assert_eq!(resolved.manifest[0].origin, BuildInputOrigin::CommandLine);
    assert!(resolve(&schema, &specs, &arguments(&["--count=10"]), &host()).is_err());
    assert!(resolve(&schema, &specs, &arguments(&["--count=x"]), &host()).is_err());
}

#[test]
fn declarations_are_checked() {
    assert!(InputSpec::parse(1, "colour", &FrozenValue::empty_map(), at(1)).is_err());
    assert!(InputSpec::parse(1, "flag", &FrozenValue::Integer(1), at(1)).is_err());
    assert!(InputSpec::parse(1, "choice", &FrozenValue::empty_map(), at(1)).is_err());
    assert!(InputSpec::parse(
        1,
        "integer",
        &table(vec![
            ("default", FrozenValue::Integer(0)),
            ("min", FrozenValue::Integer(1))
        ]),
        at(1)
    )
    .is_err());
    assert!(InputSpec::parse(1, "flag", &table(vec![("short", text("ab"))]), at(1)).is_err());
}

#[test]
fn schemas_name_each_declaration_once() {
    let mut modules = ModuleRegistry {
        stack: Vec::new(),
        records: Vec::new(),
        dependencies: Vec::new(),
        root_policy_started: false,
    };
    let mut inputs = InputRegistry {
        specs: Vec::new(),
        next: 1,
        declared: false,
    };
    let place = || Location { trace: at(1) };
    let id = register_input_spec(
        &modules,
        &mut inputs,
        "flag",
        Ok(FrozenValue::empty_map()),
        place(),
    )
    .unwrap();
    assert_eq!(id, 1);
    assert_eq!(inputs.next, 2);
    let entries = read_schema(&vec![(
        LuaValue::Text("fast".to_string()),
        LuaValue::Integer(1),
    )])
    .unwrap();
    assert_eq!(entries, vec![("fast".to_string(), 1)]);
    assert!(read_schema(&vec![(LuaValue::Boolean(true), LuaValue::Integer(1))]).is_err());
    let resolved = resolve_inputs(
        &modules,
        &mut inputs,
        &entries,
        &arguments(&["--fast"]),
        &host(),
        &place(),
    )
    .unwrap();
    assert!(inputs.declared);
    assert_eq!(resolved_values(resolved).unwrap()[0].1, FrozenValue::Boolean(true));
    assert!(resolve_inputs(
        &modules,
        &mut inputs,
        &entries,
        &Vec::new(),
        &host(),
        &place()
    )
    .is_err());
    modules.stack.push("shell".to_string());
    assert!(register_input_spec(
        &modules,
        &mut inputs,
        "flag",
        Ok(FrozenValue::empty_map()),
        place()
    )
    .is_err());
}

#[test]
fn platforms_are_read_and_compared() {
    let linux = TargetPlatform::parse_compact("linux/amd64").unwrap();
    assert_eq!(linux.compact(), "linux/x86_64");
    assert!(TargetPlatform::parse_compact("plan9/mips").is_err());
    assert!(host().locally_compatible_with(&host()));
    assert!(!linux.locally_compatible_with(&host()));
}

fn counted() -> (Vec<(String, u64)>, Vec<(u64, InputSpec)>) {
    let mut specs = specs();
    let options = table(vec![("default", FrozenValue::Integer(1)), ("short", text("c"))]);
    specs.push((4, InputSpec::parse(4, "integer", &options, at(4)).unwrap()));
    let mut schema = schema();
    schema.push(("count".to_string(), 4));
    (schema, specs)
}

#[test]
fn whole_numbers_are_integers() {
    let (schema, specs) = counted();
    let resolved = resolve(&schema, &specs, &arguments(&["-c", "5"]), &host()).unwrap();
    assert_eq!(*value(&resolved, "count"), FrozenValue::Integer(5));
    let resolved = resolve(&schema, &specs, &Vec::new(), &host()).unwrap();
    assert_eq!(*value(&resolved, "count"), FrozenValue::Integer(1));
    for (input, (name, value)) in resolved.manifest.iter().zip(&resolved.values) {
        assert_eq!((&input.name, &input.value), (name, value));
    }
}

#[test]
fn the_order_of_options_is_free() {
    let (schema, specs) = counted();
    let read = |list: &[&str]| resolve(&schema, &specs, &arguments(list), &host()).unwrap();
    let first = read(&["--no-enabled", "-c", "7", "--theme=light"]);
    assert_eq!(read(&["--theme=light", "-c", "7", "--no-enabled"]), first);
    assert_eq!(read(&["-c", "7", "--no-enabled", "--theme=light"]), first);
}

#[test]
fn an_input_is_given_once() {
    let (schema, specs) = counted();
    for again in [vec!["--count", "7"], vec!["-c", "8"], vec!["--count=9"]] {
        let mut list = vec!["-c", "7", "--enabled"];
        list.extend(again);
        assert_eq!(
            resolve(&schema, &specs, &arguments(&list), &host()).unwrap_err().text(),
            "project option for `count` was provided more than once"
        );
    }
    let list = arguments(&["--enabled", "--no-enabled"]);
    assert!(resolve(&schema, &specs, &list, &host()).is_err());
}
