//! Artifact, task, script and ladder declarations.
use vstd::prelude::*;
use vstd::string::*;
use vstd::utf8::encode_utf8;

use crate::digest::{digest, digest_of};
use crate::error::{
    configured, either, first, problem_if, reports, settles, settles_noted, unnoted, Noted, Problem,
    Result, WombatError,
};
use crate::json::{compact, compact_text};
use crate::lua::options::{
    bool_option, bool_problem, choice_problem, get, holds_option, is_plain_name,
    lemma_option_within, option, optional_string_problem, plain_name, reject_unknown_options,
    rung_option, rung_problem, string_option, string_problem, take_bool, take_choice,
    take_optional_string, take_rung, take_string, take_texts, texts_option, texts_problem,
    unknown_problem,
};
use crate::model::frozen::{frozen_value, FrozenValue, LuaValue};
use crate::model::ladder::{CoreRung, ExecutionLadder, LadderRung, RungId};
use crate::lua::state::{ActionRegistry, ArtifactRegistry, Location, ModuleRegistry, SourceBase};
use crate::model::manifest::{
    ArtifactKind, EvaluatedArtifact, EvaluatedProduction, EvaluatedTargetOrigin, EvaluatedTask,
    InterpreterFamily, Script, ScriptPayload, ScriptSchedule, ScriptScope, SourceOrigin,
    SourceTrace, TargetPath, TargetScope, Task, TaskCachePolicy, TaskLogPolicy, TaskRunner,
    TaskTargetRoot,
};
use crate::model::path::{
    absolute, explicit_root_problem, explicit_target, explicit_target_problem, infer_target,
    infer_target_root, inferred_target, is_absolute, join_relative, parse_explicit_target,
    parse_explicit_target_root, relative_join, relative_problem, root_problem,
    validate_relative_path,
};
use crate::model::source::SourceFingerprint;
use crate::text::{cat2, cat3, cat5, cat6, contains_char, ends_with, pieces, same, split, views};

verus! {

/// The extension of the last component of a path: what follows its last dot,
/// unless that dot begins it.
pub open spec fn extension(path: Seq<char>) -> Option<Seq<char>> {
    let parts = pieces(pieces(path, '/').last(), '.');
    if parts.len() == 1 || (parts.len() == 2 && parts[0].len() == 0) {
        None
    } else {
        Some(parts.last())
    }
}

fn extension_of(path: &str) -> (r: Option<String>)
    ensures
        match r {
            Some(found) => extension(path@) == Some(found@),
            None => extension(path@) is None,
        },
{
    let components = split(path, '/');
    assert(components@.len() == views(components@).len());
    assert(views(components@).last() == components@.last()@);
    let parts = split(components[components.len() - 1].as_str(), '.');
    assert(parts@.len() == views(parts@).len());
    assert(views(parts@)[0] == parts@[0]@);
    assert(views(parts@).last() == parts@.last()@);
    if parts.len() == 1 || (parts.len() == 2 && parts[0].as_str().is_empty()) {
        None
    } else {
        Some(parts[parts.len() - 1].clone())
    }
}

/// How many components of a relative path count: names, and a leading dot.
pub open spec fn counted(components: Seq<Seq<char>>) -> nat
    decreases components.len(),
{
    if components.len() == 0 {
        0
    } else {
        counted(components.drop_last()) + if components.last().len() == 0 || (components.last()
            == "."@ && components.len() > 1) {
            0nat
        } else {
            1
        }
    }
}

/// What is wrong with the command of an interpreter.
pub open spec fn command_problem(command: Seq<char>) -> Option<Seq<char>> {
    first(
        problem_if(command.len() == 0, "task interpreter command must not be empty"@),
        problem_if(
            !absolute(command) && counted(pieces(command, '/')) > 1,
            "task interpreter `"@ + command + "` must be a bare command or absolute path"@,
        ),
    )
}

/// Counts the components of a relative path.
pub fn count_components(path: &str) -> (r: usize)
    ensures
        r == counted(pieces(path@, '/')),
{
    let parts = split(path, '/');
    let ghost components = pieces(path@, '/');
    let mut count: usize = 0;
    let mut i: usize = 0;
    assert(parts@.len() == views(parts@).len());
    assert(components.take(0) =~= Seq::empty());
    while i < parts.len()
        invariant
            0 <= i <= parts@.len(),
            parts@.len() == components.len(),
            views(parts@) == components,
            count <= i,
            count == counted(components.take(i as int)),
        decreases parts@.len() - i,
    {
        assert(components.take(i + 1).drop_last() =~= components.take(i as int));
        assert(views(parts@)[i as int] == parts@[i as int]@);
        if !(parts[i].as_str().is_empty() || (i > 0 && same(parts[i].as_str(), "."))) {
            count += 1;
        }
        i += 1;
    }
    assert(components.take(i as int) =~= components);
    count
}

/// Accepts a bare command or an absolute path.
pub fn validate_interpreter_command(command: &str) -> (r: Result<()>)
    ensures
        reports(r, command_problem(command@)),
{
    if command.is_empty() {
        return Err(WombatError::configuration("task interpreter command must not be empty"));
    }
    if count_components(command) > 1 && !is_absolute(command) {
        return Err(
            WombatError::Configuration(
                cat3(
                    "task interpreter `",
                    command,
                    "` must be a bare command or absolute path",
                ),
            ),
        );
    }
    Ok(())
}

/// The command of a declared interpreter.
pub open spec fn declared_command(value: FrozenValue) -> Seq<char> {
    match value {
        FrozenValue::String(command) => command@,
        FrozenValue::Table(values) => string_option(values@, "command"@),
        _ => Seq::empty(),
    }
}

/// The arguments of a declared interpreter.
pub open spec fn declared_args(value: FrozenValue) -> Seq<Seq<char>> {
    match value {
        FrozenValue::Table(values) => texts_option(values@, "args"@),
        _ => Seq::empty(),
    }
}

/// What is wrong with a declared interpreter.
pub open spec fn interpreter_problem(value: FrozenValue) -> Option<Seq<char>> {
    first(
        match value {
            FrozenValue::String(command) => problem_if(
                command@.len() == 0,
                "task `interpreter` must be a non-empty command string or table"@,
            ),
            FrozenValue::Table(values) => first(
                string_problem(values@, "command"@, "task interpreter"@),
                first(
                    texts_problem(
                        values@,
                        "args"@,
                        "task interpreter args must be strings"@,
                        "task interpreter `args` must be an array"@,
                    ),
                    unknown_problem(values@, seq!["command", "args"], "task interpreter"@),
                ),
            ),
            _ => Some("task `interpreter` must be a non-empty command string or table"@),
        },
        command_problem(declared_command(value)),
    )
}

/// The name under which a kind of file has a configured runner.
pub open spec fn runner_name(extension: Option<Seq<char>>) -> Option<Seq<char>> {
    match extension {
        Some(e) => if e == "py"@ {
            Some("python"@)
        } else if e == "sh"@ {
            Some("shell"@)
        } else if e == "bash"@ {
            Some("bash"@)
        } else if e == "lua"@ {
            Some("lua"@)
        } else {
            None
        },
        None => None,
    }
}

/// Whether the runner at `index` is the first configured under the name.
pub open spec fn configured_at(
    defaults: Seq<(String, TaskRunner)>,
    name: Seq<char>,
    index: int,
) -> bool {
    &&& 0 <= index < defaults.len()
    &&& defaults[index].0@ == name
    &&& forall|j: int| 0 <= j < index ==> (#[trigger] defaults[j]).0@ != name
}

/// Whether a runner is configured under the name.
pub open spec fn has_configured(defaults: Seq<(String, TaskRunner)>, name: Seq<char>) -> bool {
    exists|i: int| configured_at(defaults, name, i)
}

/// Whether a configured runner serves the file.
pub open spec fn is_configured(entrypoint: Seq<char>, defaults: Seq<(String, TaskRunner)>) -> bool {
    runner_name(extension(entrypoint)) matches Some(name) && has_configured(defaults, name)
}

/// What is wrong with finding a runner.
pub open spec fn runner_problem(
    entrypoint: Seq<char>,
    configured: Option<FrozenValue>,
    executable: bool,
    defaults: Seq<(String, TaskRunner)>,
) -> Option<Seq<char>> {
    match configured {
        Some(value) => interpreter_problem(value),
        None => if is_configured(entrypoint, defaults) || runner_name(
            extension(entrypoint),
        ) is Some {
            None
        } else {
            match extension(entrypoint) {
                None => problem_if(
                    !executable,
                    "extensionless task `"@ + entrypoint
                        + "` must be executable or declare `interpreter`"@,
                ),
                Some(e) => Some(
                    "cannot infer an interpreter for task `"@ + entrypoint + "` with extension `."@
                        + e + "`; declare `interpreter`"@,
                ),
            }
        },
    }
}

/// Whether a runner is an interpreter of this family, command and arguments.
pub open spec fn interprets(
    runner: TaskRunner,
    family: InterpreterFamily,
    command: Seq<char>,
    args: Seq<Seq<char>>,
) -> bool {
    runner matches TaskRunner::Interpreter { contract_version, family: f, command: c, args: a }
        && contract_version == 1 && f == family && c@ == command && views(a@) == args
}

/// Whether the runner is the one that serves the file.
pub open spec fn runner_is(
    runner: TaskRunner,
    entrypoint: Seq<char>,
    configured: Option<FrozenValue>,
    defaults: Seq<(String, TaskRunner)>,
) -> bool {
    match configured {
        Some(value) => interprets(
            runner,
            if ".py"@.is_suffix_of(entrypoint) {
                InterpreterFamily::Python
            } else {
                InterpreterFamily::Custom
            },
            declared_command(value),
            declared_args(value),
        ),
        None => match runner_name(extension(entrypoint)) {
            Some(name) => if has_configured(defaults, name) {
                exists|i: int| configured_at(defaults, name, i) && runner.same(defaults[i].1)
            } else if name == "python"@ {
                interprets(runner, InterpreterFamily::Python, "python3"@, Seq::empty())
            } else if name == "shell"@ {
                interprets(runner, InterpreterFamily::PosixShell, "sh"@, Seq::empty())
            } else if name == "bash"@ {
                interprets(runner, InterpreterFamily::Bash, "bash"@, Seq::empty())
            } else {
                runner matches TaskRunner::EmbeddedLua { contract_version } && contract_version == 1
            },
            None => runner matches TaskRunner::Direct { contract_version } && contract_version == 1,
        },
    }
}

fn interpreter(family: InterpreterFamily, command: &str) -> (r: TaskRunner)
    ensures
        interprets(r, family, command@, Seq::empty()),
{
    let args: Vec<String> = Vec::new();
    assert(views(args@) =~= Seq::empty());
    TaskRunner::Interpreter { contract_version: 1, family, command: command.to_owned(), args }
}

fn declared_runner(entrypoint: &str, value: &FrozenValue) -> (r: Result<TaskRunner>)
    ensures
        reports(r, interpreter_problem(*value)),
        r matches Ok(runner) ==> runner_is(runner, entrypoint@, Some(*value), Seq::empty()),
{
    let (command, args) = match value {
        FrozenValue::String(command) => {
            if command.as_str().is_empty() {
                return Err(
                    WombatError::configuration(
                        "task `interpreter` must be a non-empty command string or table",
                    ),
                );
            }
            let args: Vec<String> = Vec::new();
            assert(views(args@) =~= Seq::empty());
            (command.clone(), args)
        },
        FrozenValue::Table(values) => {
            let command = take_string(values, "command", "task interpreter")?;
            let args = take_texts(
                values,
                "args",
                "task interpreter args must be strings",
                "task interpreter `args` must be an array",
            )?;
            let known = ["command", "args"];
            assert(known@ =~= seq!["command", "args"]);
            reject_unknown_options(values, &known, "task interpreter")?;
            (command, args)
        },
        _ => {
            return Err(
                WombatError::configuration(
                    "task `interpreter` must be a non-empty command string or table",
                ),
            );
        },
    };
    validate_interpreter_command(command.as_str())?;
    let family = if ends_with(entrypoint, ".py") {
        InterpreterFamily::Python
    } else {
        InterpreterFamily::Custom
    };
    Ok(TaskRunner::Interpreter { contract_version: 1, family, command, args })
}

fn find_configured(defaults: &Vec<(String, TaskRunner)>, name: &str) -> (r: Option<usize>)
    ensures
        r matches Some(i) ==> configured_at(defaults@, name@, i as int),
        r is None ==> !has_configured(defaults@, name@),
{
    let mut i: usize = 0;
    while i < defaults.len()
        invariant
            0 <= i <= defaults@.len(),
            forall|j: int| 0 <= j < i ==> (#[trigger] defaults@[j]).0@ != name@,
        decreases defaults@.len() - i,
    {
        if same(defaults[i].0.as_str(), name) {
            return Some(i);
        }
        i += 1;
    }
    None
}

/// Finds what runs a task or a script: the declared interpreter, the runner
/// configured for its kind of file, or the usual one.
pub fn parse_task_runner(
    entrypoint: &str,
    configured: Option<&FrozenValue>,
    executable: bool,
    defaults: &Vec<(String, TaskRunner)>,
) -> (r: Result<TaskRunner>)
    ensures
        reports(
            r,
            runner_problem(
                entrypoint@,
                match configured {
                    Some(value) => Some(*value),
                    None => None,
                },
                executable,
                defaults@,
            ),
        ),
        r matches Ok(runner) ==> runner_is(
            runner,
            entrypoint@,
            match configured {
                Some(value) => Some(*value),
                None => None,
            },
            defaults@,
        ),
{
    if let Some(value) = configured {
        return declared_runner(entrypoint, value);
    }
    let found = extension_of(entrypoint);
    let name = match &found {
        Some(e) => if same(e.as_str(), "py") {
            "python"
        } else if same(e.as_str(), "sh") {
            "shell"
        } else if same(e.as_str(), "bash") {
            "bash"
        } else if same(e.as_str(), "lua") {
            "lua"
        } else {
            return Err(
                WombatError::Configuration(
                    cat5(
                        "cannot infer an interpreter for task `",
                        entrypoint,
                        "` with extension `.",
                        e.as_str(),
                        "`; declare `interpreter`",
                    ),
                ),
            );
        },
        None => {
            if executable {
                return Ok(TaskRunner::Direct { contract_version: 1 });
            }
            return Err(
                WombatError::Configuration(
                    cat3(
                        "extensionless task `",
                        entrypoint,
                        "` must be executable or declare `interpreter`",
                    ),
                ),
            );
        },
    };
    assert(runner_name(extension(entrypoint@)) == Some(name@));
    if let Some(i) = find_configured(defaults, name) {
        let runner = defaults[i].1.copy();
        assert(configured_at(defaults@, name@, i as int) && runner.same(defaults@[i as int].1));
        return Ok(runner);
    }
    proof {
        reveal_strlit("python");
        reveal_strlit("shell");
        reveal_strlit("bash");
        reveal_strlit("lua");
        assert("python"@.len() == 6);
        assert("shell"@.len() == 5);
        assert("bash"@.len() == 4);
        assert("lua"@.len() == 3);
    }
    if same(name, "python") {
        Ok(interpreter(InterpreterFamily::Python, "python3"))
    } else if same(name, "shell") {
        Ok(interpreter(InterpreterFamily::PosixShell, "sh"))
    } else if same(name, "bash") {
        Ok(interpreter(InterpreterFamily::Bash, "bash"))
    } else {
        Ok(TaskRunner::EmbeddedLua { contract_version: 1 })
    }
}

/// What is wrong with parameters: they are no map, or too large to hand over.
pub open spec fn params_problem(
    params: FrozenValue,
    shape: Seq<char>,
    size: Seq<char>,
) -> Option<Seq<char>> {
    first(
        problem_if(!(params is Table), shape),
        problem_if(encode_utf8(compact(params.tree())).len() > 65536, size),
    )
}

fn check_params(params: &FrozenValue, shape: &str, size: &str) -> (r: Result<()>)
    ensures
        reports(r, params_problem(*params, shape@, size@)),
{
    let map = match params {
        FrozenValue::Table(_) => true,
        _ => false,
    };
    if !map {
        return Err(WombatError::configuration(shape));
    }
    let text = compact_text(&frozen_value(params));
    if text_size(text.as_str()) > 65536 {
        return Err(WombatError::configuration(size));
    }
    Ok(())
}

/// How many bytes text takes.
fn text_size(text: &str) -> (r: usize)
    ensures
        r == encode_utf8(text@).len(),
{
    text.as_bytes().len()
}

/// What is wrong with the name of an action.
pub open spec fn action_name_problem(
    options: Seq<(String, FrozenValue)>,
    subject: Seq<char>,
    label: Seq<char>,
) -> Option<Seq<char>> {
    first(
        optional_string_problem(options, "name"@, subject),
        problem_if(
            option(options, "name"@) is Some && !plain_name(string_option(options, "name"@)),
            label + " `"@ + string_option(options, "name"@)
                + "` is invalid; expected ASCII letters, numbers, `-`, or `_`"@,
        ),
    )
}

fn take_action_name(options: &Vec<(String, FrozenValue)>, subject: &str, label: &str) -> (r: Result<
    Option<String>,
>)
    ensures
        reports(r, action_name_problem(options@, subject@, label@)),
        r matches Ok(name) ==> holds_option(name, options@, "name"@),
{
    let name = take_optional_string(options, "name", subject)?;
    if let Some(text) = &name {
        if !is_plain_name(text.as_str()) {
            return Err(
                WombatError::Configuration(
                    crate::text::cat4(
                        label,
                        " `",
                        text.as_str(),
                        "` is invalid; expected ASCII letters, numbers, `-`, or `_`",
                    ),
                ),
            );
        }
    }
    Ok(name)
}

/// The log policy that an option chooses.
pub open spec fn logs_option(options: Seq<(String, FrozenValue)>) -> TaskLogPolicy {
    let text = string_option(options, "logs"@);
    if option(options, "logs"@) is None || text == "failure"@ {
        TaskLogPolicy::Failure
    } else if text == "always"@ {
        TaskLogPolicy::Always
    } else {
        TaskLogPolicy::Never
    }
}

/// What is wrong with the log policy.
pub open spec fn logs_problem(options: Seq<(String, FrozenValue)>, message: Seq<char>) -> Option<
    Seq<char>,
> {
    choice_problem(options, "logs"@, seq!["failure", "always", "never"], message)
}

fn take_logs(options: &Vec<(String, FrozenValue)>, message: &str) -> (r: Result<TaskLogPolicy>)
    ensures
        reports(r, logs_problem(options@, message@)),
        r matches Ok(logs) ==> logs == logs_option(options@),
{
    let choices = ["failure", "always", "never"];
    assert(choices@ =~= seq!["failure", "always", "never"]);
    let index = take_choice(options, "logs", &choices, message)?;
    proof {
        reveal_strlit("failure");
        reveal_strlit("always");
        reveal_strlit("never");
        assert("failure"@.len() == 7);
        assert("always"@.len() == 6);
        assert("never"@.len() == 5);
    }
    match index {
        None => Ok(TaskLogPolicy::Failure),
        Some(i) => {
            assert(choices@[i as int]@ == string_option(options@, "logs"@));
            if i == 0 {
                Ok(TaskLogPolicy::Failure)
            } else if i == 1 {
                Ok(TaskLogPolicy::Always)
            } else {
                Ok(TaskLogPolicy::Never)
            }
        },
    }
}

/// Whether text can name a variable of an environment.
pub open spec fn variable_name(name: Seq<char>) -> bool {
    !name.contains('=') && !name.contains('\0')
}

/// Whether every entry is a variable with text.
pub open spec fn all_variables(entries: Seq<(String, FrozenValue)>) -> bool {
    forall|i: int|
        0 <= i < entries.len() ==> variable_name((#[trigger] entries[i]).0@)
            && entries[i].1 is String
}

/// What is wrong with the environment of a script.
pub open spec fn env_problem(options: Seq<(String, FrozenValue)>) -> Option<Seq<char>> {
    match option(options, "env"@) {
        None => None,
        Some(FrozenValue::Table(entries)) => problem_if(
            !all_variables(entries@),
            "script `env` must map valid names to strings"@,
        ),
        Some(_) => Some("script `env` must be a string map"@),
    }
}

/// Whether an environment is what the option says.
pub open spec fn env_is(env: Seq<(String, String)>, options: Seq<(String, FrozenValue)>) -> bool {
    match option(options, "env"@) {
        Some(FrozenValue::Table(entries)) => env.len() == entries@.len() && forall|i: int|
            0 <= i < env.len() ==> (#[trigger] env[i]).0@ == entries@[i].0@ && env[i].1@
                == entries@[i].1->String_0@,
        _ => env.len() == 0,
    }
}

fn take_env(options: &Vec<(String, FrozenValue)>) -> (r: Result<Vec<(String, String)>>)
    ensures
        reports(r, env_problem(options@)),
        r matches Ok(env) ==> env_is(env@, options@),
{
    let mut env: Vec<(String, String)> = Vec::new();
    match get(options, "env") {
        None => Ok(env),
        Some(FrozenValue::Table(entries)) => {
            let mut i: usize = 0;
            while i < entries.len()
                invariant
                    0 <= i <= entries@.len(),
                    env@.len() == i,
                    option(options@, "env"@) == Some(FrozenValue::Table(*entries)),
                    forall|j: int|
                        0 <= j < i ==> variable_name((#[trigger] entries@[j]).0@)
                            && entries@[j].1 is String,
                    forall|j: int|
                        0 <= j < i ==> (#[trigger] env@[j]).0@ == entries@[j].0@ && env@[j].1@
                            == entries@[j].1->String_0@,
                decreases entries@.len() - i,
            {
                let name = entries[i].0.as_str();
                let plain = !contains_char(name, '=') && !contains_char(name, '\0');
                match &entries[i].1 {
                    FrozenValue::String(value) => {
                        if !plain {
                            assert(!variable_name(entries@[i as int].0@));
                            return Err(
                                WombatError::configuration(
                                    "script `env` must map valid names to strings",
                                ),
                            );
                        }
                        env.push((entries[i].0.clone(), value.clone()));
                    },
                    _ => {
                        assert(!(entries@[i as int].1 is String));
                        return Err(
                            WombatError::configuration(
                                "script `env` must map valid names to strings",
                            ),
                        );
                    },
                }
                i += 1;
            }
            Ok(env)
        },
        Some(_) => Err(WombatError::configuration("script `env` must be a string map")),
    }
}

/// What is wrong with the time limit of a script.
pub open spec fn timeout_problem(options: Seq<(String, FrozenValue)>) -> Option<Seq<char>> {
    problem_if(
        option(options, "timeout"@) is Some && !(option(options, "timeout"@) matches Some(
            FrozenValue::Integer(seconds),
        ) && seconds > 0),
        "script `timeout` must be a positive integer number of seconds"@,
    )
}

/// The time limit of a script.
pub open spec fn timeout_option(options: Seq<(String, FrozenValue)>) -> Option<u64> {
    match option(options, "timeout"@) {
        Some(FrozenValue::Integer(seconds)) => Some(seconds as u64),
        _ => None,
    }
}

fn take_timeout(options: &Vec<(String, FrozenValue)>) -> (r: Result<Option<u64>>)
    ensures
        reports(r, timeout_problem(options@)),
        r matches Ok(timeout) ==> timeout == timeout_option(options@),
{
    match get(options, "timeout") {
        None => Ok(None),
        Some(value) => {
            if let FrozenValue::Integer(seconds) = value {
                if *seconds > 0 {
                    return Ok(Some(*seconds as u64));
                }
            }
            Err(
                WombatError::configuration(
                    "script `timeout` must be a positive integer number of seconds",
                ),
            )
        },
    }
}

/// When a script runs.
pub open spec fn schedule_option(options: Seq<(String, FrozenValue)>) -> ScriptSchedule {
    let text = string_option(options, "schedule"@);
    if option(options, "schedule"@) is None || text == "always"@ {
        ScriptSchedule::Always
    } else if text == "once"@ {
        ScriptSchedule::Once
    } else {
        ScriptSchedule::Onchange
    }
}

/// What is wrong with when a script runs.
pub open spec fn schedule_problem(options: Seq<(String, FrozenValue)>) -> Option<Seq<char>> {
    choice_problem(
        options,
        "schedule"@,
        seq!["always", "once", "onchange"],
        "script `schedule` must be `always`, `once`, or `onchange`"@,
    )
}

fn take_schedule(options: &Vec<(String, FrozenValue)>) -> (r: Result<ScriptSchedule>)
    ensures
        reports(r, schedule_problem(options@)),
        r matches Ok(schedule) ==> schedule == schedule_option(options@),
{
    let choices = ["always", "once", "onchange"];
    assert(choices@ =~= seq!["always", "once", "onchange"]);
    let index = take_choice(
        options,
        "schedule",
        &choices,
        "script `schedule` must be `always`, `once`, or `onchange`",
    )?;
    proof {
        reveal_strlit("always");
        reveal_strlit("once");
        reveal_strlit("onchange");
        assert("always"@.len() == 6);
        assert("once"@.len() == 4);
        assert("onchange"@.len() == 8);
    }
    match index {
        None => Ok(ScriptSchedule::Always),
        Some(i) => {
            assert(choices@[i as int]@ == string_option(options@, "schedule"@));
            if i == 0 {
                Ok(ScriptSchedule::Always)
            } else if i == 1 {
                Ok(ScriptSchedule::Once)
            } else {
                Ok(ScriptSchedule::Onchange)
            }
        },
    }
}

/// What a script acts on.
pub open spec fn scope_option(options: Seq<(String, FrozenValue)>) -> ScriptScope {
    if option(options, "scope"@) is None || string_option(options, "scope"@) == "target"@ {
        ScriptScope::Target
    } else {
        ScriptScope::Host
    }
}

/// What is wrong with what a script acts on.
pub open spec fn scope_problem(options: Seq<(String, FrozenValue)>) -> Option<Seq<char>> {
    choice_problem(
        options,
        "scope"@,
        seq!["target", "host"],
        "script `scope` must be `target` or `host`"@,
    )
}

fn take_scope(options: &Vec<(String, FrozenValue)>) -> (r: Result<ScriptScope>)
    ensures
        reports(r, scope_problem(options@)),
        r matches Ok(scope) ==> scope == scope_option(options@),
{
    let choices = ["target", "host"];
    assert(choices@ =~= seq!["target", "host"]);
    let index = take_choice(
        options,
        "scope",
        &choices,
        "script `scope` must be `target` or `host`",
    )?;
    proof {
        reveal_strlit("target");
        reveal_strlit("host");
        assert("target"@.len() == 6);
        assert("host"@.len() == 4);
    }
    match index {
        None => Ok(ScriptScope::Target),
        Some(i) => {
            assert(choices@[i as int]@ == string_option(options@, "scope"@));
            if i == 0 {
                Ok(ScriptScope::Target)
            } else {
                Ok(ScriptScope::Host)
            }
        },
    }
}

/// The options that a script knows.
pub open spec fn script_options() -> Seq<&'static str> {
    seq![
        "name",
        "at",
        "schedule",
        "scope",
        "python_helper",
        "logs",
        "files",
        "revision",
        "env",
        "timeout",
        "interpreter",
    ]
}

/// What is wrong with the options of a script, apart from its runner.
pub open spec fn script_options_problem(options: Seq<(String, FrozenValue)>) -> Option<Seq<char>> {
    first(
        action_name_problem(options, "script"@, "script name"@),
        first(
            rung_problem(
                options,
                "at"@,
                "script `at` must be a rung handle or canonical rung string"@,
            ),
            first(
                schedule_problem(options),
                first(
                    scope_problem(options),
                    first(
                        bool_problem(
                            options,
                            "python_helper"@,
                            "script `python_helper` must be boolean"@,
                        ),
                        first(
                            logs_problem(
                                options,
                                "script `logs` must be `failure`, `always`, or `never`"@,
                            ),
                            first(
                                texts_problem(
                                    options,
                                    "files"@,
                                    "script `files` entries must be strings"@,
                                    "script `files` must be an array"@,
                                ),
                                first(
                                    optional_string_problem(options, "revision"@, "script"@),
                                    first(env_problem(options), timeout_problem(options)),
                                ),
                            ),
                        ),
                    ),
                ),
            ),
        ),
    )
}

/// What the options of a script ask for.
#[derive(Debug, PartialEq)]
pub struct ScriptRequest {
    /// Its file beneath the scripts
    pub entrypoint: String,
    /// Its parameters
    pub params: FrozenValue,
    /// Its name
    pub name: Option<String>,
    /// The rung it runs at
    pub at: RungId,
    /// When it runs
    pub schedule: ScriptSchedule,
    /// What it acts on
    pub scope: ScriptScope,
    /// Whether the Python helper is offered
    pub python_helper: bool,
    /// Which logs are kept
    pub logs: TaskLogPolicy,
    /// The patterns of the files it takes along
    pub files: Vec<String>,
    /// A mark of its version
    pub revision: Option<String>,
    /// Its environment
    pub env: Vec<(String, String)>,
    /// Its time limit
    pub timeout_seconds: Option<u64>,
    /// All of its options
    pub options: Vec<(String, FrozenValue)>,
}

/// Whether a request is what the options say.
pub open spec fn script_request_is(
    request: ScriptRequest,
    entrypoint: Seq<char>,
    params: FrozenValue,
    options: Seq<(String, FrozenValue)>,
) -> bool {
    &&& request.entrypoint@ == entrypoint
    &&& request.params == params
    &&& holds_option(request.name, options, "name"@)
    &&& request.at.name@ == rung_option(options, "at"@, CoreRung::MaterialiseBefore)
    &&& request.schedule == schedule_option(options)
    &&& request.scope == scope_option(options)
    &&& request.python_helper == bool_option(options, "python_helper"@, true)
    &&& request.logs == logs_option(options)
    &&& views(request.files@) == texts_option(options, "files"@)
    &&& holds_option(request.revision, options, "revision"@)
    &&& env_is(request.env@, options)
    &&& request.timeout_seconds == timeout_option(options)
    &&& request.options@ == options
}

/// Whether an outcome of the steps that take frozen values is what it should be:
/// the error of a value that could not be frozen is handed on.
pub open spec fn script_outcome(
    r: Result<ScriptRequest>,
    entrypoint: Seq<char>,
    params: Result<FrozenValue>,
    options: Result<FrozenValue>,
) -> bool {
    if relative_problem(entrypoint, "script entrypoint"@) is Some {
        reports(r, relative_problem(entrypoint, "script entrypoint"@))
    } else if params is Err {
        r is Err && r->Err_0 == params->Err_0
    } else if params_problem(
        params->Ok_0,
        "w.script() params must be a string-keyed table"@,
        "w.script() params exceed the 64 KiB argv limit; pass large or binary inputs through files"@,
    ) is Some {
        reports(
            r,
            params_problem(
                params->Ok_0,
                "w.script() params must be a string-keyed table"@,
                "w.script() params exceed the 64 KiB argv limit; pass large or binary inputs through files"@,
            ),
        )
    } else if options is Err {
        r is Err && r->Err_0 == options->Err_0
    } else {
        match options->Ok_0 {
            FrozenValue::Table(entries) => {
                &&& reports(r, script_options_problem(entries@))
                &&& r matches Ok(request) ==> script_request_is(
                    request,
                    entrypoint,
                    params->Ok_0,
                    entries@,
                )
            },
            _ => reports(r, Some("w.script() options must be a table"@)),
        }
    }
}

/// Reads the declaration of a script, given its parameters and options as far as
/// these could be frozen.
pub fn parse_script(
    entrypoint: &str,
    params: Result<FrozenValue>,
    options: Result<FrozenValue>,
) -> (r: Result<ScriptRequest>)
    ensures
        script_outcome(r, entrypoint@, params, options),
{
    validate_relative_path(entrypoint, "script entrypoint")?;
    let params = match params {
        Ok(params) => params,
        Err(error) => {
            return Err(error);
        },
    };
    check_params(
        &params,
        "w.script() params must be a string-keyed table",
        "w.script() params exceed the 64 KiB argv limit; pass large or binary inputs through files",
    )?;
    let options = match options {
        Ok(FrozenValue::Table(entries)) => entries,
        Ok(_) => {
            return Err(WombatError::configuration("w.script() options must be a table"));
        },
        Err(error) => {
            return Err(error);
        },
    };
    let name = take_action_name(&options, "script", "script name")?;
    let at = take_rung(
        &options,
        "at",
        CoreRung::MaterialiseBefore,
        "script `at` must be a rung handle or canonical rung string",
    )?;
    let schedule = take_schedule(&options)?;
    let scope = take_scope(&options)?;
    let python_helper = take_bool(
        &options,
        "python_helper",
        true,
        "script `python_helper` must be boolean",
    )?;
    let logs = take_logs(&options, "script `logs` must be `failure`, `always`, or `never`")?;
    let files = take_texts(
        &options,
        "files",
        "script `files` entries must be strings",
        "script `files` must be an array",
    )?;
    let revision = take_optional_string(&options, "revision", "script")?;
    let env = take_env(&options)?;
    let timeout_seconds = take_timeout(&options)?;
    Ok(
        ScriptRequest {
            entrypoint: entrypoint.to_owned(),
            params,
            name,
            at,
            schedule,
            scope,
            python_helper,
            logs,
            files,
            revision,
            env,
            timeout_seconds,
            options,
        },
    )
}

/// The declared interpreter.
pub open spec fn interpreter_option(options: Seq<(String, FrozenValue)>) -> Option<FrozenValue> {
    option(options, "interpreter"@)
}

/// Finds what runs a script, and refuses options that nothing reads.
pub fn script_runner(
    request: &ScriptRequest,
    executable: bool,
    defaults: &Vec<(String, TaskRunner)>,
) -> (r: Result<TaskRunner>)
    ensures
        reports(
            r,
            first(
                runner_problem(
                    request.entrypoint@,
                    interpreter_option(request.options@),
                    executable,
                    defaults@,
                ),
                unknown_problem(request.options@, script_options(), "script"@),
            ),
        ),
        r matches Ok(runner) ==> runner_is(
            runner,
            request.entrypoint@,
            interpreter_option(request.options@),
            defaults@,
        ),
{
    let runner = parse_task_runner(
        request.entrypoint.as_str(),
        get(&request.options, "interpreter"),
        executable,
        defaults,
    )?;
    let known = [
        "name",
        "at",
        "schedule",
        "scope",
        "python_helper",
        "logs",
        "files",
        "revision",
        "env",
        "timeout",
        "interpreter",
    ];
    assert(known@ =~= script_options());
    reject_unknown_options(&request.options, &known, "script")?;
    Ok(runner)
}

/// The command that must be on the search path before an action runs: a bare
/// command, where providers are configured.
pub open spec fn required_command(runner: TaskRunner, providers: bool) -> Option<Seq<char>> {
    match runner {
        TaskRunner::Interpreter { command, .. } => if providers && !command@.contains('/')
            && !command@.contains('\\') {
            Some(command@)
        } else {
            None
        },
        _ => None,
    }
}

/// The command that an action requires.
pub fn command_requirement(runner: &TaskRunner, providers: bool) -> (r: Option<String>)
    ensures
        match r {
            Some(command) => required_command(*runner, providers) == Some(command@),
            None => required_command(*runner, providers) is None,
        },
{
    match runner {
        TaskRunner::Interpreter { command, .. } => {
            if providers && !contains_char(command.as_str(), '/') && !contains_char(
                command.as_str(),
                '\\',
            ) {
                Some(command.clone())
            } else {
                None
            }
        },
        _ => None,
    }
}

/// The part of an identity that a name adds.
pub open spec fn name_mark(name: Option<String>) -> Seq<char> {
    match name {
        Some(name) => "#"@ + name@,
        None => Seq::empty(),
    }
}

fn mark_of(name: &Option<String>) -> (r: String)
    ensures
        r@ == name_mark(*name),
{
    match name {
        Some(name) => cat2("#", name.as_str()),
        None => String::new(),
    }
}

/// The identity of a script.
pub open spec fn script_identity(owner: Seq<char>, request: ScriptRequest) -> Seq<char> {
    owner + ":"@ + request.entrypoint@ + name_mark(request.name) + ":"@ + request.scope.wire()
        + ":"@ + request.at.name@
}

/// Whether a script of that identity is there.
pub open spec fn has_script(scripts: Seq<Script>, identity: Seq<char>) -> bool {
    exists|i: int| 0 <= i < scripts.len() && (#[trigger] scripts[i]).identity@ == identity
}

/// What is wrong with registering a script.
pub open spec fn script_problem(scripts: Seq<Script>, identity: Seq<char>) -> Option<Seq<char>> {
    problem_if(
        has_script(scripts, identity),
        "script `"@ + identity + "` is declared more than once; add a unique `name` option"@,
    )
}

/// Whether a script is the one that was declared.
pub open spec fn script_is(
    script: Script,
    owner: Seq<char>,
    order: u64,
    request: ScriptRequest,
    runner: TaskRunner,
    payloads: Seq<ScriptPayload>,
    trace: SourceTrace,
) -> bool {
    &&& script.identity@ == script_identity(owner, request)
    &&& script.declaration_order == order
    &&& script.owner@ == owner
    &&& script.entrypoint@ == "scripts/"@ + request.entrypoint@
    &&& script.params == request.params
    &&& script.runner == runner
    &&& script.python_helper == request.python_helper
    &&& script.logs == request.logs
    &&& script.at == request.at
    &&& script.schedule == request.schedule
    &&& script.scope == request.scope
    &&& script.payloads@ == payloads
    &&& script.revision == request.revision
    &&& script.env@ == request.env@
    &&& script.timeout_seconds == request.timeout_seconds
    &&& script.declared_at == trace
}

/// Registers a script.
pub fn declare_script(
    modules: &mut ModuleRegistry,
    actions: &mut ActionRegistry,
    request: ScriptRequest,
    runner: TaskRunner,
    payloads: Vec<ScriptPayload>,
    location: Location,
) -> (r: Result<()>)
    requires
        old(actions).next_action_order < u64::MAX,
    ensures
        reports(
            r,
            script_problem(
                old(actions).scripts@,
                script_identity(old(modules).owner(), request),
            ),
        ),
        r is Err ==> *final(actions) == *old(actions) && *final(modules) == *old(modules),
        r is Ok ==> {
            &&& final(actions).scripts@.len() == old(actions).scripts@.len() + 1
            &&& final(actions).scripts@.drop_last() == old(actions).scripts@
            &&& script_is(
                final(actions).scripts@.last(),
                old(modules).owner(),
                old(actions).next_action_order,
                request,
                runner,
                payloads@,
                location.trace,
            )
            &&& final(actions).next_action_order == old(actions).next_action_order + 1
            &&& final(actions).tasks == old(actions).tasks
            &&& final(actions).interpreters == old(actions).interpreters
            &&& final(actions).ladder == old(actions).ladder
            &&& *final(modules) == (ModuleRegistry { root_policy_started: true, ..*old(modules) })
        },
{
    let owner = modules.current_owner();
    let mark = mark_of(&request.name);
    let front = crate::text::cat4(
        owner.as_str(),
        ":",
        request.entrypoint.as_str(),
        mark.as_str(),
    );
    let identity = cat5(
        front.as_str(),
        ":",
        request.scope.wire_name(),
        ":",
        request.at.id(),
    );
    assert(identity@ =~= script_identity(owner@, request));
    let mut i: usize = 0;
    while i < actions.scripts.len()
        invariant
            0 <= i <= actions.scripts@.len(),
            *actions == *old(actions),
            *modules == *old(modules),
            forall|j: int| 0 <= j < i ==> (#[trigger] actions.scripts@[j]).identity@ != identity@,
            identity@ == script_identity(old(modules).owner(), request),
        decreases actions.scripts@.len() - i,
    {
        if same(actions.scripts[i].identity.as_str(), identity.as_str()) {
            assert(actions.scripts@[i as int].identity@ == identity@);
            return Err(
                WombatError::Configuration(
                    cat3(
                        "script `",
                        identity.as_str(),
                        "` is declared more than once; add a unique `name` option",
                    ),
                ),
            );
        }
        i += 1;
    }
    let declaration_order: u64 = actions.next_action_order;
    actions.next_action_order = declaration_order + 1;
    modules.root_policy_started = true;
    let entrypoint = cat2("scripts/", request.entrypoint.as_str());
    actions.scripts.push(
        Script {
            identity,
            declaration_order,
            owner,
            entrypoint,
            params: request.params,
            runner,
            python_helper: request.python_helper,
            logs: request.logs,
            at: request.at,
            schedule: request.schedule,
            scope: request.scope,
            payloads,
            revision: request.revision,
            env: request.env,
            timeout_seconds: request.timeout_seconds,
            declared_at: location.trace,
        },
    );
    assert(actions.scripts@.drop_last() =~= old(actions).scripts@);
    Ok(())
}

/// What is wrong with the cache policy of a task.
pub open spec fn cache_problem(options: Seq<(String, FrozenValue)>) -> Option<Seq<char>> {
    match option(options, "cache"@) {
        None => None,
        Some(FrozenValue::Boolean(_)) => None,
        Some(FrozenValue::Table(entries)) => first(
            optional_string_problem(entries@, "revision"@, "task cache"@),
            unknown_problem(entries@, seq!["revision"], "task cache"@),
        ),
        Some(_) => Some(
            "task `cache` must be boolean or a table containing optional `revision`"@,
        ),
    }
}

/// Whether a cache policy is what the option says.
pub open spec fn cache_is(cache: TaskCachePolicy, options: Seq<(String, FrozenValue)>) -> bool {
    match option(options, "cache"@) {
        Some(FrozenValue::Boolean(enabled)) => cache.enabled == enabled && cache.revision is None,
        Some(FrozenValue::Table(entries)) => cache.enabled && holds_option(
            cache.revision,
            entries@,
            "revision"@,
        ),
        _ => cache.enabled && cache.revision is None,
    }
}

fn take_cache(options: &Vec<(String, FrozenValue)>) -> (r: Result<TaskCachePolicy>)
    ensures
        reports(r, cache_problem(options@)),
        r matches Ok(cache) ==> cache_is(cache, options@),
{
    match get(options, "cache") {
        None => Ok(TaskCachePolicy { enabled: true, revision: None }),
        Some(FrozenValue::Boolean(enabled)) => Ok(
            TaskCachePolicy { enabled: *enabled, revision: None },
        ),
        Some(FrozenValue::Table(entries)) => {
            let revision = take_optional_string(entries, "revision", "task cache")?;
            let known = ["revision"];
            assert(known@ =~= seq!["revision"]);
            reject_unknown_options(entries, &known, "task cache")?;
            Ok(TaskCachePolicy { enabled: true, revision })
        },
        Some(_) => Err(
            WombatError::configuration(
                "task `cache` must be boolean or a table containing optional `revision`",
            ),
        ),
    }
}

/// The options that a task knows.
pub open spec fn task_options() -> Seq<&'static str> {
    seq!["name", "to", "python_helper", "logs", "cache", "at", "interpreter"]
}

/// What is wrong with the options of a task, apart from its runner.
pub open spec fn task_options_problem(options: Seq<(String, FrozenValue)>) -> Option<Seq<char>> {
    first(
        action_name_problem(options, "task"@, "task instance name"@),
        first(
            optional_string_problem(options, "to"@, "task"@),
            first(
                bool_problem(options, "python_helper"@, "task `python_helper` must be boolean"@),
                first(
                    logs_problem(options, "task `logs` must be `failure`, `always`, or `never`"@),
                    first(
                        cache_problem(options),
                        rung_problem(
                            options,
                            "at"@,
                            "task `at` must be a w.rungs handle or canonical rung string"@,
                        ),
                    ),
                ),
            ),
        ),
    )
}

/// What the options of a task ask for.
#[derive(Debug, PartialEq)]
pub struct TaskRequest {
    /// Its file beneath the tasks
    pub entrypoint: String,
    /// Its parameters
    pub params: FrozenValue,
    /// Its name
    pub name: Option<String>,
    /// Where its output goes
    pub explicit_target: Option<String>,
    /// Whether the Python helper is offered
    pub python_helper: bool,
    /// Which logs are kept
    pub logs: TaskLogPolicy,
    /// Whether its output is kept
    pub cache: TaskCachePolicy,
    /// The rung it runs at
    pub at: RungId,
    /// All of its options
    pub options: Vec<(String, FrozenValue)>,
}

/// Whether a request is what the options say.
pub open spec fn task_request_is(
    request: TaskRequest,
    entrypoint: Seq<char>,
    params: FrozenValue,
    options: Seq<(String, FrozenValue)>,
) -> bool {
    &&& request.entrypoint@ == entrypoint
    &&& request.params == params
    &&& holds_option(request.name, options, "name"@)
    &&& holds_option(request.explicit_target, options, "to"@)
    &&& request.python_helper == bool_option(options, "python_helper"@, true)
    &&& request.logs == logs_option(options)
    &&& cache_is(request.cache, options)
    &&& request.at.name@ == rung_option(options, "at"@, CoreRung::MaterialiseTasks)
    &&& request.options@ == options
}

/// Whether the outcome of reading a task is what it should be.
pub open spec fn task_outcome(
    r: Result<TaskRequest>,
    entrypoint: Seq<char>,
    params: Result<FrozenValue>,
    options: Result<FrozenValue>,
) -> bool {
    if relative_problem(entrypoint, "task entrypoint"@) is Some {
        reports(r, relative_problem(entrypoint, "task entrypoint"@))
    } else if params is Err {
        r is Err && r->Err_0 == params->Err_0
    } else if params_problem(
        params->Ok_0,
        "w.build.task() params must be a string-keyed table"@,
        "w.build.task() params exceed the 64 KiB argv limit; pass large or binary inputs through files"@,
    ) is Some {
        reports(
            r,
            params_problem(
                params->Ok_0,
                "w.build.task() params must be a string-keyed table"@,
                "w.build.task() params exceed the 64 KiB argv limit; pass large or binary inputs through files"@,
            ),
        )
    } else if options is Err {
        r is Err && r->Err_0 == options->Err_0
    } else {
        match options->Ok_0 {
            FrozenValue::Table(entries) => {
                &&& reports(r, task_options_problem(entries@))
                &&& r matches Ok(request) ==> task_request_is(
                    request,
                    entrypoint,
                    params->Ok_0,
                    entries@,
                )
            },
            _ => reports(r, Some("w.build.task() options must be a table"@)),
        }
    }
}

/// Reads the declaration of a task, given its parameters and options as far as
/// these could be frozen.
pub fn parse_task(
    entrypoint: &str,
    params: Result<FrozenValue>,
    options: Result<FrozenValue>,
) -> (r: Result<TaskRequest>)
    ensures
        task_outcome(r, entrypoint@, params, options),
{
    validate_relative_path(entrypoint, "task entrypoint")?;
    let params = match params {
        Ok(params) => params,
        Err(error) => {
            return Err(error);
        },
    };
    check_params(
        &params,
        "w.build.task() params must be a string-keyed table",
        "w.build.task() params exceed the 64 KiB argv limit; pass large or binary inputs through files",
    )?;
    let options = match options {
        Ok(FrozenValue::Table(entries)) => entries,
        Ok(_) => {
            return Err(WombatError::configuration("w.build.task() options must be a table"));
        },
        Err(error) => {
            return Err(error);
        },
    };
    let name = take_action_name(&options, "task", "task instance name")?;
    let explicit_target = take_optional_string(&options, "to", "task")?;
    let python_helper = take_bool(
        &options,
        "python_helper",
        true,
        "task `python_helper` must be boolean",
    )?;
    let logs = take_logs(&options, "task `logs` must be `failure`, `always`, or `never`")?;
    let cache = take_cache(&options)?;
    let at = take_rung(
        &options,
        "at",
        CoreRung::MaterialiseTasks,
        "task `at` must be a w.rungs handle or canonical rung string",
    )?;
    Ok(
        TaskRequest {
            entrypoint: entrypoint.to_owned(),
            params,
            name,
            explicit_target,
            python_helper,
            logs,
            cache,
            at,
            options,
        },
    )
}

/// Finds what runs a task, and refuses options that nothing reads.
pub fn task_runner(
    request: &TaskRequest,
    executable: bool,
    defaults: &Vec<(String, TaskRunner)>,
) -> (r: Result<TaskRunner>)
    ensures
        reports(
            r,
            first(
                runner_problem(
                    request.entrypoint@,
                    interpreter_option(request.options@),
                    executable,
                    defaults@,
                ),
                unknown_problem(request.options@, task_options(), "task"@),
            ),
        ),
        r matches Ok(runner) ==> runner_is(
            runner,
            request.entrypoint@,
            interpreter_option(request.options@),
            defaults@,
        ),
{
    let runner = parse_task_runner(
        request.entrypoint.as_str(),
        get(&request.options, "interpreter"),
        executable,
        defaults,
    )?;
    let known = ["name", "to", "python_helper", "logs", "cache", "at", "interpreter"];
    assert(known@ =~= task_options());
    reject_unknown_options(&request.options, &known, "task")?;
    Ok(runner)
}

/// The identity of a task.
pub open spec fn task_identity(owner: Seq<char>, request: TaskRequest) -> Seq<char> {
    owner + ":"@ + request.entrypoint@ + name_mark(request.name)
}

/// Whether a task of that identity is there.
pub open spec fn has_task(tasks: Seq<EvaluatedTask>, identity: Seq<char>) -> bool {
    exists|i: int| 0 <= i < tasks.len() && (#[trigger] tasks[i]).task.identity@ == identity
}

/// What is wrong with registering a task.
pub open spec fn task_problem(
    modules: ModuleRegistry,
    tasks: Seq<EvaluatedTask>,
    request: TaskRequest,
) -> Option<Seq<char>> {
    let identity = task_identity(modules.owner(), request);
    first(
        problem_if(
            has_task(tasks, identity),
            "task `"@ + identity + "` is declared more than once; add a unique `name` option"@,
        ),
        match request.explicit_target {
            Some(target) => explicit_root_problem(target@),
            None => match modules.base_target() {
                Some(base) => root_problem(base, "directory target path"@),
                None => None,
            },
        },
    )
}

/// Whether the output of a task goes where it was declared.
pub open spec fn task_root_is(
    root: Option<TaskTargetRoot>,
    modules: ModuleRegistry,
    request: TaskRequest,
) -> bool {
    match request.explicit_target {
        Some(target) => root matches Some(root) && root.path@ == target@ && (root.origin matches
            EvaluatedTargetOrigin::Explicit { declared } && declared@ == target@),
        None => match modules.base_target() {
            Some(base) => root matches Some(root) && root.path@ == base && (root.origin matches
                EvaluatedTargetOrigin::Inferred { source } && source@ == "module:"@
                + modules.owner()),
            None => root is None,
        },
    }
}

/// Whether a task is the one that was declared.
pub open spec fn task_is(
    task: EvaluatedTask,
    modules: ModuleRegistry,
    order: u64,
    request: TaskRequest,
    runner: TaskRunner,
    bytes: Seq<u8>,
    fingerprint: SourceFingerprint,
    trace: SourceTrace,
) -> bool {
    let made = task.task;
    &&& made.identity@ == task_identity(modules.owner(), request)
    &&& made.declaration_order == order
    &&& made.owner@ == modules.owner()
    &&& made.entrypoint@ == "tasks/"@ + request.entrypoint@
    &&& made.entrypoint_digest@ == digest_of(bytes)
    &&& made.params == request.params
    &&& made.runner == runner
    &&& made.python_helper == request.python_helper
    &&& made.logs == request.logs
    &&& made.cache == request.cache
    &&& made.at == request.at
    &&& task_root_is(made.target_root, modules, request)
    &&& made.declared_at == trace
    &&& made.outputs@.len() == 0
    &&& task.fingerprint == fingerprint
}

fn task_target_root(request: &TaskRequest, base: &SourceBase, owner: &str) -> (r: Result<
    Option<TaskTargetRoot>,
>)
    ensures
        reports(
            r,
            match request.explicit_target {
                Some(target) => explicit_root_problem(target@),
                None => match base.target {
                    Some(base) => root_problem(base@, "directory target path"@),
                    None => None,
                },
            },
        ),
        r matches Ok(root) ==> match request.explicit_target {
            Some(target) => root matches Some(root) && root.path@ == target@ && (
            root.origin matches EvaluatedTargetOrigin::Explicit { declared } && declared@
                == target@),
            None => match base.target {
                Some(base) => root matches Some(root) && root.path@ == base@ && (
                root.origin matches EvaluatedTargetOrigin::Inferred { source } && source@
                    == "module:"@ + owner@),
                None => root is None,
            },
        },
{
    let root = match &request.explicit_target {
        Some(target) => parse_explicit_target_root(target.as_str())?,
        None => match &base.target {
            Some(base) => infer_target_root(base.as_str(), cat2("module:", owner).as_str())?,
            None => {
                return Ok(None);
            },
        },
    };
    Ok(Some(TaskTargetRoot { path: root.path, origin: root.origin }))
}

/// Registers a task.
pub fn declare_task(
    modules: &mut ModuleRegistry,
    actions: &mut ActionRegistry,
    request: TaskRequest,
    runner: TaskRunner,
    bytes: &[u8],
    fingerprint: SourceFingerprint,
    location: Location,
) -> (r: Result<()>)
    requires
        old(modules).wf(),
        old(actions).next_action_order < u64::MAX,
    ensures
        reports(r, task_problem(*old(modules), old(actions).tasks@, request)),
        r is Err ==> *final(actions) == *old(actions) && *final(modules) == *old(modules),
        r is Ok ==> {
            &&& final(actions).tasks@.len() == old(actions).tasks@.len() + 1
            &&& final(actions).tasks@.drop_last() == old(actions).tasks@
            &&& task_is(
                final(actions).tasks@.last(),
                *old(modules),
                old(actions).next_action_order,
                request,
                runner,
                bytes@,
                fingerprint,
                location.trace,
            )
            &&& final(actions).next_action_order == old(actions).next_action_order + 1
            &&& final(actions).scripts == old(actions).scripts
            &&& final(actions).interpreters == old(actions).interpreters
            &&& final(actions).ladder == old(actions).ladder
            &&& *final(modules) == (ModuleRegistry { root_policy_started: true, ..*old(modules) })
        },
{
    let owner = modules.current_owner();
    let base = modules.active_location();
    let mark = mark_of(&request.name);
    let identity = crate::text::cat4(
        owner.as_str(),
        ":",
        request.entrypoint.as_str(),
        mark.as_str(),
    );
    let mut i: usize = 0;
    while i < actions.tasks.len()
        invariant
            0 <= i <= actions.tasks@.len(),
            *actions == *old(actions),
            *modules == *old(modules),
            forall|j: int| 0 <= j < i ==> (#[trigger] actions.tasks@[j]).task.identity@ != identity@,
            identity@ == task_identity(old(modules).owner(), request),
        decreases actions.tasks@.len() - i,
    {
        if same(actions.tasks[i].task.identity.as_str(), identity.as_str()) {
            assert(actions.tasks@[i as int].task.identity@ == identity@);
            return Err(
                WombatError::Configuration(
                    cat3(
                        "task `",
                        identity.as_str(),
                        "` is declared more than once; add a unique `name` option",
                    ),
                ),
            );
        }
        i += 1;
    }
    let target_root = task_target_root(&request, &base, owner.as_str())?;
    let declaration_order: u64 = actions.next_action_order;
    actions.next_action_order = declaration_order + 1;
    modules.root_policy_started = true;
    let entrypoint = cat2("tasks/", request.entrypoint.as_str());
    actions.tasks.push(
        EvaluatedTask {
            task: Task {
                identity,
                declaration_order,
                owner,
                entrypoint,
                entrypoint_digest: digest(bytes),
                params: request.params,
                runner,
                python_helper: request.python_helper,
                logs: request.logs,
                cache: request.cache,
                at: request.at,
                target_root,
                declared_at: location.trace,
                outputs: Vec::new(),
            },
            fingerprint,
        },
    );
    assert(actions.tasks@.drop_last() =~= old(actions).tasks@);
    Ok(())
}

/// The options of a generated artifact, as far as they could be read.
#[derive(Debug, PartialEq)]
pub struct GeneratedOptions {
    /// All keys
    pub keys: Vec<LuaValue>,
    /// The bytes of `content`, where it is a string
    pub content: Option<Vec<u8>>,
    /// The target
    pub to: Result<Option<String>>,
    /// Whether the artifact may be run
    pub executable: Result<Option<bool>>,
}

/// What is wrong with a key of a generated artifact.
pub open spec fn generated_key_problem(key: LuaValue) -> Option<Problem> {
    match key {
        LuaValue::Text(name) => configured(
            problem_if(
                name@ != "content"@ && name@ != "to"@ && name@ != "executable"@,
                "w.generate() does not support option `"@ + name@ + "`"@,
            ),
        ),
        LuaValue::Undecodable(reason) => Some(Problem::Lua(reason@)),
        _ => Some(Problem::Configuration("w.generate() option names must be strings"@)),
    }
}

/// What is wrong with the keys of a generated artifact.
pub open spec fn generated_keys_problem(keys: Seq<LuaValue>) -> Option<Problem>
    decreases keys.len(),
{
    if keys.len() == 0 {
        None
    } else {
        either(generated_keys_problem(keys.drop_last()), generated_key_problem(keys.last()))
    }
}

proof fn lemma_generated_keys(keys: Seq<LuaValue>, count: int)
    requires
        0 <= count <= keys.len(),
    ensures
        generated_keys_problem(keys.take(count)) is Some ==> generated_keys_problem(keys)
            == generated_keys_problem(keys.take(count)),
    decreases keys.len() - count,
{
    if count < keys.len() {
        lemma_generated_keys(keys, count + 1);
        assert(keys.take(count + 1).drop_last() =~= keys.take(count));
    } else {
        assert(keys.take(count) =~= keys);
    }
}

fn check_generated_keys(keys: &Vec<LuaValue>) -> (r: Result<()>)
    ensures
        settles(r, generated_keys_problem(keys@)),
{
    let mut i: usize = 0;
    assert(keys@.take(0) =~= Seq::empty());
    while i < keys.len()
        invariant
            0 <= i <= keys@.len(),
            generated_keys_problem(keys@.take(i as int)) is None,
        decreases keys@.len() - i,
    {
        proof {
            assert(keys@.take(i + 1).drop_last() =~= keys@.take(i as int));
            assert(keys@.take(i + 1).last() == keys@[i as int]);
            lemma_generated_keys(keys@, i + 1);
        }
        match &keys[i] {
            LuaValue::Text(name) => {
                let text = name.as_str();
                if !same(text, "content") && !same(text, "to") && !same(text, "executable") {
                    return Err(
                        WombatError::Configuration(
                            cat3("w.generate() does not support option `", text, "`"),
                        ),
                    );
                }
            },
            LuaValue::Undecodable(reason) => {
                return Err(WombatError::Lua(reason.clone()));
            },
            _ => {
                return Err(
                    WombatError::configuration("w.generate() option names must be strings"),
                );
            },
        }
        i += 1;
    }
    assert(keys@.take(i as int) =~= keys@);
    Ok(())
}

/// What is wrong with the target of a generated artifact.
pub open spec fn generated_target_problem(
    modules: ModuleRegistry,
    name: Seq<char>,
    to: Option<String>,
    place: Seq<char>,
) -> Option<Seq<char>> {
    match to {
        Some(target) => first(
            explicit_target_problem(target@),
            problem_if(
                absolute(target@),
                "w.generate() targets must remain deployment-root-relative; use w.install() for an explicit external file"@,
            ),
        ),
        None => match modules.base_target() {
            Some(base) => relative_problem(relative_join(base, name), "artifact target path"@),
            None => Some(
                "cannot infer a target for generated artifact `"@ + name
                    + "` from an unallocated module; provide `to` at "@ + place,
            ),
        },
    }
}

fn generated_target(
    base: &SourceBase,
    name: &str,
    to: &Option<String>,
    location: &Location,
    modules: Ghost<ModuleRegistry>,
) -> (r: Result<TargetPath>)
    requires
        match base.target {
            Some(target) => modules@.base_target() == Some(target@),
            None => modules@.base_target() is None,
        },
    ensures
        reports(r, generated_target_problem(modules@, name@, *to, location.trace.text())),
        r matches Ok(target) ==> match *to {
            Some(declared) => explicit_target(target, declared@),
            None => inferred_target(
                target,
                relative_join(modules@.base_target()->0, name@),
                "generated:"@ + name@,
            ),
        },
{
    match to {
        Some(declared) => {
            let target = parse_explicit_target(declared.as_str())?;
            if target.scope == TargetScope::Absolute {
                return Err(
                    WombatError::configuration(
                        "w.generate() targets must remain deployment-root-relative; use w.install() for an explicit external file",
                    ),
                );
            }
            Ok(target)
        },
        None => match &base.target {
            Some(base) => infer_target(
                join_relative(base.as_str(), name).as_str(),
                cat2("generated:", name).as_str(),
            ),
            None => Err(
                WombatError::Configuration(
                    crate::text::cat4(
                        "cannot infer a target for generated artifact `",
                        name,
                        "` from an unallocated module; provide `to` at ",
                        location.display().as_str(),
                    ),
                ),
            ),
        },
    }
}

/// The source that a generated artifact is shown with.
pub open spec fn generated_source(owner: Seq<char>, name: Seq<char>) -> Seq<char> {
    "generated/"@ + (if owner == crate::lua::state::root_module() {
        "root"@
    } else {
        owner
    }) + "/"@ + name
}

/// Whether an artifact is the generated one.
pub open spec fn generated_is(
    artifact: EvaluatedArtifact,
    modules: ModuleRegistry,
    name: Seq<char>,
    options: GeneratedOptions,
    trace: SourceTrace,
) -> bool {
    &&& artifact.kind == ArtifactKind::File
    &&& artifact.source@ == generated_source(modules.owner(), name)
    &&& artifact.source_origin matches SourceOrigin::Generated { name: n } && n@ == name
    &&& artifact.source_projection is None
    &&& artifact.production matches EvaluatedProduction::GeneratedLua { content, executable }
        && content@ == options.content->0@ && executable == (match options.executable->Ok_0 {
        Some(value) => value,
        None => false,
    })
    &&& match options.to->Ok_0 {
        Some(declared) => explicit_target(artifact.target, declared@),
        None => inferred_target(
            artifact.target,
            relative_join(modules.base_target()->0, name),
            "generated:"@ + name,
        ),
    }
    &&& artifact.fingerprint is None
    &&& artifact.owner@ == modules.owner()
    &&& artifact.declared_at == trace
}

/// Whether the outcome of declaring a generated artifact is what it should be.
pub open spec fn generated_outcome(
    r: Result<()>,
    modules: ModuleRegistry,
    name: Seq<char>,
    options: Option<GeneratedOptions>,
    place: Seq<char>,
) -> bool {
    if relative_problem(name, "generated artifact name"@) is Some {
        reports(r, relative_problem(name, "generated artifact name"@))
    } else {
        match options {
            None => reports(r, Some("w.generate() requires an options table"@)),
            Some(options) => if generated_keys_problem(options.keys@) is Some {
                settles(r, generated_keys_problem(options.keys@))
            } else if options.content is None {
                reports(r, Some("w.generate() requires binary-safe string `content`"@))
            } else if options.to is Err {
                r is Err && r->Err_0 == options.to->Err_0
            } else if options.executable is Err {
                r is Err && r->Err_0 == options.executable->Err_0
            } else {
                reports(r, generated_target_problem(modules, name, options.to->Ok_0, place))
            },
        }
    }
}

/// Registers a generated artifact.
pub fn declare_generated(
    modules: &mut ModuleRegistry,
    registry: &mut ArtifactRegistry,
    name: &str,
    options: Option<GeneratedOptions>,
    location: Location,
) -> (r: Result<()>)
    requires
        old(modules).wf(),
    ensures
        generated_outcome(r, *old(modules), name@, options, location.trace.text()),
        r is Err ==> *final(registry) == *old(registry) && *final(modules) == *old(modules),
        r is Ok ==> {
            &&& final(registry).artifacts@.len() == old(registry).artifacts@.len() + 1
            &&& final(registry).artifacts@.drop_last() == old(registry).artifacts@
            &&& generated_is(
                final(registry).artifacts@.last(),
                *old(modules),
                name@,
                options->0,
                location.trace,
            )
            &&& final(registry).policy == old(registry).policy
            &&& final(registry).directories == old(registry).directories
            &&& final(registry).notices == old(registry).notices
            &&& final(registry).selections == old(registry).selections
            &&& *final(modules) == (ModuleRegistry { root_policy_started: true, ..*old(modules) })
        },
{
    validate_relative_path(name, "generated artifact name")?;
    let options = match options {
        Some(options) => options,
        None => {
            return Err(WombatError::configuration("w.generate() requires an options table"));
        },
    };
    check_generated_keys(&options.keys)?;
    let content = match options.content {
        Some(content) => content,
        None => {
            return Err(
                WombatError::configuration("w.generate() requires binary-safe string `content`"),
            );
        },
    };
    let to = match options.to {
        Ok(to) => to,
        Err(error) => {
            return Err(error);
        },
    };
    let executable = match options.executable {
        Ok(Some(executable)) => executable,
        Ok(None) => false,
        Err(error) => {
            return Err(error);
        },
    };
    let owner = modules.current_owner();
    let base = modules.active_location();
    let target = generated_target(&base, name, &to, &location, Ghost(*modules))?;
    let shown = if same(owner.as_str(), "<root>") {
        "root".to_owned()
    } else {
        owner.clone()
    };
    modules.root_policy_started = true;
    registry.artifacts.push(
        EvaluatedArtifact {
            kind: ArtifactKind::File,
            source: crate::text::cat4("generated/", shown.as_str(), "/", name),
            source_origin: SourceOrigin::Generated { name: name.to_owned() },
            source_projection: None,
            production: EvaluatedProduction::GeneratedLua { content, executable },
            target,
            fingerprint: None,
            owner,
            declared_at: location.trace,
        },
    );
    assert(registry.artifacts@.drop_last() =~= old(registry).artifacts@);
    Ok(())
}

/// What is wrong with declared rungs.
pub open spec fn rungs_problem(value: FrozenValue, subject: Seq<char>) -> Option<Seq<char>>
    decreases value,
{
    match value {
        FrozenValue::Array(items) => rung_list_problem(items@, subject),
        FrozenValue::Table(entries) => problem_if(
            entries@.len() > 0,
            subject + " rungs must be an array"@,
        ),
        _ => Some(subject + " rungs must be an array"@),
    }
}

/// What is wrong with a list of declared rungs.
pub open spec fn rung_list_problem(items: Seq<FrozenValue>, subject: Seq<char>) -> Option<Seq<char>>
    decreases items,
{
    if items.len() == 0 {
        None
    } else {
        first(
            rung_list_problem(items.drop_last(), subject),
            rung_node_problem(items.last(), subject),
        )
    }
}

/// What is wrong with a declared rung.
pub open spec fn rung_node_problem(value: FrozenValue, subject: Seq<char>) -> Option<Seq<char>>
    decreases value,
{
    match value {
        FrozenValue::Table(node) => first(
            string_problem(node@, "id"@, "ladder rung"@),
            first(
                match option(node@, "children"@) {
                    Some(children) => {
                        proof {
                            lemma_option_within(node@, "children"@);
                        }
                        rungs_problem(children, "nested ladder"@)
                    },
                    None => None,
                },
                unknown_problem(node@, seq!["id", "children"], "ladder rung"@),
            ),
        ),
        _ => Some(subject + " entries must be rung values"@),
    }
}

/// Whether rungs are those that were declared.
pub open spec fn rungs_are(rungs: Seq<LadderRung>, value: FrozenValue) -> bool
    decreases value,
{
    match value {
        FrozenValue::Array(items) => rung_list_is(rungs, items@),
        _ => rungs.len() == 0,
    }
}

/// Whether a list of rungs is the one that was declared.
pub open spec fn rung_list_is(rungs: Seq<LadderRung>, items: Seq<FrozenValue>) -> bool
    decreases items,
{
    &&& rungs.len() == items.len()
    &&& items.len() > 0 ==> rung_list_is(rungs.drop_last(), items.drop_last()) && rung_node_is(
        rungs.last(),
        items.last(),
    )
}

/// Whether a rung is the one that was declared.
pub open spec fn rung_node_is(rung: LadderRung, value: FrozenValue) -> bool
    decreases value,
{
    match value {
        FrozenValue::Table(node) => {
            &&& rung.id.name@ == string_option(node@, "id"@)
            &&& match option(node@, "children"@) {
                Some(children) => {
                    proof {
                        lemma_option_within(node@, "children"@);
                    }
                    rungs_are(rung.children@, children)
                },
                None => rung.children@.len() == 0,
            }
        },
        _ => false,
    }
}

proof fn lemma_rung_list(items: Seq<FrozenValue>, subject: Seq<char>, count: int)
    requires
        0 <= count <= items.len(),
    ensures
        rung_list_problem(items.take(count), subject) is Some ==> rung_list_problem(items, subject)
            == rung_list_problem(items.take(count), subject),
    decreases items.len() - count,
{
    if count < items.len() {
        lemma_rung_list(items, subject, count + 1);
        assert(items.take(count + 1).drop_last() =~= items.take(count));
    } else {
        assert(items.take(count) =~= items);
    }
}

/// Reads a rung of a ladder.
fn parse_ladder_rung(value: &FrozenValue, subject: &str) -> (r: Result<LadderRung>)
    ensures
        reports(r, rung_node_problem(*value, subject@)),
        r matches Ok(rung) ==> rung_node_is(rung, *value),
    decreases *value, 0nat,
{
    match value {
        FrozenValue::Table(node) => {
            let name = take_string(node, "id", "ladder rung")?;
            let children = match get(node, "children") {
                Some(children) => {
                    proof {
                        lemma_option_within(node@, "children"@);
                        assert(decreases_to!(*value => value->Table_0));
                        assert(decreases_to!(value->Table_0 => value->Table_0@));
                    }
                    parse_ladder_rungs(children, "nested ladder")?
                },
                None => Vec::new(),
            };
            let known = ["id", "children"];
            assert(known@ =~= seq!["id", "children"]);
            reject_unknown_options(node, &known, "ladder rung")?;
            Ok(LadderRung { id: RungId { name }, children })
        },
        _ => Err(WombatError::Configuration(cat2(subject, " entries must be rung values"))),
    }
}

/// Reads the rungs of a ladder.
pub fn parse_ladder_rungs(value: &FrozenValue, subject: &str) -> (r: Result<Vec<LadderRung>>)
    ensures
        reports(r, rungs_problem(*value, subject@)),
        r matches Ok(rungs) ==> rungs_are(rungs@, *value),
    decreases *value, 1nat,
{
    let mut rungs: Vec<LadderRung> = Vec::new();
    match value {
        FrozenValue::Array(items) => {
            let mut i: usize = 0;
            assert(items@.take(0) =~= Seq::empty());
            while i < items.len()
                invariant
                    0 <= i <= items@.len(),
                    *value == FrozenValue::Array(*items),
                    rung_list_problem(items@.take(i as int), subject@) is None,
                    rung_list_is(rungs@, items@.take(i as int)),
                decreases items@.len() - i,
            {
                proof {
                    assert(items@.take(i + 1).drop_last() =~= items@.take(i as int));
                    assert(items@.take(i + 1).last() == items@[i as int]);
                    lemma_rung_list(items@, subject@, i + 1);
                    assert(decreases_to!(*value => value->Array_0));
                    assert(decreases_to!(value->Array_0 => value->Array_0@));
                    assert(decreases_to!(items@ => items@[i as int]));
                }
                let ghost held = rungs@;
                assert(rung_list_problem(items@.take(i + 1), subject@) == first(
                    rung_list_problem(items@.take(i as int), subject@),
                    rung_node_problem(items@[i as int], subject@),
                ));
                let rung = parse_ladder_rung(&items[i], subject)?;
                rungs.push(rung);
                assert(rungs@.drop_last() =~= held);
                i += 1;
            }
            assert(items@.take(i as int) =~= items@);
            Ok(rungs)
        },
        FrozenValue::Table(entries) => {
            if entries.len() > 0 {
                return Err(
                    WombatError::Configuration(cat2(subject, " rungs must be an array")),
                );
            }
            Ok(rungs)
        },
        _ => Err(WombatError::Configuration(cat2(subject, " rungs must be an array"))),
    }
}

/// Says of the file that an action runs, where that is no regular one, where it must be.
pub fn note_action_file(
    found: Result<SourceFingerprint>,
    subject: &str,
    entrypoint: &str,
    directory: &str,
) -> (r: std::result::Result<SourceFingerprint, Noted>)
    ensures
        match found {
            Ok(fingerprint) => r is Ok && r->Ok_0 == fingerprint,
            Err(error) => settles_noted(
                r,
                Some(Problem::Given(error)),
                Some(
                    subject@ + " `"@ + entrypoint@ + "` must be a regular file beneath `"@
                        + directory@ + "/`"@,
                ),
            ),
        },
{
    match found {
        Ok(fingerprint) => Ok(fingerprint),
        Err(error) => {
            let note = cat6(
                subject,
                " `",
                entrypoint,
                "` must be a regular file beneath `",
                directory,
                "/`",
            );
            Err(Noted { error, note: Some(note) })
        },
    }
}

/// What is wrong with when a ladder is selected.
pub open spec fn ladder_problem(
    modules: ModuleRegistry,
    actions: ActionRegistry,
    shown: Seq<char>,
) -> Option<Seq<char>> {
    first(
        problem_if(
            modules.active() is Some,
            "w.ladder() may only be called from root configuration at "@ + shown,
        ),
        problem_if(
            actions.ladder is Some,
            "root configuration selects more than one ladder at "@ + shown,
        ),
    )
}

fn check_ladder(modules: &ModuleRegistry, actions: &ActionRegistry, location: &Location) -> (r:
    Result<()>)
    ensures
        reports(r, ladder_problem(*modules, *actions, location.trace.text())),
{
    if modules.active_module().is_some() {
        return Err(
            WombatError::Configuration(
                cat2(
                    "w.ladder() may only be called from root configuration at ",
                    location.display().as_str(),
                ),
            ),
        );
    }
    if actions.ladder.is_some() {
        return Err(
            WombatError::Configuration(
                cat2(
                    "root configuration selects more than one ladder at ",
                    location.display().as_str(),
                ),
            ),
        );
    }
    Ok(())
}

/// Selects the ladder of the project, as far as it could be made. Where it could not, a
/// note says where it was declared.
pub fn declare_ladder(
    modules: &mut ModuleRegistry,
    actions: &mut ActionRegistry,
    ladder: Result<ExecutionLadder>,
    location: &Location,
) -> (r: std::result::Result<(), Noted>)
    ensures
        match ladder {
            Err(error) => settles_noted(
                r,
                Some(Problem::Given(error)),
                Some("declared at "@ + location.trace.text()),
            ),
            Ok(_) => settles_noted(
                r,
                configured(ladder_problem(*old(modules), *old(actions), location.trace.text())),
                None,
            ),
        },
        r is Err ==> *final(actions) == *old(actions) && *final(modules) == *old(modules),
        r is Ok ==> {
            &&& *final(modules) == (ModuleRegistry { root_policy_started: true, ..*old(modules) })
            &&& *final(actions) == (ActionRegistry { ladder: Some(ladder->Ok_0), ..*old(actions) })
        },
{
    let ladder = match ladder {
        Ok(ladder) => ladder,
        Err(error) => {
            let note = cat2("declared at ", location.display().as_str());
            return Err(Noted { error, note: Some(note) });
        },
    };
    unnoted(check_ladder(modules, actions, location))?;
    modules.root_policy_started = true;
    actions.ladder = Some(ladder);
    Ok(())
}

} // verus!
