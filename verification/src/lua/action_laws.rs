//! What the declarations of tasks and scripts promise.
use vstd::prelude::*;
use vstd::string::*;

use crate::error::Result;
use crate::lua::actions::{
    cache_is, configured_at, extension, has_configured, name_mark, runner_is, runner_problem,
    rung_list_is, rung_node_is, script_identity, script_outcome, script_request_is, task_identity,
    task_outcome, task_request_is, ScriptRequest, TaskRequest,
};
use crate::lua::options::{is_known, option};
use crate::model::frozen::FrozenValue;
use crate::model::ladder::LadderRung;
use crate::model::manifest::{InterpreterFamily, TaskRunner};
use crate::model::path::valid_relative;
use crate::text::{lemma_pieces, lemma_pieces_concat, lemma_pieces_single, pieces, views};

verus! {

/// An option is found where it was first given, and is missing where it was not given.
pub proof fn law_options_are_found(
    options: Seq<(String, FrozenValue)>,
    key: Seq<char>,
    at: int,
)
    ensures
        0 <= at < options.len() && options[at].0@ == key && (forall|j: int|
            0 <= j < at ==> (#[trigger] options[j]).0@ != key) ==> option(options, key) == Some(
            options[at].1,
        ),
        option(options, key) is None <==> forall|j: int|
            0 <= j < options.len() ==> (#[trigger] options[j]).0@ != key,
    decreases options.len(),
{
    if options.len() > 0 {
        let rest = options.skip(1);
        law_options_are_found(rest, key, at - 1);
        assert forall|j: int| 0 <= j < rest.len() implies #[trigger] rest[j] == options[j + 1] by {}
        if options[0].0@ != key {
            if option(options, key) is None {
                assert forall|j: int| 0 <= j < options.len() implies (
                #[trigger] options[j]).0@ != key by {
                    if j > 0 {
                        assert(rest[j - 1].0@ != key);
                    }
                }
            } else {
                let j = choose|j: int| 0 <= j < rest.len() && (#[trigger] rest[j]).0@ == key;
                assert(options[j + 1].0@ == key);
            }
        }
    }
}

/// Whether a word stands for what was said of an option: the word that was said or, where
/// nothing was, the usual one.
pub open spec fn word_of(said: Option<FrozenValue>, usual: Seq<char>, word: Seq<char>) -> bool {
    match said {
        Some(FrozenValue::String(text)) => word == text@,
        Some(_) => false,
        None => word == usual,
    }
}

/// Whether a switch is as it was said, or on where nothing was.
pub open spec fn switch_of(said: Option<FrozenValue>, switch: bool) -> bool {
    match said {
        Some(FrozenValue::Boolean(value)) => switch == value,
        Some(_) => false,
        None => switch,
    }
}

/// Whether text is what was said, and absent where nothing was.
pub open spec fn text_of(said: Option<FrozenValue>, text: Option<String>) -> bool {
    match said {
        Some(FrozenValue::String(value)) => text matches Some(held) && held@ == value@,
        Some(_) => false,
        None => text is None,
    }
}

/// A script does what its options say: each word, switch, text and number is the one that
/// was given, and what was not given is as usual.
pub proof fn law_scripts_follow_their_options(
    r: Result<ScriptRequest>,
    entrypoint: Seq<char>,
    params: Result<FrozenValue>,
    options: Result<FrozenValue>,
)
    requires
        script_outcome(r, entrypoint, params, options),
        r is Ok,
    ensures
        valid_relative(entrypoint),
        params is Ok && params->Ok_0 is Table,
        options matches Ok(FrozenValue::Table(_)),
        ({
            let request = r->Ok_0;
            let said = options->Ok_0->Table_0@;
            &&& request.entrypoint@ == entrypoint
            &&& request.params == params->Ok_0
            &&& text_of(option(said, "name"@), request.name)
            &&& word_of(option(said, "at"@), "materialise.before"@, request.at.name@)
            &&& word_of(option(said, "schedule"@), "always"@, request.schedule.wire())
            &&& word_of(option(said, "scope"@), "target"@, request.scope.wire())
            &&& word_of(option(said, "logs"@), "failure"@, request.logs.wire())
            &&& switch_of(option(said, "python_helper"@), request.python_helper)
            &&& text_of(option(said, "revision"@), request.revision)
            &&& match option(said, "timeout"@) {
                Some(FrozenValue::Integer(seconds)) => seconds > 0 && request.timeout_seconds
                    == Some(seconds as u64),
                Some(_) => false,
                None => request.timeout_seconds is None,
            }
            &&& match option(said, "files"@) {
                Some(FrozenValue::Array(items)) => request.files@.len() == items@.len() && forall|
                    i: int,
                |
                    0 <= i < items@.len() ==> (#[trigger] items@[i]) == FrozenValue::String(
                        request.files@[i],
                    ) || (items@[i] matches FrozenValue::String(text) && text@
                        == request.files@[i]@),
                Some(_) => false,
                None => request.files@.len() == 0,
            }
            &&& match option(said, "env"@) {
                Some(FrozenValue::Table(entries)) => request.env@.len() == entries@.len() && forall|
                    i: int,
                |
                    0 <= i < entries@.len() ==> (#[trigger] entries@[i]).0@ == request.env@[i].0@
                        && !entries@[i].0@.contains('=') && (
                    entries@[i].1 matches FrozenValue::String(text) && text@
                        == request.env@[i].1@),
                Some(_) => false,
                None => request.env@.len() == 0,
            }
        }),
{
    let request = r->Ok_0;
    let said = options->Ok_0->Table_0@;
    assert(script_request_is(request, entrypoint, params->Ok_0, said));
    lemma_words();
    lemma_known3(option(said, "schedule"@), "always", "once", "onchange");
    lemma_known3(option(said, "logs"@), "failure", "always", "never");
    lemma_known2(option(said, "scope"@), "target", "host");
    match option(said, "files"@) {
        Some(FrozenValue::Array(items)) => {
            assert(views(request.files@).len() == items@.len());
            assert forall|i: int| 0 <= i < items@.len() implies (#[trigger] items@[i])
                == FrozenValue::String(request.files@[i]) || (
            items@[i] matches FrozenValue::String(text) && text@ == request.files@[i]@) by {
                assert(views(request.files@)[i] == request.files@[i]@);
            }
        },
        _ => {
            assert(views(request.files@).len() == request.files@.len());
        },
    }
    match option(said, "env"@) {
        Some(FrozenValue::Table(entries)) => {
            assert forall|i: int| 0 <= i < entries@.len() implies (#[trigger] entries@[i]).0@
                == request.env@[i].0@ && !entries@[i].0@.contains('=') && (
            entries@[i].1 matches FrozenValue::String(text) && text@ == request.env@[i].1@) by {
                assert(request.env@[i].0@ == entries@[i].0@);
            }
        },
        _ => {},
    }
}

/// A task does what its options say; what was not given is as usual, and what is made is
/// kept for the next time unless `cache` says otherwise.
pub proof fn law_tasks_follow_their_options(
    r: Result<TaskRequest>,
    entrypoint: Seq<char>,
    params: Result<FrozenValue>,
    options: Result<FrozenValue>,
)
    requires
        task_outcome(r, entrypoint, params, options),
        r is Ok,
    ensures
        valid_relative(entrypoint),
        params is Ok && params->Ok_0 is Table,
        options matches Ok(FrozenValue::Table(_)),
        ({
            let request = r->Ok_0;
            let said = options->Ok_0->Table_0@;
            &&& request.entrypoint@ == entrypoint
            &&& request.params == params->Ok_0
            &&& text_of(option(said, "name"@), request.name)
            &&& text_of(option(said, "to"@), request.explicit_target)
            &&& word_of(option(said, "at"@), "materialise.tasks"@, request.at.name@)
            &&& word_of(option(said, "logs"@), "failure"@, request.logs.wire())
            &&& switch_of(option(said, "python_helper"@), request.python_helper)
            &&& match option(said, "cache"@) {
                Some(FrozenValue::Boolean(kept)) => request.cache.enabled == kept
                    && request.cache.revision is None,
                Some(FrozenValue::Table(entries)) => request.cache.enabled && text_of(
                    option(entries@, "revision"@),
                    request.cache.revision,
                ),
                Some(_) => false,
                None => request.cache.enabled && request.cache.revision is None,
            }
        }),
{
    let request = r->Ok_0;
    let said = options->Ok_0->Table_0@;
    assert(task_request_is(request, entrypoint, params->Ok_0, said));
    lemma_words();
    lemma_known3(option(said, "logs"@), "failure", "always", "never");
    assert(cache_is(request.cache, said));
}

proof fn lemma_words()
    ensures
        "always"@ != "once"@,
        "always"@ != "onchange"@,
        "once"@ != "onchange"@,
        "failure"@ != "always"@,
        "failure"@ != "never"@,
        "always"@ != "never"@,
        "target"@ != "host"@,
{
    reveal_strlit("always");
    reveal_strlit("once");
    reveal_strlit("onchange");
    reveal_strlit("failure");
    reveal_strlit("never");
    reveal_strlit("target");
    reveal_strlit("host");
    assert("always"@.len() == 6 && "once"@.len() == 4 && "onchange"@.len() == 8 && "failure"@.len()
        == 7 && "never"@.len() == 5 && "target"@.len() == 6 && "host"@.len() == 4);
}

proof fn lemma_known3(said: Option<FrozenValue>, a: &'static str, b: &'static str, c: &'static str)
    ensures
        said matches Some(FrozenValue::String(text)) ==> (is_known(text@, seq![a, b, c]) ==> text@
            == a@ || text@ == b@ || text@ == c@),
{
}

proof fn lemma_known2(said: Option<FrozenValue>, a: &'static str, b: &'static str)
    ensures
        said matches Some(FrozenValue::String(text)) ==> (is_known(text@, seq![a, b]) ==> text@
            == a@ || text@ == b@),
{
}

/// The extension of a file is what stands behind its last dot.
pub proof fn law_extensions_stand_behind_the_last_dot(
    directory: Seq<char>,
    name: Seq<char>,
    ending: Seq<char>,
)
    requires
        name.len() > 0,
        !name.contains('/'),
        !ending.contains('/'),
        !ending.contains('.'),
    ensures
        extension(name + "."@ + ending) == Some(ending),
        extension(directory + "/"@ + name + "."@ + ending) == Some(ending),
{
    reveal_strlit(".");
    reveal_strlit("/");
    let file = name.push('.') + ending;
    assert(name + "."@ + ending =~= file);
    assert(directory + "/"@ + name + "."@ + ending =~= directory.push('/') + file);
    assert(!file.contains('/'));
    lemma_pieces_single(file, '/');
    lemma_pieces_concat(directory, file, '/');
    lemma_pieces(directory, '/');
    assert(pieces(directory.push('/') + file, '/').last() == file);
    lemma_pieces_concat(name, ending, '.');
    lemma_pieces_single(ending, '.');
    lemma_pieces(name, '.');
    let parts = pieces(file, '.');
    assert(parts.last() == ending);
    if parts.len() == 2 {
        assert(pieces(name, '.').len() == 1);
        if !name.contains('.') {
            lemma_pieces_single(name, '.');
        } else {
            lemma_dotted(name);
        }
    }
}

proof fn lemma_dotted(text: Seq<char>)
    requires
        text.contains('.'),
    ensures
        pieces(text, '.').len() > 1,
    decreases text.len(),
{
    let front = text.drop_last();
    if text.last() == '.' {
        lemma_pieces(front, '.');
    } else {
        let i = choose|i: int| 0 <= i < text.len() && text[i] == '.';
        assert(front[i] == '.');
        lemma_dotted(front);
    }
}

/// Whether a runner is an interpreter, called by this name without arguments.
pub open spec fn plain_interpreter(
    runner: TaskRunner,
    kind: InterpreterFamily,
    name: Seq<char>,
) -> bool {
    runner matches TaskRunner::Interpreter { family, command, args, .. } && family == kind
        && command@ == name && args@.len() == 0
}

/// An action is run by what its file asks for: Python, the shell, Bash and Lua by the
/// ending of its name, the file itself where it has no ending. A configured interpreter
/// takes their place, and one that was named for the action takes the place of all.
pub proof fn law_runners_follow_the_file(
    runner: TaskRunner,
    entrypoint: Seq<char>,
    configured: Option<FrozenValue>,
    executable: bool,
    defaults: Seq<(String, TaskRunner)>,
)
    requires
        runner_problem(entrypoint, configured, executable, defaults) is None,
        runner_is(runner, entrypoint, configured, defaults),
    ensures
        configured matches Some(FrozenValue::String(command)) ==> (
        runner matches TaskRunner::Interpreter { command: held, args, .. } && held@ == command@
            && args@.len() == 0),
        configured matches Some(FrozenValue::Table(values)) ==> (
        runner matches TaskRunner::Interpreter { command: held, .. } && (option(
            values@,
            "command"@,
        ) matches Some(FrozenValue::String(command)) && held@ == command@)),
        configured is None ==> match extension(entrypoint) {
            None => runner is Direct && executable,
            Some(ending) => {
                &&& ending == "py"@ || ending == "sh"@ || ending == "bash"@ || ending == "lua"@
                &&& ending == "py"@ ==> follows(
                    defaults,
                    "python"@,
                    runner,
                    plain_interpreter(runner, InterpreterFamily::Python, "python3"@),
                )
                &&& ending == "sh"@ ==> follows(
                    defaults,
                    "shell"@,
                    runner,
                    plain_interpreter(runner, InterpreterFamily::PosixShell, "sh"@),
                )
                &&& ending == "bash"@ ==> follows(
                    defaults,
                    "bash"@,
                    runner,
                    plain_interpreter(runner, InterpreterFamily::Bash, "bash"@),
                )
                &&& ending == "lua"@ ==> follows(defaults, "lua"@, runner, runner is EmbeddedLua)
            },
        },
{
    reveal_strlit("py");
    reveal_strlit("sh");
    reveal_strlit("bash");
    reveal_strlit("lua");
    reveal_strlit("python");
    reveal_strlit("shell");
    assert("py"@[0] == 'p' && "sh"@[0] == 's' && "py"@.len() == 2 && "sh"@.len() == 2
        && "bash"@.len() == 4 && "lua"@.len() == 3 && "python"@.len() == 6 && "shell"@.len() == 5);
    if runner is Interpreter {
        assert(views(runner->args@).len() == runner->args@.len());
    }
    if configured is None && extension(entrypoint) is Some {
        lemma_follows(defaults, "python"@);
        lemma_follows(defaults, "shell"@);
        lemma_follows(defaults, "bash"@);
        lemma_follows(defaults, "lua"@);
    }
}

/// Whether a runner is the first one that was configured under a name or, where none was,
/// the usual one.
pub open spec fn follows(
    defaults: Seq<(String, TaskRunner)>,
    name: Seq<char>,
    runner: TaskRunner,
    usual: bool,
) -> bool {
    if exists|i: int| 0 <= i < defaults.len() && (#[trigger] defaults[i]).0@ == name {
        exists|i: int|
            0 <= i < defaults.len() && (#[trigger] defaults[i]).0@ == name && runner.same(
                defaults[i].1,
            ) && forall|j: int| 0 <= j < i ==> (#[trigger] defaults[j]).0@ != name
    } else {
        usual
    }
}

proof fn lemma_follows(defaults: Seq<(String, TaskRunner)>, name: Seq<char>)
    ensures
        has_configured(defaults, name) <==> exists|i: int|
            0 <= i < defaults.len() && (#[trigger] defaults[i]).0@ == name,
{
    if has_configured(defaults, name) {
        let i = choose|i: int| configured_at(defaults, name, i);
        assert(defaults[i].0@ == name);
    }
    if exists|i: int| 0 <= i < defaults.len() && (#[trigger] defaults[i]).0@ == name {
        let i = choose|i: int| 0 <= i < defaults.len() && (#[trigger] defaults[i]).0@ == name;
        lemma_first_configured(defaults, name, i);
    }
}

proof fn lemma_first_configured(defaults: Seq<(String, TaskRunner)>, name: Seq<char>, at: int)
    requires
        0 <= at < defaults.len(),
        defaults[at].0@ == name,
    ensures
        has_configured(defaults, name),
    decreases at,
{
    if forall|j: int| 0 <= j < at ==> (#[trigger] defaults[j]).0@ != name {
        assert(configured_at(defaults, name, at));
    } else {
        let j = choose|j: int| 0 <= j < at && (#[trigger] defaults[j]).0@ == name;
        lemma_first_configured(defaults, name, j);
    }
}

/// Scripts of one file are told apart by their names, their scopes and the rungs that they
/// stand at.
pub proof fn law_scripts_are_told_apart(
    owner: Seq<char>,
    a: ScriptRequest,
    b: ScriptRequest,
)
    requires
        a.entrypoint@ == b.entrypoint@,
        name_mark(a.name) == name_mark(b.name),
        script_identity(owner, a) == script_identity(owner, b),
    ensures
        a.scope == b.scope,
        a.at.name@ == b.at.name@,
{
    reveal_strlit("target");
    reveal_strlit("host");
    reveal_strlit(":");
    let x = script_identity(owner, a);
    let y = script_identity(owner, b);
    let front = owner + ":"@ + a.entrypoint@ + name_mark(a.name) + ":"@;
    assert(x =~= front + a.scope.wire() + ":"@ + a.at.name@);
    assert(y =~= front + b.scope.wire() + ":"@ + b.at.name@);
    assert(x[front.len() as int] == a.scope.wire()[0]);
    assert(y[front.len() as int] == b.scope.wire()[0]);
    assert("target"@[0] == 't' && "host"@[0] == 'h');
    let lead = front + a.scope.wire() + ":"@;
    assert(a.scope == b.scope);
    assert(x.skip(lead.len() as int) =~= a.at.name@);
    assert(y.skip(lead.len() as int) =~= b.at.name@);
}

/// Tasks of one file are told apart by their names.
pub proof fn law_tasks_are_told_apart(owner: Seq<char>, a: TaskRequest, b: TaskRequest)
    requires
        a.entrypoint@ == b.entrypoint@,
        task_identity(owner, a) == task_identity(owner, b),
    ensures
        a.name is Some <==> b.name is Some,
        a.name is Some ==> (a.name->0)@ == (b.name->0)@,
{
    reveal_strlit("#");
    let lead = owner + ":"@ + a.entrypoint@;
    let x = task_identity(owner, a);
    let y = task_identity(owner, b);
    assert(x.skip(lead.len() as int) =~= name_mark(a.name));
    assert(y.skip(lead.len() as int) =~= name_mark(b.name));
    assert(name_mark(a.name) == name_mark(b.name));
    if a.name is Some && b.name is Some {
        assert(name_mark(a.name).skip(1) =~= (a.name->0)@);
        assert(name_mark(b.name).skip(1) =~= (b.name->0)@);
    }
}

/// A ladder has the rungs that were declared, one for one and in their order.
pub proof fn law_ladders_have_the_declared_rungs(
    rungs: Seq<LadderRung>,
    items: Seq<FrozenValue>,
    at: int,
)
    requires
        rung_list_is(rungs, items),
        0 <= at < items.len(),
    ensures
        rungs.len() == items.len(),
        items[at] matches FrozenValue::Table(node) && {
            &&& match option(node@, "id"@) {
                Some(FrozenValue::String(id)) => rungs[at].id.name@ == id@,
                _ => true,
            }
            &&& match option(node@, "children"@) {
                Some(FrozenValue::Array(children)) => rung_list_is(
                    rungs[at].children@,
                    children@,
                ),
                _ => rungs[at].children@.len() == 0,
            }
        },
    decreases items.len(),
{
    if at < items.len() - 1 {
        law_ladders_have_the_declared_rungs(rungs.drop_last(), items.drop_last(), at);
        assert(items.drop_last()[at] == items[at]);
        assert(rungs.drop_last()[at] == rungs[at]);
    } else {
        assert(rung_node_is(rungs[at], items[at]));
    }
}

} // verus!
