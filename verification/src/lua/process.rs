//! Processes that evaluation runs, and what is kept of them.
use vstd::prelude::*;
use vstd::string::*;

use crate::digest::{digest, digest_of};
use crate::error::{
    configured, either, first, is_process, problem_if, reports, settles, Problem, Result,
    WombatError,
};
use crate::lua::state::Location;
use crate::model::manifest::{ProcessEnvironmentChange, ProcessInvocation, ProcessObservation};
use crate::model::path::{absolute, is_absolute, join_path, path_join};
use crate::number::{decimal, decimal_text};
use crate::order::{before, precedes};
use crate::text::{
    cat2, cat3, cat4, contains_char, decode_lossy, decoded_lossy, pieces, same, split, views,
};

verus! {

/// The most output that is kept where nothing else is said.
pub const DEFAULT_MAX_PROCESS_OUTPUT: u64 = 1048576;

/// The most output that can be kept.
pub const MAX_PROCESS_OUTPUT: u64 = 67108864;

/// A value that a variable of a process is given.
#[derive(Debug, PartialEq)]
pub enum VariableValue {
    /// `false`: the variable is removed
    Removed,
    /// Text
    Text(String),
    /// A string of other bytes, with what decoding it says
    Undecodable(String),
    /// Something else
    Other,
}

/// A value of an option of a process.
#[derive(Debug, PartialEq)]
pub enum ProcessValue {
    /// A string: its bytes, and the text they encode or what decoding them says
    Bytes {
        /// The bytes
        bytes: Vec<u8>,
        /// The text
        text: std::result::Result<String, String>,
    },
    /// A truth value
    Boolean(bool),
    /// A whole number, and so many seconds rounded to milliseconds
    Integer {
        /// The number
        value: i64,
        /// The milliseconds
        milliseconds: u64,
    },
    /// Another number, with the milliseconds that so many seconds are where it is
    /// positive and finite
    Number(Option<u64>),
    /// A table: its pairs, or what reading the next of them says
    Table(Vec<std::result::Result<(String, VariableValue), String>>),
    /// Something else
    Other,
}

/// The options of a process.
#[derive(Debug, PartialEq)]
pub struct ProcessOptions {
    /// Where it runs
    pub cwd: String,
    /// As it was declared
    pub cwd_display: String,
    /// What it sees changed
    pub environment: Vec<ProcessEnvironmentChange>,
    /// Its input
    pub stdin: Option<Vec<u8>>,
    /// Its time limit
    pub timeout_ms: Option<u64>,
    /// The most output kept
    pub max_output: u64,
    /// Whether it is hidden from views
    pub sensitive: bool,
    /// The shell
    pub shell: Option<String>,
}

/// What options say.
pub ghost struct OptionsView {
    /// Where the process runs
    pub cwd: Seq<char>,
    /// As it was declared
    pub cwd_display: Seq<char>,
    /// What it sees changed
    pub environment: Seq<Change>,
    /// Its input
    pub stdin: Option<Seq<u8>>,
    /// Its time limit
    pub timeout_ms: Option<u64>,
    /// The most output kept
    pub max_output: u64,
    /// Whether it is hidden from views
    pub sensitive: bool,
    /// The shell
    pub shell: Option<Seq<char>>,
}

/// A changed variable: its name, and its value unless it is removed.
pub ghost struct Change {
    /// Its name
    pub name: Seq<char>,
    /// Its value
    pub value: Option<Seq<char>>,
}

/// What a changed variable says.
pub open spec fn change_view(change: ProcessEnvironmentChange) -> Change {
    Change {
        name: change.name@,
        value: match change.value {
            Some(value) => Some(value@),
            None => None,
        },
    }
}

/// What changed variables say.
pub open spec fn change_views(list: Seq<ProcessEnvironmentChange>) -> Seq<Change> {
    Seq::new(list.len(), |i: int| change_view(list[i]))
}

/// What options say.
pub open spec fn options_view(options: ProcessOptions) -> OptionsView {
    OptionsView {
        cwd: options.cwd@,
        cwd_display: options.cwd_display@,
        environment: change_views(options.environment@),
        stdin: match options.stdin {
            Some(bytes) => Some(bytes@),
            None => None,
        },
        timeout_ms: options.timeout_ms,
        max_output: options.max_output,
        sensitive: options.sensitive,
        shell: match options.shell {
            Some(shell) => Some(shell@),
            None => None,
        },
    }
}

/// Whether a change comes after another: by name, and by value, none first.
pub open spec fn after(a: Change, b: Change) -> bool {
    if a.name != b.name {
        precedes(b.name, a.name)
    } else {
        match (a.value, b.value) {
            (Some(x), Some(y)) => precedes(y, x),
            (Some(_), None) => true,
            (None, _) => false,
        }
    }
}

/// A list with a change put behind all that do not come after it.
pub open spec fn placed(list: Seq<Change>, item: Change) -> Seq<Change>
    decreases list.len(),
{
    if list.len() == 0 || !after(list.last(), item) {
        list.push(item)
    } else {
        placed(list.drop_last(), item).push(list.last())
    }
}

proof fn lemma_placed(list: Seq<Change>, item: Change, at: int)
    requires
        0 <= at <= list.len(),
        at > 0 ==> !after(list[at - 1], item),
        forall|j: int| at <= j < list.len() ==> after(#[trigger] list[j], item),
    ensures
        placed(list, item) == list.insert(at, item),
    decreases list.len(),
{
    if at == list.len() {
        assert(list.insert(at, item) =~= list.push(item));
    } else {
        assert(list.last() == list[list.len() - 1]);
        lemma_placed(list.drop_last(), item, at);
        assert(list.insert(at, item) =~= list.drop_last().insert(at, item).push(list.last()));
    }
}

fn comes_after(a: &ProcessEnvironmentChange, b: &ProcessEnvironmentChange) -> (r: bool)
    ensures
        r == after(change_view(*a), change_view(*b)),
{
    if !same(a.name.as_str(), b.name.as_str()) {
        return before(b.name.as_str(), a.name.as_str());
    }
    match (&a.value, &b.value) {
        (Some(x), Some(y)) => before(y.as_str(), x.as_str()),
        (Some(_), None) => true,
        (None, _) => false,
    }
}

fn place_change(list: &mut Vec<ProcessEnvironmentChange>, item: ProcessEnvironmentChange)
    ensures
        change_views(final(list)@) == placed(change_views(old(list)@), change_view(item)),
{
    let ghost all = change_views(list@);
    let mut at: usize = list.len();
    while at > 0 && comes_after(&list[at - 1], &item)
        invariant
            0 <= at <= list@.len(),
            list@ == old(list)@,
            all == change_views(list@),
            forall|j: int| at <= j < list@.len() ==> after(#[trigger] all[j], change_view(item)),
        decreases at,
    {
        at -= 1;
    }
    proof {
        lemma_placed(all, change_view(item), at as int);
    }
    let ghost view = change_view(item);
    list.insert(at, item);
    assert(change_views(list@) =~= all.insert(at as int, view));
}

/// What is wrong with text that holds a NUL.
pub open spec fn nul_problem(value: Seq<char>, context: Seq<char>) -> Option<Seq<char>> {
    problem_if(value.contains('\0'), context + " must not contain NUL bytes"@)
}

/// Refuses text that holds a NUL.
pub fn reject_nul(value: &str, context: &str) -> (r: Result<()>)
    ensures
        reports(r, nul_problem(value@, context@)),
{
    if contains_char(value, '\0') {
        return Err(WombatError::Configuration(cat2(context, " must not contain NUL bytes")));
    }
    Ok(())
}

/// Whether a relative path leaves the directory it starts from, or names it.
pub open spec fn escapes(path: Seq<char>) -> bool {
    pieces(path, '/')[0] == "."@ || pieces(path, '/').contains(".."@)
}

fn path_escapes(path: &str) -> (r: bool)
    ensures
        r == escapes(path@),
{
    let parts = split(path, '/');
    assert(parts@.len() == views(parts@).len());
    proof {
        crate::text::lemma_pieces(path@, '/');
    }
    assert(views(parts@)[0] == parts@[0]@);
    same(parts[0].as_str(), ".") || crate::text::holds(&parts, "..")
}

/// The problem of a value that should be text: with what decoding it says where it
/// is no UTF-8, and where it is, what is wrong with the text.
pub open spec fn text_value_problem(
    value: ProcessValue,
    message: Seq<char>,
    problem: spec_fn(Seq<char>) -> Option<Seq<char>>,
) -> Option<Problem> {
    match value {
        ProcessValue::Bytes { bytes: _, text } => match text {
            Ok(text) => configured(problem(text@)),
            Err(reason) => Some(Problem::Lua(reason@)),
        },
        _ => Some(Problem::Configuration(message)),
    }
}

/// What is wrong with a directory to run in.
pub open spec fn cwd_problem(path: Seq<char>, place: Seq<char>) -> Option<Seq<char>> {
    first(
        nul_problem(path, "cwd"@),
        problem_if(
            !absolute(path) && escapes(path),
            "process cwd `"@ + path + "` escapes the repository at "@ + place,
        ),
    )
}

/// What is wrong with a changed variable.
pub open spec fn variable_problem(
    pair: std::result::Result<(String, VariableValue), String>,
) -> Option<Problem> {
    match pair {
        Err(reason) => Some(Problem::Lua(reason@)),
        Ok(pair) => if pair.0@.len() == 0 || pair.0@.contains('=') || pair.0@.contains('\0') {
            Some(Problem::Configuration("process environment name is invalid"@))
        } else {
            match pair.1 {
                VariableValue::Removed => None,
                VariableValue::Text(text) => configured(
                    nul_problem(text@, "environment value"@),
                ),
                VariableValue::Undecodable(reason) => Some(Problem::Lua(reason@)),
                VariableValue::Other => Some(
                    Problem::Configuration(
                        "process environment values must be strings or false"@,
                    ),
                ),
            }
        },
    }
}

/// What is wrong with changed variables: the problem of the first wrong one.
pub open spec fn variables_problem(
    pairs: Seq<std::result::Result<(String, VariableValue), String>>,
) -> Option<Problem>
    decreases pairs.len(),
{
    if pairs.len() == 0 {
        None
    } else {
        either(variables_problem(pairs.drop_last()), variable_problem(pairs.last()))
    }
}

/// The change of a variable.
pub open spec fn change_of(pair: (String, VariableValue)) -> Change {
    Change {
        name: pair.0@,
        value: match pair.1 {
            VariableValue::Text(text) => Some(text@),
            _ => None,
        },
    }
}

/// The changes once these are made too, in their order.
pub open spec fn changed(
    list: Seq<Change>,
    pairs: Seq<std::result::Result<(String, VariableValue), String>>,
) -> Seq<Change>
    decreases pairs.len(),
{
    if pairs.len() == 0 {
        list
    } else {
        placed(changed(list, pairs.drop_last()), change_of(pairs.last()->Ok_0))
    }
}

proof fn lemma_variables_front(
    pairs: Seq<std::result::Result<(String, VariableValue), String>>,
    count: int,
)
    requires
        0 <= count <= pairs.len(),
        variables_problem(pairs.take(count)) is Some,
    ensures
        variables_problem(pairs) == variables_problem(pairs.take(count)),
    decreases pairs.len() - count,
{
    if count < pairs.len() {
        assert(pairs.take(count + 1).drop_last() =~= pairs.take(count));
        lemma_variables_front(pairs, count + 1);
    } else {
        assert(pairs.take(count) =~= pairs);
    }
}

fn read_variables(
    list: &mut Vec<ProcessEnvironmentChange>,
    pairs: &Vec<std::result::Result<(String, VariableValue), String>>,
) -> (r: Result<()>)
    ensures
        settles(r, variables_problem(pairs@)),
        r is Ok ==> change_views(final(list)@) == changed(change_views(old(list)@), pairs@),
{
    let ghost start = change_views(list@);
    let mut i: usize = 0;
    assert(pairs@.take(0) =~= Seq::empty());
    while i < pairs.len()
        invariant
            0 <= i <= pairs@.len(),
            start == change_views(old(list)@),
            variables_problem(pairs@.take(i as int)) is None,
            change_views(list@) == changed(start, pairs@.take(i as int)),
        decreases pairs@.len() - i,
    {
        proof {
            assert(pairs@.take(i + 1).drop_last() =~= pairs@.take(i as int));
            assert(pairs@.take(i + 1).last() == pairs@[i as int]);
            if variables_problem(pairs@.take(i + 1)) is Some {
                lemma_variables_front(pairs@, i + 1);
            }
        }
        match &pairs[i] {
            Err(reason) => {
                return Err(WombatError::Lua(reason.clone()));
            },
            Ok(pair) => {
                let name = pair.0.as_str();
                if name.is_empty() || contains_char(name, '=') || contains_char(name, '\0') {
                    return Err(
                        WombatError::configuration("process environment name is invalid"),
                    );
                }
                let value = match &pair.1 {
                    VariableValue::Removed => None,
                    VariableValue::Text(text) => {
                        reject_nul(text.as_str(), "environment value")?;
                        Some(text.clone())
                    },
                    VariableValue::Undecodable(reason) => {
                        return Err(WombatError::Lua(reason.clone()));
                    },
                    VariableValue::Other => {
                        return Err(
                            WombatError::configuration(
                                "process environment values must be strings or false",
                            ),
                        );
                    },
                };
                place_change(list, ProcessEnvironmentChange { name: pair.0.clone(), value });
            },
        }
        i += 1;
    }
    assert(pairs@.take(i as int) =~= pairs@);
    Ok(())
}

/// What is wrong with the most output to keep.
pub open spec fn max_output_problem(value: ProcessValue) -> Option<Problem> {
    match value {
        ProcessValue::Integer { value, milliseconds: _ } => configured(
            first(
                problem_if(value < 0, "process `max_output` must be positive"@),
                problem_if(
                    value == 0 || value > MAX_PROCESS_OUTPUT,
                    "process `max_output` must be between 1 and 67108864"@,
                ),
            ),
        ),
        _ => Some(Problem::Configuration("process `max_output` must be an integer"@)),
    }
}

/// What is wrong with a time limit.
pub open spec fn timeout_problem(value: ProcessValue) -> Option<Problem> {
    let valid = match value {
        ProcessValue::Integer { value, milliseconds: _ } => value > 0,
        ProcessValue::Number(milliseconds) => milliseconds is Some,
        _ => false,
    };
    configured(problem_if(!valid, "process `timeout` must be a positive number"@))
}

/// What is wrong with an option of a process.
pub open spec fn option_problem(key: Seq<char>, value: ProcessValue, place: Seq<char>) -> Option<
    Problem,
> {
    if key == "cwd"@ {
        text_value_problem(
            value,
            "process `cwd` must be a string"@,
            |text: Seq<char>| cwd_problem(text, place),
        )
    } else if key == "env"@ {
        match value {
            ProcessValue::Table(pairs) => variables_problem(pairs@),
            _ => Some(Problem::Configuration("process `env` must be a string-keyed table"@)),
        }
    } else if key == "stdin"@ {
        configured(problem_if(!(value is Bytes), "process `stdin` must be a string"@))
    } else if key == "timeout"@ {
        timeout_problem(value)
    } else if key == "max_output"@ {
        max_output_problem(value)
    } else if key == "sensitive"@ {
        configured(problem_if(!(value is Boolean), "process `sensitive` must be boolean"@))
    } else if key == "shell"@ {
        text_value_problem(
            value,
            "process `shell` must be a string"@,
            |text: Seq<char>|
                problem_if(!absolute(text), "process `shell` must be an absolute path"@),
        )
    } else {
        Some(Problem::Configuration("unknown process option `"@ + key + "`"@))
    }
}

/// The milliseconds that a time limit stands for.
pub open spec fn milliseconds_of(value: ProcessValue) -> u64 {
    match value {
        ProcessValue::Integer { value: _, milliseconds } => milliseconds,
        ProcessValue::Number(milliseconds) => milliseconds->0,
        _ => 0,
    }
}

/// The options once one more is set.
pub open spec fn applied(
    options: OptionsView,
    root: Seq<char>,
    key: Seq<char>,
    value: ProcessValue,
) -> OptionsView {
    if key == "cwd"@ {
        OptionsView {
            cwd: path_join(root, value->text->Ok_0@),
            cwd_display: value->text->Ok_0@,
            ..options
        }
    } else if key == "env"@ {
        OptionsView { environment: changed(options.environment, value->Table_0@), ..options }
    } else if key == "stdin"@ {
        OptionsView { stdin: Some(value->bytes@), ..options }
    } else if key == "timeout"@ {
        OptionsView { timeout_ms: Some(milliseconds_of(value)), ..options }
    } else if key == "max_output"@ {
        OptionsView { max_output: value->Integer_value as u64, ..options }
    } else if key == "sensitive"@ {
        OptionsView { sensitive: value->Boolean_0, ..options }
    } else if key == "shell"@ {
        OptionsView { shell: Some(value->text->Ok_0@), ..options }
    } else {
        options
    }
}

proof fn lemma_distinct_keys()
    ensures
        "cwd"@ != "env"@,
        "cwd"@.len() == 3,
        "env"@.len() == 3,
        "stdin"@.len() == 5,
        "timeout"@.len() == 7,
        "max_output"@.len() == 10,
        "sensitive"@.len() == 9,
        "shell"@.len() == 5,
        "stdin"@ != "shell"@,
{
    reveal_strlit("cwd");
    reveal_strlit("env");
    reveal_strlit("stdin");
    reveal_strlit("timeout");
    reveal_strlit("max_output");
    reveal_strlit("sensitive");
    reveal_strlit("shell");
    assert("cwd"@[0] != "env"@[0]);
    assert("stdin"@[1] != "shell"@[1]);
}

fn set_cwd(options: &mut ProcessOptions, root: &str, value: &ProcessValue, place: &str) -> (r: Result<()>)
    ensures
        settles(
            r,
            text_value_problem(
                *value,
                "process `cwd` must be a string"@,
                |text: Seq<char>| cwd_problem(text, place@),
            ),
        ),
        r is Ok ==> *value is Bytes && value->text is Ok && options_view(*final(options)) == (
        OptionsView {
            cwd: path_join(root@, value->text->Ok_0@),
            cwd_display: value->text->Ok_0@,
            ..options_view(*old(options))
        }),
{
    let text = match value {
        ProcessValue::Bytes { bytes: _, text } => text,
        _ => {
            return Err(WombatError::configuration("process `cwd` must be a string"));
        },
    };
    let path = match text {
        Ok(path) => path,
        Err(reason) => {
            return Err(WombatError::Lua(reason.clone()));
        },
    };
    reject_nul(path.as_str(), "cwd")?;
    if !is_absolute(path.as_str()) && path_escapes(path.as_str()) {
        return Err(
            WombatError::Configuration(
                cat4("process cwd `", path.as_str(), "` escapes the repository at ", place),
            ),
        );
    }
    options.cwd = join_path(root, path.as_str());
    options.cwd_display = path.clone();
    Ok(())
}

fn set_shell(options: &mut ProcessOptions, value: &ProcessValue) -> (r: Result<()>)
    ensures
        settles(
            r,
            text_value_problem(
                *value,
                "process `shell` must be a string"@,
                |text: Seq<char>|
                    problem_if(!absolute(text), "process `shell` must be an absolute path"@),
            ),
        ),
        r is Ok ==> *value is Bytes && value->text is Ok && options_view(*final(options)) == (
        OptionsView { shell: Some(value->text->Ok_0@), ..options_view(*old(options)) }),
{
    let text = match value {
        ProcessValue::Bytes { bytes: _, text } => text,
        _ => {
            return Err(WombatError::configuration("process `shell` must be a string"));
        },
    };
    let shell = match text {
        Ok(shell) => shell,
        Err(reason) => {
            return Err(WombatError::Lua(reason.clone()));
        },
    };
    if !is_absolute(shell.as_str()) {
        return Err(WombatError::configuration("process `shell` must be an absolute path"));
    }
    options.shell = Some(shell.clone());
    Ok(())
}

fn set_limits(options: &mut ProcessOptions, key: &str, value: &ProcessValue) -> (r: Result<()>)
    requires
        key@ == "timeout"@ || key@ == "max_output"@,
    ensures
        settles(
            r,
            if key@ == "timeout"@ {
                timeout_problem(*value)
            } else {
                max_output_problem(*value)
            },
        ),
        r is Ok ==> options_view(*final(options)) == if key@ == "timeout"@ {
            (OptionsView {
                timeout_ms: Some(milliseconds_of(*value)),
                ..options_view(*old(options))
            })
        } else {
            (OptionsView {
                max_output: value->Integer_value as u64,
                ..options_view(*old(options))
            })
        },
{
    if same(key, "timeout") {
        match value {
            ProcessValue::Integer { value, milliseconds } => {
                if *value > 0 {
                    options.timeout_ms = Some(*milliseconds);
                    return Ok(());
                }
            },
            ProcessValue::Number(Some(milliseconds)) => {
                options.timeout_ms = Some(*milliseconds);
                return Ok(());
            },
            _ => {},
        }
        return Err(WombatError::configuration("process `timeout` must be a positive number"));
    }
    match value {
        ProcessValue::Integer { value, milliseconds: _ } => {
            if *value < 0 {
                return Err(WombatError::configuration("process `max_output` must be positive"));
            }
            let limit = *value as u64;
            if limit == 0 || limit > MAX_PROCESS_OUTPUT {
                return Err(
                    WombatError::configuration(
                        "process `max_output` must be between 1 and 67108864",
                    ),
                );
            }
            options.max_output = limit;
            Ok(())
        },
        _ => Err(WombatError::configuration("process `max_output` must be an integer")),
    }
}

fn apply_option(
    options: &mut ProcessOptions,
    root: &str,
    key: &str,
    value: &ProcessValue,
    place: &str,
) -> (r: Result<()>)
    ensures
        settles(r, option_problem(key@, *value, place@)),
        r is Ok ==> options_view(*final(options)) == applied(
            options_view(*old(options)),
            root@,
            key@,
            *value,
        ),
{
    proof {
        lemma_distinct_keys();
    }
    if same(key, "cwd") {
        return set_cwd(options, root, value, place);
    }
    if same(key, "env") {
        return match value {
            ProcessValue::Table(pairs) => read_variables(&mut options.environment, pairs),
            _ => Err(WombatError::configuration("process `env` must be a string-keyed table")),
        };
    }
    if same(key, "stdin") {
        return match value {
            ProcessValue::Bytes { bytes, text: _ } => {
                let copy = copy_bytes(bytes);
                options.stdin = Some(copy);
                Ok(())
            },
            _ => Err(WombatError::configuration("process `stdin` must be a string")),
        };
    }
    if same(key, "timeout") || same(key, "max_output") {
        return set_limits(options, key, value);
    }
    if same(key, "sensitive") {
        return match value {
            ProcessValue::Boolean(sensitive) => {
                options.sensitive = *sensitive;
                Ok(())
            },
            _ => Err(WombatError::configuration("process `sensitive` must be boolean")),
        };
    }
    if same(key, "shell") {
        return set_shell(options, value);
    }
    Err(WombatError::Configuration(cat3("unknown process option `", key, "`")))
}

fn copy_bytes(bytes: &Vec<u8>) -> (r: Vec<u8>)
    ensures
        r@ == bytes@,
{
    let mut r: Vec<u8> = Vec::new();
    let mut i: usize = 0;
    while i < bytes.len()
        invariant
            0 <= i <= bytes@.len(),
            r@ == bytes@.take(i as int),
        decreases bytes@.len() - i,
    {
        r.push(bytes[i]);
        assert(bytes@.take(i + 1) =~= bytes@.take(i as int).push(bytes@[i as int]));
        i += 1;
    }
    assert(bytes@.take(i as int) =~= bytes@);
    r
}

/// A pair of the table of options, or what reading it says.
pub type OptionPair = std::result::Result<(String, ProcessValue), String>;

/// What is wrong with a pair of the table of options.
pub open spec fn pair_problem(pair: OptionPair, place: Seq<char>) -> Option<Problem> {
    match pair {
        Err(reason) => Some(Problem::Lua(reason@)),
        Ok(pair) => option_problem(pair.0@, pair.1, place),
    }
}

/// What is wrong with options: the problem of the first wrong one.
pub open spec fn pairs_problem(pairs: Seq<OptionPair>, place: Seq<char>) -> Option<Problem>
    decreases pairs.len(),
{
    if pairs.len() == 0 {
        None
    } else {
        either(pairs_problem(pairs.drop_last(), place), pair_problem(pairs.last(), place))
    }
}

/// The options where nothing is said.
pub open spec fn default_options(root: Seq<char>) -> OptionsView {
    OptionsView {
        cwd: root,
        cwd_display: "."@,
        environment: Seq::empty(),
        stdin: None,
        timeout_ms: None,
        max_output: DEFAULT_MAX_PROCESS_OUTPUT,
        sensitive: false,
        shell: None,
    }
}

/// What a table of options says.
pub open spec fn all_applied(pairs: Seq<OptionPair>, root: Seq<char>) -> OptionsView
    decreases pairs.len(),
{
    if pairs.len() == 0 {
        default_options(root)
    } else {
        applied(
            all_applied(pairs.drop_last(), root),
            root,
            (pairs.last()->Ok_0).0@,
            (pairs.last()->Ok_0).1,
        )
    }
}

proof fn lemma_pairs_front(pairs: Seq<OptionPair>, place: Seq<char>, count: int)
    requires
        0 <= count <= pairs.len(),
        pairs_problem(pairs.take(count), place) is Some,
    ensures
        pairs_problem(pairs, place) == pairs_problem(pairs.take(count), place),
    decreases pairs.len() - count,
{
    if count < pairs.len() {
        assert(pairs.take(count + 1).drop_last() =~= pairs.take(count));
        lemma_pairs_front(pairs, place, count + 1);
    } else {
        assert(pairs.take(count) =~= pairs);
    }
}

/// What a process was given as its options.
#[derive(Debug, PartialEq)]
pub enum ProcessRequest {
    /// Nothing
    Nothing,
    /// A table
    Table(Vec<OptionPair>),
    /// Something else
    Other,
}

/// What is wrong with what a process was given as its options.
pub open spec fn request_problem(request: ProcessRequest, place: Seq<char>) -> Option<Problem> {
    match request {
        ProcessRequest::Nothing => None,
        ProcessRequest::Table(pairs) => pairs_problem(pairs@, place),
        ProcessRequest::Other => Some(Problem::Configuration("process options must be a table"@)),
    }
}

/// What those options are.
pub open spec fn requested_options(request: ProcessRequest, root: Seq<char>) -> OptionsView {
    match request {
        ProcessRequest::Table(pairs) => all_applied(pairs@, root),
        _ => default_options(root),
    }
}

/// Reads the options of a process that runs in a repository.
pub fn parse_process_options(root: &str, request: &ProcessRequest, location: &Location) -> (r:
    Result<ProcessOptions>)
    ensures
        settles(r, request_problem(*request, location.trace.text())),
        r matches Ok(options) ==> options_view(options) == requested_options(*request, root@),
{
    let mut options = ProcessOptions {
        cwd: root.to_string(),
        cwd_display: ".".to_string(),
        environment: Vec::new(),
        stdin: None,
        timeout_ms: None,
        max_output: DEFAULT_MAX_PROCESS_OUTPUT,
        sensitive: false,
        shell: None,
    };
    assert(options_view(options).environment =~= Seq::empty());
    let pairs = match request {
        ProcessRequest::Nothing => {
            return Ok(options);
        },
        ProcessRequest::Table(pairs) => pairs,
        ProcessRequest::Other => {
            return Err(WombatError::configuration("process options must be a table"));
        },
    };
    let place = location.display();
    let mut i: usize = 0;
    assert(pairs@.take(0) =~= Seq::empty());
    while i < pairs.len()
        invariant
            0 <= i <= pairs@.len(),
            place@ == location.trace.text(),
            *request == ProcessRequest::Table(*pairs),
            pairs_problem(pairs@.take(i as int), place@) is None,
            options_view(options) == all_applied(pairs@.take(i as int), root@),
        decreases pairs@.len() - i,
    {
        proof {
            assert(pairs@.take(i + 1).drop_last() =~= pairs@.take(i as int));
            assert(pairs@.take(i + 1).last() == pairs@[i as int]);
            if pairs_problem(pairs@.take(i + 1), place@) is Some {
                lemma_pairs_front(pairs@, place@, i + 1);
            }
        }
        match &pairs[i] {
            Err(reason) => {
                return Err(WombatError::Lua(reason.clone()));
            },
            Ok(pair) => {
                apply_option(&mut options, root, pair.0.as_str(), &pair.1, place.as_str())?;
            },
        }
        i += 1;
    }
    assert(pairs@.take(i as int) =~= pairs@);
    Ok(options)
}

/// Makes sure that a process runs in a directory. `is_directory` tells whether its
/// place is one.
pub fn require_directory(options: &ProcessOptions, is_directory: bool) -> (r: Result<()>)
    ensures
        reports(
            r,
            problem_if(
                !is_directory,
                "process cwd `"@ + options.cwd@ + "` is not a directory"@,
            ),
        ),
{
    if !is_directory {
        return Err(
            WombatError::Configuration(
                cat3("process cwd `", options.cwd.as_str(), "` is not a directory"),
            ),
        );
    }
    Ok(())
}

/// An item of a Lua sequence that should be text, or what reading it says.
pub type SequenceItem = std::result::Result<String, String>;

/// What is wrong with an item of a sequence of strings.
pub open spec fn item_problem(item: SequenceItem, context: Seq<char>) -> Option<Problem> {
    match item {
        Err(reason) => Some(Problem::Lua(reason@)),
        Ok(text) => configured(nul_problem(text@, context)),
    }
}

/// What is wrong with items: the problem of the first wrong one.
pub open spec fn items_problem(items: Seq<SequenceItem>, context: Seq<char>) -> Option<Problem>
    decreases items.len(),
{
    if items.len() == 0 {
        None
    } else {
        either(items_problem(items.drop_last(), context), item_problem(items.last(), context))
    }
}

/// What is wrong with a sequence of strings. There is none where the value is no
/// table; `length` is the length of the table.
pub open spec fn sequence_problem(
    items: Option<Vec<SequenceItem>>,
    length: usize,
    context: Seq<char>,
) -> Option<Problem> {
    match items {
        None => Some(Problem::Configuration(context + " must be an array of strings"@)),
        Some(items) => either(
            items_problem(items@, context),
            configured(
                problem_if(
                    length != items@.len(),
                    context + " must be a contiguous array of strings"@,
                ),
            ),
        ),
    }
}

/// The texts of items.
pub open spec fn sequence_texts(items: Seq<SequenceItem>) -> Seq<Seq<char>> {
    Seq::new(items.len(), |i: int| items[i]->Ok_0@)
}

proof fn lemma_items_front(items: Seq<SequenceItem>, context: Seq<char>, count: int)
    requires
        0 <= count <= items.len(),
        items_problem(items.take(count), context) is Some,
    ensures
        items_problem(items, context) == items_problem(items.take(count), context),
    decreases items.len() - count,
{
    if count < items.len() {
        assert(items.take(count + 1).drop_last() =~= items.take(count));
        lemma_items_front(items, context, count + 1);
    } else {
        assert(items.take(count) =~= items);
    }
}

/// Reads a sequence of strings.
pub fn lua_string_array(list: &Option<Vec<SequenceItem>>, length: usize, context: &str) -> (r:
    Result<Vec<String>>)
    ensures
        settles(r, sequence_problem(*list, length, context@)),
        r matches Ok(texts) ==> views(texts@) == sequence_texts(list->0@),
{
    let items = match list {
        Some(items) => items,
        None => {
            return Err(
                WombatError::Configuration(cat2(context, " must be an array of strings")),
            );
        },
    };
    let mut texts: Vec<String> = Vec::new();
    let mut i: usize = 0;
    assert(items@.take(0) =~= Seq::empty());
    while i < items.len()
        invariant
            0 <= i <= items@.len(),
            *list == Some(*items),
            texts@.len() == i,
            items_problem(items@.take(i as int), context@) is None,
            forall|j: int| 0 <= j < i ==> (#[trigger] texts@[j])@ == items@[j]->Ok_0@,
        decreases items@.len() - i,
    {
        proof {
            assert(items@.take(i + 1).drop_last() =~= items@.take(i as int));
            assert(items@.take(i + 1).last() == items@[i as int]);
            if items_problem(items@.take(i + 1), context@) is Some {
                lemma_items_front(items@, context@, i + 1);
            }
        }
        match &items[i] {
            Err(reason) => {
                return Err(WombatError::Lua(reason.clone()));
            },
            Ok(text) => {
                reject_nul(text.as_str(), context)?;
                texts.push(text.clone());
            },
        }
        i += 1;
    }
    assert(items@.take(i as int) =~= items@);
    if length != texts.len() {
        return Err(
            WombatError::Configuration(cat2(context, " must be a contiguous array of strings")),
        );
    }
    assert(views(texts@) =~= sequence_texts(items@));
    Ok(texts)
}

/// What is wrong with a program and its arguments.
pub open spec fn argv_problem(items: Option<Vec<SequenceItem>>, length: usize) -> Option<Problem> {
    either(
        sequence_problem(items, length, "w.exec() argv"@),
        configured(problem_if(items->0@.len() == 0, "w.exec() argv must not be empty"@)),
    )
}

/// What runs a program with arguments.
pub fn exec_invocation(items: &Option<Vec<SequenceItem>>, length: usize) -> (r: Result<
    ProcessInvocation,
>)
    ensures
        settles(r, argv_problem(*items, length)),
        r matches Ok(invocation) ==> invocation is Exec && views(invocation->argv@)
            == sequence_texts(items->0@),
{
    let argv = lua_string_array(items, length, "w.exec() argv")?;
    assert(argv@.len() == views(argv@).len());
    if argv.len() == 0 {
        return Err(WombatError::configuration("w.exec() argv must not be empty"));
    }
    Ok(ProcessInvocation::Exec { argv })
}

/// The shell that runs a command line.
pub open spec fn shell_of(options: ProcessOptions) -> Seq<char> {
    match options.shell {
        Some(shell) => shell@,
        None => "/bin/sh"@,
    }
}

/// What runs a command line.
pub fn shell_invocation(options: &ProcessOptions, command: &str) -> (r: Result<ProcessInvocation>)
    ensures
        reports(r, nul_problem(command@, "shell command"@)),
        r matches Ok(invocation) ==> invocation is Shell && invocation->command@ == command@
            && invocation->shell@ == shell_of(*options),
{
    reject_nul(command, "shell command")?;
    let shell = match &options.shell {
        Some(shell) => shell.clone(),
        None => "/bin/sh".to_string(),
    };
    Ok(ProcessInvocation::Shell { command: command.to_string(), shell })
}

/// How a process ended.
#[derive(Debug, PartialEq)]
pub struct ProcessOutcome {
    /// Whether it succeeded
    pub success: bool,
    /// Whether its time ran out
    pub timed_out: bool,
    /// Its exit code
    pub code: Option<i32>,
    /// The signal that ended it
    pub signal: Option<i32>,
    /// Its output
    pub stdout: Vec<u8>,
    /// Whether it wrote more than that
    pub stdout_truncated: bool,
    /// Its error output
    pub stderr: Vec<u8>,
    /// Whether it wrote more than that
    pub stderr_truncated: bool,
}

/// Why what a process did cannot be kept.
pub open spec fn outcome_failure(
    options: ProcessOptions,
    outcome: ProcessOutcome,
    place: Seq<char>,
) -> Option<Seq<char>> {
    if outcome.timed_out {
        Some(
            "construction process timed out after "@ + decimal(
                match options.timeout_ms {
                    Some(limit) => limit as nat,
                    None => 0,
                },
            ) + " ms at "@ + place,
        )
    } else if outcome.stdout_truncated || outcome.stderr_truncated {
        Some(
            "construction process output exceeded the "@ + decimal(options.max_output as nat)
                + " byte limit at "@ + place,
        )
    } else {
        None
    }
}

/// Whether an observation tells what a process did, its input and output as digests
/// only.
pub open spec fn process_observed(
    kept: ProcessObservation,
    options: ProcessOptions,
    invocation: ProcessInvocation,
    outcome: ProcessOutcome,
    location: Location,
) -> bool {
    &&& kept.invocation == invocation
    &&& kept.cwd == options.cwd_display
    &&& kept.environment == options.environment
    &&& match options.stdin {
        Some(bytes) => kept.stdin_digest matches Some(d) && d@ == digest_of(bytes@),
        None => kept.stdin_digest is None,
    }
    &&& kept.timeout_ms == options.timeout_ms
    &&& kept.max_output == options.max_output
    &&& kept.sensitive == options.sensitive
    &&& kept.ok == outcome.success
    &&& kept.code == outcome.code
    &&& kept.signal == outcome.signal
    &&& kept.stdout_size == outcome.stdout@.len()
    &&& kept.stdout_digest@ == digest_of(outcome.stdout@)
    &&& kept.stderr_size == outcome.stderr@.len()
    &&& kept.stderr_digest@ == digest_of(outcome.stderr@)
    &&& kept.declared_at == location.trace
}

/// Tells what is kept of a process, unless its time ran out or it wrote too much.
pub fn observe_process(
    options: ProcessOptions,
    invocation: ProcessInvocation,
    outcome: &ProcessOutcome,
    location: Location,
) -> (r: Result<ProcessObservation>)
    ensures
        match outcome_failure(options, *outcome, location.trace.text()) {
            Some(message) => r is Err && is_process(r->Err_0, message),
            None => r matches Ok(kept) && process_observed(
                kept,
                options,
                invocation,
                *outcome,
                location,
            ),
        },
{
    if outcome.timed_out {
        let limit: u64 = match options.timeout_ms {
            Some(limit) => limit,
            None => 0,
        };
        return Err(
            WombatError::Process(
                cat4(
                    "construction process timed out after ",
                    decimal_text(limit).as_str(),
                    " ms at ",
                    location.display().as_str(),
                ),
            ),
        );
    }
    if outcome.stdout_truncated || outcome.stderr_truncated {
        return Err(
            WombatError::Process(
                cat4(
                    "construction process output exceeded the ",
                    decimal_text(options.max_output).as_str(),
                    " byte limit at ",
                    location.display().as_str(),
                ),
            ),
        );
    }
    let stdin_digest = match &options.stdin {
        Some(bytes) => Some(digest(bytes.as_slice())),
        None => None,
    };
    Ok(
        ProcessObservation {
            invocation,
            cwd: options.cwd_display,
            environment: options.environment,
            stdin_digest,
            timeout_ms: options.timeout_ms,
            max_output: options.max_output,
            sensitive: options.sensitive,
            ok: outcome.success,
            code: outcome.code,
            signal: outcome.signal,
            stdout_size: outcome.stdout.len() as u64,
            stdout_digest: digest(outcome.stdout.as_slice()),
            stderr_size: outcome.stderr.len() as u64,
            stderr_digest: digest(outcome.stderr.as_slice()),
            declared_at: location.trace,
        },
    )
}

/// Goes on only where a process succeeded. `stderr` is what it said otherwise.
pub fn check_process_result(ok: bool, stderr: &Vec<u8>, location: &Location) -> (r: Result<()>)
    ensures
        reports(
            r,
            problem_if(
                !ok,
                "construction process failed at "@ + location.trace.text() + ": "@ + decoded_lossy(stderr@),
            ),
        ),
{
    if ok {
        return Ok(());
    }
    Err(
        WombatError::Configuration(
            cat4(
                "construction process failed at ",
                location.display().as_str(),
                ": ",
                decode_lossy(stderr.as_slice()).as_str(),
            ),
        ),
    )
}

/// Whether `w.array()` can mark a table: an array, or an empty map.
pub fn check_array(value: &crate::model::frozen::FrozenValue) -> (r: Result<()>)
    ensures
        reports(
            r,
            problem_if(
                !(*value is Array) && !(*value is Table && value->Table_0@.len() == 0),
                "w.array() requires a contiguous positive-integer-keyed table"@,
            ),
        ),
{
    let fits = match value {
        crate::model::frozen::FrozenValue::Array(_) => true,
        crate::model::frozen::FrozenValue::Table(entries) => entries.len() == 0,
        _ => false,
    };
    if !fits {
        return Err(
            WombatError::configuration(
                "w.array() requires a contiguous positive-integer-keyed table",
            ),
        );
    }
    Ok(())
}

} // verus!
