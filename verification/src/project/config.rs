//! The configuration of a user.
use vstd::prelude::*;
use vstd::string::*;

use crate::error::{first, is_configuration, problem_if, reports, Result, WombatError};
use crate::lua::actions::{count_components, counted};
use crate::model::manifest::{InterpreterFamily, TaskRunner};
use crate::model::path::{absolute, is_absolute, join_path, path_join};
use crate::number::{decimal, decimal_text};
use crate::text::{
    cat2, cat3, cat5, cat6, chars_of, is_whitespace, leading_space, lemma_pieces,
    lemma_pieces_concat, lemma_pieces_single, pieces, same, split, starts_with, strip_prefix,
    text_of, trim_start, trimmed_start, views,
};

verus! {

/// The version of the format of this configuration.
pub const CONFIG_FORMAT_VERSION: u32 = 2;

/// A configured interpreter.
#[derive(Debug, PartialEq)]
pub struct InterpreterConfig {
    /// Its command
    pub command: String,
    /// Arguments before the file
    pub args: Vec<String>,
}

/// What the configuration of a user says.
#[derive(Debug, PartialEq)]
pub struct UserConfig {
    /// The version of its format
    pub format_version: u32,
    /// The repository
    pub repository: String,
    /// The interpreters by the names of their kinds, in the order of the names
    pub runners: Vec<(String, InterpreterConfig)>,
}

/// What is wrong with the version of a configuration.
pub open spec fn version_problem(version: u32, path: Seq<char>) -> Option<Seq<char>> {
    problem_if(
        version != CONFIG_FORMAT_VERSION,
        "unsupported Wombat config format version "@ + decimal(version as nat) + " in `"@ + path
            + "`; expected "@ + decimal(CONFIG_FORMAT_VERSION as nat),
    )
}

/// Makes sure that a configuration is of this format.
pub fn check_version(config: &UserConfig, path: &str) -> (r: Result<()>)
    ensures
        reports(r, version_problem(config.format_version, path@)),
{
    if config.format_version != CONFIG_FORMAT_VERSION {
        return Err(
            WombatError::Configuration(
                cat6(
                    "unsupported Wombat config format version ",
                    decimal_text(config.format_version as u64).as_str(),
                    " in `",
                    path,
                    "`; expected ",
                    decimal_text(CONFIG_FORMAT_VERSION as u64).as_str(),
                ),
            ),
        );
    }
    Ok(())
}

/// The family of a configured interpreter.
pub open spec fn family_named(name: Seq<char>) -> Option<InterpreterFamily> {
    if name == "python"@ {
        Some(InterpreterFamily::Python)
    } else if name == "shell"@ {
        Some(InterpreterFamily::PosixShell)
    } else if name == "bash"@ {
        Some(InterpreterFamily::Bash)
    } else if name == "lua"@ {
        Some(InterpreterFamily::Custom)
    } else {
        None
    }
}

fn read_family(name: &str) -> (r: Option<InterpreterFamily>)
    ensures
        r == family_named(name@),
{
    if same(name, "python") {
        Some(InterpreterFamily::Python)
    } else if same(name, "shell") {
        Some(InterpreterFamily::PosixShell)
    } else if same(name, "bash") {
        Some(InterpreterFamily::Bash)
    } else if same(name, "lua") {
        Some(InterpreterFamily::Custom)
    } else {
        None
    }
}

/// What is wrong with the command of an interpreter.
pub open spec fn expansion_problem(value: Seq<char>, home: Option<&str>, path: Seq<char>) -> Option<
    Seq<char>,
> {
    if "~/"@.is_prefix_of(value) {
        problem_if(
            home is None,
            "task interpreter command `"@ + value + "` in `"@ + path
                + "` requires HOME for `~/` expansion"@,
        )
    } else {
        problem_if(
            counted(pieces(value, '/')) > 1 && !absolute(value),
            "task interpreter command `"@ + value + "` in `"@ + path
                + "` must be a bare command, absolute path, or begin with `~/`"@,
        )
    }
}

/// The command of an interpreter, with the home directory written out.
pub open spec fn expanded_command(value: Seq<char>, home: Option<&str>) -> Seq<char> {
    if "~/"@.is_prefix_of(value) {
        path_join(home->0@, value.skip("~/"@.len() as int))
    } else {
        value
    }
}

/// Writes the home directory out in the command of an interpreter.
pub fn expand_interpreter_command(value: &str, home: Option<&str>, path: &str) -> (r: Result<String>)
    ensures
        reports(r, expansion_problem(value@, home, path@)),
        r matches Ok(command) ==> command@ == expanded_command(value@, home),
{
    if let Some(relative) = strip_prefix(value, "~/") {
        return match home {
            Some(home) => Ok(join_path(home, relative.as_str())),
            None => Err(
                WombatError::Configuration(
                    cat5(
                        "task interpreter command `",
                        value,
                        "` in `",
                        path,
                        "` requires HOME for `~/` expansion",
                    ),
                ),
            ),
        };
    }
    if count_components(value) > 1 && !is_absolute(value) {
        return Err(
            WombatError::Configuration(
                cat5(
                    "task interpreter command `",
                    value,
                    "` in `",
                    path,
                    "` must be a bare command, absolute path, or begin with `~/`",
                ),
            ),
        );
    }
    Ok(value.to_string())
}

/// What is wrong with a configured interpreter.
pub open spec fn runner_problem(
    name: Seq<char>,
    config: InterpreterConfig,
    path: Seq<char>,
    home: Option<&str>,
) -> Option<Seq<char>> {
    first(
        problem_if(
            family_named(name) is None,
            "unknown task interpreter `"@ + name + "` in `"@ + path
                + "`; expected python, shell, bash, or lua"@,
        ),
        first(
            problem_if(
                config.command@.len() == 0,
                "task interpreter `"@ + name + "` in `"@ + path
                    + "` requires a non-empty command"@,
            ),
            expansion_problem(config.command@, home, path),
        ),
    )
}

/// What is wrong with the first configured interpreters.
pub open spec fn runners_problem(
    runners: Seq<(String, InterpreterConfig)>,
    path: Seq<char>,
    home: Option<&str>,
    count: int,
) -> Option<Seq<char>>
    decreases count,
{
    if count <= 0 {
        None
    } else {
        first(
            runners_problem(runners, path, home, count - 1),
            runner_problem(runners[count - 1].0@, runners[count - 1].1, path, home),
        )
    }
}

proof fn lemma_runners_front(
    runners: Seq<(String, InterpreterConfig)>,
    path: Seq<char>,
    home: Option<&str>,
    count: int,
    total: int,
)
    requires
        0 <= count <= total,
        runners_problem(runners, path, home, count) is Some,
    ensures
        runners_problem(runners, path, home, total) == runners_problem(
            runners,
            path,
            home,
            count,
        ),
    decreases total - count,
{
    if count < total {
        lemma_runners_front(runners, path, home, count, total - 1);
    }
}

/// Whether a runner is what was configured.
pub open spec fn runner_is(
    runner: (String, TaskRunner),
    name: String,
    config: InterpreterConfig,
    home: Option<&str>,
) -> bool {
    &&& runner.0 == name
    &&& runner.1 matches TaskRunner::Interpreter { contract_version, family, command, args }
        && contract_version == 1 && Some(family) == family_named(name@) && command@
        == expanded_command(config.command@, home) && args == config.args
}

/// Takes the configured interpreters up, by the names of their kinds.
pub fn configured_task_interpreters(config: UserConfig, path: &str, home: Option<&str>) -> (r: Result<
    Vec<(String, TaskRunner)>,
>)
    ensures
        reports(
            r,
            runners_problem(config.runners@, path@, home, config.runners@.len() as int),
        ),
        r matches Ok(list) ==> list@.len() == config.runners@.len() && forall|i: int|
            0 <= i < list@.len() ==> runner_is(
                #[trigger] list@[i],
                config.runners@[i].0,
                config.runners@[i].1,
                home,
            ),
{
    let ghost all = config.runners@;
    let mut rest = config.runners;
    let mut list: Vec<(String, TaskRunner)> = Vec::new();
    let ghost mut count: int = 0;
    assert(all.skip(0) =~= all);
    while rest.len() > 0
        invariant
            0 <= count <= all.len(),
            all == config.runners@,
            rest@ == all.skip(count),
            list@.len() == count,
            runners_problem(all, path@, home, count) is None,
            forall|i: int|
                0 <= i < count ==> runner_is(#[trigger] list@[i], all[i].0, all[i].1, home),
        decreases rest@.len(),
    {
        let item = rest.remove(0);
        proof {
            assert(item == all[count]);
            assert(all.skip(count).remove(0) =~= all.skip(count + 1));
            if runners_problem(all, path@, home, count + 1) is Some {
                lemma_runners_front(all, path@, home, count + 1, all.len() as int);
            }
        }
        let (name, configured) = item;
        let family = match read_family(name.as_str()) {
            Some(family) => family,
            None => {
                return Err(
                    WombatError::Configuration(
                        cat5(
                            "unknown task interpreter `",
                            name.as_str(),
                            "` in `",
                            path,
                            "`; expected python, shell, bash, or lua",
                        ),
                    ),
                );
            },
        };
        if configured.command.as_str().is_empty() {
            return Err(
                WombatError::Configuration(
                    cat5(
                        "task interpreter `",
                        name.as_str(),
                        "` in `",
                        path,
                        "` requires a non-empty command",
                    ),
                ),
            );
        }
        let command = expand_interpreter_command(configured.command.as_str(), home, path)?;
        let ghost sofar = list@;
        list.push(
            (
                name,
                TaskRunner::Interpreter {
                    contract_version: 1,
                    family,
                    command,
                    args: configured.args,
                },
            ),
        );
        proof {
            assert forall|i: int| 0 <= i < count + 1 implies runner_is(
                #[trigger] list@[i],
                all[i].0,
                all[i].1,
                home,
            ) by {
                if i < count {
                    assert(list@[i] == sofar[i]);
                }
            }
            count = count + 1;
        }
    }
    Ok(list)
}

/// Where configuration is kept: `None` where neither variable says it.
pub open spec fn config_root(home: Option<&str>, xdg: Option<&str>) -> std::result::Result<
    Option<Seq<char>>,
    Seq<char>,
> {
    match xdg {
        Some(path) => if absolute(path@) {
            Ok(Some(path@))
        } else {
            Err("XDG_CONFIG_HOME must be absolute, got `"@ + path@ + "`"@)
        },
        None => match home {
            Some(home) => Ok(Some(path_join(home@, ".config"@))),
            None => Ok(None),
        },
    }
}

fn find_config_root(home: Option<&str>, xdg: Option<&str>) -> (r: Result<Option<String>>)
    ensures
        match config_root(home, xdg) {
            Ok(Some(path)) => r matches Ok(Some(found)) && found@ == path,
            Ok(None) => r matches Ok(None),
            Err(message) => r is Err && is_configuration(r->Err_0, message),
        },
{
    match xdg {
        Some(path) => {
            if !is_absolute(path) {
                return Err(
                    WombatError::Configuration(
                        cat3("XDG_CONFIG_HOME must be absolute, got `", path, "`"),
                    ),
                );
            }
            Ok(Some(path.to_string()))
        },
        None => match home {
            Some(home) => Ok(Some(join_path(home, ".config"))),
            None => Ok(None),
        },
    }
}

/// The file of the configuration of a user, or why there is none.
pub open spec fn config_file(home: Option<&str>, xdg: Option<&str>) -> std::result::Result<
    Seq<char>,
    Seq<char>,
> {
    match config_root(home, xdg) {
        Err(message) => Err(message),
        Ok(None) => Err("HOME is not set; cannot locate Wombat configuration"@),
        Ok(Some(root)) => Ok(path_join(root, "wombat/config.toml"@)),
    }
}

/// Finds the file of the configuration of a user. `home` and `xdg` are the variables
/// that say where configuration is kept.
pub fn user_config_path(home: Option<&str>, xdg: Option<&str>) -> (r: Result<String>)
    ensures
        match config_file(home, xdg) {
            Ok(path) => r is Ok && r->Ok_0@ == path,
            Err(message) => r is Err && is_configuration(r->Err_0, message),
        },
{
    match find_config_root(home, xdg)? {
        Some(root) => Ok(join_path(root.as_str(), "wombat/config.toml")),
        None => Err(
            WombatError::configuration("HOME is not set; cannot locate Wombat configuration"),
        ),
    }
}

/// Finds the file that runners are configured in: none where no variable says where
/// configuration is kept.
pub fn runners_config_path(home: Option<&str>, xdg: Option<&str>) -> (r: Result<Option<String>>)
    ensures
        match config_root(home, xdg) {
            Ok(Some(root)) => r matches Ok(Some(path)) && path@ == path_join(
                root,
                "wombat/config.toml"@,
            ),
            Ok(None) => r matches Ok(None),
            Err(message) => r is Err && is_configuration(r->Err_0, message),
        },
{
    match find_config_root(home, xdg)? {
        Some(root) => Ok(Some(join_path(root.as_str(), "wombat/config.toml"))),
        None => Ok(None),
    }
}

/// The repository that a configuration names, or what is wrong with it.
pub open spec fn configured_repository(path: Seq<char>, value: Seq<char>, home: Seq<char>) -> std::result::Result<
    Seq<char>,
    Seq<char>,
> {
    if value == "~"@ || value == "~/"@ {
        Ok(home)
    } else if "~/"@.is_prefix_of(value) {
        Ok(path_join(home, value.skip("~/"@.len() as int)))
    } else if absolute(value) {
        Ok(value)
    } else {
        Err("repository in `"@ + path + "` must be absolute or begin with `~/`"@)
    }
}

/// Finds the repository that a configuration names.
pub fn repository_path(path: &str, value: &str, home: &str) -> (r: Result<String>)
    ensures
        match configured_repository(path@, value@, home@) {
            Ok(repository) => r is Ok && r->Ok_0@ == repository,
            Err(message) => r is Err && is_configuration(r->Err_0, message),
        },
{
    if same(value, "~") || same(value, "~/") {
        return Ok(home.to_string());
    }
    if let Some(relative) = strip_prefix(value, "~/") {
        return Ok(join_path(home, relative.as_str()));
    }
    if !is_absolute(value) {
        return Err(
            WombatError::Configuration(
                cat3("repository in `", path, "` must be absolute or begin with `~/`"),
            ),
        );
    }
    Ok(value.to_string())
}

/// What stands at the file of the configuration of a user.
#[derive(Debug, PartialEq)]
pub enum FoundConfig {
    /// Nothing
    Missing,
    /// Something that could not be read as a configuration, and why
    Failed(WombatError),
    /// A configuration
    Read(UserConfig),
}

/// Where a repository that is not named on the command line is looked up.
#[derive(Debug, PartialEq)]
pub enum SourceLookup {
    /// It is named on the command line
    Named(String),
    /// In this file, beneath this home directory
    Config {
        /// The file
        path: String,
        /// The home directory
        home: String,
    },
}

/// Where a repository is looked up, or why it is not.
pub open spec fn lookup(
    explicit: Option<&str>,
    current: Seq<char>,
    home: Option<&str>,
    xdg: Option<&str>,
) -> std::result::Result<std::result::Result<Seq<char>, (Seq<char>, Seq<char>)>, Seq<char>> {
    match explicit {
        Some(path) => Ok(Ok(path_join(current, path@))),
        None => match home {
            None => Err(
                "HOME is not set; pass `--source` explicitly or configure a home directory"@,
            ),
            Some(home) => match config_root(Some(home), xdg) {
                Err(message) => Err(message),
                Ok(root) => Ok(Err((path_join(root->0, "wombat/config.toml"@), home@))),
            },
        },
    }
}

/// Decides where a repository is looked up: a path on the command line comes before
/// the configuration of the user. Nothing is inferred from the working directory.
pub fn select_source_with(
    explicit: Option<&str>,
    current: &str,
    home: Option<&str>,
    xdg: Option<&str>,
) -> (r: Result<SourceLookup>)
    ensures
        match lookup(explicit, current@, home, xdg) {
            Ok(Ok(path)) => r matches Ok(SourceLookup::Named(p)) && p@ == path,
            Ok(Err(place)) => r matches Ok(SourceLookup::Config { path: p, home: h }) && p@
                == place.0 && h@ == place.1,
            Err(message) => r is Err && is_configuration(r->Err_0, message),
        },
{
    if let Some(path) = explicit {
        return Ok(SourceLookup::Named(join_path(current, path)));
    }
    let home = match home {
        Some(home) => home,
        None => {
            return Err(
                WombatError::configuration(
                    "HOME is not set; pass `--source` explicitly or configure a home directory",
                ),
            );
        },
    };
    match find_config_root(Some(home), xdg)? {
        Some(root) => Ok(
            SourceLookup::Config {
                path: join_path(root.as_str(), "wombat/config.toml"),
                home: home.to_string(),
            },
        ),
        None => Ok(
            SourceLookup::Config {
                path: join_path(home, "wombat/config.toml"),
                home: home.to_string(),
            },
        ),
    }
}

/// Whether the repository of a user is the one it should be.
pub open spec fn source_outcome(
    r: Result<String>,
    path: Seq<char>,
    home: Seq<char>,
    found: FoundConfig,
) -> bool {
    match found {
        FoundConfig::Missing => r is Ok && r->Ok_0@ == path_join(home, ".local/share/wombat"@),
        FoundConfig::Failed(error) => r is Err && r->Err_0 == error,
        FoundConfig::Read(config) => if version_problem(config.format_version, path) is Some {
            reports(r, version_problem(config.format_version, path))
        } else {
            match configured_repository(path, config.repository@, home) {
                Ok(repository) => r is Ok && r->Ok_0@ == repository,
                Err(message) => r is Err && is_configuration(r->Err_0, message),
            }
        },
    }
}

/// Finds the repository of a user: the configured one, or the one beneath the home
/// directory where nothing is configured.
pub fn resolve_source(path: &str, home: &str, found: FoundConfig) -> (r: Result<String>)
    ensures
        source_outcome(r, path@, home@, found),
{
    match found {
        FoundConfig::Missing => Ok(join_path(home, ".local/share/wombat")),
        FoundConfig::Failed(error) => Err(error),
        FoundConfig::Read(config) => {
            check_version(&config, path)?;
            repository_path(path, config.repository.as_str(), home)
        },
    }
}

/// Where the repository was named.
#[derive(Clone, Copy, Debug, PartialEq, Eq, Structural)]
pub enum SourceOrigin {
    /// On the command line
    Explicit,
    /// In the configuration of the user
    Configured,
    /// Nowhere
    Default,
}

/// The repository and where it was named.
#[derive(Debug, PartialEq)]
pub struct SourceResolution {
    /// The repository
    pub source: String,
    /// Where it was named
    pub origin: SourceOrigin,
    /// The file of the configuration
    pub config_path: String,
    /// Whether that is there
    pub config_exists: bool,
}

/// Tells where the repository was named. `config_path` is the file of the
/// configuration, `config_exists` whether it is there, and `source` the repository,
/// each as far as it could be found.
pub fn describe_source(
    explicit: bool,
    config_path: Result<String>,
    config_exists: bool,
    source: Result<String>,
) -> (r: Result<SourceResolution>)
    ensures
        match config_path {
            Err(error) => r is Err && r->Err_0 == error,
            Ok(path) => match source {
                Err(error) => r is Err && r->Err_0 == error,
                Ok(source) => r is Ok && r->Ok_0 == (SourceResolution {
                    source,
                    origin: if explicit {
                        SourceOrigin::Explicit
                    } else if config_exists {
                        SourceOrigin::Configured
                    } else {
                        SourceOrigin::Default
                    },
                    config_path: path,
                    config_exists,
                }),
            },
        },
{
    let config_path = config_path?;
    let origin = if explicit {
        SourceOrigin::Explicit
    } else if config_exists {
        SourceOrigin::Configured
    } else {
        SourceOrigin::Default
    };
    let source = source?;
    Ok(SourceResolution { source, origin, config_path, config_exists })
}

/// Whether a line opens a table.
pub open spec fn opens_table(line: Seq<char>) -> bool {
    "["@.is_prefix_of(trimmed_start(line))
}

/// Whether a line sets the repository.
pub open spec fn sets_repository(line: Seq<char>) -> bool {
    "repository"@.is_prefix_of(trimmed_start(line))
}

/// The first line from one on that sets the repository above all tables.
pub open spec fn key_line(all: Seq<Seq<char>>, from: int) -> Option<int>
    decreases all.len() - from,
{
    if from < 0 || from >= all.len() || opens_table(all[from]) {
        None
    } else if sets_repository(all[from]) {
        Some(from)
    } else {
        key_line(all, from + 1)
    }
}

/// The first line from one on that opens a table, or the end.
pub open spec fn table_line(all: Seq<Seq<char>>, from: int) -> int
    decreases all.len() - from,
{
    if from < 0 || from >= all.len() || opens_table(all[from]) {
        from
    } else {
        table_line(all, from + 1)
    }
}

/// Where the piece at `at` begins in the text that the pieces and the newlines between
/// them make up.
pub open spec fn start_of(all: Seq<Seq<char>>, at: int) -> int
    decreases at,
{
    if at <= 0 {
        0
    } else {
        start_of(all, at - 1) + all[at - 1].len() + 1
    }
}

/// Where the text of the line at `at` ends: before the newline that ends it, or the
/// carriage return and the newline.
pub open spec fn end_of(all: Seq<Seq<char>>, at: int) -> int {
    if at < all.len() - 1 && all[at].len() > 0 && all[at].last() == '\r' {
        start_of(all, at) + all[at].len() - 1
    } else {
        start_of(all, at) + all[at].len()
    }
}

/// The text of the line that sets the repository, where one does.
pub open spec fn recorded(text: Seq<char>) -> Option<Seq<char>> {
    let all = pieces(text, '\n');
    match key_line(all, 0) {
        Some(at) => Some(text.subrange(start_of(all, at), end_of(all, at))),
        None => None,
    }
}

/// A text with `line` in place of the text of the line that sets the repository or,
/// where none does, put in as a line of its own above all tables. Every other character
/// stays, those that end the lines among them.
pub open spec fn rewritten(text: Seq<char>, line: Seq<char>) -> Seq<char> {
    let all = pieces(text, '\n');
    match key_line(all, 0) {
        Some(at) => text.take(start_of(all, at)) + line + text.skip(end_of(all, at)),
        None => {
            let at = table_line(all, 0);
            if at < all.len() {
                text.take(start_of(all, at)) + (line + "\n"@) + text.skip(start_of(all, at))
            } else if all.last().len() == 0 {
                text + (line + "\n"@)
            } else {
                text + ("\n"@ + line + "\n"@)
            }
        },
    }
}

/// The line that sets the repository.
pub open spec fn repository_line(value: Seq<char>) -> Seq<char> {
    "repository = \""@ + value + "\""@
}

fn find_key(all: &Vec<String>) -> (r: Option<usize>)
    ensures
        match r {
            Some(at) => key_line(views(all@), 0) == Some(at as int) && at < all@.len(),
            None => key_line(views(all@), 0) is None,
        },
{
    let ghost texts = views(all@);
    let mut i: usize = 0;
    while i < all.len()
        invariant
            0 <= i <= all@.len(),
            texts == views(all@),
            texts.len() == all@.len(),
            key_line(texts, 0) == key_line(texts, i as int),
        decreases all@.len() - i,
    {
        assert(texts[i as int] == all@[i as int]@);
        let start = trim_start(all[i].as_str());
        if starts_with(start.as_str(), "[") {
            return None;
        }
        if starts_with(start.as_str(), "repository") {
            return Some(i);
        }
        i += 1;
    }
    None
}

fn find_table(all: &Vec<String>) -> (r: usize)
    ensures
        table_line(views(all@), 0) == r,
        r <= all@.len(),
{
    let ghost texts = views(all@);
    let mut i: usize = 0;
    while i < all.len()
        invariant
            0 <= i <= all@.len(),
            texts == views(all@),
            texts.len() == all@.len(),
            table_line(texts, 0) == table_line(texts, i as int),
        decreases all@.len() - i,
    {
        assert(texts[i as int] == all@[i as int]@);
        let start = trim_start(all[i].as_str());
        if starts_with(start.as_str(), "[") {
            return i;
        }
        i += 1;
    }
    i
}

/// Where a piece begins.
fn position_of(all: &Vec<String>, at: usize, Ghost(text): Ghost<Seq<char>>) -> (r: usize)
    requires
        views(all@) == pieces(text, '\n'),
        text.len() <= usize::MAX,
        at < all@.len(),
    ensures
        r == start_of(pieces(text, '\n'), at as int),
        r + all@[at as int]@.len() <= text.len(),
{
    let ghost texts = pieces(text, '\n');
    let mut r: usize = 0;
    let mut i: usize = 0;
    while i < at
        invariant
            0 <= i <= at < all@.len(),
            texts == pieces(text, '\n'),
            views(all@) == texts,
            text.len() <= usize::MAX,
            r == start_of(texts, i as int),
        decreases at - i,
    {
        proof {
            lemma_around(text, i + 1);
            assert(texts[i as int] == all@[i as int]@);
            assert(start_of(texts, i + 1) == start_of(texts, i as int) + texts[i as int].len() + 1);
        }
        r = r + all[i].unicode_len() + 1;
        i += 1;
    }
    proof {
        lemma_around(text, at as int);
        assert(texts[at as int] == all@[at as int]@);
    }
    r
}

/// Sets the repository in a configuration and leaves every other character as it is.
pub fn rewrite_repository(contents: &str, value: &str) -> (r: String)
    ensures
        r@ == rewritten(contents@, repository_line(value@)),
{
    let chars = chars_of(contents);
    let all = split(contents, '\n');
    let ghost texts = pieces(contents@, '\n');
    let line = cat3("repository = \"", value, "\"");
    proof {
        lemma_pieces(contents@, '\n');
        assert(views(all@) == texts);
        assert(texts.last() == all@[all@.len() - 1]@);
        assert(chars.len() == chars@.len());
    }
    match find_key(&all) {
        Some(at) => {
            let start = position_of(&all, at, Ghost(contents@));
            let long: usize = all[at].unicode_len();
            let mut end: usize = start + long;
            assert(texts[at as int] == all@[at as int]@);
            proof {
                lemma_around(contents@, at as int);
                assert(long > 0 ==> texts[at as int].last() == contents@[end - 1]);
            }
            if at < all.len() - 1 && long > 0 && chars[end - 1] == '\r' {
                end = end - 1;
            }
            let before = text_of(&chars, 0, start);
            let after = text_of(&chars, end, chars.len());
            assert(before@ =~= contents@.take(start as int));
            assert(after@ =~= contents@.skip(end as int));
            cat3(before.as_str(), line.as_str(), after.as_str())
        },
        None => {
            let at = find_table(&all);
            let ended = cat2(line.as_str(), "\n");
            if at < all.len() {
                let start = position_of(&all, at, Ghost(contents@));
                let before = text_of(&chars, 0, start);
                let after = text_of(&chars, start, chars.len());
                assert(before@ =~= contents@.take(start as int));
                assert(after@ =~= contents@.skip(start as int));
                cat3(before.as_str(), ended.as_str(), after.as_str())
            } else if all[all.len() - 1].unicode_len() == 0 {
                cat2(contents, ended.as_str())
            } else {
                let r = cat3(contents, "\n", ended.as_str());
                assert(r@ =~= contents@ + ("\n"@ + line@ + "\n"@));
                r
            }
        },
    }
}

/// What a configuration holds once the repository is set. `existing` is what it held
/// before.
pub fn set_configured_source(source: &str, existing: Option<&str>) -> (r: Result<String>)
    ensures
        reports(
            r,
            problem_if(!absolute(source@), "source `"@ + source@ + "` must be absolute"@),
        ),
        r matches Ok(text) ==> text@ == match existing {
            None => "format_version = 2\n"@ + repository_line(source@) + "\n"@,
            Some(contents) => rewritten(contents@, repository_line(source@)),
        },
{
    if !is_absolute(source) {
        return Err(
            WombatError::Configuration(cat3("source `", source, "` must be absolute")),
        );
    }
    match existing {
        None => {
            let line = cat3("repository = \"", source, "\"");
            Ok(cat3("format_version = 2\n", line.as_str(), "\n"))
        },
        Some(contents) => Ok(rewrite_repository(contents, source)),
    }
}

/// Setting the repository keeps every other character of a configuration: one stretch of
/// it gives way to another. Where the configuration set the repository, the stretch is the
/// text of that line. Where it did not, the stretch is empty and what comes in is one
/// line. Either way no table is opened before it.
#[verifier::rlimit(40)]
pub proof fn law_setting_the_repository_keeps_the_rest(text: Seq<char>, line: Seq<char>)
    ensures
        exists|start: int, end: int, between: Seq<char>|
            {
                &&& 0 <= start <= end <= text.len()
                &&& rewritten(text, line) == #[trigger] (text.take(start) + between + text.skip(
                    end,
                ))
                &&& start == 0 || text[start - 1] == '\n' || start == text.len()
                &&& forall|j: int|
                    0 <= j < pieces(text.take(start), '\n').len() ==> !opens_table(
                        #[trigger] pieces(text.take(start), '\n')[j],
                    )
                &&& if start < end {
                    &&& between == line
                    &&& sets_repository(text.subrange(start, end))
                    &&& !text.subrange(start, end).contains('\n')
                    &&& end == text.len() || text[end] == '\n' || (text[end] == '\r' && end + 1
                        < text.len() && text[end + 1] == '\n')
                } else {
                    &&& between == line + "\n"@ || (between == "\n"@ + line + "\n"@ && start
                        == text.len() && text.last() != '\n')
                }
            },
{
    let all = pieces(text, '\n');
    lemma_pieces(text, '\n');
    reveal_strlit("[");
    reveal_strlit("repository");
    match key_line(all, 0) {
        Some(at) => {
            lemma_key_line(all, 0);
            lemma_around(text, at);
            let start = start_of(all, at);
            let end = end_of(all, at);
            assert(text.subrange(start, end) =~= all[at].take(end - start));
            lemma_sets_without_return(all[at], end - start);
            assert(!all[at].contains('\n'));
            assert forall|j: int| 0 <= j < end - start implies text.subrange(start, end)[j]
                != '\n' by {
                assert(all[at][j] == text.subrange(start, end)[j]);
            }
            lemma_before(text, at);
            assert(rewritten(text, line) == text.take(start) + line + text.skip(end));
        },
        None => {
            let at = table_line(all, 0);
            lemma_table_line(all, 0);
            if at < all.len() {
                lemma_around(text, at);
                lemma_before(text, at);
                let start = start_of(all, at);
                assert(rewritten(text, line) == text.take(start) + (line + "\n"@) + text.skip(
                    start,
                ));
            } else {
                let start = text.len() as int;
                lemma_last_piece(text);
                assert(text.take(start) =~= text);
                assert(text.skip(start) =~= Seq::<char>::empty());
                let between = if all.last().len() == 0 {
                    line + "\n"@
                } else {
                    "\n"@ + line + "\n"@
                };
                assert(rewritten(text, line) =~= text.take(start) + between + text.skip(start));
            }
        },
    }
}

/// The repository that is set last stands, and nothing is left of one that was set
/// before.
pub proof fn law_the_last_repository_stands(text: Seq<char>, first: Seq<char>, second: Seq<char>)
    requires
        !first.contains('\n'),
    ensures
        rewritten(rewritten(text, repository_line(first)), repository_line(second)) == rewritten(
            text,
            repository_line(second),
        ),
{
    if key_line(pieces(text, '\n'), 0) is Some {
        lemma_last_replaced(text, first, second);
    } else if table_line(pieces(text, '\n'), 0) < pieces(text, '\n').len() {
        lemma_last_inserted(text, first, second);
    } else if pieces(text, '\n').last().len() == 0 {
        lemma_last_added(text, first, second);
    } else {
        lemma_last_behind(text, first, second);
    }
}

/// The repository that was set is the one that is set: the first line above all tables
/// that sets it is the line that was put there.
pub proof fn law_the_repository_is_recorded(text: Seq<char>, value: Seq<char>)
    requires
        !value.contains('\n'),
    ensures
        recorded(rewritten(text, repository_line(value))) == Some(repository_line(value)),
{
    if key_line(pieces(text, '\n'), 0) is Some {
        lemma_last_replaced(text, value, value);
    } else if table_line(pieces(text, '\n'), 0) < pieces(text, '\n').len() {
        lemma_last_inserted(text, value, value);
    } else if pieces(text, '\n').last().len() == 0 {
        lemma_last_added(text, value, value);
    } else {
        lemma_last_behind(text, value, value);
    }
}

/// Rewriting a text whose line at a place sets the repository replaces that line.
proof fn lemma_rewritten_at(
    once: Seq<char>,
    at: int,
    front: Seq<char>,
    line: Seq<char>,
    back: Seq<char>,
    other: Seq<char>,
)
    requires
        once == front + line + back,
        key_line(pieces(once, '\n'), 0) == Some(at),
        start_of(pieces(once, '\n'), at) == front.len(),
        end_of(pieces(once, '\n'), at) == front.len() + line.len(),
    ensures
        rewritten(once, other) == front + other + back,
        recorded(once) == Some(line),
{
    assert(once.take(front.len() as int) =~= front);
    assert(once.skip((front.len() + line.len()) as int) =~= back);
    assert(once.subrange(front.len() as int, (front.len() + line.len()) as int) =~= line);
}

/// The last repository stands and is found where a line is replaced.
#[verifier::spinoff_prover]
#[verifier::rlimit(40)]
proof fn lemma_last_replaced(text: Seq<char>, first: Seq<char>, second: Seq<char>)
    requires
        !first.contains('\n'),
        key_line(pieces(text, '\n'), 0) is Some,
    ensures
        rewritten(rewritten(text, repository_line(first)), repository_line(second)) == rewritten(
            text,
            repository_line(second),
        ),
        recorded(rewritten(text, repository_line(first))) == Some(repository_line(first)),
{
    let all = pieces(text, '\n');
    let line = repository_line(first);
    let other = repository_line(second);
    lemma_pieces(text, '\n');
    lemma_repository_line(first, Seq::empty());
    assert(line + Seq::<char>::empty() =~= line);
    reveal_strlit("\n");
    let once = rewritten(text, line);
    let at = key_line(all, 0)->0;
    lemma_key_line(all, 0);
    lemma_around(text, at);
    let start = start_of(all, at);
    let end = end_of(all, at);
    let ending = text.subrange(end, start + all[at].len());
    let piece = line + ending;
    assert(ending.len() > 0 ==> ending =~= seq!['\r']);
    lemma_repository_line(first, ending);
    lemma_replaced(text, at, piece);
    assert(once =~= text.take(start) + piece + text.skip(start + all[at].len()));
    let after = all.update(at, piece);
    assert forall|j: int| 0 <= j < at implies !opens_table(#[trigger] after[j])
        && !sets_repository(after[j]) by {
        assert(after[j] == all[j]);
    }
    lemma_key_first(after, 0, at);
    lemma_start_same(all, after, at);
    assert(end_of(after, at) == start + line.len());
    lemma_rewritten_at(once, at, text.take(start), line, text.skip(end), other);
}

/// The last repository stands and is found where a line is put in above a table.
#[verifier::spinoff_prover]
#[verifier::rlimit(40)]
proof fn lemma_last_inserted(text: Seq<char>, first: Seq<char>, second: Seq<char>)
    requires
        !first.contains('\n'),
        key_line(pieces(text, '\n'), 0) is None,
        table_line(pieces(text, '\n'), 0) < pieces(text, '\n').len(),
    ensures
        rewritten(rewritten(text, repository_line(first)), repository_line(second)) == rewritten(
            text,
            repository_line(second),
        ),
        recorded(rewritten(text, repository_line(first))) == Some(repository_line(first)),
{
    let all = pieces(text, '\n');
    let line = repository_line(first);
    let other = repository_line(second);
    lemma_pieces(text, '\n');
    lemma_repository_line(first, Seq::empty());
    assert(line + Seq::<char>::empty() =~= line);
    reveal_strlit("\n");
    let at = table_line(all, 0);
    lemma_table_line(all, 0);
    lemma_no_key(all, 0);
    lemma_around(text, at);
    let start = start_of(all, at);
    let back = "\n"@ + text.skip(start);
    let once = text.take(start) + line + back;
    lemma_inserted(text, at, line);
    assert(once =~= text.take(start) + line.push('\n') + text.skip(start));
    lemma_placed_line(all, all.insert(at, line), at, line);
    lemma_rewritten_at(once, at, text.take(start), line, back, other);
    assert(rewritten(text, line) =~= once);
    assert(rewritten(text, other) =~= text.take(start) + other + back);
}

/// The pieces of a line that sets the repository and of the newline behind it.
proof fn lemma_ended_line(value: Seq<char>)
    requires
        !value.contains('\n'),
    ensures
        ({
            let line = repository_line(value);
            &&& pieces(line + "\n"@, '\n') == seq![line, Seq::<char>::empty()]
            &&& sets_repository(line)
            &&& !opens_table(line)
            &&& line.len() > 0
            &&& line.last() == '"'
        }),
{
    let line = repository_line(value);
    lemma_repository_line(value, Seq::empty());
    assert(line + Seq::<char>::empty() =~= line);
    reveal_strlit("\n");
    lemma_pieces_single(line, '\n');
    lemma_pieces_concat(line, Seq::empty(), '\n');
    lemma_pieces_single(Seq::empty(), '\n');
    assert(line.push('\n') + Seq::<char>::empty() =~= line + "\n"@);
    assert(pieces(line + "\n"@, '\n') =~= seq![line, Seq::<char>::empty()]);
}

/// The pieces of a text that a newline ends, or that is empty, with a line behind it.
proof fn lemma_added_pieces(text: Seq<char>, line: Seq<char>)
    requires
        pieces(text, '\n').last().len() == 0,
        pieces(line + "\n"@, '\n') == seq![line, Seq::<char>::empty()],
    ensures
        pieces(text + line + "\n"@, '\n') == pieces(text, '\n').drop_last() + seq![
            line,
            Seq::<char>::empty(),
        ],
        start_of(pieces(text, '\n'), pieces(text, '\n').len() - 1) == text.len(),
{
    let all = pieces(text, '\n');
    let last = (all.len() - 1) as int;
    let ended = line + "\n"@;
    lemma_pieces(text, '\n');
    lemma_last_piece(text);
    lemma_around(text, last);
    if last > 0 {
        let front = text.drop_last();
        lemma_pieces_concat(front, ended, '\n');
        assert(text.take(text.len() as int - 1) =~= front);
        assert(text + line + "\n"@ =~= front.push('\n') + ended);
        assert(all.take(last) =~= all.drop_last());
    } else {
        assert(text =~= Seq::<char>::empty());
        assert(text + line + "\n"@ =~= ended);
        assert(all.drop_last() + seq![line, Seq::<char>::empty()] =~= seq![
            line,
            Seq::<char>::empty(),
        ]);
    }
}

/// The pieces of a text that no newline ends, with a newline and a line behind it.
proof fn lemma_behind_pieces(text: Seq<char>, line: Seq<char>)
    requires
        pieces(line + "\n"@, '\n') == seq![line, Seq::<char>::empty()],
    ensures
        pieces(text + "\n"@ + line + "\n"@, '\n') == pieces(text, '\n') + seq![
            line,
            Seq::<char>::empty(),
        ],
        start_of(pieces(text, '\n'), pieces(text, '\n').len() as int) == text.len() + 1,
{
    let all = pieces(text, '\n');
    let last = (all.len() - 1) as int;
    reveal_strlit("\n");
    lemma_pieces(text, '\n');
    lemma_around(text, last);
    lemma_pieces_concat(text, line + "\n"@, '\n');
    assert(text + "\n"@ + line + "\n"@ =~= text.push('\n') + (line + "\n"@));
    assert(start_of(all, last + 1) == start_of(all, last) + all[last].len() + 1);
}

/// A text with a newline behind it, where none ends it.
pub open spec fn parted(text: Seq<char>) -> Seq<char> {
    if pieces(text, '\n').last().len() == 0 {
        text
    } else {
        text + "\n"@
    }
}

/// Where nothing sets the repository and no table is opened, a line comes in at the end.
proof fn lemma_rewritten_end(text: Seq<char>, line: Seq<char>)
    requires
        key_line(pieces(text, '\n'), 0) is None,
        table_line(pieces(text, '\n'), 0) >= pieces(text, '\n').len(),
    ensures
        rewritten(text, line) == parted(text) + line + "\n"@,
{
    assert(rewritten(text, line) =~= parted(text) + line + "\n"@);
}

/// Where nothing sets the repository and no table is opened, no line does either.
proof fn lemma_plain_lines(all: Seq<Seq<char>>)
    requires
        key_line(all, 0) is None,
        table_line(all, 0) >= all.len(),
    ensures
        forall|j: int| 0 <= j < all.len() ==> !opens_table(#[trigger] all[j]),
        forall|j: int| 0 <= j < all.len() ==> !sets_repository(#[trigger] all[j]),
{
    lemma_table_line(all, 0);
    lemma_no_key(all, 0);
}

/// Where pieces set the repository first at a place, that is the place to replace.
proof fn lemma_placed_line(all: Seq<Seq<char>>, after: Seq<Seq<char>>, at: int, line: Seq<char>)
    requires
        0 <= at <= all.len(),
        at < after.len(),
        forall|j: int| 0 <= j < at ==> #[trigger] after[j] == all[j],
        forall|j: int| 0 <= j < at ==> !opens_table(#[trigger] all[j]),
        forall|j: int| 0 <= j < at ==> !sets_repository(#[trigger] all[j]),
        after[at] == line,
        sets_repository(line),
        !opens_table(line),
        line.len() > 0,
        line.last() != '\r',
    ensures
        key_line(after, 0) == Some(at),
        start_of(after, at) == start_of(all, at),
        end_of(after, at) == start_of(all, at) + line.len(),
{
    lemma_key_first(after, 0, at);
    lemma_start_same(all, after, at);
}

/// The last repository stands and is found where a line is put in behind the last newline.
#[verifier::spinoff_prover]
#[verifier::rlimit(40)]
proof fn lemma_last_added(text: Seq<char>, first: Seq<char>, second: Seq<char>)
    requires
        !first.contains('\n'),
        key_line(pieces(text, '\n'), 0) is None,
        table_line(pieces(text, '\n'), 0) >= pieces(text, '\n').len(),
        pieces(text, '\n').last().len() == 0,
    ensures
        rewritten(rewritten(text, repository_line(first)), repository_line(second)) == rewritten(
            text,
            repository_line(second),
        ),
        recorded(rewritten(text, repository_line(first))) == Some(repository_line(first)),
{
    let all = pieces(text, '\n');
    let line = repository_line(first);
    let other = repository_line(second);
    lemma_pieces(text, '\n');
    lemma_plain_lines(all);
    lemma_ended_line(first);
    lemma_rewritten_end(text, line);
    lemma_rewritten_end(text, other);
    let last = (all.len() - 1) as int;
    let after = all.drop_last() + seq![line, Seq::<char>::empty()];
    let once = text + line + "\n"@;
    lemma_added_pieces(text, line);
    lemma_placed_line(all, after, last, line);
    lemma_rewritten_at(once, last, text, line, "\n"@, other);
}

/// The last repository stands and is found where a line is put in behind a line that
/// nothing ends.
#[verifier::spinoff_prover]
#[verifier::rlimit(40)]
proof fn lemma_last_behind(text: Seq<char>, first: Seq<char>, second: Seq<char>)
    requires
        !first.contains('\n'),
        key_line(pieces(text, '\n'), 0) is None,
        table_line(pieces(text, '\n'), 0) >= pieces(text, '\n').len(),
        pieces(text, '\n').last().len() > 0,
    ensures
        rewritten(rewritten(text, repository_line(first)), repository_line(second)) == rewritten(
            text,
            repository_line(second),
        ),
        recorded(rewritten(text, repository_line(first))) == Some(repository_line(first)),
{
    let all = pieces(text, '\n');
    let line = repository_line(first);
    let other = repository_line(second);
    lemma_pieces(text, '\n');
    lemma_plain_lines(all);
    lemma_ended_line(first);
    lemma_rewritten_end(text, line);
    lemma_rewritten_end(text, other);
    let after = all + seq![line, Seq::<char>::empty()];
    let front = text + "\n"@;
    let once = front + line + "\n"@;
    lemma_behind_pieces(text, line);
    lemma_placed_line(all, after, all.len() as int, line);
    assert(front.len() == text.len() + 1) by {
        reveal_strlit("\n");
    }
    lemma_rewritten_at(once, all.len() as int, front, line, "\n"@, other);
}

/// A piece stands at its place in the text, between newlines.
#[verifier::rlimit(40)]
proof fn lemma_around(text: Seq<char>, at: int)
    requires
        0 <= at < pieces(text, '\n').len(),
    ensures
        ({
            let all = pieces(text, '\n');
            let start = start_of(all, at);
            let end = start + all[at].len();
            &&& 0 <= start <= end <= text.len()
            &&& text.subrange(start, end) == all[at]
            &&& at == 0 ==> start == 0
            &&& at > 0 ==> start > 0 && text[start - 1] == '\n' && pieces(
                text.take(start - 1),
                '\n',
            ) == all.take(at)
            &&& at == all.len() - 1 ==> end == text.len()
            &&& at < all.len() - 1 ==> end < text.len() && text[end] == '\n' && pieces(
                text.skip(end + 1),
                '\n',
            ) == all.skip(at + 1)
        }),
    decreases text.len(),
{
    let all = pieces(text, '\n');
    if text.len() > 0 {
        let front = text.drop_last();
        let rest = pieces(front, '\n');
        lemma_pieces(front, '\n');
        let end = start_of(all, at) + all[at].len();
        if text.last() == '\n' {
            if at < rest.len() {
                lemma_start_same(rest, all, at);
                lemma_around(front, at);
                let start = start_of(rest, at);
                let until = start + rest[at].len();
                assert(text.subrange(start, until) =~= front.subrange(start, until));
                if at > 0 {
                    assert(text.take(start - 1) =~= front.take(start - 1));
                    assert(all.take(at) =~= rest.take(at));
                }
                if at < rest.len() - 1 {
                    assert(text.skip(until + 1).drop_last() =~= front.skip(until + 1));
                    assert(all.skip(at + 1) =~= rest.skip(at + 1).push(Seq::empty()));
                } else {
                    assert(text.skip(until + 1) =~= Seq::<char>::empty());
                    assert(all.skip(at + 1) =~= seq![Seq::<char>::empty()]);
                }
            } else {
                lemma_around(front, at - 1);
                lemma_start_same(rest, all, at);
                lemma_start_same(rest, all, at - 1);
                assert(start_of(all, at) == start_of(all, at - 1) + all[at - 1].len() + 1);
                let start = start_of(all, at);
                assert(start == text.len());
                assert(text.subrange(start, start) =~= Seq::<char>::empty());
                assert(text.take(start - 1) =~= front);
                assert(all.take(at) =~= rest);
            }
        } else {
            lemma_around(front, at);
            lemma_start_same(rest, all, at);
            let start = start_of(rest, at);
            let until = start + rest[at].len();
            if at > 0 {
                assert(text.take(start - 1) =~= front.take(start - 1));
                assert(all.take(at) =~= rest.take(at));
            }
            if at < rest.len() - 1 {
                assert(text.subrange(start, until) =~= front.subrange(start, until));
                assert(text.skip(until + 1).drop_last() =~= front.skip(until + 1));
                let tail = rest.skip(at + 1);
                assert(tail.last() == rest.last());
                assert(all.skip(at + 1) =~= tail.drop_last().push(tail.last().push(text.last())));
            } else {
                assert(text.subrange(start, end) =~= front.subrange(start, until).push(text.last()));
            }
        }
    }
}

/// No table is opened before a line that none is opened above.
proof fn lemma_before(text: Seq<char>, at: int)
    requires
        0 <= at < pieces(text, '\n').len(),
        forall|j: int| 0 <= j < at ==> !opens_table(#[trigger] pieces(text, '\n')[j]),
    ensures
        ({
            let before = pieces(text.take(start_of(pieces(text, '\n'), at)), '\n');
            forall|j: int| 0 <= j < before.len() ==> !opens_table(#[trigger] before[j])
        }),
{
    let all = pieces(text, '\n');
    let start = start_of(all, at);
    reveal_strlit("[");
    lemma_around(text, at);
    if at > 0 {
        assert(text.take(start).drop_last() =~= text.take(start - 1));
        let before = pieces(text.take(start), '\n');
        assert(before == all.take(at).push(Seq::empty()));
        assert forall|j: int| 0 <= j < before.len() implies !opens_table(#[trigger] before[j]) by {
            if j < at {
                assert(before[j] == all[j]);
            }
        }
    }
}

/// The last piece is empty where nothing follows the last newline.
proof fn lemma_last_piece(text: Seq<char>)
    ensures
        pieces(text, '\n').last().len() == 0 <==> text.len() == 0 || text.last() == '\n',
        text.len() == 0 ==> pieces(text, '\n').len() == 1,
        forall|j: int|
            0 <= j < pieces(text, '\n').len() && table_line(pieces(text, '\n'), 0) >= pieces(
                text,
                '\n',
            ).len() ==> !opens_table(#[trigger] pieces(text, '\n')[j]),
{
    lemma_table_line(pieces(text, '\n'), 0);
}

/// White space at the start stays where what is cut off lies behind it.
proof fn lemma_leading_take(text: Seq<char>, n: int)
    requires
        leading_space(text) < n <= text.len(),
    ensures
        leading_space(text.take(n)) == leading_space(text),
    decreases text.len(),
{
    if is_whitespace(text[0]) {
        lemma_leading_take(text.skip(1), n - 1);
        assert(text.take(n).skip(1) =~= text.skip(1).take(n - 1));
    }
}

/// A line sets the repository without the carriage return at its end too.
proof fn lemma_sets_without_return(line: Seq<char>, n: int)
    requires
        sets_repository(line),
        n == line.len() || (n == line.len() - 1 && line.last() == '\r'),
    ensures
        n > 0,
        sets_repository(line.take(n)),
{
    reveal_strlit("repository");
    lemma_leading_bound(line);
    let k = leading_space(line) as int;
    let rest = trimmed_start(line);
    assert(rest.len() >= 10);
    assert(rest[9] == line[k + 9]);
    assert(rest[9] == "repository"@[9]);
    lemma_leading_take(line, n);
    let cut = trimmed_start(line.take(n));
    assert forall|j: int| 0 <= j < 10 implies #[trigger] cut[j] == "repository"@[j] by {
        assert(rest[j] == "repository"@[j]);
    }
}

/// White space at the start is part of the text.
proof fn lemma_leading_bound(text: Seq<char>)
    ensures
        leading_space(text) <= text.len(),
    decreases text.len(),
{
    if text.len() > 0 && is_whitespace(text[0]) {
        lemma_leading_bound(text.skip(1));
    }
}

/// The line that sets the repository does so, with a carriage return behind it or not.
proof fn lemma_repository_line(value: Seq<char>, ending: Seq<char>)
    requires
        !value.contains('\n'),
        ending.len() == 0 || ending == seq!['\r'],
    ensures
        ({
            let line = repository_line(value);
            let piece = line + ending;
            &&& sets_repository(piece)
            &&& !opens_table(piece)
            &&& !piece.contains('\n')
            &&& line.len() > 0
            &&& line.last() == '"'
        }),
{
    reveal_strlit("repository");
    reveal_strlit("repository = \"");
    reveal_strlit("\"");
    reveal_strlit("[");
    let line = repository_line(value);
    let piece = line + ending;
    assert(piece[0] == 'r');
    assert(trimmed_start(piece) =~= piece);
    assert(piece[0] == "repository = \""@[0]);
    assert forall|j: int| 0 <= j < 10 implies #[trigger] "repository"@[j] == piece[j] by {
        assert(piece[j] == "repository = \""@[j]);
    }
    assert forall|j: int| 0 <= j < piece.len() implies piece[j] != '\n' by {
        if j < 14 {
            assert(piece[j] == "repository = \""@[j]);
        } else if j < 14 + value.len() {
            assert(piece[j] == value[j - 14]);
        }
    }
}

/// The pieces of a text with one piece replaced.
#[verifier::rlimit(40)]
proof fn lemma_replaced(text: Seq<char>, at: int, piece: Seq<char>)
    requires
        0 <= at < pieces(text, '\n').len(),
        !piece.contains('\n'),
    ensures
        ({
            let all = pieces(text, '\n');
            let start = start_of(all, at);
            pieces(text.take(start) + piece + text.skip(start + all[at].len()), '\n')
                == all.update(at, piece)
        }),
{
    let all = pieces(text, '\n');
    let start = start_of(all, at);
    let end = start + all[at].len();
    let whole = text.take(start) + piece + text.skip(end);
    lemma_around(text, at);
    lemma_pieces_single(piece, '\n');
    let tail = piece + text.skip(end);
    let later = seq![piece] + all.skip(at + 1);
    if at < all.len() - 1 {
        lemma_pieces_concat(piece, text.skip(end + 1), '\n');
        assert(tail =~= piece.push('\n') + text.skip(end + 1));
        assert(pieces(tail, '\n') == later);
    } else {
        assert(tail =~= piece);
        assert(pieces(tail, '\n') =~= later);
    }
    if at > 0 {
        lemma_pieces_concat(text.take(start - 1), tail, '\n');
        assert(whole =~= text.take(start - 1).push('\n') + tail);
        assert(all.take(at) + later =~= all.update(at, piece));
    } else {
        assert(whole =~= tail);
        assert(later =~= all.update(at, piece));
    }
}

/// The pieces of a text with one line put in.
#[verifier::rlimit(40)]
proof fn lemma_inserted(text: Seq<char>, at: int, line: Seq<char>)
    requires
        0 <= at < pieces(text, '\n').len(),
        !line.contains('\n'),
    ensures
        ({
            let all = pieces(text, '\n');
            let start = start_of(all, at);
            pieces(text.take(start) + line.push('\n') + text.skip(start), '\n') == all.insert(
                at,
                line,
            )
        }),
{
    let all = pieces(text, '\n');
    let start = start_of(all, at);
    let whole = text.take(start) + line.push('\n') + text.skip(start);
    lemma_around(text, at);
    lemma_pieces_single(line, '\n');
    let tail = line.push('\n') + text.skip(start);
    lemma_pieces_concat(line, text.skip(start), '\n');
    let later = seq![line] + all.skip(at);
    if at > 0 {
        lemma_around(text, at - 1);
        assert(start == start_of(all, at - 1) + all[at - 1].len() + 1);
        assert(pieces(text.skip(start), '\n') == all.skip(at));
        lemma_pieces_concat(text.take(start - 1), tail, '\n');
        assert(whole =~= text.take(start - 1).push('\n') + tail);
        assert(all.take(at) + later =~= all.insert(at, line));
    } else {
        assert(text.skip(start) =~= text);
        assert(all.skip(at) =~= all);
        assert(whole =~= tail);
        assert(later =~= all.insert(at, line));
    }
}

/// The first line that sets the repository is the one to replace.
proof fn lemma_key_first(all: Seq<Seq<char>>, from: int, at: int)
    requires
        0 <= from <= at < all.len(),
        forall|j: int|
            from <= j < at ==> !opens_table(#[trigger] all[j]) && !sets_repository(all[j]),
        sets_repository(all[at]),
        !opens_table(all[at]),
    ensures
        key_line(all, from) == Some(at),
    decreases at - from,
{
    if from < at {
        assert(!opens_table(all[from]));
        lemma_key_first(all, from + 1, at);
    }
}

/// Where no line sets the repository, none above the tables does.
proof fn lemma_no_key(all: Seq<Seq<char>>, from: int)
    requires
        0 <= from <= all.len(),
        key_line(all, from) is None,
    ensures
        forall|j: int| from <= j < table_line(all, from) ==> !sets_repository(#[trigger] all[j]),
    decreases all.len() - from,
{
    if from < all.len() && !opens_table(all[from]) {
        lemma_no_key(all, from + 1);
    }
}

/// Pieces begin where they do whatever follows.
proof fn lemma_start_same(a: Seq<Seq<char>>, b: Seq<Seq<char>>, at: int)
    requires
        at <= a.len(),
        at <= b.len(),
        forall|j: int| 0 <= j < at ==> #[trigger] a[j] == b[j],
    ensures
        start_of(a, at) == start_of(b, at),
    decreases at,
{
    if at > 0 {
        lemma_start_same(a, b, at - 1);
        assert(a[at - 1] == b[at - 1]);
    }
}

proof fn lemma_key_line(all: Seq<Seq<char>>, from: int)
    requires
        0 <= from <= all.len(),
    ensures
        key_line(all, from) matches Some(at) ==> from <= at < all.len() && sets_repository(
            all[at],
        ) && (forall|j: int| from <= j <= at ==> !opens_table(#[trigger] all[j])) && (forall|j: int|
            from <= j < at ==> !sets_repository(#[trigger] all[j])),
    decreases all.len() - from,
{
    if from < all.len() && !opens_table(all[from]) && !sets_repository(all[from]) {
        lemma_key_line(all, from + 1);
    }
}

proof fn lemma_table_line(all: Seq<Seq<char>>, from: int)
    requires
        0 <= from <= all.len(),
    ensures
        from <= table_line(all, from) <= all.len(),
        forall|j: int| from <= j < table_line(all, from) ==> !opens_table(#[trigger] all[j]),
    decreases all.len() - from,
{
    if from < all.len() && !opens_table(all[from]) {
        lemma_table_line(all, from + 1);
    }
}

} // verus!
