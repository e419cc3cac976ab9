//! The commands that providers run, and what they need.
use vstd::prelude::*;
use vstd::string::*;

use crate::error::{is_configuration, problem_if, reports, Result, WombatError};
use crate::inspection::explain::provider_named;
use crate::lua::loading::{helper_name, is_helper_name};
use crate::model::manifest::{
    Manifest, Provider, ProviderBinding, ProviderFile, ProviderOrigin, ProviderPreparation,
};
use crate::model::path::{absolute, is_absolute, join_path, path_join};
use crate::requirements::check::{
    absent_provider, apt_identity, apt_name, brew_fails, brew_flag, brew_identity, brew_name,
    brew_state, brew_status, flag_of, output_detail, provider_for, said, BrewFailure, CheckStatus,
    Ran,
};
use crate::text::{
    cat2, cat3, cat4, cat5, cat6, contains_char, push_text, replace_char, replaced, same, trim,
    trimmed, views,
};

verus! {

/// A changed variable: its name and its value.
pub type Variable = (String, String);

/// What changed variables say.
pub open spec fn variable_views(list: Seq<Variable>) -> Seq<(Seq<char>, Seq<char>)> {
    Seq::new(list.len(), |i: int| (list[i].0@, list[i].1@))
}

/// What Homebrew sees changed: it neither updates itself nor cleans up.
pub fn brew_environment() -> (r: Vec<Variable>)
    ensures
        variable_views(r@) == seq![
            ("HOMEBREW_NO_AUTO_UPDATE"@, "1"@),
            ("HOMEBREW_NO_INSTALL_CLEANUP"@, "1"@),
        ],
{
    let mut r: Vec<Variable> = Vec::new();
    r.push(("HOMEBREW_NO_AUTO_UPDATE".to_string(), "1".to_string()));
    r.push(("HOMEBREW_NO_INSTALL_CLEANUP".to_string(), "1".to_string()));
    assert(variable_views(r@) =~= seq![
        ("HOMEBREW_NO_AUTO_UPDATE"@, "1"@),
        ("HOMEBREW_NO_INSTALL_CLEANUP"@, "1"@),
    ]);
    r
}

/// What Apt sees changed: it asks nothing.
pub fn apt_environment() -> (r: Vec<Variable>)
    ensures
        variable_views(r@) == seq![("DEBIAN_FRONTEND"@, "noninteractive"@)],
{
    let mut r: Vec<Variable> = Vec::new();
    r.push(("DEBIAN_FRONTEND".to_string(), "noninteractive".to_string()));
    assert(variable_views(r@) =~= seq![("DEBIAN_FRONTEND"@, "noninteractive"@)]);
    r
}

/// What Homebrew does with a package in this state.
pub open spec fn brew_verb(status: CheckStatus) -> std::result::Result<Seq<char>, Seq<char>> {
    match status {
        CheckStatus::Satisfied => Ok("upgrade"@),
        CheckStatus::Outdated => Ok("upgrade"@),
        CheckStatus::Missing => Ok("install"@),
        CheckStatus::Unavailable => Err(
            "Homebrew package state became unavailable during bootstrap"@,
        ),
    }
}

/// What Homebrew does with a package, by the state that it has it in, or why it does
/// nothing.
pub open spec fn brew_choice(
    binding: ProviderBinding,
    asked: Option<Result<Ran>>,
) -> std::result::Result<Seq<char>, BrewFailure> {
    match brew_status(binding, asked) {
        Err(failure) => Err(failure),
        Ok(status) => match brew_verb(status) {
            Ok(verb) => Ok(verb),
            Err(message) => Err(BrewFailure::Says(message)),
        },
    }
}

/// What Homebrew does with a package: it upgrades one that is installed and installs one
/// that is not. `asked` is what came of asking for its state, where Homebrew was found.
pub fn brew_operation(binding: &ProviderBinding, asked: Option<Result<Ran>>) -> (r: Result<
    &'static str,
>)
    ensures
        match brew_choice(*binding, asked) {
            Ok(verb) => r is Ok && r->Ok_0@ == verb,
            Err(failure) => r is Err && brew_fails(r->Err_0, failure),
        },
{
    match brew_state(binding, asked)? {
        CheckStatus::Satisfied => Ok("upgrade"),
        CheckStatus::Outdated => Ok("upgrade"),
        CheckStatus::Missing => Ok("install"),
        CheckStatus::Unavailable => Err(
            WombatError::configuration(
                "Homebrew package state became unavailable during bootstrap",
            ),
        ),
    }
}

/// Makes sure that a command was found.
pub fn require_command(found: Option<String>, command: &str, purpose: &str) -> (r: Result<String>)
    ensures
        match found {
            Some(path) => r is Ok && r->Ok_0 == path,
            None => r is Err && is_configuration(
                r->Err_0,
                purpose@ + " requires `"@ + command@ + "` to be available on PATH"@,
            ),
        },
{
    match found {
        Some(path) => Ok(path),
        None => Err(
            WombatError::Configuration(
                cat4(purpose, " requires `", command, "` to be available on PATH"),
            ),
        ),
    }
}

/// Whether the user is the administrator, from what `id -u` did.
pub fn effective_uid_is_root(ran: &Ran) -> (r: Result<bool>)
    ensures
        reports(
            r,
            problem_if(
                !ran.success,
                "could not determine the effective user: "@ + said(*ran),
            ),
        ),
        r matches Ok(root) ==> root == (trimmed(ran.out()) == "0"@),
{
    if !ran.success {
        return Err(
            WombatError::Configuration(
                cat2(
                    "could not determine the effective user: ",
                    output_detail(ran).as_str(),
                ),
            ),
        );
    }
    Ok(same(trim(ran.output().as_str()).as_str(), "0"))
}

/// Makes sure that elevation is possible where it is needed: the user is the
/// administrator, or there is `sudo`.
pub fn preflight_elevation(elevated: bool, root: bool, sudo: Option<String>) -> (r: Result<()>)
    ensures
        reports(
            r,
            problem_if(
                elevated && !root && sudo is None,
                "elevated bootstrap requires `sudo` to be available on PATH"@,
            ),
        ),
{
    if elevated && !root {
        if sudo.is_none() {
            return Err(
                WombatError::configuration(
                    "elevated bootstrap requires `sudo` to be available on PATH",
                ),
            );
        }
    }
    Ok(())
}

/// The arguments with which `sudo` is asked for authorisation.
pub fn authorization_arguments(noninteractive: bool) -> (r: Vec<String>)
    ensures
        views(r@) == if noninteractive {
            seq!["-n"@, "--"@, "true"@]
        } else {
            seq!["-v"@]
        },
{
    let mut r: Vec<String> = Vec::new();
    assert(views(r@) =~= Seq::empty());
    if noninteractive {
        push_text(&mut r, "-n");
        push_text(&mut r, "--");
        push_text(&mut r, "true");
        assert(views(r@) =~= seq!["-n"@, "--"@, "true"@]);
    } else {
        push_text(&mut r, "-v");
        assert(views(r@) =~= seq!["-v"@]);
    }
    r
}

/// The command that asks for authorisation. The administrator needs none.
pub fn authorization_command(root: bool, sudo: Option<String>, noninteractive: bool) -> (r: Result<
    Option<Vec<String>>,
>)
    ensures
        if root {
            r matches Ok(None)
        } else {
            match sudo {
                None => r is Err && is_configuration(
                    r->Err_0,
                    "elevated bootstrap requires `sudo` to be available on PATH"@,
                ),
                Some(sudo) => r matches Ok(Some(argv)) && views(argv@) == if noninteractive {
                    seq![sudo@, "-n"@, "--"@, "true"@]
                } else {
                    seq![sudo@, "-v"@]
                },
            }
        },
{
    if root {
        return Ok(None);
    }
    let sudo = match sudo {
        Some(sudo) => sudo,
        None => {
            return Err(
                WombatError::configuration(
                    "elevated bootstrap requires `sudo` to be available on PATH",
                ),
            );
        },
    };
    let mut argv = authorization_arguments(noninteractive);
    let ghost rest = views(argv@);
    let ghost program = sudo@;
    argv.insert(0, sudo);
    assert(views(argv@) =~= seq![program] + rest);
    assert(views(argv@) =~= if noninteractive {
        seq![program, "-n"@, "--"@, "true"@]
    } else {
        seq![program, "-v"@]
    });
    Ok(Some(argv))
}

/// Goes on only where `sudo` has authorised the user.
pub fn authorize_elevation(success: bool, noninteractive: bool) -> (r: Result<()>)
    ensures
        reports(
            r,
            problem_if(
                !success,
                if noninteractive {
                    "non-interactive bootstrap requires existing passwordless sudo authorization"@
                } else {
                    "sudo authorization failed"@
                },
            ),
        ),
{
    if success {
        return Ok(());
    }
    if noninteractive {
        return Err(
            WombatError::configuration(
                "non-interactive bootstrap requires existing passwordless sudo authorization",
            ),
        );
    }
    Err(WombatError::configuration("sudo authorization failed"))
}

/// A command to run.
#[derive(Debug, PartialEq)]
pub struct CommandLine {
    /// The program
    pub program: String,
    /// Its arguments
    pub arguments: Vec<String>,
    /// What it sees changed
    pub environment: Vec<Variable>,
}

/// Variables as arguments of `env`.
pub open spec fn assignments(environment: Seq<(Seq<char>, Seq<char>)>) -> Seq<Seq<char>> {
    Seq::new(environment.len(), |i: int| environment[i].0 + "="@ + environment[i].1)
}

/// The arguments of `sudo` for a command.
pub open spec fn sudo_arguments(
    program: Seq<char>,
    arguments: Seq<Seq<char>>,
    environment: Seq<(Seq<char>, Seq<char>)>,
    noninteractive: bool,
) -> Seq<Seq<char>> {
    let start = if noninteractive {
        seq!["-n"@, "--"@]
    } else {
        seq!["--"@]
    };
    let changed = if environment.len() == 0 {
        start
    } else {
        start.push("env"@) + assignments(environment)
    };
    changed.push(program) + arguments
}

fn append(list: &mut Vec<String>, more: &Vec<String>)
    ensures
        views(final(list)@) == views(old(list)@) + views(more@),
{
    let ghost start = views(list@);
    let ghost rest = views(more@);
    let mut i: usize = 0;
    assert(start + rest.take(0) =~= start);
    while i < more.len()
        invariant
            0 <= i <= more@.len(),
            start == views(old(list)@),
            rest == views(more@),
            rest.len() == more@.len(),
            views(list@) == start + rest.take(i as int),
        decreases more@.len() - i,
    {
        assert(rest[i as int] == more@[i as int]@);
        push_text(list, more[i].as_str());
        assert(rest.take(i + 1) =~= rest.take(i as int).push(rest[i as int]));
        assert(views(list@) =~= start + rest.take(i + 1));
        i += 1;
    }
    assert(rest.take(i as int) =~= rest);
}

fn append_assignments(list: &mut Vec<String>, environment: &Vec<Variable>)
    ensures
        views(final(list)@) == views(old(list)@) + assignments(variable_views(environment@)),
{
    let ghost start = views(list@);
    let ghost rest = assignments(variable_views(environment@));
    let mut i: usize = 0;
    assert(start + rest.take(0) =~= start);
    while i < environment.len()
        invariant
            0 <= i <= environment@.len(),
            start == views(old(list)@),
            rest == assignments(variable_views(environment@)),
            views(list@) == start + rest.take(i as int),
        decreases environment@.len() - i,
    {
        let text = cat3(environment[i].0.as_str(), "=", environment[i].1.as_str());
        push_text(list, text.as_str());
        assert(rest.take(i + 1) =~= rest.take(i as int).push(rest[i as int]));
        assert(views(list@) =~= start + rest.take(i + 1));
        i += 1;
    }
    assert(rest.take(i as int) =~= rest);
}

/// Puts a command that changes the machine together: through `sudo` where it needs
/// elevation and the user is not the administrator. `sudo` is where that is found.
pub fn mutating_command(
    program: &str,
    arguments: Vec<String>,
    environment: Vec<Variable>,
    elevated: bool,
    root: bool,
    sudo: Option<String>,
    noninteractive: bool,
) -> (r: Result<CommandLine>)
    ensures
        if !elevated || root {
            r matches Ok(line) && line.program@ == program@ && line.arguments == arguments
                && line.environment == environment
        } else {
            match sudo {
                None => r is Err && is_configuration(
                    r->Err_0,
                    "elevated provider mutation requires `sudo` to be available on PATH"@,
                ),
                Some(sudo) => r matches Ok(line) && line.program == sudo && views(
                    line.arguments@,
                ) == sudo_arguments(
                    program@,
                    views(arguments@),
                    variable_views(environment@),
                    noninteractive,
                ) && line.environment@.len() == 0,
            }
        },
{
    if !elevated || root {
        return Ok(CommandLine { program: program.to_string(), arguments, environment });
    }
    let sudo = match sudo {
        Some(sudo) => sudo,
        None => {
            return Err(
                WombatError::configuration(
                    "elevated provider mutation requires `sudo` to be available on PATH",
                ),
            );
        },
    };
    let mut list: Vec<String> = Vec::new();
    assert(views(list@) =~= Seq::empty());
    if noninteractive {
        push_text(&mut list, "-n");
    }
    push_text(&mut list, "--");
    assert(views(list@) =~= if noninteractive {
        seq!["-n"@, "--"@]
    } else {
        seq!["--"@]
    });
    if environment.len() > 0 {
        push_text(&mut list, "env");
        append_assignments(&mut list, &environment);
    }
    push_text(&mut list, program);
    append(&mut list, &arguments);
    Ok(CommandLine { program: sudo, arguments: list, environment: Vec::new() })
}

/// Goes on only where a command that changes the machine succeeded.
pub fn run_mutating(program: &str, success: bool, status: &str) -> (r: Result<()>)
    ensures
        reports(
            r,
            problem_if(
                !success,
                "provider command `"@ + program@ + "` failed with "@ + status@,
            ),
        ),
{
    if success {
        return Ok(());
    }
    Err(
        WombatError::Configuration(
            cat4("provider command `", program, "` failed with ", status),
        ),
    )
}

/// Goes on only where Homebrew did what was asked of it.
pub fn accept_homebrew(operation: &str, name: &str, success: bool, status: &str) -> (r: Result<()>)
    ensures
        reports(
            r,
            problem_if(
                !success,
                "Homebrew "@ + operation@ + " failed for `"@ + name@ + "` with "@ + status@,
            ),
        ),
{
    if success {
        return Ok(());
    }
    Err(
        WombatError::Configuration(
            cat6("Homebrew ", operation, " failed for `", name, "` with ", status),
        ),
    )
}

/// Whether a process that the code of a provider runs may be elevated: one that only
/// observes never is, and one that changes the machine is where that was declared.
pub fn allow_elevation(mutating: bool, elevated: bool, declared: bool) -> (r: std::result::Result<
    (),
    &'static str,
>)
    ensures
        match r {
            Ok(_) => !elevated || (mutating && declared),
            Err(message) => elevated && (if mutating {
                !declared && message@ == "provider operation did not declare elevation"@
            } else {
                message@ == "observational provider processes cannot request elevation"@
            }),
        },
{
    if elevated && !mutating {
        return Err("observational provider processes cannot request elevation");
    }
    if elevated && !declared {
        return Err("provider operation did not declare elevation");
    }
    Ok(())
}

/// What a provider needs done.
#[derive(Debug, PartialEq)]
pub enum Work {
    /// Run this program with these arguments, and what it sees changed
    Command {
        /// The program
        program: String,
        /// Its arguments
        arguments: Vec<String>,
        /// What it sees changed
        environment: Vec<Variable>,
        /// Whether it needs elevation
        elevated: bool,
    },
    /// Call this function of the custom provider
    Call(&'static str),
}

/// Whether work is that of a command.
pub open spec fn work_is(
    work: Work,
    program: Seq<char>,
    arguments: Seq<Seq<char>>,
    environment: Seq<(Seq<char>, Seq<char>)>,
    elevated: bool,
) -> bool {
    work matches Work::Command { program: p, arguments: a, environment: e, elevated: w } && p@
        == program && views(a@) == arguments && variable_views(e@) == environment && w == elevated
}

/// Whether the outcome of looking for a preparation is what it should be.
pub open spec fn preparation_work(
    r: Result<Work>,
    manifest: Manifest,
    operation: ProviderPreparation,
    found: Option<String>,
) -> bool {
    match provider_named(manifest.providers@, operation.provider@) {
        None => r is Err && is_configuration(r->Err_0, absent_provider(operation.provider@)),
        Some(provider) => match provider.origin {
            ProviderOrigin::Custom { .. } => r matches Ok(Work::Call(name)) && name@ == "prepare"@,
            ProviderOrigin::Builtin { .. } => if provider.name@ != "apt"@ {
                r is Err && is_configuration(
                    r->Err_0,
                    "built-in provider `"@ + provider.name@ + "` does not support preparation"@,
                )
            } else if operation.identity@ != "update-index"@ {
                r is Err && is_configuration(
                    r->Err_0,
                    "Apt does not recognize preparation `"@ + operation.identity@ + "`"@,
                )
            } else {
                match found {
                    None => r is Err && is_configuration(
                        r->Err_0,
                        "Apt preparation requires `apt-get` to be available on PATH"@,
                    ),
                    Some(program) => r is Ok && work_is(
                        r->Ok_0,
                        program@,
                        seq!["update"@],
                        seq![("DEBIAN_FRONTEND"@, "noninteractive"@)],
                        operation.elevated,
                    ),
                }
            },
        },
    }
}

/// What a preparation needs done. `found` is where `apt-get` is.
pub fn prepare_provider(
    manifest: &Manifest,
    operation: &ProviderPreparation,
    found: Option<String>,
) -> (r: Result<Work>)
    ensures
        preparation_work(r, *manifest, *operation, found),
{
    let provider = provider_for(manifest, operation.provider.as_str())?;
    match &provider.origin {
        ProviderOrigin::Custom { .. } => Ok(Work::Call("prepare")),
        ProviderOrigin::Builtin { .. } => {
            if !same(provider.name.as_str(), "apt") {
                return Err(
                    WombatError::Configuration(
                        cat3(
                            "built-in provider `",
                            provider.name.as_str(),
                            "` does not support preparation",
                        ),
                    ),
                );
            }
            if !same(operation.identity.as_str(), "update-index") {
                return Err(
                    WombatError::Configuration(
                        cat3(
                            "Apt does not recognize preparation `",
                            operation.identity.as_str(),
                            "`",
                        ),
                    ),
                );
            }
            let program = match found {
                Some(program) => program,
                None => {
                    return Err(
                        WombatError::configuration(
                            "Apt preparation requires `apt-get` to be available on PATH",
                        ),
                    );
                },
            };
            let mut arguments: Vec<String> = Vec::new();
            assert(views(arguments@) =~= Seq::empty());
            push_text(&mut arguments, "update");
            assert(views(arguments@) =~= seq!["update"@]);
            Ok(
                Work::Command {
                    program,
                    arguments,
                    environment: apt_environment(),
                    elevated: operation.elevated,
                },
            )
        },
    }
}

/// What is wrong with a preparation beforehand.
pub open spec fn preparation_problem(
    manifest: Manifest,
    operation: ProviderPreparation,
    found: Option<String>,
) -> Option<Seq<char>> {
    match provider_named(manifest.providers@, operation.provider@) {
        None => Some(absent_provider(operation.provider@)),
        Some(provider) => match provider.origin {
            ProviderOrigin::Custom { .. } => None,
            ProviderOrigin::Builtin { .. } => if provider.name@ != "apt"@ {
                Some("built-in provider `"@ + provider.name@ + "` does not support preparation"@)
            } else {
                problem_if(
                    found is None,
                    "Apt preparation requires `apt-get` to be available on PATH"@,
                )
            },
        },
    }
}

/// Makes sure beforehand that a preparation can be done. `found` is where `apt-get`
/// is. Returns whether a custom provider does it, which must then have `prepare`.
pub fn preflight_preparation(
    manifest: &Manifest,
    operation: &ProviderPreparation,
    found: Option<String>,
) -> (r: Result<bool>)
    ensures
        reports(r, preparation_problem(*manifest, *operation, found)),
        r matches Ok(custom) ==> custom == (provider_named(
            manifest.providers@,
            operation.provider@,
        )->0.origin is Custom),
{
    let provider = provider_for(manifest, operation.provider.as_str())?;
    match &provider.origin {
        ProviderOrigin::Custom { .. } => Ok(true),
        ProviderOrigin::Builtin { .. } => {
            if !same(provider.name.as_str(), "apt") {
                return Err(
                    WombatError::Configuration(
                        cat3(
                            "built-in provider `",
                            provider.name.as_str(),
                            "` does not support preparation",
                        ),
                    ),
                );
            }
            if found.is_none() {
                return Err(
                    WombatError::configuration(
                        "Apt preparation requires `apt-get` to be available on PATH",
                    ),
                );
            }
            Ok(false)
        },
    }
}

/// Whether a built-in provider is one of those that can meet requirements.
pub open spec fn known_provider(provider: Provider) -> bool {
    provider.origin is Builtin ==> provider.name@ == "brew"@ || provider.name@ == "apt"@
}

/// Whether the outcome of looking for what meets a requirement is what it should be.
pub open spec fn reconciliation_work(
    r: Result<Work>,
    provider: Provider,
    binding: ProviderBinding,
    found: Option<String>,
    asked: Option<Result<Ran>>,
) -> bool {
    match provider.origin {
        ProviderOrigin::Custom { .. } => r matches Ok(Work::Call(name)) && name@ == "reconcile"@,
        ProviderOrigin::Builtin { .. } => if provider.name@ == "brew"@ {
            match brew_name(binding) {
                Err(message) => r is Err && is_configuration(r->Err_0, message),
                Ok(named) => match found {
                    None => r is Err && is_configuration(r->Err_0, "Homebrew disappeared before bootstrap"@),
                    Some(program) => match brew_choice(binding, asked) {
                    Err(failure) => r is Err && brew_fails(r->Err_0, failure),
                    Ok(verb) => r is Ok && work_is(
                        r->Ok_0,
                        program@,
                        seq![verb, flag_of(named.0), named.1],
                        seq![
                            ("HOMEBREW_NO_AUTO_UPDATE"@, "1"@),
                            ("HOMEBREW_NO_INSTALL_CLEANUP"@, "1"@),
                        ],
                        false,
                    ),
                    },
                },
            }
        } else {
            match apt_name(binding) {
                Err(message) => r is Err && is_configuration(r->Err_0, message),
                Ok(name) => match found {
                    None => r is Err && is_configuration(r->Err_0, "Apt bootstrap requires `apt-get` to be available on PATH"@),
                    Some(program) => r is Ok && work_is(
                    r->Ok_0,
                    program@,
                    seq!["install"@, "--yes"@, name],
                    seq![("DEBIAN_FRONTEND"@, "noninteractive"@)],
                    true,
                ),
                },
            }
        },
    }
}

/// What meets a requirement. `found` is where the tool of its provider is, and
/// `asked` is what came of asking Homebrew for its package now.
pub fn reconcile_requirement(
    provider: &Provider,
    binding: &ProviderBinding,
    found: Option<String>,
    asked: Option<Result<Ran>>,
) -> (r: Result<Work>)
    requires
        known_provider(*provider),
    ensures
        reconciliation_work(r, *provider, *binding, found, asked),
{
    match &provider.origin {
        ProviderOrigin::Custom { .. } => Ok(Work::Call("reconcile")),
        ProviderOrigin::Builtin { .. } => {
            let mut arguments: Vec<String> = Vec::new();
            assert(views(arguments@) =~= Seq::empty());
            if same(provider.name.as_str(), "brew") {
                let (kind, name) = brew_identity(binding)?;
                let program = match found {
                    Some(program) => program,
                    None => {
                        return Err(WombatError::configuration("Homebrew disappeared before bootstrap"));
                    },
                };
                let verb = brew_operation(binding, asked)?;
                push_text(&mut arguments, verb);
                push_text(&mut arguments, brew_flag(kind));
                push_text(&mut arguments, name);
                assert(views(arguments@) =~= seq![verb@, flag_of(kind@), name@]);
                return Ok(
                    Work::Command {
                        program,
                        arguments,
                        environment: brew_environment(),
                        elevated: false,
                    },
                );
            }
            let name = apt_identity(binding)?;
            let program = match found {
                Some(program) => program,
                None => {
                    return Err(
                        WombatError::configuration(
                            "Apt bootstrap requires `apt-get` to be available on PATH",
                        ),
                    );
                },
            };
            push_text(&mut arguments, "install");
            push_text(&mut arguments, "--yes");
            push_text(&mut arguments, name);
            assert(views(arguments@) =~= seq!["install"@, "--yes"@, name@]);
            Ok(
                Work::Command {
                    program,
                    arguments,
                    environment: apt_environment(),
                    elevated: true,
                },
            )
        },
    }
}

/// Whether the outcome of looking for what a requirement needs beforehand is what it
/// should be.
pub open spec fn rehearsal_work(
    r: Result<Work>,
    provider: Provider,
    binding: ProviderBinding,
    found: Option<String>,
    asked: Option<Result<Ran>>,
) -> bool {
    match provider.origin {
        ProviderOrigin::Custom { .. } => r matches Ok(Work::Call(name)) && name@ == "define"@,
        ProviderOrigin::Builtin { .. } => if provider.name@ == "brew"@ {
            match brew_name(binding) {
                Err(message) => r is Err && is_configuration(r->Err_0, message),
                Ok(named) => match found {
                    None => r is Err && is_configuration(r->Err_0, "cannot bootstrap because Homebrew is not available"@),
                    Some(program) => match brew_choice(binding, asked) {
                    Err(failure) => r is Err && brew_fails(r->Err_0, failure),
                    Ok(verb) => r is Ok && work_is(
                        r->Ok_0,
                        program@,
                        seq![verb, "--dry-run"@, flag_of(named.0), named.1],
                        seq![
                            ("HOMEBREW_NO_AUTO_UPDATE"@, "1"@),
                            ("HOMEBREW_NO_INSTALL_CLEANUP"@, "1"@),
                        ],
                        false,
                    ),
                    },
                },
            }
        } else {
            match apt_name(binding) {
                Err(message) => r is Err && is_configuration(r->Err_0, message),
                Ok(name) => match found {
                    None => r is Err && is_configuration(r->Err_0, "Apt preflight requires `apt-get` to be available on PATH"@),
                    Some(program) => r is Ok && work_is(
                    r->Ok_0,
                    program@,
                    seq!["--simulate"@, "install"@, name],
                    seq![("DEBIAN_FRONTEND"@, "noninteractive"@)],
                    true,
                ),
                },
            }
        },
    }
}

/// What shows beforehand that a requirement can be met: a run that changes nothing,
/// or that the custom provider loads. `found` is where the tool of its provider is,
/// and `asked` is what came of asking Homebrew for its package.
pub fn preflight(
    provider: &Provider,
    binding: &ProviderBinding,
    found: Option<String>,
    asked: Option<Result<Ran>>,
) -> (r: Result<Work>)
    requires
        known_provider(*provider),
    ensures
        rehearsal_work(r, *provider, *binding, found, asked),
{
    match &provider.origin {
        ProviderOrigin::Custom { .. } => Ok(Work::Call("define")),
        ProviderOrigin::Builtin { .. } => {
            let mut arguments: Vec<String> = Vec::new();
            assert(views(arguments@) =~= Seq::empty());
            if same(provider.name.as_str(), "brew") {
                let (kind, name) = brew_identity(binding)?;
                let program = match found {
                    Some(program) => program,
                    None => {
                        return Err(WombatError::configuration("cannot bootstrap because Homebrew is not available"));
                    },
                };
                let verb = brew_operation(binding, asked)?;
                push_text(&mut arguments, verb);
                push_text(&mut arguments, "--dry-run");
                push_text(&mut arguments, brew_flag(kind));
                push_text(&mut arguments, name);
                assert(views(arguments@) =~= seq![verb@, "--dry-run"@, flag_of(kind@), name@]);
                return Ok(
                    Work::Command {
                        program,
                        arguments,
                        environment: brew_environment(),
                        elevated: false,
                    },
                );
            }
            let name = apt_identity(binding)?;
            let program = match found {
                Some(program) => program,
                None => {
                    return Err(
                        WombatError::configuration(
                            "Apt preflight requires `apt-get` to be available on PATH",
                        ),
                    );
                },
            };
            push_text(&mut arguments, "--simulate");
            push_text(&mut arguments, "install");
            push_text(&mut arguments, name);
            assert(views(arguments@) =~= seq!["--simulate"@, "install"@, name@]);
            Ok(
                Work::Command {
                    program,
                    arguments,
                    environment: apt_environment(),
                    elevated: true,
                },
            )
        },
    }
}

/// Goes on only where a run that changes nothing succeeded.
pub fn accept_preflight(tool: &str, name: &str, ran: &Ran) -> (r: Result<()>)
    ensures
        reports(
            r,
            problem_if(
                !ran.success,
                tool@ + " preflight failed for `"@ + name@ + "`: "@ + said(*ran),
            ),
        ),
{
    if ran.success {
        return Ok(());
    }
    Err(
        WombatError::Configuration(
            cat5(tool, " preflight failed for `", name, "`: ", output_detail(ran).as_str()),
        ),
    )
}

/// Where a command may be: at a path as it is, otherwise in each of the directories.
pub open spec fn candidates(command: Seq<char>, directories: Seq<Seq<char>>) -> Seq<Seq<char>> {
    if command.contains('/') {
        seq![command]
    } else {
        Seq::new(directories.len(), |i: int| path_join(directories[i], command))
    }
}

/// Where a command may be.
pub fn which_candidates(command: &str, directories: &Vec<String>) -> (r: Vec<String>)
    ensures
        views(r@) == candidates(command@, views(directories@)),
{
    let ghost all = candidates(command@, views(directories@));
    let mut r: Vec<String> = Vec::new();
    assert(views(r@) =~= Seq::empty());
    if contains_char(command, '/') {
        push_text(&mut r, command);
        assert(views(r@) =~= all);
        return r;
    }
    let mut i: usize = 0;
    assert(views(r@) =~= all.take(0));
    while i < directories.len()
        invariant
            0 <= i <= directories@.len(),
            !command@.contains('/'),
            all == candidates(command@, views(directories@)),
            all.len() == directories@.len(),
            views(r@) == all.take(i as int),
        decreases directories@.len() - i,
    {
        assert(views(directories@)[i as int] == directories@[i as int]@);
        push_text(&mut r, join_path(directories[i].as_str(), command).as_str());
        assert(all.take(i + 1) =~= all.take(i as int).push(all[i as int]));
        i += 1;
    }
    assert(all.take(i as int) =~= all);
    r
}

/// The directory where state of the machine is kept, or why there is none.
pub open spec fn state_root(xdg: Option<&str>, home: Option<&str>) -> std::result::Result<
    Seq<char>,
    Seq<char>,
> {
    match xdg {
        Some(root) => if absolute(root@) {
            Ok(path_join(root@, "wombat"@))
        } else {
            Err("XDG_STATE_HOME must be absolute"@)
        },
        None => match home {
            Some(home) => Ok(path_join(home@, ".local/state/wombat"@)),
            None => Err("HOME is not set"@),
        },
    }
}

/// The directory where state of the machine is kept. `xdg` and `home` are the
/// variables that name it.
pub fn environment_state_root(xdg: Option<&str>, home: Option<&str>) -> (r: Result<String>)
    ensures
        match state_root(xdg, home) {
            Ok(path) => r is Ok && r->Ok_0@ == path,
            Err(message) => r is Err && is_configuration(r->Err_0, message),
        },
{
    match xdg {
        Some(root) => {
            if !is_absolute(root) {
                return Err(WombatError::configuration("XDG_STATE_HOME must be absolute"));
            }
            Ok(join_path(root, "wombat"))
        },
        None => match home {
            Some(home) => Ok(join_path(home, ".local/state/wombat")),
            None => Err(WombatError::configuration("HOME is not set")),
        },
    }
}

/// Whether a product holds a payload.
pub open spec fn has_payload(files: Seq<ProviderFile>, path: Seq<char>) -> bool {
    exists|i: int| 0 <= i < files.len() && (#[trigger] files[i]).payload@ == path
}

fn holds_payload(files: &Vec<ProviderFile>, path: &str) -> (r: bool)
    ensures
        r == has_payload(files@, path@),
{
    let mut i: usize = 0;
    while i < files.len()
        invariant
            0 <= i <= files@.len(),
            forall|j: int| 0 <= j < i ==> (#[trigger] files@[j]).payload@ != path@,
        decreases files@.len() - i,
    {
        if same(files[i].payload.as_str(), path) {
            return true;
        }
        i += 1;
    }
    false
}

/// The payload of a helper of a provider, or why there is none.
pub open spec fn helper_payload(provider: Seq<char>, files: Seq<ProviderFile>, module: Seq<char>) -> std::result::Result<
    Seq<char>,
    Seq<char>,
> {
    let relative = replaced(module, '.', "/"@);
    let direct = provider + "/"@ + relative + ".lua"@;
    let initial = provider + "/"@ + relative + "/init.lua"@;
    if !helper_name(module) {
        Err("invalid provider helper module"@)
    } else if has_payload(files, direct) {
        Ok(direct)
    } else if has_payload(files, initial) {
        Ok(initial)
    } else {
        Err("provider helper `"@ + module + "` is not in the exact product"@)
    }
}

/// Finds the payload of a helper of a provider in a product.
pub fn product_helper(provider: &str, files: &Vec<ProviderFile>, module: &str) -> (r: std::result::Result<
    String,
    String,
>)
    ensures
        match helper_payload(provider@, files@, module@) {
            Ok(path) => r is Ok && r->Ok_0@ == path,
            Err(message) => r is Err && r->Err_0@ == message,
        },
{
    if !is_helper_name(module) {
        return Err("invalid provider helper module".to_string());
    }
    let relative = replace_char(module, '.', "/");
    let direct = cat4(provider, "/", relative.as_str(), ".lua");
    if holds_payload(files, direct.as_str()) {
        return Ok(direct);
    }
    let initial = cat4(provider, "/", relative.as_str(), "/init.lua");
    if holds_payload(files, initial.as_str()) {
        return Ok(initial);
    }
    Err(cat3("provider helper `", module, "` is not in the exact product"))
}

} // verus!
