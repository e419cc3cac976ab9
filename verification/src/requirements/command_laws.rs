//! What the commands of a bootstrap promise.
use vstd::prelude::*;
use vstd::string::*;

use crate::error::Result;
use crate::inspection::explain::provider_named;
use crate::lua::loading::helper_name;
use crate::model::manifest::{
    Manifest, Provider, ProviderBinding, ProviderFile, ProviderOrigin, ProviderPreparation,
};
use crate::model::path::path_join;
use crate::requirements::check::{apt_name, brew_name, Ran};
use crate::requirements::commands::{
    assignments, brew_choice, candidates, has_payload, helper_payload, known_provider,
    preparation_problem, preparation_work, reconciliation_work, rehearsal_work, sudo_arguments,
    variable_views, Work,
};
use crate::text::{replaced, views};

verus! {

/// Whether work runs a command.
pub open spec fn runs(work: Result<Work>) -> bool {
    work matches Ok(Work::Command { .. })
}

/// The arguments of the command that work runs.
pub open spec fn arguments_of(work: Result<Work>) -> Seq<Seq<char>> {
    views(work->Ok_0->Command_arguments@)
}

/// What changes a package is run by the tool that was found, and names that package. Apt is
/// told not to ask and runs with the rights it needs; Homebrew never gets more rights.
pub proof fn law_packages_are_changed_by_their_tool(
    r: Result<Work>,
    provider: Provider,
    binding: ProviderBinding,
    found: Option<String>,
    asked: Option<Result<Ran>>,
)
    requires
        known_provider(provider),
        reconciliation_work(r, provider, binding, found, asked),
    ensures
        provider.origin is Custom ==> (r matches Ok(Work::Call(name)) && name@ == "reconcile"@),
        provider.origin is Builtin && r is Ok ==> {
            &&& found is Some
            &&& runs(r)
            &&& r->Ok_0->program@ == (found->0)@
            &&& arguments_of(r).len() == 3
        },
        provider.origin is Builtin && r is Ok && provider.name@ == "apt"@ ==> {
            &&& arguments_of(r)[0] == "install"@
            &&& arguments_of(r).contains("--yes"@)
            &&& apt_name(binding) matches Ok(name) && arguments_of(r)[2] == name
            &&& r->Ok_0->elevated
            &&& variable_views(r->Ok_0->environment@).contains(
                ("DEBIAN_FRONTEND"@, "noninteractive"@),
            )
        },
        provider.origin is Builtin && r is Ok && provider.name@ == "brew"@ ==> {
            &&& brew_choice(binding, asked) matches Ok(verb) && arguments_of(r)[0] == verb
            &&& brew_name(binding) is Ok && arguments_of(r)[2] == (brew_name(binding)->Ok_0).1
            &&& arguments_of(r)[1] == if (brew_name(binding)->Ok_0).0 == "cask"@ {
                "--cask"@
            } else {
                "--formula"@
            }
            &&& !r->Ok_0->elevated
            &&& variable_views(r->Ok_0->environment@).contains(("HOMEBREW_NO_AUTO_UPDATE"@, "1"@))
        },
        provider.origin is Builtin && provider.name@ == "apt"@ ==> (r is Ok <==> found is Some
            && apt_name(binding) is Ok),
        provider.origin is Builtin && provider.name@ == "brew"@ ==> (r is Ok <==> found is Some
            && brew_name(binding) is Ok && brew_choice(binding, asked) is Ok),
{
    reveal_strlit("brew");
    reveal_strlit("apt");
    assert("brew"@.len() == 4 && "apt"@.len() == 3);
    if runs(r) && provider.origin is Builtin {
        let a = arguments_of(r);
        let e = variable_views(r->Ok_0->environment@);
        assert(a[1] == a[1] && e[0] == e[0]);
        assert(a.contains(a[1]));
        assert(e.contains(e[0]));
    }
}

/// A rehearsal changes nothing and rehearses what would be done: it asks the same tool about
/// the same package, in the mode in which the tool only tells what it would do.
pub proof fn law_rehearsals_only_rehearse(
    rehearsed: Result<Work>,
    done: Result<Work>,
    provider: Provider,
    binding: ProviderBinding,
    found: Option<String>,
    asked: Option<Result<Ran>>,
)
    requires
        known_provider(provider),
        rehearsal_work(rehearsed, provider, binding, found, asked),
        reconciliation_work(done, provider, binding, found, asked),
    ensures
        rehearsed is Ok <==> done is Ok,
        provider.origin is Custom ==> (rehearsed matches Ok(Work::Call(name)) && name@
            == "define"@),
        provider.origin is Builtin && done is Ok ==> {
            &&& runs(rehearsed)
            &&& rehearsed->Ok_0->program@ == done->Ok_0->program@
            &&& rehearsed->Ok_0->elevated == done->Ok_0->elevated
            &&& variable_views(rehearsed->Ok_0->environment@) == variable_views(
                done->Ok_0->environment@,
            )
            &&& arguments_of(rehearsed).last() == arguments_of(done).last()
        },
        provider.origin is Builtin && done is Ok && provider.name@ == "brew"@ ==> arguments_of(
            rehearsed,
        ) == arguments_of(done).insert(1, "--dry-run"@),
        provider.origin is Builtin && done is Ok && provider.name@ == "apt"@ ==> arguments_of(
            rehearsed,
        ) == seq!["--simulate"@, arguments_of(done)[0], arguments_of(done)[2]],
{
    reveal_strlit("brew");
    reveal_strlit("apt");
    assert("brew"@.len() == 4 && "apt"@.len() == 3);
    if provider.origin is Builtin && done is Ok {
        let a = arguments_of(rehearsed);
        let b = arguments_of(done);
        if provider.name@ == "brew"@ {
            assert(a =~= b.insert(1, "--dry-run"@));
        } else {
            assert(a =~= seq!["--simulate"@, b[0], b[2]]);
        }
    }
}

/// What a preparation needs is known beforehand: where a rehearsal finds nothing wrong, apt's
/// index is what is prepared or the request is refused by name, and a provider of one's own
/// is called.
pub proof fn law_preparations_do_what_was_rehearsed(
    r: Result<Work>,
    manifest: Manifest,
    operation: ProviderPreparation,
    found: Option<String>,
)
    requires
        preparation_work(r, manifest, operation, found),
    ensures
        preparation_problem(manifest, operation, found) is Some ==> r is Err,
        preparation_problem(manifest, operation, found) is None ==> provider_named(
            manifest.providers@,
            operation.provider@,
        ) is Some,
        r matches Ok(work) ==> (provider_named(
            manifest.providers@,
            operation.provider@,
        ) matches Some(provider) && match provider.origin {
            ProviderOrigin::Custom { .. } => work matches Work::Call(name) && name@ == "prepare"@,
            ProviderOrigin::Builtin { .. } => {
                &&& provider.name@ == "apt"@ && operation.identity@ == "update-index"@
                &&& runs(r) && arguments_of(r) == seq!["update"@]
                &&& work->elevated == operation.elevated
            },
        }),
{
}

/// With `sudo` the same program is run with the same arguments, behind `--` and with every
/// variable set for it; `-n` keeps `sudo` from asking where nobody can answer.
pub proof fn law_sudo_runs_the_same_command(
    program: Seq<char>,
    arguments: Seq<Seq<char>>,
    environment: Seq<(Seq<char>, Seq<char>)>,
    noninteractive: bool,
)
    ensures
        ({
            let all = sudo_arguments(program, arguments, environment, noninteractive);
            let front = all.len() - arguments.len() - 1;
            let start: int = if noninteractive {
                1
            } else {
                0
            };
            &&& front == start + 1 + (if environment.len() == 0 {
                0
            } else {
                environment.len() + 1
            })
            &&& all[front] == program
            &&& all.skip(front + 1) == arguments
            &&& all[start] == "--"@
            &&& all[0] == "-n"@ <==> noninteractive
            &&& environment.len() > 0 ==> all[start + 1] == "env"@
            &&& forall|i: int|
                0 <= i < environment.len() ==> #[trigger] all[start + 2 + i] == environment[i].0
                    + "="@ + environment[i].1
        }),
{
    reveal_strlit("-n");
    reveal_strlit("--");
    assert("-n"@[1] == 'n' && "--"@[1] == '-');
    let all = sudo_arguments(program, arguments, environment, noninteractive);
    let front = all.len() - arguments.len() - 1;
    assert(all.skip(front + 1) =~= arguments);
    assert(assignments(environment).len() == environment.len());
}

/// A command is looked for in every directory, in their order; one that names a path stands
/// for itself.
pub proof fn law_commands_are_looked_for_everywhere(
    command: Seq<char>,
    directories: Seq<Seq<char>>,
)
    ensures
        command.contains('/') ==> candidates(command, directories) == seq![command],
        !command.contains('/') ==> candidates(command, directories).len() == directories.len(),
        !command.contains('/') ==> forall|i: int|
            0 <= i < directories.len() && directories[i].len() > 0 && directories[i].last() != '/'
                ==> #[trigger] candidates(command, directories)[i] == directories[i] + "/"@
                + command,
{
    reveal_strlit("/");
    if !command.contains('/') {
        assert forall|i: int|
            0 <= i < directories.len() && directories[i].len() > 0 && directories[i].last()
                != '/' implies #[trigger] candidates(command, directories)[i] == directories[i]
            + "/"@ + command by {
            if command.len() > 0 {
                assert(command[0] != '/') by {
                    if command[0] == '/' {
                        assert(command.contains('/'));
                    }
                }
            }
            assert(path_join(directories[i], command) =~= directories[i] + "/"@ + command);
        }
    }
}

/// A helper of a provider is taken from the product: what is found is there, and what is
/// there under the name of a module is found.
pub proof fn law_helpers_are_taken_from_the_product(
    provider: Seq<char>,
    files: Seq<ProviderFile>,
    module: Seq<char>,
)
    ensures
        helper_payload(provider, files, module) matches Ok(path) ==> {
            &&& exists|i: int| 0 <= i < files.len() && (#[trigger] files[i]).payload@ == path
            &&& (provider + "/"@).is_prefix_of(path)
            &&& helper_name(module)
        },
        helper_name(module) && has_payload(
            files,
            provider + "/"@ + replaced(module, '.', "/"@) + ".lua"@,
        ) ==> helper_payload(provider, files, module) == std::result::Result::<
            Seq<char>,
            Seq<char>,
        >::Ok(provider + "/"@ + replaced(module, '.', "/"@) + ".lua"@),
{
    if helper_payload(provider, files, module) is Ok {
        let path = helper_payload(provider, files, module)->Ok_0;
        let lead = provider + "/"@;
        assert(path.subrange(0, lead.len() as int) =~= lead);
    }
}

} // verus!
