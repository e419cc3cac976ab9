//! What a check promises of what it finds.
use vstd::prelude::*;
use vstd::string::*;

use crate::error::Result;
use crate::json::{member, no_members, object_tree, parsed, JsonTree};
use crate::lua::options::option;
use crate::model::frozen::FrozenValue;
use crate::model::manifest::{
    Manifest, ProviderOrigin, Requirement, RequirementCandidate, RequirementKind,
};
use crate::inspection::explain::provider_named;
use crate::requirements::check::{
    apt_name, brew_name, brew_record, brew_versions, first_step, label_of, listed_versions,
    next_step, reply_fits, CheckStage, CheckStatus, Next, ProbeView, Ran, Reply, StageView,
};
use crate::requirements::commands::brew_choice;
use crate::requirements::version::{at_least, version_in};
use crate::inspection::items::chosen_exists;
use crate::text::{cut_last, trimmed};
use crate::trees::{lemma_collected, lemma_pair_pushed, pair_value};

verus! {

/// The least version that the chosen candidate of a requirement asks for.
pub open spec fn wanted(requirement: Requirement) -> Option<Seq<char>> {
    match requirement.candidates@[requirement.selected as int] {
        RequirementCandidate::Command { minimum: Some(minimum), .. } => Some(minimum@),
        RequirementCandidate::Package { minimum: Some(minimum), .. } => Some(minimum@),
        _ => None,
    }
}

/// Whether a version is enough for a requirement.
pub open spec fn enough(requirement: Requirement, observed: Seq<char>) -> bool {
    match wanted(requirement) {
        Some(minimum) => at_least(observed, minimum),
        None => true,
    }
}

/// The version that a program tells of itself: in its output or, where there is none, in
/// its error output.
pub open spec fn told_version(ran: Ran) -> Option<Seq<char>> {
    if version_in(ran.out()) is Some {
        version_in(ran.out())
    } else {
        version_in(ran.err())
    }
}

/// What Homebrew tells of the installed versions of the package of a requirement.
pub open spec fn told_by_brew(requirement: Requirement, ran: Ran) -> Option<Seq<Seq<char>>> {
    match (brew_name(requirement.binding), parsed(ran.stdout@)) {
        (Ok(named), Ok(json)) => match brew_record(json, named.0) {
            Some(record) => Some(brew_versions(record)),
            None => None,
        },
        _ => None,
    }
}

/// Whether what was found shows that the thing itself is there, in a version that is
/// enough; the commands that it publishes are another matter.
pub open spec fn shown_present(requirement: Requirement, stage: CheckStage, reply: Reply) -> bool {
    match (stage, reply) {
        (CheckStage::Command, Reply::Found(Some(_))) => wanted(requirement) is None,
        (CheckStage::Version(_), Reply::Ran(Ok(ran))) => ran.success && (told_version(ran) matches Some(
            version,
        ) && enough(requirement, version)),
        (CheckStage::BrewInfo, Reply::Ran(Ok(ran))) => ran.success && (told_by_brew(
            requirement,
            ran,
        ) matches Some(versions) && versions.len() > 0 && enough(
            requirement,
            versions[versions.len() - 1],
        )),
        (CheckStage::DpkgQuery, Reply::Ran(Ok(ran))) => ran.success && apt_name(requirement.binding) is Ok
            && (cut_last(trimmed(ran.out()), '\t') matches Some(parts) && parts.0
            == "install ok installed"@) && wanted(requirement) is None,
        (CheckStage::Compare(_), Reply::Ran(Ok(ran))) => ran.success && apt_name(
            requirement.binding,
        ) is Ok,
        (CheckStage::Custom, Reply::Answered(Ok(FrozenValue::Table(values)))) => option(
            values@,
            "status"@,
        ) matches Some(FrozenValue::String(name)) && name@ == "satisfied"@,
        _ => false,
    }
}

/// Whether what was found shows that the thing is there and too old.
pub open spec fn shown_too_old(requirement: Requirement, stage: CheckStage, reply: Reply) -> bool {
    match (stage, reply) {
        (CheckStage::Version(_), Reply::Ran(Ok(ran))) => ran.success && (told_version(ran) matches Some(
            version,
        ) && !enough(requirement, version)),
        (CheckStage::BrewInfo, Reply::Ran(Ok(ran))) => ran.success && (told_by_brew(
            requirement,
            ran,
        ) matches Some(versions) && versions.len() > 0 && !enough(
            requirement,
            versions[versions.len() - 1],
        )),
        (CheckStage::Compare(_), Reply::Ran(Ok(ran))) => !ran.success && apt_name(
            requirement.binding,
        ) is Ok,
        (CheckStage::Custom, Reply::Answered(Ok(FrozenValue::Table(values)))) => option(
            values@,
            "status"@,
        ) matches Some(FrozenValue::String(name)) && name@ == "outdated"@,
        _ => false,
    }
}

/// Whether a check ends with a status.
pub open spec fn ends_as(next: Next, status: CheckStatus) -> bool {
    next matches Next::Done(found, _) && found == status
}

/// A requirement counts as met only where it was shown to be: the thing is there in a
/// version that is enough, and every command that its package publishes was found. What was
/// shown is counted: at once, or once the published commands were looked for, one by one.
pub proof fn law_met_means_shown(
    manifest: Manifest,
    requirement: Requirement,
    stage: CheckStage,
    reply: Reply,
)
    requires
        chosen_exists(requirement),
        reply_fits(requirement, stage, reply),
    ensures
        ({
            let next = next_step(manifest, requirement, stage, reply);
            let commands = requirement.binding.publications.commands@;
            let by_command = stage is Command || stage is Version;
            if stage is Published {
                let index = stage->Published_1 as int;
                &&& ends_as(next, CheckStatus::Satisfied) <==> reply->Found_0 is Some && index + 1
                    == commands.len()
                &&& ends_as(next, CheckStatus::Missing) <==> reply->Found_0 is None
                &&& reply->Found_0 is Some && index + 1 < commands.len() ==> (
                next matches Next::Asks(StageView::Published(_, further), ProbeView::Which(name))
                    && further == index + 1 && name == commands[index + 1]@)
            } else {
                &&& ends_as(next, CheckStatus::Satisfied) <==> shown_present(
                    requirement,
                    stage,
                    reply,
                ) && (by_command || commands.len() == 0)
                &&& (next matches Next::Asks(StageView::Published(_, _), _)) <==> shown_present(
                    requirement,
                    stage,
                    reply,
                ) && !by_command && commands.len() > 0
                &&& next matches Next::Asks(StageView::Published(_, index), probe) ==> index == 0
                    && probe == ProbeView::Which(commands[0]@)
                &&& ends_as(next, CheckStatus::Outdated) <==> shown_too_old(
                    requirement,
                    stage,
                    reply,
                )
            }
        }),
{
    reveal_strlit("satisfied");
    reveal_strlit("missing");
    reveal_strlit("outdated");
    reveal_strlit("unavailable");
    assert("satisfied"@.len() == 9 && "missing"@.len() == 7 && "outdated"@.len() == 8
        && "unavailable"@.len() == 11);
}

/// A check of a command looks for that command first, whoever provides it. A check of a
/// package asks the tool of its provider.
pub proof fn law_checks_begin_with_what_is_asked_for(manifest: Manifest, requirement: Requirement)
    requires
        chosen_exists(requirement),
    ensures
        requirement.kind == RequirementKind::Command ==> first_step(manifest, requirement)
            == Next::Asks(
            StageView::Command,
            ProbeView::Which(requirement.candidates@[requirement.selected as int].product()),
        ),
        requirement.kind == RequirementKind::Package ==> (first_step(
            manifest,
            requirement,
        ) matches Next::Asks(stage, probe) ==> provider_named(
            manifest.providers@,
            requirement.binding.provider@,
        ) matches Some(provider) && match provider.origin {
            ProviderOrigin::Custom { .. } => stage == StageView::Custom && probe
                == ProbeView::Custom,
            ProviderOrigin::Builtin { .. } => (provider.name@ == "brew"@ && stage
                == StageView::Brew && probe == ProbeView::Which("brew"@)) || (provider.name@
                == "apt"@ && stage == StageView::Dpkg && probe == ProbeView::Which("dpkg-query"@)),
        }),
        !(first_step(manifest, requirement) is Done),
        requirement.kind == RequirementKind::Command ==> label_of(requirement) == "command:"@
            + requirement.candidates@[requirement.selected as int].product(),
        requirement.kind == RequirementKind::Package ==> label_of(requirement) == "package:"@
            + requirement.candidates@[requirement.selected as int].product(),
{
    reveal_strlit("command:");
    reveal_strlit("command");
    reveal_strlit("package:");
    reveal_strlit("package");
    reveal_strlit(":");
    assert("command:"@ =~= "command"@ + ":"@);
    assert("package:"@ =~= "package"@ + ":"@);
}

/// The commands that a check runs ask about the very thing that is required.
pub proof fn law_checks_ask_about_the_thing_itself(
    manifest: Manifest,
    requirement: Requirement,
    stage: CheckStage,
    reply: Reply,
)
    requires
        chosen_exists(requirement),
        reply_fits(requirement, stage, reply),
    ensures
        next_step(manifest, requirement, stage, reply) matches Next::Asks(
            next,
            ProbeView::Run(argv),
        ) ==> {
            &&& reply matches Reply::Found(Some(tool)) && argv.len() > 1 && argv[0] == tool@
            &&& next is Version ==> argv == seq![argv[0], "--version"@] && stage is Command
                && wanted(requirement) is Some
            &&& next is BrewInfo ==> stage is Brew && brew_name(requirement.binding) is Ok
                && argv[argv.len() - 1] == (brew_name(requirement.binding)->Ok_0).1
            &&& next is DpkgQuery ==> stage is Dpkg && apt_name(requirement.binding) is Ok
                && argv[argv.len() - 1] == apt_name(requirement.binding)->Ok_0
            &&& next is AptPolicy ==> stage is AptCache && apt_name(requirement.binding) is Ok
                && argv[argv.len() - 1] == apt_name(requirement.binding)->Ok_0
            &&& next is Compare ==> stage is Comparer && argv.len() == 5 && argv[2]
                == stage->Comparer_0@ && argv[3] == "ge"@ && (wanted(requirement) matches Some(
                minimum,
            ) ==> argv[4] == minimum)
        },
{
}

/// What Homebrew answers of a package with these installed versions.
pub open spec fn brew_answer(list: Seq<char>, versions: Seq<Seq<char>>) -> JsonTree {
    let installed = versions.map_values(
        |v: Seq<char>| object_tree(no_members().push(("version"@, JsonTree::Text(v)))),
    );
    let record = object_tree(no_members().push(("installed"@, JsonTree::Array(installed))));
    object_tree(no_members().push((list, JsonTree::Array(seq![record]))))
}

/// The installed versions are read from what Homebrew answers, formulae and casks apart.
pub proof fn law_installed_versions_are_read(versions: Seq<Seq<char>>, kind: Seq<char>)
    ensures
        kind == "cask"@ ==> (brew_record(brew_answer("casks"@, versions), kind) matches Some(record)
            && brew_versions(record) == versions) && brew_record(
            brew_answer("formulae"@, versions),
            kind,
        ) is None,
        kind != "cask"@ ==> (brew_record(brew_answer("formulae"@, versions), kind) matches Some(
            record,
        ) && brew_versions(record) == versions) && brew_record(
            brew_answer("casks"@, versions),
            kind,
        ) is None,
{
    broadcast use lemma_pair_pushed;

    let f = |v: Seq<char>| object_tree(no_members().push(("version"@, JsonTree::Text(v))));
    let installed = versions.map_values(f);
    let inner = no_members().push(("installed"@, JsonTree::Array(installed)));
    let record = object_tree(inner);
    let one = no_members().push(("casks"@, JsonTree::Array(seq![record])));
    let two = no_members().push(("formulae"@, JsonTree::Array(seq![record])));
    lemma_collected(inner);
    lemma_collected(one);
    lemma_collected(two);
    reveal_strlit("casks");
    reveal_strlit("formulae");
    assert("casks"@.len() == 5 && "formulae"@.len() == 8);
    assert(member(record, "installed"@) == pair_value(inner, "installed"@));
    assert(member(object_tree(one), "casks"@) == pair_value(one, "casks"@));
    assert(member(object_tree(one), "formulae"@) == pair_value(one, "formulae"@));
    assert(member(object_tree(two), "casks"@) == pair_value(two, "casks"@));
    assert(member(object_tree(two), "formulae"@) == pair_value(two, "formulae"@));
    assert(pair_value(no_members(), "casks"@) is None);
    assert(pair_value(no_members(), "formulae"@) is None);
    lemma_listed(versions);
}

proof fn lemma_listed(versions: Seq<Seq<char>>)
    ensures
        listed_versions(
            versions.map_values(
                |v: Seq<char>| object_tree(no_members().push(("version"@, JsonTree::Text(v)))),
            ),
        ) == versions,
    decreases versions.len(),
{
    broadcast use lemma_pair_pushed;

    let f = |v: Seq<char>| object_tree(no_members().push(("version"@, JsonTree::Text(v))));
    let all = versions.map_values(f);
    if versions.len() > 0 {
        let front = versions.drop_last();
        lemma_listed(front);
        assert(all.drop_last() =~= front.map_values(f));
        let pairs = no_members().push(("version"@, JsonTree::Text(versions.last())));
        lemma_collected(pairs);
        assert(all.last() == object_tree(pairs));
        assert(member(object_tree(pairs), "version"@) == pair_value(pairs, "version"@));
        assert(front.push(versions.last()) =~= versions);
    } else {
        assert(listed_versions(all) =~= versions);
    }
}

/// Homebrew upgrades a package that it has in any version and installs one that it does not
/// have; where it cannot tell it does neither.
pub proof fn law_homebrew_acts_by_what_it_has(requirement: Requirement, ran: Ran)
    requires
        brew_name(requirement.binding) is Ok,
    ensures
        ran.success && told_by_brew(requirement, ran) is Some ==> brew_choice(
            requirement.binding,
            Some(Ok(ran)),
        ) == if (told_by_brew(requirement, ran)->0).len() > 0 {
            std::result::Result::<Seq<char>, crate::requirements::check::BrewFailure>::Ok("upgrade"@)
        } else {
            std::result::Result::<Seq<char>, crate::requirements::check::BrewFailure>::Ok("install"@)
        },
        !ran.success || told_by_brew(requirement, ran) is None ==> brew_choice(
            requirement.binding,
            Some(Ok(ran)),
        ) is Err,
        brew_choice(requirement.binding, None) is Err,
{
}

} // verus!
