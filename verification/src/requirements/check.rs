//! Whether the machine meets the requirements of a product.
use serde_json::Value;
use vstd::prelude::*;
use vstd::string::*;

use crate::error::{is_configuration, problem_if, reports, Result, WombatError};
use crate::inspection::explain::provider_named;
use crate::inspection::items::{chosen_exists, requirement_word};
use crate::json::{
    all_contents, array_items, compact, compact_text, contents, member, member_value, parse_json,
    parsed, value_text, JsonTree,
};
use crate::lua::options::{get, option};
use crate::model::context::TargetPlatform;
use crate::model::frozen::{frozen_value, FrozenValue};
use crate::model::manifest::{
    Manifest, Provider, ProviderBinding, ProviderOrigin, Requirement, RequirementCandidate,
    RequirementKind,
};
use crate::requirements::version::{at_least, first_version, version_at_least, version_in};
use crate::text::{
    cat2, cat3, cat4, cat5, cat7, cut_last, decode_lossy, decoded_lossy, lines, lines_of, push_text,
    repeat, repeated, same, split_last, strip_prefix, trim, trimmed, views,
};

verus! {

/// The most output of a process that is looked at.
pub const OUTPUT_LIMIT: usize = 4194304;

/// Whether a requirement is met.
#[derive(Clone, Copy, Debug, PartialEq, Eq, Structural)]
pub enum CheckStatus {
    /// It is
    Satisfied,
    /// Something is missing
    Missing,
    /// Something is too old
    Outdated,
    /// It cannot be found out or not be met
    Unavailable,
}

impl CheckStatus {
    /// Its name.
    pub open spec fn name(self) -> Seq<char> {
        match self {
            CheckStatus::Satisfied => "satisfied"@,
            CheckStatus::Missing => "missing"@,
            CheckStatus::Outdated => "outdated"@,
            CheckStatus::Unavailable => "unavailable"@,
        }
    }

    /// Its name.
    pub fn as_str(self) -> (r: &'static str)
        ensures
            r@ == self.name(),
    {
        match self {
            CheckStatus::Satisfied => "satisfied",
            CheckStatus::Missing => "missing",
            CheckStatus::Outdated => "outdated",
            CheckStatus::Unavailable => "unavailable",
        }
    }
}

/// What was found out about a requirement.
#[derive(Debug, PartialEq)]
pub struct CheckItem {
    /// The requirement
    pub requirement: String,
    /// The provider
    pub provider: String,
    /// Whether it is met
    pub status: CheckStatus,
    /// Why
    pub detail: String,
}

/// What was found out about the requirements of a product.
#[derive(Debug, PartialEq)]
pub struct CheckOutcome {
    /// The product
    pub build_id: String,
    /// Its requirements
    pub items: Vec<CheckItem>,
}

/// A status as a list shows it, filled up to the width of the longest.
pub open spec fn status_column(status: CheckStatus) -> Seq<char> {
    status.name() + repeated(" "@, (11 - status.name().len()) as nat)
}

fn status_text(status: CheckStatus) -> (r: String)
    ensures
        r@ == status_column(status),
{
    proof {
        reveal_strlit("satisfied");
        reveal_strlit("missing");
        reveal_strlit("outdated");
        reveal_strlit("unavailable");
        assert(status.name().len() <= 11);
    }
    let name = status.as_str();
    let width = name.unicode_len();
    cat2(name, repeat(" ", 11 - width).as_str())
}

/// A line of the list of requirements.
pub open spec fn item_line(item: CheckItem) -> Seq<char> {
    "  "@ + status_column(item.status) + " "@ + item.requirement@ + " via "@ + item.provider@
        + " \u{2014} "@ + item.detail@ + "\n"@
}

/// The lines of the list of requirements.
pub open spec fn item_lines(items: Seq<CheckItem>) -> Seq<char>
    decreases items.len(),
{
    if items.len() == 0 {
        Seq::empty()
    } else {
        item_lines(items.drop_last()) + item_line(items.last())
    }
}

impl CheckOutcome {
    /// Whether every requirement is met.
    pub fn satisfied(&self) -> (r: bool)
        ensures
            r == forall|i: int|
                0 <= i < self.items@.len() ==> (#[trigger] self.items@[i]).status
                    == CheckStatus::Satisfied,
    {
        let mut i: usize = 0;
        while i < self.items.len()
            invariant
                0 <= i <= self.items@.len(),
                forall|j: int|
                    0 <= j < i ==> (#[trigger] self.items@[j]).status == CheckStatus::Satisfied,
            decreases self.items@.len() - i,
        {
            if self.items[i].status != CheckStatus::Satisfied {
                assert(self.items@[i as int].status != CheckStatus::Satisfied);
                return false;
            }
            i += 1;
        }
        true
    }

    /// Whether some requirement cannot be found out about or not be met.
    pub fn operational_failure(&self) -> (r: bool)
        ensures
            r == exists|i: int|
                0 <= i < self.items@.len() && (#[trigger] self.items@[i]).status
                    == CheckStatus::Unavailable,
    {
        let mut i: usize = 0;
        while i < self.items.len()
            invariant
                0 <= i <= self.items@.len(),
                forall|j: int|
                    0 <= j < i ==> (#[trigger] self.items@[j]).status != CheckStatus::Unavailable,
            decreases self.items@.len() - i,
        {
            if self.items[i].status == CheckStatus::Unavailable {
                assert(self.items@[i as int].status == CheckStatus::Unavailable);
                return true;
            }
            i += 1;
        }
        false
    }

    /// The list of requirements.
    pub open spec fn text(self) -> Seq<char> {
        "requirements for "@ + self.build_id@ + "\n"@ + item_lines(self.items@)
    }

    /// The list of requirements.
    pub fn display(&self) -> (r: String)
        ensures
            r@ == self.text(),
    {
        let mut output = String::new();
        let mut i: usize = 0;
        assert(self.items@.take(0) =~= Seq::empty());
        while i < self.items.len()
            invariant
                0 <= i <= self.items@.len(),
                output@ == item_lines(self.items@.take(i as int)),
            decreases self.items@.len() - i,
        {
            let item = &self.items[i];
            assert(self.items@.take(i + 1).drop_last() =~= self.items@.take(i as int));
            assert(self.items@.take(i + 1).last() == self.items@[i as int]);
            let line = cat7(
                "  ",
                status_text(item.status).as_str(),
                " ",
                item.requirement.as_str(),
                " via ",
                item.provider.as_str(),
                " \u{2014} ",
            );
            let line = cat3(line.as_str(), item.detail.as_str(), "\n");
            output = cat2(output.as_str(), line.as_str());
            i += 1;
        }
        assert(self.items@.take(i as int) =~= self.items@);
        cat4("requirements for ", self.build_id.as_str(), "\n", output.as_str())
    }
}

/// How a process that was asked for facts ended.
#[derive(Debug, PartialEq)]
pub struct Ran {
    /// Whether it succeeded
    pub success: bool,
    /// The code that it ended with, where it ended by itself
    pub code: Option<i32>,
    /// How it ended, in words
    pub status: String,
    /// Its output
    pub stdout: Vec<u8>,
    /// Its error output
    pub stderr: Vec<u8>,
}

impl Ran {
    /// Its output as text.
    pub open spec fn out(self) -> Seq<char> {
        decoded_lossy(self.stdout@)
    }

    /// Its error output as text.
    pub open spec fn err(self) -> Seq<char> {
        decoded_lossy(self.stderr@)
    }

    /// Its output as text.
    pub fn output(&self) -> (r: String)
        ensures
            r@ == self.out(),
    {
        decode_lossy(self.stdout.as_slice())
    }

    /// Its error output as text.
    pub fn errors(&self) -> (r: String)
        ensures
            r@ == self.err(),
    {
        decode_lossy(self.stderr.as_slice())
    }
}

/// The first line of text, if it has any but whitespace.
pub open spec fn first_line(text: Seq<char>) -> Option<Seq<char>> {
    if lines(trimmed(text)).len() == 0 {
        None
    } else {
        Some(lines(trimmed(text))[0])
    }
}

fn find_first_line(text: &str) -> (r: Option<String>)
    ensures
        match r {
            Some(line) => first_line(text@) == Some(line@),
            None => first_line(text@) is None,
        },
{
    let all = lines_of(trim(text).as_str());
    assert(all@.len() == views(all@).len());
    if all.len() == 0 {
        return None;
    }
    assert(views(all@)[0] == all@[0]@);
    Some(all[0].clone())
}

/// What a failed process said.
pub open spec fn said(ran: Ran) -> Seq<char> {
    match first_line(ran.err()) {
        Some(line) => line,
        None => match first_line(ran.out()) {
            Some(line) => line,
            None => "no diagnostic output"@,
        },
    }
}

/// What a failed process said.
pub fn output_detail(ran: &Ran) -> (r: String)
    ensures
        r@ == said(*ran),
{
    match find_first_line(ran.errors().as_str()) {
        Some(line) => line,
        None => match find_first_line(ran.output().as_str()) {
            Some(line) => line,
            None => "no diagnostic output".to_string(),
        },
    }
}

/// Refuses more output than is looked at.
pub fn check_output_limit(program: &str, stdout: usize, stderr: usize) -> (r: Result<()>)
    ensures
        reports(
            r,
            problem_if(
                stdout > OUTPUT_LIMIT || stderr > OUTPUT_LIMIT,
                "process `"@ + program@ + "` exceeded the 4194304 byte observation limit"@,
            ),
        ),
{
    if stdout > OUTPUT_LIMIT || stderr > OUTPUT_LIMIT {
        return Err(
            WombatError::Configuration(
                cat3("process `", program, "` exceeded the 4194304 byte observation limit"),
            ),
        );
    }
    Ok(())
}

/// The chosen candidate of a requirement.
pub open spec fn chosen(requirement: Requirement) -> RequirementCandidate {
    requirement.candidates@[requirement.selected as int]
}

/// The message about a choice that is none.
pub open spec fn no_choice() -> Seq<char> {
    "requirement selection is outside its candidates"@
}

/// What a requirement is called.
pub open spec fn label_of(requirement: Requirement) -> Seq<char> {
    requirement_word(requirement.kind) + ":"@ + chosen(requirement).product()
}

fn requirement_label(requirement: &Requirement) -> (r: String)
    requires
        chosen_exists(*requirement),
    ensures
        r@ == label_of(*requirement),
{
    let word = match requirement.kind {
        RequirementKind::Command => "command",
        RequirementKind::Package => "package",
    };
    cat3(word, ":", requirement.candidates[requirement.selected as usize].name())
}

/// The least version that a requirement asks for.
pub open spec fn least_of(requirement: Requirement) -> Option<Seq<char>> {
    match chosen(requirement).least() {
        Some(version) => Some(version@),
        None => None,
    }
}

/// What a check looks at next.
#[derive(Debug, PartialEq)]
pub enum Probe {
    /// Where a command is found
    Which(String),
    /// What a program with arguments does
    Run(Vec<String>),
    /// What the `check` of a custom provider says
    Custom,
}

/// How far a check has come.
#[derive(Debug, PartialEq)]
pub enum CheckStage {
    /// It looks for the command
    Command,
    /// It asks the command at this path for its version
    Version(String),
    /// It looks for Homebrew
    Brew,
    /// It asks Homebrew
    BrewInfo,
    /// It looks for the query tool of Debian
    Dpkg,
    /// It asks that tool
    DpkgQuery,
    /// It looks for the tool that compares this version
    Comparer(String),
    /// It asks that tool
    Compare(String),
    /// It looks for the catalogue of Apt
    AptCache,
    /// It asks that catalogue
    AptPolicy,
    /// It asks a custom provider
    Custom,
    /// It looks for the published commands of a requirement that is met otherwise:
    /// why it is met, and which command comes next
    Published(String, usize),
}

/// What was found.
#[derive(Debug, PartialEq)]
pub enum Reply {
    /// Where the command is
    Found(Option<String>),
    /// What the program did
    Ran(Result<Ran>),
    /// What the provider said
    Answered(Result<FrozenValue>),
}

/// A step of a check.
#[derive(Debug, PartialEq)]
pub enum CheckStep {
    /// It looks at something
    Ask(CheckStage, Probe),
    /// It is done
    Done(CheckItem),
}

/// What a check looks at next.
pub ghost enum ProbeView {
    /// Where a command is found
    Which(Seq<char>),
    /// What a program with arguments does
    Run(Seq<Seq<char>>),
    /// What the `check` of a custom provider says
    Custom,
}

/// How far a check has come.
pub ghost enum StageView {
    /// It looks for the command
    Command,
    /// It asks the command for its version
    Version(Seq<char>),
    /// It looks for Homebrew
    Brew,
    /// It asks Homebrew
    BrewInfo,
    /// It looks for the query tool of Debian
    Dpkg,
    /// It asks that tool
    DpkgQuery,
    /// It looks for the tool that compares this version
    Comparer(Seq<char>),
    /// It asks that tool
    Compare(Seq<char>),
    /// It looks for the catalogue of Apt
    AptCache,
    /// It asks that catalogue
    AptPolicy,
    /// It asks a custom provider
    Custom,
    /// It looks for published commands
    Published(Seq<char>, int),
}

/// What a stage says.
pub open spec fn stage_view(stage: CheckStage) -> StageView {
    match stage {
        CheckStage::Command => StageView::Command,
        CheckStage::Version(path) => StageView::Version(path@),
        CheckStage::Brew => StageView::Brew,
        CheckStage::BrewInfo => StageView::BrewInfo,
        CheckStage::Dpkg => StageView::Dpkg,
        CheckStage::DpkgQuery => StageView::DpkgQuery,
        CheckStage::Comparer(observed) => StageView::Comparer(observed@),
        CheckStage::Compare(observed) => StageView::Compare(observed@),
        CheckStage::AptCache => StageView::AptCache,
        CheckStage::AptPolicy => StageView::AptPolicy,
        CheckStage::Custom => StageView::Custom,
        CheckStage::Published(detail, index) => StageView::Published(detail@, index as int),
    }
}

/// What a probe says.
pub open spec fn probe_view(probe: Probe) -> ProbeView {
    match probe {
        Probe::Which(command) => ProbeView::Which(command@),
        Probe::Run(argv) => ProbeView::Run(views(argv@)),
        Probe::Custom => ProbeView::Custom,
    }
}

/// What comes next in a check.
pub ghost enum Next {
    /// It fails with this message
    Fails(Seq<char>),
    /// It fails because something is no JSON
    Unparsed(Seq<char>),
    /// It hands an error on
    Passes(WombatError),
    /// It looks at something
    Asks(StageView, ProbeView),
    /// It is done
    Done(CheckStatus, Seq<char>),
}

/// Whether a step of a check is what comes next.
pub open spec fn step_is(r: Result<CheckStep>, requirement: Requirement, next: Next) -> bool {
    match next {
        Next::Fails(message) => r is Err && is_configuration(r->Err_0, message),
        Next::Unparsed(message) => r matches Err(WombatError::Json(m)) && m@ == message,
        Next::Passes(error) => r is Err && r->Err_0 == error,
        Next::Asks(stage, probe) => r matches Ok(CheckStep::Ask(s, p)) && stage_view(s) == stage
            && probe_view(p) == probe,
        Next::Done(status, detail) => r matches Ok(CheckStep::Done(item)) && item.requirement@
            == label_of(requirement) && item.provider@ == requirement.binding.provider@
            && item.status == status && item.detail@ == detail,
    }
}

/// Whether something to look at is what comes next.
pub open spec fn probe_is(r: Result<(CheckStage, Probe)>, next: Next) -> bool {
    match next {
        Next::Fails(message) => r is Err && is_configuration(r->Err_0, message),
        Next::Unparsed(message) => r matches Err(WombatError::Json(m)) && m@ == message,
        Next::Passes(error) => r is Err && r->Err_0 == error,
        Next::Asks(stage, probe) => r is Ok && stage_view(r->Ok_0.0) == stage && probe_view(
            r->Ok_0.1,
        ) == probe,
        Next::Done(_, _) => false,
    }
}

fn done(requirement: &Requirement, status: CheckStatus, detail: String) -> (r: Result<CheckStep>)
    requires
        chosen_exists(*requirement),
    ensures
        step_is(r, *requirement, Next::Done(status, detail@)),
{
    Ok(
        CheckStep::Done(
            CheckItem {
                requirement: requirement_label(requirement),
                provider: requirement.binding.provider.clone(),
                status,
                detail,
            },
        ),
    )
}

/// What comes next once a provider has settled the status of a requirement: where it
/// is met, the commands that its package publishes must be there too.
pub open spec fn settled(requirement: Requirement, status: CheckStatus, detail: Seq<char>) -> Next {
    let commands = requirement.binding.publications.commands@;
    if status == CheckStatus::Satisfied && commands.len() > 0 {
        Next::Asks(StageView::Published(detail, 0), ProbeView::Which(commands[0]@))
    } else {
        Next::Done(status, detail)
    }
}

fn settle(requirement: &Requirement, status: CheckStatus, detail: String) -> (r: Result<CheckStep>)
    requires
        chosen_exists(*requirement),
    ensures
        step_is(r, *requirement, settled(*requirement, status, detail@)),
{
    if status == CheckStatus::Satisfied && requirement.binding.publications.commands.len() > 0 {
        let command = requirement.binding.publications.commands[0].clone();
        return Ok(CheckStep::Ask(CheckStage::Published(detail, 0), Probe::Which(command)));
    }
    done(requirement, status, detail)
}

/// The package that Apt is asked for, or what is wrong with the binding.
pub open spec fn apt_name(binding: ProviderBinding) -> std::result::Result<Seq<char>, Seq<char>> {
    match binding.data {
        FrozenValue::Table(data) => match option(data@, "name"@) {
            Some(FrozenValue::String(name)) => Ok(name@),
            _ => Err("Apt binding lacks package name"@),
        },
        _ => Err("Apt binding data must be a map"@),
    }
}

/// Reads the package that Apt is asked for.
pub fn apt_identity(binding: &ProviderBinding) -> (r: Result<&str>)
    ensures
        match apt_name(*binding) {
            Ok(name) => r is Ok && r->Ok_0@ == name,
            Err(message) => r is Err && is_configuration(r->Err_0, message),
        },
{
    match &binding.data {
        FrozenValue::Table(data) => match get(data, "name") {
            Some(FrozenValue::String(name)) => Ok(name.as_str()),
            _ => Err(WombatError::configuration("Apt binding lacks package name")),
        },
        _ => Err(WombatError::configuration("Apt binding data must be a map")),
    }
}

/// The kind and name of the package that Homebrew is asked for, or what is wrong
/// with the binding.
pub open spec fn brew_name(binding: ProviderBinding) -> std::result::Result<
    (Seq<char>, Seq<char>),
    Seq<char>,
> {
    match binding.data {
        FrozenValue::Table(data) => match option(data@, "kind"@) {
            Some(FrozenValue::String(kind)) => match option(data@, "name"@) {
                Some(FrozenValue::String(name)) => Ok((kind@, name@)),
                _ => Err("Homebrew binding lacks name"@),
            },
            _ => Err("Homebrew binding lacks kind"@),
        },
        _ => Err("Homebrew binding data must be a map"@),
    }
}

/// Reads the package that Homebrew is asked for.
pub fn brew_identity(binding: &ProviderBinding) -> (r: Result<(&str, &str)>)
    ensures
        match brew_name(*binding) {
            Ok(named) => r is Ok && (r->Ok_0).0@ == named.0 && (r->Ok_0).1@ == named.1,
            Err(message) => r is Err && is_configuration(r->Err_0, message),
        },
{
    match &binding.data {
        FrozenValue::Table(data) => match get(data, "kind") {
            Some(FrozenValue::String(kind)) => match get(data, "name") {
                Some(FrozenValue::String(name)) => Ok((kind.as_str(), name.as_str())),
                _ => Err(WombatError::configuration("Homebrew binding lacks name")),
            },
            _ => Err(WombatError::configuration("Homebrew binding lacks kind")),
        },
        _ => Err(WombatError::configuration("Homebrew binding data must be a map")),
    }
}

/// The option that tells Homebrew which kind of package is meant.
pub open spec fn flag_of(kind: Seq<char>) -> Seq<char> {
    if kind == "cask"@ {
        "--cask"@
    } else {
        "--formula"@
    }
}

/// The option that tells Homebrew which kind of package is meant.
pub fn brew_flag(kind: &str) -> (r: &'static str)
    ensures
        r@ == flag_of(kind@),
{
    if same(kind, "cask") {
        "--cask"
    } else {
        "--formula"
    }
}

/// The message about a provider that is not there.
pub open spec fn absent_provider(name: Seq<char>) -> Seq<char> {
    "selected provider `"@ + name + "` is absent"@
}

/// Finds a provider of a product.
pub fn provider_for<'a>(manifest: &'a Manifest, name: &str) -> (r: Result<&'a Provider>)
    ensures
        match provider_named(manifest.providers@, name@) {
            Some(provider) => r is Ok && *r->Ok_0 == provider,
            None => r is Err && is_configuration(r->Err_0, absent_provider(name@)),
        },
{
    match crate::inspection::explain::find_provider(&manifest.providers, name) {
        Some(provider) => Ok(provider),
        None => Err(
            WombatError::Configuration(cat3("selected provider `", name, "` is absent")),
        ),
    }
}

/// What comes next where the provider has to be asked.
pub open spec fn by_provider(manifest: Manifest, requirement: Requirement) -> Next {
    match provider_named(manifest.providers@, requirement.binding.provider@) {
        None => Next::Fails(absent_provider(requirement.binding.provider@)),
        Some(provider) => match provider.origin {
            ProviderOrigin::Custom { .. } => Next::Asks(StageView::Custom, ProbeView::Custom),
            ProviderOrigin::Builtin { .. } => if provider.name@ == "brew"@ {
                match brew_name(requirement.binding) {
                    Err(message) => Next::Fails(message),
                    Ok(_) => Next::Asks(StageView::Brew, ProbeView::Which("brew"@)),
                }
            } else if provider.name@ == "apt"@ {
                match apt_name(requirement.binding) {
                    Err(message) => Next::Fails(message),
                    Ok(_) => Next::Asks(StageView::Dpkg, ProbeView::Which("dpkg-query"@)),
                }
            } else {
                Next::Fails("unsupported built-in provider `"@ + provider.name@ + "`"@)
            },
        },
    }
}

fn provider_probe(manifest: &Manifest, requirement: &Requirement) -> (r: Result<
    (CheckStage, Probe),
>)
    ensures
        probe_is(r, by_provider(*manifest, *requirement)),
{
    let provider = provider_for(manifest, requirement.binding.provider.as_str())?;
    match &provider.origin {
        ProviderOrigin::Custom { .. } => Ok((CheckStage::Custom, Probe::Custom)),
        ProviderOrigin::Builtin { .. } => {
            proof {
                reveal_strlit("brew");
                reveal_strlit("apt");
                assert("brew"@.len() == 4 && "apt"@.len() == 3);
            }
            if same(provider.name.as_str(), "brew") {
                brew_identity(&requirement.binding)?;
                return Ok((CheckStage::Brew, Probe::Which("brew".to_string())));
            }
            if same(provider.name.as_str(), "apt") {
                apt_identity(&requirement.binding)?;
                return Ok((CheckStage::Dpkg, Probe::Which("dpkg-query".to_string())));
            }
            Err(
                WombatError::Configuration(
                    cat3("unsupported built-in provider `", provider.name.as_str(), "`"),
                ),
            )
        },
    }
}

fn ask_provider(manifest: &Manifest, requirement: &Requirement) -> (r: Result<CheckStep>)
    ensures
        step_is(r, *requirement, by_provider(*manifest, *requirement)),
{
    let (stage, probe) = provider_probe(manifest, requirement)?;
    Ok(CheckStep::Ask(stage, probe))
}

/// How a check begins.
pub open spec fn first_step(manifest: Manifest, requirement: Requirement) -> Next {
    if !chosen_exists(requirement) {
        Next::Fails(no_choice())
    } else if requirement.kind == RequirementKind::Command {
        Next::Asks(StageView::Command, ProbeView::Which(chosen(requirement).product()))
    } else {
        by_provider(manifest, requirement)
    }
}

fn first_probe(manifest: &Manifest, requirement: &Requirement) -> (r: Result<(CheckStage, Probe)>)
    ensures
        probe_is(r, first_step(*manifest, *requirement)),
{
    if requirement.selected as usize >= requirement.candidates.len() {
        return Err(
            WombatError::configuration("requirement selection is outside its candidates"),
        );
    }
    if requirement.kind == RequirementKind::Command {
        let command = requirement.candidates[requirement.selected as usize].name().to_string();
        return Ok((CheckStage::Command, Probe::Which(command)));
    }
    provider_probe(manifest, requirement)
}

/// Begins to check a requirement. A command counts wherever it comes from; packages
/// are the matter of their provider.
pub fn begin_check(manifest: &Manifest, requirement: &Requirement) -> (r: Result<CheckStep>)
    ensures
        step_is(r, *requirement, first_step(*manifest, *requirement)),
{
    let (stage, probe) = first_probe(manifest, requirement)?;
    Ok(CheckStep::Ask(stage, probe))
}

/// The message about a version that is too old.
pub open spec fn too_old(observed: Seq<char>, minimum: Seq<char>) -> Seq<char> {
    "observed "@ + observed + "; needs at least "@ + minimum
}

fn too_old_text(observed: &str, minimum: &str) -> (r: String)
    ensures
        r@ == too_old(observed@, minimum@),
{
    cat4("observed ", observed, "; needs at least ", minimum)
}

/// What comes next once the command was looked for.
pub open spec fn after_command(
    manifest: Manifest,
    requirement: Requirement,
    found: Option<String>,
) -> Next {
    match found {
        None => by_provider(manifest, requirement),
        Some(path) => match least_of(requirement) {
            Some(_) => Next::Asks(
                StageView::Version(path@),
                ProbeView::Run(seq![path@, "--version"@]),
            ),
            None => Next::Done(CheckStatus::Satisfied, path@),
        },
    }
}

fn resume_command(manifest: &Manifest, requirement: &Requirement, found: Option<String>) -> (r:
    Result<CheckStep>)
    requires
        chosen_exists(*requirement),
    ensures
        step_is(r, *requirement, after_command(*manifest, *requirement, found)),
{
    match found {
        None => ask_provider(manifest, requirement),
        Some(path) => {
            if requirement.candidates[requirement.selected as usize].minimum().is_some() {
                let argv = two(path.as_str(), "--version");
                return Ok(CheckStep::Ask(CheckStage::Version(path), Probe::Run(argv)));
            }
            done(requirement, CheckStatus::Satisfied, path)
        },
    }
}

fn two(a: &str, b: &str) -> (r: Vec<String>)
    ensures
        views(r@) == seq![a@, b@],
{
    let mut r: Vec<String> = Vec::new();
    r.push(a.to_string());
    r.push(b.to_string());
    assert(views(r@) =~= seq![a@, b@]);
    r
}

/// The version that a command reports.
pub open spec fn reported(ran: Ran) -> Option<Seq<char>> {
    match version_in(ran.out()) {
        Some(version) => Some(version),
        None => version_in(ran.err()),
    }
}

/// What comes next once the command was asked for its version.
pub open spec fn after_version(requirement: Requirement, path: Seq<char>, ran: Result<Ran>) -> Next {
    match ran {
        Err(error) => Next::Passes(error),
        Ok(ran) => if !ran.success {
            Next::Fails("version probe `"@ + path + "` failed: "@ + said(ran))
        } else {
            match reported(ran) {
                None => Next::Fails("could not parse a version from `"@ + path + "`"@),
                Some(observed) => match least_of(requirement) {
                    Some(minimum) => if at_least(observed, minimum) {
                        Next::Done(CheckStatus::Satisfied, path + " at "@ + observed)
                    } else {
                        Next::Done(CheckStatus::Outdated, too_old(observed, minimum))
                    },
                    None => Next::Done(CheckStatus::Satisfied, path),
                },
            }
        },
    }
}

fn resume_version(requirement: &Requirement, path: String, ran: Result<Ran>) -> (r: Result<CheckStep>)
    requires
        chosen_exists(*requirement),
    ensures
        step_is(r, *requirement, after_version(*requirement, path@, ran)),
{
    let ran = ran?;
    if !ran.success {
        return Err(
            WombatError::Configuration(
                cat4(
                    "version probe `",
                    path.as_str(),
                    "` failed: ",
                    output_detail(&ran).as_str(),
                ),
            ),
        );
    }
    let version = match first_version(ran.output().as_str()) {
        Some(version) => Some(version),
        None => first_version(ran.errors().as_str()),
    };
    match version {
        None => Err(
            WombatError::Configuration(
                cat3("could not parse a version from `", path.as_str(), "`"),
            ),
        ),
        Some(observed) => {
            match requirement.candidates[requirement.selected as usize].minimum() {
                Some(minimum) => {
                    if version_at_least(observed.as_str(), minimum) {
                        let detail = cat3(path.as_str(), " at ", observed.as_str());
                        return done(requirement, CheckStatus::Satisfied, detail);
                    }
                    done(
                        requirement,
                        CheckStatus::Outdated,
                        too_old_text(observed.as_str(), minimum),
                    )
                },
                None => done(requirement, CheckStatus::Satisfied, path),
            }
        },
    }
}

/// What comes next once Homebrew was looked for.
pub open spec fn after_brew(requirement: Requirement, found: Option<String>) -> Next {
    match brew_name(requirement.binding) {
        Err(message) => Next::Fails(message),
        Ok(named) => match found {
            None => settled(
                requirement,
                CheckStatus::Unavailable,
                "Homebrew is not available on PATH"@,
            ),
            Some(brew) => Next::Asks(
                StageView::BrewInfo,
                ProbeView::Run(brew_question(brew@, named)),
            ),
        },
    }
}

/// How Homebrew is asked for a package.
pub open spec fn brew_question(brew: Seq<char>, named: (Seq<char>, Seq<char>)) -> Seq<Seq<char>> {
    seq![brew, "info"@, "--json=v2"@, flag_of(named.0), named.1]
}

fn ask_brew(brew: &str, kind: &str, name: &str) -> (r: Vec<String>)
    ensures
        views(r@) == brew_question(brew@, (kind@, name@)),
{
    let mut argv = two(brew, "info");
    push_text(&mut argv, "--json=v2");
    push_text(&mut argv, brew_flag(kind));
    push_text(&mut argv, name);
    assert(views(argv@) =~= brew_question(brew@, (kind@, name@)));
    argv
}

fn resume_brew(requirement: &Requirement, found: Option<String>) -> (r: Result<CheckStep>)
    requires
        chosen_exists(*requirement),
    ensures
        step_is(r, *requirement, after_brew(*requirement, found)),
{
    let (kind, name) = brew_identity(&requirement.binding)?;
    match found {
        None => settle(
            requirement,
            CheckStatus::Unavailable,
            "Homebrew is not available on PATH".to_string(),
        ),
        Some(brew) => {
            let argv = ask_brew(brew.as_str(), kind, name);
            Ok(CheckStep::Ask(CheckStage::BrewInfo, Probe::Run(argv)))
        },
    }
}

/// The versions among the installed ones.
pub open spec fn listed_versions(items: Seq<JsonTree>) -> Seq<Seq<char>>
    decreases items.len(),
{
    if items.len() == 0 {
        Seq::empty()
    } else {
        let rest = listed_versions(items.drop_last());
        match member(items.last(), "version"@) {
            Some(JsonTree::Text(version)) => rest.push(version),
            _ => rest,
        }
    }
}

/// The record of a package that Homebrew gave.
pub open spec fn brew_record(json: JsonTree, kind: Seq<char>) -> Option<JsonTree> {
    match member(
        json,
        if kind == "cask"@ {
            "casks"@
        } else {
            "formulae"@
        },
    ) {
        Some(JsonTree::Array(items)) => if items.len() > 0 {
            Some(items[0])
        } else {
            None
        },
        _ => None,
    }
}

/// The installed versions of a package that Homebrew gave.
pub open spec fn brew_versions(record: JsonTree) -> Seq<Seq<char>> {
    match member(record, "installed"@) {
        Some(JsonTree::Array(items)) => listed_versions(items),
        Some(JsonTree::Text(version)) => seq![version],
        _ => Seq::empty(),
    }
}

fn read_versions(items: &Vec<Value>) -> (r: Vec<String>)
    ensures
        views(r@) == listed_versions(all_contents(items@)),
{
    let ghost all = all_contents(items@);
    let mut r: Vec<String> = Vec::new();
    let mut i: usize = 0;
    assert(all.take(0) =~= Seq::empty());
    assert(views(r@) =~= Seq::empty());
    while i < items.len()
        invariant
            0 <= i <= items@.len(),
            all == all_contents(items@),
            views(r@) == listed_versions(all.take(i as int)),
        decreases items@.len() - i,
    {
        assert(all.take(i + 1).drop_last() =~= all.take(i as int));
        assert(all.take(i + 1).last() == contents(items@[i as int]));
        let ghost sofar = r@;
        if let Some(version) = member_value(&items[i], "version") {
            if let Some(text) = value_text(version) {
                r.push(text.to_string());
                assert(views(r@) =~= views(sofar).push(text@));
            }
        }
        i += 1;
    }
    assert(all.take(i as int) =~= all);
    r
}

/// Reads the installed versions from what Homebrew gave.
fn installed_brew_versions(json: &Value, kind: &str) -> (r: Result<Vec<String>>)
    ensures
        match brew_record(contents(*json), kind@) {
            Some(record) => r is Ok && views(r->Ok_0@) == brew_versions(record),
            None => r is Err && is_configuration(
                r->Err_0,
                "Homebrew returned no matching package record"@,
            ),
        },
{
    let key = if same(kind, "cask") {
        "casks"
    } else {
        "formulae"
    };
    if let Some(list) = member_value(json, key) {
        if let Some(items) = array_items(list) {
            if items.len() > 0 {
                assert(all_contents(items@)[0] == contents(items@[0]));
                let none: Vec<String> = Vec::new();
                assert(views(none@) =~= Seq::empty());
                return match member_value(&items[0], "installed") {
                    None => Ok(none),
                    Some(installed) => match array_items(installed) {
                        Some(versions) => Ok(read_versions(versions)),
                        None => match value_text(installed) {
                            Some(version) => {
                                let mut r: Vec<String> = Vec::new();
                                r.push(version.to_string());
                                assert(views(r@) =~= seq![version@]);
                                Ok(r)
                            },
                            None => Ok(none),
                        },
                    },
                };
            }
        }
    }
    Err(WombatError::configuration("Homebrew returned no matching package record"))
}

/// What the installed versions of a package say.
pub open spec fn judged_versions(
    requirement: Requirement,
    named: (Seq<char>, Seq<char>),
    versions: Seq<Seq<char>>,
) -> Next {
    if versions.len() == 0 {
        settled(requirement, CheckStatus::Missing, "not installed"@)
    } else {
        let observed = versions.last();
        match least_of(requirement) {
            Some(minimum) if !at_least(observed, minimum) => settled(
                requirement,
                CheckStatus::Outdated,
                too_old(observed, minimum),
            ),
            _ => settled(
                requirement,
                CheckStatus::Satisfied,
                named.0 + " "@ + named.1 + " "@ + observed,
            ),
        }
    }
}

/// Why the state of a package is not known.
pub ghost enum BrewFailure {
    /// Something is wrong, and this says so
    Says(Seq<char>),
    /// What Homebrew gave is no JSON
    Unparsed(Seq<char>),
    /// An error is handed on
    Passes(WombatError),
}

/// Whether an error is the one for a failure.
pub open spec fn brew_fails(error: WombatError, failure: BrewFailure) -> bool {
    match failure {
        BrewFailure::Says(message) => is_configuration(error, message),
        BrewFailure::Unparsed(message) => error matches WombatError::Json(m) && m@ == message,
        BrewFailure::Passes(given) => error == given,
    }
}

/// The state of a package as Homebrew has it, whatever version is asked for and whatever
/// commands it publishes. `asked` is what came of asking, where Homebrew was found.
pub open spec fn brew_status(
    binding: ProviderBinding,
    asked: Option<Result<Ran>>,
) -> std::result::Result<CheckStatus, BrewFailure> {
    match brew_name(binding) {
        Err(message) => Err(BrewFailure::Says(message)),
        Ok(named) => match asked {
            None => Ok(CheckStatus::Unavailable),
            Some(Err(error)) => Err(BrewFailure::Passes(error)),
            Some(Ok(ran)) => if !ran.success {
                Ok(CheckStatus::Unavailable)
            } else {
                match parsed(ran.stdout@) {
                    Err(message) => Err(BrewFailure::Unparsed(message)),
                    Ok(json) => match brew_record(json, named.0) {
                        None => Err(
                            BrewFailure::Says("Homebrew returned no matching package record"@),
                        ),
                        Some(record) => if brew_versions(record).len() == 0 {
                            Ok(CheckStatus::Missing)
                        } else {
                            Ok(CheckStatus::Satisfied)
                        },
                    },
                }
            },
        },
    }
}

/// How Homebrew is asked for the state of a package, where it was found.
pub fn brew_query(binding: &ProviderBinding, found: Option<String>) -> (r: Result<
    Option<Vec<String>>,
>)
    ensures
        match brew_name(*binding) {
            Err(message) => r is Err && is_configuration(r->Err_0, message),
            Ok(named) => match found {
                None => r matches Ok(None),
                Some(brew) => r matches Ok(Some(argv)) && views(argv@) == brew_question(
                    brew@,
                    named,
                ),
            },
        },
{
    let (kind, name) = brew_identity(binding)?;
    match found {
        None => Ok(None),
        Some(brew) => Ok(Some(ask_brew(brew.as_str(), kind, name))),
    }
}

/// Finds the state of a package as Homebrew has it. `asked` is what came of asking, where
/// Homebrew was found.
pub fn brew_state(binding: &ProviderBinding, asked: Option<Result<Ran>>) -> (r: Result<CheckStatus>)
    ensures
        match brew_status(*binding, asked) {
            Ok(status) => r is Ok && r->Ok_0 == status,
            Err(failure) => r is Err && brew_fails(r->Err_0, failure),
        },
{
    let (kind, _) = brew_identity(binding)?;
    let ran = match asked {
        None => {
            return Ok(CheckStatus::Unavailable);
        },
        Some(ran) => ran?,
    };
    if !ran.success {
        return Ok(CheckStatus::Unavailable);
    }
    let json = match parse_json(ran.stdout.as_slice()) {
        Ok(json) => json,
        Err(message) => {
            return Err(WombatError::Json(message));
        },
    };
    let versions = installed_brew_versions(&json, kind)?;
    assert(versions@.len() == views(versions@).len());
    if versions.len() == 0 {
        return Ok(CheckStatus::Missing);
    }
    Ok(CheckStatus::Satisfied)
}

/// What comes next once Homebrew was asked.
pub open spec fn after_brew_info(requirement: Requirement, ran: Result<Ran>) -> Next {
    match brew_name(requirement.binding) {
        Err(message) => Next::Fails(message),
        Ok(named) => match ran {
            Err(error) => Next::Passes(error),
            Ok(ran) => if !ran.success {
                settled(
                    requirement,
                    CheckStatus::Unavailable,
                    "brew info failed: "@ + said(ran),
                )
            } else {
                match parsed(ran.stdout@) {
                    Err(message) => Next::Unparsed(message),
                    Ok(json) => match brew_record(json, named.0) {
                        None => Next::Fails("Homebrew returned no matching package record"@),
                        Some(record) => judged_versions(
                            requirement,
                            named,
                            brew_versions(record),
                        ),
                    },
                }
            },
        },
    }
}

fn judge_versions(requirement: &Requirement, kind: &str, name: &str, versions: &Vec<String>) -> (r:
    Result<CheckStep>)
    requires
        chosen_exists(*requirement),
    ensures
        step_is(
            r,
            *requirement,
            judged_versions(*requirement, (kind@, name@), views(versions@)),
        ),
{
    assert(versions@.len() == views(versions@).len());
    if versions.len() == 0 {
        return settle(requirement, CheckStatus::Missing, "not installed".to_string());
    }
    assert(views(versions@).last() == versions@.last()@);
    let observed = versions[versions.len() - 1].as_str();
    if let Some(minimum) = requirement.candidates[requirement.selected as usize].minimum() {
        if !version_at_least(observed, minimum) {
            return settle(requirement, CheckStatus::Outdated, too_old_text(observed, minimum));
        }
    }
    settle(requirement, CheckStatus::Satisfied, cat5(kind, " ", name, " ", observed))
}

fn resume_brew_info(requirement: &Requirement, ran: Result<Ran>) -> (r: Result<CheckStep>)
    requires
        chosen_exists(*requirement),
    ensures
        step_is(r, *requirement, after_brew_info(*requirement, ran)),
{
    let (kind, name) = brew_identity(&requirement.binding)?;
    let ran = ran?;
    if !ran.success {
        return settle(
            requirement,
            CheckStatus::Unavailable,
            cat2("brew info failed: ", output_detail(&ran).as_str()),
        );
    }
    let json = match parse_json(ran.stdout.as_slice()) {
        Ok(json) => json,
        Err(message) => {
            return Err(WombatError::Json(message));
        },
    };
    let versions = installed_brew_versions(&json, kind)?;
    judge_versions(requirement, kind, name, &versions)
}

/// What comes next once the query tool of Debian was looked for.
pub open spec fn after_dpkg(requirement: Requirement, found: Option<String>) -> Next {
    match apt_name(requirement.binding) {
        Err(message) => Next::Fails(message),
        Ok(name) => match found {
            None => settled(
                requirement,
                CheckStatus::Unavailable,
                "dpkg-query is not available on PATH"@,
            ),
            Some(tool) => Next::Asks(
                StageView::DpkgQuery,
                ProbeView::Run(seq![tool@, "-W"@, "-f=${Status}\t${Version}"@, name]),
            ),
        },
    }
}

fn resume_dpkg(requirement: &Requirement, found: Option<String>) -> (r: Result<CheckStep>)
    requires
        chosen_exists(*requirement),
    ensures
        step_is(r, *requirement, after_dpkg(*requirement, found)),
{
    let name = apt_identity(&requirement.binding)?;
    match found {
        None => settle(
            requirement,
            CheckStatus::Unavailable,
            "dpkg-query is not available on PATH".to_string(),
        ),
        Some(tool) => {
            let mut argv = two(tool.as_str(), "-W");
            push_text(&mut argv, "-f=${Status}\t${Version}");
            push_text(&mut argv, name);
            assert(views(argv@) =~= seq![tool@, "-W"@, "-f=${Status}\t${Version}"@, name@]);
            Ok(CheckStep::Ask(CheckStage::DpkgQuery, Probe::Run(argv)))
        },
    }
}

/// What the record of an installed package says.
pub open spec fn judged_record(requirement: Requirement, name: Seq<char>, record: Seq<char>) -> Next {
    match cut_last(trimmed(record), '\t') {
        None => settled(
            requirement,
            CheckStatus::Unavailable,
            "dpkg-query returned an unrecognized package record"@,
        ),
        Some(parts) => if parts.0 != "install ok installed"@ {
            settled(requirement, CheckStatus::Missing, "dpkg status is "@ + parts.0)
        } else {
            match least_of(requirement) {
                Some(_) => Next::Asks(
                    StageView::Comparer(parts.1),
                    ProbeView::Which("dpkg"@),
                ),
                None => settled(
                    requirement,
                    CheckStatus::Satisfied,
                    "package "@ + name + " "@ + parts.1,
                ),
            }
        },
    }
}

fn judge_record(requirement: &Requirement, name: &str, record: &str) -> (r: Result<CheckStep>)
    requires
        chosen_exists(*requirement),
    ensures
        step_is(r, *requirement, judged_record(*requirement, name@, record@)),
{
    match split_last(trim(record).as_str(), '\t') {
        None => settle(
            requirement,
            CheckStatus::Unavailable,
            "dpkg-query returned an unrecognized package record".to_string(),
        ),
        Some((status, observed)) => {
            if !same(status.as_str(), "install ok installed") {
                return settle(
                    requirement,
                    CheckStatus::Missing,
                    cat2("dpkg status is ", status.as_str()),
                );
            }
            if requirement.candidates[requirement.selected as usize].minimum().is_some() {
                return Ok(
                    CheckStep::Ask(
                        CheckStage::Comparer(observed),
                        Probe::Which("dpkg".to_string()),
                    ),
                );
            }
            settle(
                requirement,
                CheckStatus::Satisfied,
                cat4("package ", name, " ", observed.as_str()),
            )
        },
    }
}

/// What comes next once the query tool of Debian was asked.
pub open spec fn after_dpkg_query(requirement: Requirement, ran: Result<Ran>) -> Next {
    match apt_name(requirement.binding) {
        Err(message) => Next::Fails(message),
        Ok(name) => match ran {
            Err(error) => Next::Passes(error),
            Ok(ran) => if ran.success {
                judged_record(requirement, name, ran.out())
            } else {
                Next::Asks(StageView::AptCache, ProbeView::Which("apt-cache"@))
            },
        },
    }
}

fn resume_dpkg_query(requirement: &Requirement, ran: Result<Ran>) -> (r: Result<CheckStep>)
    requires
        chosen_exists(*requirement),
    ensures
        step_is(r, *requirement, after_dpkg_query(*requirement, ran)),
{
    let name = apt_identity(&requirement.binding)?;
    let ran = ran?;
    if ran.success {
        return judge_record(requirement, name, ran.output().as_str());
    }
    Ok(CheckStep::Ask(CheckStage::AptCache, Probe::Which("apt-cache".to_string())))
}

/// What comes next once the tool that compares versions was looked for.
pub open spec fn after_comparer(
    requirement: Requirement,
    observed: Seq<char>,
    found: Option<String>,
) -> Next {
    match found {
        None => settled(
            requirement,
            CheckStatus::Unavailable,
            "dpkg is unavailable for Debian version comparison"@,
        ),
        Some(dpkg) => Next::Asks(
            StageView::Compare(observed),
            ProbeView::Run(
                seq![
                    dpkg@,
                    "--compare-versions"@,
                    observed,
                    "ge"@,
                    least_of(requirement).unwrap_or(Seq::empty()),
                ],
            ),
        ),
    }
}

fn least_text(requirement: &Requirement) -> (r: String)
    requires
        chosen_exists(*requirement),
    ensures
        r@ == least_of(*requirement).unwrap_or(Seq::empty()),
{
    match requirement.candidates[requirement.selected as usize].minimum() {
        Some(minimum) => minimum.to_string(),
        None => String::new(),
    }
}

fn resume_comparer(requirement: &Requirement, observed: String, found: Option<String>) -> (r: Result<
    CheckStep,
>)
    requires
        chosen_exists(*requirement),
    ensures
        step_is(r, *requirement, after_comparer(*requirement, observed@, found)),
{
    match found {
        None => settle(
            requirement,
            CheckStatus::Unavailable,
            "dpkg is unavailable for Debian version comparison".to_string(),
        ),
        Some(dpkg) => {
            let mut argv = two(dpkg.as_str(), "--compare-versions");
            push_text(&mut argv, observed.as_str());
            push_text(&mut argv, "ge");
            push_text(&mut argv, least_text(requirement).as_str());
            assert(views(argv@) =~= seq![
                dpkg@,
                "--compare-versions"@,
                observed@,
                "ge"@,
                least_of(*requirement).unwrap_or(Seq::empty()),
            ]);
            Ok(CheckStep::Ask(CheckStage::Compare(observed), Probe::Run(argv)))
        },
    }
}

/// What comes next once versions were compared.
pub open spec fn after_compare(
    requirement: Requirement,
    observed: Seq<char>,
    ran: Result<Ran>,
) -> Next {
    match apt_name(requirement.binding) {
        Err(message) => Next::Fails(message),
        Ok(name) => match ran {
            Err(error) => Next::Passes(error),
            Ok(ran) => if !ran.success {
                settled(
                    requirement,
                    CheckStatus::Outdated,
                    too_old(observed, least_of(requirement).unwrap_or(Seq::empty())),
                )
            } else {
                settled(
                    requirement,
                    CheckStatus::Satisfied,
                    "package "@ + name + " "@ + observed,
                )
            },
        },
    }
}

fn resume_compare(requirement: &Requirement, observed: String, ran: Result<Ran>) -> (r: Result<
    CheckStep,
>)
    requires
        chosen_exists(*requirement),
    ensures
        step_is(r, *requirement, after_compare(*requirement, observed@, ran)),
{
    let name = apt_identity(&requirement.binding)?;
    let ran = ran?;
    if !ran.success {
        return settle(
            requirement,
            CheckStatus::Outdated,
            too_old_text(observed.as_str(), least_text(requirement).as_str()),
        );
    }
    settle(requirement, CheckStatus::Satisfied, cat4("package ", name, " ", observed.as_str()))
}

/// What comes next once the catalogue of Apt was looked for.
pub open spec fn after_apt_cache(requirement: Requirement, found: Option<String>) -> Next {
    match apt_name(requirement.binding) {
        Err(message) => Next::Fails(message),
        Ok(name) => match found {
            None => settled(
                requirement,
                CheckStatus::Unavailable,
                "apt-cache is not available on PATH"@,
            ),
            Some(tool) => Next::Asks(
                StageView::AptPolicy,
                ProbeView::Run(seq![tool@, "policy"@, name]),
            ),
        },
    }
}

fn resume_apt_cache(requirement: &Requirement, found: Option<String>) -> (r: Result<CheckStep>)
    requires
        chosen_exists(*requirement),
    ensures
        step_is(r, *requirement, after_apt_cache(*requirement, found)),
{
    let name = apt_identity(&requirement.binding)?;
    match found {
        None => settle(
            requirement,
            CheckStatus::Unavailable,
            "apt-cache is not available on PATH".to_string(),
        ),
        Some(tool) => {
            let mut argv = two(tool.as_str(), "policy");
            push_text(&mut argv, name);
            assert(views(argv@) =~= seq![tool@, "policy"@, name@]);
            Ok(CheckStep::Ask(CheckStage::AptPolicy, Probe::Run(argv)))
        },
    }
}

/// The candidate that the first line about one names.
pub open spec fn candidate_among(all: Seq<Seq<char>>) -> Option<Seq<char>>
    decreases all.len(),
{
    if all.len() == 0 {
        None
    } else if "Candidate:"@.is_prefix_of(trimmed(all[0])) {
        Some(trimmed(trimmed(all[0]).skip("Candidate:"@.len() as int)))
    } else {
        candidate_among(all.skip(1))
    }
}

fn find_candidate(text: &str) -> (r: Option<String>)
    ensures
        match r {
            Some(candidate) => candidate_among(lines(text@)) == Some(candidate@),
            None => candidate_among(lines(text@)) is None,
        },
{
    let list = lines_of(text);
    let ghost all = lines(text@);
    let mut i: usize = 0;
    assert(list@.len() == views(list@).len());
    assert(all.skip(0) =~= all);
    while i < list.len()
        invariant
            0 <= i <= list@.len(),
            views(list@) == all,
            all == lines(text@),
            list@.len() == all.len(),
            candidate_among(all) == candidate_among(all.skip(i as int)),
        decreases list@.len() - i,
    {
        assert(views(list@)[i as int] == list@[i as int]@);
        assert(all.skip(i as int)[0] == all[i as int]);
        assert(all.skip(i as int).skip(1) =~= all.skip(i + 1));
        if let Some(rest) = strip_prefix(trim(list[i].as_str()).as_str(), "Candidate:") {
            return Some(trim(rest.as_str()));
        }
        i += 1;
    }
    None
}

/// What comes next once the catalogue of Apt was asked.
pub open spec fn after_policy(requirement: Requirement, ran: Result<Ran>) -> Next {
    match ran {
        Err(error) => Next::Passes(error),
        Ok(ran) => if !ran.success {
            settled(
                requirement,
                CheckStatus::Unavailable,
                "apt-cache policy failed: "@ + said(ran),
            )
        } else {
            match candidate_among(lines(ran.out())) {
                Some(candidate) if candidate != "(none)"@ => settled(
                    requirement,
                    CheckStatus::Missing,
                    "not installed; candidate "@ + candidate,
                ),
                _ => settled(
                    requirement,
                    CheckStatus::Unavailable,
                    "no Apt candidate is available"@,
                ),
            }
        },
    }
}

fn resume_policy(requirement: &Requirement, ran: Result<Ran>) -> (r: Result<CheckStep>)
    requires
        chosen_exists(*requirement),
    ensures
        step_is(r, *requirement, after_policy(*requirement, ran)),
{
    let ran = ran?;
    if !ran.success {
        return settle(
            requirement,
            CheckStatus::Unavailable,
            cat2("apt-cache policy failed: ", output_detail(&ran).as_str()),
        );
    }
    if let Some(candidate) = find_candidate(ran.output().as_str()) {
        if !same(candidate.as_str(), "(none)") {
            return settle(
                requirement,
                CheckStatus::Missing,
                cat2("not installed; candidate ", candidate.as_str()),
            );
        }
    }
    settle(requirement, CheckStatus::Unavailable, "no Apt candidate is available".to_string())
}

/// The status with a name.
pub open spec fn status_named(name: Seq<char>) -> Option<CheckStatus> {
    if name == "satisfied"@ {
        Some(CheckStatus::Satisfied)
    } else if name == "missing"@ {
        Some(CheckStatus::Missing)
    } else if name == "outdated"@ {
        Some(CheckStatus::Outdated)
    } else if name == "unavailable"@ {
        Some(CheckStatus::Unavailable)
    } else {
        None
    }
}

fn read_status(name: &str) -> (r: Option<CheckStatus>)
    ensures
        r == status_named(name@),
{
    if same(name, "satisfied") {
        Some(CheckStatus::Satisfied)
    } else if same(name, "missing") {
        Some(CheckStatus::Missing)
    } else if same(name, "outdated") {
        Some(CheckStatus::Outdated)
    } else if same(name, "unavailable") {
        Some(CheckStatus::Unavailable)
    } else {
        None
    }
}

/// What comes next once a custom provider has said something.
pub open spec fn after_custom(requirement: Requirement, answer: Result<FrozenValue>) -> Next {
    match answer {
        Err(error) => Next::Passes(error),
        Ok(FrozenValue::Table(values)) => match option(values@, "status"@) {
            Some(FrozenValue::String(name)) => match status_named(name@) {
                Some(status) => match option(values@, "detail"@) {
                    None => settled(requirement, status, status.name()),
                    Some(FrozenValue::String(detail)) => settled(requirement, status, detail@),
                    Some(value) => settled(requirement, status, compact(value.tree())),
                },
                None => Next::Fails("provider check() returned an invalid status"@),
            },
            _ => Next::Fails("provider check() returned an invalid status"@),
        },
        Ok(_) => Next::Fails("provider check() must return a status table"@),
    }
}

fn resume_custom(requirement: &Requirement, answer: Result<FrozenValue>) -> (r: Result<CheckStep>)
    requires
        chosen_exists(*requirement),
    ensures
        step_is(r, *requirement, after_custom(*requirement, answer)),
{
    let value = answer?;
    let values = match &value {
        FrozenValue::Table(values) => values,
        _ => {
            return Err(
                WombatError::configuration("provider check() must return a status table"),
            );
        },
    };
    let status = match get(values, "status") {
        Some(FrozenValue::String(name)) => read_status(name.as_str()),
        _ => None,
    };
    let status = match status {
        Some(status) => status,
        None => {
            return Err(
                WombatError::configuration("provider check() returned an invalid status"),
            );
        },
    };
    let detail = match get(values, "detail") {
        None => status.as_str().to_string(),
        Some(FrozenValue::String(detail)) => detail.clone(),
        Some(value) => compact_text(&frozen_value(value)),
    };
    settle(requirement, status, detail)
}

/// What comes next once a published command was looked for.
pub open spec fn after_published(
    requirement: Requirement,
    detail: Seq<char>,
    index: int,
    found: Option<String>,
) -> Next {
    let commands = requirement.binding.publications.commands@;
    match found {
        None => Next::Done(
            CheckStatus::Missing,
            "package is present but published command `"@ + commands[index]@
                + "` is absent from PATH"@,
        ),
        Some(_) => if index + 1 < commands.len() {
            Next::Asks(
                StageView::Published(detail, index + 1),
                ProbeView::Which(commands[index + 1]@),
            )
        } else {
            Next::Done(CheckStatus::Satisfied, detail)
        },
    }
}

fn resume_published(
    requirement: &Requirement,
    detail: String,
    index: usize,
    found: Option<String>,
) -> (r: Result<CheckStep>)
    requires
        chosen_exists(*requirement),
        index < requirement.binding.publications.commands@.len(),
    ensures
        step_is(
            r,
            *requirement,
            after_published(*requirement, detail@, index as int, found),
        ),
{
    let commands = &requirement.binding.publications.commands;
    if found.is_none() {
        return done(
            requirement,
            CheckStatus::Missing,
            cat3(
                "package is present but published command `",
                commands[index].as_str(),
                "` is absent from PATH",
            ),
        );
    }
    if commands.len() - index > 1 {
        let command = commands[index + 1].clone();
        return Ok(
            CheckStep::Ask(CheckStage::Published(detail, index + 1), Probe::Which(command)),
        );
    }
    done(requirement, CheckStatus::Satisfied, detail)
}

/// Whether a reply is of the kind that a stage waits for.
pub open spec fn reply_fits(requirement: Requirement, stage: CheckStage, reply: Reply) -> bool {
    match stage {
        CheckStage::Version(_) | CheckStage::BrewInfo | CheckStage::DpkgQuery
        | CheckStage::Compare(_) | CheckStage::AptPolicy => reply is Ran,
        CheckStage::Custom => reply is Answered,
        CheckStage::Published(_, index) => reply is Found && index
            < requirement.binding.publications.commands@.len(),
        _ => reply is Found,
    }
}

/// What comes next in a check.
pub open spec fn next_step(
    manifest: Manifest,
    requirement: Requirement,
    stage: CheckStage,
    reply: Reply,
) -> Next {
    match stage {
        CheckStage::Command => after_command(manifest, requirement, reply->Found_0),
        CheckStage::Version(path) => after_version(requirement, path@, reply->Ran_0),
        CheckStage::Brew => after_brew(requirement, reply->Found_0),
        CheckStage::BrewInfo => after_brew_info(requirement, reply->Ran_0),
        CheckStage::Dpkg => after_dpkg(requirement, reply->Found_0),
        CheckStage::DpkgQuery => after_dpkg_query(requirement, reply->Ran_0),
        CheckStage::Comparer(observed) => after_comparer(
            requirement,
            observed@,
            reply->Found_0,
        ),
        CheckStage::Compare(observed) => after_compare(requirement, observed@, reply->Ran_0),
        CheckStage::AptCache => after_apt_cache(requirement, reply->Found_0),
        CheckStage::AptPolicy => after_policy(requirement, reply->Ran_0),
        CheckStage::Custom => after_custom(requirement, reply->Answered_0),
        CheckStage::Published(detail, index) => after_published(
            requirement,
            detail@,
            index as int,
            reply->Found_0,
        ),
    }
}

/// Goes on with a check once something was looked at.
pub fn check_requirement(
    manifest: &Manifest,
    requirement: &Requirement,
    stage: CheckStage,
    reply: Reply,
) -> (r: Result<CheckStep>)
    requires
        chosen_exists(*requirement),
        reply_fits(*requirement, stage, reply),
    ensures
        step_is(r, *requirement, next_step(*manifest, *requirement, stage, reply)),
{
    match reply {
        Reply::Found(found) => match stage {
            CheckStage::Command => resume_command(manifest, requirement, found),
            CheckStage::Brew => resume_brew(requirement, found),
            CheckStage::Dpkg => resume_dpkg(requirement, found),
            CheckStage::Comparer(observed) => resume_comparer(requirement, observed, found),
            CheckStage::AptCache => resume_apt_cache(requirement, found),
            CheckStage::Published(detail, index) => resume_published(
                requirement,
                detail,
                index,
                found,
            ),
            _ => ask_provider(manifest, requirement),
        },
        Reply::Ran(ran) => match stage {
            CheckStage::Version(path) => resume_version(requirement, path, ran),
            CheckStage::BrewInfo => resume_brew_info(requirement, ran),
            CheckStage::DpkgQuery => resume_dpkg_query(requirement, ran),
            CheckStage::Compare(observed) => resume_compare(requirement, observed, ran),
            CheckStage::AptPolicy => resume_policy(requirement, ran),
            _ => ask_provider(manifest, requirement),
        },
        Reply::Answered(answer) => resume_custom(requirement, answer),
    }
}

/// How far a stage is from the beginning of a check.
pub open spec fn stage_rank(stage: StageView) -> int {
    match stage {
        StageView::Command => 0,
        StageView::Version(_) => 1,
        StageView::Brew => 1,
        StageView::BrewInfo => 2,
        StageView::Dpkg => 1,
        StageView::DpkgQuery => 2,
        StageView::Comparer(_) => 3,
        StageView::Compare(_) => 4,
        StageView::AptCache => 3,
        StageView::AptPolicy => 4,
        StageView::Custom => 1,
        StageView::Published(_, index) => 5 + index,
    }
}

/// Every check ends: each step leads further from the beginning, and no further than
/// past the last published command.
pub proof fn law_checks_end(
    manifest: Manifest,
    requirement: Requirement,
    stage: CheckStage,
    reply: Reply,
)
    requires
        reply_fits(requirement, stage, reply),
    ensures
        next_step(manifest, requirement, stage, reply) matches Next::Asks(next, _) ==> {
            &&& stage_rank(next) > stage_rank(stage_view(stage))
            &&& stage_rank(next) < 5 + requirement.binding.publications.commands@.len() || stage_rank(
                next,
            ) < 5
        },
{
}

/// A check of all requirements of a product that waits for a reply.
#[derive(Debug, PartialEq)]
pub struct CheckRun {
    /// What was found out about the first requirements
    pub items: Vec<CheckItem>,
    /// How far the check of the next one has come
    pub stage: CheckStage,
}

/// How far a check of all requirements of a product has come.
#[derive(Debug, PartialEq)]
pub enum CheckProgress {
    /// It looks at something
    Ask(CheckRun, Probe),
    /// It is done
    Finished(CheckOutcome),
}

/// What was found out about a requirement.
pub ghost struct RowView {
    /// The requirement
    pub requirement: Seq<char>,
    /// The provider
    pub provider: Seq<char>,
    /// Whether it is met
    pub status: CheckStatus,
    /// Why
    pub detail: Seq<char>,
}

/// The rows of an outcome.
pub open spec fn rows(items: Seq<CheckItem>) -> Seq<RowView> {
    Seq::new(
        items.len(),
        |i: int|
            RowView {
                requirement: items[i].requirement@,
                provider: items[i].provider@,
                status: items[i].status,
                detail: items[i].detail@,
            },
    )
}

/// The row of a requirement.
pub open spec fn row_of(requirement: Requirement, status: CheckStatus, detail: Seq<char>) -> RowView {
    RowView {
        requirement: label_of(requirement),
        provider: requirement.binding.provider@,
        status,
        detail,
    }
}

/// Whether rows are those of the first requirements, in their order.
pub open spec fn rows_fit(rows: Seq<RowView>, requirements: Seq<Requirement>) -> bool {
    &&& rows.len() <= requirements.len()
    &&& forall|i: int|
        0 <= i < rows.len() ==> (#[trigger] rows[i]).requirement == label_of(requirements[i])
            && rows[i].provider == requirements[i].binding.provider@
}

/// Whether an outcome is one of a product: a row for each requirement, in their order.
pub open spec fn outcome_fits(outcome: CheckOutcome, manifest: Manifest) -> bool {
    &&& outcome.build_id@ == manifest.build_id@
    &&& outcome.items@.len() == manifest.requirements@.len()
    &&& rows_fit(rows(outcome.items@), manifest.requirements@)
}

/// Whether a stage is one of the check of a requirement.
pub open spec fn stage_fits(requirement: Requirement, stage: StageView) -> bool {
    stage matches StageView::Published(_, index) ==> 0 <= index
        < requirement.binding.publications.commands@.len()
}

/// Whether a check is one of the requirements of a product, with some left.
pub open spec fn run_fits(run: CheckRun, manifest: Manifest) -> bool {
    let at = run.items@.len() as int;
    &&& at < manifest.requirements@.len()
    &&& chosen_exists(manifest.requirements@[at])
    &&& stage_fits(manifest.requirements@[at], stage_view(run.stage))
    &&& rows_fit(rows(run.items@), manifest.requirements@)
}

/// Whether a check has come to something that is one of a product.
pub open spec fn progress_fits(progress: CheckProgress, manifest: Manifest) -> bool {
    match progress {
        CheckProgress::Ask(run, _) => run_fits(run, manifest),
        CheckProgress::Finished(outcome) => outcome_fits(outcome, manifest),
    }
}

/// Whether a check fails, or looks at something with these rows found out, as `next` says.
pub open spec fn waits(r: Result<CheckProgress>, found: Seq<RowView>, next: Next) -> bool {
    match next {
        Next::Fails(message) => r is Err && is_configuration(r->Err_0, message),
        Next::Unparsed(message) => r matches Err(WombatError::Json(m)) && m@ == message,
        Next::Passes(error) => r is Err && r->Err_0 == error,
        Next::Asks(stage, probe) => r matches Ok(CheckProgress::Ask(run, p)) && rows(run.items@)
            == found && stage_view(run.stage) == stage && probe_view(p) == probe,
        Next::Done(_, _) => false,
    }
}

/// Whether a check goes on behind these rows: with the next requirement, or to its end
/// where there is none.
pub open spec fn continues(
    r: Result<CheckProgress>,
    manifest: Manifest,
    found: Seq<RowView>,
) -> bool {
    if found.len() < manifest.requirements@.len() {
        waits(r, found, first_step(manifest, manifest.requirements@[found.len() as int]))
    } else {
        r matches Ok(CheckProgress::Finished(outcome)) && outcome.build_id@ == manifest.build_id@
            && rows(outcome.items@) == found
    }
}

/// Whether a check goes on as the next step of the check of a requirement says.
pub open spec fn steps_on(
    r: Result<CheckProgress>,
    manifest: Manifest,
    found: Seq<RowView>,
    next: Next,
) -> bool {
    match next {
        Next::Done(status, detail) => continues(
            r,
            manifest,
            found.push(row_of(manifest.requirements@[found.len() as int], status, detail)),
        ),
        _ => waits(r, found, next),
    }
}

fn next_requirement(manifest: &Manifest, items: Vec<CheckItem>) -> (r: Result<CheckProgress>)
    requires
        rows_fit(rows(items@), manifest.requirements@),
    ensures
        continues(r, *manifest, rows(items@)),
        r matches Ok(progress) ==> progress_fits(progress, *manifest),
{
    if items.len() < manifest.requirements.len() {
        let (stage, probe) = first_probe(manifest, &manifest.requirements[items.len()])?;
        return Ok(CheckProgress::Ask(CheckRun { items, stage }, probe));
    }
    Ok(CheckProgress::Finished(CheckOutcome { build_id: manifest.build_id.clone(), items }))
}

/// Begins to check the requirements of a product, one after the other. It must be built
/// for this machine, `host`.
pub fn check(manifest: &Manifest, host: &TargetPlatform) -> (r: Result<CheckProgress>)
    ensures
        if host_problem(*manifest, *host) is Some {
            reports(r, host_problem(*manifest, *host))
        } else {
            continues(r, *manifest, Seq::empty())
        },
        r matches Ok(progress) ==> progress_fits(progress, *manifest),
{
    ensure_compatible_host(manifest, host)?;
    let items: Vec<CheckItem> = Vec::new();
    assert(rows(items@) =~= Seq::empty());
    next_requirement(manifest, items)
}

/// Goes on with a check of the requirements of a product once something was looked at.
pub fn resume_check(manifest: &Manifest, run: CheckRun, reply: Reply) -> (r: Result<CheckProgress>)
    requires
        run_fits(run, *manifest),
        reply_fits(manifest.requirements@[run.items@.len() as int], run.stage, reply),
    ensures
        steps_on(
            r,
            *manifest,
            rows(run.items@),
            next_step(
                *manifest,
                manifest.requirements@[run.items@.len() as int],
                run.stage,
                reply,
            ),
        ),
        r matches Ok(progress) ==> progress_fits(progress, *manifest),
{
    let requirement = &manifest.requirements[run.items.len()];
    proof {
        law_checks_end(*manifest, *requirement, run.stage, reply);
    }
    match check_requirement(manifest, requirement, run.stage, reply)? {
        CheckStep::Ask(stage, probe) => {
            Ok(CheckProgress::Ask(CheckRun { items: run.items, stage }, probe))
        },
        CheckStep::Done(item) => {
            let mut items = run.items;
            let ghost found = rows(items@);
            let ghost status = item.status;
            let ghost detail = item.detail@;
            items.push(item);
            assert(rows(items@) =~= found.push(row_of(*requirement, status, detail)));
            next_requirement(manifest, items)
        },
    }
}

/// What is wrong with the machine: it is not what the product was built for.
pub open spec fn host_problem(manifest: Manifest, host: TargetPlatform) -> Option<Seq<char>> {
    problem_if(
        !manifest.target.platform.compatible(host),
        "requirements target "@ + manifest.target.platform.compact_text()
            + ", but this execution environment is "@ + host.compact_text()
            + "; check and bootstrap require an exact local OS and architecture"@,
    )
}

/// Makes sure that a product was built for this machine.
pub fn ensure_compatible_host(manifest: &Manifest, host: &TargetPlatform) -> (r: Result<()>)
    ensures
        reports(r, host_problem(*manifest, *host)),
{
    if !manifest.target.platform.locally_compatible_with(host) {
        return Err(
            WombatError::Configuration(
                cat5(
                    "requirements target ",
                    manifest.target.platform.compact().as_str(),
                    ", but this execution environment is ",
                    host.compact().as_str(),
                    "; check and bootstrap require an exact local OS and architecture",
                ),
            ),
        );
    }
    Ok(())
}

} // verus!
