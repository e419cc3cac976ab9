//! The settings of a repository.
use vstd::prelude::*;
use vstd::string::*;

use crate::digest::{digest, digest_of};
use crate::error::{first, problem_if, reports, Result, WombatError};
use crate::model::manifest::{ArtifactPolicy, SourceFile, UnallocatedPolicy};
use crate::number::{all_digits, decimal, decimal_text, is_digit, parse_unsigned, unsigned_parsed};
use crate::presentation::{level_named, LogLevel};
use crate::project::inputs::alphanumeric;
use crate::text::{cat3, cat4, chars_of, decode, decoded, text_of};

verus! {

/// The version of the format of these settings.
pub const PROJECT_FORMAT_VERSION: u32 = 3;

/// How long one of a unit of time lasts, in seconds.
pub open spec fn unit_seconds(unit: char) -> Option<nat> {
    if unit == 's' {
        Some(1)
    } else if unit == 'm' {
        Some(60)
    } else if unit == 'h' {
        Some(3600)
    } else if unit == 'd' {
        Some(86400)
    } else {
        None
    }
}

/// The message about a time that is none.
pub open spec fn freshness_message() -> Seq<char> {
    "workflow.freshness must be a non-negative integer followed by s, m, h, or d"@
}

/// What is wrong with a time.
pub open spec fn freshness_problem(value: Seq<char>) -> Option<Seq<char>> {
    if value.len() < 2 || !all_digits(value.drop_last()) {
        Some(freshness_message())
    } else {
        match unsigned_parsed(value.drop_last(), u64::MAX as nat) {
            None => Some("workflow.freshness is too large"@),
            Some(amount) => match unit_seconds(value.last()) {
                None => Some(freshness_message()),
                Some(unit) => problem_if(amount * unit > u64::MAX, freshness_message()),
            },
        }
    }
}

/// How long a time lasts, in seconds.
pub open spec fn freshness_of(value: Seq<char>) -> nat {
    unsigned_parsed(value.drop_last(), u64::MAX as nat)->0 * unit_seconds(value.last())->0
}

fn only_digits(chars: &Vec<char>, count: usize) -> (r: bool)
    requires
        count <= chars@.len(),
    ensures
        r == (count > 0 && forall|i: int| 0 <= i < count ==> is_digit(#[trigger] chars@[i])),
{
    let mut i: usize = 0;
    while i < count
        invariant
            0 <= i <= count <= chars@.len(),
            forall|j: int| 0 <= j < i ==> is_digit(#[trigger] chars@[j]),
        decreases count - i,
    {
        if !('0' <= chars[i] && chars[i] <= '9') {
            assert(!is_digit(chars@[i as int]));
            return false;
        }
        i += 1;
    }
    count > 0
}

/// Reads a time: a whole number and its unit. Returns seconds.
pub fn parse_freshness(value: &str) -> (r: Result<u64>)
    ensures
        reports(r, freshness_problem(value@)),
        r matches Ok(seconds) ==> seconds == freshness_of(value@),
{
    let chars = chars_of(value);
    if chars.len() < 2 || !only_digits(&chars, chars.len() - 1) {
        proof {
            let number = value@.drop_last();
            if value@.len() >= 2 {
                if forall|i: int| 0 <= i < number.len() ==> is_digit(#[trigger] number[i]) {
                    assert forall|i: int| 0 <= i < number.len() implies is_digit(
                        #[trigger] chars@[i],
                    ) by {
                        assert(number[i] == chars@[i]);
                    }
                }
            }
        }
        return Err(
            WombatError::configuration(
                "workflow.freshness must be a non-negative integer followed by s, m, h, or d",
            ),
        );
    }
    let unit = chars[chars.len() - 1];
    let number = text_of(&chars, 0, chars.len() - 1);
    proof {
        assert(number@ =~= value@.drop_last());
        assert forall|i: int| 0 <= i < number@.len() implies is_digit(#[trigger] number@[i]) by {
            assert(number@[i] == chars@[i]);
        }
    }
    let amount = match parse_unsigned(number.as_str(), u64::MAX) {
        Some(amount) => amount,
        None => {
            return Err(WombatError::configuration("workflow.freshness is too large"));
        },
    };
    let factor: u64 = if unit == 's' {
        1
    } else if unit == 'm' {
        60
    } else if unit == 'h' {
        3600
    } else if unit == 'd' {
        86400
    } else {
        0
    };
    if factor == 0 {
        return Err(
            WombatError::configuration(
                "workflow.freshness must be a non-negative integer followed by s, m, h, or d",
            ),
        );
    }
    match amount.checked_mul(factor) {
        Some(seconds) => Ok(seconds),
        None => Err(
            WombatError::configuration(
                "workflow.freshness must be a non-negative integer followed by s, m, h, or d",
            ),
        ),
    }
}

/// Whether a project can have this name.
pub open spec fn valid_project_name(name: Seq<char>) -> bool {
    &&& 0 < name.len() <= 64
    &&& forall|i: int|
        0 <= i < name.len() ==> alphanumeric(#[trigger] name[i]) || name[i] == '-' || name[i]
            == '_'
}

/// What is wrong with the name of a project.
pub open spec fn project_name_problem(name: Seq<char>) -> Option<Seq<char>> {
    problem_if(
        !valid_project_name(name),
        "repository `wombat.toml` project must be 1 to 64 characters of ASCII letters, digits, `-`, or `_`; got `"@
            + name + "`"@,
    )
}

/// Accepts the name of a project.
pub fn validate_project_name(name: String) -> (r: Result<String>)
    ensures
        reports(r, project_name_problem(name@)),
        r matches Ok(same) ==> same == name,
{
    let chars = chars_of(name.as_str());
    let mut valid = 0 < chars.len() && chars.len() <= 64;
    let mut i: usize = 0;
    while i < chars.len()
        invariant
            0 <= i <= chars@.len(),
            chars@ == name@,
            valid == (0 < name@.len() <= 64 && forall|j: int|
                0 <= j < i ==> alphanumeric(#[trigger] name@[j]) || name@[j] == '-' || name@[j]
                    == '_'),
        decreases chars@.len() - i,
    {
        let c = chars[i];
        let plain = ('a' <= c && c <= 'z') || ('A' <= c && c <= 'Z') || ('0' <= c && c <= '9') || c
            == '_' || c == '-';
        if !plain {
            assert(name@[i as int] == c);
            valid = false;
        }
        i += 1;
    }
    if valid {
        return Ok(name);
    }
    Err(
        WombatError::Configuration(
            cat3(
                "repository `wombat.toml` project must be 1 to 64 characters of ASCII letters, digits, `-`, or `_`; got `",
                name.as_str(),
                "`",
            ),
        ),
    )
}

/// What the settings of a repository say.
#[derive(Debug, PartialEq)]
pub struct ProjectConfig {
    /// The version of their format
    pub format_version: u32,
    /// The name of the project
    pub project: Option<String>,
    /// What to do with artifacts without a target
    pub unallocated: UnallocatedPolicy,
    /// From which level on messages are shown
    pub log_level: String,
    /// Whether products are used again
    pub reuse: bool,
    /// How long they count as fresh
    pub freshness: String,
}

/// The settings of a repository.
#[derive(Debug, PartialEq)]
pub struct ProjectSettings {
    /// The rules for selected artifacts
    pub artifact_policy: ArtifactPolicy,
    /// From which level on messages are shown
    pub log_level: LogLevel,
    /// The name of the project, which tells its state apart
    pub project: Option<String>,
    /// Where they were read
    pub source: Option<SourceFile>,
}

/// What is wrong with the version of settings.
pub open spec fn version_problem(version: u32) -> Option<Seq<char>> {
    problem_if(
        version != PROJECT_FORMAT_VERSION,
        "unsupported repository config format version "@ + decimal(version as nat)
            + "; expected "@ + decimal(PROJECT_FORMAT_VERSION as nat),
    )
}

fn check_version(version: u32) -> (r: Result<()>)
    ensures
        reports(r, version_problem(version)),
{
    if version != PROJECT_FORMAT_VERSION {
        return Err(
            WombatError::Configuration(
                cat4(
                    "unsupported repository config format version ",
                    decimal_text(version as u64).as_str(),
                    "; expected ",
                    decimal_text(PROJECT_FORMAT_VERSION as u64).as_str(),
                ),
            ),
        );
    }
    Ok(())
}

/// What is wrong with settings.
pub open spec fn settings_problem(config: ProjectConfig) -> Option<Seq<char>> {
    first(
        version_problem(config.format_version),
        first(
            freshness_problem(config.freshness@),
            first(
                problem_if(
                    level_named(config.log_level@) is None,
                    "repository `wombat.toml` log.level must be debug, info, notice, warn, or error; got `"@
                        + config.log_level@ + "`"@,
                ),
                match config.project {
                    Some(name) => project_name_problem(name@),
                    None => None,
                },
            ),
        ),
    )
}

/// Reads the text of settings.
pub fn settings_text(bytes: &Vec<u8>) -> (r: Result<String>)
    ensures
        reports(
            r,
            problem_if(
                decoded(bytes@) is None,
                "repository `wombat.toml` must contain valid UTF-8"@,
            ),
        ),
        r matches Ok(text) ==> decoded(bytes@) == Some(text@),
{
    match decode(bytes.as_slice()) {
        Some(text) => Ok(text),
        None => Err(
            WombatError::configuration("repository `wombat.toml` must contain valid UTF-8"),
        ),
    }
}

/// Takes settings up. `bytes` is what they were read from.
pub fn load(config: ProjectConfig, bytes: &Vec<u8>) -> (r: Result<ProjectSettings>)
    ensures
        reports(r, settings_problem(config)),
        r matches Ok(settings) ==> {
            &&& settings.artifact_policy.unallocated == config.unallocated
            &&& Some(settings.log_level) == level_named(config.log_level@)
            &&& settings.project == config.project
            &&& settings.source is Some && settings.source->0.path@ == "wombat.toml"@
                && settings.source->0.digest@ == digest_of(bytes@)
        },
{
    check_version(config.format_version)?;
    parse_freshness(config.freshness.as_str())?;
    let log_level = match LogLevel::parse(config.log_level.as_str()) {
        Some(level) => level,
        None => {
            return Err(
                WombatError::Configuration(
                    cat3(
                        "repository `wombat.toml` log.level must be debug, info, notice, warn, or error; got `",
                        config.log_level.as_str(),
                        "`",
                    ),
                ),
            );
        },
    };
    let project = match config.project {
        Some(name) => Some(validate_project_name(name)?),
        None => None,
    };
    Ok(
        ProjectSettings {
            artifact_policy: ArtifactPolicy { unallocated: config.unallocated },
            log_level,
            project,
            source: Some(
                SourceFile {
                    path: "wombat.toml".to_string(),
                    digest: digest(bytes.as_slice()),
                },
            ),
        },
    )
}

/// The settings of a repository that has none.
pub fn default_settings() -> (r: ProjectSettings)
    ensures
        r.artifact_policy.unallocated == UnallocatedPolicy::Warn,
        r.log_level == LogLevel::Warn,
        r.project is None,
        r.source is None,
{
    ProjectSettings {
        artifact_policy: ArtifactPolicy { unallocated: UnallocatedPolicy::Warn },
        log_level: LogLevel::Warn,
        project: None,
        source: None,
    }
}

/// Whether products are used again, and how long they count as fresh, in seconds.
#[derive(Clone, Copy, Debug, PartialEq, Eq, Structural)]
pub struct WorkflowPolicy {
    /// Whether products are used again
    pub reuse: bool,
    /// How long they count as fresh
    pub freshness: u64,
}

/// Finds whether products are used again: for five minutes where nothing is said.
pub fn workflow_policy(config: Option<&ProjectConfig>) -> (r: Result<WorkflowPolicy>)
    ensures
        match config {
            None => r is Ok && r->Ok_0 == (WorkflowPolicy { reuse: true, freshness: 300 }),
            Some(config) => reports(
                r,
                first(
                    version_problem(config.format_version),
                    freshness_problem(config.freshness@),
                ),
            ) && (r matches Ok(policy) ==> policy.reuse == config.reuse && policy.freshness
                == freshness_of(config.freshness@)),
        },
{
    match config {
        None => Ok(WorkflowPolicy { reuse: true, freshness: 300 }),
        Some(config) => {
            check_version(config.format_version)?;
            let freshness = parse_freshness(config.freshness.as_str())?;
            Ok(WorkflowPolicy { reuse: config.reuse, freshness })
        },
    }
}

} // verus!
