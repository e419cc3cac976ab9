//! Providers, requirement resolution and provider plans.
use vstd::prelude::*;
use vstd::string::*;

use crate::error::{first, problem_if, reports, Result, WombatError};
use crate::lua::options::{
    bool_option, bool_problem, get, holds_option, map_option, map_problem, option,
    optional_string_problem, plain_name, is_plain_name, reject_unknown_options, string_option,
    string_problem, take_bool, take_map, take_optional_string, take_string, unknown_problem,
};
use crate::model::frozen::FrozenValue;
use crate::model::ladder::CoreRung;
use crate::model::manifest::{
    ProviderBinding, ProviderPreparation, ProviderPrerequisite, Publications, Requirement,
    RequirementCandidate, RequirementKind,
};
use crate::order::{ascending, before, precedes, sorted_unique};
use crate::text::{cat2, cat3, cat5, chars_of, pieces, same, split, trim, trimmed, views};

verus! {

/// Whether a character may stand in the name of a provider.
pub open spec fn provider_character(index: int, c: char) -> bool {
    ('a' <= c <= 'z') || ('0' <= c <= '9') || (index > 0 && (c == '-' || c == '_'))
}

/// Whether text is the name of a provider.
pub open spec fn provider_name(name: Seq<char>) -> bool {
    name.len() > 0 && forall|i: int|
        0 <= i < name.len() ==> provider_character(i, #[trigger] name[i])
}

/// What is wrong with the name of a provider.
pub open spec fn provider_name_problem(name: Seq<char>) -> Option<Seq<char>> {
    problem_if(
        !provider_name(name),
        "invalid provider name `"@ + name
            + "`; expected lowercase letters, digits, `-`, or `_`"@,
    )
}

/// Accepts the name of a provider.
pub fn validate_provider_name(name: &str) -> (r: Result<()>)
    ensures
        reports(r, provider_name_problem(name@)),
{
    let chars = chars_of(name);
    let mut valid = chars.len() > 0;
    let mut i: usize = 0;
    while i < chars.len()
        invariant
            0 <= i <= chars@.len(),
            chars@ == name@,
            valid == (name@.len() > 0 && forall|j: int|
                0 <= j < i ==> provider_character(j, #[trigger] name@[j])),
        decreases chars@.len() - i,
    {
        let c = chars[i];
        let plain = ('a' <= c && c <= 'z') || ('0' <= c && c <= '9') || (i > 0 && (c == '-' || c
            == '_'));
        if !plain {
            assert(!provider_character(i as int, name@[i as int]));
            valid = false;
        }
        i += 1;
    }
    if !valid {
        return Err(
            WombatError::Configuration(
                cat3(
                    "invalid provider name `",
                    name,
                    "`; expected lowercase letters, digits, `-`, or `_`",
                ),
            ),
        );
    }
    Ok(())
}

/// Whether a character may stand in the name of a command or package.
pub open spec fn product_character(kind: RequirementKind, c: char) -> bool {
    match kind {
        RequirementKind::Command => ('a' <= c <= 'z') || ('A' <= c <= 'Z') || ('0' <= c <= '9') || c
            == '-' || c == '_' || c == '.' || c == '+' || c == '@',
        RequirementKind::Package => c > ' ' && c != '\x7f',
    }
}

/// Whether text is the name of a command or package.
pub open spec fn product_name(kind: RequirementKind, name: Seq<char>) -> bool {
    name.len() > 0 && name[0] != '-' && forall|i: int|
        0 <= i < name.len() ==> product_character(kind, #[trigger] name[i])
}

/// What is wrong with the name of a command or package.
pub open spec fn product_name_problem(name: Seq<char>, kind: RequirementKind) -> Option<Seq<char>> {
    problem_if(
        !product_name(kind, name),
        "invalid "@ + kind.wire() + " requirement name `"@ + name + "`"@,
    )
}

/// Accepts the name of a command or package: a command has letters, digits and
/// some marks, a package neither spaces nor control characters, and neither begins
/// with a dash.
pub fn validate_product_name(name: &str, kind: RequirementKind) -> (r: Result<()>)
    ensures
        reports(r, product_name_problem(name@, kind)),
{
    let chars = chars_of(name);
    let mut valid = chars.len() > 0 && chars[0] != '-';
    let mut i: usize = 0;
    while i < chars.len()
        invariant
            0 <= i <= chars@.len(),
            chars@ == name@,
            valid == (name@.len() > 0 && name@[0] != '-' && forall|j: int|
                0 <= j < i ==> product_character(kind, #[trigger] name@[j])),
        decreases chars@.len() - i,
    {
        let c = chars[i];
        let plain = match kind {
            RequirementKind::Command => ('a' <= c && c <= 'z') || ('A' <= c && c <= 'Z') || ('0'
                <= c && c <= '9') || c == '-' || c == '_' || c == '.' || c == '+' || c == '@',
            RequirementKind::Package => c > ' ' && c != '\x7f',
        };
        if !plain {
            assert(!product_character(kind, name@[i as int]));
            valid = false;
        }
        i += 1;
    }
    if !valid {
        return Err(
            WombatError::Configuration(
                cat5("invalid ", kind.wire_name(), " requirement name `", name, "`"),
            ),
        );
    }
    Ok(())
}

/// Whether text is the name of a helper module of a provider.
pub open spec fn helper_name(name: Seq<char>) -> bool {
    forall|i: int|
        0 <= i < pieces(name, '.').len() ==> plain_name(#[trigger] pieces(name, '.')[i])
}

/// Accepts the name of a helper module of a provider: names with dots between
/// them.
pub fn validate_provider_module_name(name: &str) -> (r: Result<()>)
    ensures
        reports(
            r,
            problem_if(
                !helper_name(name@),
                "invalid provider helper module `"@ + name@ + "`"@,
            ),
        ),
{
    let parts = split(name, '.');
    let ghost components = pieces(name@, '.');
    let mut valid = true;
    let mut i: usize = 0;
    assert(parts@.len() == views(parts@).len());
    while i < parts.len()
        invariant
            0 <= i <= parts@.len(),
            parts@.len() == components.len(),
            views(parts@) == components,
            components == pieces(name@, '.'),
            valid == forall|j: int| 0 <= j < i ==> plain_name(#[trigger] components[j]),
        decreases parts@.len() - i,
    {
        assert(views(parts@)[i as int] == parts@[i as int]@);
        if !is_plain_name(parts[i].as_str()) {
            assert(!plain_name(components[i as int]));
            valid = false;
        }
        i += 1;
    }
    if !valid {
        return Err(
            WombatError::Configuration(cat3("invalid provider helper module `", name, "`")),
        );
    }
    Ok(())
}

/// What is wrong with a published command.
pub open spec fn published_problem(value: FrozenValue) -> Option<Seq<char>> {
    match value {
        FrozenValue::String(command) => product_name_problem(command@, RequirementKind::Command),
        _ => Some("published commands must be strings"@),
    }
}

/// What is wrong with published commands.
pub open spec fn published_list_problem(items: Seq<FrozenValue>) -> Option<Seq<char>>
    decreases items.len(),
{
    if items.len() == 0 {
        None
    } else {
        first(published_list_problem(items.drop_last()), published_problem(items.last()))
    }
}

proof fn lemma_published_list(items: Seq<FrozenValue>, count: int)
    requires
        0 <= count <= items.len(),
    ensures
        published_list_problem(items.take(count)) is Some ==> published_list_problem(items)
            == published_list_problem(items.take(count)),
    decreases items.len() - count,
{
    if count < items.len() {
        lemma_published_list(items, count + 1);
        assert(items.take(count + 1).drop_last() =~= items.take(count));
    } else {
        assert(items.take(count) =~= items);
    }
}

/// The commands that a package is said to publish.
pub open spec fn published_commands(value: FrozenValue) -> Seq<Seq<char>> {
    match value {
        FrozenValue::Table(entries) => match option(entries@, "commands"@) {
            Some(FrozenValue::Array(items)) => crate::lua::options::item_texts(items@),
            _ => Seq::empty(),
        },
        _ => Seq::empty(),
    }
}

/// What is wrong with publications.
pub open spec fn publications_problem(field: Seq<char>, value: FrozenValue) -> Option<Seq<char>> {
    match value {
        FrozenValue::Table(entries) => first(
            match option(entries@, "commands"@) {
                None => None,
                Some(FrozenValue::Array(items)) => published_list_problem(items@),
                Some(FrozenValue::Table(inner)) => problem_if(
                    inner@.len() > 0,
                    "package `"@ + field + ".commands` must be an array"@,
                ),
                Some(_) => Some("package `"@ + field + ".commands` must be an array"@),
            },
            first(
                unknown_problem(entries@, seq!["commands"], "package publications"@),
                problem_if(
                    !published_commands(value).no_duplicates(),
                    "published commands must be unique"@,
                ),
            ),
        ),
        _ => Some("package `"@ + field + "` must be a table"@),
    }
}

/// Whether publications are these commands, in ascending order.
pub open spec fn publishes(publications: Publications, commands: Seq<Seq<char>>) -> bool {
    &&& ascending(views(publications.commands@))
    &&& views(publications.commands@).to_set() == commands.to_set()
}

fn read_published(items: &Vec<FrozenValue>) -> (r: Result<Vec<String>>)
    ensures
        reports(r, published_list_problem(items@)),
        r matches Ok(commands) ==> views(commands@) == crate::lua::options::item_texts(items@),
{
    let mut commands: Vec<String> = Vec::new();
    let mut i: usize = 0;
    assert(items@.take(0) =~= Seq::empty());
    while i < items.len()
        invariant
            0 <= i <= items@.len(),
            published_list_problem(items@.take(i as int)) is None,
            commands@.len() == i,
            forall|j: int|
                0 <= j < i ==> (#[trigger] commands@[j])@ == crate::lua::options::item_texts(
                    items@,
                )[j],
        decreases items@.len() - i,
    {
        proof {
            assert(items@.take(i + 1).drop_last() =~= items@.take(i as int));
            assert(items@.take(i + 1).last() == items@[i as int]);
            lemma_published_list(items@, i + 1);
        }
        match &items[i] {
            FrozenValue::String(command) => {
                validate_product_name(command.as_str(), RequirementKind::Command)?;
                commands.push(command.clone());
            },
            _ => {
                return Err(WombatError::configuration("published commands must be strings"));
            },
        }
        i += 1;
    }
    assert(items@.take(i as int) =~= items@);
    assert(views(commands@) =~= crate::lua::options::item_texts(items@));
    Ok(commands)
}

/// Reads what a package publishes.
pub fn parse_publications(field: &str, value: &FrozenValue) -> (r: Result<Publications>)
    ensures
        reports(r, publications_problem(field@, *value)),
        r matches Ok(publications) ==> publishes(publications, published_commands(*value)),
{
    let entries = match value {
        FrozenValue::Table(entries) => entries,
        _ => {
            return Err(
                WombatError::Configuration(cat3("package `", field, "` must be a table")),
            );
        },
    };
    let commands = match get(entries, "commands") {
        None => Vec::new(),
        Some(FrozenValue::Array(items)) => read_published(items)?,
        Some(value) => {
            let empty = match value {
                FrozenValue::Table(inner) => inner.len() == 0,
                _ => false,
            };
            if !empty {
                return Err(
                    WombatError::Configuration(
                        cat3("package `", field, ".commands` must be an array"),
                    ),
                );
            }
            Vec::new()
        },
    };
    assert(views(commands@) =~= published_commands(*value));
    let known = ["commands"];
    assert(known@ =~= seq!["commands"]);
    reject_unknown_options(entries, &known, "package publications")?;
    match sorted_unique(&commands) {
        Some(sorted) => Ok(Publications { commands: sorted }),
        None => Err(WombatError::configuration("published commands must be unique")),
    }
}

/// What is wrong with the least version that options ask for.
pub open spec fn minimum_problem(options: Seq<(String, FrozenValue)>) -> Option<Seq<char>> {
    first(
        optional_string_problem(options, "minimum"@, "requirement"@),
        problem_if(
            option(options, "minimum"@) is Some && string_option(options, "minimum"@).len() == 0,
            "requirement minimum version must not be empty"@,
        ),
    )
}

/// What is wrong with the provider that options ask for.
pub open spec fn provider_option_problem(options: Seq<(String, FrozenValue)>) -> Option<Seq<char>> {
    first(
        optional_string_problem(options, "provider"@, "package requirement"@),
        match option(options, "provider"@) {
            Some(FrozenValue::String(name)) => provider_name_problem(name@),
            _ => None,
        },
    )
}

/// What is wrong with the publications that options name.
pub open spec fn publishes_option_problem(
    options: Seq<(String, FrozenValue)>,
    key: Seq<char>,
) -> Option<Seq<char>> {
    match option(options, key) {
        Some(value) => publications_problem(key, value),
        None => None,
    }
}

/// The commands that options say are published.
pub open spec fn published_option(options: Seq<(String, FrozenValue)>, key: Seq<char>) -> Seq<
    Seq<char>,
> {
    match option(options, key) {
        Some(value) => published_commands(value),
        None => Seq::empty(),
    }
}

/// What is wrong with a candidate. `known` are the options that an accepted
/// candidate may have.
pub open spec fn candidate_problem(
    kind: RequirementKind,
    name: Seq<char>,
    options: Seq<(String, FrozenValue)>,
    accepted: bool,
) -> Option<Seq<char>> {
    first(
        product_name_problem(name, kind),
        first(
            minimum_problem(options),
            match kind {
                RequirementKind::Command => if accepted {
                    unknown_problem(
                        options,
                        seq!["name", "minimum"],
                        "accepted command candidate"@,
                    )
                } else {
                    None
                },
                RequirementKind::Package => first(
                    provider_option_problem(options),
                    first(
                        publishes_option_problem(options, "publishes"@),
                        first(
                            map_problem(
                                options,
                                "with"@,
                                "package requirement `with` must be a string-keyed map"@,
                            ),
                            if accepted {
                                unknown_problem(
                                    options,
                                    seq!["name", "minimum", "provider", "publishes", "with"],
                                    "accepted package candidate"@,
                                )
                            } else {
                                None
                            },
                        ),
                    ),
                ),
            },
        ),
    )
}

/// Whether a candidate is the one that was declared.
pub open spec fn candidate_is(
    candidate: RequirementCandidate,
    kind: RequirementKind,
    name: Seq<char>,
    options: Seq<(String, FrozenValue)>,
) -> bool {
    match candidate {
        RequirementCandidate::Command { name: n, minimum } => {
            &&& kind == RequirementKind::Command
            &&& n@ == name
            &&& holds_option(minimum, options, "minimum"@)
        },
        RequirementCandidate::Package { name: n, provider, minimum, publications, with } => {
            &&& kind == RequirementKind::Package
            &&& n@ == name
            &&& holds_option(provider, options, "provider"@)
            &&& holds_option(minimum, options, "minimum"@)
            &&& publishes(publications, published_option(options, "publishes"@))
            &&& with.tree() == map_option(options, "with"@)
        },
    }
}

fn take_publications(options: &Vec<(String, FrozenValue)>, key: &str) -> (r: Result<Publications>)
    ensures
        reports(r, publishes_option_problem(options@, key@)),
        r matches Ok(publications) ==> publishes(publications, published_option(options@, key@)),
{
    match get(options, key) {
        Some(value) => parse_publications(key, value),
        None => {
            let commands: Vec<String> = Vec::new();
            assert(views(commands@) =~= Seq::<Seq<char>>::empty());
            Ok(Publications { commands })
        },
    }
}

/// Reads a candidate of a requirement.
pub fn parse_requirement_candidate(
    kind: RequirementKind,
    name: &str,
    options: &Vec<(String, FrozenValue)>,
    accepted: bool,
) -> (r: Result<RequirementCandidate>)
    ensures
        reports(r, candidate_problem(kind, name@, options@, accepted)),
        r matches Ok(candidate) ==> candidate_is(candidate, kind, name@, options@),
{
    validate_product_name(name, kind)?;
    let minimum = take_optional_string(options, "minimum", "requirement")?;
    if let Some(version) = &minimum {
        if version.as_str().is_empty() {
            return Err(
                WombatError::configuration("requirement minimum version must not be empty"),
            );
        }
    }
    match kind {
        RequirementKind::Command => {
            if accepted {
                let known = ["name", "minimum"];
                assert(known@ =~= seq!["name", "minimum"]);
                reject_unknown_options(options, &known, "accepted command candidate")?;
            }
            Ok(RequirementCandidate::Command { name: name.to_owned(), minimum })
        },
        RequirementKind::Package => {
            let provider = take_optional_string(options, "provider", "package requirement")?;
            if let Some(provider) = &provider {
                validate_provider_name(provider.as_str())?;
            }
            let publications = take_publications(options, "publishes")?;
            let with = take_map(
                options,
                "with",
                "package requirement `with` must be a string-keyed map",
            )?;
            if accepted {
                let known = ["name", "minimum", "provider", "publishes", "with"];
                assert(known@ =~= seq!["name", "minimum", "provider", "publishes", "with"]);
                reject_unknown_options(options, &known, "accepted package candidate")?;
            }
            Ok(
                RequirementCandidate::Package {
                    name: name.to_owned(),
                    provider,
                    minimum,
                    publications,
                    with,
                },
            )
        },
    }
}

/// Whether text is blank.
pub open spec fn blank(text: Seq<char>) -> bool {
    trimmed(text).len() == 0
}

fn is_blank(text: &str) -> (r: bool)
    ensures
        r == blank(text@),
{
    let rest = trim(text);
    rest.as_str().is_empty()
}

/// The options of something that a provider plans.
pub open spec fn planned_options() -> Seq<&'static str> {
    seq!["kind", "identity", "description", "elevated", "data"]
}

/// What is wrong with something that a provider plans. `noun` says what it is:
/// an operation or a prerequisite.
pub open spec fn planned_problem(
    provider: Seq<char>,
    values: Seq<(String, FrozenValue)>,
    noun: Seq<char>,
) -> Option<Seq<char>> {
    let subject = "provider "@ + noun;
    first(
        string_problem(values, "kind"@, subject),
        first(
            problem_if(
                string_option(values, "kind"@) != noun,
                "provider `"@ + provider + "` returned unknown planned value `"@ + string_option(
                    values,
                    "kind"@,
                ) + "`"@,
            ),
            first(
                string_problem(values, "identity"@, subject),
                first(
                    string_problem(values, "description"@, subject),
                    first(
                        problem_if(
                            blank(string_option(values, "identity"@)) || blank(
                                string_option(values, "description"@),
                            ),
                            subject + " identity and description must not be empty"@,
                        ),
                        first(
                            bool_problem(
                                values,
                                "elevated"@,
                                subject + " `elevated` must be boolean"@,
                            ),
                            first(
                                map_problem(
                                    values,
                                    "data"@,
                                    subject + " data must be a string-keyed map"@,
                                ),
                                unknown_problem(values, planned_options(), subject),
                            ),
                        ),
                    ),
                ),
            ),
        ),
    )
}

/// What a provider plans, as it was read.
struct PlannedParts {
    identity: String,
    description: String,
    elevated: bool,
    data: FrozenValue,
}

fn parse_planned(provider: &str, values: &Vec<(String, FrozenValue)>, noun: &str) -> (r: Result<
    PlannedParts,
>)
    ensures
        reports(r, planned_problem(provider@, values@, noun@)),
        r matches Ok(parts) ==> {
            &&& parts.identity@ == string_option(values@, "identity"@)
            &&& parts.description@ == string_option(values@, "description"@)
            &&& parts.elevated == bool_option(values@, "elevated"@, false)
            &&& parts.data.tree() == map_option(values@, "data"@)
        },
{
    let subject = cat2("provider ", noun);
    let kind = take_string(values, "kind", subject.as_str())?;
    if !same(kind.as_str(), noun) {
        return Err(
            WombatError::Configuration(
                cat5(
                    "provider `",
                    provider,
                    "` returned unknown planned value `",
                    kind.as_str(),
                    "`",
                ),
            ),
        );
    }
    let identity = take_string(values, "identity", subject.as_str())?;
    let description = take_string(values, "description", subject.as_str())?;
    if is_blank(identity.as_str()) || is_blank(description.as_str()) {
        return Err(
            WombatError::Configuration(
                cat2(subject.as_str(), " identity and description must not be empty"),
            ),
        );
    }
    let elevated = take_bool(
        values,
        "elevated",
        false,
        cat2(subject.as_str(), " `elevated` must be boolean").as_str(),
    )?;
    let data = take_map(
        values,
        "data",
        cat2(subject.as_str(), " data must be a string-keyed map").as_str(),
    )?;
    let known = ["kind", "identity", "description", "elevated", "data"];
    assert(known@ =~= planned_options());
    reject_unknown_options(values, &known, subject.as_str())?;
    Ok(PlannedParts { identity, description, elevated, data })
}

/// Whether a prerequisite is the one that was planned.
pub open spec fn prerequisite_is(
    made: ProviderPrerequisite,
    provider: Seq<char>,
    values: Seq<(String, FrozenValue)>,
) -> bool {
    &&& made.provider@ == provider
    &&& made.identity@ == string_option(values, "identity"@)
    &&& made.description@ == string_option(values, "description"@)
    &&& made.when.name@ == CoreRung::DeployAfter.id()
    &&& made.elevated == bool_option(values, "elevated"@, false)
    &&& made.data.tree() == map_option(values, "data"@)
}

/// Whether a preparation is the one that was planned.
pub open spec fn preparation_is(
    made: ProviderPreparation,
    provider: Seq<char>,
    values: Seq<(String, FrozenValue)>,
) -> bool {
    &&& made.provider@ == provider
    &&& made.identity@ == string_option(values, "identity"@)
    &&& made.description@ == string_option(values, "description"@)
    &&& made.elevated == bool_option(values, "elevated"@, false)
    &&& made.data.tree() == map_option(values, "data"@)
}

/// Reads a planned prerequisite.
pub fn parse_provider_prerequisite(provider: &str, value: &FrozenValue) -> (r: Result<
    ProviderPrerequisite,
>)
    ensures
        match *value {
            FrozenValue::Table(values) => {
                &&& reports(r, planned_problem(provider@, values@, "prerequisite"@))
                &&& r matches Ok(made) ==> prerequisite_is(made, provider@, values@)
            },
            _ => reports(
                r,
                Some(
                    "provider `"@ + provider@
                        + "` plan() entries must be provider.prerequisite() values"@,
                ),
            ),
        },
{
    match value {
        FrozenValue::Table(values) => {
            let parts = parse_planned(provider, values, "prerequisite")?;
            Ok(
                ProviderPrerequisite {
                    provider: provider.to_owned(),
                    identity: parts.identity,
                    description: parts.description,
                    when: CoreRung::DeployAfter.rung(),
                    elevated: parts.elevated,
                    data: parts.data,
                },
            )
        },
        _ => Err(
            WombatError::Configuration(
                cat3(
                    "provider `",
                    provider,
                    "` plan() entries must be provider.prerequisite() values",
                ),
            ),
        ),
    }
}

/// Reads a planned operation.
pub fn parse_provider_operation(provider: &str, value: &FrozenValue) -> (r: Result<
    ProviderPreparation,
>)
    ensures
        match *value {
            FrozenValue::Table(values) => {
                &&& reports(r, planned_problem(provider@, values@, "operation"@))
                &&& r matches Ok(made) ==> preparation_is(made, provider@, values@)
            },
            _ => reports(
                r,
                Some(
                    "provider `"@ + provider@
                        + "` plan() entries must be provider.operation() values"@,
                ),
            ),
        },
{
    match value {
        FrozenValue::Table(values) => {
            let parts = parse_planned(provider, values, "operation")?;
            Ok(
                ProviderPreparation {
                    provider: provider.to_owned(),
                    identity: parts.identity,
                    description: parts.description,
                    elevated: parts.elevated,
                    data: parts.data,
                },
            )
        },
        _ => Err(
            WombatError::Configuration(
                cat3(
                    "provider `",
                    provider,
                    "` plan() entries must be provider.operation() values",
                ),
            ),
        ),
    }
}

/// What is wrong with an entry of a provider plan.
pub open spec fn entry_problem(provider: Seq<char>, value: FrozenValue) -> Option<Seq<char>> {
    match value {
        FrozenValue::Table(values) => match option(values@, "kind"@) {
            Some(FrozenValue::String(kind)) => if kind@ == "operation"@ {
                planned_problem(provider, values@, "operation"@)
            } else if kind@ == "prerequisite"@ {
                planned_problem(provider, values@, "prerequisite"@)
            } else {
                Some(
                    "provider `"@ + provider + "` returned unknown planned value `"@ + kind@
                        + "`"@,
                )
            },
            _ => Some(
                "provider `"@ + provider + "` plan() entry lacks a provider value kind"@,
            ),
        },
        _ => Some(
            "provider `"@ + provider + "` plan() entries must be planned provider values"@,
        ),
    }
}

/// What is wrong with the entries of a provider plan.
pub open spec fn entries_problem(provider: Seq<char>, items: Seq<FrozenValue>) -> Option<Seq<char>>
    decreases items.len(),
{
    if items.len() == 0 {
        None
    } else {
        first(entries_problem(provider, items.drop_last()), entry_problem(provider, items.last()))
    }
}

proof fn lemma_entries_problem(provider: Seq<char>, items: Seq<FrozenValue>, count: int)
    requires
        0 <= count <= items.len(),
    ensures
        entries_problem(provider, items.take(count)) is Some ==> entries_problem(provider, items)
            == entries_problem(provider, items.take(count)),
    decreases items.len() - count,
{
    if count < items.len() {
        lemma_entries_problem(provider, items, count + 1);
        assert(items.take(count + 1).drop_last() =~= items.take(count));
    } else {
        assert(items.take(count) =~= items);
    }
}

/// The entries of one kind.
pub open spec fn entries_of(items: Seq<FrozenValue>, kind: Seq<char>) -> Seq<
    Seq<(String, FrozenValue)>,
>
    decreases items.len(),
{
    if items.len() == 0 {
        Seq::empty()
    } else {
        let rest = entries_of(items.drop_last(), kind);
        match items.last() {
            FrozenValue::Table(values) => if string_option(values@, "kind"@) == kind {
                rest.push(values@)
            } else {
                rest
            },
            _ => rest,
        }
    }
}

/// What a provider plans.
#[derive(Debug, PartialEq)]
pub struct ProviderPlan {
    /// What it must do before bindings work
    pub prerequisites: Vec<ProviderPrerequisite>,
    /// What it does before its packages
    pub preparations: Vec<ProviderPreparation>,
}

/// Whether prerequisites are those that were planned.
pub open spec fn prerequisites_are(
    made: Seq<ProviderPrerequisite>,
    provider: Seq<char>,
    planned: Seq<Seq<(String, FrozenValue)>>,
) -> bool {
    made.len() == planned.len() && forall|i: int|
        0 <= i < made.len() ==> prerequisite_is(#[trigger] made[i], provider, planned[i])
}

/// Whether preparations are those that were planned.
pub open spec fn preparations_are(
    made: Seq<ProviderPreparation>,
    provider: Seq<char>,
    planned: Seq<Seq<(String, FrozenValue)>>,
) -> bool {
    made.len() == planned.len() && forall|i: int|
        0 <= i < made.len() ==> preparation_is(#[trigger] made[i], provider, planned[i])
}

/// The entries of what plan() returned.
pub open spec fn plan_items(value: FrozenValue) -> Seq<FrozenValue> {
    match value {
        FrozenValue::Array(items) => items@,
        _ => Seq::empty(),
    }
}

/// What is wrong with what plan() returned.
pub open spec fn plan_problem(provider: Seq<char>, value: FrozenValue) -> Option<Seq<char>> {
    let message = "provider `"@ + provider
        + "` plan() must return an array of provider.operation() or provider.prerequisite() values"@;
    match value {
        FrozenValue::Array(items) => entries_problem(provider, items@),
        FrozenValue::Table(entries) => problem_if(entries@.len() > 0, message),
        _ => Some(message),
    }
}

/// Reads what plan() of a provider returned.
pub fn parse_provider_plan(provider: &str, value: &FrozenValue) -> (r: Result<ProviderPlan>)
    ensures
        reports(r, plan_problem(provider@, *value)),
        r matches Ok(plan) ==> {
            &&& prerequisites_are(
                plan.prerequisites@,
                provider@,
                entries_of(plan_items(*value), "prerequisite"@),
            )
            &&& preparations_are(
                plan.preparations@,
                provider@,
                entries_of(plan_items(*value), "operation"@),
            )
        },
{
    proof {
        reveal_strlit("operation");
        reveal_strlit("prerequisite");
        assert("operation"@.len() == 9);
        assert("prerequisite"@.len() == 12);
    }
    let mut prerequisites: Vec<ProviderPrerequisite> = Vec::new();
    let mut preparations: Vec<ProviderPreparation> = Vec::new();
    match value {
        FrozenValue::Array(items) => {
            let mut i: usize = 0;
            assert(items@.take(0) =~= Seq::empty());
            while i < items.len()
                invariant
                    0 <= i <= items@.len(),
                    *value == FrozenValue::Array(*items),
                    "operation"@ != "prerequisite"@,
                    entries_problem(provider@, items@.take(i as int)) is None,
                    prerequisites_are(
                        prerequisites@,
                        provider@,
                        entries_of(items@.take(i as int), "prerequisite"@),
                    ),
                    preparations_are(
                        preparations@,
                        provider@,
                        entries_of(items@.take(i as int), "operation"@),
                    ),
                decreases items@.len() - i,
            {
                proof {
                    assert(items@.take(i + 1).drop_last() =~= items@.take(i as int));
                    assert(items@.take(i + 1).last() == items@[i as int]);
                    lemma_entries_problem(provider@, items@, i + 1);
                }
                match &items[i] {
                    FrozenValue::Table(values) => {
                        match get(values, "kind") {
                            Some(FrozenValue::String(kind)) => {
                                if same(kind.as_str(), "operation") {
                                    let made = parse_provider_operation(provider, &items[i])?;
                                    preparations.push(made);
                                } else if same(kind.as_str(), "prerequisite") {
                                    let made = parse_provider_prerequisite(provider, &items[i])?;
                                    prerequisites.push(made);
                                } else {
                                    return Err(
                                        WombatError::Configuration(
                                            cat5(
                                                "provider `",
                                                provider,
                                                "` returned unknown planned value `",
                                                kind.as_str(),
                                                "`",
                                            ),
                                        ),
                                    );
                                }
                            },
                            _ => {
                                return Err(
                                    WombatError::Configuration(
                                        cat3(
                                            "provider `",
                                            provider,
                                            "` plan() entry lacks a provider value kind",
                                        ),
                                    ),
                                );
                            },
                        }
                    },
                    _ => {
                        return Err(
                            WombatError::Configuration(
                                cat3(
                                    "provider `",
                                    provider,
                                    "` plan() entries must be planned provider values",
                                ),
                            ),
                        );
                    },
                }
                i += 1;
            }
            assert(items@.take(i as int) =~= items@);
            Ok(ProviderPlan { prerequisites, preparations })
        },
        _ => {
            let empty = match value {
                FrozenValue::Table(entries) => entries.len() == 0,
                _ => false,
            };
            if !empty {
                return Err(
                    WombatError::Configuration(
                        cat3(
                            "provider `",
                            provider,
                            "` plan() must return an array of provider.operation() or provider.prerequisite() values",
                        ),
                    ),
                );
            }
            Ok(ProviderPlan { prerequisites, preparations })
        },
    }
}

/// Whether a preparation of that provider and identity stands before `count`.
pub open spec fn prepared_before(
    list: Seq<ProviderPreparation>,
    provider: Seq<char>,
    identity: Seq<char>,
    count: int,
) -> bool {
    exists|i: int|
        0 <= i < count && (#[trigger] list[i]).provider@ == provider && list[i].identity@
            == identity
}

/// The first preparation that repeats an earlier one.
pub open spec fn repeated_preparation(list: Seq<ProviderPreparation>, count: int) -> Option<
    Seq<char>,
>
    decreases count,
{
    if count <= 0 {
        None
    } else {
        let last = list[count - 1];
        first(
            repeated_preparation(list, count - 1),
            problem_if(
                prepared_before(list, last.provider@, last.identity@, count - 1),
                "provider `"@ + last.provider@ + "` planned duplicate operation `"@
                    + last.identity@ + "`"@,
            ),
        )
    }
}

/// Whether a prerequisite of that provider and identity stands before `count`.
pub open spec fn planned_before(
    list: Seq<ProviderPrerequisite>,
    provider: Seq<char>,
    identity: Seq<char>,
    count: int,
) -> bool {
    exists|i: int|
        0 <= i < count && (#[trigger] list[i]).provider@ == provider && list[i].identity@
            == identity
}

/// The first prerequisite that repeats an earlier one.
pub open spec fn repeated_prerequisite(list: Seq<ProviderPrerequisite>, count: int) -> Option<
    Seq<char>,
>
    decreases count,
{
    if count <= 0 {
        None
    } else {
        let last = list[count - 1];
        first(
            repeated_prerequisite(list, count - 1),
            problem_if(
                planned_before(list, last.provider@, last.identity@, count - 1),
                "provider `"@ + last.provider@ + "` planned duplicate prerequisite `"@
                    + last.identity@ + "`"@,
            ),
        )
    }
}

proof fn lemma_repeated_preparation(list: Seq<ProviderPreparation>, count: int, more: int)
    requires
        0 <= count <= more,
    ensures
        repeated_preparation(list, count) is Some ==> repeated_preparation(list, more)
            == repeated_preparation(list, count),
    decreases more - count,
{
    if count < more {
        lemma_repeated_preparation(list, count, more - 1);
    }
}

proof fn lemma_repeated_prerequisite(list: Seq<ProviderPrerequisite>, count: int, more: int)
    requires
        0 <= count <= more,
    ensures
        repeated_prerequisite(list, count) is Some ==> repeated_prerequisite(list, more)
            == repeated_prerequisite(list, count),
    decreases more - count,
{
    if count < more {
        lemma_repeated_prerequisite(list, count, more - 1);
    }
}

/// The prerequisites that a binding refers to.
pub open spec fn binding_references(binding: ProviderBinding) -> Seq<(Seq<char>, Seq<char>)> {
    binding.prerequisites@.map_values(|identity: String| (binding.provider@, identity@))
}

/// The prerequisites that the requirements refer to.
pub open spec fn references(requirements: Seq<Requirement>) -> Seq<(Seq<char>, Seq<char>)>
    decreases requirements.len(),
{
    if requirements.len() == 0 {
        Seq::empty()
    } else {
        references(requirements.drop_last()) + binding_references(requirements.last().binding)
    }
}

/// The order of references.
pub open spec fn reference_before(a: (Seq<char>, Seq<char>), b: (Seq<char>, Seq<char>)) -> bool {
    if a.0 == b.0 {
        precedes(a.1, b.1)
    } else {
        precedes(a.0, b.0)
    }
}

/// The least reference to a prerequisite that was not planned.
pub open spec fn least_absent(
    wanted: Seq<(Seq<char>, Seq<char>)>,
    planned: Seq<ProviderPrerequisite>,
) -> Option<(Seq<char>, Seq<char>)>
    decreases wanted.len(),
{
    if wanted.len() == 0 {
        None
    } else {
        let rest = least_absent(wanted.drop_last(), planned);
        let next = wanted.last();
        if planned_before(planned, next.0, next.1, planned.len() as int) {
            rest
        } else {
            match rest {
                None => Some(next),
                Some(found) => if reference_before(next, found) {
                    Some(next)
                } else {
                    Some(found)
                },
            }
        }
    }
}

/// The first planned prerequisite that nothing refers to.
pub open spec fn unreferenced(
    planned: Seq<ProviderPrerequisite>,
    wanted: Seq<(Seq<char>, Seq<char>)>,
) -> Option<Seq<char>>
    decreases planned.len(),
{
    if planned.len() == 0 {
        None
    } else {
        first(
            unreferenced(planned.drop_last(), wanted),
            problem_if(
                !wanted.contains((planned.last().provider@, planned.last().identity@)),
                "provider `"@ + planned.last().provider@ + "` planned unreferenced prerequisite `"@
                    + planned.last().identity@ + "`"@,
            ),
        )
    }
}

proof fn lemma_unreferenced(
    planned: Seq<ProviderPrerequisite>,
    wanted: Seq<(Seq<char>, Seq<char>)>,
    count: int,
)
    requires
        0 <= count <= planned.len(),
    ensures
        unreferenced(planned.take(count), wanted) is Some ==> unreferenced(planned, wanted)
            == unreferenced(planned.take(count), wanted),
    decreases planned.len() - count,
{
    if count < planned.len() {
        lemma_unreferenced(planned, wanted, count + 1);
        assert(planned.take(count + 1).drop_last() =~= planned.take(count));
    } else {
        assert(planned.take(count) =~= planned);
    }
}

/// What is wrong with the plans of all providers together.
pub open spec fn provider_plans_problem(
    requirements: Seq<Requirement>,
    prerequisites: Seq<ProviderPrerequisite>,
    preparations: Seq<ProviderPreparation>,
) -> Option<Seq<char>> {
    first(
        repeated_preparation(preparations, preparations.len() as int),
        first(
            repeated_prerequisite(prerequisites, prerequisites.len() as int),
            first(
                match least_absent(references(requirements), prerequisites) {
                    Some(absent) => Some(
                        "provider `"@ + absent.0 + "` binding references absent prerequisite `"@
                            + absent.1 + "`"@,
                    ),
                    None => None,
                },
                unreferenced(prerequisites, references(requirements)),
            ),
        ),
    )
}

/// The views of references.
pub open spec fn reference_views(list: Seq<(String, String)>) -> Seq<(Seq<char>, Seq<char>)> {
    list.map_values(|r: (String, String)| (r.0@, r.1@))
}

fn gather_references(requirements: &Vec<Requirement>) -> (r: Vec<(String, String)>)
    ensures
        reference_views(r@) == references(requirements@),
{
    let mut found: Vec<(String, String)> = Vec::new();
    let mut i: usize = 0;
    assert(requirements@.take(0) =~= Seq::empty());
    assert(reference_views(found@) =~= Seq::empty());
    while i < requirements.len()
        invariant
            0 <= i <= requirements@.len(),
            reference_views(found@) == references(requirements@.take(i as int)),
        decreases requirements@.len() - i,
    {
        let ghost before = reference_views(found@);
        let binding = &requirements[i].binding;
        let ghost added = binding_references(*binding);
        let mut k: usize = 0;
        assert(added.take(0) =~= Seq::empty());
        assert(before + added.take(0) =~= before);
        while k < binding.prerequisites.len()
            invariant
                0 <= k <= binding.prerequisites@.len(),
                added == binding_references(*binding),
                reference_views(found@) == before + added.take(k as int),
            decreases binding.prerequisites@.len() - k,
        {
            let ghost held = found@;
            found.push((binding.provider.clone(), binding.prerequisites[k].clone()));
            assert(reference_views(found@) =~= reference_views(held).push(added[k as int]));
            assert(before + added.take(k + 1) =~= (before + added.take(k as int)).push(
                added[k as int],
            ));
            k += 1;
        }
        assert(added.take(k as int) =~= added);
        assert(requirements@.take(i + 1).drop_last() =~= requirements@.take(i as int));
        i += 1;
    }
    assert(requirements@.take(i as int) =~= requirements@);
    found
}

fn is_planned(
    list: &Vec<ProviderPrerequisite>,
    provider: &str,
    identity: &str,
    count: usize,
) -> (r: bool)
    requires
        count <= list@.len(),
    ensures
        r == planned_before(list@, provider@, identity@, count as int),
{
    let mut i: usize = 0;
    while i < count
        invariant
            0 <= i <= count <= list@.len(),
            forall|j: int|
                0 <= j < i ==> !((#[trigger] list@[j]).provider@ == provider@ && list@[j].identity@
                    == identity@),
        decreases count - i,
    {
        if same(list[i].provider.as_str(), provider) && same(list[i].identity.as_str(), identity) {
            assert(list@[i as int].provider@ == provider@);
            return true;
        }
        i += 1;
    }
    false
}

fn is_prepared(
    list: &Vec<ProviderPreparation>,
    provider: &str,
    identity: &str,
    count: usize,
) -> (r: bool)
    requires
        count <= list@.len(),
    ensures
        r == prepared_before(list@, provider@, identity@, count as int),
{
    let mut i: usize = 0;
    while i < count
        invariant
            0 <= i <= count <= list@.len(),
            forall|j: int|
                0 <= j < i ==> !((#[trigger] list@[j]).provider@ == provider@ && list@[j].identity@
                    == identity@),
        decreases count - i,
    {
        if same(list[i].provider.as_str(), provider) && same(list[i].identity.as_str(), identity) {
            assert(list@[i as int].provider@ == provider@);
            return true;
        }
        i += 1;
    }
    false
}

fn is_referenced(list: &Vec<(String, String)>, provider: &str, identity: &str) -> (r: bool)
    ensures
        r == reference_views(list@).contains((provider@, identity@)),
{
    let mut i: usize = 0;
    while i < list.len()
        invariant
            0 <= i <= list@.len(),
            forall|j: int| 0 <= j < i ==> #[trigger] reference_views(list@)[j] != (
                provider@,
                identity@,
            ),
        decreases list@.len() - i,
    {
        assert(reference_views(list@)[i as int] == (list@[i as int].0@, list@[i as int].1@));
        if same(list[i].0.as_str(), provider) && same(list[i].1.as_str(), identity) {
            return true;
        }
        i += 1;
    }
    false
}

fn find_absent(wanted: &Vec<(String, String)>, planned: &Vec<ProviderPrerequisite>) -> (r: Option<
    usize,
>)
    ensures
        match r {
            Some(i) => i < wanted@.len() && least_absent(reference_views(wanted@), planned@)
                == Some(reference_views(wanted@)[i as int]),
            None => least_absent(reference_views(wanted@), planned@) is None,
        },
{
    let ghost all = reference_views(wanted@);
    let mut found: Option<usize> = None;
    let mut i: usize = 0;
    assert(all.take(0) =~= Seq::empty());
    while i < wanted.len()
        invariant
            0 <= i <= wanted@.len(),
            all == reference_views(wanted@),
            match found {
                Some(k) => k < wanted@.len() && least_absent(all.take(i as int), planned@) == Some(
                    all[k as int],
                ),
                None => least_absent(all.take(i as int), planned@) is None,
            },
        decreases wanted@.len() - i,
    {
        assert(all.take(i + 1).drop_last() =~= all.take(i as int));
        assert(all.take(i + 1).last() == all[i as int]);
        let provider = wanted[i].0.as_str();
        let identity = wanted[i].1.as_str();
        if !is_planned(planned, provider, identity, planned.len()) {
            match found {
                None => {
                    found = Some(i);
                },
                Some(k) => {
                    let earlier = if same(provider, wanted[k].0.as_str()) {
                        before(identity, wanted[k].1.as_str())
                    } else {
                        before(provider, wanted[k].0.as_str())
                    };
                    if earlier {
                        found = Some(i);
                    }
                },
            }
        }
        i += 1;
    }
    assert(all.take(i as int) =~= all);
    found
}

/// Checks the plans of all providers together: nothing is planned twice, every
/// prerequisite that a binding refers to is planned, and every planned one is
/// referred to.
pub fn check_provider_plans(
    requirements: &Vec<Requirement>,
    prerequisites: &Vec<ProviderPrerequisite>,
    preparations: &Vec<ProviderPreparation>,
) -> (r: Result<()>)
    ensures
        reports(
            r,
            provider_plans_problem(requirements@, prerequisites@, preparations@),
        ),
{
    let mut i: usize = 0;
    while i < preparations.len()
        invariant
            0 <= i <= preparations@.len(),
            repeated_preparation(preparations@, i as int) is None,
        decreases preparations@.len() - i,
    {
        proof {
            lemma_repeated_preparation(preparations@, i + 1, preparations@.len() as int);
        }
        let provider = preparations[i].provider.as_str();
        let identity = preparations[i].identity.as_str();
        if is_prepared(preparations, provider, identity, i) {
            return Err(
                WombatError::Configuration(
                    cat5(
                        "provider `",
                        provider,
                        "` planned duplicate operation `",
                        identity,
                        "`",
                    ),
                ),
            );
        }
        i += 1;
    }
    let mut k: usize = 0;
    while k < prerequisites.len()
        invariant
            0 <= k <= prerequisites@.len(),
            repeated_preparation(preparations@, preparations@.len() as int) is None,
            repeated_prerequisite(prerequisites@, k as int) is None,
        decreases prerequisites@.len() - k,
    {
        proof {
            lemma_repeated_prerequisite(prerequisites@, k + 1, prerequisites@.len() as int);
        }
        let provider = prerequisites[k].provider.as_str();
        let identity = prerequisites[k].identity.as_str();
        if is_planned(prerequisites, provider, identity, k) {
            return Err(
                WombatError::Configuration(
                    cat5(
                        "provider `",
                        provider,
                        "` planned duplicate prerequisite `",
                        identity,
                        "`",
                    ),
                ),
            );
        }
        k += 1;
    }
    let wanted = gather_references(requirements);
    if let Some(absent) = find_absent(&wanted, prerequisites) {
        return Err(
            WombatError::Configuration(
                cat5(
                    "provider `",
                    wanted[absent].0.as_str(),
                    "` binding references absent prerequisite `",
                    wanted[absent].1.as_str(),
                    "`",
                ),
            ),
        );
    }
    let ghost all = references(requirements@);
    let mut j: usize = 0;
    assert(prerequisites@.take(0) =~= Seq::empty());
    while j < prerequisites.len()
        invariant
            0 <= j <= prerequisites@.len(),
            repeated_preparation(preparations@, preparations@.len() as int) is None,
            repeated_prerequisite(prerequisites@, prerequisites@.len() as int) is None,
            all == references(requirements@),
            reference_views(wanted@) == all,
            least_absent(all, prerequisites@) is None,
            unreferenced(prerequisites@.take(j as int), all) is None,
        decreases prerequisites@.len() - j,
    {
        proof {
            assert(prerequisites@.take(j + 1).drop_last() =~= prerequisites@.take(j as int));
            assert(prerequisites@.take(j + 1).last() == prerequisites@[j as int]);
            lemma_unreferenced(prerequisites@, all, j + 1);
        }
        let provider = prerequisites[j].provider.as_str();
        let identity = prerequisites[j].identity.as_str();
        if !is_referenced(&wanted, provider, identity) {
            return Err(
                WombatError::Configuration(
                    cat5(
                        "provider `",
                        provider,
                        "` planned unreferenced prerequisite `",
                        identity,
                        "`",
                    ),
                ),
            );
        }
        j += 1;
    }
    assert(prerequisites@.take(j as int) =~= prerequisites@);
    Ok(())
}

proof fn lemma_all_planned(
    wanted: Seq<(Seq<char>, Seq<char>)>,
    planned: Seq<ProviderPrerequisite>,
)
    requires
        least_absent(wanted, planned) is None,
    ensures
        forall|i: int|
            0 <= i < wanted.len() ==> planned_before(
                planned,
                (#[trigger] wanted[i]).0,
                wanted[i].1,
                planned.len() as int,
            ),
    decreases wanted.len(),
{
    if wanted.len() > 0 {
        lemma_all_planned(wanted.drop_last(), planned);
        assert forall|i: int| 0 <= i < wanted.len() implies planned_before(
            planned,
            (#[trigger] wanted[i]).0,
            wanted[i].1,
            planned.len() as int,
        ) by {
            if i < wanted.len() - 1 {
                assert(wanted[i] == wanted.drop_last()[i]);
            }
        }
    }
}

proof fn lemma_all_referenced(
    planned: Seq<ProviderPrerequisite>,
    wanted: Seq<(Seq<char>, Seq<char>)>,
)
    requires
        unreferenced(planned, wanted) is None,
    ensures
        forall|i: int|
            0 <= i < planned.len() ==> wanted.contains(
                ((#[trigger] planned[i]).provider@, planned[i].identity@),
            ),
    decreases planned.len(),
{
    if planned.len() > 0 {
        lemma_all_referenced(planned.drop_last(), wanted);
        assert forall|i: int| 0 <= i < planned.len() implies wanted.contains(
            ((#[trigger] planned[i]).provider@, planned[i].identity@),
        ) by {
            if i < planned.len() - 1 {
                assert(planned[i] == planned.drop_last()[i]);
            }
        }
    }
}

/// Plans that are accepted match the bindings: every prerequisite that a binding refers
/// to is planned, and every planned one is referred to.
pub proof fn law_accepted_plans_match_bindings(
    requirements: Seq<Requirement>,
    prerequisites: Seq<ProviderPrerequisite>,
    preparations: Seq<ProviderPreparation>,
)
    requires
        provider_plans_problem(requirements, prerequisites, preparations) is None,
    ensures
        forall|i: int|
            0 <= i < references(requirements).len() ==> planned_before(
                prerequisites,
                (#[trigger] references(requirements)[i]).0,
                references(requirements)[i].1,
                prerequisites.len() as int,
            ),
        forall|i: int|
            0 <= i < prerequisites.len() ==> references(requirements).contains(
                ((#[trigger] prerequisites[i]).provider@, prerequisites[i].identity@),
            ),
{
    lemma_all_planned(references(requirements), prerequisites);
    lemma_all_referenced(prerequisites, references(requirements));
}

} // verus!
