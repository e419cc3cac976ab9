//! How a declared requirement is resolved through the configured providers.
use vstd::prelude::*;
use vstd::string::*;

use crate::error::{first, is_configuration, problem_if, reports, Result, WombatError};
use crate::json::{object_tree, JsonTree};
use crate::lua::options::{
    bool_option, bool_problem, get, holds_option, map_option, map_problem, option,
    optional_string_problem, reject_unknown_options, rung_option, rung_problem, string_option,
    string_problem, take_bool, take_map, take_optional_string, take_rung, take_string,
    unknown_problem,
};
use crate::lua::requirements::{
    blank, candidate_is, candidate_problem, parse_publications, parse_requirement_candidate,
    published_commands, publications_problem, publishes,
};
use crate::lua::state::{Location, ModuleRegistry, RequirementRegistry};
use crate::model::frozen::{
    entries_ordered, entry_trees, insert_entry, keys, with_entry, FrozenValue,
};
use crate::model::ladder::{CoreRung, RungId};
use crate::model::manifest::{
    Provider, ProviderBinding, Publications, Requirement, RequirementCandidate, RequirementChoice,
    RequirementKind, ResolutionAttempt, ResolutionOutcome,
};
use crate::number::{decimal, decimal_text};
use crate::order::{ascending, sorted_unique};
use crate::text::{cat3, cat4, cat5, cat6, join, joined, same, trim, views};

verus! {

/// What a provider says of a candidate.
#[derive(Debug, PartialEq)]
pub enum Resolution {
    /// It takes it
    Bound(ProviderBinding),
    /// It refuses it, with the reason
    Unsupported(String),
}

/// What is wrong with one prerequisite of a binding.
pub open spec fn reference_item(value: FrozenValue) -> bool {
    value matches FrozenValue::String(identity) && !blank(identity@)
}

/// Whether every prerequisite of a binding is text.
pub open spec fn all_references(items: Seq<FrozenValue>) -> bool {
    forall|i: int| 0 <= i < items.len() ==> reference_item(#[trigger] items[i])
}

/// The prerequisites that a binding names.
pub open spec fn named_references(values: Seq<(String, FrozenValue)>) -> Seq<Seq<char>> {
    match option(values, "prerequisites"@) {
        Some(FrozenValue::Array(items)) => crate::lua::options::item_texts(items@),
        _ => Seq::empty(),
    }
}

/// What is wrong with the prerequisites that a binding names.
pub open spec fn references_problem(values: Seq<(String, FrozenValue)>) -> Option<Seq<char>> {
    first(
        match option(values, "prerequisites"@) {
            None => None,
            Some(FrozenValue::Array(items)) => problem_if(
                !all_references(items@),
                "provider binding prerequisites must be non-empty strings"@,
            ),
            Some(FrozenValue::Table(entries)) => problem_if(
                entries@.len() > 0,
                "provider binding prerequisites must be an array"@,
            ),
            Some(_) => Some("provider binding prerequisites must be an array"@),
        },
        problem_if(
            !named_references(values).no_duplicates(),
            "provider binding prerequisites must be unique"@,
        ),
    )
}

fn read_references(items: &Vec<FrozenValue>) -> (r: Result<Vec<String>>)
    ensures
        reports(
            r,
            problem_if(
                !all_references(items@),
                "provider binding prerequisites must be non-empty strings"@,
            ),
        ),
        r matches Ok(list) ==> views(list@) == crate::lua::options::item_texts(items@),
{
    let mut list: Vec<String> = Vec::new();
    let mut i: usize = 0;
    while i < items.len()
        invariant
            0 <= i <= items@.len(),
            list@.len() == i,
            forall|j: int| 0 <= j < i ==> reference_item(#[trigger] items@[j]),
            forall|j: int|
                0 <= j < i ==> (#[trigger] list@[j])@ == crate::lua::options::item_texts(items@)[j],
        decreases items@.len() - i,
    {
        let mut accepted = false;
        if let FrozenValue::String(identity) = &items[i] {
            if !trim(identity.as_str()).as_str().is_empty() {
                accepted = true;
                list.push(identity.clone());
            }
        }
        if !accepted {
            assert(!reference_item(items@[i as int]));
            return Err(
                WombatError::configuration(
                    "provider binding prerequisites must be non-empty strings",
                ),
            );
        }
        i += 1;
    }
    assert(views(list@) =~= crate::lua::options::item_texts(items@));
    Ok(list)
}

fn take_references(values: &Vec<(String, FrozenValue)>) -> (r: Result<Vec<String>>)
    ensures
        reports(r, references_problem(values@)),
        r matches Ok(list) ==> ascending(views(list@)) && views(list@).to_set()
            == named_references(values@).to_set(),
{
    let list = match get(values, "prerequisites") {
        None => Vec::new(),
        Some(FrozenValue::Array(items)) => read_references(items)?,
        Some(value) => {
            let empty = match value {
                FrozenValue::Table(entries) => entries.len() == 0,
                _ => false,
            };
            if !empty {
                return Err(
                    WombatError::configuration("provider binding prerequisites must be an array"),
                );
            }
            Vec::new()
        },
    };
    assert(views(list@) =~= named_references(values@));
    match sorted_unique(&list) {
        Some(sorted) => Ok(sorted),
        None => Err(WombatError::configuration("provider binding prerequisites must be unique")),
    }
}

/// The commands that a binding says are published.
pub open spec fn binding_commands(values: Seq<(String, FrozenValue)>) -> Seq<Seq<char>> {
    match option(values, "publications"@) {
        Some(value) => published_commands(value),
        None => Seq::empty(),
    }
}

/// The options of a binding.
pub open spec fn binding_options() -> Seq<&'static str> {
    seq![
        "kind",
        "identity",
        "elevated",
        "package",
        "publications",
        "prerequisites",
        "data",
    ]
}

/// What is wrong with a binding.
pub open spec fn binding_problem(values: Seq<(String, FrozenValue)>) -> Option<Seq<char>> {
    first(
        string_problem(values, "identity"@, "provider binding"@),
        first(
            bool_problem(values, "elevated"@, "provider binding `elevated` must be boolean"@),
            first(
                optional_string_problem(values, "package"@, "provider binding"@),
                first(
                    match option(values, "publications"@) {
                        Some(value) => publications_problem("publications"@, value),
                        None => None,
                    },
                    first(
                        references_problem(values),
                        first(
                            map_problem(
                                values,
                                "data"@,
                                "provider binding data must be a string-keyed map"@,
                            ),
                            unknown_problem(values, binding_options(), "provider binding"@),
                        ),
                    ),
                ),
            ),
        ),
    )
}

/// What is wrong with a resolution of this kind.
pub open spec fn resolved_problem(
    provider: Seq<char>,
    kind: Seq<char>,
    values: Seq<(String, FrozenValue)>,
) -> Option<Seq<char>> {
    if kind == "unsupported"@ {
        first(
            string_problem(values, "reason"@, "unsupported provider resolution"@),
            unknown_problem(values, seq!["kind", "reason"], "unsupported provider resolution"@),
        )
    } else if kind == "binding"@ {
        binding_problem(values)
    } else {
        Some("provider `"@ + provider + "` returned unknown resolution kind `"@ + kind + "`"@)
    }
}

/// What is wrong with what resolve() returned.
pub open spec fn resolution_problem(provider: Seq<char>, value: FrozenValue) -> Option<Seq<char>> {
    match value {
        FrozenValue::Table(values) => first(
            string_problem(values@, "kind"@, "provider resolution"@),
            resolved_problem(provider, string_option(values@, "kind"@), values@),
        ),
        _ => Some(
            "provider `"@ + provider
                + "` resolve() must return provider.binding() or provider.unsupported()"@,
        ),
    }
}

/// Whether a binding is the one that was returned.
pub open spec fn binding_is(
    binding: ProviderBinding,
    provider: Seq<char>,
    values: Seq<(String, FrozenValue)>,
) -> bool {
    &&& binding.provider@ == provider
    &&& binding.identity@ == string_option(values, "identity"@)
    &&& binding.elevated == bool_option(values, "elevated"@, false)
    &&& holds_option(binding.package, values, "package"@)
    &&& publishes(binding.publications, binding_commands(values))
    &&& ascending(views(binding.prerequisites@))
    &&& views(binding.prerequisites@).to_set() == named_references(values).to_set()
    &&& binding.data.tree() == map_option(values, "data"@)
}

/// Whether a resolution is the one that was returned.
pub open spec fn resolution_is(
    resolution: Resolution,
    provider: Seq<char>,
    values: Seq<(String, FrozenValue)>,
) -> bool {
    match resolution {
        Resolution::Unsupported(reason) => string_option(values, "kind"@) == "unsupported"@
            && reason@ == string_option(values, "reason"@),
        Resolution::Bound(binding) => string_option(values, "kind"@) == "binding"@ && binding_is(
            binding,
            provider,
            values,
        ),
    }
}

/// Reads what resolve() of a provider returned.
pub fn parse_provider_resolution(provider: &str, value: &FrozenValue) -> (r: Result<Resolution>)
    ensures
        reports(r, resolution_problem(provider@, *value)),
        r matches Ok(resolution) ==> *value is Table && resolution_is(
            resolution,
            provider@,
            value->Table_0@,
        ),
{
    let values = match value {
        FrozenValue::Table(values) => values,
        _ => {
            return Err(
                WombatError::Configuration(
                    cat3(
                        "provider `",
                        provider,
                        "` resolve() must return provider.binding() or provider.unsupported()",
                    ),
                ),
            );
        },
    };
    let kind = take_string(values, "kind", "provider resolution")?;
    if same(kind.as_str(), "unsupported") {
        let reason = take_string(values, "reason", "unsupported provider resolution")?;
        let known = ["kind", "reason"];
        assert(known@ =~= seq!["kind", "reason"]);
        reject_unknown_options(values, &known, "unsupported provider resolution")?;
        return Ok(Resolution::Unsupported(reason));
    }
    if !same(kind.as_str(), "binding") {
        return Err(
            WombatError::Configuration(
                cat5(
                    "provider `",
                    provider,
                    "` returned unknown resolution kind `",
                    kind.as_str(),
                    "`",
                ),
            ),
        );
    }
    let identity = take_string(values, "identity", "provider binding")?;
    let elevated = take_bool(
        values,
        "elevated",
        false,
        "provider binding `elevated` must be boolean",
    )?;
    let package = take_optional_string(values, "package", "provider binding")?;
    let publications = match get(values, "publications") {
        Some(value) => parse_publications("publications", value)?,
        None => {
            let commands: Vec<String> = Vec::new();
            assert(views(commands@) =~= Seq::<Seq<char>>::empty());
            Publications { commands }
        },
    };
    let prerequisites = take_references(values)?;
    let data = take_map(values, "data", "provider binding data must be a string-keyed map")?;
    let known = [
        "kind",
        "identity",
        "elevated",
        "package",
        "publications",
        "prerequisites",
        "data",
    ];
    assert(known@ =~= binding_options());
    reject_unknown_options(values, &known, "provider binding")?;
    Ok(
        Resolution::Bound(
            ProviderBinding {
                provider: provider.to_owned(),
                identity,
                elevated,
                package,
                publications,
                prerequisites,
                data,
            },
        ),
    )
}

/// The name under which a kind of requirement is declared.
pub open spec fn declared_kind(kind: Seq<char>) -> Option<RequirementKind> {
    if kind == "command"@ {
        Some(RequirementKind::Command)
    } else if kind == "package"@ {
        Some(RequirementKind::Package)
    } else {
        None
    }
}

/// The function that declares a requirement.
pub open spec fn declaring(preferred: bool) -> Seq<char> {
    if preferred {
        "prefer"@
    } else {
        "need"@
    }
}

/// What is wrong with an accepted candidate.
pub open spec fn accepted_problem(kind: RequirementKind, value: FrozenValue) -> Option<Seq<char>> {
    match value {
        FrozenValue::Table(entries) => first(
            string_problem(entries@, "name"@, "accepted candidate"@),
            candidate_problem(kind, string_option(entries@, "name"@), entries@, true),
        ),
        FrozenValue::String(name) => if kind == RequirementKind::Command {
            candidate_problem(kind, name@, Seq::empty(), true)
        } else {
            Some(
                "accepted command candidates must be strings or tables and package candidates must be tables"@,
            )
        },
        _ => Some(
            "accepted command candidates must be strings or tables and package candidates must be tables"@,
        ),
    }
}

/// What is wrong with accepted candidates.
pub open spec fn accepted_list_problem(kind: RequirementKind, items: Seq<FrozenValue>) -> Option<
    Seq<char>,
>
    decreases items.len(),
{
    if items.len() == 0 {
        None
    } else {
        first(
            accepted_list_problem(kind, items.drop_last()),
            accepted_problem(kind, items.last()),
        )
    }
}

proof fn lemma_accepted_list(kind: RequirementKind, items: Seq<FrozenValue>, count: int)
    requires
        0 <= count <= items.len(),
    ensures
        accepted_list_problem(kind, items.take(count)) is Some ==> accepted_list_problem(kind, items)
            == accepted_list_problem(kind, items.take(count)),
    decreases items.len() - count,
{
    if count < items.len() {
        lemma_accepted_list(kind, items, count + 1);
        assert(items.take(count + 1).drop_last() =~= items.take(count));
    } else {
        assert(items.take(count) =~= items);
    }
}

/// Whether a candidate is the accepted one.
pub open spec fn accepted_is(
    candidate: RequirementCandidate,
    kind: RequirementKind,
    value: FrozenValue,
) -> bool {
    match value {
        FrozenValue::Table(entries) => candidate_is(
            candidate,
            kind,
            string_option(entries@, "name"@),
            entries@,
        ),
        FrozenValue::String(name) => candidate_is(candidate, kind, name@, Seq::empty()),
        _ => false,
    }
}

/// The accepted candidates that an option names.
pub open spec fn accepted_items(kind: RequirementKind, value: FrozenValue) -> Seq<FrozenValue> {
    match value {
        FrozenValue::Array(items) => items@,
        _ => seq![value],
    }
}

/// What is wrong with the accepted candidates that an option names.
pub open spec fn accept_problem(
    kind: RequirementKind,
    options: Seq<(String, FrozenValue)>,
    preferred: bool,
) -> Option<Seq<char>> {
    match option(options, "accept"@) {
        None => None,
        Some(value) => if !preferred {
            Some("w.need() does not support `accept`; use w.prefer()"@)
        } else if !(value is Table || value is Array || (value is String && kind
            == RequirementKind::Command)) {
            Some("prefer `accept` must be a command string, candidate table, or candidate array"@)
        } else {
            first(
                problem_if(
                    accepted_items(kind, value).len() == 0,
                    "prefer `accept` must contain at least one candidate"@,
                ),
                accepted_list_problem(kind, accepted_items(kind, value)),
            )
        },
    }
}

fn parse_accepted(kind: RequirementKind, value: &FrozenValue) -> (r: Result<RequirementCandidate>)
    ensures
        reports(r, accepted_problem(kind, *value)),
        r matches Ok(candidate) ==> accepted_is(candidate, kind, *value),
{
    match value {
        FrozenValue::Table(entries) => {
            let name = take_string(entries, "name", "accepted candidate")?;
            parse_requirement_candidate(kind, name.as_str(), entries, true)
        },
        FrozenValue::String(name) => {
            if kind != RequirementKind::Command {
                return Err(
                    WombatError::configuration(
                        "accepted command candidates must be strings or tables and package candidates must be tables",
                    ),
                );
            }
            let empty: Vec<(String, FrozenValue)> = Vec::new();
            assert(empty@ =~= Seq::empty());
            parse_requirement_candidate(kind, name.as_str(), &empty, true)
        },
        _ => Err(
            WombatError::configuration(
                "accepted command candidates must be strings or tables and package candidates must be tables",
            ),
        ),
    }
}

/// Whether candidates are the declared one and the accepted ones.
pub open spec fn candidates_are(
    candidates: Seq<RequirementCandidate>,
    kind: RequirementKind,
    name: Seq<char>,
    options: Seq<(String, FrozenValue)>,
) -> bool {
    let accepted = match option(options, "accept"@) {
        Some(value) => accepted_items(kind, value),
        None => Seq::empty(),
    };
    &&& candidates.len() == 1 + accepted.len()
    &&& candidate_is(candidates[0], kind, name, options)
    &&& forall|i: int|
        0 <= i < accepted.len() ==> accepted_is(
            #[trigger] candidates[i + 1],
            kind,
            accepted[i],
        )
}

/// The options that a requirement knows.
pub open spec fn requirement_options(kind: RequirementKind) -> Seq<&'static str> {
    match kind {
        RequirementKind::Command => seq!["minimum", "when", "accept"],
        RequirementKind::Package => seq![
            "minimum",
            "provider",
            "publishes",
            "with",
            "when",
            "accept",
        ],
    }
}

/// What is wrong with a declared requirement.
pub open spec fn requirement_problem(
    kind: Seq<char>,
    name: Seq<char>,
    options: FrozenValue,
    preferred: bool,
) -> Option<Seq<char>> {
    match options {
        FrozenValue::Table(entries) => match declared_kind(kind) {
            None => Some("unknown requirement kind `"@ + kind + "`"@),
            Some(known) => first(
                candidate_problem(known, name, entries@, false),
                first(
                    rung_problem(
                        entries@,
                        "when"@,
                        "requirement `when` must be a w.rungs handle or canonical rung string"@,
                    ),
                    first(
                        accept_problem(known, entries@, preferred),
                        unknown_problem(entries@, requirement_options(known), "requirement"@),
                    ),
                ),
            ),
        },
        _ => Some("w."@ + declaring(preferred) + "."@ + kind + "() options must be a table"@),
    }
}

/// What a declared requirement asks for.
#[derive(Debug, PartialEq)]
pub struct RequirementRequest {
    /// What it asks for
    pub kind: RequirementKind,
    /// The name it was declared with
    pub name: String,
    /// The ways to meet it
    pub candidates: Vec<RequirementCandidate>,
    /// The rung that waits for it
    pub when: RungId,
    /// Whether it only prefers the first candidate
    pub preferred: bool,
}

/// Whether a request is what was declared.
pub open spec fn request_is(
    request: RequirementRequest,
    kind: Seq<char>,
    name: Seq<char>,
    options: Seq<(String, FrozenValue)>,
    preferred: bool,
) -> bool {
    &&& Some(request.kind) == declared_kind(kind)
    &&& request.name@ == name
    &&& candidates_are(request.candidates@, request.kind, name, options)
    &&& request.when.name@ == rung_option(options, "when"@, CoreRung::MaterialiseBefore)
    &&& request.preferred == preferred
}

fn take_accepted(
    kind: RequirementKind,
    options: &Vec<(String, FrozenValue)>,
    preferred: bool,
) -> (r: Result<Vec<RequirementCandidate>>)
    ensures
        reports(r, accept_problem(kind, options@, preferred)),
        r matches Ok(list) ==> {
            let accepted = match option(options@, "accept"@) {
                Some(value) => accepted_items(kind, value),
                None => Seq::empty(),
            };
            &&& list@.len() == accepted.len()
            &&& forall|i: int|
                0 <= i < accepted.len() ==> accepted_is(#[trigger] list@[i], kind, accepted[i])
        },
{
    let mut list: Vec<RequirementCandidate> = Vec::new();
    let value = match get(options, "accept") {
        Some(value) => value,
        None => {
            return Ok(list);
        },
    };
    if !preferred {
        return Err(
            WombatError::configuration("w.need() does not support `accept`; use w.prefer()"),
        );
    }
    match value {
        FrozenValue::Array(items) => {
            if items.len() == 0 {
                return Err(
                    WombatError::configuration(
                        "prefer `accept` must contain at least one candidate",
                    ),
                );
            }
            let mut i: usize = 0;
            assert(items@.take(0) =~= Seq::empty());
            while i < items.len()
                invariant
                    0 <= i <= items@.len(),
                    items@.len() > 0,
                    preferred,
                    option(options@, "accept"@) == Some(FrozenValue::Array(*items)),
                    accepted_list_problem(kind, items@.take(i as int)) is None,
                    list@.len() == i,
                    forall|j: int|
                        0 <= j < i ==> accepted_is(#[trigger] list@[j], kind, items@[j]),
                decreases items@.len() - i,
            {
                proof {
                    assert(items@.take(i + 1).drop_last() =~= items@.take(i as int));
                    assert(items@.take(i + 1).last() == items@[i as int]);
                    lemma_accepted_list(kind, items@, i + 1);
                }
                let candidate = parse_accepted(kind, &items[i])?;
                list.push(candidate);
                i += 1;
            }
            assert(items@.take(i as int) =~= items@);
            Ok(list)
        },
        _ => {
            let acceptable = match value {
                FrozenValue::Table(_) => true,
                FrozenValue::String(_) => kind == RequirementKind::Command,
                _ => false,
            };
            if !acceptable {
                return Err(
                    WombatError::configuration(
                        "prefer `accept` must be a command string, candidate table, or candidate array",
                    ),
                );
            }
            proof {
                let one = seq![*value];
                assert(one.drop_last() =~= Seq::empty());
                assert(accepted_list_problem(kind, one.drop_last()) is None);
                assert(accepted_list_problem(kind, one) == accepted_problem(kind, *value));
            }
            let candidate = parse_accepted(kind, value)?;
            list.push(candidate);
            Ok(list)
        },
    }
}

/// Reads a declared requirement, given its options as far as they could be
/// frozen.
pub fn parse_requirement(
    kind: &str,
    name: &str,
    options: Result<FrozenValue>,
    preferred: bool,
) -> (r: Result<RequirementRequest>)
    ensures
        match options {
            Err(error) => r is Err && r->Err_0 == error,
            Ok(value) => {
                &&& reports(r, requirement_problem(kind@, name@, value, preferred))
                &&& r matches Ok(request) ==> value is Table && request_is(
                    request,
                    kind@,
                    name@,
                    value->Table_0@,
                    preferred,
                )
            },
        },
{
    let options = match options {
        Ok(FrozenValue::Table(entries)) => entries,
        Ok(_) => {
            return Err(
                WombatError::Configuration(
                    cat5(
                        "w.",
                        if preferred {
                            "prefer"
                        } else {
                            "need"
                        },
                        ".",
                        kind,
                        "() options must be a table",
                    ),
                ),
            );
        },
        Err(error) => {
            return Err(error);
        },
    };
    let known_kind = if same(kind, "command") {
        RequirementKind::Command
    } else if same(kind, "package") {
        RequirementKind::Package
    } else {
        return Err(WombatError::Configuration(cat3("unknown requirement kind `", kind, "`")));
    };
    let declared = parse_requirement_candidate(known_kind, name, &options, false)?;
    let when = take_rung(
        &options,
        "when",
        CoreRung::MaterialiseBefore,
        "requirement `when` must be a w.rungs handle or canonical rung string",
    )?;
    let mut accepted = take_accepted(known_kind, &options, preferred)?;
    let ghost rest = accepted@;
    match known_kind {
        RequirementKind::Command => {
            let known = ["minimum", "when", "accept"];
            assert(known@ =~= requirement_options(known_kind));
            reject_unknown_options(&options, &known, "requirement")?;
        },
        RequirementKind::Package => {
            let known = ["minimum", "provider", "publishes", "with", "when", "accept"];
            assert(known@ =~= requirement_options(known_kind));
            reject_unknown_options(&options, &known, "requirement")?;
        },
    }
    let mut candidates: Vec<RequirementCandidate> = Vec::new();
    candidates.push(declared);
    candidates.append(&mut accepted);
    assert(candidates@ =~= seq![declared] + rest);
    Ok(
        RequirementRequest {
            kind: known_kind,
            name: name.to_owned(),
            candidates,
            when,
            preferred,
        },
    )
}

/// Whether a provider is asked about a candidate.
pub open spec fn applies(candidate: RequirementCandidate, provider: Provider) -> bool {
    match candidate {
        RequirementCandidate::Package { provider: Some(required), .. } => provider.name@
            == required@,
        _ => true,
    }
}

/// Whether a candidate asks for a provider that is not configured.
pub open spec fn misses_provider(candidate: RequirementCandidate, providers: Seq<Provider>) -> bool {
    candidate matches RequirementCandidate::Package { provider: Some(required), .. } && forall|
        i: int,
    |
        0 <= i < providers.len() ==> (#[trigger] providers[i]).name@ != required@
}

/// What is asked next.
pub enum Question {
    /// A provider about a candidate
    Ask { candidate: int, provider: int },
    /// Nothing: the candidate asks for a provider that is not configured
    Missing { candidate: int },
    /// Nothing: all have been asked
    Done,
}

/// What is asked after `tried` more questions, from a candidate and a provider
/// on. The providers are asked in their order about one candidate after the
/// other.
pub open spec fn question(
    candidates: Seq<RequirementCandidate>,
    providers: Seq<Provider>,
    candidate: int,
    provider: int,
    tried: int,
) -> Question
    decreases candidates.len() - candidate, providers.len() - provider,
{
    if candidate >= candidates.len() {
        Question::Done
    } else if misses_provider(candidates[candidate], providers) {
        Question::Missing { candidate }
    } else if provider >= providers.len() {
        question(candidates, providers, candidate + 1, 0, tried)
    } else if !applies(candidates[candidate], providers[provider]) {
        question(candidates, providers, candidate, provider + 1, tried)
    } else if tried <= 0 {
        Question::Ask { candidate, provider }
    } else {
        question(candidates, providers, candidate, provider + 1, tried - 1)
    }
}

/// The question that comes after `tried` others.
pub open spec fn next_of(
    candidates: Seq<RequirementCandidate>,
    providers: Seq<Provider>,
    tried: int,
) -> Question {
    question(candidates, providers, 0, 0, tried)
}

/// The message about a provider that is not configured.
pub open spec fn missing_message(candidate: RequirementCandidate) -> Seq<char> {
    "package candidate `"@ + candidate.product() + "` requests provider `"@ + (match candidate {
        RequirementCandidate::Package { provider: Some(required), .. } => required@,
        _ => Seq::empty(),
    }) + "`, which is not configured"@
}

fn is_missing(candidate: &RequirementCandidate, providers: &Vec<Provider>) -> (r: bool)
    ensures
        r == misses_provider(*candidate, providers@),
{
    match candidate {
        RequirementCandidate::Package { provider: Some(required), .. } => {
            let mut i: usize = 0;
            while i < providers.len()
                invariant
                    0 <= i <= providers@.len(),
                    *candidate is Package,
                    candidate->provider == Some(*required),
                    forall|j: int| 0 <= j < i ==> (#[trigger] providers@[j]).name@ != required@,
                decreases providers@.len() - i,
            {
                if same(providers[i].name.as_str(), required.as_str()) {
                    assert(providers@[i as int].name@ == required@);
                    return false;
                }
                i += 1;
            }
            true
        },
        _ => false,
    }
}

fn is_asked(candidate: &RequirementCandidate, provider: &Provider) -> (r: bool)
    ensures
        r == applies(*candidate, *provider),
{
    match candidate {
        RequirementCandidate::Package { provider: Some(required), .. } => same(
            provider.name.as_str(),
            required.as_str(),
        ),
        _ => true,
    }
}

/// Whether the outcome of looking for the next question is what it should be.
pub open spec fn question_outcome(
    r: Result<Option<(usize, usize)>>,
    candidates: Seq<RequirementCandidate>,
    expected: Question,
) -> bool {
    match expected {
        Question::Ask { candidate, provider } => r matches Ok(Some(found)) && found.0 == candidate
            && found.1 == provider,
        Question::Missing { candidate } => r matches Err(error) && is_configuration(
            error,
            missing_message(candidates[candidate]),
        ),
        Question::Done => r matches Ok(None),
    }
}

/// Finds the question that comes after `tried` others: the candidate and the
/// provider that is asked about it.
pub fn next_question(
    candidates: &Vec<RequirementCandidate>,
    providers: &Vec<Provider>,
    tried: usize,
) -> (r: Result<Option<(usize, usize)>>)
    ensures
        question_outcome(r, candidates@, next_of(candidates@, providers@, tried as int)),
{
    let mut left: usize = tried;
    let mut c: usize = 0;
    while c < candidates.len()
        invariant
            0 <= c <= candidates@.len(),
            next_of(candidates@, providers@, tried as int) == question(
                candidates@,
                providers@,
                c as int,
                0,
                left as int,
            ),
        decreases candidates@.len() - c,
    {
        if is_missing(&candidates[c], providers) {
            let required = match &candidates[c] {
                RequirementCandidate::Package { provider: Some(required), .. } => required.clone(),
                _ => String::new(),
            };
            return Err(
                WombatError::Configuration(
                    cat5(
                        "package candidate `",
                        candidates[c].name(),
                        "` requests provider `",
                        required.as_str(),
                        "`, which is not configured",
                    ),
                ),
            );
        }
        let mut p: usize = 0;
        while p < providers.len()
            invariant
                0 <= p <= providers@.len(),
                c < candidates@.len(),
                !misses_provider(candidates@[c as int], providers@),
                next_of(candidates@, providers@, tried as int) == question(
                    candidates@,
                    providers@,
                    c as int,
                    p as int,
                    left as int,
                ),
            decreases providers@.len() - p,
        {
            if is_asked(&candidates[c], &providers[p]) {
                if left == 0 {
                    return Ok(Some((c, p)));
                }
                left -= 1;
            }
            p += 1;
        }
        c += 1;
    }
    Ok(None)
}

/// What is wrong with starting to resolve a requirement.
pub open spec fn policy_problem(
    providers: Seq<Provider>,
    preferred: bool,
    place: Seq<char>,
) -> Option<Seq<char>> {
    problem_if(
        providers.len() == 0,
        "requirements need provider policy; call w.providers() before "@ + (if preferred {
            "w.prefer()"@
        } else {
            "w.need()"@
        }) + " at "@ + place,
    )
}

/// Starts to resolve a requirement: providers must be configured.
pub fn begin_requirement(
    modules: &mut ModuleRegistry,
    registry: &RequirementRegistry,
    request: &RequirementRequest,
    location: &Location,
) -> (r: Result<()>)
    ensures
        reports(
            r,
            policy_problem(registry.providers@, request.preferred, location.trace.text()),
        ),
        *final(modules) == (ModuleRegistry {
            root_policy_started: old(modules).root_policy_started || (r is Ok && old(
                modules,
            ).active() is None),
            ..*old(modules)
        }),
{
    if registry.providers.len() == 0 {
        let function = if request.preferred {
            "w.prefer()"
        } else {
            "w.need()"
        };
        return Err(
            WombatError::Configuration(
                cat4(
                    "requirements need provider policy; call w.providers() before ",
                    function,
                    " at ",
                    location.display().as_str(),
                ),
            ),
        );
    }
    if modules.active_module().is_none() {
        modules.root_policy_started = true;
    }
    Ok(())
}

/// Whether the answer at `index` is the first that takes a candidate.
pub open spec fn bound_at(answers: Seq<Resolution>, index: int) -> bool {
    &&& 0 <= index < answers.len()
    &&& answers[index] is Bound
    &&& forall|j: int| 0 <= j < index ==> (#[trigger] answers[j]) is Unsupported
}

/// Whether no answer takes a candidate.
pub open spec fn all_refused(answers: Seq<Resolution>) -> bool {
    forall|j: int| 0 <= j < answers.len() ==> (#[trigger] answers[j]) is Unsupported
}

/// Whether the answers are those to the questions, asked in order until one took
/// a candidate or nothing was left to ask.
pub open spec fn answered(
    request: RequirementRequest,
    providers: Seq<Provider>,
    answers: Seq<Resolution>,
) -> bool {
    &&& forall|i: int|
        0 <= i < answers.len() ==> (#[trigger] next_of(
            request.candidates@,
            providers,
            i,
        )) is Ask
    &&& forall|i: int|
        0 <= i < answers.len() - 1 ==> (#[trigger] answers[i]) is Unsupported
    &&& all_refused(answers) ==> !(next_of(
        request.candidates@,
        providers,
        answers.len() as int,
    ) is Ask)
}

/// Whether an attempt records an answer.
pub open spec fn attempt_is(
    attempt: ResolutionAttempt,
    asked: Question,
    providers: Seq<Provider>,
    answer: Resolution,
) -> bool {
    &&& asked is Ask
    &&& attempt.candidate == asked->Ask_candidate
    &&& attempt.provider@ == providers[asked->Ask_provider].name@
    &&& match answer {
        Resolution::Bound(_) => attempt.outcome is Selected,
        Resolution::Unsupported(reason) => attempt.outcome matches ResolutionOutcome::Unsupported {
            reason: r,
        } && r@ == reason@,
    }
}

/// Whether attempts record the answers.
pub open spec fn attempts_are(
    attempts: Seq<ResolutionAttempt>,
    request: RequirementRequest,
    providers: Seq<Provider>,
    answers: Seq<Resolution>,
    count: int,
) -> bool {
    &&& attempts.len() == count
    &&& forall|i: int|
        0 <= i < count ==> attempt_is(
            #[trigger] attempts[i],
            next_of(request.candidates@, providers, i),
            providers,
            answers[i],
        )
}

/// How a refused attempt is shown.
pub open spec fn refusal_text(
    candidates: Seq<RequirementCandidate>,
    providers: Seq<Provider>,
    answers: Seq<Resolution>,
    index: int,
) -> Seq<char> {
    let asked = next_of(candidates, providers, index);
    "candidate "@ + decimal((asked->Ask_candidate + 1) as nat) + " through `"@
        + providers[asked->Ask_provider].name@ + "`: "@ + answers[index]->Unsupported_0@
}

/// How refused attempts are shown.
pub open spec fn refusal_texts(
    candidates: Seq<RequirementCandidate>,
    providers: Seq<Provider>,
    answers: Seq<Resolution>,
) -> Seq<Seq<char>> {
    Seq::new(answers.len(), |i: int| refusal_text(candidates, providers, answers, i))
}

/// The message about a requirement that nothing resolves.
pub open spec fn unresolved_message(
    request: RequirementRequest,
    providers: Seq<Provider>,
    answers: Seq<Resolution>,
    place: Seq<char>,
) -> Seq<char> {
    "no configured provider can resolve "@ + request.kind.wire() + " requirement `"@
        + request.name@ + "` at "@ + place + ": "@ + joined(
        refusal_texts(request.candidates@, providers, answers),
        "; "@,
    )
}

/// What is wrong with the answers.
pub open spec fn settling_problem(
    request: RequirementRequest,
    providers: Seq<Provider>,
    answers: Seq<Resolution>,
    place: Seq<char>,
) -> Option<Seq<char>> {
    if all_refused(answers) {
        match next_of(request.candidates@, providers, answers.len() as int) {
            Question::Missing { candidate } => Some(
                missing_message(request.candidates@[candidate]),
            ),
            _ => Some(unresolved_message(request, providers, answers, place)),
        }
    } else {
        None
    }
}

/// How the selected candidate was chosen.
pub open spec fn choice_of(preferred: bool, selected: int) -> RequirementChoice {
    if !preferred {
        RequirementChoice::Required
    } else if selected == 0 {
        RequirementChoice::Preferred
    } else {
        RequirementChoice::Accepted
    }
}

/// Whether a requirement is the one that was declared and resolved.
pub open spec fn requirement_is(
    requirement: Requirement,
    owner: Seq<char>,
    request: RequirementRequest,
    providers: Seq<Provider>,
    answers: Seq<Resolution>,
    location: Location,
) -> bool {
    exists|index: int| #[trigger]
        bound_at(answers, index) && {
            let asked = next_of(request.candidates@, providers, index);
            &&& requirement.kind == request.kind
            &&& requirement.owner@ == owner
            &&& requirement.declared_at == location.trace
            &&& requirement.candidates@ == request.candidates@
            &&& attempts_are(requirement.attempts@, request, providers, answers, index + 1)
            &&& asked is Ask
            &&& requirement.selected == asked->Ask_candidate
            &&& requirement.choice == choice_of(request.preferred, asked->Ask_candidate)
            &&& requirement.binding == answers[index]->Bound_0
            &&& requirement.when == request.when
        }
}

fn record_attempts(
    request: &RequirementRequest,
    providers: &Vec<Provider>,
    answers: &Vec<Resolution>,
) -> (r: (Vec<ResolutionAttempt>, Option<usize>, u32))
    requires
        answered(*request, providers@, answers@),
        request.candidates@.len() <= u32::MAX,
    ensures
        match r.1 {
            Some(index) => {
                &&& bound_at(answers@, index as int)
                &&& attempts_are(r.0@, *request, providers@, answers@, index + 1)
                &&& r.2 == next_of(request.candidates@, providers@, index as int)->Ask_candidate
            },
            None => {
                &&& all_refused(answers@)
                &&& attempts_are(
                    r.0@,
                    *request,
                    providers@,
                    answers@,
                    answers@.len() as int,
                )
            },
        },
{
    let mut attempts: Vec<ResolutionAttempt> = Vec::new();
    let mut i: usize = 0;
    while i < answers.len()
        invariant
            0 <= i <= answers@.len(),
            answered(*request, providers@, answers@),
            request.candidates@.len() <= u32::MAX,
            forall|j: int| 0 <= j < i ==> (#[trigger] answers@[j]) is Unsupported,
            attempts_are(attempts@, *request, providers@, answers@, i as int),
        decreases answers@.len() - i,
    {
        let ghost asked = next_of(request.candidates@, providers@, i as int);
        assert(asked is Ask);
        if let Ok(Some((candidate, provider))) = next_question(&request.candidates, providers, i) {
            proof {
                lemma_question_range(request.candidates@, providers@, 0, 0, i as int);
            }
            let index: u32 = candidate as u32;
            match &answers[i] {
                Resolution::Bound(_) => {
                    attempts.push(
                        ResolutionAttempt {
                            candidate: index,
                            provider: providers[provider].name.clone(),
                            outcome: ResolutionOutcome::Selected,
                        },
                    );
                    return (attempts, Some(i), index);
                },
                Resolution::Unsupported(reason) => {
                    attempts.push(
                        ResolutionAttempt {
                            candidate: index,
                            provider: providers[provider].name.clone(),
                            outcome: ResolutionOutcome::Unsupported { reason: reason.clone() },
                        },
                    );
                },
            }
        }
        i += 1;
    }
    (attempts, None, 0)
}

/// A question names a candidate and a provider that are there.
proof fn lemma_question_range(
    candidates: Seq<RequirementCandidate>,
    providers: Seq<Provider>,
    candidate: int,
    provider: int,
    tried: int,
)
    requires
        0 <= candidate,
        0 <= provider,
    ensures
        question(candidates, providers, candidate, provider, tried) matches Question::Ask {
            candidate: c,
            provider: p,
        } ==> 0 <= c < candidates.len() && 0 <= p < providers.len(),
    decreases candidates.len() - candidate, providers.len() - provider,
{
    if candidate >= candidates.len() {
    } else if misses_provider(candidates[candidate], providers) {
    } else if provider >= providers.len() {
        lemma_question_range(candidates, providers, candidate + 1, 0, tried);
    } else if !applies(candidates[candidate], providers[provider]) {
        lemma_question_range(candidates, providers, candidate, provider + 1, tried);
    } else if tried <= 0 {
    } else {
        lemma_question_range(candidates, providers, candidate, provider + 1, tried - 1);
    }
}

fn refusals(
    request: &RequirementRequest,
    providers: &Vec<Provider>,
    answers: &Vec<Resolution>,
) -> (r: String)
    requires
        answered(*request, providers@, answers@),
        all_refused(answers@),
        request.candidates@.len() <= u32::MAX,
    ensures
        r@ == joined(refusal_texts(request.candidates@, providers@, answers@), "; "@),
{
    let ghost wanted = refusal_texts(request.candidates@, providers@, answers@);
    let mut shown: Vec<String> = Vec::new();
    let mut i: usize = 0;
    assert(views(shown@) =~= wanted.take(0));
    while i < answers.len()
        invariant
            0 <= i <= answers@.len(),
            answered(*request, providers@, answers@),
            all_refused(answers@),
            request.candidates@.len() <= u32::MAX,
            wanted == refusal_texts(request.candidates@, providers@, answers@),
            views(shown@) == wanted.take(i as int),
        decreases answers@.len() - i,
    {
        let ghost held = shown@;
        let ghost asked = next_of(request.candidates@, providers@, i as int);
        assert(asked is Ask);
        assert(answers@[i as int] is Unsupported);
        let mut text = String::new();
        if let Ok(Some((candidate, provider))) = next_question(&request.candidates, providers, i) {
            proof {
                lemma_question_range(request.candidates@, providers@, 0, 0, i as int);
            }
            if let Resolution::Unsupported(reason) = &answers[i] {
                text = cat6(
                    "candidate ",
                    decimal_text(candidate as u64 + 1).as_str(),
                    " through `",
                    providers[provider].name.as_str(),
                    "`: ",
                    reason.as_str(),
                );
            }
        }
        let ghost added = text@;
        shown.push(text);
        assert(added == refusal_text(request.candidates@, providers@, answers@, i as int));
        assert(views(shown@) =~= views(held).push(added));
        assert(wanted.take(i + 1) =~= wanted.take(i as int).push(added));
        i += 1;
    }
    assert(wanted.take(i as int) =~= wanted);
    join(&shown, "; ")
}

/// The entries of the handle of a requirement.
pub open spec fn handle_entries(requirement: Requirement) -> Seq<(Seq<char>, JsonTree)> {
    let selected = requirement.candidates@[requirement.selected as int];
    let e = Seq::<(Seq<char>, JsonTree)>::empty();
    let e = with_entry(e, "kind"@, JsonTree::Text(requirement.kind.wire()));
    let e = with_entry(e, "name"@, JsonTree::Text(selected.product()));
    let e = with_entry(e, "choice"@, JsonTree::Text(requirement.choice.wire()));
    let e = with_entry(e, "alternative"@, JsonTree::Integer(requirement.selected + 1));
    let e = with_entry(e, "provider"@, JsonTree::Text(requirement.binding.provider@));
    let e = with_entry(
        e,
        "publications"@,
        object_tree(
            with_entry(
                Seq::empty(),
                "commands"@,
                JsonTree::Array(
                    crate::json::text_trees(requirement.binding.publications.commands@),
                ),
            ),
        ),
    );
    let e = match selected.least() {
        Some(minimum) => with_entry(e, "minimum"@, JsonTree::Text(minimum@)),
        None => e,
    };
    match requirement.binding.package {
        Some(package) => with_entry(e, "package"@, JsonTree::Text(package@)),
        None => e,
    }
}

pub(crate) fn text_items(list: &Vec<String>) -> (r: FrozenValue)
    requires
        list@.len() <= i64::MAX,
    ensures
        r.tree() == JsonTree::Array(crate::json::text_trees(list@)),
        r.ordered(),
{
    let mut items: Vec<FrozenValue> = Vec::new();
    let mut i: usize = 0;
    while i < list.len()
        invariant
            0 <= i <= list@.len() <= i64::MAX,
            items@.len() == i,
            forall|j: int|
                0 <= j < i ==> (#[trigger] items@[j]).tree() == JsonTree::Text(list@[j]@)
                    && items@[j].ordered(),
        decreases list@.len() - i,
    {
        items.push(FrozenValue::String(list[i].clone()));
        i += 1;
    }
    proof {
        crate::model::frozen::lemma_items(items@);
        assert(crate::model::frozen::item_trees(items@) =~= crate::json::text_trees(list@));
    }
    FrozenValue::Array(items)
}

pub(crate) fn put_text(entries: &mut Vec<(String, FrozenValue)>, key: &str, text: &str)
    requires
        ascending(keys(old(entries)@)),
        entries_ordered(old(entries)@),
    ensures
        entry_trees(final(entries)@) == with_entry(
            entry_trees(old(entries)@),
            key@,
            JsonTree::Text(text@),
        ),
        ascending(keys(final(entries)@)),
        entries_ordered(final(entries)@),
{
    insert_entry(entries, key.to_owned(), FrozenValue::String(text.to_owned()));
}

/// What configuration code sees of a resolved requirement.
pub fn resolved_requirement_handle(requirement: &Requirement) -> (r: FrozenValue)
    requires
        requirement.selected < requirement.candidates@.len(),
        requirement.binding.publications.commands@.len() <= i64::MAX,
    ensures
        r.tree() == object_tree(handle_entries(*requirement)),
        r.ordered(),
{
    let selected = &requirement.candidates[requirement.selected as usize];
    let mut entries: Vec<(String, FrozenValue)> = Vec::new();
    assert(keys(entries@) =~= Seq::empty());
    assert(entry_trees(entries@) =~= Seq::empty());
    put_text(&mut entries, "kind", requirement.kind.wire_name());
    put_text(&mut entries, "name", selected.name());
    put_text(&mut entries, "choice", requirement.choice.wire_name());
    insert_entry(
        &mut entries,
        "alternative".to_owned(),
        FrozenValue::Integer(requirement.selected as i64 + 1),
    );
    put_text(&mut entries, "provider", requirement.binding.provider.as_str());
    let mut published: Vec<(String, FrozenValue)> = Vec::new();
    assert(keys(published@) =~= Seq::empty());
    assert(entry_trees(published@) =~= Seq::empty());
    insert_entry(
        &mut published,
        "commands".to_owned(),
        text_items(&requirement.binding.publications.commands),
    );
    insert_entry(&mut entries, "publications".to_owned(), FrozenValue::Table(published));
    if let Some(minimum) = selected.minimum() {
        put_text(&mut entries, "minimum", minimum);
    }
    if let Some(package) = &requirement.binding.package {
        put_text(&mut entries, "package", package.as_str());
    }
    FrozenValue::Table(entries)
}

/// Settles a requirement from the answers of the providers: the first one that
/// takes a candidate binds it.
pub fn declare_requirement(
    modules: &ModuleRegistry,
    registry: &mut RequirementRegistry,
    request: RequirementRequest,
    answers: Vec<Resolution>,
    location: Location,
) -> (r: Result<FrozenValue>)
    requires
        answered(request, old(registry).providers@, answers@),
        request.candidates@.len() <= u32::MAX,
        forall|i: int|
            0 <= i < answers@.len() && (#[trigger] answers@[i]) is Bound
                ==> answers@[i]->Bound_0.publications.commands@.len() <= i64::MAX,
    ensures
        reports(
            r,
            settling_problem(
                request,
                old(registry).providers@,
                answers@,
                location.trace.text(),
            ),
        ),
        r is Err ==> *final(registry) == *old(registry),
        r matches Ok(handle) ==> {
            &&& final(registry).providers == old(registry).providers
            &&& final(registry).requirements@.len() == old(registry).requirements@.len() + 1
            &&& final(registry).requirements@.drop_last() == old(registry).requirements@
            &&& requirement_is(
                final(registry).requirements@.last(),
                modules.owner(),
                request,
                old(registry).providers@,
                answers@,
                location,
            )
            &&& handle.tree() == object_tree(
                handle_entries(final(registry).requirements@.last()),
            )
        },
{
    let ghost given = answers@;
    let (attempts, index, selected) = record_attempts(&request, &registry.providers, &answers);
    let index: usize = match index {
        Some(index) => index,
        None => {
            match next_question(&request.candidates, &registry.providers, answers.len()) {
                Err(error) => {
                    return Err(error);
                },
                Ok(_) => {},
            }
            let reasons = refusals(&request, &registry.providers, &answers);
            let front = cat6(
                "no configured provider can resolve ",
                request.kind.wire_name(),
                " requirement `",
                request.name.as_str(),
                "` at ",
                location.display().as_str(),
            );
            return Err(
                WombatError::Configuration(cat3(front.as_str(), ": ", reasons.as_str())),
            );
        },
    };
    proof {
        assert(answered(request, registry.providers@, given));
        assert(next_of(request.candidates@, registry.providers@, index as int) is Ask);
        lemma_question_range(request.candidates@, registry.providers@, 0, 0, index as int);
        assert(given[index as int] is Bound);
    }
    let mut answers = answers;
    let binding = match answers.remove(index) {
        Resolution::Bound(binding) => binding,
        Resolution::Unsupported(reason) => {
            return Err(WombatError::Configuration(reason));
        },
    };
    let choice = if !request.preferred {
        RequirementChoice::Required
    } else if selected == 0 {
        RequirementChoice::Preferred
    } else {
        RequirementChoice::Accepted
    };
    let requirement = Requirement {
        kind: request.kind,
        owner: modules.current_owner(),
        declared_at: location.trace,
        candidates: request.candidates,
        attempts,
        selected,
        choice,
        binding,
        when: request.when,
    };
    let handle = resolved_requirement_handle(&requirement);
    assert(bound_at(given, index as int));
    registry.requirements.push(requirement);
    assert(registry.requirements@.drop_last() =~= old(registry).requirements@);
    Ok(handle)
}

/// Whether one question stands before another: about an earlier candidate, or to an
/// earlier provider about the same.
pub open spec fn asked_before(a: Question, b: Question) -> bool {
    &&& a is Ask
    &&& b is Ask
    &&& a->Ask_candidate < b->Ask_candidate || (a->Ask_candidate == b->Ask_candidate && a->provider
        < b->provider)
}

proof fn lemma_question_from(
    candidates: Seq<RequirementCandidate>,
    providers: Seq<Provider>,
    candidate: int,
    provider: int,
    tried: int,
)
    requires
        0 <= candidate,
        0 <= provider,
    ensures
        question(candidates, providers, candidate, provider, tried) matches Question::Ask {
            candidate: c,
            provider: p,
        } ==> (candidate < c || (candidate == c && provider <= p)) && c < candidates.len() && 0
            <= p < providers.len() && applies(candidates[c], providers[p]),
    decreases candidates.len() - candidate, providers.len() - provider,
{
    if candidate >= candidates.len() {
    } else if misses_provider(candidates[candidate], providers) {
    } else if provider >= providers.len() {
        lemma_question_from(candidates, providers, candidate + 1, 0, tried);
    } else if !applies(candidates[candidate], providers[provider]) {
        lemma_question_from(candidates, providers, candidate, provider + 1, tried);
    } else if tried <= 0 {
    } else {
        lemma_question_from(candidates, providers, candidate, provider + 1, tried - 1);
    }
}

proof fn lemma_questions_ordered(
    candidates: Seq<RequirementCandidate>,
    providers: Seq<Provider>,
    candidate: int,
    provider: int,
    earlier: int,
    later: int,
)
    requires
        0 <= candidate,
        0 <= provider,
        0 <= earlier < later,
        question(candidates, providers, candidate, provider, later) is Ask,
        question(candidates, providers, candidate, provider, earlier) is Ask,
    ensures
        asked_before(
            question(candidates, providers, candidate, provider, earlier),
            question(candidates, providers, candidate, provider, later),
        ),
    decreases candidates.len() - candidate, providers.len() - provider,
{
    if candidate >= candidates.len() {
    } else if misses_provider(candidates[candidate], providers) {
    } else if provider >= providers.len() {
        lemma_questions_ordered(candidates, providers, candidate + 1, 0, earlier, later);
    } else if !applies(candidates[candidate], providers[provider]) {
        lemma_questions_ordered(candidates, providers, candidate, provider + 1, earlier, later);
    } else if earlier <= 0 {
        lemma_question_from(candidates, providers, candidate, provider + 1, later - 1);
    } else {
        lemma_questions_ordered(
            candidates,
            providers,
            candidate,
            provider + 1,
            earlier - 1,
            later - 1,
        );
    }
}

/// The providers are asked in their order about one candidate after the other, only
/// about candidates that are for them, and about none twice.
pub proof fn law_questions_are_asked_in_order(
    candidates: Seq<RequirementCandidate>,
    providers: Seq<Provider>,
    earlier: int,
    later: int,
)
    requires
        0 <= earlier < later,
        next_of(candidates, providers, earlier) is Ask,
        next_of(candidates, providers, later) is Ask,
    ensures
        asked_before(
            next_of(candidates, providers, earlier),
            next_of(candidates, providers, later),
        ),
        ({
            let asked = next_of(candidates, providers, later);
            applies(candidates[asked->Ask_candidate], providers[asked->provider])
        }),
{
    lemma_question_from(candidates, providers, 0, 0, later);
    lemma_questions_ordered(candidates, providers, 0, 0, earlier, later);
}

} // verus!
