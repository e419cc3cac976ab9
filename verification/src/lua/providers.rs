//! The providers that root policy configures.
use vstd::prelude::*;
use vstd::string::*;
use vstd::utf8::encode_utf8;

use crate::digest::{digest_of, text_digest};
use crate::error::{
    configured, either, first, problem_if, reports, settles_noted, unnoted, Noted, Problem, Result,
    WombatError,
};
use crate::json::{object_tree, JsonTree};
use crate::lua::options::{
    get, map_option, option, reject_unknown_options, string_option, string_problem, take_string,
    unknown_problem,
};
use crate::lua::requirements::{provider_name_problem, validate_provider_name};
use crate::lua::state::{Location, ModuleRegistry, RequirementRegistry, TrackedSource};
use crate::model::frozen::FrozenValue;
use crate::model::manifest::{Provider, ProviderFile, ProviderOrigin, SourceTrace};
use crate::number::{decimal, decimal_text};
use crate::order::before;
use crate::text::{cat2, cat3, cat5, same, starts_with, strip_prefix};

verus! {

/// Where a configured provider was found.
#[derive(Debug, PartialEq)]
pub enum ProviderSource {
    /// It is part of Wombat
    Builtin {
        /// The version of its contract
        contract_version: u32,
        /// Whether the repository has a file of the same name
        conflicting: bool,
    },
    /// It is Lua code of the repository
    Custom {
        /// What its file holds
        source: String,
    },
}

/// The name of a configured provider.
pub open spec fn entry_name(value: FrozenValue) -> Seq<char> {
    match value {
        FrozenValue::String(name) => name@,
        FrozenValue::Table(options) => string_option(options@, "name"@),
        _ => Seq::empty(),
    }
}

/// The configuration of a configured provider.
pub open spec fn entry_config(value: FrozenValue) -> JsonTree {
    match value {
        FrozenValue::Table(options) => map_option(options@, "with"@),
        _ => object_tree(Seq::empty()),
    }
}

/// What is wrong with the shape of an entry.
pub open spec fn entry_problem(value: FrozenValue, index: int) -> Option<Seq<char>> {
    match value {
        FrozenValue::String(_) => None,
        FrozenValue::Table(options) => first(
            string_problem(options@, "name"@, "provider"@),
            first(
                problem_if(
                    option(options@, "with"@) is Some && !(option(options@, "with"@)->0 is Table),
                    "provider `"@ + string_option(options@, "name"@)
                        + "` requires map-shaped `with` options"@,
                ),
                unknown_problem(options@, seq!["name", "with"], "provider"@),
            ),
        ),
        _ => Some(
            "provider entry "@ + decimal((index + 1) as nat) + " must be a string or table"@,
        ),
    }
}

/// Whether an entry before `index` has the same name.
pub open spec fn named_before(items: Seq<FrozenValue>, index: int) -> bool {
    exists|j: int| 0 <= j < index && entry_name(#[trigger] items[j]) == entry_name(items[index])
}

/// What is wrong with where a configured provider was found.
pub open spec fn source_problem(name: Seq<char>, source: Result<ProviderSource>) -> Option<Problem> {
    match source {
        Err(error) => Some(Problem::Given(error)),
        Ok(source) => configured(
            problem_if(
                source matches ProviderSource::Builtin { conflicting, .. } && conflicting,
                "custom provider `providers/"@ + name
                    + ".lua` conflicts with reserved built-in provider `"@ + name + "`"@,
            ),
        ),
    }
}

/// What is wrong with an entry and its name.
pub open spec fn naming_problem(items: Seq<FrozenValue>, index: int) -> Option<Seq<char>> {
    let name = entry_name(items[index]);
    first(
        entry_problem(items[index], index),
        first(
            provider_name_problem(name),
            problem_if(
                named_before(items, index),
                "provider `"@ + name + "` is configured more than once"@,
            ),
        ),
    )
}

/// What is wrong with an entry.
pub open spec fn provider_problem(
    items: Seq<FrozenValue>,
    sources: Seq<Result<ProviderSource>>,
    index: int,
) -> Option<Problem> {
    let name = entry_name(items[index]);
    either(
        configured(naming_problem(items, index)),
        either(
            source_problem(name, sources[index]),
            configured(problem_if(index > u32::MAX, "too many configured providers"@)),
        ),
    )
}

/// Where the file of a custom provider must be.
pub open spec fn place_note(name: Seq<char>) -> Seq<char> {
    "custom provider `"@ + name + "` must be defined at `providers/"@ + name + ".lua`"@
}

/// What is to be said of the first problem of the first `count` entries: where the file of
/// a custom provider must be, if it is that this could not be loaded.
pub open spec fn providers_note(
    items: Seq<FrozenValue>,
    sources: Seq<Result<ProviderSource>>,
    count: int,
) -> Option<Seq<char>>
    decreases count,
{
    if count <= 0 {
        None
    } else if providers_problem(items, sources, count - 1) is Some {
        providers_note(items, sources, count - 1)
    } else if naming_problem(items, count - 1) is None && sources[count - 1] is Err {
        Some(place_note(entry_name(items[count - 1])))
    } else {
        None
    }
}

/// What is wrong with the first `count` entries.
pub open spec fn providers_problem(
    items: Seq<FrozenValue>,
    sources: Seq<Result<ProviderSource>>,
    count: int,
) -> Option<Problem>
    decreases count,
{
    if count <= 0 {
        None
    } else {
        either(
            providers_problem(items, sources, count - 1),
            provider_problem(items, sources, count - 1),
        )
    }
}

proof fn lemma_providers_problem(
    items: Seq<FrozenValue>,
    sources: Seq<Result<ProviderSource>>,
    count: int,
    more: int,
)
    requires
        0 <= count <= more,
    ensures
        providers_problem(items, sources, count) is Some ==> providers_problem(
            items,
            sources,
            more,
        ) == providers_problem(items, sources, count) && providers_note(items, sources, more)
            == providers_note(items, sources, count),
    decreases more - count,
{
    if count < more {
        lemma_providers_problem(items, sources, count, more - 1);
    }
}

/// Whether the origin of a provider follows from where it was found.
pub open spec fn provider_origin_is(
    origin: ProviderOrigin,
    name: Seq<char>,
    source: ProviderSource,
) -> bool {
    match source {
        ProviderSource::Builtin { contract_version, .. } => origin matches
            ProviderOrigin::Builtin { contract_version: v } && v == contract_version,
        ProviderSource::Custom { source } => origin matches ProviderOrigin::Custom {
            entrypoint,
            files,
        } && entrypoint@ == name + ".lua"@ && files@.len() == 1 && files@[0].source@
            == "providers/"@ + name + ".lua"@ && files@[0].payload@ == name + ".lua"@
            && files@[0].digest@ == digest_of(encode_utf8(source@)) && files@[0].size
            == encode_utf8(source@).len(),
    }
}

/// Whether a provider is the configured one.
pub open spec fn provider_is(
    provider: Provider,
    value: FrozenValue,
    index: int,
    source: ProviderSource,
    trace: SourceTrace,
) -> bool {
    &&& provider.name@ == entry_name(value)
    &&& provider.priority == index
    &&& provider.config.tree() == entry_config(value)
    &&& provider_origin_is(provider.origin, entry_name(value), source)
    &&& provider.declared_at.same(trace)
}

/// What is wrong with when providers are configured.
pub open spec fn timing_problem(
    modules: ModuleRegistry,
    registry: RequirementRegistry,
    declared: bool,
    place: Seq<char>,
) -> Option<Seq<char>> {
    first(
        problem_if(
            modules.active() is Some,
            "w.providers() belongs to root policy at "@ + place,
        ),
        first(
            problem_if(
                registry.providers@.len() > 0,
                "w.providers() may be declared only once; repeated at "@ + place,
            ),
            problem_if(
                modules.records@.len() > 0 || registry.requirements@.len() > 0 || declared,
                "w.providers() must run before use(), using(), install(), need(), generate(), or build.task() at "@
                    + place,
            ),
        ),
    )
}

/// The entries that root policy configures.
pub open spec fn provider_items(entries: FrozenValue) -> Seq<FrozenValue> {
    match entries {
        FrozenValue::Array(items) => items@,
        _ => Seq::empty(),
    }
}

/// What is wrong with configuring providers, before the entries are read.
pub open spec fn beginning_problem(
    modules: ModuleRegistry,
    registry: RequirementRegistry,
    declared: bool,
    entries: FrozenValue,
    place: Seq<char>,
) -> Option<Seq<char>> {
    first(
        problem_if(
            !(entries is Array) && !(entries matches FrozenValue::Table(options) && options@.len()
                == 0),
            "w.providers() requires an array of provider names or provider option tables"@,
        ),
        timing_problem(modules, registry, declared, place),
    )
}

fn read_entry(value: &FrozenValue, index: usize) -> (r: Result<(String, FrozenValue)>)
    requires
        index < u64::MAX,
    ensures
        reports(r, entry_problem(*value, index as int)),
        r matches Ok(entry) ==> entry.0@ == entry_name(*value) && entry.1.tree() == entry_config(
            *value,
        ),
{
    match value {
        FrozenValue::String(name) => Ok((name.clone(), FrozenValue::empty_map())),
        FrozenValue::Table(options) => {
            let name = take_string(options, "name", "provider")?;
            let config = match get(options, "with") {
                None => FrozenValue::empty_map(),
                Some(value) => match value {
                    FrozenValue::Table(_) => value.copy(),
                    _ => {
                        return Err(
                            WombatError::Configuration(
                                cat3(
                                    "provider `",
                                    name.as_str(),
                                    "` requires map-shaped `with` options",
                                ),
                            ),
                        );
                    },
                },
            };
            let known = ["name", "with"];
            assert(known@ =~= seq!["name", "with"]);
            reject_unknown_options(options, &known, "provider")?;
            Ok((name, config))
        },
        _ => Err(
            WombatError::Configuration(
                cat3(
                    "provider entry ",
                    decimal_text(index as u64 + 1).as_str(),
                    " must be a string or table",
                ),
            ),
        ),
    }
}

/// Reads the name of an entry, for looking up where its provider is.
pub fn read_name(value: &FrozenValue, index: usize) -> (r: Result<String>)
    requires
        index < u64::MAX,
    ensures
        reports(r, entry_problem(*value, index as int)),
        r matches Ok(name) ==> name@ == entry_name(*value),
{
    let (name, _) = read_entry(value, index)?;
    Ok(name)
}

fn origin_of(name: &str, source: &ProviderSource) -> (r: Result<ProviderOrigin>)
    ensures
        reports(
            r,
            problem_if(
                *source matches ProviderSource::Builtin { conflicting, .. } && conflicting,
                "custom provider `providers/"@ + name@
                    + ".lua` conflicts with reserved built-in provider `"@ + name@ + "`"@,
            ),
        ),
        r matches Ok(origin) ==> provider_origin_is(origin, name@, *source),
{
    match source {
        ProviderSource::Builtin { contract_version, conflicting } => {
            if *conflicting {
                return Err(
                    WombatError::Configuration(
                        cat5(
                            "custom provider `providers/",
                            name,
                            ".lua` conflicts with reserved built-in provider `",
                            name,
                            "`",
                        ),
                    ),
                );
            }
            Ok(ProviderOrigin::Builtin { contract_version: *contract_version })
        },
        ProviderSource::Custom { source } => {
            let mut files: Vec<ProviderFile> = Vec::new();
            files.push(
                ProviderFile {
                    source: cat3("providers/", name, ".lua"),
                    payload: cat2(name, ".lua"),
                    digest: text_digest(source.as_str()),
                    size: source.as_str().as_bytes().len() as u64,
                },
            );
            Ok(ProviderOrigin::Custom { entrypoint: cat2(name, ".lua"), files })
        },
    }
}

fn is_named(list: &Vec<Provider>, name: &str) -> (r: bool)
    ensures
        r == exists|j: int| 0 <= j < list@.len() && (#[trigger] list@[j]).name@ == name@,
{
    let mut i: usize = 0;
    while i < list.len()
        invariant
            0 <= i <= list@.len(),
            forall|j: int| 0 <= j < i ==> (#[trigger] list@[j]).name@ != name@,
        decreases list@.len() - i,
    {
        if same(list[i].name.as_str(), name) {
            assert(list@[i as int].name@ == name@);
            return true;
        }
        i += 1;
    }
    false
}

/// Reads the configured providers, one after the other.
fn read_providers(
    items: &Vec<FrozenValue>,
    sources: Vec<Result<ProviderSource>>,
    trace: &SourceTrace,
) -> (r: std::result::Result<Vec<Provider>, Noted>)
    requires
        sources@.len() >= items@.len(),
        items@.len() < u64::MAX,
    ensures
        settles_noted(
            r,
            providers_problem(items@, sources@, items@.len() as int),
            providers_note(items@, sources@, items@.len() as int),
        ),
        r matches Ok(list) ==> list@.len() == items@.len() && forall|i: int|
            0 <= i < list@.len() ==> provider_is(
                #[trigger] list@[i],
                items@[i],
                i,
                sources@[i]->Ok_0,
                *trace,
            ),
{
    let ghost given = sources@;
    let mut rest = sources;
    let mut list: Vec<Provider> = Vec::new();
    let mut i: usize = 0;
    while i < items.len()
        invariant
            0 <= i <= items@.len() <= given.len(),
            items@.len() < u64::MAX,
            rest@ == given,
            given == sources@,
            providers_problem(items@, given, i as int) is None,
            list@.len() == i,
            forall|j: int|
                0 <= j < i ==> provider_is(
                    #[trigger] list@[j],
                    items@[j],
                    j,
                    given[j]->Ok_0,
                    *trace,
                ),
        decreases items@.len() - i,
    {
        proof {
            lemma_providers_problem(items@, given, i + 1, items@.len() as int);
        }
        let (name, config) = unnoted(read_entry(&items[i], i))?;
        unnoted(validate_provider_name(name.as_str()))?;
        if is_named(&list, name.as_str()) {
            proof {
                let j = choose|j: int| 0 <= j < list@.len() && (#[trigger] list@[j]).name@ == name@;
                assert(provider_is(list@[j], items@[j], j, given[j]->Ok_0, *trace));
                assert(entry_name(items@[j]) == entry_name(items@[i as int]));
            }
            let error = WombatError::Configuration(
                cat3("provider `", name.as_str(), "` is configured more than once"),
            );
            return Err(Noted { error, note: None });
        }
        assert(!named_before(items@, i as int)) by {
            if named_before(items@, i as int) {
                let j = choose|j: int|
                    0 <= j < i && entry_name(#[trigger] items@[j]) == entry_name(items@[i as int]);
                assert(provider_is(list@[j], items@[j], j, given[j]->Ok_0, *trace));
                assert(list@[j].name@ == name@);
            }
        }
        if rest[i].is_err() {
            return match rest.remove(i) {
                Err(error) => {
                    let note = cat5(
                        "custom provider `",
                        name.as_str(),
                        "` must be defined at `providers/",
                        name.as_str(),
                        ".lua`",
                    );
                    Err(Noted { error, note: Some(note) })
                },
                Ok(_) => Ok(list),
            };
        }
        let origin = match &rest[i] {
            Ok(source) => unnoted(origin_of(name.as_str(), source))?,
            Err(_) => {
                return Ok(list);
            },
        };
        if i as u64 > 4294967295u64 {
            let error = WombatError::configuration("too many configured providers");
            return Err(Noted { error, note: None });
        }
        list.push(
            Provider { name, priority: i as u32, config, origin, declared_at: trace.copy() },
        );
        i += 1;
    }
    Ok(list)
}

/// Makes sure that providers may be configured, and takes their entries.
fn begin_providers(
    modules: &ModuleRegistry,
    registry: &RequirementRegistry,
    declared: bool,
    entries: FrozenValue,
    location: &Location,
) -> (r: Result<Vec<FrozenValue>>)
    ensures
        reports(
            r,
            beginning_problem(*modules, *registry, declared, entries, location.trace.text()),
        ),
        r matches Ok(items) ==> items@ == provider_items(entries),
{
    let items = match entries {
        FrozenValue::Array(items) => items,
        FrozenValue::Table(options) => {
            if options.len() > 0 {
                return Err(
                    WombatError::configuration(
                        "w.providers() requires an array of provider names or provider option tables",
                    ),
                );
            }
            Vec::new()
        },
        _ => {
            return Err(
                WombatError::configuration(
                    "w.providers() requires an array of provider names or provider option tables",
                ),
            );
        },
    };
    assert(items@ =~= provider_items(entries));
    if modules.active_module().is_some() {
        return Err(
            WombatError::Configuration(
                cat2(
                    "w.providers() belongs to root policy at ",
                    location.display().as_str(),
                ),
            ),
        );
    }
    if registry.providers.len() > 0 {
        return Err(
            WombatError::Configuration(
                cat2(
                    "w.providers() may be declared only once; repeated at ",
                    location.display().as_str(),
                ),
            ),
        );
    }
    if modules.records.len() > 0 || registry.requirements.len() > 0 || declared {
        return Err(
            WombatError::Configuration(
                cat2(
                    "w.providers() must run before use(), using(), install(), need(), generate(), or build.task() at ",
                    location.display().as_str(),
                ),
            ),
        );
    }
    Ok(items)
}

/// Configures the providers, in the order of preference. Root policy does so once,
/// before everything that needs them; `declared` tells whether artifacts or tasks
/// were declared already. `sources` tells of each entry where its provider was found;
/// those behind a faulty entry do not matter.
pub fn configure_providers(
    modules: &mut ModuleRegistry,
    registry: &mut RequirementRegistry,
    declared: bool,
    entries: Result<FrozenValue>,
    sources: Vec<Result<ProviderSource>>,
    location: &Location,
) -> (r: std::result::Result<(), Noted>)
    requires
        entries matches Ok(value) ==> provider_items(value).len() <= sources@.len()
            && provider_items(value).len() < u64::MAX,
    ensures
        match entries {
            Err(error) => r is Err && r->Err_0.error == error && r->Err_0.note is None,
            Ok(value) => settles_noted(
                r,
                either(
                    configured(
                        beginning_problem(
                            *old(modules),
                            *old(registry),
                            declared,
                            value,
                            location.trace.text(),
                        ),
                    ),
                    providers_problem(
                        provider_items(value),
                        sources@,
                        provider_items(value).len() as int,
                    ),
                ),
                if beginning_problem(
                    *old(modules),
                    *old(registry),
                    declared,
                    value,
                    location.trace.text(),
                ) is Some {
                    None
                } else {
                    providers_note(
                        provider_items(value),
                        sources@,
                        provider_items(value).len() as int,
                    )
                },
            ),
        },
        r is Err ==> *final(registry) == *old(registry),
        *final(modules) == if entries is Ok && beginning_problem(
            *old(modules),
            *old(registry),
            declared,
            entries->Ok_0,
            location.trace.text(),
        ) is None {
            ModuleRegistry { root_policy_started: true, ..*old(modules) }
        } else {
            *old(modules)
        },
        r is Ok ==> {
            let items = provider_items(entries->Ok_0);
            &&& final(registry).requirements == old(registry).requirements
            &&& final(registry).providers@.len() == items.len()
            &&& forall|i: int|
                0 <= i < items.len() ==> provider_is(
                    #[trigger] final(registry).providers@[i],
                    items[i],
                    i,
                    sources@[i]->Ok_0,
                    location.trace,
                )
        },
{
    let entries = unnoted(entries)?;
    let items = unnoted(begin_providers(modules, registry, declared, entries, location))?;
    modules.root_policy_started = true;
    let providers = read_providers(&items, sources, &location.trace)?;
    registry.providers = providers;
    Ok(())
}

/// Whether a tracked source belongs to a provider.
pub open spec fn belongs(provider: Seq<char>, path: Seq<char>) -> bool {
    path == "providers/"@ + provider + ".lua"@ || ("providers/"@ + provider
        + "/"@).is_prefix_of(path)
}

/// Whether a file records a tracked source.
pub open spec fn file_is(file: ProviderFile, source: TrackedSource) -> bool {
    &&& file.source@ == source.manifest.path@
    &&& "providers/"@ + file.payload@ == source.manifest.path@
    &&& file.digest@ == source.manifest.digest@
    &&& file.size == encode_utf8(source.snapshot@).len()
}

/// The tracked sources that belong to a provider.
pub open spec fn provider_sources(sources: Seq<TrackedSource>, provider: Seq<char>) -> Seq<
    TrackedSource,
>
    decreases sources.len(),
{
    if sources.len() == 0 {
        Seq::empty()
    } else {
        let rest = provider_sources(sources.drop_last(), provider);
        if belongs(provider, sources.last().manifest.path@) {
            rest.push(sources.last())
        } else {
            rest
        }
    }
}

/// The files of a custom provider: its own file and its helpers, in the order of
/// the tracked sources, which is that of their paths.
pub fn record_provider_sources(sources: &Vec<TrackedSource>, provider: &str) -> (r: Vec<
    ProviderFile,
>)
    ensures
        r@.len() == provider_sources(sources@, provider@).len(),
        forall|i: int|
            0 <= i < r@.len() ==> file_is(
                #[trigger] r@[i],
                provider_sources(sources@, provider@)[i],
            ),
{
    let prefix = cat3("providers/", provider, "/");
    let entrypoint = cat3("providers/", provider, ".lua");
    let mut files: Vec<ProviderFile> = Vec::new();
    let mut i: usize = 0;
    assert(sources@.take(0) =~= Seq::empty());
    while i < sources.len()
        invariant
            0 <= i <= sources@.len(),
            prefix@ == "providers/"@ + provider@ + "/"@,
            entrypoint@ == "providers/"@ + provider@ + ".lua"@,
            files@.len() == provider_sources(sources@.take(i as int), provider@).len(),
            forall|j: int|
                0 <= j < files@.len() ==> file_is(
                    #[trigger] files@[j],
                    provider_sources(sources@.take(i as int), provider@)[j],
                ),
        decreases sources@.len() - i,
    {
        assert(sources@.take(i + 1).drop_last() =~= sources@.take(i as int));
        assert(sources@.take(i + 1).last() == sources@[i as int]);
        let path = sources[i].manifest.path.as_str();
        if same(path, entrypoint.as_str()) || starts_with(path, prefix.as_str()) {
            proof {
                let whole = path@;
                if whole == entrypoint@ {
                    assert(whole.subrange(0, "providers/"@.len() as int) =~= "providers/"@);
                } else {
                    assert(whole.subrange(0, prefix@.len() as int) == prefix@);
                    assert(whole.subrange(0, "providers/"@.len() as int) =~= "providers/"@) by {
                        assert forall|k: int| 0 <= k < "providers/"@.len() implies whole[k]
                            == "providers/"@[k] by {
                            assert(whole.subrange(0, prefix@.len() as int)[k] == prefix@[k]);
                        }
                    }
                }
            }
            if let Some(payload) = strip_prefix(path, "providers/") {
                files.push(
                    ProviderFile {
                        source: sources[i].manifest.path.clone(),
                        payload,
                        digest: sources[i].manifest.digest.clone(),
                        size: sources[i].snapshot.as_str().as_bytes().len() as u64,
                    },
                );
            }
        }
        i += 1;
    }
    assert(sources@.take(i as int) =~= sources@);
    files
}

} // verus!
