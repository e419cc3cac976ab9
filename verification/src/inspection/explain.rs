//! Why a product holds what it holds.
use vstd::prelude::*;
use vstd::string::*;

use crate::digest::{digest, digest_of};
use crate::error::{is_configuration, reports, Result, WombatError};
use crate::inspection::items::{
    chosen_exists, production_name, production_text, render_requirement, render_revision,
    requirement_text, revision_text, truth, truth_name,
};
use crate::inspection::sections::{listed, render_list};
use crate::json::{compact, compact_text, JsonTree};
use crate::model::frozen::frozen_value;
use crate::model::manifest::{
    Artifact, Dependency, Manifest, ManifestModule, Production, Provider, ProviderPreparation,
    Requirement, RequirementKind, SourceFile, Task,
};
use crate::model::path::{join_path, path_join};
use crate::model::wire::{
    provider_origin_value, publications_value, resolution_attempt_trees, resolution_attempt_values,
    source_origin_value, target_origin_value, task_runner_value,
};
use crate::number::{decimal, decimal_text};
use crate::text::{
    cat2, cat3, cat4, cat5, cat6, cat7, cut, decode, decoded, join, joined, lines, lines_of, pieces,
    replace_char, replaced, same, split, split_once, starts_with, strip_prefix, views,
};

verus! {

/// The first task with an identity.
pub open spec fn task_named(tasks: Seq<Task>, identity: Seq<char>) -> Option<Task>
    decreases tasks.len(),
{
    if tasks.len() == 0 {
        None
    } else if tasks[0].identity@ == identity {
        Some(tasks[0])
    } else {
        task_named(tasks.skip(1), identity)
    }
}

fn find_task<'a>(tasks: &'a Vec<Task>, identity: &str) -> (r: Option<&'a Task>)
    ensures
        match r {
            Some(task) => task_named(tasks@, identity@) == Some(*task),
            None => task_named(tasks@, identity@) is None,
        },
{
    let mut i: usize = 0;
    assert(tasks@.skip(0) =~= tasks@);
    while i < tasks.len()
        invariant
            0 <= i <= tasks@.len(),
            task_named(tasks@, identity@) == task_named(tasks@.skip(i as int), identity@),
        decreases tasks@.len() - i,
    {
        assert(tasks@.skip(i as int)[0] == tasks@[i as int]);
        assert(tasks@.skip(i as int).skip(1) =~= tasks@.skip(i + 1));
        if same(tasks[i].identity.as_str(), identity) {
            return Some(&tasks[i]);
        }
        i += 1;
    }
    None
}

/// The first provider with a name.
pub open spec fn provider_named(providers: Seq<Provider>, name: Seq<char>) -> Option<Provider>
    decreases providers.len(),
{
    if providers.len() == 0 {
        None
    } else if providers[0].name@ == name {
        Some(providers[0])
    } else {
        provider_named(providers.skip(1), name)
    }
}

pub fn find_provider<'a>(providers: &'a Vec<Provider>, name: &str) -> (r: Option<&'a Provider>)
    ensures
        match r {
            Some(provider) => provider_named(providers@, name@) == Some(*provider),
            None => provider_named(providers@, name@) is None,
        },
{
    let mut i: usize = 0;
    assert(providers@.skip(0) =~= providers@);
    while i < providers.len()
        invariant
            0 <= i <= providers@.len(),
            provider_named(providers@, name@) == provider_named(providers@.skip(i as int), name@),
        decreases providers@.len() - i,
    {
        assert(providers@.skip(i as int)[0] == providers@[i as int]);
        assert(providers@.skip(i as int).skip(1) =~= providers@.skip(i + 1));
        if same(providers[i].name.as_str(), name) {
            return Some(&providers[i]);
        }
        i += 1;
    }
    None
}

/// The first preparation with an identity behind the name of its provider.
pub open spec fn preparation_named(
    preparations: Seq<ProviderPreparation>,
    identity: Seq<char>,
) -> Option<ProviderPreparation>
    decreases preparations.len(),
{
    if preparations.len() == 0 {
        None
    } else if preparations[0].provider@ + ":"@ + preparations[0].identity@ == identity {
        Some(preparations[0])
    } else {
        preparation_named(preparations.skip(1), identity)
    }
}

fn find_preparation<'a>(preparations: &'a Vec<ProviderPreparation>, identity: &str) -> (r: Option<
    &'a ProviderPreparation,
>)
    ensures
        match r {
            Some(operation) => preparation_named(preparations@, identity@) == Some(*operation),
            None => preparation_named(preparations@, identity@) is None,
        },
{
    let mut i: usize = 0;
    assert(preparations@.skip(0) =~= preparations@);
    while i < preparations.len()
        invariant
            0 <= i <= preparations@.len(),
            preparation_named(preparations@, identity@) == preparation_named(
                preparations@.skip(i as int),
                identity@,
            ),
        decreases preparations@.len() - i,
    {
        assert(preparations@.skip(i as int)[0] == preparations@[i as int]);
        assert(preparations@.skip(i as int).skip(1) =~= preparations@.skip(i + 1));
        let own = cat3(
            preparations[i].provider.as_str(),
            ":",
            preparations[i].identity.as_str(),
        );
        if same(own.as_str(), identity) {
            return Some(&preparations[i]);
        }
        i += 1;
    }
    None
}

/// What is told of a task.
pub open spec fn task_explained(manifest: Manifest, v: Task) -> Seq<char> {
    "Task "@ + v.identity@ + "\n  build: "@ + manifest.build_id@ + "\n  plan: "@
        + manifest.plan_id@ + "\n  owner: "@ + v.owner@ + "\n  entrypoint: "@ + v.entrypoint@
        + "\n  entrypoint digest: "@ + v.entrypoint_digest@ + "\n  runner: "@ + compact(
        v.runner.tree(),
    ) + "\n  params: "@ + compact(v.params.tree()) + "\n  cache: "@ + truth(v.cache.enabled)
        + revision_text(v.cache) + "\n  logs: "@ + v.logs.label() + "\n  outputs: "@ + decimal(
        v.outputs@.len(),
    ) + "\n  declared at: "@ + v.declared_at.text() + "\n"@
}

fn explain_task(manifest: &Manifest, v: &Task) -> (r: String)
    ensures
        r@ == task_explained(*manifest, *v),
{
    let text = cat7(
        "Task ",
        v.identity.as_str(),
        "\n  build: ",
        manifest.build_id.as_str(),
        "\n  plan: ",
        manifest.plan_id.as_str(),
        "\n  owner: ",
    );
    let text = cat6(
        text.as_str(),
        v.owner.as_str(),
        "\n  entrypoint: ",
        v.entrypoint.as_str(),
        "\n  entrypoint digest: ",
        v.entrypoint_digest.as_str(),
    );
    let text = cat5(
        text.as_str(),
        "\n  runner: ",
        compact_text(&task_runner_value(&v.runner)).as_str(),
        "\n  params: ",
        compact_text(&frozen_value(&v.params)).as_str(),
    );
    let text = cat6(
        text.as_str(),
        "\n  cache: ",
        truth_name(v.cache.enabled),
        render_revision(&v.cache).as_str(),
        "\n  logs: ",
        v.logs.label_name(),
    );
    cat6(
        text.as_str(),
        "\n  outputs: ",
        decimal_text(v.outputs.len() as u64).as_str(),
        "\n  declared at: ",
        v.declared_at.display().as_str(),
        "\n",
    )
}

/// The preparations of a provider.
pub open spec fn own_preparations(
    preparations: Seq<ProviderPreparation>,
    provider: Seq<char>,
) -> Seq<Seq<char>>
    decreases preparations.len(),
{
    if preparations.len() == 0 {
        Seq::empty()
    } else {
        let rest = own_preparations(preparations.drop_last(), provider);
        let last = preparations.last();
        if last.provider@ == provider {
            rest.push(
                last.identity@ + ": "@ + last.description@ + " (elevated="@ + truth(last.elevated)
                    + ")"@,
            )
        } else {
            rest
        }
    }
}

fn list_own_preparations(preparations: &Vec<ProviderPreparation>, provider: &str) -> (r: Vec<String>)
    ensures
        views(r@) == own_preparations(preparations@, provider@),
{
    let mut r: Vec<String> = Vec::new();
    let mut i: usize = 0;
    assert(preparations@.take(0) =~= Seq::empty());
    assert(views(r@) =~= Seq::empty());
    while i < preparations.len()
        invariant
            0 <= i <= preparations@.len(),
            views(r@) == own_preparations(preparations@.take(i as int), provider@),
        decreases preparations@.len() - i,
    {
        assert(preparations@.take(i + 1).drop_last() =~= preparations@.take(i as int));
        assert(preparations@.take(i + 1).last() == preparations@[i as int]);
        let operation = &preparations[i];
        if same(operation.provider.as_str(), provider) {
            let ghost sofar = r@;
            let text = cat6(
                operation.identity.as_str(),
                ": ",
                operation.description.as_str(),
                " (elevated=",
                truth_name(operation.elevated),
                ")",
            );
            let ghost line = text@;
            r.push(text);
            assert(views(r@) =~= views(sofar).push(line));
        }
        i += 1;
    }
    assert(preparations@.take(i as int) =~= preparations@);
    r
}

/// What is told of a provider.
pub open spec fn provider_explained(manifest: Manifest, v: Provider) -> Seq<char> {
    "Provider "@ + v.name@ + "\n  build: "@ + manifest.build_id@ + "\n  priority: "@ + decimal(
        v.priority as nat,
    ) + "\n  origin: "@ + compact(v.origin.tree()) + "\n  config: "@ + compact(v.config.tree())
        + "\n  declared at: "@ + v.declared_at.text() + "\n"@ + listed(
        "Preparations"@,
        own_preparations(manifest.preparations@, v.name@),
    )
}

fn explain_provider(manifest: &Manifest, v: &Provider) -> (r: String)
    ensures
        r@ == provider_explained(*manifest, *v),
{
    let text = cat6(
        "Provider ",
        v.name.as_str(),
        "\n  build: ",
        manifest.build_id.as_str(),
        "\n  priority: ",
        decimal_text(v.priority as u64).as_str(),
    );
    let text = cat7(
        text.as_str(),
        "\n  origin: ",
        compact_text(&provider_origin_value(&v.origin)).as_str(),
        "\n  config: ",
        compact_text(&frozen_value(&v.config)).as_str(),
        "\n  declared at: ",
        v.declared_at.display().as_str(),
    );
    cat3(
        text.as_str(),
        "\n",
        render_list(
            "Preparations",
            &list_own_preparations(&manifest.preparations, v.name.as_str()),
        ).as_str(),
    )
}

/// What is told of a preparation.
pub open spec fn preparation_explained(manifest: Manifest, v: ProviderPreparation) -> Seq<char> {
    "Preparation "@ + v.provider@ + ":"@ + v.identity@ + "\n  build: "@ + manifest.build_id@
        + "\n  description: "@ + v.description@ + "\n  elevated: "@ + truth(v.elevated)
        + "\n  data: "@ + compact(v.data.tree()) + "\n"@
}

fn explain_preparation(manifest: &Manifest, v: &ProviderPreparation) -> (r: String)
    ensures
        r@ == preparation_explained(*manifest, *v),
{
    let text = cat7(
        "Preparation ",
        v.provider.as_str(),
        ":",
        v.identity.as_str(),
        "\n  build: ",
        manifest.build_id.as_str(),
        "\n  description: ",
    );
    cat7(
        text.as_str(),
        v.description.as_str(),
        "\n  elevated: ",
        truth_name(v.elevated),
        "\n  data: ",
        compact_text(&frozen_value(&v.data)).as_str(),
        "\n",
    )
}

/// Whether a requirement of this kind has a candidate with this name.
pub open spec fn asks_for(v: Requirement, kind: Seq<char>, name: Seq<char>) -> bool {
    &&& match v.kind {
        RequirementKind::Command => kind == "command"@,
        RequirementKind::Package => kind == "package"@,
    }
    &&& exists|i: int| 0 <= i < v.candidates@.len() && (#[trigger] v.candidates@[i]).product() == name
}

fn requirement_asks_for(v: &Requirement, kind: &str, name: &str) -> (r: bool)
    ensures
        r == asks_for(*v, kind@, name@),
{
    let fits = match v.kind {
        RequirementKind::Command => same(kind, "command"),
        RequirementKind::Package => same(kind, "package"),
    };
    if !fits {
        return false;
    }
    let mut i: usize = 0;
    while i < v.candidates.len()
        invariant
            0 <= i <= v.candidates@.len(),
            match v.kind {
                RequirementKind::Command => kind@ == "command"@,
                RequirementKind::Package => kind@ == "package"@,
            },
            forall|j: int| 0 <= j < i ==> (#[trigger] v.candidates@[j]).product() != name@,
        decreases v.candidates@.len() - i,
    {
        if same(v.candidates[i].name(), name) {
            return true;
        }
        i += 1;
    }
    false
}

/// What is told of one requirement among those asked for.
pub open spec fn requirement_explained(v: Requirement) -> Seq<char> {
    "  "@ + replaced(requirement_text(v), '\n', "\n  "@) + "\n  attempts: "@ + compact(
        JsonTree::Array(resolution_attempt_trees(v.attempts@)),
    ) + "\n  publications: "@ + compact(v.binding.publications.tree()) + "\n"@
}

fn explain_requirement(v: &Requirement) -> (r: String)
    requires
        chosen_exists(*v),
    ensures
        r@ == requirement_explained(*v),
{
    cat7(
        "  ",
        replace_char(render_requirement(v).as_str(), '\n', "\n  ").as_str(),
        "\n  attempts: ",
        compact_text(&resolution_attempt_values(&v.attempts)).as_str(),
        "\n  publications: ",
        compact_text(&publications_value(&v.binding.publications)).as_str(),
        "\n",
    )
}

/// What is told of the requirements that a selector names, or nothing where it
/// names none.
pub open spec fn requirements_explained(
    list: Seq<Requirement>,
    kind: Seq<char>,
    name: Seq<char>,
) -> Seq<char>
    decreases list.len(),
{
    if list.len() == 0 {
        Seq::empty()
    } else {
        let rest = requirements_explained(list.drop_last(), kind, name);
        if asks_for(list.last(), kind, name) {
            rest + requirement_explained(list.last())
        } else {
            rest
        }
    }
}

/// Whether a selector names some requirement.
pub open spec fn some_asked_for(list: Seq<Requirement>, kind: Seq<char>, name: Seq<char>) -> bool {
    exists|i: int| 0 <= i < list.len() && asks_for(#[trigger] list[i], kind, name)
}

/// Whether the chosen candidate of every requirement that a selector names is one of its
/// candidates.
pub open spec fn asked_chosen_exist(
    list: Seq<Requirement>,
    kind: Seq<char>,
    name: Seq<char>,
) -> bool {
    forall|i: int|
        0 <= i < list.len() && asks_for(#[trigger] list[i], kind, name) ==> chosen_exists(list[i])
}

fn explain_requirements(list: &Vec<Requirement>, kind: &str, name: &str) -> (r: Option<String>)
    requires
        asked_chosen_exist(list@, kind@, name@),
    ensures
        match r {
            Some(text) => some_asked_for(list@, kind@, name@) && text@ == requirements_explained(
                list@,
                kind@,
                name@,
            ),
            None => !some_asked_for(list@, kind@, name@),
        },
{
    let mut text = String::new();
    let mut found = false;
    let mut i: usize = 0;
    assert(list@.take(0) =~= Seq::empty());
    while i < list.len()
        invariant
            0 <= i <= list@.len(),
            asked_chosen_exist(list@, kind@, name@),
            text@ == requirements_explained(list@.take(i as int), kind@, name@),
            found ==> some_asked_for(list@, kind@, name@),
            !found ==> forall|j: int| 0 <= j < i ==> !asks_for(#[trigger] list@[j], kind@, name@),
        decreases list@.len() - i,
    {
        assert(list@.take(i + 1).drop_last() =~= list@.take(i as int));
        assert(list@.take(i + 1).last() == list@[i as int]);
        if requirement_asks_for(&list[i], kind, name) {
            found = true;
            text = cat2(text.as_str(), explain_requirement(&list[i]).as_str());
        }
        i += 1;
    }
    assert(list@.take(i as int) =~= list@);
    if found {
        Some(text)
    } else {
        None
    }
}

/// Whether a selector names an artifact: by its target, beneath the home directory
/// or not, or by its source.
pub open spec fn names_artifact(v: Artifact, home: Option<&str>, selector: Seq<char>) -> bool {
    ||| selector == v.target.path@
    ||| selector == v.source@
    ||| home matches Some(home) && selector == path_join(home@, v.target.path@)
}

fn artifact_named(v: &Artifact, home: Option<&str>, selector: &str) -> (r: bool)
    ensures
        r == names_artifact(*v, home, selector@),
{
    if same(selector, v.target.path.as_str()) || same(selector, v.source.as_str()) {
        return true;
    }
    match home {
        Some(home) => same(selector, join_path(home, v.target.path.as_str()).as_str()),
        None => false,
    }
}

/// The places of the artifacts that a selector names.
pub open spec fn named_places(
    list: Seq<Artifact>,
    home: Option<&str>,
    selector: Seq<char>,
) -> Seq<int>
    decreases list.len(),
{
    if list.len() == 0 {
        Seq::empty()
    } else {
        let rest = named_places(list.drop_last(), home, selector);
        if names_artifact(list.last(), home, selector) {
            rest.push(list.len() - 1)
        } else {
            rest
        }
    }
}

/// How an ambiguous selector tells its candidates apart.
pub open spec fn candidate_texts(list: Seq<Artifact>, places: Seq<int>) -> Seq<Seq<char>> {
    Seq::new(
        places.len(),
        |i: int|
            "`"@ + list[places[i]].target.path@ + "` from `"@ + list[places[i]].source@ + "`"@,
    )
}

/// What is wrong with a selector of artifacts.
pub open spec fn artifact_problem(manifest: Manifest, home: Option<&str>, selector: Seq<char>) -> Option<
    Seq<char>,
> {
    let places = named_places(manifest.artifacts@, home, selector);
    if places.len() == 0 {
        Some(
            "no artifact in build `"@ + manifest.build_id@ + "` matches `"@ + selector + "`"@,
        )
    } else if places.len() == 1 {
        None
    } else {
        Some(
            "artifact selector `"@ + selector + "` is ambiguous: "@ + joined(
                candidate_texts(manifest.artifacts@, places),
                ", "@,
            ),
        )
    }
}

fn find_places(list: &Vec<Artifact>, home: Option<&str>, selector: &str) -> (r: Vec<usize>)
    ensures
        r@.len() == named_places(list@, home, selector@).len(),
        forall|i: int|
            0 <= i < r@.len() ==> (#[trigger] r@[i]) < list@.len() && r@[i] == named_places(
                list@,
                home,
                selector@,
            )[i],
{
    let mut r: Vec<usize> = Vec::new();
    let mut i: usize = 0;
    assert(list@.take(0) =~= Seq::empty());
    while i < list.len()
        invariant
            0 <= i <= list@.len(),
            r@.len() == named_places(list@.take(i as int), home, selector@).len(),
            forall|k: int|
                0 <= k < r@.len() ==> (#[trigger] r@[k]) < list@.len() && r@[k] == named_places(
                    list@.take(i as int),
                    home,
                    selector@,
                )[k],
        decreases list@.len() - i,
    {
        assert(list@.take(i + 1).drop_last() =~= list@.take(i as int));
        assert(list@.take(i + 1).last() == list@[i as int]);
        if artifact_named(&list[i], home, selector) {
            r.push(i);
        }
        i += 1;
    }
    assert(list@.take(i as int) =~= list@);
    r
}

/// Finds the artifact that a selector names. Returns its place.
pub fn select_artifact(manifest: &Manifest, home: Option<&str>, selector: &str) -> (r: Result<
    usize,
>)
    ensures
        reports(r, artifact_problem(*manifest, home, selector@)),
        r matches Ok(place) ==> place < manifest.artifacts@.len() && named_places(
            manifest.artifacts@,
            home,
            selector@,
        ) == seq![place as int],
{
    let places = find_places(&manifest.artifacts, home, selector);
    if places.len() == 0 {
        return Err(
            WombatError::Configuration(
                cat5(
                    "no artifact in build `",
                    manifest.build_id.as_str(),
                    "` matches `",
                    selector,
                    "`",
                ),
            ),
        );
    }
    if places.len() == 1 {
        assert(named_places(manifest.artifacts@, home, selector@) =~= seq![places@[0] as int]);
        return Ok(places[0]);
    }
    let ghost wanted = named_places(manifest.artifacts@, home, selector@);
    let mut texts: Vec<String> = Vec::new();
    let mut i: usize = 0;
    while i < places.len()
        invariant
            0 <= i <= places@.len(),
            places@.len() == wanted.len(),
            forall|k: int|
                0 <= k < places@.len() ==> (#[trigger] places@[k]) < manifest.artifacts@.len()
                    && places@[k] == wanted[k],
            texts@.len() == i,
            forall|k: int|
                0 <= k < i ==> (#[trigger] texts@[k])@ == candidate_texts(
                    manifest.artifacts@,
                    wanted,
                )[k],
        decreases places@.len() - i,
    {
        let artifact = &manifest.artifacts[places[i]];
        texts.push(
            cat5("`", artifact.target.path.as_str(), "` from `", artifact.source.as_str(), "`"),
        );
        i += 1;
    }
    assert(views(texts@) =~= candidate_texts(manifest.artifacts@, wanted));
    Err(
        WombatError::Configuration(
            cat4(
                "artifact selector `",
                selector,
                "` is ambiguous: ",
                join(&texts, ", ").as_str(),
            ),
        ),
    )
}

/// The first module with a name.
pub open spec fn module_named(modules: Seq<ManifestModule>, name: Seq<char>) -> Option<
    ManifestModule,
>
    decreases modules.len(),
{
    if modules.len() == 0 {
        None
    } else if modules[0].name@ == name {
        Some(modules[0])
    } else {
        module_named(modules.skip(1), name)
    }
}

fn find_module<'a>(modules: &'a Vec<ManifestModule>, name: &str) -> (r: Option<&'a ManifestModule>)
    ensures
        match r {
            Some(module) => module_named(modules@, name@) == Some(*module),
            None => module_named(modules@, name@) is None,
        },
{
    let mut i: usize = 0;
    assert(modules@.skip(0) =~= modules@);
    while i < modules.len()
        invariant
            0 <= i <= modules@.len(),
            module_named(modules@, name@) == module_named(modules@.skip(i as int), name@),
        decreases modules@.len() - i,
    {
        assert(modules@.skip(i as int)[0] == modules@[i as int]);
        assert(modules@.skip(i as int).skip(1) =~= modules@.skip(i + 1));
        if same(modules[i].name.as_str(), name) {
            return Some(&modules[i]);
        }
        i += 1;
    }
    None
}

/// The dependencies that a module is part of.
pub open spec fn relationships(list: Seq<Dependency>, owner: Seq<char>) -> Seq<Seq<char>>
    decreases list.len(),
{
    if list.len() == 0 {
        Seq::empty()
    } else {
        let rest = relationships(list.drop_last(), owner);
        let last = list.last();
        if last.from@ == owner || last.to@ == owner {
            rest.push(
                last.kind.label() + " "@ + last.from@ + " -> "@ + last.to@ + " at "@
                    + last.declared_at.text(),
            )
        } else {
            rest
        }
    }
}

fn list_relationships(list: &Vec<Dependency>, owner: &str) -> (r: Vec<String>)
    ensures
        views(r@) == relationships(list@, owner@),
{
    let mut r: Vec<String> = Vec::new();
    let mut i: usize = 0;
    assert(list@.take(0) =~= Seq::empty());
    assert(views(r@) =~= Seq::empty());
    while i < list.len()
        invariant
            0 <= i <= list@.len(),
            views(r@) == relationships(list@.take(i as int), owner@),
        decreases list@.len() - i,
    {
        assert(list@.take(i + 1).drop_last() =~= list@.take(i as int));
        assert(list@.take(i + 1).last() == list@[i as int]);
        let v = &list[i];
        if same(v.from.as_str(), owner) || same(v.to.as_str(), owner) {
            let ghost sofar = r@;
            let text = cat7(
                v.kind.label_name(),
                " ",
                v.from.as_str(),
                " -> ",
                v.to.as_str(),
                " at ",
                v.declared_at.display().as_str(),
            );
            let ghost line = text@;
            r.push(text);
            assert(views(r@) =~= views(sofar).push(line));
        }
        i += 1;
    }
    assert(list@.take(i as int) =~= list@);
    r
}

/// What the repository holds of a declaration now.
#[derive(Debug, PartialEq)]
pub enum Excerpt {
    /// There is no repository
    NoRepository,
    /// The source is not there
    Missing,
    /// The bytes of the source
    Read(Vec<u8>),
}

/// The recorded source at a path.
pub open spec fn recorded(sources: Seq<SourceFile>, path: Seq<char>) -> Option<SourceFile>
    decreases sources.len(),
{
    if sources.len() == 0 {
        None
    } else if sources[0].path@ == path {
        Some(sources[0])
    } else {
        recorded(sources.skip(1), path)
    }
}

fn find_source<'a>(sources: &'a Vec<SourceFile>, path: &str) -> (r: Option<&'a SourceFile>)
    ensures
        match r {
            Some(source) => recorded(sources@, path@) == Some(*source),
            None => recorded(sources@, path@) is None,
        },
{
    let mut i: usize = 0;
    assert(sources@.skip(0) =~= sources@);
    while i < sources.len()
        invariant
            0 <= i <= sources@.len(),
            recorded(sources@, path@) == recorded(sources@.skip(i as int), path@),
        decreases sources@.len() - i,
    {
        assert(sources@.skip(i as int)[0] == sources@[i as int]);
        assert(sources@.skip(i as int).skip(1) =~= sources@.skip(i + 1));
        if same(sources[i].path.as_str(), path) {
            return Some(&sources[i]);
        }
        i += 1;
    }
    None
}

/// The index of a line that is counted from one.
pub open spec fn line_index(line: u32) -> int {
    if line == 0 {
        0
    } else {
        line - 1
    }
}

/// Why there is no excerpt, or the line that it shows.
pub open spec fn excerpt_text(
    sources: Seq<SourceFile>,
    source: Seq<char>,
    line: Option<u32>,
    found: Excerpt,
) -> Seq<char> {
    match recorded(sources, source) {
        None => "Source excerpt\n  unavailable: declaration source is not catalogued\n"@,
        Some(entry) => match found {
            Excerpt::NoRepository =>
                "Source excerpt\n  unavailable: source repository is not available\n"@,
            Excerpt::Missing => "Source excerpt\n  unavailable: recorded source is missing\n"@,
            Excerpt::Read(bytes) => if digest_of(bytes@) != entry.digest@ {
                "Source excerpt\n  unavailable: current source differs from this build\n"@
            } else {
                match decoded(bytes@) {
                    None => "Source excerpt\n  unavailable: current source is not UTF-8\n"@,
                    Some(text) => match line {
                        None => "Source excerpt\n  unavailable: no line was recorded\n"@,
                        Some(line) => if line_index(line) >= lines(text).len() {
                            "Source excerpt\n  unavailable: recorded line is outside current source\n"@
                        } else {
                            "Source excerpt\n  "@ + source + ":"@ + decimal(line as nat) + "\n  "@
                                + decimal(line as nat) + " | "@ + lines(text)[line_index(line)]
                                + "\n"@
                        },
                    },
                }
            },
        },
    }
}

/// Shows the line of a declaration, where the repository still holds what the
/// product was built from.
pub fn source_freshness(
    sources: &Vec<SourceFile>,
    source: &str,
    line: Option<u32>,
    found: &Excerpt,
) -> (r: String)
    ensures
        r@ == excerpt_text(sources@, source@, line, *found),
{
    let entry = match find_source(sources, source) {
        Some(entry) => entry,
        None => {
            return "Source excerpt\n  unavailable: declaration source is not catalogued\n".to_string();
        },
    };
    let bytes = match found {
        Excerpt::NoRepository => {
            return "Source excerpt\n  unavailable: source repository is not available\n".to_string();
        },
        Excerpt::Missing => {
            return "Source excerpt\n  unavailable: recorded source is missing\n".to_string();
        },
        Excerpt::Read(bytes) => bytes,
    };
    if !same(digest(bytes.as_slice()).as_str(), entry.digest.as_str()) {
        return "Source excerpt\n  unavailable: current source differs from this build\n".to_string();
    }
    let text = match decode(bytes.as_slice()) {
        Some(text) => text,
        None => {
            return "Source excerpt\n  unavailable: current source is not UTF-8\n".to_string();
        },
    };
    let number = match line {
        Some(number) => number,
        None => {
            return "Source excerpt\n  unavailable: no line was recorded\n".to_string();
        },
    };
    let index: u32 = if number == 0 {
        0
    } else {
        number - 1
    };
    let all = lines_of(text.as_str());
    assert(all@.len() == views(all@).len());
    if index as usize >= all.len() {
        return "Source excerpt\n  unavailable: recorded line is outside current source\n".to_string();
    }
    assert(views(all@)[index as int] == all@[index as int]@);
    let shown = decimal_text(number as u64);
    let head = cat5("Source excerpt\n  ", source, ":", shown.as_str(), "\n  ");
    cat5(head.as_str(), shown.as_str(), " | ", all[index as usize].as_str(), "\n")
}

/// What is told of the module of an artifact.
pub open spec fn module_explained(module: Option<ManifestModule>) -> Seq<char> {
    match module {
        Some(module) => "  module source: "@ + module.source@ + "\n  module config: "@ + compact(
            module.config.tree(),
        ) + "\n"@,
        None => ""@,
    }
}

/// What is told of a template.
pub open spec fn template_explained(production: Production) -> Seq<char> {
    match production {
        Production::Template { renderer, source_digest, context } => "  renderer: "@
            + renderer.name@ + "-v"@ + decimal(renderer.contract_version as nat)
            + "\n  template source: "@ + source_digest@ + "\n  template context: "@ + compact(
            context.tree(),
        ) + "\n"@,
        _ => ""@,
    }
}

/// What is told of an artifact itself.
pub open spec fn artifact_head(manifest: Manifest, v: Artifact) -> Seq<char> {
    "Artifact "@ + v.target.path@ + "\n  build: "@ + manifest.build_id@ + "\n  owner: "@ + v.owner@
        + "\n  source: "@ + v.source@ + "\n  source origin: "@ + compact(v.source_origin.tree())
        + "\n  production: "@ + production_text(v.production) + "\n  target inference: "@ + compact(
        v.target.origin.tree(),
    ) + "\n  content: "@ + decimal(v.content.size as nat) + " bytes, "@ + v.content.digest@
        + ", executable="@ + truth(v.content.executable) + "\n  declared at: "@
        + v.declared_at.text() + "\n"@
}

/// What is told of an artifact.
pub open spec fn artifact_explained(manifest: Manifest, v: Artifact, found: Excerpt) -> Seq<char> {
    artifact_head(manifest, v) + module_explained(module_named(manifest.modules@, v.owner@))
        + template_explained(v.production) + listed(
        "Relationships"@,
        relationships(manifest.dependencies@, v.owner@),
    ) + excerpt_text(
        manifest.sources@,
        v.declared_at.primary.source@,
        v.declared_at.primary.line,
        found,
    )
}

fn explain_head(manifest: &Manifest, v: &Artifact) -> (r: String)
    ensures
        r@ == artifact_head(*manifest, *v),
{
    let text = cat7(
        "Artifact ",
        v.target.path.as_str(),
        "\n  build: ",
        manifest.build_id.as_str(),
        "\n  owner: ",
        v.owner.as_str(),
        "\n  source: ",
    );
    let text = cat6(
        text.as_str(),
        v.source.as_str(),
        "\n  source origin: ",
        compact_text(&source_origin_value(&v.source_origin)).as_str(),
        "\n  production: ",
        production_name(&v.production),
    );
    let text = cat6(
        text.as_str(),
        "\n  target inference: ",
        compact_text(&target_origin_value(&v.target.origin)).as_str(),
        "\n  content: ",
        decimal_text(v.content.size).as_str(),
        " bytes, ",
    );
    cat7(
        text.as_str(),
        v.content.digest.as_str(),
        ", executable=",
        truth_name(v.content.executable),
        "\n  declared at: ",
        v.declared_at.display().as_str(),
        "\n",
    )
}

fn explain_template(production: &Production) -> (r: String)
    ensures
        r@ == template_explained(*production),
{
    match production {
        Production::Template { renderer, source_digest, context } => {
            let text = cat5(
                "  renderer: ",
                renderer.name.as_str(),
                "-v",
                decimal_text(renderer.contract_version as u64).as_str(),
                "\n  template source: ",
            );
            cat5(
                text.as_str(),
                source_digest.as_str(),
                "\n  template context: ",
                compact_text(&frozen_value(context)).as_str(),
                "\n",
            )
        },
        _ => "".to_string(),
    }
}

fn render_explanation(manifest: &Manifest, v: &Artifact, found: &Excerpt) -> (r: String)
    ensures
        r@ == artifact_explained(*manifest, *v, *found),
{
    let module = match find_module(&manifest.modules, v.owner.as_str()) {
        Some(module) => cat5(
            "  module source: ",
            module.source.as_str(),
            "\n  module config: ",
            compact_text(&frozen_value(&module.config)).as_str(),
            "\n",
        ),
        None => "".to_string(),
    };
    let excerpt = source_freshness(
        &manifest.sources,
        v.declared_at.primary.source.as_str(),
        v.declared_at.primary.line,
        found,
    );
    cat5(
        explain_head(manifest, v).as_str(),
        module.as_str(),
        explain_template(&v.production).as_str(),
        render_list(
            "Relationships",
            &list_relationships(&manifest.dependencies, v.owner.as_str()),
        ).as_str(),
        excerpt.as_str(),
    )
}

/// The message about a selector that names nothing.
pub open spec fn unmatched(thing: Seq<char>, manifest: Manifest, selector: Seq<char>) -> Seq<char> {
    "no "@ + thing + " in build `"@ + manifest.build_id@ + "` matches `"@ + selector + "`"@
}

fn no_match(thing: &str, manifest: &Manifest, selector: &str) -> (r: WombatError)
    ensures
        is_configuration(r, unmatched(thing@, *manifest, selector@)),
{
    WombatError::Configuration(
        cat7("no ", thing, " in build `", manifest.build_id.as_str(), "` matches `", selector, "`"),
    )
}

/// What a selector is about.
pub enum Subject {
    /// A task
    Task(Seq<char>),
    /// A provider
    Provider(Seq<char>),
    /// A preparation
    Preparation(Seq<char>),
    /// Requirements of a kind
    Requirement(Seq<char>, Seq<char>),
    /// An artifact
    Artifact,
}

/// What a selector is about, by how it begins.
pub open spec fn subject_of(selector: Seq<char>) -> Subject {
    if "task:"@.is_prefix_of(selector) {
        Subject::Task(selector.skip("task:"@.len() as int))
    } else if "provider:"@.is_prefix_of(selector) {
        Subject::Provider(selector.skip("provider:"@.len() as int))
    } else if "preparation:"@.is_prefix_of(selector) {
        Subject::Preparation(selector.skip("preparation:"@.len() as int))
    } else {
        match cut(selector, ':') {
            Some(parts) => if parts.0 == "command"@ || parts.0 == "package"@ {
                Subject::Requirement(parts.0, parts.1)
            } else {
                Subject::Artifact
            },
            None => Subject::Artifact,
        }
    }
}

/// What is told of what a selector names, or what is wrong with it.
pub open spec fn explained(
    manifest: Manifest,
    selector: Seq<char>,
    home: Option<&str>,
    found: Excerpt,
) -> std::result::Result<Seq<char>, Seq<char>> {
    match subject_of(selector) {
        Subject::Task(identity) => match task_named(manifest.tasks@, identity) {
            Some(task) => Ok(task_explained(manifest, task)),
            None => Err(unmatched("task"@, manifest, selector)),
        },
        Subject::Provider(name) => match provider_named(manifest.providers@, name) {
            Some(provider) => Ok(provider_explained(manifest, provider)),
            None => Err(unmatched("provider"@, manifest, selector)),
        },
        Subject::Preparation(identity) => match preparation_named(
            manifest.preparations@,
            identity,
        ) {
            Some(operation) => Ok(preparation_explained(manifest, operation)),
            None => Err(unmatched("preparation"@, manifest, selector)),
        },
        Subject::Requirement(kind, name) => if some_asked_for(
            manifest.requirements@,
            kind,
            name,
        ) {
            Ok(
                "Requirement "@ + selector + "\n  build: "@ + manifest.build_id@ + "\n"@
                    + requirements_explained(manifest.requirements@, kind, name),
            )
        } else {
            Err(unmatched("requirement"@, manifest, selector))
        },
        Subject::Artifact => match artifact_problem(manifest, home, selector) {
            Some(message) => Err(message),
            None => Ok(
                artifact_explained(
                    manifest,
                    manifest.artifacts@[named_places(manifest.artifacts@, home, selector)[0]],
                    found,
                ),
            ),
        },
    }
}

/// Tells why a product holds what a selector names: a task, a provider, a
/// preparation, requirements or an artifact. `found` is what the repository holds of
/// the declaration of the artifact.
pub fn explain(manifest: &Manifest, selector: &str, current_home: Option<&str>, found: &Excerpt) -> (r:
    Result<String>)
    requires
        subject_of(selector@) matches Subject::Requirement(kind, name) ==> asked_chosen_exist(
            manifest.requirements@,
            kind,
            name,
        ),
    ensures
        match explained(*manifest, selector@, current_home, *found) {
            Ok(text) => r is Ok && r->Ok_0@ == text,
            Err(message) => r is Err && is_configuration(r->Err_0, message),
        },
{
    if let Some(identity) = strip_prefix(selector, "task:") {
        return match find_task(&manifest.tasks, identity.as_str()) {
            Some(task) => Ok(explain_task(manifest, task)),
            None => Err(no_match("task", manifest, selector)),
        };
    }
    if let Some(name) = strip_prefix(selector, "provider:") {
        return match find_provider(&manifest.providers, name.as_str()) {
            Some(provider) => Ok(explain_provider(manifest, provider)),
            None => Err(no_match("provider", manifest, selector)),
        };
    }
    if let Some(identity) = strip_prefix(selector, "preparation:") {
        return match find_preparation(&manifest.preparations, identity.as_str()) {
            Some(operation) => Ok(explain_preparation(manifest, operation)),
            None => Err(no_match("preparation", manifest, selector)),
        };
    }
    if let Some((kind, name)) = split_once(selector, ':') {
        if same(kind.as_str(), "command") || same(kind.as_str(), "package") {
            return match explain_requirements(
                &manifest.requirements,
                kind.as_str(),
                name.as_str(),
            ) {
                Some(text) => Ok(
                    cat6(
                        "Requirement ",
                        selector,
                        "\n  build: ",
                        manifest.build_id.as_str(),
                        "\n",
                        text.as_str(),
                    ),
                ),
                None => Err(no_match("requirement", manifest, selector)),
            };
        }
    }
    let place = select_artifact(manifest, current_home, selector)?;
    Ok(render_explanation(manifest, &manifest.artifacts[place], found))
}

/// The source file that holds the declaration of what a selector names, where that
/// is an artifact.
pub fn explained_source(manifest: &Manifest, selector: &str, current_home: Option<&str>) -> (r:
    Option<String>)
    ensures
        match r {
            Some(source) => subject_of(selector@) is Artifact && artifact_problem(
                *manifest,
                current_home,
                selector@,
            ) is None && source@ == manifest.artifacts@[named_places(
                manifest.artifacts@,
                current_home,
                selector@,
            )[0]].declared_at.primary.source@,
            None => !(subject_of(selector@) is Artifact) || artifact_problem(
                *manifest,
                current_home,
                selector@,
            ) is Some,
        },
{
    if starts_with(selector, "task:") || starts_with(selector, "provider:") || starts_with(
        selector,
        "preparation:",
    ) {
        return None;
    }
    if let Some((kind, _)) = split_once(selector, ':') {
        if same(kind.as_str(), "command") || same(kind.as_str(), "package") {
            return None;
        }
    }
    match select_artifact(manifest, current_home, selector) {
        Ok(place) => Some(manifest.artifacts[place].declared_at.primary.source.clone()),
        Err(_) => None,
    }
}

/// A path with components put beneath it one by one.
pub open spec fn beneath(root: Seq<char>, components: Seq<Seq<char>>) -> Seq<char>
    decreases components.len(),
{
    if components.len() == 0 {
        root
    } else {
        path_join(beneath(root, components.drop_last()), components.last())
    }
}

/// Puts a relative path beneath a directory, component by component.
pub fn portable_join(root: &str, relative: &str) -> (r: String)
    ensures
        r@ == beneath(root@, pieces(relative@, '/')),
{
    let parts = split(relative, '/');
    let ghost all = pieces(relative@, '/');
    assert(parts@.len() == views(parts@).len());
    let mut r = root.to_string();
    let mut i: usize = 0;
    assert(all.take(0) =~= Seq::empty());
    while i < parts.len()
        invariant
            0 <= i <= parts@.len(),
            views(parts@) == all,
            parts@.len() == all.len(),
            r@ == beneath(root@, all.take(i as int)),
        decreases parts@.len() - i,
    {
        assert(views(parts@)[i as int] == parts@[i as int]@);
        assert(all.take(i + 1).drop_last() =~= all.take(i as int));
        assert(all.take(i + 1).last() == all[i as int]);
        r = join_path(r.as_str(), parts[i].as_str());
        i += 1;
    }
    assert(all.take(i as int) =~= all);
    r
}

} // verus!
