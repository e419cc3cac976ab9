//! Functions of the repository that templates can call.
use vstd::prelude::*;
use vstd::string::*;

use crate::digest::{digest, is_digest, valid_digest};
use crate::error::{
    configured, corrupt_if, either, first, is_configuration, problem_if, reports, settles,
    Diagnostic, Noted, Problem, Result, WombatError,
};
use crate::lua::loading::{helper_module_path, helper_problem};
use crate::lua::state::Location;
use crate::model::frozen::LuaValue;
use crate::model::manifest::{
    copy_source_locations, same_source_locations, SourceFile, SourceLocation, SourceTrace,
    TemplateHelperExport, TemplateHelperPack,
};
use crate::model::ordering::{order_texts, text_order, then_by, Order};
use crate::model::path::{relative_problem, validate_relative_path};
use crate::number::{decimal, decimal_text};
use crate::order::{before, precedes};
use crate::project::inputs::alphanumeric;
use crate::sorting::{sort, sorted, Sortable};
use crate::text::{cat2, cat3, cat4, cat5, cat7, chars_of, same, starts_with, views};

verus! {

/// The version of the contract between helpers and templates.
pub const CONTRACT_VERSION: u32 = 1;

/// The names that templates know without helpers.
pub open spec fn reserved_names() -> Seq<Seq<char>> {
    seq![
        "and"@,
        "blockHelperMissing"@,
        "coalesce"@,
        "each"@,
        "eq"@,
        "gt"@,
        "gte"@,
        "helperMissing"@,
        "if"@,
        "len"@,
        "log"@,
        "lookup"@,
        "lt"@,
        "lte"@,
        "ne"@,
        "not"@,
        "or"@,
        "raw"@,
        "unless"@,
        "with"@,
    ]
}

fn is_reserved(name: &str) -> (r: bool)
    ensures
        r == reserved_names().contains(name@),
{
    let names = [
        "and",
        "blockHelperMissing",
        "coalesce",
        "each",
        "eq",
        "gt",
        "gte",
        "helperMissing",
        "if",
        "len",
        "log",
        "lookup",
        "lt",
        "lte",
        "ne",
        "not",
        "or",
        "raw",
        "unless",
        "with",
    ];
    let ghost all = reserved_names();
    let mut i: usize = 0;
    while i < names.len()
        invariant
            0 <= i <= 20,
            names@.len() == 20,
            all == reserved_names(),
            all.len() == 20,
            forall|j: int| 0 <= j < 20 ==> (#[trigger] names@[j])@ == all[j],
            forall|j: int| 0 <= j < i ==> #[trigger] all[j] != name@,
        decreases 20 - i,
    {
        assert(names@[i as int]@ == all[i as int]);
        if same(names[i], name) {
            assert(all.contains(name@));
            return true;
        }
        i += 1;
    }
    false
}

/// Whether text may stand before the names of helpers.
pub open spec fn valid_prefix(prefix: Seq<char>) -> bool {
    forall|i: int|
        0 <= i < prefix.len() ==> alphanumeric(#[trigger] prefix[i]) || prefix[i] == '_'
            || prefix[i] == '-'
}

fn is_valid_prefix(prefix: &str) -> (r: bool)
    ensures
        r == valid_prefix(prefix@),
{
    let chars = chars_of(prefix);
    let mut i: usize = 0;
    while i < chars.len()
        invariant
            0 <= i <= chars@.len(),
            chars@ == prefix@,
            forall|j: int|
                0 <= j < i ==> alphanumeric(#[trigger] prefix@[j]) || prefix@[j] == '_'
                    || prefix@[j] == '-',
        decreases chars@.len() - i,
    {
        let c = chars[i];
        let plain = ('a' <= c && c <= 'z') || ('A' <= c && c <= 'Z') || ('0' <= c && c <= '9') || c
            == '_' || c == '-';
        if !plain {
            assert(prefix@[i as int] == c);
            return false;
        }
        i += 1;
    }
    true
}

/// Whether templates can call a helper of this name.
pub open spec fn valid_public_name(name: Seq<char>) -> bool {
    &&& name.len() > 0
    &&& (alphanumeric(name[0]) && !('0' <= name[0] <= '9')) || name[0] == '_'
    &&& valid_prefix(name)
}

/// The message about a name that no helper can have.
pub open spec fn public_name_message(name: Seq<char>) -> Seq<char> {
    "invalid template helper name `"@ + name
        + "`; expected an ASCII letter or `_` followed by letters, numbers, `_`, or `-`"@
}

/// What is wrong with the name of a helper.
pub open spec fn public_name_problem(name: Seq<char>) -> Option<Seq<char>> {
    problem_if(!valid_public_name(name), public_name_message(name))
}

fn validate_public_name(name: &str) -> (r: Result<()>)
    ensures
        reports(r, public_name_problem(name@)),
{
    let chars = chars_of(name);
    let starts = if chars.len() > 0 {
        let c = chars[0];
        ('a' <= c && c <= 'z') || ('A' <= c && c <= 'Z') || c == '_'
    } else {
        false
    };
    if !starts || !is_valid_prefix(name) {
        return Err(
            WombatError::Configuration(
                cat3(
                    "invalid template helper name `",
                    name,
                    "`; expected an ASCII letter or `_` followed by letters, numbers, `_`, or `-`",
                ),
            ),
        );
    }
    Ok(())
}

/// Whether an error tells this of a declaration.
pub open spec fn told_at(error: WombatError, message: Seq<char>, trace: SourceTrace) -> bool {
    error matches WombatError::Located(d) && d.message@ == message && d.primary is Some
        && d.primary->0.same(trace.primary) && d.source_line is None && d.underlying is None
        && d.user_frames@.len() == trace.callers@.len() + 1 && d.user_frames@[0].same(
        trace.primary,
    ) && same_source_locations(d.user_frames@.skip(1), trace.callers@)
}

/// What else an error tells.
pub open spec fn told_besides(error: WombatError) -> Seq<Seq<char>> {
    match error {
        WombatError::Located(d) => views(d.notes@),
        _ => Seq::empty(),
    }
}

fn diagnostic_at(message: &str, trace: &SourceTrace) -> (r: WombatError)
    ensures
        told_at(r, message@, *trace),
        told_besides(r) == Seq::<Seq<char>>::empty(),
{
    let mut diagnostic = Diagnostic::new(message);
    diagnostic.primary = Some(trace.primary.copy());
    let mut frames = copy_source_locations(&trace.callers);
    let ghost callers = frames@;
    frames.insert(0, trace.primary.copy());
    assert(frames@.skip(1) =~= callers);
    diagnostic.user_frames = frames;
    assert(views(diagnostic.notes@) =~= Seq::empty());
    WombatError::Located(diagnostic)
}

/// A declared pack of helpers.
#[derive(Debug, PartialEq)]
pub struct HelperDeclaration {
    /// The Lua module
    pub module: String,
    /// What the names begin with
    pub prefix: String,
    /// Where it was declared
    pub location: Location,
}

/// Declares a pack of helpers.
pub fn declare(
    declarations: &mut Vec<HelperDeclaration>,
    module: String,
    prefix: String,
    location: Location,
) -> (r: Result<()>)
    ensures
        if helper_problem(module@) is Some {
            reports(r, helper_problem(module@))
        } else if !valid_prefix(prefix@) {
            r is Err && told_at(
                r->Err_0,
                "template helper prefix `"@ + prefix@ + "` contains unsupported characters"@,
                location.trace,
            )
        } else {
            r is Ok
        },
        r is Err ==> final(declarations)@ == old(declarations)@,
        r is Ok ==> final(declarations)@ == old(declarations)@.push(
            (HelperDeclaration { module, prefix, location }),
        ),
{
    helper_module_path(module.as_str())?;
    if !is_valid_prefix(prefix.as_str()) {
        return Err(
            diagnostic_at(
                cat3(
                    "template helper prefix `",
                    prefix.as_str(),
                    "` contains unsupported characters",
                ).as_str(),
                &location.trace,
            ),
        );
    }
    declarations.push(HelperDeclaration { module, prefix, location });
    Ok(())
}

/// The order of packs: by module and prefix.
pub open spec fn pack_order(a: HelperDeclaration, b: HelperDeclaration) -> Order {
    then_by(text_order(a.module@, b.module@), text_order(a.prefix@, b.prefix@))
}

fn order_packs(a: &HelperDeclaration, b: &HelperDeclaration) -> (r: Order)
    ensures
        r == pack_order(*a, *b),
{
    let modules = order_texts(a.module.as_str(), b.module.as_str());
    if modules != Order::Same {
        return modules;
    }
    order_texts(a.prefix.as_str(), b.prefix.as_str())
}

/// Packs in their order with one more, where it is new.
pub open spec fn pack_added(list: Seq<HelperDeclaration>, item: HelperDeclaration) -> Seq<
    HelperDeclaration,
>
    decreases list.len(),
{
    if list.len() == 0 {
        seq![item]
    } else {
        match pack_order(list.last(), item) {
            Order::Same => list,
            Order::Before => list.push(item),
            Order::After => pack_added(list.drop_last(), item).push(list.last()),
        }
    }
}

/// The declared packs in their order, each as it was first declared.
pub open spec fn distinct_packs(list: Seq<HelperDeclaration>) -> Seq<HelperDeclaration>
    decreases list.len(),
{
    if list.len() == 0 {
        list
    } else {
        pack_added(distinct_packs(list.drop_last()), list.last())
    }
}

proof fn lemma_pack_added(list: Seq<HelperDeclaration>, item: HelperDeclaration, at: int)
    requires
        0 <= at <= list.len(),
        forall|j: int| at <= j < list.len() ==> pack_order(#[trigger] list[j], item) == Order::After,
        at > 0 ==> pack_order(list[at - 1], item) != Order::After,
    ensures
        pack_added(list, item) == if at > 0 && pack_order(list[at - 1], item) == Order::Same {
            list
        } else {
            list.insert(at, item)
        },
    decreases list.len(),
{
    if at == list.len() {
        if at == 0 {
            assert(list.insert(at, item) =~= seq![item]);
        } else {
            assert(list.last() == list[at - 1]);
            assert(list.insert(at, item) =~= list.push(item));
        }
    } else {
        assert(list.last() == list[list.len() - 1]);
        lemma_pack_added(list.drop_last(), item, at);
        assert(list.drop_last().push(list.last()) =~= list);
        assert(list.insert(at, item) =~= list.drop_last().insert(at, item).push(list.last()));
    }
}

/// Puts the declared packs in order, each as it was first declared.
pub fn order_declarations(declarations: Vec<HelperDeclaration>) -> (r: Vec<HelperDeclaration>)
    ensures
        r@ == distinct_packs(declarations@),
{
    let ghost all = declarations@;
    let mut rest = declarations;
    let mut r: Vec<HelperDeclaration> = Vec::new();
    let ghost mut count: int = 0;
    assert(all.take(0) =~= Seq::empty());
    assert(all.skip(0) =~= all);
    while rest.len() > 0
        invariant
            0 <= count <= all.len(),
            rest@ == all.skip(count),
            r@ == distinct_packs(all.take(count)),
        decreases rest@.len(),
    {
        let item = rest.remove(0);
        proof {
            assert(item == all[count]);
            assert(all.skip(count).remove(0) =~= all.skip(count + 1));
            assert(all.take(count + 1).drop_last() =~= all.take(count));
            assert(all.take(count + 1).last() == all[count]);
        }
        let ghost sofar = r@;
        let mut at: usize = r.len();
        while at > 0 && order_packs(&r[at - 1], &item) == Order::After
            invariant
                0 <= at <= r@.len(),
                r@ == sofar,
                forall|j: int|
                    at <= j < r@.len() ==> pack_order(#[trigger] r@[j], item) == Order::After,
            decreases at,
        {
            at -= 1;
        }
        proof {
            lemma_pack_added(sofar, item, at as int);
        }
        let known = at > 0 && order_packs(&r[at - 1], &item) == Order::Same;
        if !known {
            r.insert(at, item);
        }
        proof {
            count = count + 1;
        }
    }
    assert(all.take(count) =~= all);
    r
}

impl Sortable for TemplateHelperExport {
    open spec fn after(self, other: Self) -> bool {
        precedes(other.name@, self.name@)
    }

    fn comes_after(&self, other: &Self) -> (r: bool) {
        before(other.name.as_str(), self.name.as_str())
    }
}

impl Sortable for SourceFile {
    open spec fn after(self, other: Self) -> bool {
        precedes(other.path@, self.path@)
    }

    fn comes_after(&self, other: &Self) -> (r: bool) {
        before(other.path.as_str(), self.path.as_str())
    }
}

/// A value that a pack exports.
#[derive(Debug, PartialEq)]
pub enum ExportedValue {
    /// A function
    Function {
        /// Whether it is written in Lua
        in_lua: bool,
        /// Where it is defined
        defined_at: SourceLocation,
    },
    /// Something else
    Other,
}

/// What a pack exports under a key.
#[derive(Debug, PartialEq)]
pub struct LoadedExport {
    /// The key
    pub key: LuaValue,
    /// The value
    pub value: ExportedValue,
}

/// What loading a pack gives.
#[derive(Debug, PartialEq)]
pub enum LoadedPack {
    /// A table without a metatable: its pairs, as far as they could be read
    Plain(Vec<Result<LoadedExport>>),
    /// A table with a metatable
    Extended,
    /// Something else
    Other,
}

/// Why a pack is refused.
pub ghost enum Refusal {
    /// For this error
    Passed(WombatError),
    /// For a string that is no text
    Undecodable(Seq<char>),
    /// For what is told of its declaration
    At(Seq<char>),
    /// For what is told of its declaration, and of another one
    AtBoth(Seq<char>, Seq<char>),
    /// For the name of a helper, with where it comes from
    Named(Seq<char>, Seq<char>),
}

/// Whether something is refused for this.
pub open spec fn refused<T>(
    r: std::result::Result<T, Noted>,
    refusal: Refusal,
    trace: SourceTrace,
) -> bool {
    &&& r is Err
    &&& match refusal {
        Refusal::Passed(error) => r->Err_0.error == error && r->Err_0.note is None,
        Refusal::Undecodable(message) => crate::error::is_lua(r->Err_0.error, message)
            && r->Err_0.note is None,
        Refusal::At(message) => told_at(r->Err_0.error, message, trace) && told_besides(
            r->Err_0.error,
        ).len() == 0 && r->Err_0.note is None,
        Refusal::AtBoth(message, other) => told_at(r->Err_0.error, message, trace)
            && told_besides(r->Err_0.error) == seq![other] && r->Err_0.note is None,
        Refusal::Named(message, note) => is_configuration(r->Err_0.error, message)
            && r->Err_0.note is Some && r->Err_0.note->0@ == note,
    }
}

/// Whether a list of helpers has this name.
pub open spec fn exports_name(list: Seq<TemplateHelperExport>, name: Seq<char>) -> bool {
    exists|i: int| 0 <= i < list.len() && (#[trigger] list[i]).name@ == name
}

fn has_export(list: &Vec<TemplateHelperExport>, name: &str) -> (r: bool)
    ensures
        r == exports_name(list@, name@),
{
    let mut i: usize = 0;
    while i < list.len()
        invariant
            0 <= i <= list@.len(),
            forall|j: int| 0 <= j < i ==> (#[trigger] list@[j]).name@ != name@,
        decreases list@.len() - i,
    {
        if same(list[i].name.as_str(), name) {
            return true;
        }
        i += 1;
    }
    false
}

/// The first pack that has a helper of this name.
pub open spec fn pack_with(packs: Seq<TemplateHelperPack>, name: Seq<char>) -> Option<
    TemplateHelperPack,
>
    decreases packs.len(),
{
    if packs.len() == 0 {
        None
    } else if exports_name(packs[0].exports@, name) {
        Some(packs[0])
    } else {
        pack_with(packs.skip(1), name)
    }
}

fn find_pack_with<'a>(packs: &'a Vec<TemplateHelperPack>, name: &str) -> (r: Option<
    &'a TemplateHelperPack,
>)
    ensures
        match r {
            Some(pack) => pack_with(packs@, name@) == Some(*pack),
            None => pack_with(packs@, name@) is None,
        },
{
    let mut i: usize = 0;
    assert(packs@.skip(0) =~= packs@);
    while i < packs.len()
        invariant
            0 <= i <= packs@.len(),
            pack_with(packs@, name@) == pack_with(packs@.skip(i as int), name@),
        decreases packs@.len() - i,
    {
        assert(packs@.skip(i as int)[0] == packs@[i as int]);
        assert(packs@.skip(i as int).skip(1) =~= packs@.skip(i + 1));
        if has_export(&packs[i].exports, name) {
            return Some(&packs[i]);
        }
        i += 1;
    }
    None
}

/// Why an export is refused, behind other packs and the earlier exports of its own.
pub open spec fn export_refusal(
    packs: Seq<TemplateHelperPack>,
    resolved: Seq<TemplateHelperExport>,
    declaration: HelperDeclaration,
    entry: Result<LoadedExport>,
) -> Option<Refusal> {
    let module = declaration.module@;
    match entry {
        Err(error) => Some(Refusal::Passed(error)),
        Ok(loaded) => match loaded.key {
            LuaValue::Undecodable(message) => Some(Refusal::Undecodable(message@)),
            LuaValue::Text(export) => match loaded.value {
                ExportedValue::Other => Some(
                    Refusal::At(
                        "template helper pack `"@ + module + "` export `"@ + export@
                            + "` must be a function"@,
                    ),
                ),
                ExportedValue::Function { in_lua, .. } => {
                    let name = declaration.prefix@ + export@;
                    if !valid_public_name(name) {
                        Some(
                            Refusal::Named(
                                public_name_message(name),
                                "exported by template helper pack `"@ + module
                                    + "` declared at "@ + declaration.location.trace.text(),
                            ),
                        )
                    } else if reserved_names().contains(name) {
                        Some(
                            Refusal::At(
                                "template helper `"@ + name
                                    + "` cannot replace a built-in helper"@,
                            ),
                        )
                    } else if pack_with(packs, name) is Some {
                        Some(
                            Refusal::AtBoth(
                                "template helper `"@ + name + "` is exported by both `"@
                                    + pack_with(packs, name)->0.module@ + "` and `"@ + module
                                    + "`"@,
                                "first declared at "@ + pack_with(
                                    packs,
                                    name,
                                )->0.declared_at.text(),
                            ),
                        )
                    } else if exports_name(resolved, name) {
                        Some(
                            Refusal::AtBoth(
                                "template helper `"@ + name + "` is exported by both `"@ + module
                                    + "` and `"@ + module + "`"@,
                                "first declared at "@ + declaration.location.trace.text(),
                            ),
                        )
                    } else if !in_lua {
                        Some(
                            Refusal::At(
                                "template helper `"@ + name + "` must be implemented in Lua"@,
                            ),
                        )
                    } else {
                        None
                    }
                },
            },
            _ => Some(
                Refusal::At(
                    "template helper pack `"@ + module + "` exports must use string keys"@,
                ),
            ),
        },
    }
}

/// Whether an export is what was loaded.
pub open spec fn export_is(
    export: TemplateHelperExport,
    prefix: Seq<char>,
    entry: Result<LoadedExport>,
) -> bool {
    &&& entry is Ok
    &&& entry->Ok_0.key matches LuaValue::Text(key) && export.export@ == key@ && export.name@
        == prefix + key@
    &&& entry->Ok_0.value matches ExportedValue::Function { defined_at, .. }
        && export.defined_at.same(defined_at)
}

fn noted_at(message: &str, trace: &SourceTrace) -> (r: Noted)
    ensures
        told_at(r.error, message@, *trace),
        told_besides(r.error).len() == 0,
        r.note is None,
{
    Noted { error: diagnostic_at(message, trace), note: None }
}

fn noted_both(name: &str, owner: &str, module: &str, previous: &str, trace: &SourceTrace) -> (r: Noted)
    ensures
        told_at(
            r.error,
            "template helper `"@ + name@ + "` is exported by both `"@ + owner@ + "` and `"@
                + module@ + "`"@,
            *trace,
        ),
        told_besides(r.error) == seq!["first declared at "@ + previous@],
        r.note is None,
{
    let message = cat7(
        "template helper `",
        name,
        "` is exported by both `",
        owner,
        "` and `",
        module,
        "`",
    );
    let mut error = diagnostic_at(message.as_str(), trace);
    let note = cat2("first declared at ", previous);
    if let WombatError::Located(diagnostic) = &mut error {
        crate::text::push_text(&mut diagnostic.notes, note.as_str());
        assert(views(diagnostic.notes@) =~= seq!["first declared at "@ + previous@]);
    }
    Noted { error, note: None }
}

fn check_export(
    packs: &Vec<TemplateHelperPack>,
    resolved: &Vec<TemplateHelperExport>,
    declaration: &HelperDeclaration,
    entry: LoadedExport,
) -> (r: std::result::Result<TemplateHelperExport, Noted>)
    ensures
        match export_refusal(
            packs@,
            resolved@,
            *declaration,
            std::result::Result::<LoadedExport, WombatError>::Ok(entry),
        ) {
            Some(refusal) => refused(r, refusal, declaration.location.trace),
            None => r is Ok && export_is(
                r->Ok_0,
                declaration.prefix@,
                std::result::Result::<LoadedExport, WombatError>::Ok(entry),
            ),
        },
{
    let module = declaration.module.as_str();
    let trace = &declaration.location.trace;
    let export = match entry.key {
        LuaValue::Text(export) => export,
        LuaValue::Undecodable(message) => {
            return Err(Noted { error: WombatError::Lua(message), note: None });
        },
        _ => {
            let message = cat3(
                "template helper pack `",
                module,
                "` exports must use string keys",
            );
            return Err(noted_at(message.as_str(), trace));
        },
    };
    let (in_lua, defined_at) = match entry.value {
        ExportedValue::Function { in_lua, defined_at } => (in_lua, defined_at),
        ExportedValue::Other => {
            let message = cat5(
                "template helper pack `",
                module,
                "` export `",
                export.as_str(),
                "` must be a function",
            );
            return Err(noted_at(message.as_str(), trace));
        },
    };
    let name = cat2(declaration.prefix.as_str(), export.as_str());
    if let Err(error) = validate_public_name(name.as_str()) {
        let note = cat4(
            "exported by template helper pack `",
            module,
            "` declared at ",
            trace.display().as_str(),
        );
        return Err(Noted { error, note: Some(note) });
    }
    if is_reserved(name.as_str()) {
        let message = cat3(
            "template helper `",
            name.as_str(),
            "` cannot replace a built-in helper",
        );
        return Err(noted_at(message.as_str(), trace));
    }
    if let Some(other) = find_pack_with(packs, name.as_str()) {
        return Err(
            noted_both(
                name.as_str(),
                other.module.as_str(),
                module,
                other.declared_at.display().as_str(),
                trace,
            ),
        );
    }
    if has_export(resolved, name.as_str()) {
        return Err(
            noted_both(name.as_str(), module, module, trace.display().as_str(), trace),
        );
    }
    if !in_lua {
        let message = cat3("template helper `", name.as_str(), "` must be implemented in Lua");
        return Err(noted_at(message.as_str(), trace));
    }
    Ok(TemplateHelperExport { export, name, defined_at })
}

/// Whether exports are those that were loaded, in the order of loading.
pub open spec fn exports_are(
    list: Seq<TemplateHelperExport>,
    prefix: Seq<char>,
    entries: Seq<Result<LoadedExport>>,
) -> bool {
    &&& list.len() == entries.len()
    &&& forall|i: int| 0 <= i < list.len() ==> export_is(#[trigger] list[i], prefix, entries[i])
}

/// Whether no export of a pack is refused.
pub open spec fn none_refused(
    packs: Seq<TemplateHelperPack>,
    declaration: HelperDeclaration,
    entries: Seq<Result<LoadedExport>>,
    resolved: Seq<TemplateHelperExport>,
) -> bool {
    &&& exports_are(resolved, declaration.prefix@, entries)
    &&& forall|i: int|
        0 <= i < entries.len() ==> export_refusal(
            packs,
            resolved.take(i),
            declaration,
            #[trigger] entries[i],
        ) is None
}

/// Whether the exports of a pack are refused at one of them: those before it are
/// not, and it is refused for this.
pub open spec fn refused_at(
    packs: Seq<TemplateHelperPack>,
    declaration: HelperDeclaration,
    entries: Seq<Result<LoadedExport>>,
    index: int,
    resolved: Seq<TemplateHelperExport>,
    refusal: Refusal,
) -> bool {
    &&& 0 <= index < entries.len()
    &&& none_refused(packs, declaration, entries.take(index), resolved)
    &&& export_refusal(packs, resolved, declaration, entries[index]) == Some(refusal)
}

fn resolve_exports(
    packs: &Vec<TemplateHelperPack>,
    declaration: &HelperDeclaration,
    entries: Vec<Result<LoadedExport>>,
) -> (r: std::result::Result<Vec<TemplateHelperExport>, Noted>)
    ensures
        match r {
            Ok(resolved) => none_refused(packs@, *declaration, entries@, resolved@),
            Err(_) => exists|index: int, resolved: Seq<TemplateHelperExport>, refusal: Refusal|
                #[trigger] refused_at(
                    packs@,
                    *declaration,
                    entries@,
                    index,
                    resolved,
                    refusal,
                ) && refused(r, refusal, declaration.location.trace),
        },
{
    let ghost all = entries@;
    let mut rest = entries;
    let mut resolved: Vec<TemplateHelperExport> = Vec::new();
    let ghost mut count: int = 0;
    assert(all.skip(0) =~= all);
    while rest.len() > 0
        invariant
            0 <= count <= all.len(),
            all == entries@,
            rest@ == all.skip(count),
            none_refused(packs@, *declaration, all.take(count), resolved@),
            resolved@.len() == count,
        decreases rest@.len(),
    {
        let item = rest.remove(0);
        proof {
            assert(item == all[count]);
            assert(all.skip(count).remove(0) =~= all.skip(count + 1));
        }
        let ghost sofar = resolved@;
        match item {
            Err(error) => {
                proof {
                    let refusal = Refusal::Passed(error);
                    assert(refused_at(packs@, *declaration, all, count, sofar, refusal));
                }
                return Err(Noted { error, note: None });
            },
            Ok(loaded) => match check_export(packs, &resolved, declaration, loaded) {
                Err(noted) => {
                    proof {
                        let refusal = export_refusal(packs@, sofar, *declaration, all[count])->0;
                        assert(refused_at(packs@, *declaration, all, count, sofar, refusal));
                    }
                    return Err(noted);
                },
                Ok(export) => {
                    let ghost made = export;
                    resolved.push(export);
                    proof {
                        let front = all.take(count + 1);
                        assert forall|i: int| 0 <= i < resolved@.len() implies export_is(
                            #[trigger] resolved@[i],
                            declaration.prefix@,
                            front[i],
                        ) by {
                            if i < count {
                                assert(resolved@[i] == sofar[i]);
                                assert(front[i] == all.take(count)[i]);
                            }
                        }
                        assert forall|i: int| 0 <= i < front.len() implies export_refusal(
                            packs@,
                            resolved@.take(i),
                            *declaration,
                            #[trigger] front[i],
                        ) is None by {
                            if i < count {
                                assert(resolved@.take(i) =~= sofar.take(i));
                                assert(front[i] == all.take(count)[i]);
                            } else {
                                assert(resolved@.take(i) =~= sofar);
                            }
                        }
                    }
                },
            },
        }
        proof {
            count = count + 1;
        }
    }
    assert(all.take(count) =~= all);
    Ok(resolved)
}

/// Whether a pack is what was declared and loaded.
pub open spec fn pack_is(
    pack: TemplateHelperPack,
    declaration: HelperDeclaration,
    resolved: Seq<TemplateHelperExport>,
    sources: Vec<SourceFile>,
) -> bool {
    &&& pack.contract_version == CONTRACT_VERSION
    &&& pack.module == declaration.module
    &&& pack.prefix == declaration.prefix
    &&& pack.exports@ == sorted(resolved)
    &&& pack.sources == sources
    &&& pack.declared_at == declaration.location.trace
}

/// The message about a pack.
pub open spec fn pack_message(module: Seq<char>, what: Seq<char>) -> Seq<char> {
    "template helper pack `"@ + module + "` must "@ + what
}

/// Adds a declared pack to those that were added before. `sources` is what it is
/// made of, as far as that is known.
pub fn add_pack(
    packs: &mut Vec<TemplateHelperPack>,
    declaration: HelperDeclaration,
    loaded: LoadedPack,
    sources: Result<Vec<SourceFile>>,
) -> (r: std::result::Result<(), Noted>)
    ensures
        r is Err ==> final(packs)@ == old(packs)@,
        match loaded {
            LoadedPack::Other => refused(
                r,
                Refusal::At(pack_message(declaration.module@, "return a table of functions"@)),
                declaration.location.trace,
            ),
            LoadedPack::Extended => refused(
                r,
                Refusal::At(pack_message(declaration.module@, "return a plain table"@)),
                declaration.location.trace,
            ),
            LoadedPack::Plain(entries) => if entries@.len() == 0 {
                refused(
                    r,
                    Refusal::At(
                        pack_message(declaration.module@, "export at least one function"@),
                    ),
                    declaration.location.trace,
                )
            } else {
                ||| exists|index: int, resolved: Seq<TemplateHelperExport>, refusal: Refusal|
                    #[trigger] refused_at(
                        old(packs)@,
                        declaration,
                        entries@,
                        index,
                        resolved,
                        refusal,
                    ) && refused(r, refusal, declaration.location.trace)
                ||| exists|resolved: Seq<TemplateHelperExport>|
                    #[trigger] none_refused(old(packs)@, declaration, entries@, resolved)
                        && match sources {
                        Err(error) => refused(
                            r,
                            Refusal::Passed(error),
                            declaration.location.trace,
                        ),
                        Ok(sources) => r is Ok && final(packs)@.len() == old(packs)@.len() + 1
                            && final(packs)@.drop_last() == old(packs)@ && pack_is(
                            final(packs)@.last(),
                            declaration,
                            resolved,
                            sources,
                        ),
                    }
            },
        },
{
    let entries = match loaded {
        LoadedPack::Plain(entries) => entries,
        LoadedPack::Extended => {
            let message = cat4(
                "template helper pack `",
                declaration.module.as_str(),
                "` must ",
                "return a plain table",
            );
            return Err(noted_at(message.as_str(), &declaration.location.trace));
        },
        LoadedPack::Other => {
            let message = cat4(
                "template helper pack `",
                declaration.module.as_str(),
                "` must ",
                "return a table of functions",
            );
            return Err(noted_at(message.as_str(), &declaration.location.trace));
        },
    };
    let count = entries.len();
    let resolved = resolve_exports(packs, &declaration, entries)?;
    if count == 0 {
        let message = cat4(
            "template helper pack `",
            declaration.module.as_str(),
            "` must ",
            "export at least one function",
        );
        return Err(noted_at(message.as_str(), &declaration.location.trace));
    }
    let ghost plain = resolved@;
    assert(none_refused(packs@, declaration, loaded->Plain_0@, plain));
    let exports = sort(resolved);
    let sources = match sources {
        Ok(sources) => sources,
        Err(error) => {
            return Err(Noted { error, note: None });
        },
    };
    let ghost earlier = packs@;
    packs.push(
        TemplateHelperPack {
            contract_version: CONTRACT_VERSION,
            module: declaration.module,
            prefix: declaration.prefix,
            exports,
            sources,
            declared_at: declaration.location.trace,
        },
    );
    assert(packs@.drop_last() =~= earlier);
    Ok(())
}

/// Whether one pack stands before another: by module and prefix.
pub open spec fn pack_before(a: TemplateHelperPack, b: TemplateHelperPack) -> bool {
    if a.module@ == b.module@ {
        precedes(a.prefix@, b.prefix@)
    } else {
        precedes(a.module@, b.module@)
    }
}

fn stands_before(a: &TemplateHelperPack, b: &TemplateHelperPack) -> (r: bool)
    ensures
        r == pack_before(*a, *b),
{
    if same(a.module.as_str(), b.module.as_str()) {
        before(a.prefix.as_str(), b.prefix.as_str())
    } else {
        before(a.module.as_str(), b.module.as_str())
    }
}

/// Whether some of the first packs has a helper of this name.
pub open spec fn offered(packs: Seq<TemplateHelperPack>, name: Seq<char>) -> bool {
    exists|i: int| 0 <= i < packs.len() && exports_name((#[trigger] packs[i]).exports@, name)
}

fn is_offered(packs: &Vec<TemplateHelperPack>, count: usize, name: &str) -> (r: bool)
    requires
        count <= packs@.len(),
    ensures
        r == offered(packs@.take(count as int), name@),
{
    let mut i: usize = 0;
    while i < count
        invariant
            0 <= i <= count <= packs@.len(),
            forall|j: int|
                0 <= j < i ==> !exports_name(
                    (#[trigger] packs@.take(count as int)[j]).exports@,
                    name@,
                ),
        decreases count - i,
    {
        assert(packs@.take(count as int)[i as int] == packs@[i as int]);
        if has_export(&packs[i].exports, name) {
            return true;
        }
        i += 1;
    }
    false
}

/// What is wrong with a helper of a stored pack.
pub open spec fn stored_export_problem(
    packs: Seq<TemplateHelperPack>,
    index: int,
    place: int,
) -> Option<Problem> {
    let pack = packs[index];
    let export = pack.exports@[place];
    either(
        configured(public_name_problem(export.name@)),
        corrupt_if(
            export.export@.len() == 0 || (place > 0 && !precedes(
                pack.exports@[place - 1].name@,
                export.name@,
            )) || offered(packs.take(index), export.name@) || exports_name(
                pack.exports@.take(place),
                export.name@,
            ) || reserved_names().contains(export.name@),
            "template helper pack `"@ + pack.module@ + "` has invalid or conflicting exports"@,
        ),
    )
}

/// What is wrong with the first helpers of a stored pack.
pub open spec fn stored_exports_problem(
    packs: Seq<TemplateHelperPack>,
    index: int,
    count: int,
) -> Option<Problem>
    decreases count,
{
    if count <= 0 {
        None
    } else {
        either(
            stored_exports_problem(packs, index, count - 1),
            stored_export_problem(packs, index, count - 1),
        )
    }
}

/// What is wrong with a source of a stored pack.
pub open spec fn stored_source_problem(pack: TemplateHelperPack, place: int) -> Option<Problem> {
    let source = pack.sources@[place];
    either(
        configured(relative_problem(source.path@, "template helper source"@)),
        corrupt_if(
            !"lua/"@.is_prefix_of(source.path@) || (place > 0 && !precedes(
                pack.sources@[place - 1].path@,
                source.path@,
            )) || !valid_digest(source.digest@),
            "template helper pack `"@ + pack.module@ + "` has an invalid source closure"@,
        ),
    )
}

/// What is wrong with the first sources of a stored pack.
pub open spec fn stored_sources_problem(pack: TemplateHelperPack, count: int) -> Option<Problem>
    decreases count,
{
    if count <= 0 {
        None
    } else {
        either(
            stored_sources_problem(pack, count - 1),
            stored_source_problem(pack, count - 1),
        )
    }
}

/// What is wrong with a stored pack.
pub open spec fn stored_pack_problem(packs: Seq<TemplateHelperPack>, index: int) -> Option<Problem> {
    let pack = packs[index];
    either(
        corrupt_if(
            index > 0 && !pack_before(packs[index - 1], pack),
            "template helper packs are not uniquely sorted"@,
        ),
        either(
            corrupt_if(
                pack.contract_version != CONTRACT_VERSION,
                "unsupported template helper contract version "@ + decimal(
                    pack.contract_version as nat,
                ) + " for `"@ + pack.module@ + "`"@,
            ),
            either(
                configured(helper_problem(pack.module@)),
                either(
                    corrupt_if(
                        pack.exports@.len() == 0 || pack.sources@.len() == 0,
                        "template helper pack `"@ + pack.module@
                            + "` has no exports or source closure"@,
                    ),
                    either(
                        stored_exports_problem(packs, index, pack.exports@.len() as int),
                        stored_sources_problem(pack, pack.sources@.len() as int),
                    ),
                ),
            ),
        ),
    )
}

/// What is wrong with the first stored packs.
pub open spec fn catalog_problem(packs: Seq<TemplateHelperPack>, count: int) -> Option<Problem>
    decreases count,
{
    if count <= 0 {
        None
    } else {
        either(catalog_problem(packs, count - 1), stored_pack_problem(packs, count - 1))
    }
}

proof fn lemma_stored_exports(
    packs: Seq<TemplateHelperPack>,
    index: int,
    count: int,
    total: int,
)
    requires
        0 <= count <= total,
        stored_exports_problem(packs, index, count) is Some,
    ensures
        stored_exports_problem(packs, index, total) == stored_exports_problem(packs, index, count),
    decreases total - count,
{
    if count < total {
        lemma_stored_exports(packs, index, count, total - 1);
    }
}

proof fn lemma_stored_sources(pack: TemplateHelperPack, count: int, total: int)
    requires
        0 <= count <= total,
        stored_sources_problem(pack, count) is Some,
    ensures
        stored_sources_problem(pack, total) == stored_sources_problem(pack, count),
    decreases total - count,
{
    if count < total {
        lemma_stored_sources(pack, count, total - 1);
    }
}

proof fn lemma_catalog(packs: Seq<TemplateHelperPack>, count: int, total: int)
    requires
        0 <= count <= total,
        catalog_problem(packs, count) is Some,
    ensures
        catalog_problem(packs, total) == catalog_problem(packs, count),
    decreases total - count,
{
    if count < total {
        lemma_catalog(packs, count, total - 1);
    }
}

fn repeats(list: &Vec<TemplateHelperExport>, count: usize, name: &str) -> (r: bool)
    requires
        count <= list@.len(),
    ensures
        r == exports_name(list@.take(count as int), name@),
{
    let mut i: usize = 0;
    while i < count
        invariant
            0 <= i <= count <= list@.len(),
            forall|j: int|
                0 <= j < i ==> (#[trigger] list@.take(count as int)[j]).name@ != name@,
        decreases count - i,
    {
        assert(list@.take(count as int)[i as int] == list@[i as int]);
        if same(list[i].name.as_str(), name) {
            return true;
        }
        i += 1;
    }
    false
}

fn check_stored_exports(packs: &Vec<TemplateHelperPack>, index: usize) -> (r: Result<()>)
    requires
        index < packs@.len(),
    ensures
        settles(
            r,
            stored_exports_problem(
                packs@,
                index as int,
                packs@[index as int].exports@.len() as int,
            ),
        ),
{
    let pack = &packs[index];
    let mut i: usize = 0;
    while i < pack.exports.len()
        invariant
            0 <= i <= pack.exports@.len(),
            index < packs@.len(),
            *pack == packs@[index as int],
            stored_exports_problem(packs@, index as int, i as int) is None,
        decreases pack.exports@.len() - i,
    {
        proof {
            if stored_exports_problem(packs@, index as int, i + 1) is Some {
                lemma_stored_exports(
                    packs@,
                    index as int,
                    i + 1,
                    pack.exports@.len() as int,
                );
            }
        }
        let export = &pack.exports[i];
        let name = export.name.as_str();
        validate_public_name(name)?;
        let unordered = i > 0 && !before(pack.exports[i - 1].name.as_str(), name);
        if export.export.as_str().is_empty() || unordered || is_offered(packs, index, name)
            || repeats(&pack.exports, i, name) || is_reserved(name) {
            return Err(
                WombatError::CorruptState(
                    cat3(
                        "template helper pack `",
                        pack.module.as_str(),
                        "` has invalid or conflicting exports",
                    ),
                ),
            );
        }
        i += 1;
    }
    Ok(())
}

fn check_stored_sources(pack: &TemplateHelperPack) -> (r: Result<()>)
    ensures
        settles(r, stored_sources_problem(*pack, pack.sources@.len() as int)),
{
    let mut i: usize = 0;
    while i < pack.sources.len()
        invariant
            0 <= i <= pack.sources@.len(),
            stored_sources_problem(*pack, i as int) is None,
        decreases pack.sources@.len() - i,
    {
        proof {
            if stored_sources_problem(*pack, i + 1) is Some {
                lemma_stored_sources(*pack, i + 1, pack.sources@.len() as int);
            }
        }
        let source = &pack.sources[i];
        validate_relative_path(source.path.as_str(), "template helper source")?;
        let unordered = i > 0 && !before(pack.sources[i - 1].path.as_str(), source.path.as_str());
        if !starts_with(source.path.as_str(), "lua/") || unordered || !is_digest(
            source.digest.as_str(),
        ) {
            return Err(
                WombatError::CorruptState(
                    cat3(
                        "template helper pack `",
                        pack.module.as_str(),
                        "` has an invalid source closure",
                    ),
                ),
            );
        }
        i += 1;
    }
    Ok(())
}

fn check_stored_pack(packs: &Vec<TemplateHelperPack>, index: usize) -> (r: Result<()>)
    requires
        index < packs@.len(),
    ensures
        settles(r, stored_pack_problem(packs@, index as int)),
{
    let pack = &packs[index];
    if index > 0 {
        if !stands_before(&packs[index - 1], pack) {
            return Err(
                WombatError::CorruptState(
                    "template helper packs are not uniquely sorted".to_string(),
                ),
            );
        }
    }
    if pack.contract_version != CONTRACT_VERSION {
        return Err(
            WombatError::CorruptState(
                cat5(
                    "unsupported template helper contract version ",
                    decimal_text(pack.contract_version as u64).as_str(),
                    " for `",
                    pack.module.as_str(),
                    "`",
                ),
            ),
        );
    }
    helper_module_path(pack.module.as_str())?;
    if pack.exports.len() == 0 || pack.sources.len() == 0 {
        return Err(
            WombatError::CorruptState(
                cat3(
                    "template helper pack `",
                    pack.module.as_str(),
                    "` has no exports or source closure",
                ),
            ),
        );
    }
    check_stored_exports(packs, index)?;
    check_stored_sources(pack)
}

/// Makes sure that stored packs are in order: sorted, of this contract, and with
/// helpers and sources that have their names to themselves.
pub fn validate_catalog(packs: &Vec<TemplateHelperPack>) -> (r: Result<()>)
    ensures
        settles(r, catalog_problem(packs@, packs@.len() as int)),
{
    let mut i: usize = 0;
    while i < packs.len()
        invariant
            0 <= i <= packs@.len(),
            catalog_problem(packs@, i as int) is None,
        decreases packs@.len() - i,
    {
        proof {
            if catalog_problem(packs@, i + 1) is Some {
                lemma_catalog(packs@, i + 1, packs@.len() as int);
            }
        }
        check_stored_pack(packs, i)?;
        i += 1;
    }
    Ok(())
}

proof fn lemma_accepted_export(packs: Seq<TemplateHelperPack>, index: int, place: int, count: int)
    requires
        stored_exports_problem(packs, index, count) is None,
        0 <= place < count,
    ensures
        stored_export_problem(packs, index, place) is None,
    decreases count,
{
    if place < count - 1 {
        lemma_accepted_export(packs, index, place, count - 1);
    }
}

proof fn lemma_accepted_pack(packs: Seq<TemplateHelperPack>, index: int, count: int)
    requires
        catalog_problem(packs, count) is None,
        0 <= index < count,
    ensures
        stored_pack_problem(packs, index) is None,
    decreases count,
{
    if index < count - 1 {
        lemma_accepted_pack(packs, index, count - 1);
    }
}

/// In a catalog that is accepted every helper has its name to itself: no other helper
/// of any pack has it, and no built-in one.
pub proof fn law_accepted_helpers_have_names_of_their_own(
    packs: Seq<TemplateHelperPack>,
    i: int,
    k: int,
    j: int,
    l: int,
)
    requires
        catalog_problem(packs, packs.len() as int) is None,
        0 <= i <= j < packs.len(),
        0 <= k < packs[i].exports@.len(),
        0 <= l < packs[j].exports@.len(),
        i == j ==> k < l,
    ensures
        packs[i].exports@[k].name@ != packs[j].exports@[l].name@,
        !reserved_names().contains(packs[j].exports@[l].name@),
        valid_public_name(packs[j].exports@[l].name@),
{
    lemma_accepted_pack(packs, j, packs.len() as int);
    lemma_accepted_export(packs, j, l, packs[j].exports@.len() as int);
    let name = packs[j].exports@[l].name@;
    if packs[i].exports@[k].name@ == name {
        if i < j {
            assert(packs.take(j)[i] == packs[i]);
            assert(exports_name(packs.take(j)[i].exports@, name));
            assert(offered(packs.take(j), name));
        } else {
            assert(packs[j].exports@.take(l)[k].name@ == name);
            assert(exports_name(packs[j].exports@.take(l), name));
        }
    }
}

} // verus!
