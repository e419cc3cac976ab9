//! What a project's inputs promise: an option gives its input the value it was given, and
//! an input that no option gives has its default.
use vstd::prelude::*;
use vstd::string::*;

use crate::json::JsonTree;
use crate::model::context::names_platform;
use crate::model::manifest::{BuildInput, BuildInputKind, BuildInputOrigin};
use crate::number::signed_parsed;
use crate::project::inputs::{
    alphanumeric, argument, canonical_platform, clash_problem, declared, effective_arguments,
    entry_problem, following, given, has_descriptor, has_long, has_name, has_short, in_order,
    inputs_problem, outcome_problem, outcomes_problem, placed, resolution, resolved_from, resolves,
    schema_problem, spec_of, supplied, told, valid_long, valid_name, with_long, with_short,
    Argument, InputSpec, NamedView, ResolvedInputs,
};
use crate::project::options::{
    all_told, arguments_of, lemma_gathered, lemma_given, lemma_given_apart, lemma_options,
    lemma_supplied, options_in, told_by,
};
use crate::text::{cut, lemma_pieces_concat, lemma_pieces_single, pieces, views};

verus! {

/// Whether two inputs share neither their names nor their options.
pub open spec fn told_apart(a: NamedView, b: NamedView) -> bool {
    &&& a.name != b.name
    &&& a.long != b.long
    &&& a.spec.short is Some ==> a.spec.short != b.spec.short
}

/// In an accepted schema every entry names a declared input, no two of them share a name,
/// an option or a declaration, and every name and option is valid.
pub proof fn law_accepted_schemas_tell_inputs_apart(
    schema: Seq<(String, u64)>,
    specs: Seq<(u64, InputSpec)>,
)
    requires
        schema_problem(schema, specs) is None,
    ensures
        forall|k: int|
            0 <= k < schema.len() ==> {
                let item = #[trigger] declared(schema, specs)[k];
                &&& valid_name(schema[k].0@)
                &&& valid_long(item.long)
                &&& exists|s: int| 0 <= s < specs.len() && #[trigger] specs[s] == (schema[k].1, item.spec)
            },
        forall|i: int, j: int|
            0 <= i < j < schema.len() ==> told_apart(
                #[trigger] declared(schema, specs)[i],
                #[trigger] declared(schema, specs)[j],
            ) && schema[i].1 != schema[j].1,
    decreases schema.len(),
{
    let all = declared(schema, specs);
    if schema.len() > 0 {
        let front = schema.drop_last();
        let last = schema.len() - 1;
        law_accepted_schemas_tell_inputs_apart(front, specs);
        assert(entry_problem(front, specs, schema.last()) is None);
        let earlier = declared(front, specs);
        assert forall|k: int| 0 <= k < last implies #[trigger] all[k] == earlier[k] by {}
        lemma_spec_of(specs, schema[last].1);
        assert forall|i: int, j: int| 0 <= i < j < schema.len() implies told_apart(
            #[trigger] all[i],
            #[trigger] all[j],
        ) && schema[i].1 != schema[j].1 by {
            assert(all[i] == earlier[i]);
            assert(front[i] == schema[i]);
            if j < last {
                assert(all[j] == earlier[j]);
                assert(front[j] == schema[j]);
            } else {
                assert(clash_problem(earlier, all[last]) is None);
                assert(!has_name(earlier, all[last].name));
                assert(!has_long(earlier, all[last].long));
                assert(!has_descriptor(front, schema[last].1));
                if all[i].spec.short is Some && all[i].spec.short == all[last].spec.short {
                    assert(has_short(earlier, all[last].spec.short->0));
                }
            }
        }
        assert forall|k: int| 0 <= k < schema.len() implies ({
            let item = #[trigger] all[k];
            &&& valid_name(schema[k].0@)
            &&& valid_long(item.long)
            &&& exists|s: int| 0 <= s < specs.len() && #[trigger] specs[s] == (schema[k].1, item.spec)
        }) by {
            if k < last {
                assert(all[k] == earlier[k]);
                assert(front[k] == schema[k]);
            } else {
                assert(clash_problem(earlier, all[last]) is None);
            }
        }
    }
}

proof fn lemma_spec_of(specs: Seq<(u64, InputSpec)>, id: u64)
    ensures
        spec_of(specs, id) matches Some(spec) ==> exists|s: int|
            0 <= s < specs.len() && #[trigger] specs[s] == (id, spec),
    decreases specs.len(),
{
    if specs.len() > 0 {
        let front = specs.drop_last();
        lemma_spec_of(front, id);
        if specs.last().0 == id {
            assert(specs[specs.len() - 1] == (id, specs.last().1));
        } else if spec_of(front, id) is Some {
            let spec = spec_of(front, id)->0;
            let s = choose|s: int| 0 <= s < front.len() && #[trigger] front[s] == (id, spec);
            assert(specs[s] == (id, spec));
        }
    }
}

proof fn lemma_placed_holds(list: Seq<NamedView>, item: NamedView, x: NamedView)
    ensures
        placed(list, item).contains(x) <==> list.contains(x) || x == item,
    decreases list.len(),
{
    let all = placed(list, item);
    if list.len() == 0 || list.last().spec.order <= item.spec.order {
        lemma_push_holds(list, item, x);
    } else {
        let front = list.drop_last();
        lemma_placed_holds(front, item, x);
        lemma_push_holds(placed(front, item), list.last(), x);
        lemma_push_holds(front, list.last(), x);
        assert(front.push(list.last()) =~= list);
    }
}

proof fn lemma_push_holds(list: Seq<NamedView>, item: NamedView, x: NamedView)
    ensures
        list.push(item).contains(x) <==> list.contains(x) || x == item,
{
    let more = list.push(item);
    if list.contains(x) {
        let i = choose|i: int| 0 <= i < list.len() && list[i] == x;
        assert(more[i] == x);
    }
    assert(more[list.len() as int] == item);
    if more.contains(x) {
        let i = choose|i: int| 0 <= i < more.len() && more[i] == x;
        if i < list.len() {
            assert(list[i] == x);
        }
    }
}

proof fn lemma_in_order_holds(list: Seq<NamedView>, x: NamedView)
    ensures
        in_order(list).contains(x) <==> list.contains(x),
    decreases list.len(),
{
    if list.len() > 0 {
        let front = list.drop_last();
        lemma_in_order_holds(front, x);
        lemma_placed_holds(in_order(front), list.last(), x);
        lemma_push_holds(front, list.last(), x);
        assert(front.push(list.last()) =~= list);
    }
}

proof fn lemma_with(named: Seq<NamedView>, long: Seq<char>, short: char)
    ensures
        match with_long(named, long) {
            Some(item) => item.long == long && named.contains(item),
            None => !has_long(named, long),
        },
        match with_short(named, short) {
            Some(item) => item.spec.short == Some(short) && named.contains(item),
            None => !has_short(named, short),
        },
    decreases named.len(),
{
    if named.len() > 0 {
        let front = named.drop_last();
        let last = named.last();
        lemma_with(front, long, short);
        assert(named[named.len() - 1] == last);
        if with_long(front, long) is Some {
            lemma_push_holds(front, last, with_long(front, long)->0);
        }
        if with_short(front, short) is Some {
            lemma_push_holds(front, last, with_short(front, short)->0);
        }
        assert(front.push(last) =~= named);
        if last.long != long && has_long(named, long) {
            let i = choose|i: int| 0 <= i < named.len() && (#[trigger] named[i]).long == long;
            assert(front[i].long == long);
        }
        if last.spec.short != Some(short) && has_short(named, short) {
            let i = choose|i: int|
                0 <= i < named.len() && (#[trigger] named[i]).spec.short == Some(short);
            assert(front[i].spec.short == Some(short));
        }
    }
}

/// The inputs of an accepted schema are found by their options.
proof fn lemma_found(schema: Seq<(String, u64)>, specs: Seq<(u64, InputSpec)>, k: int)
    requires
        schema_problem(schema, specs) is None,
        0 <= k < schema.len(),
    ensures
        ({
            let named = in_order(declared(schema, specs));
            let item = declared(schema, specs)[k];
            &&& with_long(named, item.long) == Some(item)
            &&& item.spec.short matches Some(short) ==> with_short(named, short) == Some(item)
        }),
{
    law_accepted_schemas_tell_inputs_apart(schema, specs);
    let all = declared(schema, specs);
    let named = in_order(all);
    let item = all[k];
    let short = item.spec.short->0;
    lemma_with(named, item.long, short);
    assert(all.contains(item));
    lemma_in_order_holds(all, item);
    let at = choose|i: int| 0 <= i < named.len() && named[i] == item;
    assert(named[at].long == item.long);
    let found = with_long(named, item.long)->0;
    lemma_in_order_holds(all, found);
    let m = choose|m: int| 0 <= m < all.len() && all[m] == found;
    if m < k {
        assert(told_apart(all[m], all[k]));
    } else if k < m {
        assert(told_apart(all[k], all[m]));
    }
    if item.spec.short is Some {
        assert(named[at].spec.short == Some(short));
        let other = with_short(named, short)->0;
        lemma_in_order_holds(all, other);
        let n = choose|n: int| 0 <= n < all.len() && all[n] == other;
        if n < k {
            assert(told_apart(all[n], all[k]));
        } else if k < n {
            assert(told_apart(all[k], all[n]));
        }
    }
}

/// The options of an input give it a value: `--long=value`, `--long value` and `-s value`
/// give the value, and for a flag `--long` and `-s` say yes and `--no-long` says no.
pub proof fn law_options_give_their_inputs(
    schema: Seq<(String, u64)>,
    specs: Seq<(u64, InputSpec)>,
    k: int,
    arguments: Seq<Seq<char>>,
    index: int,
    value: Seq<char>,
)
    requires
        schema_problem(schema, specs) is None,
        0 <= k < schema.len(),
        0 <= index < arguments.len(),
    ensures
        ({
            let named = in_order(declared(schema, specs));
            let item = declared(schema, specs)[k];
            let name = schema[k].0@;
            let given = argument(named, arguments, index);
            let flag = item.spec.kind == BuildInputKind::Flag;
            let follows = index + 1 < arguments.len() && arguments[index + 1] == value && (
            value.len() == 0 || value[0] != '-');
            &&& !flag && value.len() > 0 && arguments[index] == "--"@ + item.long + "="@ + value
                ==> given == Argument::Value { name, value, used: 1 }
            &&& !flag && arguments[index] == "--"@ + item.long && follows ==> given
                == Argument::Value { name, value, used: 2 }
            &&& flag && arguments[index] == "--"@ + item.long ==> given == Argument::Value {
                name,
                value: "true"@,
                used: 1,
            }
            &&& flag && arguments[index] == "--no-"@ + item.long ==> given == Argument::Value {
                name,
                value: "false"@,
                used: 1,
            }
            &&& !flag && item.spec.short is Some && alphanumeric(item.spec.short->0)
                && arguments[index] == seq!['-', item.spec.short->0] && follows ==> given
                == Argument::Value { name, value, used: 2 }
            &&& flag && item.spec.short is Some && alphanumeric(item.spec.short->0)
                && arguments[index] == seq!['-', item.spec.short->0] ==> given == Argument::Value {
                name,
                value: "true"@,
                used: 1,
            }
        }),
{
    law_accepted_schemas_tell_inputs_apart(schema, specs);
    lemma_found(schema, specs, k);
    let named = in_order(declared(schema, specs));
    let item = declared(schema, specs)[k];
    let long = item.long;
    let text = arguments[index];
    reveal_strlit("--");
    reveal_strlit("-");
    reveal_strlit("=");
    reveal_strlit("no-");
    reveal_strlit("--no-");
    assert(!long.contains('='));
    lemma_pieces_single(long, '=');
    if text == "--"@ + long + "="@ + value {
        assert("--"@.is_prefix_of(text));
        assert(text.skip(2) =~= long.push('=') + value);
        lemma_pieces_concat(long, value, '=');
        assert(pieces(text.skip(2), '=')[0] == long);
        assert(pieces(value, '=').len() >= 1) by {
            crate::text::lemma_pieces(value, '=');
        }
        assert(text.skip(2).skip(long.len() as int + 1) =~= value);
        assert(cut(text.skip(2), '=') == Some((long, value)));
    }
    if text == "--"@ + long {
        assert("--"@.is_prefix_of(text));
        assert(text.skip(2) =~= long);
        assert(cut(text.skip(2), '=') is None);
    }
    if text == "--no-"@ + long {
        assert("--"@.is_prefix_of(text));
        let body = "no-"@ + long;
        assert(text.skip(2) =~= body);
        assert(!body.contains('='));
        lemma_pieces_single(body, '=');
        assert(cut(body, '=') is None);
        assert("no-"@.is_prefix_of(body));
        assert(body.skip(3) =~= long);
    }
    if item.spec.short is Some && text == seq!['-', item.spec.short->0] {
        assert("-"@.is_prefix_of(text));
        if alphanumeric(item.spec.short->0) {
            assert(!"--"@.is_prefix_of(text)) by {
                assert(text[1] == item.spec.short->0);
                assert("--"@[1] == '-');
                assert(!alphanumeric('-'));
            }
        }
        assert(text.skip(1) =~= seq![item.spec.short->0]);
    }
    if index + 1 < arguments.len() && arguments[index + 1] == value && (value.len() == 0 || value[0]
        != '-') {
        if "-"@.is_prefix_of(value) {
            assert(value.subrange(0, 1)[0] == "-"@[0]);
        }
        assert(following(arguments, index) == Some(value));
    }
}

/// Whether an input holds what an option gave it.
pub open spec fn holds_given(input: BuildInput, spec: InputSpec, text: Seq<char>) -> bool {
    &&& input.origin == BuildInputOrigin::CommandLine
    &&& match spec.kind {
        BuildInputKind::Flag => input.value.tree() == JsonTree::Bool(text == "true"@),
        BuildInputKind::String => input.value.tree() == JsonTree::Text(text),
        BuildInputKind::Choice => input.value.tree() == JsonTree::Text(text) && views(
            spec.choices@,
        ).contains(text),
        BuildInputKind::Integer => signed_parsed(text) matches Some(number) && input.value.tree()
            == JsonTree::Integer(number as int) && (spec.min matches Some(least) ==> least
            <= number) && (spec.max matches Some(most) ==> number <= most),
        BuildInputKind::Target => names_platform(text) && input.value.tree() == JsonTree::Text(
            canonical_platform(text),
        ),
    }
}

/// Whether an input holds its default.
pub open spec fn holds_default(input: BuildInput, spec: InputSpec, host: Seq<char>) -> bool {
    &&& input.origin == BuildInputOrigin::Default
    &&& spec.kind == BuildInputKind::Target ==> input.value.tree() == JsonTree::Text(host)
    &&& spec.kind != BuildInputKind::Target ==> match spec.default {
        Some(value) => input.value.tree() == value.tree(),
        None => spec.kind == BuildInputKind::Flag && input.value.tree() == JsonTree::Bool(false),
    }
}

proof fn lemma_outcomes(
    named: Seq<NamedView>,
    supplied: Seq<(Seq<char>, Seq<char>)>,
    item: NamedView,
)
    requires
        outcomes_problem(named, supplied) is None,
        named.contains(item),
    ensures
        outcome_problem(item, supplied) is None,
    decreases named.len(),
{
    let front = named.drop_last();
    if named.last() != item {
        let i = choose|i: int| 0 <= i < named.len() && named[i] == item;
        assert(front[i] == item);
        lemma_outcomes(front, supplied, item);
    }
}

/// Every input that a schema names is among the resolved ones, once, under its name. It
/// holds what an option gave it, where one of the arguments does; else it holds its
/// default.
pub proof fn law_inputs_hold_what_was_given(
    r: ResolvedInputs,
    schema: Seq<(String, u64)>,
    specs: Seq<(u64, InputSpec)>,
    arguments: Seq<Option<String>>,
    host: Seq<char>,
    k: int,
)
    requires
        inputs_problem(schema, specs, arguments) is None,
        resolution(r, schema, specs, arguments, host),
        0 <= k < schema.len(),
    ensures
        r.manifest@.len() == schema.len() == r.values@.len(),
        ({
            let named = in_order(declared(schema, specs));
            let options = options_in(named, effective_arguments(told(arguments)), 0);
            let spec = declared(schema, specs)[k].spec;
            &&& arguments_of(options) == effective_arguments(told(arguments))
            &&& exists|i: int|
                0 <= i < r.manifest@.len() && {
                    let input = #[trigger] r.manifest@[i];
                    &&& input.name@ == schema[k].0@ && r.values@[i].0@ == schema[k].0@
                    &&& input.kind == spec.kind
                    &&& input.declared_at.same(spec.declared_at)
                    &&& r.values@[i].1.tree() == input.value.tree()
                    &&& forall|m: int|
                        0 <= m < options.len() && told_by(named, #[trigger] options[m]).0
                            == schema[k].0@ ==> holds_given(
                            input,
                            spec,
                            told_by(named, options[m]).1,
                        )
                    &&& (forall|m: int|
                        0 <= m < options.len() ==> told_by(named, #[trigger] options[m]).0
                            != schema[k].0@) ==> holds_default(input, spec, host)
                }
        }),
{
    let all = declared(schema, specs);
    let named = in_order(all);
    let item = all[k];
    let texts = effective_arguments(told(arguments));
    let none: Seq<(Seq<char>, Seq<char>)> = Seq::empty();
    let options = options_in(named, texts, 0);
    let gave = supplied(named, texts, 0, none)->Ok_0;
    lemma_options(named, texts, 0, none);
    assert(texts.skip(0) =~= texts);
    lemma_supplied(named, Seq::empty(), options, none);
    assert(Seq::<Seq<char>>::empty() + arguments_of(options) =~= texts);
    let list = all_told(named, options);
    lemma_gathered(none, list);
    assert(none + list =~= list);
    assert(gave == list);
    assert(all.contains(item));
    lemma_in_order_holds(all, item);
    lemma_outcomes(named, gave, item);
    lemma_in_order_len(all);
    let at = choose|at: int| 0 <= at < named.len() && named[at] == item;
    assert(resolves(r.manifest@, named[at], gave, host));
    let i = choose|i: int|
        0 <= i < r.manifest@.len() && resolved_from(#[trigger] r.manifest@[i], item, gave, host);
    let input = r.manifest@[i];
    assert(r.values@[i].0@ == input.name@);
    lemma_given(list, item.name);
    assert forall|m: int|
        0 <= m < options.len() && told_by(named, #[trigger] options[m]).0
            == schema[k].0@ implies holds_given(
        input,
        item.spec,
        told_by(named, options[m]).1,
    ) by {
        assert(list[m] == told_by(named, options[m]));
        lemma_given_apart(list, m);
    }
    if forall|m: int|
        0 <= m < options.len() ==> told_by(named, #[trigger] options[m]).0 != schema[k].0@ {
        if given(list, item.name) is Some {
            let m = choose|m: int| 0 <= m < list.len() && (#[trigger] list[m]).0 == item.name;
            assert(list[m] == told_by(named, options[m]));
        }
    }
}

proof fn lemma_placed_len(list: Seq<NamedView>, item: NamedView)
    ensures
        placed(list, item).len() == list.len() + 1,
    decreases list.len(),
{
    if list.len() > 0 && list.last().spec.order > item.spec.order {
        lemma_placed_len(list.drop_last(), item);
    }
}

proof fn lemma_in_order_len(list: Seq<NamedView>)
    ensures
        in_order(list).len() == list.len(),
    decreases list.len(),
{
    if list.len() > 0 {
        lemma_in_order_len(list.drop_last());
        lemma_placed_len(in_order(list.drop_last()), list.last());
    }
}

/// An input that has no default and that no option gives is asked for: the arguments are
/// refused without it, unless it is a flag or the target.
pub proof fn law_required_inputs_are_required(
    schema: Seq<(String, u64)>,
    specs: Seq<(u64, InputSpec)>,
    arguments: Seq<Option<String>>,
    k: int,
)
    requires
        0 <= k < schema.len(),
        declared(schema, specs)[k].spec.default is None,
        declared(schema, specs)[k].spec.kind != BuildInputKind::Flag,
        declared(schema, specs)[k].spec.kind != BuildInputKind::Target,
        ({
            let named = in_order(declared(schema, specs));
            let options = options_in(named, effective_arguments(told(arguments)), 0);
            forall|m: int|
                0 <= m < options.len() ==> told_by(named, #[trigger] options[m]).0 != schema[k].0@
        }),
    ensures
        inputs_problem(schema, specs, arguments) is Some,
{
    if inputs_problem(schema, specs, arguments) is None {
        let all = declared(schema, specs);
        let named = in_order(all);
        let item = all[k];
        let texts = effective_arguments(told(arguments));
        let none: Seq<(Seq<char>, Seq<char>)> = Seq::empty();
        let options = options_in(named, texts, 0);
        lemma_options(named, texts, 0, none);
        assert(texts.skip(0) =~= texts);
        lemma_supplied(named, Seq::empty(), options, none);
        assert(Seq::<Seq<char>>::empty() + arguments_of(options) =~= texts);
        let list = all_told(named, options);
        lemma_gathered(none, list);
        assert(none + list =~= list);
        assert(all.contains(item));
        lemma_in_order_holds(all, item);
        lemma_outcomes(named, list, item);
        lemma_given(list, item.name);
        if given(list, item.name) is Some {
            let m = choose|m: int| 0 <= m < list.len() && (#[trigger] list[m]).0 == item.name;
            assert(list[m] == told_by(named, options[m]));
        }
    }
}

/// A platform is told by its system and its architecture, under their own names or the
/// architectures' other ones; the canonical form keeps the system and uses the own name.
pub proof fn law_platforms_are_told_by_their_names(os: Seq<char>, arch: Seq<char>)
    requires
        !os.contains('/'),
        !arch.contains('/'),
    ensures
        ({
            let value = os + "/"@ + arch;
            let known = os == "macos"@ || os == "linux"@;
            let arm = arch == "aarch64"@ || arch == "arm64"@;
            let intel = arch == "x86_64"@ || arch == "amd64"@;
            &&& names_platform(value) <==> known && (arm || intel)
            &&& known && arm ==> canonical_platform(value) == os + "/"@ + "aarch64"@
            &&& known && intel ==> canonical_platform(value) == os + "/"@ + "x86_64"@
        }),
{
    reveal_strlit("/");
    reveal_strlit("macos");
    reveal_strlit("linux");
    reveal_strlit("aarch64");
    reveal_strlit("arm64");
    reveal_strlit("x86_64");
    reveal_strlit("amd64");
    assert("macos"@[0] == 'm' && "linux"@[0] == 'l');
    assert("aarch64"@.len() == 7 && "arm64"@.len() == 5 && "x86_64"@.len() == 6 && "amd64"@.len()
        == 5);
    assert("arm64"@[1] == 'r' && "amd64"@[1] == 'm');
    let value = os + "/"@ + arch;
    assert(value =~= os.push('/') + arch);
    lemma_pieces_single(os, '/');
    lemma_pieces_single(arch, '/');
    lemma_pieces_concat(os, arch, '/');
    assert(pieces(value, '/') =~= seq![os, arch]);
}

} // verus!
