//! How the options of a project stand together: their order is free, and each input is
//! given once.
use vstd::prelude::*;
use vstd::set_lib::lemma_subset_equality;
use vstd::string::*;

use crate::model::manifest::BuildInput;
use crate::order::{lemma_ascending_distinct, lemma_ascending_unique};
use crate::project::inputs::{
    all_resolved, argument, declared, distinct_names, effective_arguments, following, given,
    in_order, input_names, inputs_problem, lemma_in_order_names, more_than_help, outcome_problem,
    outcomes_problem, resolution, resolved_from, resolves, some_untold, supplied, told, Argument,
    InputSpec, NamedView, ResolvedInputs,
};

verus! {

/// Whether arguments are one option: a flag, or an option with its value.
pub open spec fn is_option(named: Seq<NamedView>, option: Seq<Seq<char>>) -> bool {
    option.len() > 0 && (argument(named, option, 0) matches Argument::Value { used, .. } && used
        == option.len())
}

/// The input that an option names and the value that it gives.
pub open spec fn told_by(named: Seq<NamedView>, option: Seq<Seq<char>>) -> (Seq<char>, Seq<char>) {
    (argument(named, option, 0)->Value_name, argument(named, option, 0)->Value_value)
}

/// What each of the options gives.
pub open spec fn all_told(named: Seq<NamedView>, options: Seq<Seq<Seq<char>>>) -> Seq<
    (Seq<char>, Seq<char>),
> {
    options.map_values(|option: Seq<Seq<char>>| told_by(named, option))
}

/// The options that arguments from one on are made up of.
pub open spec fn options_in(
    named: Seq<NamedView>,
    arguments: Seq<Seq<char>>,
    index: int,
) -> Seq<Seq<Seq<char>>>
    decreases arguments.len() - index,
{
    if index < 0 || index >= arguments.len() {
        Seq::empty()
    } else {
        match argument(named, arguments, index) {
            Argument::Problem(_) => Seq::empty(),
            Argument::Value { used, .. } => if used < 1 {
                Seq::empty()
            } else {
                seq![arguments.subrange(index, index + used)] + options_in(
                    named,
                    arguments,
                    index + used,
                )
            },
        }
    }
}

/// The arguments that options make up.
pub open spec fn arguments_of(options: Seq<Seq<Seq<char>>>) -> Seq<Seq<char>>
    decreases options.len(),
{
    if options.len() == 0 {
        Seq::empty()
    } else {
        options[0] + arguments_of(options.skip(1))
    }
}

/// What the values of options come to, one after the other.
pub open spec fn gathered(
    sofar: Seq<(Seq<char>, Seq<char>)>,
    list: Seq<(Seq<char>, Seq<char>)>,
) -> std::result::Result<Seq<(Seq<char>, Seq<char>)>, Seq<char>>
    decreases list.len(),
{
    if list.len() == 0 {
        Ok(sofar)
    } else if given(sofar, list[0].0) is Some {
        Err("project option for `"@ + list[0].0 + "` was provided more than once"@)
    } else {
        gathered(sofar.push(list[0]), list.skip(1))
    }
}

/// What an argument says depends on it and on the one behind it.
proof fn lemma_argument_local(
    named: Seq<NamedView>,
    a: Seq<Seq<char>>,
    i: int,
    b: Seq<Seq<char>>,
    j: int,
)
    requires
        0 <= i < a.len(),
        0 <= j < b.len(),
        a[i] == b[j],
        following(a, i) == following(b, j) || (argument(named, a, i) matches Argument::Value {
            used,
            ..
        } && used == 1),
    ensures
        argument(named, a, i) == argument(named, b, j),
{
}

/// An option takes up one argument, or two where its value follows.
proof fn lemma_used(named: Seq<NamedView>, a: Seq<Seq<char>>, i: int)
    requires
        0 <= i < a.len(),
    ensures
        argument(named, a, i) matches Argument::Value { used, .. } ==> 1 <= used <= 2 && i + used
            <= a.len() && (used == 2 ==> following(a, i) is Some),
{
}

/// An option says the same wherever it stands.
proof fn lemma_option_anywhere(
    named: Seq<NamedView>,
    front: Seq<Seq<char>>,
    option: Seq<Seq<char>>,
    back: Seq<Seq<char>>,
)
    requires
        is_option(named, option),
    ensures
        argument(named, front + (option + back), front.len() as int) == argument(named, option, 0),
{
    let whole = front + (option + back);
    let at = front.len() as int;
    lemma_used(named, option, 0);
    assert(whole[at] == option[0]);
    if option.len() == 2 {
        assert(whole[at + 1] == option[1]);
        assert(following(whole, at) == following(option, 0));
    }
    lemma_argument_local(named, option, 0, whole, at);
}

/// Reading options one after the other gathers what they say.
pub proof fn lemma_supplied(
    named: Seq<NamedView>,
    front: Seq<Seq<char>>,
    options: Seq<Seq<Seq<char>>>,
    sofar: Seq<(Seq<char>, Seq<char>)>,
)
    requires
        forall|k: int| 0 <= k < options.len() ==> is_option(named, #[trigger] options[k]),
    ensures
        supplied(named, front + arguments_of(options), front.len() as int, sofar) == gathered(
            sofar,
            all_told(named, options),
        ),
    decreases options.len(),
{
    let whole = front + arguments_of(options);
    let list = all_told(named, options);
    if options.len() > 0 {
        let option = options[0];
        let rest = options.skip(1);
        let back = arguments_of(rest);
        assert(whole == front + (option + back));
        lemma_option_anywhere(named, front, option, back);
        assert(list[0] == told_by(named, option));
        assert(list.skip(1) =~= all_told(named, rest));
        assert forall|k: int| 0 <= k < rest.len() implies is_option(named, #[trigger] rest[k]) by {
            assert(rest[k] == options[k + 1]);
        }
        lemma_supplied(named, front + option, rest, sofar.push(list[0]));
        assert((front + option) + back =~= whole);
    } else {
        assert(whole =~= front);
    }
}

/// Where arguments are read, they are made up of options.
pub proof fn lemma_options(
    named: Seq<NamedView>,
    arguments: Seq<Seq<char>>,
    index: int,
    sofar: Seq<(Seq<char>, Seq<char>)>,
)
    requires
        0 <= index <= arguments.len(),
        supplied(named, arguments, index, sofar) is Ok,
    ensures
        arguments_of(options_in(named, arguments, index)) == arguments.skip(index),
        forall|k: int|
            0 <= k < options_in(named, arguments, index).len() ==> is_option(
                named,
                #[trigger] options_in(named, arguments, index)[k],
            ),
    decreases arguments.len() - index,
{
    let options = options_in(named, arguments, index);
    if index < arguments.len() {
        lemma_used(named, arguments, index);
        let said = argument(named, arguments, index);
        let used = said->Value_used;
        let option = arguments.subrange(index, index + used);
        let rest = options_in(named, arguments, index + used);
        lemma_options(
            named,
            arguments,
            index + used,
            sofar.push((said->Value_name, said->Value_value)),
        );
        assert(option[0] == arguments[index]);
        if used == 2 {
            assert(option[1] == arguments[index + 1]);
            assert(following(option, 0) == following(arguments, index));
        }
        lemma_argument_local(named, arguments, index, option, 0);
        assert(options == seq![option] + rest);
        assert(options.skip(1) =~= rest);
        assert(options[0] == option);
        assert(arguments_of(options) =~= arguments.skip(index));
        assert forall|k: int| 0 <= k < options.len() implies is_option(
            named,
            #[trigger] options[k],
        ) by {
            if k > 0 {
                assert(options[k] == rest[k - 1]);
            }
        }
    } else {
        assert(arguments.skip(index) =~= Seq::empty());
    }
}

/// A name is given where some pair has it.
pub proof fn lemma_given(list: Seq<(Seq<char>, Seq<char>)>, name: Seq<char>)
    ensures
        given(list, name) is Some <==> exists|i: int|
            0 <= i < list.len() && (#[trigger] list[i]).0 == name,
        given(list, name) matches Some(value) ==> list.contains((name, value)),
    decreases list.len(),
{
    if list.len() > 0 {
        let front = list.drop_last();
        lemma_given(front, name);
        if list.last().0 == name {
            assert(list[list.len() - 1].0 == name);
            assert(list.last() == (name, list.last().1));
        } else {
            if given(front, name) is Some {
                let i = choose|i: int| 0 <= i < front.len() && (#[trigger] front[i]).0 == name;
                assert(list[i].0 == name);
                let value = given(front, name)->0;
                let k = choose|k: int| 0 <= k < front.len() && front[k] == (name, value);
                assert(list[k] == (name, value));
            }
            if exists|i: int| 0 <= i < list.len() && (#[trigger] list[i]).0 == name {
                let i = choose|i: int| 0 <= i < list.len() && (#[trigger] list[i]).0 == name;
                assert(front[i].0 == name);
            }
        }
    }
}

/// Whether no two pairs have the same name.
pub open spec fn names_apart(list: Seq<(Seq<char>, Seq<char>)>) -> bool {
    forall|i: int, j: int|
        0 <= i < j < list.len() ==> (#[trigger] list[i]).0 != (#[trigger] list[j]).0
}

/// Where names are apart, a pair tells what is given.
pub proof fn lemma_given_apart(list: Seq<(Seq<char>, Seq<char>)>, at: int)
    requires
        names_apart(list),
        0 <= at < list.len(),
    ensures
        given(list, list[at].0) == Some(list[at].1),
{
    lemma_given(list, list[at].0);
    let value = given(list, list[at].0)->0;
    assert(given(list, list[at].0) is Some);
    let k = choose|k: int| 0 <= k < list.len() && list[k] == (list[at].0, value);
    if k < at {
        assert(list[k].0 != list[at].0);
    } else if at < k {
        assert(list[at].0 != list[k].0);
    }
}

/// Values are gathered where their names are apart, and only there.
pub proof fn lemma_gathered(sofar: Seq<(Seq<char>, Seq<char>)>, list: Seq<(Seq<char>, Seq<char>)>)
    requires
        names_apart(sofar),
    ensures
        gathered(sofar, list) is Ok <==> names_apart(sofar + list),
        gathered(sofar, list) matches Ok(all) ==> all == sofar + list,
    decreases list.len(),
{
    let whole = sofar + list;
    if list.len() == 0 {
        assert(whole =~= sofar);
    } else {
        lemma_given(sofar, list[0].0);
        let more = sofar.push(list[0]);
        assert(more + list.skip(1) =~= whole);
        assert(whole[sofar.len() as int] == list[0]);
        if given(sofar, list[0].0) is Some {
            let i = choose|i: int| 0 <= i < sofar.len() && (#[trigger] sofar[i]).0 == list[0].0;
            assert(whole[i] == sofar[i]);
        } else {
            assert forall|i: int, j: int| 0 <= i < j < more.len() implies (#[trigger] more[i]).0 != (
            #[trigger] more[j]).0 by {
                if j < sofar.len() {
                    assert(sofar[i].0 != sofar[j].0);
                } else {
                    assert(sofar[i].0 != list[0].0);
                }
            }
            lemma_gathered(more, list.skip(1));
        }
    }
}

/// What is given in another order is given alike.
proof fn lemma_reordered(
    named: Seq<NamedView>,
    options: Seq<Seq<Seq<char>>>,
    order: Seq<Seq<Seq<char>>>,
)
    requires
        order.to_multiset() == options.to_multiset(),
        names_apart(all_told(named, options)),
    ensures
        names_apart(all_told(named, order)),
        forall|name: Seq<char>| #[trigger]
            given(all_told(named, order), name) == given(all_told(named, options), name),
{
    let a = all_told(named, options);
    let b = all_told(named, order);
    assert(options.no_duplicates()) by {
        assert forall|i: int, j: int|
            0 <= i < options.len() && 0 <= j < options.len() && i != j implies options[i]
            != options[j] by {
            if i < j {
                assert(a[i].0 != a[j].0);
            } else {
                assert(a[j].0 != a[i].0);
            }
        }
    }
    options.lemma_multiset_has_no_duplicates();
    order.lemma_multiset_has_no_duplicates_conv();
    options.to_multiset_ensures();
    order.to_multiset_ensures();
    assert forall|i: int| 0 <= i < order.len() implies options.contains(#[trigger] order[i]) by {
        assert(order.contains(order[i]));
        assert(order.to_multiset().count(order[i]) > 0);
    }
    assert forall|i: int| 0 <= i < options.len() implies order.contains(#[trigger] options[i]) by {
        assert(options.contains(options[i]));
        assert(options.to_multiset().count(options[i]) > 0);
    }
    assert forall|i: int, j: int| 0 <= i < j < b.len() implies (#[trigger] b[i]).0 != (
    #[trigger] b[j]).0 by {
        assert(order[i] != order[j]);
        assert(options.contains(order[i]));
        assert(options.contains(order[j]));
        let k = choose|k: int| 0 <= k < options.len() && options[k] == order[i];
        let m = choose|m: int| 0 <= m < options.len() && options[m] == order[j];
        assert(a[k] == b[i] && a[m] == b[j]);
        if k < m {
            assert(a[k].0 != a[m].0);
        } else {
            assert(a[m].0 != a[k].0);
        }
    }
    assert forall|name: Seq<char>| #[trigger] given(b, name) == given(a, name) by {
        lemma_given(a, name);
        lemma_given(b, name);
        if exists|i: int| 0 <= i < a.len() && (#[trigger] a[i]).0 == name {
            let i = choose|i: int| 0 <= i < a.len() && (#[trigger] a[i]).0 == name;
            assert(order.contains(options[i]));
            let k = choose|k: int| 0 <= k < order.len() && order[k] == options[i];
            assert(b[k] == a[i]);
            lemma_given_apart(a, i);
            lemma_given_apart(b, k);
        } else if exists|i: int| 0 <= i < b.len() && (#[trigger] b[i]).0 == name {
            let i = choose|i: int| 0 <= i < b.len() && (#[trigger] b[i]).0 == name;
            assert(options.contains(order[i]));
            let k = choose|k: int| 0 <= k < options.len() && options[k] == order[i];
            assert(a[k] == b[i]);
        }
    }
}

/// What is wrong with the inputs depends on what is given to each name.
proof fn lemma_same_outcomes(
    named: Seq<NamedView>,
    a: Seq<(Seq<char>, Seq<char>)>,
    b: Seq<(Seq<char>, Seq<char>)>,
)
    requires
        forall|name: Seq<char>| #[trigger] given(b, name) == given(a, name),
    ensures
        outcomes_problem(named, b) == outcomes_problem(named, a),
    decreases named.len(),
{
    if named.len() > 0 {
        lemma_same_outcomes(named.drop_last(), a, b);
        assert(given(b, named.last().name) == given(a, named.last().name));
        assert(outcome_problem(named.last(), b) == outcome_problem(named.last(), a));
    }
}

/// What inputs are resolved to depends on what is given to each name.
proof fn lemma_same_resolved(
    inputs: Seq<BuildInput>,
    named: Seq<NamedView>,
    a: Seq<(Seq<char>, Seq<char>)>,
    b: Seq<(Seq<char>, Seq<char>)>,
    host: Seq<char>,
)
    requires
        forall|name: Seq<char>| #[trigger] given(b, name) == given(a, name),
        all_resolved(inputs, named, a, host),
    ensures
        all_resolved(inputs, named, b, host),
{
    assert forall|k: int| 0 <= k < named.len() implies resolves(
        inputs,
        #[trigger] named[k],
        b,
        host,
    ) by {
        assert(resolves(inputs, named[k], a, host));
        let i = choose|i: int|
            0 <= i < inputs.len() && resolved_from(#[trigger] inputs[i], named[k], a, host);
        assert(given(b, named[k].name) == given(a, named[k].name));
        assert(resolved_from(inputs[i], named[k], b, host));
    }
}

/// What options hold is among the arguments that they make up.
pub proof fn lemma_arguments_of(options: Seq<Seq<Seq<char>>>, text: Seq<char>)
    ensures
        arguments_of(options).contains(text) <==> exists|k: int|
            0 <= k < options.len() && (#[trigger] options[k]).contains(text),
    decreases options.len(),
{
    if options.len() > 0 {
        let rest = options.skip(1);
        let all = arguments_of(options);
        lemma_arguments_of(rest, text);
        if all.contains(text) {
            let i = choose|i: int| 0 <= i < all.len() && all[i] == text;
            if i < options[0].len() {
                assert(options[0][i] == text);
                assert(options[0].contains(text));
            } else {
                assert(arguments_of(rest)[i - options[0].len()] == text);
                assert(arguments_of(rest).contains(text));
                let k = choose|k: int| 0 <= k < rest.len() && (#[trigger] rest[k]).contains(text);
                assert(options[k + 1].contains(text));
            }
        }
        if exists|k: int| 0 <= k < options.len() && (#[trigger] options[k]).contains(text) {
            let k = choose|k: int| 0 <= k < options.len() && (#[trigger] options[k]).contains(text);
            if k == 0 {
                let i = choose|i: int| 0 <= i < options[0].len() && options[0][i] == text;
                assert(all[i] == text);
            } else {
                assert(rest[k - 1].contains(text));
                let i = choose|i: int|
                    0 <= i < arguments_of(rest).len() && arguments_of(rest)[i] == text;
                assert(all[options[0].len() + i] == text);
            }
        }
    }
}

/// The order of options is free. Where the arguments of a project are accepted and do not
/// ask for help, the same options in any other order are accepted too, and whatever is
/// resolved from the one is resolved from the other.
pub proof fn law_order_of_options_is_free(
    schema: Seq<(String, u64)>,
    specs: Seq<(u64, InputSpec)>,
    arguments: Seq<Option<String>>,
    others: Seq<Option<String>>,
    order: Seq<Seq<Seq<char>>>,
)
    requires
        inputs_problem(schema, specs, arguments) is None,
        !told(arguments).contains("--help"@),
        order.to_multiset() == options_in(
            in_order(declared(schema, specs)),
            told(arguments),
            0,
        ).to_multiset(),
        told(others) == arguments_of(order),
        !some_untold(others),
    ensures
        inputs_problem(schema, specs, others) is None,
        forall|r: ResolvedInputs, host: Seq<char>|
            resolution(r, schema, specs, arguments, host) <==> #[trigger] resolution(
                r,
                schema,
                specs,
                others,
                host,
            ),
{
    let named = in_order(declared(schema, specs));
    let texts = told(arguments);
    let options = options_in(named, texts, 0);
    let none: Seq<(Seq<char>, Seq<char>)> = Seq::empty();
    let a = all_told(named, options);
    let b = all_told(named, order);
    lemma_options(named, texts, 0, none);
    assert(texts.skip(0) =~= texts);
    options.to_multiset_ensures();
    order.to_multiset_ensures();
    assert forall|k: int| 0 <= k < order.len() implies is_option(named, #[trigger] order[k]) by {
        assert(order.contains(order[k]));
        assert(order.to_multiset().count(order[k]) > 0);
        assert(options.contains(order[k]));
        let m = choose|m: int| 0 <= m < options.len() && options[m] == order[k];
        assert(is_option(named, options[m]));
    }
    lemma_supplied(named, Seq::empty(), options, none);
    lemma_supplied(named, Seq::empty(), order, none);
    assert(Seq::<Seq<char>>::empty() + arguments_of(options) =~= texts);
    assert(Seq::<Seq<char>>::empty() + arguments_of(order) =~= told(others));
    lemma_gathered(none, a);
    lemma_gathered(none, b);
    assert(none + a =~= a);
    assert(none + b =~= b);
    lemma_reordered(named, options, order);
    lemma_same_outcomes(named, a, b);
    assert(!told(others).contains("--help"@)) by {
        lemma_arguments_of(options, "--help"@);
        lemma_arguments_of(order, "--help"@);
        if told(others).contains("--help"@) {
            let k = choose|k: int| 0 <= k < order.len() && (#[trigger] order[k]).contains("--help"@);
            assert(order.contains(order[k]));
            assert(order.to_multiset().count(order[k]) > 0);
            assert(options.contains(order[k]));
            let m = choose|m: int| 0 <= m < options.len() && options[m] == order[k];
            assert(options[m].contains("--help"@));
        }
    }
    assert forall|r: ResolvedInputs, host: Seq<char>|
        resolution(r, schema, specs, arguments, host) <==> #[trigger] resolution(
            r,
            schema,
            specs,
            others,
            host,
        ) by {
        if resolution(r, schema, specs, arguments, host) {
            lemma_same_resolved(r.manifest@, named, a, b, host);
        }
        if resolution(r, schema, specs, others, host) {
            lemma_same_resolved(r.manifest@, named, b, a, host);
        }
    }
}

/// Whether two inputs hold the same.
pub open spec fn same_input(a: BuildInput, b: BuildInput) -> bool {
    &&& a.name@ == b.name@
    &&& a.kind == b.kind
    &&& a.value.tree() == b.value.tree()
    &&& a.origin == b.origin
    &&& a.declared_at.same(b.declared_at)
}

/// Whether inputs of a build hold the same.
pub open spec fn same_resolved(a: ResolvedInputs, b: ResolvedInputs) -> bool {
    &&& a.manifest@.len() == b.manifest@.len()
    &&& forall|i: int|
        0 <= i < a.manifest@.len() ==> same_input(#[trigger] a.manifest@[i], b.manifest@[i])
    &&& a.values@.len() == b.values@.len()
    &&& forall|i: int|
        0 <= i < a.values@.len() ==> (#[trigger] a.values@[i]).0@ == b.values@[i].0@
            && a.values@[i].1.tree() == b.values@[i].1.tree()
    &&& match (a.help, b.help) {
        (Some(x), Some(y)) => x@ == y@,
        (None, None) => true,
        _ => false,
    }
}

/// The inputs are those that were named, and no others.
proof fn lemma_input_names(
    inputs: Seq<BuildInput>,
    named: Seq<NamedView>,
    supplied: Seq<(Seq<char>, Seq<char>)>,
    host: Seq<char>,
)
    requires
        distinct_names(named),
        all_resolved(inputs, named, supplied, host),
    ensures
        input_names(inputs).to_set() == Seq::new(named.len(), |k: int| named[k].name).to_set(),
{
    let names = Seq::new(named.len(), |k: int| named[k].name);
    let held = input_names(inputs);
    lemma_ascending_distinct(held);
    assert(names.no_duplicates()) by {
        assert forall|i: int, j: int|
            0 <= i < names.len() && 0 <= j < names.len() && i != j implies names[i] != names[j] by {
            if i < j {
                assert(named[i].name != named[j].name);
            } else {
                assert(named[j].name != named[i].name);
            }
        }
    }
    names.unique_seq_to_set();
    held.unique_seq_to_set();
    assert forall|name: Seq<char>| names.to_set().contains(name) implies held.to_set().contains(
        name,
    ) by {
        let k = choose|k: int| 0 <= k < names.len() && names[k] == name;
        assert(resolves(inputs, named[k], supplied, host));
        let i = choose|i: int|
            0 <= i < inputs.len() && resolved_from(#[trigger] inputs[i], named[k], supplied, host);
        assert(held[i] == name);
    }
    lemma_subset_equality(names.to_set(), held.to_set());
}

/// Accepted arguments settle the inputs: whatever inputs are resolved from them hold the
/// same.
pub proof fn law_arguments_settle_the_inputs(
    a: ResolvedInputs,
    b: ResolvedInputs,
    schema: Seq<(String, u64)>,
    specs: Seq<(u64, InputSpec)>,
    arguments: Seq<Option<String>>,
    host: Seq<char>,
)
    requires
        inputs_problem(schema, specs, arguments) is None,
        resolution(a, schema, specs, arguments, host),
        resolution(b, schema, specs, arguments, host),
    ensures
        same_resolved(a, b),
{
    let named = in_order(declared(schema, specs));
    let gave = supplied(named, effective_arguments(told(arguments)), 0, Seq::empty())->Ok_0;
    let x = a.manifest@;
    let y = b.manifest@;
    lemma_in_order_names(schema, specs);
    lemma_input_names(x, named, gave, host);
    lemma_input_names(y, named, gave, host);
    lemma_ascending_unique(input_names(x), input_names(y));
    lemma_ascending_distinct(input_names(x));
    let names = Seq::new(named.len(), |k: int| named[k].name);
    assert forall|i: int| 0 <= i < x.len() implies same_input(#[trigger] x[i], y[i]) by {
        assert(input_names(x)[i] == x[i].name@);
        assert(input_names(y)[i] == y[i].name@);
        assert(input_names(x).to_set().contains(x[i].name@));
        assert(names.to_set().contains(x[i].name@));
        let k = choose|k: int| 0 <= k < names.len() && names[k] == x[i].name@;
        assert(resolves(x, named[k], gave, host));
        assert(resolves(y, named[k], gave, host));
        let m = choose|m: int|
            0 <= m < x.len() && resolved_from(#[trigger] x[m], named[k], gave, host);
        let n = choose|n: int|
            0 <= n < y.len() && resolved_from(#[trigger] y[n], named[k], gave, host);
        assert(input_names(x)[m] == x[m].name@);
        assert(input_names(y)[n] == y[n].name@);
        assert(m == i && n == i);
        let spec = named[k].spec.declared_at;
        assert forall|c: int| 0 <= c < x[i].declared_at.callers@.len() implies (
        #[trigger] x[i].declared_at.callers@[c]).same(y[i].declared_at.callers@[c]) by {
            assert(x[i].declared_at.callers@[c].same(spec.callers@[c]));
            assert(y[i].declared_at.callers@[c].same(spec.callers@[c]));
        }
    }
    assert forall|i: int| 0 <= i < a.values@.len() implies (#[trigger] a.values@[i]).0@
        == b.values@[i].0@ && a.values@[i].1.tree() == b.values@[i].1.tree() by {
        assert(same_input(x[i], y[i]));
        assert(b.values@[i].0@ == y[i].name@);
    }
}

/// An input is given once. Where the arguments of a project give a value to an input,
/// they are refused with another option for it behind them, however that is spelt.
pub proof fn law_inputs_are_given_once(
    schema: Seq<(String, u64)>,
    specs: Seq<(u64, InputSpec)>,
    arguments: Seq<Option<String>>,
    others: Seq<Option<String>>,
    option: Seq<Seq<char>>,
)
    requires
        inputs_problem(schema, specs, arguments) is None,
        !told(arguments).contains("--help"@),
        is_option(in_order(declared(schema, specs)), option),
        ({
            let named = in_order(declared(schema, specs));
            exists|k: int|
                0 <= k < options_in(named, told(arguments), 0).len() && told_by(
                    named,
                    #[trigger] options_in(named, told(arguments), 0)[k],
                ).0 == told_by(named, option).0
        }),
        told(others) == told(arguments) + option,
    ensures
        inputs_problem(schema, specs, others) is Some,
{
    let named = in_order(declared(schema, specs));
    let texts = told(arguments);
    let options = options_in(named, texts, 0);
    let none: Seq<(Seq<char>, Seq<char>)> = Seq::empty();
    let more = options.push(option);
    lemma_options(named, texts, 0, none);
    assert(texts.skip(0) =~= texts);
    let at = choose|k: int|
        0 <= k < options.len() && told_by(named, #[trigger] options[k]).0 == told_by(
            named,
            option,
        ).0;
    lemma_arguments_push(options, option);
    assert forall|k: int| 0 <= k < more.len() implies is_option(named, #[trigger] more[k]) by {
        if k < options.len() {
            assert(more[k] == options[k]);
        }
    }
    lemma_supplied(named, Seq::empty(), more, none);
    assert(Seq::<Seq<char>>::empty() + arguments_of(more) =~= told(others));
    let list = all_told(named, more);
    lemma_gathered(none, list);
    assert(none + list =~= list);
    assert(list[at].0 == list[options.len() as int].0);
    if told(others).contains("--help"@) {
        assert(is_option(named, options[at]));
        lemma_arguments_of(options, options[at][0]);
        assert(options[at].contains(options[at][0]));
        let i = choose|i: int| 0 <= i < texts.len() && texts[i] == options[at][0];
        assert(texts[i] != "--help"@) by {
            assert(texts.contains(texts[i]));
        }
        assert(told(others)[i] == texts[i]);
        assert(more_than_help(told(others)));
    }
}

proof fn lemma_arguments_push(options: Seq<Seq<Seq<char>>>, option: Seq<Seq<char>>)
    ensures
        arguments_of(options.push(option)) == arguments_of(options) + option,
    decreases options.len(),
{
    let more = options.push(option);
    if options.len() == 0 {
        assert(more.skip(1) =~= Seq::empty());
        assert(arguments_of(more.skip(1)) =~= Seq::empty());
        assert(more[0] == option);
        assert(arguments_of(more) =~= arguments_of(options) + option);
    } else {
        assert(more.skip(1) =~= options.skip(1).push(option));
        lemma_arguments_push(options.skip(1), option);
        assert(arguments_of(more) =~= arguments_of(options) + option);
    }
}

} // verus!
