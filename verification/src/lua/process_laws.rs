//! What the options of a process promise.
use vstd::prelude::*;
use vstd::string::*;

use crate::lua::process::{
    all_applied, change_of, changed, milliseconds_of, option_problem, pair_problem, pairs_problem,
    placed, variable_problem, variables_problem, Change, OptionPair, OptionsView, ProcessValue,
    VariableValue,
};
use crate::model::path::{absolute, path_join};
use crate::text::pieces;

verus! {

/// Whether a pair of an options table sets an option.
pub open spec fn sets(pair: OptionPair, key: Seq<char>) -> bool {
    pair matches Ok(set) && set.0@ == key
}

/// Whether the option was set last by this pair.
pub open spec fn set_last(pairs: Seq<OptionPair>, key: Seq<char>, at: int) -> bool {
    &&& 0 <= at < pairs.len()
    &&& sets(pairs[at], key)
    &&& forall|j: int| at < j < pairs.len() ==> !sets(#[trigger] pairs[j], key)
}

/// Whether no pair sets an option.
pub open spec fn unset(pairs: Seq<OptionPair>, key: Seq<char>) -> bool {
    forall|j: int| 0 <= j < pairs.len() ==> !sets(#[trigger] pairs[j], key)
}

/// Whether options hold what a value says under a key.
pub open spec fn holds_option(
    options: OptionsView,
    root: Seq<char>,
    key: Seq<char>,
    value: ProcessValue,
) -> bool {
    &&& key == "cwd"@ ==> options.cwd == path_join(root, value->text->Ok_0@) && options.cwd_display
        == value->text->Ok_0@
    &&& key == "stdin"@ ==> options.stdin == Some(value->bytes@)
    &&& key == "timeout"@ ==> options.timeout_ms == Some(milliseconds_of(value))
    &&& key == "max_output"@ ==> options.max_output == value->Integer_value
    &&& key == "sensitive"@ ==> options.sensitive == value->Boolean_0
    &&& key == "shell"@ ==> options.shell == Some(value->text->Ok_0@)
}

/// Whether options are under a key what they are where nothing is said.
pub open spec fn holds_nothing(options: OptionsView, root: Seq<char>, key: Seq<char>) -> bool {
    &&& key == "cwd"@ ==> options.cwd == root && options.cwd_display == "."@
    &&& key == "env"@ ==> options.environment.len() == 0
    &&& key == "stdin"@ ==> options.stdin is None
    &&& key == "timeout"@ ==> options.timeout_ms is None
    &&& key == "max_output"@ ==> options.max_output == 1048576
    &&& key == "sensitive"@ ==> !options.sensitive
    &&& key == "shell"@ ==> options.shell is None
}

/// Whether an option has a value that it may have.
pub open spec fn proper(key: Seq<char>, value: ProcessValue) -> bool {
    ||| key == "cwd"@ && value is Bytes && (value->text matches Ok(path) && !path@.contains('\0')
        && (absolute(path@) || (!pieces(path@, '/').contains(".."@) && pieces(path@, '/')[0]
        != "."@)))
    ||| key == "env"@ && value is Table
    ||| key == "stdin"@ && value is Bytes
    ||| key == "timeout"@ && ((value matches ProcessValue::Integer { value: n, .. } && n > 0) || (
    value matches ProcessValue::Number(Some(_))))
    ||| key == "max_output"@ && (value matches ProcessValue::Integer { value: n, .. } && 1 <= n
        <= 67108864)
    ||| key == "sensitive"@ && value is Boolean
    ||| key == "shell"@ && value is Bytes && (value->text matches Ok(path) && absolute(path@))
}

proof fn lemma_keys()
    ensures
        "cwd"@.len() == 3,
        "env"@.len() == 3,
        "cwd"@[0] == 'c',
        "env"@[0] == 'e',
        "stdin"@.len() == 5,
        "shell"@.len() == 5,
        "stdin"@[1] == 't',
        "shell"@[1] == 'h',
        "timeout"@.len() == 7,
        "max_output"@.len() == 10,
        "sensitive"@.len() == 9,
{
    reveal_strlit("cwd");
    reveal_strlit("env");
    reveal_strlit("stdin");
    reveal_strlit("shell");
    reveal_strlit("timeout");
    reveal_strlit("max_output");
    reveal_strlit("sensitive");
}

/// The options of a process take effect: each holds what was last said of it, and one that
/// nothing was said of is as it is without options.
pub proof fn law_options_take_effect(
    pairs: Seq<OptionPair>,
    root: Seq<char>,
    place: Seq<char>,
    key: Seq<char>,
    at: int,
)
    requires
        pairs_problem(pairs, place) is None,
    ensures
        set_last(pairs, key, at) ==> holds_option(
            all_applied(pairs, root),
            root,
            key,
            (pairs[at]->Ok_0).1,
        ),
        unset(pairs, key) ==> holds_nothing(all_applied(pairs, root), root, key),
    decreases pairs.len(),
{
    lemma_keys();
    if pairs.len() > 0 {
        let front = pairs.drop_last();
        let last = pairs.len() - 1;
        assert(pairs[last] is Ok);
        let set = pairs[last]->Ok_0;
        law_options_take_effect(front, root, place, key, at);
        if unset(pairs, key) {
            assert forall|j: int| 0 <= j < front.len() implies !sets(#[trigger] front[j], key) by {
                assert(!sets(pairs[j], key));
            }
            assert(!sets(pairs[last], key));
            assert(set.0@ != key);
        }
        if set_last(pairs, key, at) && at < last {
            assert(front[at] == pairs[at]);
            assert forall|j: int| at < j < front.len() implies !sets(#[trigger] front[j], key) by {
                assert(!sets(pairs[j], key));
            }
            assert(!sets(pairs[last], key));
            assert(set.0@ != key);
        }
        if set_last(pairs, key, at) && at == last && key == "max_output"@ {
            assert(option_problem(set.0@, set.1, place) is None);
        }
    }
}

/// Options are accepted where each of them is known and has a value that it may have.
pub proof fn law_accepted_options_are_proper(pairs: Seq<OptionPair>, place: Seq<char>, at: int)
    requires
        pairs_problem(pairs, place) is None,
        0 <= at < pairs.len(),
    ensures
        pairs[at] matches Ok(set) && proper(set.0@, set.1),
        (pairs[at]->Ok_0).0@ == "env"@ ==> variables_problem((pairs[at]->Ok_0).1->Table_0@) is None,
    decreases pairs.len(),
{
    lemma_keys();
    if at < pairs.len() - 1 {
        assert(pairs.drop_last()[at] == pairs[at]);
        law_accepted_options_are_proper(pairs.drop_last(), place, at);
    } else {
        assert(pair_problem(pairs[at], place) is None);
    }
}

proof fn lemma_placed(list: Seq<Change>, item: Change, x: Change)
    ensures
        placed(list, item).contains(x) <==> list.contains(x) || x == item,
        placed(list, item).len() == list.len() + 1,
    decreases list.len(),
{
    if list.len() == 0 || !crate::lua::process::after(list.last(), item) {
        lemma_push(list, item, x);
    } else {
        let front = list.drop_last();
        lemma_placed(front, item, x);
        lemma_push(placed(front, item), list.last(), x);
        lemma_push(front, list.last(), x);
        assert(front.push(list.last()) =~= list);
    }
}

proof fn lemma_push(list: Seq<Change>, item: Change, x: Change)
    ensures
        list.push(item).contains(x) <==> list.contains(x) || x == item,
{
    let more = list.push(item);
    assert(more[list.len() as int] == item);
    if list.contains(x) {
        let i = choose|i: int| 0 <= i < list.len() && list[i] == x;
        assert(more[i] == x);
    }
    if more.contains(x) {
        let i = choose|i: int| 0 <= i < more.len() && more[i] == x;
        if i < list.len() {
            assert(list[i] == x);
        }
    }
}

/// The variables of a process are changed as they were asked for: each text is set, each
/// `false` removes its variable, and nothing else changes. Names are proper.
pub proof fn law_variables_are_changed_as_asked(
    list: Seq<Change>,
    pairs: Seq<std::result::Result<(String, VariableValue), String>>,
    at: int,
)
    requires
        variables_problem(pairs) is None,
        0 <= at < pairs.len(),
    ensures
        changed(list, pairs).len() == list.len() + pairs.len(),
        pairs[at] matches Ok(pair) && {
            &&& pair.0@.len() > 0 && !pair.0@.contains('=') && !pair.0@.contains('\0')
            &&& match pair.1 {
                VariableValue::Text(text) => !text@.contains('\0') && changed(list, pairs).contains(
                    Change { name: pair.0@, value: Some(text@) },
                ),
                VariableValue::Removed => changed(list, pairs).contains(
                    Change { name: pair.0@, value: None },
                ),
                _ => false,
            }
        },
        forall|x: Change| list.contains(x) ==> #[trigger] changed(list, pairs).contains(x),
    decreases pairs.len(),
{
    let front = pairs.drop_last();
    let last = pairs.len() - 1;
    let item = change_of(pairs[last]->Ok_0);
    let before = changed(list, front);
    assert(variable_problem(pairs[last]) is None);
    if front.len() > 0 {
        law_variables_are_changed_as_asked(
            list,
            front,
            if at < last {
                at
            } else {
                0
            },
        );
    } else {
        assert(before == list);
    }
    if at < last {
        assert(front[at] == pairs[at]);
        lemma_placed(before, item, change_of(pairs[at]->Ok_0));
    } else {
        lemma_placed(before, item, item);
    }
    assert forall|x: Change| list.contains(x) implies #[trigger] changed(list, pairs).contains(
        x,
    ) by {
        lemma_placed(before, item, x);
        assert(before.contains(x));
    }
}

} // verus!
