//! The inputs that a repository declares and the arguments that set them.
use vstd::prelude::*;
use vstd::string::*;

use crate::error::{first, problem_if, reports, Result, WombatError};
use crate::json::{compact, compact_text, JsonTree};
use crate::lua::options::{
    all_text, get, item_texts, option, read_texts, reject_unknown_options, string_option,
    unknown_problem,
};
use crate::model::context::{
    arch_named, os_named, platform_problem, TargetPlatform,
};
use crate::model::frozen::{frozen_value, FrozenValue};
use crate::model::manifest::{BuildInput, BuildInputKind, BuildInputOrigin, SourceTrace};
use crate::number::{decimal, decimal_text, parse_signed, signed_decimal, signed_parsed, signed_text};
use crate::order::{ascending, before, lemma_total, lemma_transitive, precedes};
use crate::text::{
    cat2, cat3, cat4, cat5, chars_of, cut, holds, join, joined, pieces, replace_char, replaced,
    same, split_once, starts_with, strip_prefix, views,
};

verus! {

/// A declared input.
#[derive(Debug, PartialEq)]
pub struct InputSpec {
    /// Its place among the declared inputs
    pub order: u64,
    /// Its kind
    pub kind: BuildInputKind,
    /// Its long option
    pub long: Option<String>,
    /// Its short option
    pub short: Option<char>,
    /// What it is for
    pub help: Option<String>,
    /// Its value where none is given
    pub default: Option<FrozenValue>,
    /// The values of a choice
    pub choices: Vec<String>,
    /// The least integer
    pub min: Option<i64>,
    /// The greatest integer
    pub max: Option<i64>,
    /// The declaration
    pub declared_at: SourceTrace,
}

/// Whether a character is an ASCII letter or digit.
pub open spec fn alphanumeric(c: char) -> bool {
    ('a' <= c <= 'z') || ('A' <= c <= 'Z') || ('0' <= c <= '9')
}

fn is_alphanumeric(c: char) -> (r: bool)
    ensures
        r == alphanumeric(c),
{
    ('a' <= c && c <= 'z') || ('A' <= c && c <= 'Z') || ('0' <= c && c <= '9')
}

/// Whether text may be a long option.
pub open spec fn valid_long(value: Seq<char>) -> bool {
    &&& value != "help"@
    &&& !"no-"@.is_prefix_of(value)
    &&& value.len() > 0 && alphanumeric(value[0])
    &&& forall|i: int|
        0 <= i < value.len() ==> alphanumeric(#[trigger] value[i]) || value[i] == '-'
}

/// What is wrong with a long option.
pub open spec fn long_problem(value: Seq<char>) -> Option<Seq<char>> {
    problem_if(!valid_long(value), "invalid project long option `"@ + value + "`"@)
}

fn validate_long(value: &str) -> (r: Result<()>)
    ensures
        reports(r, long_problem(value@)),
{
    let chars = chars_of(value);
    let mut valid = !same(value, "help") && !starts_with(value, "no-") && chars.len() > 0
        && is_alphanumeric(chars[0]);
    let mut i: usize = 0;
    while i < chars.len()
        invariant
            0 <= i <= chars@.len(),
            chars@ == value@,
            valid == (value@ != "help"@ && !"no-"@.is_prefix_of(value@) && (value@.len() > 0
                && alphanumeric(value@[0])) && forall|j: int|
                0 <= j < i ==> alphanumeric(#[trigger] value@[j]) || value@[j] == '-'),
        decreases chars@.len() - i,
    {
        if !is_alphanumeric(chars[i]) && chars[i] != '-' {
            assert(!(alphanumeric(value@[i as int]) || value@[i as int] == '-'));
            valid = false;
        }
        i += 1;
    }
    if !valid {
        return Err(
            WombatError::Configuration(cat3("invalid project long option `", value, "`")),
        );
    }
    Ok(())
}

/// Whether text may be the name of an input: a Lua identifier.
pub open spec fn valid_name(name: Seq<char>) -> bool {
    &&& name.len() > 0
    &&& (alphanumeric(name[0]) && !('0' <= name[0] <= '9')) || name[0] == '_'
    &&& forall|i: int|
        0 <= i < name.len() ==> alphanumeric(#[trigger] name[i]) || name[i] == '_'
}

/// What is wrong with the name of an input.
pub open spec fn name_problem(name: Seq<char>) -> Option<Seq<char>> {
    problem_if(
        !valid_name(name),
        "invalid input name `"@ + name + "`; use a Lua identifier-style name"@,
    )
}

fn validate_name(name: &str) -> (r: Result<()>)
    ensures
        reports(r, name_problem(name@)),
{
    let chars = chars_of(name);
    let mut valid = chars.len() > 0 && ((is_alphanumeric(chars[0]) && !('0' <= chars[0] && chars[0]
        <= '9')) || chars[0] == '_');
    let mut i: usize = 0;
    while i < chars.len()
        invariant
            0 <= i <= chars@.len(),
            chars@ == name@,
            valid == (name@.len() > 0 && ((alphanumeric(name@[0]) && !('0' <= name@[0] <= '9'))
                || name@[0] == '_') && forall|j: int|
                0 <= j < i ==> alphanumeric(#[trigger] name@[j]) || name@[j] == '_'),
        decreases chars@.len() - i,
    {
        if !is_alphanumeric(chars[i]) && chars[i] != '_' {
            assert(!(alphanumeric(name@[i as int]) || name@[i as int] == '_'));
            valid = false;
        }
        i += 1;
    }
    if !valid {
        return Err(
            WombatError::Configuration(
                cat3("invalid input name `", name, "`; use a Lua identifier-style name"),
            ),
        );
    }
    Ok(())
}

/// What is wrong with an integer.
pub open spec fn integer_problem(value: int, min: Option<i64>, max: Option<i64>) -> Option<
    Seq<char>,
> {
    problem_if(
        (min matches Some(least) && value < least) || (max matches Some(most) && value > most),
        "integer `"@ + signed_decimal(value) + "` is outside its declared bounds"@,
    )
}

fn validate_integer(value: i64, min: Option<i64>, max: Option<i64>) -> (r: Result<()>)
    ensures
        reports(r, integer_problem(value as int, min, max)),
{
    let low = match min {
        Some(least) => value < least,
        None => false,
    };
    let high = match max {
        Some(most) => value > most,
        None => false,
    };
    if low || high {
        return Err(
            WombatError::Configuration(
                cat3(
                    "integer `",
                    signed_text(value).as_str(),
                    "` is outside its declared bounds",
                ),
            ),
        );
    }
    Ok(())
}

/// What is wrong with a text option of an input.
pub open spec fn text_problem(options: Seq<(String, FrozenValue)>, key: Seq<char>) -> Option<
    Seq<char>,
> {
    problem_if(
        option(options, key) is Some && !(option(options, key) matches Some(
            FrozenValue::String(value),
        ) && value@.len() > 0),
        "input `"@ + key + "` must be a non-empty string"@,
    )
}

fn take_optional_string(options: &Vec<(String, FrozenValue)>, key: &str) -> (r: Result<
    Option<String>,
>)
    ensures
        reports(r, text_problem(options@, key@)),
        r matches Ok(text) ==> crate::lua::options::holds_option(text, options@, key@),
{
    match get(options, key) {
        None => Ok(None),
        Some(value) => {
            if let FrozenValue::String(text) = value {
                if !text.as_str().is_empty() {
                    return Ok(Some(text.clone()));
                }
            }
            Err(
                WombatError::Configuration(
                    cat3("input `", key, "` must be a non-empty string"),
                ),
            )
        },
    }
}

/// What is wrong with an integer option of an input.
pub open spec fn bound_problem(options: Seq<(String, FrozenValue)>, key: Seq<char>) -> Option<
    Seq<char>,
> {
    problem_if(
        option(options, key) is Some && !(option(options, key)->0 is Integer),
        "input `"@ + key + "` must be an integer"@,
    )
}

/// The value of an integer option of an input.
pub open spec fn bound_option(options: Seq<(String, FrozenValue)>, key: Seq<char>) -> Option<i64> {
    match option(options, key) {
        Some(FrozenValue::Integer(value)) => Some(value),
        _ => None,
    }
}

fn take_optional_integer(options: &Vec<(String, FrozenValue)>, key: &str) -> (r: Result<
    Option<i64>,
>)
    ensures
        reports(r, bound_problem(options@, key@)),
        r matches Ok(value) ==> value == bound_option(options@, key@),
{
    match get(options, key) {
        None => Ok(None),
        Some(FrozenValue::Integer(value)) => Ok(Some(*value)),
        Some(_) => Err(
            WombatError::Configuration(cat3("input `", key, "` must be an integer")),
        ),
    }
}

/// What is wrong with the values of a choice.
pub open spec fn values_problem(options: Seq<(String, FrozenValue)>) -> Option<Seq<char>> {
    match option(options, "values"@) {
        None => None,
        Some(FrozenValue::Array(items)) => problem_if(
            !all_text(items@),
            "input `values` must contain only strings"@,
        ),
        Some(_) => Some("input `values` must be an array"@),
    }
}

/// The values of a choice.
pub open spec fn values_option(options: Seq<(String, FrozenValue)>) -> Seq<Seq<char>> {
    match option(options, "values"@) {
        Some(FrozenValue::Array(items)) => item_texts(items@),
        _ => Seq::empty(),
    }
}

fn take_values(options: &Vec<(String, FrozenValue)>) -> (r: Result<Vec<String>>)
    ensures
        reports(r, values_problem(options@)),
        r matches Ok(values) ==> views(values@) == values_option(options@),
{
    match get(options, "values") {
        None => {
            let values: Vec<String> = Vec::new();
            assert(views(values@) =~= Seq::empty());
            Ok(values)
        },
        Some(FrozenValue::Array(items)) => read_texts(
            items,
            "input `values` must contain only strings",
        ),
        Some(_) => Err(WombatError::configuration("input `values` must be an array")),
    }
}

/// What is wrong with the short option of an input.
pub open spec fn short_problem(options: Seq<(String, FrozenValue)>) -> Option<Seq<char>> {
    first(
        text_problem(options, "short"@),
        problem_if(
            option(options, "short"@) is Some && !(string_option(options, "short"@).len() == 1
                && alphanumeric(string_option(options, "short"@)[0])),
            "input `short` must be one ASCII letter or digit"@,
        ),
    )
}

/// The short option of an input.
pub open spec fn short_option(options: Seq<(String, FrozenValue)>) -> Option<char> {
    match option(options, "short"@) {
        Some(FrozenValue::String(text)) => Some(text@[0]),
        _ => None,
    }
}

fn take_short(options: &Vec<(String, FrozenValue)>) -> (r: Result<Option<char>>)
    ensures
        reports(r, short_problem(options@)),
        r matches Ok(short) ==> short == short_option(options@),
{
    match take_optional_string(options, "short")? {
        None => Ok(None),
        Some(text) => {
            let chars = chars_of(text.as_str());
            if chars.len() == 1 && is_alphanumeric(chars[0]) {
                return Ok(Some(chars[0]));
            }
            Err(WombatError::configuration("input `short` must be one ASCII letter or digit"))
        },
    }
}

/// The kind of an input by its name.
pub open spec fn kind_named(kind: Seq<char>) -> Option<BuildInputKind> {
    if kind == "flag"@ {
        Some(BuildInputKind::Flag)
    } else if kind == "choice"@ {
        Some(BuildInputKind::Choice)
    } else if kind == "string"@ {
        Some(BuildInputKind::String)
    } else if kind == "integer"@ {
        Some(BuildInputKind::Integer)
    } else if kind == "target"@ {
        Some(BuildInputKind::Target)
    } else {
        None
    }
}

/// The message about options of another kind of input.
pub open spec fn foreign_message(kind: Seq<char>) -> Seq<char> {
    kind + " input received options supported only by another input kind"@
}

/// What is wrong with options for this kind of input.
pub open spec fn kind_problem(
    kind: BuildInputKind,
    default: Option<FrozenValue>,
    choices: Seq<Seq<char>>,
    min: Option<i64>,
    max: Option<i64>,
) -> Option<Seq<char>> {
    let bounded = min is Some || max is Some;
    match kind {
        BuildInputKind::Flag => first(
            problem_if(choices.len() > 0 || bounded, foreign_message("flag"@)),
            problem_if(
                default is Some && !(default->0 is Boolean),
                "flag input default must be boolean"@,
            ),
        ),
        BuildInputKind::Choice => first(
            problem_if(
                choices.len() == 0 || bounded,
                "choice input requires a non-empty string `values` array and does not support min/max"@,
            ),
            first(
                problem_if(
                    !choices.no_duplicates() || exists|i: int|
                        0 <= i < choices.len() && (#[trigger] choices[i]).len() == 0,
                    "choice input values must be non-empty and unique"@,
                ),
                match default {
                    Some(FrozenValue::String(value)) => problem_if(
                        !choices.contains(value@),
                        "choice input default `"@ + value@ + "` is not one of its values"@,
                    ),
                    Some(_) => Some("choice input default must be a string"@),
                    None => None,
                },
            ),
        ),
        BuildInputKind::String => first(
            problem_if(choices.len() > 0 || bounded, foreign_message("string"@)),
            problem_if(
                default is Some && !(default->0 is String),
                "string input default must be a string"@,
            ),
        ),
        BuildInputKind::Integer => first(
            problem_if(choices.len() > 0, foreign_message("integer"@)),
            first(
                problem_if(
                    min is Some && max is Some && min->0 > max->0,
                    "integer input min exceeds max"@,
                ),
                match default {
                    Some(FrozenValue::Integer(value)) => integer_problem(value as int, min, max),
                    Some(_) => Some("integer input default must be an integer"@),
                    None => None,
                },
            ),
        ),
        BuildInputKind::Target => problem_if(
            default is Some || choices.len() > 0 || bounded,
            "target input defaults to the observed host and does not support default, values, min, or max"@,
        ),
    }
}

fn any_empty(list: &Vec<String>) -> (r: bool)
    ensures
        r == exists|i: int| 0 <= i < list@.len() && (#[trigger] views(list@)[i]).len() == 0,
{
    let mut i: usize = 0;
    while i < list.len()
        invariant
            0 <= i <= list@.len(),
            forall|j: int| 0 <= j < i ==> (#[trigger] views(list@)[j]).len() > 0,
        decreases list@.len() - i,
    {
        assert(views(list@)[i as int] == list@[i as int]@);
        if list[i].as_str().is_empty() {
            assert(views(list@)[i as int].len() == 0);
            return true;
        }
        i += 1;
    }
    false
}

fn foreign_options(kind: &str) -> (r: WombatError)
    ensures
        crate::error::is_configuration(r, foreign_message(kind@)),
{
    WombatError::Configuration(
        cat2(kind, " input received options supported only by another input kind"),
    )
}

fn check_kind(
    kind: BuildInputKind,
    default: Option<&FrozenValue>,
    choices: &Vec<String>,
    min: Option<i64>,
    max: Option<i64>,
) -> (r: Result<()>)
    ensures
        reports(
            r,
            kind_problem(
                kind,
                match default {
                    Some(value) => Some(*value),
                    None => None,
                },
                views(choices@),
                min,
                max,
            ),
        ),
{
    let bounded = min.is_some() || max.is_some();
    assert(choices@.len() == views(choices@).len());
    match kind {
        BuildInputKind::Flag => {
            if choices.len() > 0 || bounded {
                return Err(foreign_options("flag"));
            }
            match default {
                None => {},
                Some(FrozenValue::Boolean(_)) => {},
                Some(_) => {
                    return Err(WombatError::configuration("flag input default must be boolean"));
                },
            }
        },
        BuildInputKind::Choice => {
            if choices.len() == 0 || bounded {
                return Err(
                    WombatError::configuration(
                        "choice input requires a non-empty string `values` array and does not support min/max",
                    ),
                );
            }
            if crate::order::sorted_unique(choices).is_none() || any_empty(choices) {
                return Err(
                    WombatError::configuration("choice input values must be non-empty and unique"),
                );
            }
            match default {
                None => {},
                Some(FrozenValue::String(value)) => {
                    if !holds(choices, value.as_str()) {
                        return Err(
                            WombatError::Configuration(
                                cat3(
                                    "choice input default `",
                                    value.as_str(),
                                    "` is not one of its values",
                                ),
                            ),
                        );
                    }
                },
                Some(_) => {
                    return Err(
                        WombatError::configuration("choice input default must be a string"),
                    );
                },
            }
        },
        BuildInputKind::String => {
            if choices.len() > 0 || bounded {
                return Err(foreign_options("string"));
            }
            match default {
                None => {},
                Some(FrozenValue::String(_)) => {},
                Some(_) => {
                    return Err(
                        WombatError::configuration("string input default must be a string"),
                    );
                },
            }
        },
        BuildInputKind::Integer => {
            if choices.len() > 0 {
                return Err(foreign_options("integer"));
            }
            if let (Some(least), Some(most)) = (min, max) {
                if least > most {
                    return Err(WombatError::configuration("integer input min exceeds max"));
                }
            }
            match default {
                None => {},
                Some(FrozenValue::Integer(value)) => {
                    validate_integer(*value, min, max)?;
                },
                Some(_) => {
                    return Err(
                        WombatError::configuration("integer input default must be an integer"),
                    );
                },
            }
        },
        BuildInputKind::Target => {
            if default.is_some() || choices.len() > 0 || bounded {
                return Err(
                    WombatError::configuration(
                        "target input defaults to the observed host and does not support default, values, min, or max",
                    ),
                );
            }
        },
    }
    Ok(())
}

/// The options that an input knows.
pub open spec fn input_options() -> Seq<&'static str> {
    seq!["long", "short", "help", "default", "values", "min", "max"]
}

/// What is wrong with a declared input.
pub open spec fn input_problem(kind: Seq<char>, options: FrozenValue) -> Option<Seq<char>> {
    match kind_named(kind) {
        None => Some("unknown input kind `"@ + kind + "`"@),
        Some(known) => match options {
            FrozenValue::Table(entries) => {
                let o = entries@;
                first(
                    text_problem(o, "long"@),
                    first(
                        match option(o, "long"@) {
                            Some(FrozenValue::String(long)) => long_problem(long@),
                            _ => None,
                        },
                        first(
                            short_problem(o),
                            first(
                                text_problem(o, "help"@),
                                first(
                                    values_problem(o),
                                    first(
                                        bound_problem(o, "min"@),
                                        first(
                                            bound_problem(o, "max"@),
                                            first(
                                                unknown_problem(
                                                    o,
                                                    input_options(),
                                                    known.label() + " input"@,
                                                ),
                                                kind_problem(
                                                    known,
                                                    option(o, "default"@),
                                                    values_option(o),
                                                    bound_option(o, "min"@),
                                                    bound_option(o, "max"@),
                                                ),
                                            ),
                                        ),
                                    ),
                                ),
                            ),
                        ),
                    ),
                )
            },
            _ => Some("input options must be a string-keyed table"@),
        },
    }
}

/// Whether a declared input is what its options say.
pub open spec fn input_is(
    spec: InputSpec,
    order: u64,
    kind: Seq<char>,
    options: Seq<(String, FrozenValue)>,
    trace: SourceTrace,
) -> bool {
    &&& spec.order == order
    &&& Some(spec.kind) == kind_named(kind)
    &&& crate::lua::options::holds_option(spec.long, options, "long"@)
    &&& spec.short == short_option(options)
    &&& crate::lua::options::holds_option(spec.help, options, "help"@)
    &&& match option(options, "default"@) {
        Some(value) => spec.default is Some && spec.default->0.tree() == value.tree() && (
        spec.default->0 is Boolean <==> value is Boolean) && (spec.default->0 is String
            <==> value is String) && (spec.default->0 is Integer <==> value is Integer),
        None => spec.default is None,
    }
    &&& views(spec.choices@) == values_option(options)
    &&& spec.min == bound_option(options, "min"@)
    &&& spec.max == bound_option(options, "max"@)
    &&& spec.declared_at == trace
}

impl InputSpec {
    /// Reads a declared input.
    pub fn parse(order: u64, kind: &str, options: &FrozenValue, declared_at: SourceTrace) -> (r:
        Result<InputSpec>)
        ensures
            reports(r, input_problem(kind@, *options)),
            r matches Ok(spec) ==> *options is Table && input_is(
                spec,
                order,
                kind@,
                options->Table_0@,
                declared_at,
            ),
    {
        let known = if same(kind, "flag") {
            BuildInputKind::Flag
        } else if same(kind, "choice") {
            BuildInputKind::Choice
        } else if same(kind, "string") {
            BuildInputKind::String
        } else if same(kind, "integer") {
            BuildInputKind::Integer
        } else if same(kind, "target") {
            BuildInputKind::Target
        } else {
            return Err(WombatError::Configuration(cat3("unknown input kind `", kind, "`")));
        };
        let entries = match options {
            FrozenValue::Table(entries) => entries,
            _ => {
                return Err(
                    WombatError::configuration("input options must be a string-keyed table"),
                );
            },
        };
        let long = take_optional_string(entries, "long")?;
        if let Some(text) = &long {
            validate_long(text.as_str())?;
        }
        let short = take_short(entries)?;
        let help = take_optional_string(entries, "help")?;
        let choices = take_values(entries)?;
        let min = take_optional_integer(entries, "min")?;
        let max = take_optional_integer(entries, "max")?;
        let names = ["long", "short", "help", "default", "values", "min", "max"];
        assert(names@ =~= input_options());
        reject_unknown_options(entries, &names, cat2(known.label_name(), " input").as_str())?;
        let declared = get(entries, "default");
        check_kind(known, declared, &choices, min, max)?;
        let default = match declared {
            Some(value) => Some(value.copy()),
            None => None,
        };
        Ok(
            InputSpec {
                order,
                kind: known,
                long,
                short,
                help,
                default,
                choices,
                min,
                max,
                declared_at,
            },
        )
    }
}

/// A declared input with its name in the schema and its long option.
#[derive(Debug, PartialEq)]
pub struct NamedInput {
    /// The name in the schema
    pub name: String,
    /// The long option
    pub long: String,
    /// Where its declaration stands in the list of them
    pub spec: usize,
}

/// What a named input stands for.
pub ghost struct NamedView {
    /// The name in the schema
    pub name: Seq<char>,
    /// The long option
    pub long: Seq<char>,
    /// Its declaration
    pub spec: InputSpec,
}

/// What a list of named inputs stands for.
pub open spec fn named_views(
    named: Seq<NamedInput>,
    specs: Seq<(u64, InputSpec)>,
) -> Seq<NamedView> {
    Seq::new(
        named.len(),
        |i: int| NamedView {
            name: named[i].name@,
            long: named[i].long@,
            spec: specs[named[i].spec as int].1,
        },
    )
}

/// Whether every named input refers to a declaration.
pub open spec fn named_within(named: Seq<NamedInput>, specs: Seq<(u64, InputSpec)>) -> bool {
    forall|i: int| 0 <= i < named.len() ==> (#[trigger] named[i]).spec < specs.len()
}

/// The declaration with a number.
pub open spec fn spec_of(specs: Seq<(u64, InputSpec)>, id: u64) -> Option<InputSpec>
    decreases specs.len(),
{
    if specs.len() == 0 {
        None
    } else if specs.last().0 == id {
        Some(specs.last().1)
    } else {
        spec_of(specs.drop_last(), id)
    }
}

fn find_spec(specs: &Vec<(u64, InputSpec)>, id: u64) -> (r: Option<usize>)
    ensures
        match r {
            Some(i) => i < specs@.len() && spec_of(specs@, id) == Some(specs@[i as int].1),
            None => spec_of(specs@, id) is None,
        },
{
    let mut i: usize = specs.len();
    assert(specs@.take(specs@.len() as int) =~= specs@);
    while i > 0
        invariant
            0 <= i <= specs@.len(),
            spec_of(specs@, id) == spec_of(specs@.take(i as int), id),
        decreases i,
    {
        assert(specs@.take(i as int).drop_last() =~= specs@.take(i - 1));
        i -= 1;
        if specs[i].0 == id {
            return Some(i);
        }
    }
    None
}

/// The long option of a declaration under a name.
pub open spec fn long_of(name: Seq<char>, spec: InputSpec) -> Seq<char> {
    match spec.long {
        Some(long) => long@,
        None => replaced(name, '_', "-"@),
    }
}

fn long_option(name: &str, spec: &InputSpec) -> (r: String)
    ensures
        r@ == long_of(name@, *spec),
{
    match &spec.long {
        Some(long) => long.clone(),
        None => replace_char(name, '_', "-"),
    }
}

/// The inputs that a schema names, in the order of the schema.
pub open spec fn declared(
    schema: Seq<(String, u64)>,
    specs: Seq<(u64, InputSpec)>,
) -> Seq<NamedView> {
    Seq::new(
        schema.len(),
        |i: int| NamedView {
            name: schema[i].0@,
            long: long_of(schema[i].0@, spec_of(specs, schema[i].1)->0),
            spec: spec_of(specs, schema[i].1)->0,
        },
    )
}

/// Whether an input has a name.
pub open spec fn has_name(named: Seq<NamedView>, name: Seq<char>) -> bool {
    exists|i: int| 0 <= i < named.len() && (#[trigger] named[i]).name == name
}

/// Whether an input has a long option.
pub open spec fn has_long(named: Seq<NamedView>, long: Seq<char>) -> bool {
    exists|i: int| 0 <= i < named.len() && (#[trigger] named[i]).long == long
}

/// Whether an input has a short option.
pub open spec fn has_short(named: Seq<NamedView>, short: char) -> bool {
    exists|i: int| 0 <= i < named.len() && (#[trigger] named[i]).spec.short == Some(short)
}

/// Whether a schema names a declaration.
pub open spec fn has_descriptor(schema: Seq<(String, u64)>, id: u64) -> bool {
    exists|i: int| 0 <= i < schema.len() && (#[trigger] schema[i]).1 == id
}

/// What is wrong with the options of an input, after the earlier ones.
pub open spec fn clash_problem(earlier: Seq<NamedView>, item: NamedView) -> Option<Seq<char>> {
    first(
        long_problem(item.long),
        first(
            problem_if(
                has_long(earlier, item.long),
                "duplicate project option `--"@ + item.long + "`"@,
            ),
            first(
                problem_if(
                    item.spec.kind == BuildInputKind::Flag && has_long(
                        earlier,
                        "no-"@ + item.long,
                    ),
                    "project flag `--"@ + item.long + "` conflicts with `--"@ + ("no-"@ + item.long)
                        + "`"@,
                ),
                problem_if(
                    item.spec.short is Some && has_short(earlier, item.spec.short->0),
                    "duplicate project short option `-"@ + seq![item.spec.short->0] + "`"@,
                ),
            ),
        ),
    )
}

/// What is wrong with an entry of a schema, after the earlier ones.
pub open spec fn entry_problem(
    earlier: Seq<(String, u64)>,
    specs: Seq<(u64, InputSpec)>,
    entry: (String, u64),
) -> Option<Seq<char>> {
    first(
        name_problem(entry.0@),
        first(
            problem_if(
                has_name(declared(earlier, specs), entry.0@),
                "duplicate input `"@ + entry.0@ + "`"@,
            ),
            first(
                problem_if(
                    has_descriptor(earlier, entry.1),
                    "Wombat input descriptor `"@ + decimal(entry.1 as nat)
                        + "` is reused; create one descriptor per input"@,
                ),
                match spec_of(specs, entry.1) {
                    None => Some("input `"@ + entry.0@ + "` is not a Wombat input descriptor"@),
                    Some(spec) => clash_problem(
                        declared(earlier, specs),
                        NamedView { name: entry.0@, long: long_of(entry.0@, spec), spec },
                    ),
                },
            ),
        ),
    )
}

/// What is wrong with a schema: the problem of its first wrong entry.
pub open spec fn schema_problem(
    schema: Seq<(String, u64)>,
    specs: Seq<(u64, InputSpec)>,
) -> Option<Seq<char>>
    decreases schema.len(),
{
    if schema.len() == 0 {
        None
    } else {
        first(
            schema_problem(schema.drop_last(), specs),
            entry_problem(schema.drop_last(), specs, schema.last()),
        )
    }
}

/// The problem of a front part of a schema is the problem of the schema.
proof fn lemma_schema_front(schema: Seq<(String, u64)>, specs: Seq<(u64, InputSpec)>, count: int)
    requires
        0 <= count <= schema.len(),
        schema_problem(schema.take(count), specs) is Some,
    ensures
        schema_problem(schema, specs) == schema_problem(schema.take(count), specs),
    decreases schema.len() - count,
{
    if count < schema.len() {
        assert(schema.take(count + 1).drop_last() =~= schema.take(count));
        lemma_schema_front(schema, specs, count + 1);
    } else {
        assert(schema.take(count) =~= schema);
    }
}

fn name_taken(named: &Vec<NamedInput>, specs: &Vec<(u64, InputSpec)>, name: &str) -> (r: bool)
    ensures
        r == has_name(named_views(named@, specs@), name@),
{
    let ghost all = named_views(named@, specs@);
    let mut i: usize = 0;
    while i < named.len()
        invariant
            0 <= i <= named@.len(),
            all == named_views(named@, specs@),
            forall|j: int| 0 <= j < i ==> (#[trigger] all[j]).name != name@,
        decreases named@.len() - i,
    {
        assert(all[i as int].name == named@[i as int].name@);
        if same(named[i].name.as_str(), name) {
            return true;
        }
        i += 1;
    }
    false
}

fn long_taken(named: &Vec<NamedInput>, specs: &Vec<(u64, InputSpec)>, long: &str) -> (r: bool)
    ensures
        r == has_long(named_views(named@, specs@), long@),
{
    let ghost all = named_views(named@, specs@);
    let mut i: usize = 0;
    while i < named.len()
        invariant
            0 <= i <= named@.len(),
            all == named_views(named@, specs@),
            forall|j: int| 0 <= j < i ==> (#[trigger] all[j]).long != long@,
        decreases named@.len() - i,
    {
        assert(all[i as int].long == named@[i as int].long@);
        if same(named[i].long.as_str(), long) {
            return true;
        }
        i += 1;
    }
    false
}

fn short_taken(named: &Vec<NamedInput>, specs: &Vec<(u64, InputSpec)>, short: char) -> (r: bool)
    requires
        named_within(named@, specs@),
    ensures
        r == has_short(named_views(named@, specs@), short),
{
    let ghost all = named_views(named@, specs@);
    let mut i: usize = 0;
    while i < named.len()
        invariant
            0 <= i <= named@.len(),
            named_within(named@, specs@),
            all == named_views(named@, specs@),
            forall|j: int| 0 <= j < i ==> (#[trigger] all[j]).spec.short != Some(short),
        decreases named@.len() - i,
    {
        assert(all[i as int].spec == specs@[named@[i as int].spec as int].1);
        if let Some(other) = specs[named[i].spec].1.short {
            if other == short {
                return true;
            }
        }
        i += 1;
    }
    false
}

fn descriptor_taken(schema: &Vec<(String, u64)>, count: usize, id: u64) -> (r: bool)
    requires
        count <= schema@.len(),
    ensures
        r == has_descriptor(schema@.take(count as int), id),
{
    let mut i: usize = 0;
    while i < count
        invariant
            0 <= i <= count <= schema@.len(),
            forall|j: int| 0 <= j < i ==> (#[trigger] schema@.take(count as int)[j]).1 != id,
        decreases count - i,
    {
        assert(schema@.take(count as int)[i as int] == schema@[i as int]);
        if schema[i].1 == id {
            return true;
        }
        i += 1;
    }
    false
}

fn check_clash(
    named: &Vec<NamedInput>,
    specs: &Vec<(u64, InputSpec)>,
    name: &str,
    long: &str,
    spec: &InputSpec,
) -> (r: Result<()>)
    requires
        named_within(named@, specs@),
    ensures
        reports(
            r,
            clash_problem(
                named_views(named@, specs@),
                (NamedView { name: name@, long: long@, spec: *spec }),
            ),
        ),
{
    validate_long(long)?;
    if long_taken(named, specs, long) {
        return Err(WombatError::Configuration(cat3("duplicate project option `--", long, "`")));
    }
    if spec.kind == BuildInputKind::Flag {
        let negative = cat2("no-", long);
        if long_taken(named, specs, negative.as_str()) {
            return Err(
                WombatError::Configuration(
                    cat5("project flag `--", long, "` conflicts with `--", negative.as_str(), "`"),
                ),
            );
        }
    }
    if let Some(short) = spec.short {
        if short_taken(named, specs, short) {
            let mut letter = String::new();
            letter.push(short);
            assert(letter@ =~= seq![short]);
            return Err(
                WombatError::Configuration(
                    cat3("duplicate project short option `-", letter.as_str(), "`"),
                ),
            );
        }
    }
    Ok(())
}

fn name_inputs(schema: &Vec<(String, u64)>, specs: &Vec<(u64, InputSpec)>) -> (r: Result<
    Vec<NamedInput>,
>)
    ensures
        reports(r, schema_problem(schema@, specs@)),
        r matches Ok(named) ==> named_within(named@, specs@) && named_views(named@, specs@)
            == declared(schema@, specs@),
{
    let mut named: Vec<NamedInput> = Vec::new();
    let mut i: usize = 0;
    assert(named_views(named@, specs@) =~= declared(schema@.take(0), specs@));
    while i < schema.len()
        invariant
            0 <= i <= schema@.len(),
            named@.len() == i,
            named_within(named@, specs@),
            named_views(named@, specs@) == declared(schema@.take(i as int), specs@),
            schema_problem(schema@.take(i as int), specs@) is None,
        decreases schema@.len() - i,
    {
        proof {
            assert(schema@.take(i + 1).drop_last() =~= schema@.take(i as int));
            assert(schema@.take(i + 1).last() == schema@[i as int]);
            if schema_problem(schema@.take(i + 1), specs@) is Some {
                lemma_schema_front(schema@, specs@, i + 1);
            }
        }
        let name = schema[i].0.as_str();
        let id: u64 = schema[i].1;
        validate_name(name)?;
        if name_taken(&named, specs, name) {
            return Err(WombatError::Configuration(cat3("duplicate input `", name, "`")));
        }
        if descriptor_taken(schema, i, id) {
            return Err(
                WombatError::Configuration(
                    cat3(
                        "Wombat input descriptor `",
                        decimal_text(id).as_str(),
                        "` is reused; create one descriptor per input",
                    ),
                ),
            );
        }
        let spec = match find_spec(specs, id) {
            Some(spec) => spec,
            None => {
                return Err(
                    WombatError::Configuration(
                        cat3("input `", name, "` is not a Wombat input descriptor"),
                    ),
                );
            },
        };
        let long = long_option(name, &specs[spec].1);
        check_clash(&named, specs, name, long.as_str(), &specs[spec].1)?;
        let ghost earlier = named@;
        named.push(NamedInput { name: schema[i].0.clone(), long, spec });
        assert(named_views(named@, specs@) =~= named_views(earlier, specs@).push(
            (NamedView { name: name@, long: long_of(name@, specs@[spec as int].1), spec: specs@[spec as int].1 }),
        ));
        assert(declared(schema@.take(i + 1), specs@) =~= declared(schema@.take(i as int), specs@).push(
            (NamedView { name: name@, long: long_of(name@, specs@[spec as int].1), spec: specs@[spec as int].1 }),
        ));
        i += 1;
    }
    assert(schema@.take(i as int) =~= schema@);
    Ok(named)
}

/// A list with an item placed behind all that are not ordered after it.
pub open spec fn placed(list: Seq<NamedView>, item: NamedView) -> Seq<NamedView>
    decreases list.len(),
{
    if list.len() == 0 || list.last().spec.order <= item.spec.order {
        list.push(item)
    } else {
        placed(list.drop_last(), item).push(list.last())
    }
}

/// The inputs in the order of their declarations.
pub open spec fn in_order(list: Seq<NamedView>) -> Seq<NamedView>
    decreases list.len(),
{
    if list.len() == 0 {
        list
    } else {
        placed(in_order(list.drop_last()), list.last())
    }
}

proof fn lemma_placed(list: Seq<NamedView>, item: NamedView, at: int)
    requires
        0 <= at <= list.len(),
        at > 0 ==> list[at - 1].spec.order <= item.spec.order,
        forall|j: int| at <= j < list.len() ==> (#[trigger] list[j]).spec.order > item.spec.order,
    ensures
        placed(list, item) == list.insert(at, item),
    decreases list.len(),
{
    if at == list.len() {
        assert(list.insert(at, item) =~= list.push(item));
    } else {
        assert(list.last() == list[list.len() - 1]);
        lemma_placed(list.drop_last(), item, at);
        assert(list.insert(at, item) =~= list.drop_last().insert(at, item).push(list.last()));
    }
}

/// Whether no two inputs share a name.
pub open spec fn distinct_names(list: Seq<NamedView>) -> bool {
    forall|i: int, j: int|
        0 <= i < j < list.len() ==> (#[trigger] list[i]).name != (#[trigger] list[j]).name
}

proof fn lemma_placed_names(list: Seq<NamedView>, item: NamedView)
    requires
        distinct_names(list),
        !has_name(list, item.name),
    ensures
        distinct_names(placed(list, item)),
        forall|name: Seq<char>|
            has_name(placed(list, item), name) ==> has_name(list, name) || name == item.name,
    decreases list.len(),
{
    let r = placed(list, item);
    if list.len() == 0 || list.last().spec.order <= item.spec.order {
        assert forall|name: Seq<char>| has_name(r, name) implies has_name(list, name) || name
            == item.name by {
            let k = choose|k: int| 0 <= k < r.len() && (#[trigger] r[k]).name == name;
            if k < list.len() {
                assert(list[k].name == name);
            }
        }
    } else {
        let front = list.drop_last();
        assert(!has_name(front, item.name)) by {
            if has_name(front, item.name) {
                let k = choose|k: int| 0 <= k < front.len() && (#[trigger] front[k]).name == item.name;
                assert(list[k].name == item.name);
            }
        }
        assert(distinct_names(front)) by {
            assert forall|i: int, j: int| 0 <= i < j < front.len() implies (#[trigger] front[i]).name
                != (#[trigger] front[j]).name by {
                assert(list[i] == front[i] && list[j] == front[j]);
            }
        }
        lemma_placed_names(front, item);
        let inner = placed(front, item);
        assert(list[list.len() - 1].name == list.last().name);
        assert(!has_name(inner, list.last().name)) by {
            if has_name(inner, list.last().name) {
                if has_name(front, list.last().name) {
                    let k = choose|k: int|
                        0 <= k < front.len() && (#[trigger] front[k]).name == list.last().name;
                    assert(list[k].name == list[list.len() - 1].name);
                }
            }
        }
        assert forall|i: int, j: int| 0 <= i < j < r.len() implies (#[trigger] r[i]).name != (
        #[trigger] r[j]).name by {
            assert(r[i] == inner[i]);
            if j < inner.len() {
                assert(r[j] == inner[j]);
            }
        }
        assert forall|name: Seq<char>| has_name(r, name) implies has_name(list, name) || name
            == item.name by {
            let k = choose|k: int| 0 <= k < r.len() && (#[trigger] r[k]).name == name;
            if k < inner.len() {
                assert(inner[k].name == name);
                assert(has_name(inner, name));
                if has_name(front, name) {
                    let m = choose|m: int| 0 <= m < front.len() && (#[trigger] front[m]).name == name;
                    assert(list[m].name == name);
                }
            } else {
                assert(list[list.len() - 1].name == name);
            }
        }
    }
}

/// Naming keeps the names apart, and ordering the inputs does too.
pub proof fn lemma_in_order_names(schema: Seq<(String, u64)>, specs: Seq<(u64, InputSpec)>)
    requires
        schema_problem(schema, specs) is None,
    ensures
        distinct_names(in_order(declared(schema, specs))),
        forall|name: Seq<char>|
            has_name(in_order(declared(schema, specs)), name) ==> has_name(
                declared(schema, specs),
                name,
            ),
    decreases schema.len(),
{
    let all = declared(schema, specs);
    if schema.len() > 0 {
        let front = schema.drop_last();
        lemma_in_order_names(front, specs);
        assert(all.drop_last() =~= declared(front, specs));
        let item = all.last();
        assert(!has_name(declared(front, specs), item.name));
        lemma_placed_names(in_order(declared(front, specs)), item);
        assert forall|name: Seq<char>| has_name(in_order(all), name) implies has_name(all, name) by {
            if name == item.name {
                assert(all[all.len() - 1].name == name);
            } else {
                assert(has_name(declared(front, specs), name));
                let k = choose|k: int|
                    0 <= k < front.len() && (#[trigger] declared(front, specs)[k]).name == name;
                assert(all[k] == declared(front, specs)[k]);
            }
        }
    }
}

fn order_inputs(named: Vec<NamedInput>, specs: &Vec<(u64, InputSpec)>) -> (r: Vec<NamedInput>)
    requires
        named_within(named@, specs@),
    ensures
        named_within(r@, specs@),
        named_views(r@, specs@) == in_order(named_views(named@, specs@)),
{
    let ghost all = named_views(named@, specs@);
    let mut r: Vec<NamedInput> = Vec::new();
    assert(named_views(r@, specs@) =~= in_order(all.take(0)));
    let mut i: usize = 0;
    while i < named.len()
        invariant
            0 <= i <= named@.len(),
            named_within(named@, specs@),
            all == named_views(named@, specs@),
            named_within(r@, specs@),
            r@.len() == i,
            named_views(r@, specs@) == in_order(all.take(i as int)),
        decreases named@.len() - i,
    {
        let ghost sofar = named_views(r@, specs@);
        let ghost before_insert = r@;
        let order: u64 = specs[named[i].spec].1.order;
        let mut at: usize = r.len();
        while at > 0 && specs[r[at - 1].spec].1.order > order
            invariant
                0 <= at <= r@.len(),
                r@ == before_insert,
                named_within(r@, specs@),
                sofar == named_views(r@, specs@),
                forall|j: int| at <= j < r@.len() ==> (#[trigger] sofar[j]).spec.order > order,
            decreases at,
        {
            at -= 1;
        }
        r.insert(
            at,
            NamedInput { name: named[i].name.clone(), long: named[i].long.clone(), spec: named[i].spec },
        );
        proof {
            assert(all.take(i + 1).drop_last() =~= all.take(i as int));
            assert(all.take(i + 1).last() == all[i as int]);
            lemma_placed(sofar, all[i as int], at as int);
            assert(named_views(r@, specs@) =~= sofar.insert(at as int, all[i as int]));
        }
        i += 1;
    }
    assert(all.take(i as int) =~= all);
    r
}

/// What an argument says.
pub ghost enum Argument {
    /// It is wrong, and why
    Problem(Seq<char>),
    /// It gives a value to an input, and takes up some arguments
    Value {
        /// The name of the input
        name: Seq<char>,
        /// The value
        value: Seq<char>,
        /// How many arguments it takes up
        used: int,
    },
}

/// The input with a long option.
pub open spec fn with_long(named: Seq<NamedView>, long: Seq<char>) -> Option<NamedView>
    decreases named.len(),
{
    if named.len() == 0 {
        None
    } else if named.last().long == long {
        Some(named.last())
    } else {
        with_long(named.drop_last(), long)
    }
}

/// The input with a short option.
pub open spec fn with_short(named: Seq<NamedView>, short: char) -> Option<NamedView>
    decreases named.len(),
{
    if named.len() == 0 {
        None
    } else if named.last().spec.short == Some(short) {
        Some(named.last())
    } else {
        with_short(named.drop_last(), short)
    }
}

fn find_long(named: &Vec<NamedInput>, specs: &Vec<(u64, InputSpec)>, long: &str) -> (r: Option<
    usize,
>)
    ensures
        match r {
            Some(i) => i < named@.len() && with_long(named_views(named@, specs@), long@) == Some(
                named_views(named@, specs@)[i as int],
            ),
            None => with_long(named_views(named@, specs@), long@) is None,
        },
{
    let ghost all = named_views(named@, specs@);
    let mut i: usize = named.len();
    assert(all.take(all.len() as int) =~= all);
    while i > 0
        invariant
            0 <= i <= named@.len(),
            all == named_views(named@, specs@),
            with_long(all, long@) == with_long(all.take(i as int), long@),
        decreases i,
    {
        assert(all.take(i as int).drop_last() =~= all.take(i - 1));
        i -= 1;
        if same(named[i].long.as_str(), long) {
            return Some(i);
        }
    }
    None
}

fn find_short(named: &Vec<NamedInput>, specs: &Vec<(u64, InputSpec)>, short: char) -> (r: Option<
    usize,
>)
    requires
        named_within(named@, specs@),
    ensures
        match r {
            Some(i) => i < named@.len() && with_short(named_views(named@, specs@), short) == Some(
                named_views(named@, specs@)[i as int],
            ),
            None => with_short(named_views(named@, specs@), short) is None,
        },
{
    let ghost all = named_views(named@, specs@);
    let mut i: usize = named.len();
    assert(all.take(all.len() as int) =~= all);
    while i > 0
        invariant
            0 <= i <= named@.len(),
            named_within(named@, specs@),
            all == named_views(named@, specs@),
            with_short(all, short) == with_short(all.take(i as int), short),
        decreases i,
    {
        assert(all.take(i as int).drop_last() =~= all.take(i - 1));
        i -= 1;
        assert(all.take(i + 1).last() == all[i as int]);
        if let Some(other) = specs[named[i].spec].1.short {
            if other == short {
                return Some(i);
            }
        }
    }
    None
}

/// The value that follows an option, which may not look like an option itself.
pub open spec fn following(arguments: Seq<Seq<char>>, index: int) -> Option<Seq<char>> {
    if index + 1 < arguments.len() && !"-"@.is_prefix_of(arguments[index + 1]) {
        Some(arguments[index + 1])
    } else {
        None
    }
}

/// What a long option says.
pub open spec fn long_argument(
    named: Seq<NamedView>,
    arguments: Seq<Seq<char>>,
    index: int,
) -> Argument {
    let body = arguments[index].skip(2);
    let spelling = match cut(body, '=') {
        Some(parts) => parts.0,
        None => body,
    };
    let attached = match cut(body, '=') {
        Some(parts) => Some(parts.1),
        None => None,
    };
    let negative = "no-"@.is_prefix_of(spelling);
    let found = if negative {
        match with_long(named, spelling.skip(3)) {
            Some(item) if item.spec.kind == BuildInputKind::Flag => Some(item),
            _ => None,
        }
    } else {
        with_long(named, spelling)
    };
    if body.len() == 0 {
        Argument::Problem("unexpected project argument `--`"@)
    } else {
        match found {
            None => Argument::Problem("unknown project option `--"@ + spelling + "`"@),
            Some(item) => if item.spec.kind == BuildInputKind::Flag {
                if attached is Some {
                    Argument::Problem("project flag `--"@ + spelling + "` does not take a value"@)
                } else {
                    Argument::Value {
                        name: item.name,
                        value: if negative {
                            "false"@
                        } else {
                            "true"@
                        },
                        used: 1,
                    }
                }
            } else {
                match attached {
                    Some(value) if value.len() > 0 => Argument::Value {
                        name: item.name,
                        value,
                        used: 1,
                    },
                    Some(_) => Argument::Problem(
                        "project option `--"@ + spelling + "` requires a value"@,
                    ),
                    None => match following(arguments, index) {
                        Some(value) => Argument::Value { name: item.name, value, used: 2 },
                        None => Argument::Problem(
                            "project option `--"@ + spelling + "` requires a value"@,
                        ),
                    },
                }
            },
        }
    }
}

/// What a short option says.
pub open spec fn short_argument(
    named: Seq<NamedView>,
    arguments: Seq<Seq<char>>,
    index: int,
) -> Argument {
    let body = arguments[index].skip(1);
    if body.len() == 0 || !alphanumeric(body[0]) {
        Argument::Problem("invalid project option `"@ + arguments[index] + "`"@)
    } else if body.len() > 1 {
        Argument::Problem(
            "combined or attached short project options are not supported: `"@ + arguments[index]
                + "`"@,
        )
    } else {
        match with_short(named, body[0]) {
            None => Argument::Problem("unknown project option `-"@ + body + "`"@),
            Some(item) => if item.spec.kind == BuildInputKind::Flag {
                Argument::Value { name: item.name, value: "true"@, used: 1 }
            } else {
                match following(arguments, index) {
                    Some(value) => Argument::Value { name: item.name, value, used: 2 },
                    None => Argument::Problem(
                        "project option `-"@ + body + "` requires a value"@,
                    ),
                }
            },
        }
    }
}

/// What an argument says.
pub open spec fn argument(
    named: Seq<NamedView>,
    arguments: Seq<Seq<char>>,
    index: int,
) -> Argument {
    if "--"@.is_prefix_of(arguments[index]) {
        long_argument(named, arguments, index)
    } else if "-"@.is_prefix_of(arguments[index]) {
        short_argument(named, arguments, index)
    } else {
        Argument::Problem("unexpected positional project argument `"@ + arguments[index] + "`"@)
    }
}

/// Whether the result of reading an argument is what it says.
pub open spec fn argument_read(
    r: Result<(usize, String, usize)>,
    said: Argument,
    named: Seq<NamedView>,
) -> bool {
    match said {
        Argument::Problem(message) => r is Err && crate::error::is_configuration(
            r->Err_0,
            message,
        ),
        Argument::Value { name, value, used } => {
            &&& r is Ok
            &&& (r->Ok_0).0 < named.len()
            &&& named[(r->Ok_0).0 as int].name == name
            &&& (r->Ok_0).1@ == value
            &&& (r->Ok_0).2 == used
        },
    }
}

fn value_following(arguments: &Vec<String>, index: usize) -> (r: Option<String>)
    requires
        index < arguments@.len(),
    ensures
        match r {
            Some(value) => following(views(arguments@), index as int) == Some(value@),
            None => following(views(arguments@), index as int) is None,
        },
        r is Some ==> index + 1 < arguments@.len(),
{
    if arguments.len() - index > 1 {
        assert(views(arguments@)[index + 1] == arguments@[index + 1]@);
        if !starts_with(arguments[index + 1].as_str(), "-") {
            return Some(arguments[index + 1].clone());
        }
    }
    None
}

fn read_long(
    named: &Vec<NamedInput>,
    specs: &Vec<(u64, InputSpec)>,
    arguments: &Vec<String>,
    index: usize,
    body: &str,
) -> (r: Result<(usize, String, usize)>)
    requires
        named_within(named@, specs@),
        index < arguments@.len(),
        body@ == views(arguments@)[index as int].skip(2),
    ensures
        argument_read(
            r,
            long_argument(named_views(named@, specs@), views(arguments@), index as int),
            named_views(named@, specs@),
        ),
        r matches Ok(read) ==> index + read.2 <= arguments@.len() && 1 <= read.2 <= 2,
{
    let ghost all = named_views(named@, specs@);
    if body.is_empty() {
        return Err(WombatError::configuration("unexpected project argument `--`"));
    }
    let (spelling, attached) = match split_once(body, '=') {
        Some((spelling, value)) => (spelling, Some(value)),
        None => (cat2(body, ""), None),
    };
    proof {
        reveal_strlit("");
        assert(body@ + ""@ =~= body@);
        reveal_strlit("no-");
    }
    let positive = strip_prefix(spelling.as_str(), "no-");
    let negative = positive.is_some();
    let found = match &positive {
        Some(long) => match find_long(named, specs, long.as_str()) {
            Some(i) => {
                if specs[named[i].spec].1.kind == BuildInputKind::Flag {
                    Some(i)
                } else {
                    None
                }
            },
            None => None,
        },
        None => find_long(named, specs, spelling.as_str()),
    };
    let i = match found {
        Some(i) => i,
        None => {
            return Err(
                WombatError::Configuration(
                    cat3("unknown project option `--", spelling.as_str(), "`"),
                ),
            );
        },
    };
    if specs[named[i].spec].1.kind == BuildInputKind::Flag {
        if attached.is_some() {
            return Err(
                WombatError::Configuration(
                    cat3("project flag `--", spelling.as_str(), "` does not take a value"),
                ),
            );
        }
        let value = if negative {
            "false".to_string()
        } else {
            "true".to_string()
        };
        return Ok((i, value, 1));
    }
    match attached {
        Some(value) => {
            if value.as_str().is_empty() {
                return Err(
                    WombatError::Configuration(
                        cat3("project option `--", spelling.as_str(), "` requires a value"),
                    ),
                );
            }
            Ok((i, value, 1))
        },
        None => match value_following(arguments, index) {
            Some(value) => Ok((i, value, 2)),
            None => Err(
                WombatError::Configuration(
                    cat3("project option `--", spelling.as_str(), "` requires a value"),
                ),
            ),
        },
    }
}

fn read_short(
    named: &Vec<NamedInput>,
    specs: &Vec<(u64, InputSpec)>,
    arguments: &Vec<String>,
    index: usize,
    body: &str,
) -> (r: Result<(usize, String, usize)>)
    requires
        named_within(named@, specs@),
        index < arguments@.len(),
        body@ == views(arguments@)[index as int].skip(1),
    ensures
        argument_read(
            r,
            short_argument(named_views(named@, specs@), views(arguments@), index as int),
            named_views(named@, specs@),
        ),
        r matches Ok(read) ==> index + read.2 <= arguments@.len() && 1 <= read.2 <= 2,
{
    let ghost all = named_views(named@, specs@);
    let chars = chars_of(body);
    if chars.len() == 0 || !is_alphanumeric(chars[0]) {
        return Err(
            WombatError::Configuration(
                cat3("invalid project option `", arguments[index].as_str(), "`"),
            ),
        );
    }
    if chars.len() > 1 {
        return Err(
            WombatError::Configuration(
                cat3(
                    "combined or attached short project options are not supported: `",
                    arguments[index].as_str(),
                    "`",
                ),
            ),
        );
    }
    let i = match find_short(named, specs, chars[0]) {
        Some(i) => i,
        None => {
            return Err(
                WombatError::Configuration(cat3("unknown project option `-", body, "`")),
            );
        },
    };
    if specs[named[i].spec].1.kind == BuildInputKind::Flag {
        return Ok((i, "true".to_string(), 1));
    }
    match value_following(arguments, index) {
        Some(value) => Ok((i, value, 2)),
        None => Err(
            WombatError::Configuration(cat3("project option `-", body, "` requires a value")),
        ),
    }
}

fn read_argument(
    named: &Vec<NamedInput>,
    specs: &Vec<(u64, InputSpec)>,
    arguments: &Vec<String>,
    index: usize,
) -> (r: Result<(usize, String, usize)>)
    requires
        named_within(named@, specs@),
        index < arguments@.len(),
    ensures
        argument_read(
            r,
            argument(named_views(named@, specs@), views(arguments@), index as int),
            named_views(named@, specs@),
        ),
        r matches Ok(read) ==> index + read.2 <= arguments@.len() && 1 <= read.2 <= 2,
{
    let text = arguments[index].as_str();
    assert(views(arguments@)[index as int] == text@);
    proof {
        reveal_strlit("--");
        reveal_strlit("-");
    }
    if let Some(body) = strip_prefix(text, "--") {
        return read_long(named, specs, arguments, index, body.as_str());
    }
    if let Some(body) = strip_prefix(text, "-") {
        return read_short(named, specs, arguments, index, body.as_str());
    }
    Err(
        WombatError::Configuration(
            cat3("unexpected positional project argument `", text, "`"),
        ),
    )
}

/// The value given to a name.
pub open spec fn given(supplied: Seq<(Seq<char>, Seq<char>)>, name: Seq<char>) -> Option<Seq<char>>
    decreases supplied.len(),
{
    if supplied.len() == 0 {
        None
    } else if supplied.last().0 == name {
        Some(supplied.last().1)
    } else {
        given(supplied.drop_last(), name)
    }
}

/// What arguments say together: the values they give, or what is wrong.
pub open spec fn supplied(
    named: Seq<NamedView>,
    arguments: Seq<Seq<char>>,
    index: int,
    sofar: Seq<(Seq<char>, Seq<char>)>,
) -> std::result::Result<Seq<(Seq<char>, Seq<char>)>, Seq<char>>
    decreases arguments.len() - index,
{
    if index >= arguments.len() {
        Ok(sofar)
    } else {
        match argument(named, arguments, index) {
            Argument::Problem(message) => Err(message),
            Argument::Value { name, value, used } => if used < 1 {
                Ok(sofar)
            } else if given(sofar, name) is Some {
                Err("project option for `"@ + name + "` was provided more than once"@)
            } else {
                supplied(named, arguments, index + used, sofar.push((name, value)))
            },
        }
    }
}

/// What a list of given values stands for.
pub open spec fn pairs(list: Seq<(String, String)>) -> Seq<(Seq<char>, Seq<char>)> {
    Seq::new(list.len(), |i: int| (list[i].0@, list[i].1@))
}

fn find_given(list: &Vec<(String, String)>, name: &str) -> (r: Option<usize>)
    ensures
        match r {
            Some(i) => i < list@.len() && given(pairs(list@), name@) == Some(list@[i as int].1@),
            None => given(pairs(list@), name@) is None,
        },
{
    let ghost all = pairs(list@);
    let mut i: usize = list.len();
    assert(all.take(all.len() as int) =~= all);
    while i > 0
        invariant
            0 <= i <= list@.len(),
            all == pairs(list@),
            given(all, name@) == given(all.take(i as int), name@),
        decreases i,
    {
        assert(all.take(i as int).drop_last() =~= all.take(i - 1));
        i -= 1;
        if same(list[i].0.as_str(), name) {
            return Some(i);
        }
    }
    None
}

fn read_arguments(
    named: &Vec<NamedInput>,
    specs: &Vec<(u64, InputSpec)>,
    arguments: &Vec<String>,
) -> (r: Result<Vec<(String, String)>>)
    requires
        named_within(named@, specs@),
    ensures
        reports(
            r,
            match supplied(named_views(named@, specs@), views(arguments@), 0, Seq::empty()) {
                Ok(_) => None,
                Err(message) => Some(message),
            },
        ),
        r matches Ok(list) ==> supplied(
            named_views(named@, specs@),
            views(arguments@),
            0,
            Seq::empty(),
        ) == std::result::Result::<Seq<(Seq<char>, Seq<char>)>, Seq<char>>::Ok(pairs(list@)),
{
    let ghost all = named_views(named@, specs@);
    let mut list: Vec<(String, String)> = Vec::new();
    let mut index: usize = 0;
    assert(pairs(list@) =~= Seq::empty());
    assert(views(arguments@).len() == arguments@.len());
    while index < arguments.len()
        invariant
            0 <= index <= arguments@.len(),
            views(arguments@).len() == arguments@.len(),
            named_within(named@, specs@),
            all == named_views(named@, specs@),
            supplied(all, views(arguments@), 0, Seq::empty()) == supplied(
                all,
                views(arguments@),
                index as int,
                pairs(list@),
            ),
        decreases arguments@.len() - index,
    {
        let (i, value, used) = read_argument(named, specs, arguments, index)?;
        let name = named[i].name.as_str();
        if find_given(&list, name).is_some() {
            return Err(
                WombatError::Configuration(
                    cat3("project option for `", name, "` was provided more than once"),
                ),
            );
        }
        let ghost before_push = list@;
        let ghost text = value@;
        list.push((named[i].name.clone(), value));
        assert(pairs(list@) =~= pairs(before_push).push((name@, text)));
        index += used;
    }
    Ok(list)
}

/// The canonical form of a platform.
pub open spec fn canonical_platform(value: Seq<char>) -> Seq<char> {
    let parts = pieces(value, '/');
    os_named(parts[0])->0.name() + "/"@ + arch_named(parts[1])->0.name()
}

/// What is wrong with a value for an input.
pub open spec fn value_problem(spec: InputSpec, value: Seq<char>) -> Option<Seq<char>> {
    match spec.kind {
        BuildInputKind::Choice => problem_if(
            !views(spec.choices@).contains(value),
            "invalid choice `"@ + value + "`; expected one of "@ + joined(
                views(spec.choices@),
                ", "@,
            ),
        ),
        BuildInputKind::Integer => match signed_parsed(value) {
            None => Some("invalid integer `"@ + value + "`"@),
            Some(number) => integer_problem(number as int, spec.min, spec.max),
        },
        BuildInputKind::Target => platform_problem(value),
        _ => None,
    }
}

/// The value of an input that was given text.
pub open spec fn value_tree(spec: InputSpec, value: Seq<char>) -> JsonTree {
    match spec.kind {
        BuildInputKind::Flag => JsonTree::Bool(value == "true"@),
        BuildInputKind::Choice => JsonTree::Text(value),
        BuildInputKind::String => JsonTree::Text(value),
        BuildInputKind::Integer => JsonTree::Integer(signed_parsed(value)->0 as int),
        BuildInputKind::Target => JsonTree::Text(canonical_platform(value)),
    }
}

fn parse_value(spec: &InputSpec, value: &str) -> (r: Result<FrozenValue>)
    ensures
        reports(r, value_problem(*spec, value@)),
        r matches Ok(read) ==> read.tree() == value_tree(*spec, value@),
{
    match spec.kind {
        BuildInputKind::Flag => Ok(FrozenValue::Boolean(same(value, "true"))),
        BuildInputKind::Choice => {
            if !holds(&spec.choices, value) {
                return Err(
                    WombatError::Configuration(
                        cat4(
                            "invalid choice `",
                            value,
                            "`; expected one of ",
                            join(&spec.choices, ", ").as_str(),
                        ),
                    ),
                );
            }
            Ok(FrozenValue::String(value.to_string()))
        },
        BuildInputKind::String => Ok(FrozenValue::String(value.to_string())),
        BuildInputKind::Integer => match parse_signed(value) {
            None => Err(WombatError::Configuration(cat3("invalid integer `", value, "`"))),
            Some(number) => {
                validate_integer(number, spec.min, spec.max)?;
                Ok(FrozenValue::Integer(number))
            },
        },
        BuildInputKind::Target => {
            let platform = TargetPlatform::parse_compact(value)?;
            Ok(FrozenValue::String(platform.compact()))
        },
    }
}

/// The value of an input that nothing was given for.
pub open spec fn default_tree(spec: InputSpec, host: Seq<char>) -> Option<JsonTree> {
    if spec.kind == BuildInputKind::Target {
        Some(JsonTree::Text(host))
    } else {
        match spec.default {
            Some(value) => Some(value.tree()),
            None => if spec.kind == BuildInputKind::Flag {
                Some(JsonTree::Bool(false))
            } else {
                None
            },
        }
    }
}

/// Whether a value is the very default of an input, where a default was declared.
pub open spec fn keeps_default(spec: InputSpec, value: FrozenValue) -> bool {
    spec.kind != BuildInputKind::Target && spec.default is Some ==> value.alike(spec.default->0)
}

/// What is wrong with an input that nothing was given for.
pub open spec fn default_problem(spec: InputSpec, name: Seq<char>) -> Option<Seq<char>> {
    problem_if(
        spec.default is None && spec.kind != BuildInputKind::Target && spec.kind
            != BuildInputKind::Flag,
        "required project option `--"@ + long_of(name, spec) + "` was not provided"@,
    )
}

fn default_value(spec: &InputSpec, host: &TargetPlatform, name: &str) -> (r: Result<FrozenValue>)
    ensures
        reports(r, default_problem(*spec, name@)),
        r matches Ok(value) ==> default_tree(*spec, host.compact_text()) == Some(value.tree())
            && keeps_default(*spec, value),
{
    if spec.kind == BuildInputKind::Target {
        return Ok(FrozenValue::String(host.compact()));
    }
    match &spec.default {
        Some(value) => Ok(value.copy()),
        None => {
            if spec.kind == BuildInputKind::Flag {
                return Ok(FrozenValue::Boolean(false));
            }
            Err(
                WombatError::Configuration(
                    cat3(
                        "required project option `--",
                        long_option(name, spec).as_str(),
                        "` was not provided",
                    ),
                ),
            )
        },
    }
}

/// A value as help shows it.
pub open spec fn displayed(value: JsonTree) -> Seq<char> {
    match value {
        JsonTree::Bool(b) => if b {
            "true"@
        } else {
            "false"@
        },
        JsonTree::Integer(n) => signed_decimal(n),
        JsonTree::Text(text) => text,
        _ => compact(value),
    }
}

fn display_value(value: &FrozenValue) -> (r: String)
    ensures
        r@ == displayed(value.tree()),
{
    match value {
        FrozenValue::Boolean(b) => {
            if *b {
                "true".to_string()
            } else {
                "false".to_string()
            }
        },
        FrozenValue::Integer(n) => signed_text(*n),
        FrozenValue::String(text) => text.clone(),
        _ => compact_text(&frozen_value(value)),
    }
}

/// What help calls the value of an input.
pub open spec fn label_of(kind: BuildInputKind) -> Seq<char> {
    match kind {
        BuildInputKind::Flag => "FLAG"@,
        BuildInputKind::Choice => "CHOICE"@,
        BuildInputKind::String => "STRING"@,
        BuildInputKind::Integer => "INTEGER"@,
        BuildInputKind::Target => "OS/ARCH"@,
    }
}

fn value_label(kind: BuildInputKind) -> (r: &'static str)
    ensures
        r@ == label_of(kind),
{
    match kind {
        BuildInputKind::Flag => "FLAG",
        BuildInputKind::Choice => "CHOICE",
        BuildInputKind::String => "STRING",
        BuildInputKind::Integer => "INTEGER",
        BuildInputKind::Target => "OS/ARCH",
    }
}

/// The line of help that spells an input.
pub open spec fn spelling_line(item: NamedView) -> Seq<char> {
    let start = match item.spec.short {
        Some(short) => "  -"@ + seq![short] + ", --"@ + item.long,
        None => "      --"@ + item.long,
    };
    if item.spec.kind == BuildInputKind::Flag {
        start + ", --no-"@ + item.long + "\n"@
    } else {
        start + " <"@ + label_of(item.spec.kind) + ">\n"@
    }
}

/// What help says of an input.
pub open spec fn input_help(item: NamedView, host: Seq<char>) -> Seq<char> {
    let told = match item.spec.help {
        Some(help) => "          "@ + help@ + "\n"@,
        None => ""@,
    };
    let values = if item.spec.kind == BuildInputKind::Choice {
        "          [values: "@ + joined(views(item.spec.choices@), ", "@) + "]\n"@
    } else {
        ""@
    };
    let default = match default_tree(item.spec, host) {
        Some(value) => "          [default: "@ + displayed(value) + "]\n"@,
        None => "          [required]\n"@,
    };
    spelling_line(item) + told + values + default
}

/// The help of a repository.
pub open spec fn help_text(named: Seq<NamedView>, host: Seq<char>) -> Seq<char>
    decreases named.len(),
{
    if named.len() == 0 {
        "Repository build inputs\n\nUsage: wombat build [WOMBAT OPTIONS] -- [PROJECT OPTIONS]\n\nOptions:\n"@
    } else {
        help_text(named.drop_last(), host) + input_help(named.last(), host)
    }
}

fn render_input(
    item: &NamedInput,
    specs: &Vec<(u64, InputSpec)>,
    host: &TargetPlatform,
) -> (r: String)
    requires
        item.spec < specs@.len(),
    ensures
        r@ == input_help(
            (NamedView {
                name: item.name@,
                long: item.long@,
                spec: specs@[item.spec as int].1,
            }),
            host.compact_text(),
        ),
{
    let spec = &specs[item.spec].1;
    let long = item.long.as_str();
    let start = match spec.short {
        Some(short) => {
            let mut letter = String::new();
            letter.push(short);
            assert(letter@ =~= seq![short]);
            cat4("  -", letter.as_str(), ", --", long)
        },
        None => cat2("      --", long),
    };
    let line = if spec.kind == BuildInputKind::Flag {
        cat4(start.as_str(), ", --no-", long, "\n")
    } else {
        cat4(start.as_str(), " <", value_label(spec.kind), ">\n")
    };
    let told = match &spec.help {
        Some(help) => cat3("          ", help.as_str(), "\n"),
        None => "".to_string(),
    };
    let values = if spec.kind == BuildInputKind::Choice {
        cat3("          [values: ", join(&spec.choices, ", ").as_str(), "]\n")
    } else {
        "".to_string()
    };
    let default = match default_value(spec, host, item.name.as_str()) {
        Ok(value) => cat3("          [default: ", display_value(&value).as_str(), "]\n"),
        Err(_) => "          [required]\n".to_string(),
    };
    cat4(line.as_str(), told.as_str(), values.as_str(), default.as_str())
}

fn render_help(
    named: &Vec<NamedInput>,
    specs: &Vec<(u64, InputSpec)>,
    host: &TargetPlatform,
) -> (r: String)
    requires
        named_within(named@, specs@),
    ensures
        r@ == help_text(named_views(named@, specs@), host.compact_text()),
{
    let ghost all = named_views(named@, specs@);
    let mut r =
        "Repository build inputs\n\nUsage: wombat build [WOMBAT OPTIONS] -- [PROJECT OPTIONS]\n\nOptions:\n".to_string();
    let mut i: usize = 0;
    while i < named.len()
        invariant
            0 <= i <= named@.len(),
            named_within(named@, specs@),
            all == named_views(named@, specs@),
            r@ == help_text(all.take(i as int), host.compact_text()),
        decreases named@.len() - i,
    {
        let part = render_input(&named[i], specs, host);
        assert(all.take(i + 1).drop_last() =~= all.take(i as int));
        assert(all.take(i + 1).last() == all[i as int]);
        r = cat2(r.as_str(), part.as_str());
        i += 1;
    }
    assert(all.take(i as int) =~= all);
    r
}

/// The inputs of a build.
#[derive(Debug, PartialEq)]
pub struct ResolvedInputs {
    /// The inputs by name
    pub manifest: Vec<BuildInput>,
    /// The values by name
    pub values: Vec<(String, FrozenValue)>,
    /// The help, where it was asked for
    pub help: Option<String>,
}

/// What is wrong with the value of an input.
pub open spec fn outcome_problem(
    item: NamedView,
    supplied: Seq<(Seq<char>, Seq<char>)>,
) -> Option<Seq<char>> {
    match given(supplied, item.name) {
        Some(value) => value_problem(item.spec, value),
        None => default_problem(item.spec, item.name),
    }
}

/// What is wrong with the values of inputs: the problem of the first wrong one.
pub open spec fn outcomes_problem(
    named: Seq<NamedView>,
    supplied: Seq<(Seq<char>, Seq<char>)>,
) -> Option<Seq<char>>
    decreases named.len(),
{
    if named.len() == 0 {
        None
    } else {
        first(
            outcomes_problem(named.drop_last(), supplied),
            outcome_problem(named.last(), supplied),
        )
    }
}

proof fn lemma_outcomes_front(
    named: Seq<NamedView>,
    supplied: Seq<(Seq<char>, Seq<char>)>,
    count: int,
)
    requires
        0 <= count <= named.len(),
        outcomes_problem(named.take(count), supplied) is Some,
    ensures
        outcomes_problem(named, supplied) == outcomes_problem(named.take(count), supplied),
    decreases named.len() - count,
{
    if count < named.len() {
        assert(named.take(count + 1).drop_last() =~= named.take(count));
        lemma_outcomes_front(named, supplied, count + 1);
    } else {
        assert(named.take(count) =~= named);
    }
}

/// Whether an input was resolved from its declaration and what was given.
pub open spec fn resolved_from(
    input: BuildInput,
    item: NamedView,
    supplied: Seq<(Seq<char>, Seq<char>)>,
    host: Seq<char>,
) -> bool {
    &&& input.name@ == item.name
    &&& input.kind == item.spec.kind
    &&& input.declared_at.same(item.spec.declared_at)
    &&& match given(supplied, item.name) {
        Some(value) => input.origin == BuildInputOrigin::CommandLine && input.value.tree()
            == value_tree(item.spec, value) && (item.spec.kind == BuildInputKind::Integer
            ==> input.value is Integer),
        None => input.origin == BuildInputOrigin::Default && Some(input.value.tree())
            == default_tree(item.spec, host) && keeps_default(item.spec, input.value),
    }
}

/// The names of inputs.
pub open spec fn input_names(inputs: Seq<BuildInput>) -> Seq<Seq<char>> {
    Seq::new(inputs.len(), |i: int| inputs[i].name@)
}

/// Whether some input of a list was resolved from a declaration.
pub open spec fn resolves(
    inputs: Seq<BuildInput>,
    item: NamedView,
    supplied: Seq<(Seq<char>, Seq<char>)>,
    host: Seq<char>,
) -> bool {
    exists|i: int|
        0 <= i < inputs.len() && resolved_from(#[trigger] inputs[i], item, supplied, host)
}

/// Whether inputs are those that were named, each once, by name.
pub open spec fn all_resolved(
    inputs: Seq<BuildInput>,
    named: Seq<NamedView>,
    supplied: Seq<(Seq<char>, Seq<char>)>,
    host: Seq<char>,
) -> bool {
    &&& inputs.len() == named.len()
    &&& ascending(input_names(inputs))
    &&& forall|k: int|
        0 <= k < named.len() ==> resolves(inputs, #[trigger] named[k], supplied, host)
}

/// Whether every input of a list has one of these names.
pub open spec fn named_among(inputs: Seq<BuildInput>, named: Seq<NamedView>) -> bool {
    forall|i: int| 0 <= i < inputs.len() ==> has_name(named, (#[trigger] inputs[i]).name@)
}

fn insert_input(list: &mut Vec<BuildInput>, input: BuildInput) -> (at: usize)
    requires
        ascending(input_names(old(list)@)),
        !input_names(old(list)@).contains(input.name@),
    ensures
        at <= old(list)@.len(),
        final(list)@ == old(list)@.insert(at as int, input),
        ascending(input_names(final(list)@)),
{
    let ghost names = input_names(list@);
    let mut at: usize = list.len();
    while at > 0 && before(input.name.as_str(), list[at - 1].name.as_str())
        invariant
            0 <= at <= list@.len(),
            list@ == old(list)@,
            names == input_names(list@),
            ascending(names),
            forall|j: int| at <= j < list@.len() ==> precedes(input.name@, #[trigger] names[j]),
        decreases at,
    {
        assert(names[at - 1] == list@[at - 1].name@);
        at -= 1;
    }
    proof {
        assert forall|j: int| 0 <= j < at implies precedes(#[trigger] names[j], input.name@) by {
            let last = names[at - 1];
            assert(last == list@[at - 1].name@);
            assert(names.contains(last));
            lemma_total(last, input.name@);
            if j < at - 1 {
                lemma_transitive(names[j], last, input.name@);
            }
        }
    }
    let ghost name = input.name@;
    list.insert(at, input);
    proof {
        let now = input_names(list@);
        assert(now =~= names.insert(at as int, name));
        assert forall|i: int, j: int| 0 <= i < j < now.len() implies precedes(
            #[trigger] now[i],
            #[trigger] now[j],
        ) by {
            let a = if i < at { i } else { i - 1 };
            let b = if j < at { j } else { j - 1 };
            if i == at {
                assert(now[j] == names[b]);
            } else if j == at {
                assert(now[i] == names[i]);
            } else {
                assert(now[i] == names[a] && now[j] == names[b]);
            }
        }
    }
    at
}

fn settle_inputs(
    named: &Vec<NamedInput>,
    specs: &Vec<(u64, InputSpec)>,
    supplied: &Vec<(String, String)>,
    host: &TargetPlatform,
) -> (r: Result<Vec<BuildInput>>)
    requires
        named_within(named@, specs@),
        distinct_names(named_views(named@, specs@)),
    ensures
        reports(r, outcomes_problem(named_views(named@, specs@), pairs(supplied@))),
        r matches Ok(inputs) ==> all_resolved(
            inputs@,
            named_views(named@, specs@),
            pairs(supplied@),
            host.compact_text(),
        ),
{
    let ghost all = named_views(named@, specs@);
    let ghost gave = pairs(supplied@);
    let ghost local = host.compact_text();
    let mut inputs: Vec<BuildInput> = Vec::new();
    let mut i: usize = 0;
    while i < named.len()
        invariant
            0 <= i <= named@.len(),
            named_within(named@, specs@),
            all == named_views(named@, specs@),
            distinct_names(all),
            gave == pairs(supplied@),
            local == host.compact_text(),
            outcomes_problem(all.take(i as int), gave) is None,
            all_resolved(inputs@, all.take(i as int), gave, local),
            named_among(inputs@, all.take(i as int)),
        decreases named@.len() - i,
    {
        let item = &named[i];
        let spec = &specs[item.spec].1;
        proof {
            assert(all.take(i + 1).drop_last() =~= all.take(i as int));
            assert(all.take(i + 1).last() == all[i as int]);
            assert(all[i as int].spec == *spec);
            if outcomes_problem(all.take(i + 1), gave) is Some {
                lemma_outcomes_front(all, gave, i + 1);
            }
        }
        let (value, origin) = match find_given(supplied, item.name.as_str()) {
            Some(k) => (
                parse_value(spec, supplied[k].1.as_str())?,
                BuildInputOrigin::CommandLine,
            ),
            None => (default_value(spec, host, item.name.as_str())?, BuildInputOrigin::Default),
        };
        let input = BuildInput {
            name: item.name.clone(),
            kind: spec.kind,
            value,
            origin,
            declared_at: spec.declared_at.copy(),
        };
        let ghost made = input;
        let ghost earlier = inputs@;
        proof {
            assert(resolved_from(input, all[i as int], gave, local));
            assert(!input_names(inputs@).contains(input.name@)) by {
                if input_names(inputs@).contains(input.name@) {
                    let k = choose|k: int|
                        0 <= k < inputs@.len() && input_names(inputs@)[k] == input.name@;
                    assert(has_name(all.take(i as int), inputs@[k].name@));
                    let m = choose|m: int|
                        0 <= m < i && (#[trigger] all.take(i as int)[m]).name == input.name@;
                    assert(all[m].name == all[i as int].name);
                }
            }
        }
        let at = insert_input(&mut inputs, input);
        proof {
            let front = all.take(i + 1);
            assert forall|k: int| 0 <= k < front.len() implies resolves(
                inputs@,
                #[trigger] front[k],
                gave,
                local,
            ) by {
                if k < i {
                    assert(front[k] == all.take(i as int)[k]);
                    let m = choose|m: int|
                        0 <= m < earlier.len() && resolved_from(
                            #[trigger] earlier[m],
                            front[k],
                            gave,
                            local,
                        );
                    if m < at {
                        assert(inputs@[m] == earlier[m]);
                    } else {
                        assert(inputs@[m + 1] == earlier[m]);
                    }
                } else {
                    assert(inputs@[at as int] == made);
                }
            }
            assert forall|m: int| 0 <= m < inputs@.len() implies has_name(
                front,
                (#[trigger] inputs@[m]).name@,
            ) by {
                if m == at {
                    assert(front[i as int].name == made.name@);
                } else {
                    let e = if m < at { m } else { m - 1 };
                    assert(inputs@[m] == earlier[e]);
                    let k = choose|k: int|
                        0 <= k < i && (#[trigger] all.take(i as int)[k]).name == earlier[e].name@;
                    assert(front[k].name == earlier[e].name@);
                }
            }
        }
        i += 1;
    }
    assert(all.take(i as int) =~= all);
    Ok(inputs)
}

/// The arguments of a project that are text.
pub open spec fn told(arguments: Seq<Option<String>>) -> Seq<Seq<char>> {
    Seq::new(
        arguments.len(),
        |i: int|
            match arguments[i] {
                Some(text) => text@,
                None => ""@,
            },
    )
}

/// Whether an argument of a project is no text.
pub open spec fn some_untold(arguments: Seq<Option<String>>) -> bool {
    exists|i: int| 0 <= i < arguments.len() && (#[trigger] arguments[i]) is None
}

/// Whether arguments ask for something besides help.
pub open spec fn more_than_help(arguments: Seq<Seq<char>>) -> bool {
    exists|i: int| 0 <= i < arguments.len() && #[trigger] arguments[i] != "--help"@
}

/// The arguments that give values: none, where help was asked for.
pub open spec fn effective_arguments(arguments: Seq<Seq<char>>) -> Seq<Seq<char>> {
    if arguments.contains("--help"@) {
        Seq::empty()
    } else {
        arguments
    }
}

/// What is wrong with a schema, its declarations and the arguments.
pub open spec fn inputs_problem(
    schema: Seq<(String, u64)>,
    specs: Seq<(u64, InputSpec)>,
    arguments: Seq<Option<String>>,
) -> Option<Seq<char>> {
    let named = in_order(declared(schema, specs));
    first(
        schema_problem(schema, specs),
        first(
            problem_if(some_untold(arguments), "project build arguments must be valid UTF-8"@),
            first(
                problem_if(
                    told(arguments).contains("--help"@) && more_than_help(told(arguments)),
                    "project `--help` cannot be combined with other project arguments"@,
                ),
                match supplied(named, effective_arguments(told(arguments)), 0, Seq::empty()) {
                    Err(message) => Some(message),
                    Ok(gave) => outcomes_problem(named, gave),
                },
            ),
        ),
    )
}

/// Whether inputs are resolved from a schema, its declarations and the arguments.
pub open spec fn resolution(
    r: ResolvedInputs,
    schema: Seq<(String, u64)>,
    specs: Seq<(u64, InputSpec)>,
    arguments: Seq<Option<String>>,
    host: Seq<char>,
) -> bool {
    let named = in_order(declared(schema, specs));
    let gave = supplied(named, effective_arguments(told(arguments)), 0, Seq::empty())->Ok_0;
    &&& all_resolved(r.manifest@, named, gave, host)
    &&& r.values@.len() == r.manifest@.len()
    &&& forall|i: int|
        0 <= i < r.values@.len() ==> (#[trigger] r.values@[i]).0@ == r.manifest@[i].name@
            && r.values@[i].1.tree() == r.manifest@[i].value.tree() && r.values@[i].1.alike(
            r.manifest@[i].value,
        )
    &&& match r.help {
        Some(help) => told(arguments).contains("--help"@) && help@ == help_text(named, host),
        None => !told(arguments).contains("--help"@),
    }
}

fn read_told(arguments: &Vec<Option<String>>) -> (r: Result<Vec<String>>)
    ensures
        reports(
            r,
            problem_if(some_untold(arguments@), "project build arguments must be valid UTF-8"@),
        ),
        r matches Ok(texts) ==> views(texts@) == told(arguments@),
{
    let mut texts: Vec<String> = Vec::new();
    let mut i: usize = 0;
    while i < arguments.len()
        invariant
            0 <= i <= arguments@.len(),
            texts@.len() == i,
            forall|j: int| 0 <= j < i ==> (#[trigger] arguments@[j]) is Some,
            forall|j: int| 0 <= j < i ==> (#[trigger] texts@[j])@ == told(arguments@)[j],
        decreases arguments@.len() - i,
    {
        match &arguments[i] {
            Some(text) => {
                texts.push(text.clone());
            },
            None => {
                assert(arguments@[i as int] is None);
                return Err(
                    WombatError::configuration("project build arguments must be valid UTF-8"),
                );
            },
        }
        i += 1;
    }
    assert(views(texts@) =~= told(arguments@));
    Ok(texts)
}

fn asks_more(arguments: &Vec<String>) -> (r: bool)
    ensures
        r == more_than_help(views(arguments@)),
{
    let mut i: usize = 0;
    while i < arguments.len()
        invariant
            0 <= i <= arguments@.len(),
            forall|j: int| 0 <= j < i ==> #[trigger] views(arguments@)[j] == "--help"@,
        decreases arguments@.len() - i,
    {
        assert(views(arguments@)[i as int] == arguments@[i as int]@);
        if !same(arguments[i].as_str(), "--help") {
            return true;
        }
        i += 1;
    }
    false
}

/// Resolves the inputs that a schema names from the arguments of a project.
pub fn resolve(
    schema: &Vec<(String, u64)>,
    specs: &Vec<(u64, InputSpec)>,
    arguments: &Vec<Option<String>>,
    host: &TargetPlatform,
) -> (r: Result<ResolvedInputs>)
    ensures
        reports(r, inputs_problem(schema@, specs@, arguments@)),
        r matches Ok(resolved) ==> resolution(
            resolved,
            schema@,
            specs@,
            arguments@,
            host.compact_text(),
        ),
{
    let unordered = name_inputs(schema, specs)?;
    let named = order_inputs(unordered, specs);
    let texts = read_told(arguments)?;
    let help_requested = holds(&texts, "--help");
    if help_requested && asks_more(&texts) {
        return Err(
            WombatError::configuration(
                "project `--help` cannot be combined with other project arguments",
            ),
        );
    }
    let help = if help_requested {
        Some(render_help(&named, specs, host))
    } else {
        None
    };
    let effective = if help_requested {
        Vec::new()
    } else {
        texts
    };
    assert(views(effective@) =~= effective_arguments(told(arguments@)));
    let gave = read_arguments(&named, specs, &effective)?;
    proof {
        lemma_in_order_names(schema@, specs@);
    }
    let manifest = settle_inputs(&named, specs, &gave, host)?;
    let mut values: Vec<(String, FrozenValue)> = Vec::new();
    let mut i: usize = 0;
    while i < manifest.len()
        invariant
            0 <= i <= manifest@.len(),
            values@.len() == i,
            forall|j: int|
                0 <= j < i ==> (#[trigger] values@[j]).0@ == manifest@[j].name@
                    && values@[j].1.tree() == manifest@[j].value.tree() && values@[j].1.alike(
                    manifest@[j].value,
                ),
        decreases manifest@.len() - i,
    {
        values.push((manifest[i].name.clone(), manifest[i].value.copy()));
        i += 1;
    }
    Ok(ResolvedInputs { manifest, values, help })
}

} // verus!
