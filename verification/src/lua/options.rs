//! The options of a declaration.
use vstd::prelude::*;
use vstd::string::*;

use crate::error::{problem_if, reports, Result, WombatError};
use crate::json::{object_tree, JsonTree};
use crate::model::frozen::FrozenValue;
use crate::model::ladder::{CoreRung, RungId};
use crate::text::{cat4, chars_of, same, views};

verus! {

/// The value of an option: that of the first entry with its key.
pub open spec fn option(options: Seq<(String, FrozenValue)>, key: Seq<char>) -> Option<FrozenValue>
    decreases options.len(),
{
    if options.len() == 0 {
        None
    } else if options[0].0@ == key {
        Some(options[0].1)
    } else {
        option(options.skip(1), key)
    }
}

/// Looks an option up.
pub fn get<'a>(options: &'a Vec<(String, FrozenValue)>, key: &str) -> (r: Option<&'a FrozenValue>)
    ensures
        match r {
            Some(value) => option(options@, key@) == Some(*value),
            None => option(options@, key@) is None,
        },
{
    let mut i: usize = 0;
    assert(options@.skip(0) =~= options@);
    while i < options.len()
        invariant
            0 <= i <= options@.len(),
            option(options@, key@) == option(options@.skip(i as int), key@),
        decreases options@.len() - i,
    {
        assert(options@.skip(i as int)[0] == options@[i as int]);
        if same(options[i].0.as_str(), key) {
            return Some(&options[i].1);
        }
        assert(options@.skip(i as int).skip(1) =~= options@.skip(i + 1));
        i += 1;
    }
    None
}

/// What is wrong with a required string option.
pub open spec fn string_problem(
    options: Seq<(String, FrozenValue)>,
    key: Seq<char>,
    subject: Seq<char>,
) -> Option<Seq<char>> {
    problem_if(
        !(option(options, key) matches Some(FrozenValue::String(value)) && value@.len() > 0),
        subject + " requires a non-empty string `"@ + key + "`"@,
    )
}

/// The text of a string option; empty where there is none.
pub open spec fn string_option(options: Seq<(String, FrozenValue)>, key: Seq<char>) -> Seq<char> {
    match option(options, key) {
        Some(FrozenValue::String(value)) => value@,
        _ => Seq::empty(),
    }
}

/// Reads a required, non-empty string option.
pub fn take_string(options: &Vec<(String, FrozenValue)>, key: &str, subject: &str) -> (r: Result<
    String,
>)
    ensures
        reports(r, string_problem(options@, key@, subject@)),
        r matches Ok(value) ==> value@ == string_option(options@, key@),
{
    if let Some(FrozenValue::String(value)) = get(options, key) {
        if !value.as_str().is_empty() {
            return Ok(value.clone());
        }
    }
    Err(
        WombatError::Configuration(
            cat4(subject, " requires a non-empty string `", key, "`"),
        ),
    )
}

/// What is wrong with an optional string option.
pub open spec fn optional_string_problem(
    options: Seq<(String, FrozenValue)>,
    key: Seq<char>,
    subject: Seq<char>,
) -> Option<Seq<char>> {
    problem_if(
        option(options, key) is Some && !(option(options, key)->0 is String),
        subject + " `"@ + key + "` must be a string"@,
    )
}

/// Whether optional text is what the option holds.
pub open spec fn holds_option(
    text: Option<String>,
    options: Seq<(String, FrozenValue)>,
    key: Seq<char>,
) -> bool {
    match option(options, key) {
        Some(FrozenValue::String(value)) => text matches Some(t) && t@ == value@,
        _ => text is None,
    }
}

/// Reads an optional string option.
pub fn take_optional_string(
    options: &Vec<(String, FrozenValue)>,
    key: &str,
    subject: &str,
) -> (r: Result<Option<String>>)
    ensures
        reports(r, optional_string_problem(options@, key@, subject@)),
        r matches Ok(text) ==> holds_option(text, options@, key@),
{
    match get(options, key) {
        None => Ok(None),
        Some(FrozenValue::String(value)) => Ok(Some(value.clone())),
        Some(_) => Err(WombatError::Configuration(cat4(subject, " `", key, "` must be a string"))),
    }
}

/// Whether a key is among the known ones.
pub open spec fn is_known(key: Seq<char>, known: Seq<&str>) -> bool {
    exists|i: int| 0 <= i < known.len() && (#[trigger] known[i])@ == key
}

/// What is wrong with the keys of the options: the first unknown one.
pub open spec fn unknown_problem(
    options: Seq<(String, FrozenValue)>,
    known: Seq<&str>,
    subject: Seq<char>,
) -> Option<Seq<char>>
    decreases options.len(),
{
    if options.len() == 0 {
        None
    } else if !is_known(options[0].0@, known) {
        Some(subject + " does not support option `"@ + options[0].0@ + "`"@)
    } else {
        unknown_problem(options.skip(1), known, subject)
    }
}

/// Refuses options that nothing reads.
pub fn reject_unknown_options(
    options: &Vec<(String, FrozenValue)>,
    known: &[&str],
    subject: &str,
) -> (r: Result<()>)
    ensures
        reports(r, unknown_problem(options@, known@, subject@)),
{
    let mut i: usize = 0;
    assert(options@.skip(0) =~= options@);
    while i < options.len()
        invariant
            0 <= i <= options@.len(),
            unknown_problem(options@, known@, subject@) == unknown_problem(
                options@.skip(i as int),
                known@,
                subject@,
            ),
        decreases options@.len() - i,
    {
        assert(options@.skip(i as int)[0] == options@[i as int]);
        let mut found = false;
        let mut k: usize = 0;
        while k < known.len()
            invariant
                0 <= k <= known@.len(),
                i < options@.len(),
                found ==> is_known(options@[i as int].0@, known@),
                !found ==> forall|j: int| 0 <= j < k ==> (#[trigger] known@[j])@ != options@[i as int].0@,
            decreases known@.len() - k,
        {
            if same(known[k], options[i].0.as_str()) {
                assert(known@[k as int]@ == options@[i as int].0@);
                found = true;
            }
            k += 1;
        }
        if !found {
            return Err(
                WombatError::Configuration(
                    cat4(subject, " does not support option `", options[i].0.as_str(), "`"),
                ),
            );
        }
        assert(options@.skip(i as int).skip(1) =~= options@.skip(i + 1));
        i += 1;
    }
    Ok(())
}

/// What is wrong with a boolean option.
pub open spec fn bool_problem(
    options: Seq<(String, FrozenValue)>,
    key: Seq<char>,
    message: Seq<char>,
) -> Option<Seq<char>> {
    problem_if(option(options, key) is Some && !(option(options, key)->0 is Boolean), message)
}

/// The value of a boolean option.
pub open spec fn bool_option(
    options: Seq<(String, FrozenValue)>,
    key: Seq<char>,
    default: bool,
) -> bool {
    match option(options, key) {
        Some(FrozenValue::Boolean(value)) => value,
        _ => default,
    }
}

/// Reads a boolean option.
pub fn take_bool(
    options: &Vec<(String, FrozenValue)>,
    key: &str,
    default: bool,
    message: &str,
) -> (r: Result<bool>)
    ensures
        reports(r, bool_problem(options@, key@, message@)),
        r matches Ok(value) ==> value == bool_option(options@, key@, default),
{
    match get(options, key) {
        None => Ok(default),
        Some(FrozenValue::Boolean(value)) => Ok(*value),
        Some(_) => Err(WombatError::configuration(message)),
    }
}

/// Whether text is the choice at `index` and none before.
pub open spec fn chosen(text: Seq<char>, choices: Seq<&str>, index: int) -> bool {
    &&& 0 <= index < choices.len()
    &&& choices[index]@ == text
    &&& forall|j: int| 0 <= j < index ==> (#[trigger] choices[j])@ != text
}

/// What is wrong with an option that is one of several strings.
pub open spec fn choice_problem(
    options: Seq<(String, FrozenValue)>,
    key: Seq<char>,
    choices: Seq<&str>,
    message: Seq<char>,
) -> Option<Seq<char>> {
    match option(options, key) {
        None => None,
        Some(FrozenValue::String(value)) => problem_if(!is_known(value@, choices), message),
        Some(_) => Some(message),
    }
}

/// Whether an option holds the choice at `index`, or none where it is absent.
pub open spec fn choice_is(
    index: Option<usize>,
    options: Seq<(String, FrozenValue)>,
    key: Seq<char>,
    choices: Seq<&str>,
) -> bool {
    match index {
        None => option(options, key) is None,
        Some(i) => chosen(string_option(options, key), choices, i as int) && option(
            options,
            key,
        ) is Some,
    }
}

/// Reads an option that is one of several strings.
pub fn take_choice(
    options: &Vec<(String, FrozenValue)>,
    key: &str,
    choices: &[&str],
    message: &str,
) -> (r: Result<Option<usize>>)
    ensures
        reports(r, choice_problem(options@, key@, choices@, message@)),
        r matches Ok(index) ==> choice_is(index, options@, key@, choices@),
{
    match get(options, key) {
        None => Ok(None),
        Some(FrozenValue::String(value)) => {
            let mut i: usize = 0;
            while i < choices.len()
                invariant
                    0 <= i <= choices@.len(),
                    option(options@, key@) == Some(FrozenValue::String(*value)),
                    forall|j: int| 0 <= j < i ==> (#[trigger] choices@[j])@ != value@,
                decreases choices@.len() - i,
            {
                if same(choices[i], value.as_str()) {
                    assert(choices@[i as int]@ == value@);
                    return Ok(Some(i));
                }
                i += 1;
            }
            Err(WombatError::configuration(message))
        },
        Some(_) => Err(WombatError::configuration(message)),
    }
}

/// What is wrong with an option that names a rung.
pub open spec fn rung_problem(
    options: Seq<(String, FrozenValue)>,
    key: Seq<char>,
    message: Seq<char>,
) -> Option<Seq<char>> {
    problem_if(option(options, key) is Some && !(option(options, key)->0 is String), message)
}

/// The rung that an option names.
pub open spec fn rung_option(
    options: Seq<(String, FrozenValue)>,
    key: Seq<char>,
    default: CoreRung,
) -> Seq<char> {
    match option(options, key) {
        Some(FrozenValue::String(value)) => value@,
        _ => default.id(),
    }
}

/// Reads an option that names a rung.
pub fn take_rung(
    options: &Vec<(String, FrozenValue)>,
    key: &str,
    default: CoreRung,
    message: &str,
) -> (r: Result<RungId>)
    ensures
        reports(r, rung_problem(options@, key@, message@)),
        r matches Ok(rung) ==> rung.name@ == rung_option(options@, key@, default),
{
    match get(options, key) {
        None => Ok(default.rung()),
        Some(FrozenValue::String(value)) => Ok(RungId { name: value.clone() }),
        Some(_) => Err(WombatError::configuration(message)),
    }
}

/// Whether every value is text.
pub open spec fn all_text(items: Seq<FrozenValue>) -> bool {
    forall|i: int| 0 <= i < items.len() ==> (#[trigger] items[i]) is String
}

/// The texts of values.
pub open spec fn item_texts(items: Seq<FrozenValue>) -> Seq<Seq<char>> {
    items.map_values(|v: FrozenValue| if v is String { v->String_0@ } else { Seq::empty() })
}

/// Reads values that must all be text.
pub fn read_texts(items: &Vec<FrozenValue>, message: &str) -> (r: Result<Vec<String>>)
    ensures
        reports(r, problem_if(!all_text(items@), message@)),
        r matches Ok(texts) ==> views(texts@) == item_texts(items@),
{
    let mut texts: Vec<String> = Vec::new();
    let mut i: usize = 0;
    while i < items.len()
        invariant
            0 <= i <= items@.len(),
            texts@.len() == i,
            forall|j: int| 0 <= j < i ==> (#[trigger] items@[j]) is String,
            forall|j: int| 0 <= j < i ==> (#[trigger] texts@[j])@ == item_texts(items@)[j],
        decreases items@.len() - i,
    {
        match &items[i] {
            FrozenValue::String(text) => texts.push(text.clone()),
            _ => {
                assert(!(items@[i as int] is String));
                return Err(WombatError::configuration(message));
            },
        }
        i += 1;
    }
    assert(views(texts@) =~= item_texts(items@));
    Ok(texts)
}

/// What is wrong with an option that is an array of strings.
pub open spec fn texts_problem(
    options: Seq<(String, FrozenValue)>,
    key: Seq<char>,
    entry: Seq<char>,
    message: Seq<char>,
) -> Option<Seq<char>> {
    match option(options, key) {
        None => None,
        Some(FrozenValue::Array(items)) => problem_if(!all_text(items@), entry),
        Some(_) => Some(message),
    }
}

/// The texts of an option that is an array of strings.
pub open spec fn texts_option(options: Seq<(String, FrozenValue)>, key: Seq<char>) -> Seq<
    Seq<char>,
> {
    match option(options, key) {
        Some(FrozenValue::Array(items)) => item_texts(items@),
        _ => Seq::empty(),
    }
}

/// Reads an option that is an array of strings.
pub fn take_texts(
    options: &Vec<(String, FrozenValue)>,
    key: &str,
    entry: &str,
    message: &str,
) -> (r: Result<Vec<String>>)
    ensures
        reports(r, texts_problem(options@, key@, entry@, message@)),
        r matches Ok(texts) ==> views(texts@) == texts_option(options@, key@),
{
    match get(options, key) {
        None => {
            let texts: Vec<String> = Vec::new();
            assert(views(texts@) =~= Seq::empty());
            Ok(texts)
        },
        Some(FrozenValue::Array(items)) => read_texts(items, entry),
        Some(_) => Err(WombatError::configuration(message)),
    }
}

/// What is wrong with an option that is a map.
pub open spec fn map_problem(
    options: Seq<(String, FrozenValue)>,
    key: Seq<char>,
    message: Seq<char>,
) -> Option<Seq<char>> {
    problem_if(option(options, key) is Some && !(option(options, key)->0 is Table), message)
}

/// The JSON form of an option that is a map; empty where it is absent.
pub open spec fn map_option(options: Seq<(String, FrozenValue)>, key: Seq<char>) -> JsonTree {
    match option(options, key) {
        Some(value) => value.tree(),
        None => object_tree(Seq::empty()),
    }
}

/// Reads an option that is a map.
pub fn take_map(options: &Vec<(String, FrozenValue)>, key: &str, message: &str) -> (r: Result<
    FrozenValue,
>)
    ensures
        reports(r, map_problem(options@, key@, message@)),
        r matches Ok(value) ==> value.tree() == map_option(options@, key@) && value is Table,
{
    match get(options, key) {
        None => Ok(FrozenValue::empty_map()),
        Some(value) => match value {
            FrozenValue::Table(_) => Ok(value.copy()),
            _ => Err(WombatError::configuration(message)),
        },
    }
}

/// Whether a character may stand in the name of an action.
pub open spec fn plain_character(c: char) -> bool {
    ('a' <= c <= 'z') || ('A' <= c <= 'Z') || ('0' <= c <= '9') || c == '-' || c == '_'
}

/// Whether text is a name of letters, digits, `-` and `_`.
pub open spec fn plain_name(name: Seq<char>) -> bool {
    name.len() > 0 && forall|i: int| 0 <= i < name.len() ==> plain_character(#[trigger] name[i])
}

/// Whether text is a name of letters, digits, `-` and `_`.
pub fn is_plain_name(name: &str) -> (r: bool)
    ensures
        r == plain_name(name@),
{
    let chars = chars_of(name);
    if chars.len() == 0 {
        return false;
    }
    let mut i: usize = 0;
    while i < chars.len()
        invariant
            0 <= i <= chars@.len(),
            chars@ == name@,
            forall|j: int| 0 <= j < i ==> plain_character(#[trigger] name@[j]),
        decreases chars@.len() - i,
    {
        let c = chars[i];
        let plain = ('a' <= c && c <= 'z') || ('A' <= c && c <= 'Z') || ('0' <= c && c <= '9') || c
            == '-' || c == '_';
        if !plain {
            assert(!plain_character(name@[i as int]));
            return false;
        }
        i += 1;
    }
    true
}

/// The value of an option is part of the options.
pub proof fn lemma_option_within(options: Seq<(String, FrozenValue)>, key: Seq<char>)
    ensures
        option(options, key) matches Some(value) ==> decreases_to!(options => value),
    decreases options.len(),
{
    if options.len() > 0 {
        if options[0].0@ == key {
            assert(decreases_to!(options => options[0]));
            assert(decreases_to!(options[0] => options[0].1));
        } else {
            lemma_option_within(options.skip(1), key);
            assert(decreases_to!(options => options.subrange(1, options.len() as int)));
            assert(options.skip(1) =~= options.subrange(1, options.len() as int));
        }
    }
}

} // verus!
