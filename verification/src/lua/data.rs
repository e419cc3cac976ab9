//! Structured data that policy reads and writes.
use vstd::prelude::*;
use vstd::string::*;

use crate::codec::{
    event_views, toml_encoded, toml_text, yaml_encoded, yaml_events, yaml_events_of, yaml_text,
    YamlEvent, YamlEventView, YamlStyle,
};
use crate::error::{first, is_configuration, problem_if, reports, Result, WombatError};
use crate::json::{indented, indented_text};
use crate::lua::state::Location;
use crate::model::frozen::{frozen_value, FrozenValue};
use crate::model::path::{absolute, is_absolute};
use crate::number::{decimal, decimal_text, digit};
use crate::text::{cat2, cat3, cat4, cat5, cat7, chars_of, pieces, same, split, text_of, views};

verus! {

/// Whether a path stays in the repository whatever it holds.
pub open spec fn safe_path(declared: Seq<char>) -> bool {
    &&& declared.len() > 0
    &&& !absolute(declared)
    &&& forall|i: int|
        0 <= i < pieces(declared, '/').len() ==> plain_component(#[trigger] pieces(declared, '/')[i])
}

/// Whether a component is a name.
pub open spec fn plain_component(component: Seq<char>) -> bool {
    component.len() > 0 && component != "."@ && component != ".."@
}

/// Makes sure that a path of data stays in the repository.
pub fn check_data_path(declared: &str, caller: &str, location: &Location) -> (r: Result<()>)
    ensures
        reports(
            r,
            problem_if(
                !safe_path(declared@),
                caller@ + " requires a safe repository-relative path at "@
                    + location.trace.text(),
            ),
        ),
{
    let parts = split(declared, '/');
    let ghost all = pieces(declared@, '/');
    assert(parts@.len() == views(parts@).len());
    let mut safe = !declared.is_empty() && !is_absolute(declared);
    let mut i: usize = 0;
    while i < parts.len()
        invariant
            0 <= i <= parts@.len(),
            views(parts@) == all,
            all == pieces(declared@, '/'),
            parts@.len() == all.len(),
            safe == (declared@.len() > 0 && !absolute(declared@) && forall|j: int|
                0 <= j < i ==> plain_component(#[trigger] all[j])),
        decreases parts@.len() - i,
    {
        assert(views(parts@)[i as int] == parts@[i as int]@);
        if parts[i].as_str().is_empty() || same(parts[i].as_str(), ".") || same(
            parts[i].as_str(),
            "..",
        ) {
            assert(!plain_component(all[i as int]));
            safe = false;
        }
        i += 1;
    }
    if !safe {
        return Err(
            WombatError::Configuration(
                cat3(
                    caller,
                    " requires a safe repository-relative path at ",
                    location.display().as_str(),
                ),
            ),
        );
    }
    Ok(())
}

/// Tells that data could not be read. `format` is what it should be and `reason` why
/// it is not.
pub fn parse_failure(format: &str, declared: &str, location: &Location, reason: &str) -> (r: WombatError)
    ensures
        is_configuration(
            r,
            "failed to parse "@ + format@ + " data `"@ + declared@ + "` at "@
                + location.trace.text() + ": "@ + reason@,
        ),
{
    let head = cat7(
        "failed to parse ",
        format,
        " data `",
        declared,
        "` at ",
        location.display().as_str(),
        ": ",
    );
    WombatError::Configuration(cat2(head.as_str(), reason))
}

/// The path of the first null in a value, as TOML would write it.
pub open spec fn null_in(value: FrozenValue, path: Seq<char>) -> Option<Seq<char>>
    decreases value, 0nat,
{
    match value {
        FrozenValue::Null => Some(path),
        FrozenValue::Array(items) => null_among_items(items@, path),
        FrozenValue::Table(entries) => null_among_entries(entries@, path),
        _ => None,
    }
}

/// The path of the first null among items.
pub open spec fn null_among_items(items: Seq<FrozenValue>, path: Seq<char>) -> Option<Seq<char>>
    decreases items, items.len(),
{
    if items.len() == 0 {
        None
    } else {
        first(
            null_among_items(items.drop_last(), path),
            null_in(items.last(), path + "["@ + decimal(items.len()) + "]"@),
        )
    }
}

/// The path of the first null among entries.
pub open spec fn null_among_entries(
    entries: Seq<(String, FrozenValue)>,
    path: Seq<char>,
) -> Option<Seq<char>>
    decreases entries, entries.len(),
{
    if entries.len() == 0 {
        None
    } else {
        first(
            null_among_entries(entries.drop_last(), path),
            null_in(entries.last().1, path + "."@ + entries.last().0@),
        )
    }
}

proof fn lemma_items_front(items: Seq<FrozenValue>, path: Seq<char>, count: int)
    requires
        0 <= count <= items.len(),
        null_among_items(items.take(count), path) is Some,
    ensures
        null_among_items(items, path) == null_among_items(items.take(count), path),
    decreases items.len() - count,
{
    if count < items.len() {
        assert(items.take(count + 1).drop_last() =~= items.take(count));
        lemma_items_front(items, path, count + 1);
    } else {
        assert(items.take(count) =~= items);
    }
}

proof fn lemma_entries_front(entries: Seq<(String, FrozenValue)>, path: Seq<char>, count: int)
    requires
        0 <= count <= entries.len(),
        null_among_entries(entries.take(count), path) is Some,
    ensures
        null_among_entries(entries, path) == null_among_entries(entries.take(count), path),
    decreases entries.len() - count,
{
    if count < entries.len() {
        assert(entries.take(count + 1).drop_last() =~= entries.take(count));
        lemma_entries_front(entries, path, count + 1);
    } else {
        assert(entries.take(count) =~= entries);
    }
}

/// What is wrong with a null in TOML.
pub open spec fn null_problem(found: Option<Seq<char>>) -> Option<Seq<char>> {
    match found {
        Some(path) => Some(
            "w.toml.encode() cannot encode null at `"@ + path
                + "` because TOML has no null value"@,
        ),
        None => None,
    }
}

fn find_null(value: &FrozenValue, path: &str) -> (r: Option<String>)
    ensures
        match r {
            Some(found) => null_in(*value, path@) == Some(found@),
            None => null_in(*value, path@) is None,
        },
    decreases *value,
{
    match value {
        FrozenValue::Null => Some(path.to_string()),
        FrozenValue::Array(items) => {
            let mut i: usize = 0;
            assert(items@.take(0) =~= Seq::empty());
            while i < items.len()
                invariant
                    0 <= i <= items@.len(),
                    *value is Array,
                    *items == value->Array_0,
                    null_among_items(items@.take(i as int), path@) is None,
                decreases items@.len() - i,
            {
                proof {
                    assert(decreases_to!(*value => value->Array_0));
                    assert(decreases_to!(value->Array_0 => value->Array_0@));
                    assert(decreases_to!(items@ => items@[i as int]));
                    assert(items@.take(i + 1).drop_last() =~= items@.take(i as int));
                    assert(items@.take(i + 1).last() == items@[i as int]);
                    if null_among_items(items@.take(i + 1), path@) is Some {
                        lemma_items_front(items@, path@, i + 1);
                    }
                }
                let place = cat4(path, "[", decimal_text((i + 1) as u64).as_str(), "]");
                let found = find_null(&items[i], place.as_str());
                if found.is_some() {
                    return found;
                }
                i += 1;
            }
            assert(items@.take(i as int) =~= items@);
            None
        },
        FrozenValue::Table(entries) => {
            let mut i: usize = 0;
            assert(entries@.take(0) =~= Seq::empty());
            while i < entries.len()
                invariant
                    0 <= i <= entries@.len(),
                    *value is Table,
                    *entries == value->Table_0,
                    null_among_entries(entries@.take(i as int), path@) is None,
                decreases entries@.len() - i,
            {
                proof {
                    assert(decreases_to!(*value => value->Table_0));
                    assert(decreases_to!(value->Table_0 => value->Table_0@));
                    assert(decreases_to!(entries@ => entries@[i as int]));
                    assert(decreases_to!(entries@[i as int] => entries@[i as int].1));
                    assert(entries@.take(i + 1).drop_last() =~= entries@.take(i as int));
                    assert(entries@.take(i + 1).last() == entries@[i as int]);
                    if null_among_entries(entries@.take(i + 1), path@) is Some {
                        lemma_entries_front(entries@, path@, i + 1);
                    }
                }
                let place = cat3(path, ".", entries[i].0.as_str());
                let found = find_null(&entries[i].1, place.as_str());
                if found.is_some() {
                    return found;
                }
                i += 1;
            }
            assert(entries@.take(i as int) =~= entries@);
            None
        },
        _ => None,
    }
}

/// Refuses a value that holds null.
pub fn reject_toml_null(value: &FrozenValue, path: &str) -> (r: Result<()>)
    ensures
        reports(r, null_problem(null_in(*value, path@))),
{
    match find_null(value, path) {
        Some(found) => Err(
            WombatError::Configuration(
                cat3(
                    "w.toml.encode() cannot encode null at `",
                    found.as_str(),
                    "` because TOML has no null value",
                ),
            ),
        ),
        None => Ok(()),
    }
}

/// What is wrong with a value that should become TOML.
pub open spec fn toml_problem(value: FrozenValue) -> Option<Seq<char>> {
    first(
        problem_if(
            !(value is Table),
            "w.toml.encode() requires a string-keyed table at the document root"@,
        ),
        first(
            null_problem(null_in(value, "root"@)),
            match toml_encoded(value.tree()) {
                Ok(_) => None,
                Err(message) => Some("failed to encode TOML data: "@ + message),
            },
        ),
    )
}

/// Writes a value as TOML.
pub fn encode_toml_data(value: Result<FrozenValue>) -> (r: Result<String>)
    ensures
        match value {
            Err(error) => r is Err && r->Err_0 == error,
            Ok(value) => reports(r, toml_problem(value)) && (r matches Ok(text) ==> text@
                == toml_encoded(value.tree())->Ok_0),
        },
{
    let value = value?;
    let is_map = match &value {
        FrozenValue::Table(_) => true,
        _ => false,
    };
    if !is_map {
        return Err(
            WombatError::configuration(
                "w.toml.encode() requires a string-keyed table at the document root",
            ),
        );
    }
    reject_toml_null(&value, "root")?;
    match toml_text(&frozen_value(&value)) {
        Ok(text) => Ok(text),
        Err(message) => Err(
            WombatError::Configuration(cat2("failed to encode TOML data: ", message.as_str())),
        ),
    }
}

/// Writes a value as JSON.
pub fn encode_json_data(value: Result<FrozenValue>) -> (r: Result<String>)
    ensures
        match value {
            Err(error) => r is Err && r->Err_0 == error,
            Ok(value) => r is Ok && r->Ok_0@ == indented(value.tree()),
        },
{
    let value = value?;
    Ok(indented_text(&frozen_value(&value)))
}

/// Text without the line ends that it ends with.
pub open spec fn without_line_ends(text: Seq<char>) -> Seq<char>
    decreases text.len(),
{
    if text.len() > 0 && (text.last() == '\r' || text.last() == '\n') {
        without_line_ends(text.drop_last())
    } else {
        text
    }
}

fn trim_line_ends(text: &str) -> (r: String)
    ensures
        r@ == without_line_ends(text@),
{
    let chars = chars_of(text);
    let mut end: usize = chars.len();
    assert(text@.take(text@.len() as int) =~= text@);
    while end > 0 && (chars[end - 1] == '\r' || chars[end - 1] == '\n')
        invariant
            0 <= end <= chars@.len(),
            chars@ == text@,
            without_line_ends(text@) == without_line_ends(text@.take(end as int)),
        decreases end,
    {
        assert(text@.take(end as int).drop_last() =~= text@.take(end - 1));
        end -= 1;
    }
    let r = text_of(&chars, 0, end);
    assert(r@ =~= text@.take(end as int));
    r
}

/// The style of YAML that policy writes.
pub open spec fn yaml_style() -> YamlStyle {
    YamlStyle {
        empty_as_braces: true,
        indent_step: 2,
        compact_list_indent: false,
        tagged_enums: false,
        quote_all: false,
        yaml_12: false,
    }
}

/// Writes a value as YAML, with one line end.
pub fn encode_yaml_data(value: Result<FrozenValue>) -> (r: Result<String>)
    ensures
        match value {
            Err(error) => r is Err && r->Err_0 == error,
            Ok(value) => match yaml_encoded(value.tree(), yaml_style()) {
                Ok(text) => r is Ok && r->Ok_0@ == without_line_ends(text) + "\n"@,
                Err(message) => r is Err && is_configuration(
                    r->Err_0,
                    "failed to encode YAML data: "@ + message,
                ),
            },
        },
{
    let value = value?;
    let style = YamlStyle {
        empty_as_braces: true,
        indent_step: 2,
        compact_list_indent: false,
        tagged_enums: false,
        quote_all: false,
        yaml_12: false,
    };
    match yaml_text(&frozen_value(&value), style) {
        Ok(text) => Ok(cat2(trim_line_ends(text.as_str()).as_str(), "\n")),
        Err(message) => Err(
            WombatError::Configuration(cat2("failed to encode YAML data: ", message.as_str())),
        ),
    }
}

/// What is wrong with an event.
pub open spec fn event_problem(event: YamlEventView) -> Option<Seq<char>> {
    match event {
        Err(reason) => Some(reason),
        Ok(Some(tag)) => problem_if(
            !tag.1,
            "unsupported YAML tag `"@ + tag.0 + "` at "@ + decimal(tag.2 as nat) + ":"@ + decimal(
                (tag.3 + 1) as nat,
            )
                + "; Wombat accepts only core null, bool, int, float, string, sequence, and map tags"@,
        ),
        Ok(None) => None,
    }
}

/// What is wrong with the first events.
pub open spec fn events_problem(events: Seq<YamlEventView>, count: int) -> Option<Seq<char>>
    decreases count,
{
    if count <= 0 {
        None
    } else {
        first(events_problem(events, count - 1), event_problem(events[count - 1]))
    }
}

proof fn lemma_events_front(events: Seq<YamlEventView>, count: int, total: int)
    requires
        0 <= count <= total,
        events_problem(events, count) is Some,
    ensures
        events_problem(events, total) == events_problem(events, count),
    decreases total - count,
{
    if count < total {
        lemma_events_front(events, count, total - 1);
    }
}

/// The number after one.
fn next_text(value: u64) -> (r: String)
    ensures
        r@ == decimal((value + 1) as nat),
{
    if value < u64::MAX {
        return decimal_text(value + 1);
    }
    // The greatest value is 18446744073709551615.
    let front = decimal_text(1844674407370955161);
    proof {
        reveal_strlit("6");
        assert(u64::MAX + 1 == 18446744073709551616);
        assert(digit(6) == '6');
        assert(front@ + "6"@ =~= front@.push('6'));
    }
    cat2(front.as_str(), "6")
}

/// Refuses the events of YAML whose tags say what no frozen value can hold.
pub fn check_yaml_events(events: &Vec<YamlEvent>) -> (r: std::result::Result<(), String>)
    ensures
        match events_problem(event_views(events@), events@.len() as int) {
            Some(message) => r is Err && r->Err_0@ == message,
            None => r is Ok,
        },
{
    let ghost all = event_views(events@);
    let mut i: usize = 0;
    while i < events.len()
        invariant
            0 <= i <= events@.len(),
            all == event_views(events@),
            events_problem(all, i as int) is None,
        decreases events@.len() - i,
    {
        proof {
            if events_problem(all, i + 1) is Some {
                lemma_events_front(all, i + 1, events@.len() as int);
            }
        }
        match &events[i] {
            Err(reason) => {
                return Err(reason.clone());
            },
            Ok(Some(tag)) => {
                if !tag.core {
                    let head = cat5(
                        "unsupported YAML tag `",
                        tag.tag.as_str(),
                        "` at ",
                        decimal_text(tag.line).as_str(),
                        ":",
                    );
                    return Err(
                        cat3(
                            head.as_str(),
                            next_text(tag.column).as_str(),
                            "; Wombat accepts only core null, bool, int, float, string, sequence, and map tags",
                        ),
                    );
                }
            },
            Ok(None) => {},
        }
        i += 1;
    }
    Ok(())
}

/// Refuses YAML whose tags say what no frozen value can hold.
pub fn reject_unsupported_yaml_tags(source: &str) -> (r: std::result::Result<(), String>)
    ensures
        match events_problem(yaml_events_of(source@), yaml_events_of(source@).len() as int) {
            Some(message) => r is Err && r->Err_0@ == message,
            None => r is Ok,
        },
{
    let events = yaml_events(source);
    assert(event_views(events@).len() == events@.len());
    check_yaml_events(&events)
}

/// A whole number of YAML, or why it is none of ours.
pub fn yaml_unsigned(value: u64) -> (r: std::result::Result<FrozenValue, String>)
    ensures
        if value <= i64::MAX {
            r matches Ok(FrozenValue::Integer(n)) && n == value
        } else {
            r is Err && r->Err_0@ == "integer `"@ + decimal(value as nat)
                + "` exceeds Wombat's signed 64-bit range"@
        },
{
    if value <= i64::MAX as u64 {
        return Ok(FrozenValue::Integer(value as i64));
    }
    Err(
        cat3(
            "integer `",
            decimal_text(value).as_str(),
            "` exceeds Wombat's signed 64-bit range",
        ),
    )
}

/// A value is kept out of TOML where a null stands in it, however deep, and only there.
pub proof fn law_nulls_are_found_however_deep(value: FrozenValue, path: Seq<char>)
    ensures
        value is Null ==> null_in(value, path) == Some(path),
        value matches FrozenValue::Array(items) ==> (null_in(value, path) is None <==> forall|i: int|
            0 <= i < items@.len() ==> null_in(
                #[trigger] items@[i],
                path + "["@ + decimal((i + 1) as nat) + "]"@,
            ) is None),
        value matches FrozenValue::Table(entries) ==> (null_in(value, path) is None <==> forall|
            i: int,
        |
            0 <= i < entries@.len() ==> null_in(
                (#[trigger] entries@[i]).1,
                path + "."@ + entries@[i].0@,
            ) is None),
        !(value is Null) && !(value is Array) && !(value is Table) ==> null_in(value, path) is None,
{
    match value {
        FrozenValue::Array(items) => lemma_null_items(items@, path),
        FrozenValue::Table(entries) => lemma_null_entries(entries@, path),
        _ => {},
    }
}

proof fn lemma_null_items(items: Seq<FrozenValue>, path: Seq<char>)
    ensures
        null_among_items(items, path) is None <==> forall|i: int|
            0 <= i < items.len() ==> null_in(
                #[trigger] items[i],
                path + "["@ + decimal((i + 1) as nat) + "]"@,
            ) is None,
    decreases items.len(),
{
    if items.len() > 0 {
        let front = items.drop_last();
        let last = items.len() - 1;
        lemma_null_items(front, path);
        if null_among_items(items, path) is None {
            assert forall|i: int| 0 <= i < items.len() implies null_in(
                #[trigger] items[i],
                path + "["@ + decimal((i + 1) as nat) + "]"@,
            ) is None by {
                if i < last {
                    assert(front[i] == items[i]);
                }
            }
        } else if null_among_items(front, path) is Some {
            let i = choose|i: int|
                0 <= i < front.len() && null_in(
                    #[trigger] front[i],
                    path + "["@ + decimal((i + 1) as nat) + "]"@,
                ) is Some;
            assert(items[i] == front[i]);
        } else {
            assert(items[last] == items.last());
        }
    }
}

proof fn lemma_null_entries(entries: Seq<(String, FrozenValue)>, path: Seq<char>)
    ensures
        null_among_entries(entries, path) is None <==> forall|i: int|
            0 <= i < entries.len() ==> null_in(
                (#[trigger] entries[i]).1,
                path + "."@ + entries[i].0@,
            ) is None,
    decreases entries.len(),
{
    if entries.len() > 0 {
        let front = entries.drop_last();
        let last = entries.len() - 1;
        lemma_null_entries(front, path);
        if null_among_entries(entries, path) is None {
            assert forall|i: int| 0 <= i < entries.len() implies null_in(
                (#[trigger] entries[i]).1,
                path + "."@ + entries[i].0@,
            ) is None by {
                if i < last {
                    assert(front[i] == entries[i]);
                }
            }
        } else if null_among_entries(front, path) is Some {
            let i = choose|i: int|
                0 <= i < front.len() && null_in(
                    (#[trigger] front[i]).1,
                    path + "."@ + front[i].0@,
                ) is Some;
            assert(entries[i] == front[i]);
        } else {
            assert(entries[last] == entries.last());
        }
    }
}

} // verus!
