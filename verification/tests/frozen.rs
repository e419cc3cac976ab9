//! Values that cross the border to Lua.
use mlua::{Lua, Value};
use serde_json::Number;
use wombat::error::WombatError;
use wombat::json::Fraction;
use wombat::lua::data::{encode_json_data, encode_toml_data, encode_yaml_data};
use wombat::lua::process::check_array;
use wombat::model::frozen::{insert_entry, FrozenValue, LuaHeap, LuaTable, LuaValue};

fn fraction(value: f64) -> FrozenValue {
    FrozenValue::Number(Number::from_f64(value).and_then(Fraction::new).unwrap())
}

fn lower(heap: &mut LuaHeap, seen: &mut Vec<usize>, value: &Value) -> LuaValue {
    match value {
        Value::Nil => LuaValue::Nil,
        Value::Boolean(value) => LuaValue::Boolean(*value),
        Value::Integer(value) => LuaValue::Integer(*value),
        Value::Number(value) => match Number::from_f64(*value).and_then(Fraction::new) {
            Some(number) => LuaValue::Number(number),
            None => LuaValue::NotFinite,
        },
        Value::String(text) => match text.to_str() {
            Ok(text) => LuaValue::Text(text.to_string()),
            Err(error) => LuaValue::Undecodable(error.to_string()),
        },
        Value::Table(table) => {
            let pointer = value.to_pointer() as usize;
            if let Some(index) = seen.iter().position(|known| *known == pointer) {
                return LuaValue::Table(index);
            }
            let index = heap.tables.len();
            seen.push(pointer);
            heap.tables.push(LuaTable {
                pairs: Vec::new(),
                marked_array: false,
            });
            for pair in table.pairs::<Value, Value>() {
                let (key, item) = pair.unwrap();
                let key = lower(heap, seen, &key);
                let item = lower(heap, seen, &item);
                heap.tables[index].pairs.push((key, item));
            }
            LuaValue::Table(index)
        }
        Value::Function(_) => LuaValue::Other("function".to_string()),
        _ => LuaValue::Other("userdata".to_string()),
    }
}

fn freeze(code: &str) -> Result<FrozenValue, WombatError> {
    let lua = Lua::new();
    let value: Value = lua.load(code).eval().unwrap();
    let mut heap = LuaHeap { tables: Vec::new() };
    let root = lower(&mut heap, &mut Vec::new(), &value);
    FrozenValue::from_lua(&heap, &root)
}

fn table(entries: Vec<(&str, FrozenValue)>) -> FrozenValue {
    FrozenValue::Table(
        entries
            .into_iter()
            .map(|(key, value)| (key.to_string(), value))
            .collect(),
    )
}

#[test]
fn freezes_maps_in_sorted_order() {
    let frozen = freeze("return { z = 1, a = true }");
    let json = encode_json_data(frozen).unwrap();
    assert_eq!(
        serde_json::from_str::<serde_json::Value>(&json).unwrap().to_string(),
        r#"{"a":true,"z":1}"#
    );
}

#[test]
fn freezes_contiguous_arrays() {
    let frozen = freeze("return { 'a', 'b' }").unwrap();
    assert_eq!(
        frozen,
        FrozenValue::Array(vec![
            FrozenValue::String("a".into()),
            FrozenValue::String("b".into()),
        ])
    );
}

#[test]
fn rejects_sparse_arrays() {
    let error = freeze("return { [2] = 'b' }").unwrap_err();
    assert!(error.text().contains("sparse Lua arrays"));
}

#[test]
fn rejects_mixed_tables() {
    let error = freeze("return { 'a', named = true }").unwrap_err();
    assert!(error.text().contains("string-keyed maps"));
}

#[test]
fn rejects_cycles() {
    let error = freeze("local value = {}; value.self = value; return value").unwrap_err();
    assert!(error.text().contains("cyclic Lua tables"));
}

#[test]
fn thawed_values_do_not_share_tables() {
    let frozen = table(vec![(
        "nested",
        table(vec![("value", FrozenValue::Integer(1))]),
    )]);
    let mut heap = LuaHeap { tables: Vec::new() };
    let first = frozen.to_lua(&mut heap);
    let second = frozen.to_lua(&mut heap);
    assert_ne!(first, second);
    assert_eq!(heap.tables.len(), 4);
}

#[test]
fn thawed_empty_arrays_keep_their_shape_when_frozen_again() {
    let mut heap = LuaHeap { tables: Vec::new() };
    let thawed = FrozenValue::Array(Vec::new()).to_lua(&mut heap);
    assert_eq!(
        FrozenValue::from_lua(&heap, &thawed).unwrap(),
        FrozenValue::Array(Vec::new())
    );
}

#[test]
fn freezing_undoes_thawing() {
    let value = table(vec![
        ("a", FrozenValue::Array(vec![FrozenValue::Integer(1), FrozenValue::Null])),
        ("b", table(vec![("c", FrozenValue::String("d".into()))])),
        ("e", fraction(1.5)),
    ]);
    let mut heap = LuaHeap { tables: Vec::new() };
    let thawed = value.to_lua(&mut heap);
    assert_eq!(FrozenValue::from_lua(&heap, &thawed).unwrap(), value);
    assert_eq!(value.copy(), value);
}

#[test]
fn refuses_what_is_no_data() {
    assert!(freeze("return function() end").unwrap_err().text().contains("function"));
    assert!(freeze("return 0/0").is_err());
    assert!(freeze("return '\\xff'").is_err());
    assert!(freeze("return { [1.5] = 1 }").is_err());
}

#[test]
fn entries_stand_in_the_order_of_their_keys() {
    let mut entries = Vec::new();
    insert_entry(&mut entries, "b".to_string(), FrozenValue::Integer(1));
    insert_entry(&mut entries, "a".to_string(), FrozenValue::Integer(2));
    insert_entry(&mut entries, "b".to_string(), FrozenValue::Integer(3));
    assert_eq!(
        FrozenValue::Table(entries),
        table(vec![("a", FrozenValue::Integer(2)), ("b", FrozenValue::Integer(3))])
    );
    assert_eq!(FrozenValue::empty_map(), table(Vec::new()));
}

#[test]
fn arrays_are_contiguous() {
    assert!(check_array(&FrozenValue::Array(Vec::new())).is_ok());
    assert!(check_array(&FrozenValue::empty_map()).is_ok());
    assert!(check_array(&FrozenValue::Integer(1)).is_err());
}

fn sample() -> FrozenValue {
    table(vec![
        ("name", FrozenValue::String("app".into())),
        ("sizes", FrozenValue::Array(vec![FrozenValue::Integer(1), FrozenValue::Integer(2)])),
    ])
}

#[test]
fn data_is_written_in_each_format() {
    let toml = encode_toml_data(Ok(sample())).unwrap();
    assert!(toml.contains("name = \"app\""));
    let parsed: toml::Table = toml.parse().unwrap();
    assert_eq!(parsed["sizes"].as_array().unwrap().len(), 2);
    let json = encode_json_data(Ok(sample())).unwrap();
    assert!(json.contains("\n  \"name\": \"app\""));
    let yaml = encode_yaml_data(Ok(sample())).unwrap();
    assert!(yaml.contains("name: app"));
    assert!(yaml.ends_with('\n') && !yaml.ends_with("\n\n"));
}

#[test]
fn toml_has_no_null() {
    let nested = table(vec![("a", FrozenValue::Array(vec![FrozenValue::Null]))]);
    let error = encode_toml_data(Ok(nested)).unwrap_err();
    assert!(error.text().contains("a"));
    assert!(encode_toml_data(Ok(FrozenValue::Integer(1))).is_err());
    assert_eq!(encode_json_data(Ok(FrozenValue::Null)).unwrap(), "null");
    let fraction = fraction(1.5);
    assert_eq!(encode_json_data(Ok(fraction)).unwrap(), "1.5");
    assert_eq!(encode_json_data(Ok(FrozenValue::Boolean(true))).unwrap(), "true");
}

#[test]
fn whole_numbers_keep_their_kind() {
    assert!(Fraction::new(Number::from(5)).is_none());
    assert!(Fraction::new(Number::from(-5)).is_none());
    let held = Fraction::new(Number::from_f64(5.0).unwrap()).unwrap();
    assert_eq!(held.number().as_f64(), Some(5.0));
    assert_eq!(held.copy(), held);
    let mut heap = LuaHeap { tables: Vec::new() };
    let value = table(vec![
        ("a", FrozenValue::Integer(5)),
        ("b", FrozenValue::Array(vec![fraction(5.0), FrozenValue::Integer(5)])),
    ]);
    assert_eq!(value.copy(), value);
    let thawed = value.to_lua(&mut heap);
    let again = FrozenValue::from_lua(&heap, &thawed).unwrap();
    assert_eq!(again, value);
    assert_ne!(FrozenValue::Integer(5), fraction(5.0));
    assert_eq!(encode_json_data(Ok(fraction(5.0))).unwrap(), "5.0");
    assert_eq!(encode_json_data(Ok(FrozenValue::Integer(5))).unwrap(), "5");
}
