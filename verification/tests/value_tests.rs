use lua_config::script::{convert_map, entries_of, lower, ScriptKey, ScriptValue};
use lua_config::{ConfigError, Double, LuaType};

fn number(value: f64) -> Double {
    Double::from_bits(value.to_bits())
}

#[test]
fn lowered_integer_round_trip() {
    let value = lower(&ScriptValue::Integer(42)).unwrap();
    assert_eq!(value, LuaType::Integer(42));
    assert_eq!(value.to::<i64>(), Some(42));
    assert_eq!(value.to::<i32>(), Some(42));
    assert_eq!(value.to::<Double>().map(|n| f64::from_bits(n.bits)), Some(42.0));
    assert_eq!(value.to::<bool>(), None);
    assert_eq!(value.to::<String>(), None);
    assert_eq!(value.to::<Vec<(String, LuaType)>>(), None);
}

#[test]
fn number_extracted_as_integer_is_cut() {
    let value = lower(&ScriptValue::Number(number(3.9))).unwrap();
    assert_eq!(value.to::<i32>(), Some(3));
    assert_eq!(value.to::<i64>(), Some(3));
    assert_eq!(value.to::<Double>(), Some(number(3.9)));
    let value = LuaType::Number(number(-7.99));
    assert_eq!(value.to::<i32>(), Some(-7));
}

#[test]
fn integer_that_does_not_fit_gives_nothing() {
    assert_eq!(LuaType::Integer(i32::MAX as i64).to::<i32>(), Some(i32::MAX));
    assert_eq!(LuaType::Integer(i32::MIN as i64).to::<i32>(), Some(i32::MIN));
    assert_eq!(LuaType::Integer(i32::MAX as i64 + 1).to::<i32>(), None);
    assert_eq!(LuaType::Integer(i32::MIN as i64 - 1).to::<i32>(), None);
    assert_eq!(LuaType::Integer(i32::MAX as i64 + 1).to::<i64>(), Some(2147483648));
}

#[test]
fn boolean_and_string_extraction() {
    assert_eq!(LuaType::Boolean(true).to::<bool>(), Some(true));
    assert_eq!(LuaType::Boolean(false).to::<bool>(), Some(false));
    assert_eq!(LuaType::Boolean(true).to::<i64>(), None);
    assert_eq!(LuaType::String("7".to_string()).to::<i64>(), None);
    assert_eq!(LuaType::String("text".to_string()).to::<String>(), Some("text".to_string()));
    assert_eq!(LuaType::Integer(7).to::<String>(), None);
    assert_eq!(LuaType::Nil.to::<bool>(), None);
    assert_eq!(LuaType::Nil.to::<Double>(), None);
}

#[test]
fn table_extraction_copies_entries() {
    let table = LuaType::Table(vec![
        ("a".to_string(), LuaType::Integer(1)),
        ("b".to_string(), LuaType::Table(vec![("c".to_string(), LuaType::Nil)])),
    ]);
    let copy = table.to::<Vec<(String, LuaType)>>().unwrap();
    assert_eq!(LuaType::Table(copy), table);
    assert_eq!(table.clone(), table);
}

#[test]
fn lowering_maps_each_kind() {
    assert_eq!(lower(&ScriptValue::Nil), Ok(LuaType::Nil));
    assert_eq!(lower(&ScriptValue::Boolean(true)), Ok(LuaType::Boolean(true)));
    assert_eq!(lower(&ScriptValue::Number(number(1.5))), Ok(LuaType::Number(number(1.5))));
    assert_eq!(
        lower(&ScriptValue::String("s".to_string())),
        Ok(LuaType::String("s".to_string()))
    );
    assert_eq!(lower(&ScriptValue::Binary), Ok(LuaType::String(String::new())));
    assert_eq!(lower(&ScriptValue::Other), Err(ConfigError::UnsupportedValue));
    assert_eq!(lower(&ScriptValue::Cycle), Err(ConfigError::UnsupportedValue));
}

#[test]
fn lowering_a_table_coerces_keys_and_lets_the_later_entry_win() {
    let table = ScriptValue::Table(vec![
        (ScriptKey::Index(1), ScriptValue::Boolean(true)),
        (ScriptKey::Text("x".to_string()), ScriptValue::Integer(1)),
        (ScriptKey::Other, ScriptValue::Other),
        (ScriptKey::Text("1".to_string()), ScriptValue::Boolean(false)),
        (ScriptKey::Index(-20), ScriptValue::Nil),
    ]);
    assert_eq!(
        lower(&table),
        Ok(LuaType::Table(vec![
            ("1".to_string(), LuaType::Boolean(false)),
            ("x".to_string(), LuaType::Integer(1)),
            ("-20".to_string(), LuaType::Nil),
        ]))
    );
}

#[test]
fn lowering_fails_on_unsupported_value_inside() {
    let table = ScriptValue::Table(vec![
        (ScriptKey::Text("ok".to_string()), ScriptValue::Integer(1)),
        (
            ScriptKey::Text("inner".to_string()),
            ScriptValue::Table(vec![(ScriptKey::Index(1), ScriptValue::Other)]),
        ),
    ]);
    assert_eq!(lower(&table), Err(ConfigError::UnsupportedValue));
}

#[test]
fn convert_map_keeps_keys_and_order() {
    let entries = vec![
        ("b".to_string(), ScriptValue::Integer(2)),
        ("a".to_string(), ScriptValue::Binary),
    ];
    assert_eq!(
        convert_map(&entries),
        Ok(vec![
            ("b".to_string(), LuaType::Integer(2)),
            ("a".to_string(), LuaType::String(String::new())),
        ])
    );
    let entries = vec![
        ("b".to_string(), ScriptValue::Integer(2)),
        ("a".to_string(), ScriptValue::Other),
    ];
    assert_eq!(convert_map(&entries), Err(ConfigError::UnsupportedValue));
}

#[test]
fn entries_of_empty_table_is_empty_configuration() {
    assert_eq!(
        entries_of(ScriptValue::Table(vec![]), "Config"),
        Err(ConfigError::EmptyConfiguration("Config".to_string()))
    );
    assert_eq!(
        entries_of(ScriptValue::Table(vec![]), "Default"),
        Err(ConfigError::EmptyConfiguration("Default".to_string()))
    );
}

#[test]
fn entries_of_keys_by_text() {
    let table = ScriptValue::Table(vec![
        (ScriptKey::Text("a".to_string()), ScriptValue::Integer(1)),
        (ScriptKey::Index(2), ScriptValue::Integer(2)),
        (ScriptKey::Text("a".to_string()), ScriptValue::Integer(3)),
    ]);
    assert_eq!(
        entries_of(table, "Config"),
        Ok(vec![
            ("a".to_string(), ScriptValue::Integer(3)),
            ("2".to_string(), ScriptValue::Integer(2)),
        ])
    );
}

#[test]
fn entries_of_rejects_what_is_no_table_keyed_by_text() {
    let error = entries_of(ScriptValue::Integer(1), "Config").unwrap_err();
    assert!(matches!(error, ConfigError::ScriptCallFailure(name, _) if name == "Config"));
    let table = ScriptValue::Table(vec![
        (ScriptKey::Text("a".to_string()), ScriptValue::Integer(1)),
        (ScriptKey::Other, ScriptValue::Integer(2)),
    ]);
    let error = entries_of(table, "Default").unwrap_err();
    assert!(matches!(error, ConfigError::ScriptCallFailure(name, _) if name == "Default"));
}
