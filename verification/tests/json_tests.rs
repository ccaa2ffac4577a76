use lua_config::json::{
    fetched_table, long_digit_run, script_from_json, table_from_document, table_from_json,
    whole_part_of, JsonFailure, JsonNode, JsonNumber,
};
use lua_config::script::{ScriptKey, ScriptValue};
use lua_config::Double;

fn number(value: i64) -> ScriptValue {
    ScriptValue::Number(Double::from_bits((value as f64).to_bits()))
}

fn text(key: &str) -> ScriptKey {
    ScriptKey::Text(key.to_string())
}

#[test]
fn document_becomes_table() {
    let table = table_from_json("{\"a\": 1, \"b\": [true, \"x\"]}").unwrap();
    assert_eq!(
        table,
        ScriptValue::Table(vec![
            (text("a"), number(1)),
            (
                text("b"),
                ScriptValue::Table(vec![
                    (ScriptKey::Index(1), ScriptValue::Boolean(true)),
                    (ScriptKey::Index(2), ScriptValue::String("x".to_string())),
                ])
            ),
        ])
    );
}

#[test]
fn every_json_kind_is_mapped() {
    let long = "a string that is longer than thirty bytes, to be sure";
    let source = format!(
        "{{\"n\": null, \"s\": \"{}\", \"f\": false, \"i\": -12, \"o\": {{}}, \"l\": []}}",
        long
    );
    let table = table_from_json(&source).unwrap();
    assert_eq!(
        table,
        ScriptValue::Table(vec![
            (text("n"), ScriptValue::Nil),
            (text("s"), ScriptValue::String(long.to_string())),
            (text("f"), ScriptValue::Boolean(false)),
            (text("i"), number(-12)),
            (text("o"), ScriptValue::Table(vec![])),
            (text("l"), ScriptValue::Table(vec![])),
        ])
    );
}

#[test]
fn fraction_of_a_number_is_discarded() {
    let table = table_from_json("[3.9, -3.9, 0.5, 1e3, 12345.678e-2, 0]").unwrap();
    assert_eq!(
        table,
        ScriptValue::Table(vec![
            (ScriptKey::Index(1), number(3)),
            (ScriptKey::Index(2), number(-3)),
            (ScriptKey::Index(3), number(0)),
            (ScriptKey::Index(4), number(1000)),
            (ScriptKey::Index(5), number(123)),
            (ScriptKey::Index(6), number(0)),
        ])
    );
}

#[test]
fn large_whole_numbers_are_rounded_to_the_nearest_number() {
    let table = table_from_json("[9007199254740993, 9223372036854775807]").unwrap();
    assert_eq!(
        table,
        ScriptValue::Table(vec![
            (ScriptKey::Index(1), number(9007199254740993)),
            (ScriptKey::Index(2), number(i64::MAX)),
        ])
    );
}

#[test]
fn malformed_text_is_refused() {
    assert_eq!(table_from_json("{\"a\": "), Err(JsonFailure::Malformed));
    assert_eq!(table_from_json(""), Err(JsonFailure::Malformed));
    assert_eq!(table_from_json("{a: 1}"), Err(JsonFailure::Malformed));
}

#[test]
fn root_must_be_object_or_array() {
    assert_eq!(table_from_json("1"), Err(JsonFailure::RootNotTable));
    assert_eq!(table_from_json("\"text\""), Err(JsonFailure::RootNotTable));
    assert_eq!(table_from_json("null"), Err(JsonFailure::RootNotTable));
    assert_eq!(table_from_json("true"), Err(JsonFailure::RootNotTable));
    assert_eq!(table_from_document(&JsonNode::Boolean(true)), Err(JsonFailure::RootNotTable));
    assert_eq!(table_from_document(&JsonNode::Array(vec![])), Ok(ScriptValue::Table(vec![])));
}

#[test]
fn node_conversion_on_plain_values() {
    let one = JsonNumber { positive: true, mantissa: 1, exponent: 0 };
    let node = JsonNode::Object(vec![
        ("a".to_string(), JsonNode::Number(one)),
        (
            "b".to_string(),
            JsonNode::Array(vec![JsonNode::Boolean(true), JsonNode::String("x".to_string())]),
        ),
        ("c".to_string(), JsonNode::Null),
    ]);
    assert_eq!(
        script_from_json(&node),
        ScriptValue::Table(vec![
            (text("a"), number(1)),
            (
                text("b"),
                ScriptValue::Table(vec![
                    (ScriptKey::Index(1), ScriptValue::Boolean(true)),
                    (ScriptKey::Index(2), ScriptValue::String("x".to_string())),
                ])
            ),
            (text("c"), ScriptValue::Nil),
        ])
    );
}

#[test]
fn whole_part_of_numbers() {
    assert_eq!(whole_part_of(&JsonNumber { positive: true, mantissa: 42, exponent: 0 }), 42);
    assert_eq!(whole_part_of(&JsonNumber { positive: false, mantissa: 42, exponent: 0 }), -42);
    assert_eq!(whole_part_of(&JsonNumber { positive: true, mantissa: 39, exponent: -1 }), 3);
    assert_eq!(whole_part_of(&JsonNumber { positive: false, mantissa: 39, exponent: -1 }), -3);
    assert_eq!(whole_part_of(&JsonNumber { positive: true, mantissa: 5, exponent: 2 }), 500);
    assert_eq!(
        whole_part_of(&JsonNumber { positive: false, mantissa: 1 << 63, exponent: 0 }),
        i64::MIN
    );
    assert_eq!(
        whole_part_of(&JsonNumber { positive: false, mantissa: 1 << 63, exponent: -1 }),
        -922337203685477580
    );
    assert_eq!(
        whole_part_of(&JsonNumber { positive: false, mantissa: u64::MAX, exponent: -1 }),
        -1844674407370955161
    );
    assert_eq!(
        whole_part_of(&JsonNumber { positive: false, mantissa: u64::MAX, exponent: 0 }),
        0
    );
    assert_eq!(
        whole_part_of(&JsonNumber { positive: false, mantissa: 1 << 63, exponent: 3 }),
        0
    );
    assert_eq!(
        whole_part_of(&JsonNumber { positive: true, mantissa: 123456789, exponent: -18 }),
        0
    );
    assert_eq!(
        whole_part_of(&JsonNumber {
            positive: false,
            mantissa: 9_000_000_000_000_000_000,
            exponent: -18
        }),
        -9
    );
    assert_eq!(
        whole_part_of(&JsonNumber { positive: true, mantissa: 1, exponent: i16::MIN }),
        0
    );
}

#[test]
fn smallest_integer_is_read() {
    assert_eq!(
        table_from_json("[-9223372036854775808]"),
        Ok(ScriptValue::Table(vec![(ScriptKey::Index(1), number(i64::MIN))]))
    );
}

#[test]
fn long_runs_of_digits_are_refused() {
    let zeros = "0".repeat(32769);
    let text = format!("[0.{}]", zeros);
    assert!(long_digit_run(&text));
    assert_eq!(table_from_json(&text), Err(JsonFailure::TooManyDigits));
    let text = format!("{{\"a\": \"{}\"}}", "7".repeat(32768));
    assert!(long_digit_run(&text));
    assert_eq!(table_from_json(&text), Err(JsonFailure::TooManyDigits));
}

#[test]
fn runs_of_digits_up_to_the_limit_are_parsed() {
    let text = format!("[0.{}]", "0".repeat(32767));
    assert!(!long_digit_run(&text));
    assert_eq!(
        table_from_json(&text),
        Ok(ScriptValue::Table(vec![(ScriptKey::Index(1), number(0))]))
    );
    let text = format!("[0.{}, 1{}]", "0".repeat(32767), "0".repeat(300));
    assert!(!long_digit_run(&text));
    assert!(table_from_json(&text).is_ok());
    assert!(!long_digit_run(""));
    assert!(!long_digit_run("no digits at all"));
}

#[test]
fn fetched_text_gives_table_or_message() {
    assert_eq!(
        fetched_table(Ok("{\"a\": 1}".to_string())),
        Ok(ScriptValue::Table(vec![(text("a"), number(1))]))
    );
    assert_eq!(
        fetched_table(Err("down".to_string())),
        Err("Failed to fetch data: down".to_string())
    );
    assert_eq!(
        fetched_table(Ok("not json".to_string())),
        Err("Failed to convert JSON to Lua table".to_string())
    );
    assert_eq!(
        fetched_table(Ok("17".to_string())),
        Err("Root element is not a table".to_string())
    );
    assert_eq!(
        fetched_table(Ok(format!("[0.{}]", "0".repeat(40000)))),
        Err("A number has too many digits".to_string())
    );
}
