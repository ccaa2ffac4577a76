use lua_config::interpreter::{
    declare_lua_functions, deliver, fetch_data, get_hashmap_by_function, send,
};
use lua_config::script::{
    key_copy, plain_copy, plain_of, string_copy, Plain, ScriptKey, ScriptValue,
};
use lua_config::{ConfigError, Double};

fn no_network(_url: String) -> Result<String, String> {
    Err("no network".to_string())
}

fn read_back(lua: &rlua::Lua, expression: &str) -> Vec<(String, ScriptValue)> {
    let source = format!("function Seen() return {} end", expression);
    let mut entries = get_hashmap_by_function(lua, &source, "Seen", &no_network).unwrap();
    entries.sort_by(|a, b| a.0.cmp(&b.0));
    entries
}

fn text(key: &str) -> ScriptKey {
    ScriptKey::Text(key.to_string())
}

#[test]
fn every_kind_is_copied_out_of_the_interpreter() {
    let lua = rlua::Lua::new();
    let entries = read_back(
        &lua,
        "{ n = 7, f = 2.5, s = 'text', b = true, raw = '\\255', fn = print, t = { 'x' } }",
    );
    assert_eq!(
        entries,
        vec![
            ("b".to_string(), ScriptValue::Boolean(true)),
            ("f".to_string(), ScriptValue::Number(Double::from_bits(2.5f64.to_bits()))),
            ("fn".to_string(), ScriptValue::Other),
            ("n".to_string(), ScriptValue::Integer(7)),
            ("raw".to_string(), ScriptValue::Binary),
            ("s".to_string(), ScriptValue::String("text".to_string())),
            (
                "t".to_string(),
                ScriptValue::Table(vec![(text("1"), ScriptValue::String("x".to_string()))])
            ),
        ]
    );
}

#[test]
fn a_table_inside_itself_is_marked() {
    let lua = rlua::Lua::new();
    lua.load("loop = {}; loop.me = loop").exec().unwrap();
    let entries = read_back(&lua, "{ top = loop }");
    assert_eq!(
        entries,
        vec![(
            "top".to_string(),
            ScriptValue::Table(vec![(text("me"), ScriptValue::Cycle)])
        )]
    );
}

#[test]
fn a_nested_key_without_text_is_marked() {
    let lua = rlua::Lua::new();
    let entries = read_back(&lua, "{ inner = { [true] = 1 } }");
    assert_eq!(
        entries,
        vec![(
            "inner".to_string(),
            ScriptValue::Table(vec![(ScriptKey::Other, ScriptValue::Integer(1))])
        )]
    );
}

#[test]
fn sent_value_is_seen_by_the_script() {
    let lua = rlua::Lua::new();
    let table = ScriptValue::Table(vec![
        (text("a"), ScriptValue::Integer(1)),
        (
            text("b"),
            ScriptValue::Table(vec![
                (ScriptKey::Index(1), ScriptValue::Boolean(true)),
                (ScriptKey::Index(2), ScriptValue::String("x".to_string())),
                (ScriptKey::Index(3), ScriptValue::Nil),
            ]),
        ),
    ]);
    let value = send(&lua, &table).unwrap();
    lua.globals().set("given", value).unwrap();
    let seen: bool = lua
        .load("return given.a == 1 and given.b[1] == true and given.b[2] == 'x' and #given.b == 2")
        .eval()
        .unwrap();
    assert!(seen);
    assert_eq!(
        read_back(&lua, "given"),
        vec![
            ("a".to_string(), ScriptValue::Integer(1)),
            (
                "b".to_string(),
                ScriptValue::Table(vec![
                    (text("1"), ScriptValue::Boolean(true)),
                    (text("2"), ScriptValue::String("x".to_string())),
                ])
            ),
        ]
    );
}

#[test]
fn send_refuses_what_a_document_cannot_give() {
    let lua = rlua::Lua::new();
    assert!(send(&lua, &ScriptValue::Other).is_err());
    assert!(send(&lua, &ScriptValue::Cycle).is_err());
    assert!(send(&lua, &ScriptValue::Binary).is_err());
    let table = ScriptValue::Table(vec![(ScriptKey::Other, ScriptValue::Nil)]);
    assert!(send(&lua, &table).is_err());
    assert!(send(&lua, &ScriptValue::Nil).is_ok());
}

#[test]
fn fetch_data_builds_the_table_of_the_document() {
    let lua = rlua::Lua::new();
    let fetch = |url: String| -> Result<String, String> { Ok(format!("{{\"url\": \"{}\"}}", url)) };
    let value = fetch_data(&lua, &fetch, "http://x/y".to_string()).unwrap();
    lua.globals().set("fetched", value).unwrap();
    assert_eq!(
        read_back(&lua, "fetched"),
        vec![("url".to_string(), ScriptValue::String("http://x/y".to_string()))]
    );
    assert!(fetch_data(&lua, &no_network, "http://x/y".to_string()).is_err());
}

#[test]
fn declared_function_is_a_global() {
    let lua = rlua::Lua::new();
    declare_lua_functions(&lua, &no_network).unwrap();
    let kind: String = lua.load("return type(fetch_data)").eval().unwrap();
    assert_eq!(kind, "function");
}

#[test]
fn entry_point_table_is_keyed_by_text() {
    let lua = rlua::Lua::new();
    let entries =
        get_hashmap_by_function(&lua, "function Config() return { 'a', x = 2 } end", "Config", &no_network)
            .unwrap();
    let mut entries = entries;
    entries.sort_by(|a, b| a.0.cmp(&b.0));
    assert_eq!(
        entries,
        vec![
            ("1".to_string(), ScriptValue::String("a".to_string())),
            ("x".to_string(), ScriptValue::Integer(2)),
        ]
    );
    let error =
        get_hashmap_by_function(&lua, "function Other() return {} end", "Other", &no_network)
            .unwrap_err();
    assert_eq!(error, ConfigError::EmptyConfiguration("Other".to_string()));
}

#[test]
fn plain_values_are_always_built() {
    let lua = rlua::Lua::new();
    assert!(matches!(send(&lua, &ScriptValue::Nil), Ok(rlua::Value::Nil)));
    assert!(matches!(send(&lua, &ScriptValue::Boolean(true)), Ok(rlua::Value::Boolean(true))));
    assert!(matches!(send(&lua, &ScriptValue::Integer(-5)), Ok(rlua::Value::Integer(-5))));
    let number = ScriptValue::Number(Double::from_bits(2.5f64.to_bits()));
    assert!(matches!(send(&lua, &number), Ok(rlua::Value::Number(n)) if n == 2.5));
    assert!(matches!(send(&lua, &ScriptValue::Boolean(false)), Ok(rlua::Value::Boolean(false))));
}

#[test]
fn plain_values_are_copied_as_they_are() {
    let number = Double::from_bits(2.5f64.to_bits());
    assert_eq!(plain_copy(Plain::Nil), ScriptValue::Nil);
    assert_eq!(plain_copy(Plain::Boolean(true)), ScriptValue::Boolean(true));
    assert_eq!(plain_copy(Plain::Boolean(false)), ScriptValue::Boolean(false));
    assert_eq!(plain_copy(Plain::Integer(7)), ScriptValue::Integer(7));
    assert_eq!(plain_copy(Plain::Number(number)), ScriptValue::Number(number));
    assert_eq!(plain_of(&ScriptValue::Nil), Some(Plain::Nil));
    assert_eq!(plain_of(&ScriptValue::Boolean(true)), Some(Plain::Boolean(true)));
    assert_eq!(plain_of(&ScriptValue::Integer(-3)), Some(Plain::Integer(-3)));
    assert_eq!(plain_of(&ScriptValue::Number(number)), Some(Plain::Number(number)));
    assert_eq!(plain_of(&ScriptValue::String("s".to_string())), None);
    assert_eq!(plain_of(&ScriptValue::Table(vec![])), None);
    assert_eq!(plain_of(&ScriptValue::Binary), None);
    assert_eq!(plain_of(&ScriptValue::Cycle), None);
    assert_eq!(plain_of(&ScriptValue::Other), None);
}

#[test]
fn a_table_with_an_unsendable_value_inside_is_refused() {
    let lua = rlua::Lua::new();
    let table = ScriptValue::Table(vec![
        (text("fine"), ScriptValue::Integer(1)),
        (
            text("inner"),
            ScriptValue::Table(vec![(ScriptKey::Index(1), ScriptValue::Cycle)]),
        ),
    ]);
    assert!(send(&lua, &table).is_err());
}

#[test]
fn delivery_needs_a_fetched_document_with_a_table() {
    let lua = rlua::Lua::new();
    assert!(deliver(&lua, Err("down".to_string())).is_err());
    assert!(deliver(&lua, Ok("not json".to_string())).is_err());
    assert!(deliver(&lua, Ok("17".to_string())).is_err());
    let value = deliver(&lua, Ok("[10, 20]".to_string())).unwrap();
    lua.globals().set("delivered", value).unwrap();
    assert_eq!(
        read_back(&lua, "delivered"),
        vec![
            ("1".to_string(), ScriptValue::Number(Double::from_bits(10.0f64.to_bits()))),
            ("2".to_string(), ScriptValue::Number(Double::from_bits(20.0f64.to_bits()))),
        ]
    );
}

#[test]
fn copies_of_strings_and_keys() {
    assert_eq!(string_copy(Some("s".to_string())), ScriptValue::String("s".to_string()));
    assert_eq!(string_copy(None), ScriptValue::Binary);
    assert_eq!(key_copy(Some("k".to_string())), ScriptKey::Text("k".to_string()));
    assert_eq!(key_copy(None), ScriptKey::Other);
}
