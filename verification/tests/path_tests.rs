use lua_config::path::{lookup, split_path};
use lua_config::{Double, LuaConfig, LuaType};

fn sample() -> Vec<(String, LuaType)> {
    vec![
        ("name".to_string(), LuaType::String("demo".to_string())),
        (
            "server".to_string(),
            LuaType::Table(vec![
                ("port".to_string(), LuaType::Integer(8080)),
                (
                    "tls".to_string(),
                    LuaType::Table(vec![("enabled".to_string(), LuaType::Boolean(true))]),
                ),
                ("".to_string(), LuaType::Integer(0)),
            ]),
        ),
        ("ratio".to_string(), LuaType::Number(Double::from_bits(2.75f64.to_bits()))),
    ]
}

#[test]
fn path_is_split_at_slashes() {
    assert_eq!(split_path("a"), vec!["a".to_string()]);
    assert_eq!(split_path("a/b/c"), vec!["a".to_string(), "b".to_string(), "c".to_string()]);
    assert_eq!(split_path(""), vec!["".to_string()]);
    assert_eq!(split_path("a/"), vec!["a".to_string(), "".to_string()]);
    assert_eq!(split_path("/a"), vec!["".to_string(), "a".to_string()]);
    assert_eq!(split_path("a//b"), vec!["a".to_string(), "".to_string(), "b".to_string()]);
    assert_eq!(split_path("é/ü"), vec!["é".to_string(), "ü".to_string()]);
    let expected: Vec<String> = "x/yy//zzz/".split('/').map(|s| s.to_string()).collect();
    assert_eq!(split_path("x/yy//zzz/"), expected);
}

#[test]
fn path_leads_to_the_value_under_its_last_key() {
    let data = sample();
    assert_eq!(lookup(&data, "name"), Some(&LuaType::String("demo".to_string())));
    assert_eq!(lookup(&data, "server/port"), Some(&LuaType::Integer(8080)));
    assert_eq!(lookup(&data, "server/tls/enabled"), Some(&LuaType::Boolean(true)));
    assert_eq!(lookup(&data, "server/"), Some(&LuaType::Integer(0)));
    assert!(matches!(lookup(&data, "server"), Some(LuaType::Table(_))));
}

#[test]
fn path_that_leads_nowhere_gives_nothing() {
    let data = sample();
    assert_eq!(lookup(&data, "missing"), None);
    assert_eq!(lookup(&data, "server/missing"), None);
    assert_eq!(lookup(&data, "name/inner"), None);
    assert_eq!(lookup(&data, "server/port/deeper"), None);
    assert_eq!(lookup(&data, ""), None);
    assert_eq!(lookup(&data, "/name"), None);
}

// A path that can be walked to its end gives the value found there: a
// query answers with nothing only on a miss or a mismatch of kinds.
#[test]
fn get_returns_the_resolved_value() {
    let mut config = LuaConfig::from_string(String::new());
    config.data = sample();
    assert_eq!(config.get::<String>("name"), Some("demo".to_string()));
    assert_eq!(config.get::<i64>("server/port"), Some(8080));
    assert_eq!(config.get::<i32>("server/port"), Some(8080));
    assert_eq!(config.get::<bool>("server/tls/enabled"), Some(true));
    assert_eq!(config.get::<i32>("ratio"), Some(2));
    assert_eq!(config.get::<Double>("ratio").map(|n| f64::from_bits(n.bits)), Some(2.75));
    assert_eq!(config.get_lua_type("server/port"), Some(&LuaType::Integer(8080)));
    assert_eq!(config.values().len(), 3);
}

#[test]
fn get_gives_nothing_on_a_miss_or_a_mismatch() {
    let mut config = LuaConfig::from_string(String::new());
    config.data = sample();
    assert_eq!(config.get::<i64>("name"), None);
    assert_eq!(config.get::<bool>("server/port"), None);
    assert_eq!(config.get::<String>("server"), None);
    assert_eq!(config.get::<i64>("nothing/here"), None);
    assert_eq!(config.get_lua_type("nothing"), None);
    assert_eq!(
        config.get::<Vec<(String, LuaType)>>("server/tls"),
        Some(vec![("enabled".to_string(), LuaType::Boolean(true))])
    );
}
