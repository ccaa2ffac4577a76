use lua_config::merge::{merge, reconcile, validate};
use lua_config::ConfigError;

fn table(entries: &[(&str, i64)]) -> Vec<(String, i64)> {
    entries.iter().map(|(k, v)| (k.to_string(), *v)).collect()
}

#[test]
fn declared_keys_give_the_keys_of_the_defaults() {
    let config = table(&[("port", 8080)]);
    let default = table(&[("host", 1), ("port", 80), ("depth", 3)]);
    let merged = reconcile(config, default).unwrap();
    let keys: Vec<&str> = merged.iter().map(|(k, _)| k.as_str()).collect();
    assert_eq!(keys, vec!["host", "port", "depth"]);
}

#[test]
fn configuration_value_overrides_default() {
    let config = table(&[("port", 8080), ("host", 7)]);
    let default = table(&[("host", 1), ("port", 80)]);
    let merged = reconcile(config, default).unwrap();
    assert_eq!(merged, table(&[("host", 7), ("port", 8080)]));
}

#[test]
fn default_fills_in_missing_key() {
    let config = table(&[("port", 8080)]);
    let default = table(&[("host", 1), ("port", 80)]);
    let merged = reconcile(config, default).unwrap();
    assert_eq!(merged, table(&[("host", 1), ("port", 8080)]));
}

#[test]
fn undeclared_key_is_rejected_by_name() {
    let config = table(&[("port", 8080), ("colour", 2), ("shape", 3)]);
    let default = table(&[("host", 1), ("port", 80)]);
    let error = reconcile(config, default).unwrap_err();
    assert_eq!(error, ConfigError::UnknownConfigKey("colour".to_string()));
    assert_eq!(error.message(), "Config value \"colour\" is not in the default values");
}

#[test]
fn validate_finds_first_undeclared_key() {
    let config = table(&[("a", 1), ("b", 2), ("c", 3)]);
    let default = table(&[("a", 0), ("c", 0)]);
    assert_eq!(validate(&config, &default), Some(1));
    let default = table(&[("a", 0), ("b", 0), ("c", 0)]);
    assert_eq!(validate(&config, &default), None);
}

#[test]
fn empty_configuration_takes_every_default() {
    let merged = reconcile(table(&[]), table(&[("a", 1), ("b", 2)])).unwrap();
    assert_eq!(merged, table(&[("a", 1), ("b", 2)]));
}

#[test]
fn without_defaults_the_configuration_is_the_result() {
    let config = table(&[("anything", 1), ("goes", 2)]);
    let merged = merge(config, None).unwrap();
    assert_eq!(merged, table(&[("anything", 1), ("goes", 2)]));
}

#[test]
fn merge_with_defaults_reconciles() {
    let merged = merge(table(&[("b", 20)]), Some(table(&[("a", 1), ("b", 2)]))).unwrap();
    assert_eq!(merged, table(&[("a", 1), ("b", 20)]));
    let error = merge(table(&[("z", 0)]), Some(table(&[("a", 1)]))).unwrap_err();
    assert_eq!(error, ConfigError::UnknownConfigKey("z".to_string()));
}
