use lua_config::table::{find, put};
use lua_config::text::decimal_text;

#[test]
fn find_gives_first_position() {
    let entries = vec![("a".to_string(), 1), ("b".to_string(), 2), ("a".to_string(), 3)];
    assert_eq!(find(&entries, &"a".to_string()), Some(0));
    assert_eq!(find(&entries, &"b".to_string()), Some(1));
    assert_eq!(find(&entries, &"c".to_string()), None);
}

#[test]
fn put_replaces_in_place_or_appends() {
    let mut entries = vec![("a".to_string(), 1), ("b".to_string(), 2)];
    put(&mut entries, "a".to_string(), 10);
    assert_eq!(entries, vec![("a".to_string(), 10), ("b".to_string(), 2)]);
    put(&mut entries, "c".to_string(), 3);
    assert_eq!(
        entries,
        vec![("a".to_string(), 10), ("b".to_string(), 2), ("c".to_string(), 3)]
    );
}

#[test]
fn decimal_text_of_integers() {
    assert_eq!(decimal_text(0), "0");
    assert_eq!(decimal_text(7), "7");
    assert_eq!(decimal_text(42), "42");
    assert_eq!(decimal_text(-1), "-1");
    assert_eq!(decimal_text(1005), "1005");
    assert_eq!(decimal_text(i64::MAX), "9223372036854775807");
    assert_eq!(decimal_text(i64::MIN), "-9223372036854775808");
}
