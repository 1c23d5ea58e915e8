use zmqtt2prom::text::{concat3, join_key, starts_with, str_equals};

#[test]
fn string_comparisons() {
    assert!(str_equals("abc", "abc"));
    assert!(!str_equals("abc", "abd"));
    assert!(!str_equals("abc", "ab"));
    assert!(str_equals("", ""));
    assert!(starts_with("zigbee2mqtt/x", "zigbee2mqtt/"));
    assert!(starts_with("abc", ""));
    assert!(!starts_with("ab", "abc"));
    assert!(!starts_with("xbc", "abc"));
}

#[test]
fn joined_keys() {
    assert_eq!(join_key("", "temperature"), "temperature");
    assert_eq!(join_key("color", "x"), "color_x");
    assert_eq!(join_key("color_xy", ""), "color_xy_");
    assert_eq!(concat3("a", "", "c"), "ac");
}
