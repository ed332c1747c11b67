use http_parser::query_string::{get_key_value_from_pair, get_next_pair, QueryString, Value};

#[test]
fn get_next_pair_test() {
    let test_str = "a=1&b=2&c&d=&e===&d=7&d=abc";

    let (mut word, mut remaining) = get_next_pair(test_str).unwrap();
    assert_eq!(word, "a=1");
    assert_eq!(remaining, "b=2&c&d=&e===&d=7&d=abc");

    (word, remaining) = get_next_pair(remaining).unwrap();
    assert_eq!(word, "b=2");
    assert_eq!(remaining, "c&d=&e===&d=7&d=abc");

    (word, remaining) = get_next_pair(remaining).unwrap();
    assert_eq!(word, "c");
    assert_eq!(remaining, "d=&e===&d=7&d=abc");

    (word, remaining) = get_next_pair(remaining).unwrap();
    assert_eq!(word, "d=");
    assert_eq!(remaining, "e===&d=7&d=abc");

    (word, remaining) = get_next_pair(remaining).unwrap();
    assert_eq!(word, "e===");
    assert_eq!(remaining, "d=7&d=abc");

    (word, remaining) = get_next_pair(remaining).unwrap();
    assert_eq!(word, "d=7");
    assert_eq!(remaining, "d=abc");

    (word, remaining) = get_next_pair(remaining).unwrap();
    assert_eq!(word, "d=abc");
    assert_eq!(remaining, "");

    assert_eq!(get_next_pair(remaining), None);
}

#[test]
fn get_key_value_from_pair_test() {
    let test_str = vec!["a=1", "b=2", "c", "d=", "e===", "d=7", "d=abc"];

    let (mut key, mut val) = get_key_value_from_pair(test_str[0]).unwrap();
    assert_eq!(key, "a");
    assert_eq!(val, "1");

    (key, val) = get_key_value_from_pair(test_str[1]).unwrap();
    assert_eq!(key, "b");
    assert_eq!(val, "2");

    (key, val) = get_key_value_from_pair(test_str[2]).unwrap();
    assert_eq!(key, "c");
    assert_eq!(val, "");

    (key, val) = get_key_value_from_pair(test_str[3]).unwrap();
    assert_eq!(key, "d");
    assert_eq!(val, "");

    (key, val) = get_key_value_from_pair(test_str[4]).unwrap();
    assert_eq!(key, "e");
    assert_eq!(val, "==");

    (key, val) = get_key_value_from_pair(test_str[5]).unwrap();
    assert_eq!(key, "d");
    assert_eq!(val, "7");

    (key, val) = get_key_value_from_pair(test_str[6]).unwrap();
    assert_eq!(key, "d");
    assert_eq!(val, "abc");

    assert_eq!(get_next_pair(""), None);
}

#[test]
fn get_qs() {
    let s = "a=1&b=2&c&d=&e===&d=7&d=abc";

    let qs = QueryString::from(s);

    assert_eq!(*qs.get("a").unwrap(), Value::Single("1".to_string()));
    assert_eq!(*qs.get("b").unwrap(), Value::Single("2".to_string()));
    assert_eq!(*qs.get("c").unwrap(), Value::Single("".to_string()));
    assert_eq!(
        *qs.get("d").unwrap(),
        Value::Multiple(vec!["".to_string(), "7".to_string(), "abc".to_string()])
    );
    assert_eq!(*qs.get("e").unwrap(), Value::Single("==".to_string()));
}

#[test]
fn missing_key_is_absent() {
    let qs = QueryString::from("a=1&b=2");
    assert_eq!(qs.get("c"), None);
    assert_eq!(qs.get(""), None);
    assert_eq!(qs.get("a=1"), None);
}

#[test]
fn empty_query_string_is_empty_mapping() {
    let qs = QueryString::from("");
    assert_eq!(qs.get(""), None);
    assert_eq!(qs.get("a"), None);
}

#[test]
fn empty_segments_are_skipped() {
    let qs = QueryString::from("&&a=1&&&b=2&");
    assert_eq!(*qs.get("a").unwrap(), Value::Single("1".to_string()));
    assert_eq!(*qs.get("b").unwrap(), Value::Single("2".to_string()));
    assert_eq!(qs.get(""), None);
}

#[test]
fn key_order_independence_for_lookup() {
    let qs1 = QueryString::from("a=1&d=2&d=3");
    let qs2 = QueryString::from("d=2&a=1&d=3");
    let qs3 = QueryString::from("d=2&d=3&x=9");
    let expected = Value::Multiple(vec!["2".to_string(), "3".to_string()]);
    assert_eq!(*qs1.get("d").unwrap(), expected);
    assert_eq!(*qs2.get("d").unwrap(), expected);
    assert_eq!(*qs3.get("d").unwrap(), expected);
}

#[test]
fn reparse_query_string_is_equal() {
    let s = "a=1&b=2&c&d=&e===&d=7&d=abc";
    let qs1 = QueryString::from(s);
    let qs2 = QueryString::from(s);
    assert_eq!(qs1, qs2);
}

#[test]
fn repeated_key_keeps_encounter_order() {
    let qs = QueryString::from("k=x&other=1&k=y&k=z");
    assert_eq!(
        *qs.get("k").unwrap(),
        Value::Multiple(vec!["x".to_string(), "y".to_string(), "z".to_string()])
    );
    assert_eq!(*qs.get("other").unwrap(), Value::Single("1".to_string()));
}
