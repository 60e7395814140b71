use match_kit::classify::wildcard_count;
use match_kit::re::{create_regex, wildcard_to_regex};
use match_kit::value::{compare_encoded_value, encode_value, get_string_value, js_typeof};
use match_kit::{any, none, not, regex, some, Condition, JsType, PatternError, Value};

fn num(x: f64) -> Value {
    Value::Number(x.to_string())
}

fn st(s: &str) -> Value {
    Value::Str(s.to_string())
}

#[test]
fn test_some_none() {
    assert_eq!(some(), "__SOME__");
    assert_eq!(none(), "__NONE__");
}

#[test]
fn test_any_not() {
    let vals = vec![num(1.0), st("a")];
    let any_pattern = any(&vals).unwrap();
    assert!(any_pattern.starts_with("any::"));
    assert_eq!(any_pattern, "any::number\u{1f}1|string\u{1f}a");
    let not_pattern = not(&vals).unwrap();
    assert!(not_pattern.starts_with("not::"));
    assert_eq!(not_pattern, "not::number\u{1f}1|string\u{1f}a");
}

#[test]
fn any_of_null_undefined_and_bool() {
    let vals = vec![Value::Null, Value::Undefined, Value::Boolean(true)];
    assert_eq!(any(&vals).unwrap(), "any::null\u{1f}|undefined\u{1f}|boolean\u{1f}true");
}

#[test]
fn set_patterns_refuse_empty_and_objects() {
    assert_eq!(any(&vec![]), Err(PatternError::EmptyArgument));
    assert_eq!(not(&vec![]), Err(PatternError::EmptyArgument));
    assert_eq!(any(&vec![st("a"), Value::Other]), Err(PatternError::UnsupportedType));
    assert_eq!(not(&vec![Value::Other]), Err(PatternError::UnsupportedType));
}

#[test]
fn test_regex() {
    assert_eq!(regex("abc", None).unwrap(), "regex::abc::");
    assert_eq!(regex("abc", Some("i".to_string())).unwrap(), "regex::abc::i");
}

#[test]
fn regex_round_trips_to_its_key() {
    assert_eq!(regex("^foo.*", None).unwrap(), "regex::^foo.*::");
    assert_eq!(regex("a+b", Some("ms".to_string())).unwrap(), "regex::a+b::ms");
}

#[test]
fn regex_refuses_bad_flags_and_patterns() {
    assert_eq!(regex("abc", Some("x".to_string())), Err(PatternError::InvalidRegex));
    assert_eq!(regex("abc", Some("ig".to_string())), Err(PatternError::InvalidRegex));
    assert_eq!(regex("foo(", None), Err(PatternError::InvalidRegex));
    assert_eq!(regex("[a-", Some("i".to_string())), Err(PatternError::InvalidRegex));
}

#[test]
fn when_keys() {
    assert_eq!(match_kit::keys::when(&Condition::Literal(true)).unwrap(), "when::true");
    assert_eq!(match_kit::keys::when(&Condition::Literal(false)).unwrap(), "when::false");
    assert_eq!(match_kit::keys::when(&Condition::Predicate(0)).unwrap(), "when::0");
    assert_eq!(match_kit::keys::when(&Condition::Predicate(1234567890)).unwrap(), "when::1234567890");
    assert_eq!(match_kit::keys::when(&Condition::Predicate(u64::MAX)).unwrap(), "when::18446744073709551615");
    assert_eq!(match_kit::keys::when(&Condition::Other), Err(PatternError::InvalidArgument));
}

#[test]
fn text_forms() {
    assert_eq!(get_string_value(&Value::Null), "null");
    assert_eq!(get_string_value(&Value::Undefined), "undefined");
    assert_eq!(get_string_value(&st("x")), "x");
    assert_eq!(get_string_value(&num(2.5)), "2.5");
    assert_eq!(get_string_value(&num(1.0)), "1");
    assert_eq!(get_string_value(&Value::Boolean(false)), "false");
    assert_eq!(get_string_value(&Value::Other), "unknown");
}

#[test]
fn kinds_of_values() {
    assert_eq!(js_typeof(&st("x")), JsType::String);
    assert_eq!(js_typeof(&num(3.0)), JsType::Number);
    assert_eq!(js_typeof(&Value::Boolean(true)), JsType::Boolean);
    assert_eq!(js_typeof(&Value::Null), JsType::Null);
    assert_eq!(js_typeof(&Value::Undefined), JsType::Undefined);
    assert_eq!(js_typeof(&Value::Other), JsType::Unknown);
}

#[test]
fn tokens_compare_by_kind_and_content() {
    let one = encode_value(&num(1.0)).unwrap();
    assert!(compare_encoded_value(&one, &num(1.0), true));
    assert!(!compare_encoded_value(&one, &st("1"), true));
    assert!(!compare_encoded_value(&one, &num(2.0), true));
    let zero = encode_value(&num(0.0)).unwrap();
    assert!(compare_encoded_value(&zero, &num(-0.0), true));
    let nan = encode_value(&num(f64::NAN)).unwrap();
    assert!(!compare_encoded_value(&nan, &num(f64::NAN), true));
    let foo = encode_value(&st("FOO")).unwrap();
    assert!(!compare_encoded_value(&foo, &st("foo"), true));
    assert!(compare_encoded_value(&foo, &st("foo"), false));
    let t = encode_value(&Value::Boolean(true)).unwrap();
    assert!(compare_encoded_value(&t, &Value::Boolean(true), true));
    assert!(!compare_encoded_value(&t, &Value::Boolean(false), true));
    let n = encode_value(&Value::Null).unwrap();
    assert!(compare_encoded_value(&n, &Value::Null, true));
    assert!(!compare_encoded_value(&n, &Value::Undefined, true));
    assert!(!compare_encoded_value("no separator", &st("no separator"), true));
    assert_eq!(encode_value(&Value::Other), None);
}

#[test]
fn glob_translation() {
    assert_eq!(wildcard_to_regex("a.b*?", true), "^a\\.b.*.$");
    assert_eq!(wildcard_to_regex("(x)|[y]", false), "(?i)^\\(x\\)\\|\\[y\\]$");
    assert_eq!(wildcard_count("a*b?c*"), 3);
    assert_eq!(wildcard_count("abc"), 0);
}

#[test]
fn regex_sources() {
    assert_eq!(create_regex("abc", "im"), "(?im)abc");
    assert_eq!(create_regex("abc", "xq"), "abc");
    assert_eq!(create_regex("abc", ""), "abc");
}
