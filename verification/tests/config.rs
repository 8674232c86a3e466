use subforge_core::config::{
    check_enum_value, integer_json, json_equal, unsupported_type_error, validate_boolean_value,
    validate_integer_value, validate_string_value,
};
use subforge_core::error::CoreError;
use subforge_core::json::{JsonNumber, JsonValue};

fn s(text: &str) -> JsonValue {
    JsonValue::String(text.to_string())
}

fn message(result: Result<JsonValue, CoreError>) -> String {
    match result {
        Err(CoreError::ConfigInvalid(m)) => m,
        other => panic!("unexpected {other:?}"),
    }
}

#[test]
fn strings_are_checked_by_length_and_pattern() {
    assert_eq!(validate_string_value("url", &s("https://e.com"), Some(1), Some(100), Some("^https://")).unwrap(), s("https://e.com"));
    assert_eq!(validate_string_value("name", &s("日本"), Some(2), Some(2), None).unwrap(), s("日本"));
    assert_eq!(message(validate_string_value("name", &s("a"), Some(2), None, None)), "字段 name 长度不能小于 2");
    assert_eq!(message(validate_string_value("name", &s("abcd"), None, Some(3), None)), "字段 name 长度不能大于 3");
    assert_eq!(message(validate_string_value("url", &s("ftp://x"), None, None, Some("^https://"))), "字段 url 不匹配 pattern 约束");
    assert!(message(validate_string_value("url", &s("x"), None, None, Some("(unclosed"))).starts_with("字段 url 的 pattern 非法："));
    assert_eq!(message(validate_string_value("url", &JsonValue::Bool(true), None, None, None)), "字段 url 必须是 string");
}

#[test]
fn integers_and_booleans() {
    assert_eq!(validate_integer_value("n", &JsonValue::Number(JsonNumber::PosInt(5))).unwrap(), 5);
    assert_eq!(validate_integer_value("n", &JsonValue::Number(JsonNumber::NegInt(-5))).unwrap(), -5);
    assert!(validate_integer_value("n", &JsonValue::Number(JsonNumber::PosInt(u64::MAX))).is_err());
    match validate_integer_value("n", &JsonValue::Number(JsonNumber::Float("1.5".to_string()))) {
        Err(CoreError::ConfigInvalid(m)) => assert_eq!(m, "字段 n 必须是 integer"),
        other => panic!("unexpected {other:?}"),
    }
    assert_eq!(integer_json(7), JsonValue::Number(JsonNumber::PosInt(7)));
    assert_eq!(integer_json(-7), JsonValue::Number(JsonNumber::NegInt(-7)));
    assert_eq!(validate_boolean_value("b", &JsonValue::Bool(false)).unwrap(), false);
    assert!(validate_boolean_value("b", &s("true")).is_err());
    match unsupported_type_error("x", "object") {
        CoreError::ConfigInvalid(m) => assert_eq!(m, "字段 x 包含不支持类型：object"),
        other => panic!("unexpected {other:?}"),
    }
}

#[test]
fn enumerations() {
    let items = vec![s("a"), JsonValue::Number(JsonNumber::PosInt(1)), JsonValue::Array(vec![JsonValue::Null])];
    assert!(check_enum_value("f", &s("a"), Some(&items)).is_ok());
    assert!(check_enum_value("f", &JsonValue::Number(JsonNumber::PosInt(1)), Some(&items)).is_ok());
    assert!(check_enum_value("f", &JsonValue::Array(vec![JsonValue::Null]), Some(&items)).is_ok());
    match check_enum_value("f", &s("b"), Some(&items)) {
        Err(CoreError::ConfigInvalid(m)) => assert_eq!(m, "字段 f 必须在枚举值范围内"),
        other => panic!("unexpected {other:?}"),
    }
    assert!(check_enum_value("f", &s("b"), None).is_ok());
    assert!(!json_equal(&JsonValue::Number(JsonNumber::PosInt(1)), &JsonValue::Number(JsonNumber::Float("1.0".to_string()))));
    let a = JsonValue::Object(vec![("k".to_string(), s("v"))]);
    let b = JsonValue::Object(vec![("k".to_string(), s("w"))]);
    assert!(json_equal(&a, &a));
    assert!(!json_equal(&a, &b));
}
