use dbba::json::serialize_record;
use dbba::record::{identity_of, normalize};
use dbba::strings::{i64_to_dec, str_eq, str_lt, u64_to_dec};
use dbba::value::CanonicalValue;

fn john_cols() -> Vec<(String, CanonicalValue)> {
    vec![
        ("id".to_string(), CanonicalValue::Integer(1)),
        ("name".to_string(), CanonicalValue::Text("John".to_string())),
    ]
}

#[test]
fn test_normalize_sorts_and_serializes() {
    let rec = normalize(&john_cols());
    assert_eq!(serialize_record(&rec), "{\n  \"id\": 1,\n  \"name\": \"John\"\n}");
}

#[test]
fn test_normalize_is_insertion_order_independent() {
    let mut reversed = john_cols();
    reversed.reverse();
    let a = serialize_record(&normalize(&john_cols()));
    let b = serialize_record(&normalize(&reversed));
    assert_eq!(a, b);
}

#[test]
fn test_normalize_repeated_name_last_wins() {
    let cols = vec![
        ("x".to_string(), CanonicalValue::Integer(1)),
        ("x".to_string(), CanonicalValue::Integer(2)),
    ];
    let rec = normalize(&cols);
    assert_eq!(serialize_record(&rec), "{\n  \"x\": 2\n}");
}

#[test]
fn test_serialize_empty_record() {
    let rec = normalize(&Vec::new());
    assert_eq!(serialize_record(&rec), "{}");
}

#[test]
fn test_serialize_all_value_kinds() {
    let cols = vec![
        ("a".to_string(), CanonicalValue::Null),
        ("b".to_string(), CanonicalValue::Boolean(false)),
        ("c".to_string(), CanonicalValue::Float("2.25".to_string())),
        ("d".to_string(), CanonicalValue::Integer(-3)),
    ];
    let rec = normalize(&cols);
    assert_eq!(
        serialize_record(&rec),
        "{\n  \"a\": null,\n  \"b\": false,\n  \"c\": 2.25,\n  \"d\": -3\n}"
    );
}

#[test]
fn test_serialize_escapes_text() {
    let cols = vec![(
        "t".to_string(),
        CanonicalValue::Text("a\"b\\c\nd\te\u{1}".to_string()),
    )];
    let rec = normalize(&cols);
    assert_eq!(
        serialize_record(&rec),
        "{\n  \"t\": \"a\\\"b\\\\c\\nd\\te\\u0001\"\n}"
    );
}

#[test]
fn test_identity_of_integer_id() {
    let rec = normalize(&john_cols());
    assert_eq!(identity_of(&rec), "1");
}

#[test]
fn test_identity_of_string_id() {
    let cols = vec![("id".to_string(), CanonicalValue::Text("abc-7".to_string()))];
    let rec = normalize(&cols);
    assert_eq!(identity_of(&rec), "abc-7");
}

#[test]
fn test_identity_of_float_id_uses_rendering() {
    let cols = vec![("id".to_string(), CanonicalValue::Float("1.5".to_string()))];
    let rec = normalize(&cols);
    assert_eq!(identity_of(&rec), "1.5");
}

#[test]
fn test_identity_of_negative_integer_id() {
    let cols = vec![("id".to_string(), CanonicalValue::Integer(-7))];
    let rec = normalize(&cols);
    assert_eq!(identity_of(&rec), "-7");
}

#[test]
fn test_identity_of_missing_id_is_sentinel() {
    let cols = vec![("name".to_string(), CanonicalValue::Text("x".to_string()))];
    let rec = normalize(&cols);
    assert_eq!(identity_of(&rec), "unknown");
}

#[test]
fn test_identity_of_null_id_is_sentinel() {
    let cols = vec![("id".to_string(), CanonicalValue::Null)];
    let rec = normalize(&cols);
    assert_eq!(identity_of(&rec), "unknown");
}

#[test]
fn test_decimal_rendering() {
    assert_eq!(u64_to_dec(0), "0");
    assert_eq!(u64_to_dec(9876543210), "9876543210");
    assert_eq!(i64_to_dec(-42), "-42");
    assert_eq!(i64_to_dec(i64::MIN), "-9223372036854775808");
    assert_eq!(i64_to_dec(i64::MAX), "9223372036854775807");
}

#[test]
fn test_string_order_helpers() {
    assert!(str_lt("abc", "abd"));
    assert!(str_lt("ab", "abc"));
    assert!(!str_lt("abc", "abc"));
    assert!(!str_lt("b", "ab"));
    assert!(str_eq("same", "same"));
    assert!(!str_eq("same", "Same"));
}
