use dbba::value::{coerce, digest_string, format_datetime, CanonicalValue, DateTimeParts, RawCell};

fn cell_with_int(v: i64) -> RawCell {
    RawCell {
        is_null: false,
        int_val: Some(v),
        float_text: None,
        datetime_val: None,
        bytes_val: None,
        bool_val: None,
        text_val: None,
    }
}

fn full_cell() -> RawCell {
    RawCell {
        is_null: false,
        int_val: Some(7),
        float_text: Some("1.5".to_string()),
        datetime_val: Some(DateTimeParts {
            year: 2024,
            month: 3,
            day: 5,
            hour: 7,
            minute: 8,
            second: 9,
        }),
        bytes_val: Some(vec![0x01, 0x02]),
        bool_val: Some(true),
        text_val: Some("plain".to_string()),
    }
}

fn null_cell() -> RawCell {
    RawCell {
        is_null: true,
        int_val: Some(7),
        float_text: Some("1.5".to_string()),
        datetime_val: None,
        bytes_val: Some(vec![0x01]),
        bool_val: Some(true),
        text_val: Some("plain".to_string()),
    }
}

#[test]
fn test_null_wins_over_every_declared_type() {
    let cell = null_cell();
    for ty in ["INT", "BIGINT", "DOUBLE", "DATETIME", "BLOB", "BIT", "VARCHAR", "TEXT"] {
        assert!(matches!(coerce(&cell, ty), CanonicalValue::Null));
    }
}

#[test]
fn test_integer_family() {
    for ty in ["TINYINT", "SMALLINT", "MEDIUMINT", "INT", "BIGINT"] {
        match coerce(&cell_with_int(42), ty) {
            CanonicalValue::Integer(v) => assert_eq!(v, 42),
            _ => panic!("expected an integer"),
        }
    }
    // read failure degrades to Null
    let mut cell = cell_with_int(42);
    cell.int_val = None;
    assert!(matches!(coerce(&cell, "INT"), CanonicalValue::Null));
}

#[test]
fn test_float_family() {
    let cell = full_cell();
    for ty in ["FLOAT", "DOUBLE", "DECIMAL"] {
        match coerce(&cell, ty) {
            CanonicalValue::Float(s) => assert_eq!(s, "1.5"),
            _ => panic!("expected a float"),
        }
    }
}

#[test]
fn test_datetime_family_formats_zero_padded() {
    let cell = full_cell();
    for ty in ["DATETIME", "TIMESTAMP"] {
        match coerce(&cell, ty) {
            CanonicalValue::Text(s) => assert_eq!(s, "2024-03-05 07:08:09"),
            _ => panic!("expected text"),
        }
    }
}

#[test]
fn test_blob_family_digest() {
    let cell = full_cell();
    let expected = "MD5 Digest value: 0cb988d042a7f28dd5fe2b55b3f5ac7a";
    for ty in ["BLOB", "TINYBLOB", "MEDIUMBLOB", "LONGBLOB", "BINARY", "VARBINARY"] {
        match coerce(&cell, ty) {
            CanonicalValue::Text(s) => assert_eq!(s, expected),
            _ => panic!("expected text"),
        }
    }
}

#[test]
fn test_digest_is_deterministic() {
    let a = digest_string(&vec![0x01, 0x02]);
    let b = digest_string(&vec![0x01, 0x02]);
    assert_eq!(a, b);
    assert_eq!(a, "MD5 Digest value: 0cb988d042a7f28dd5fe2b55b3f5ac7a");
    // a different input yields a different digest
    let c = digest_string(&vec![0x02, 0x01]);
    assert_ne!(a, c);
}

#[test]
fn test_bit_family() {
    let cell = full_cell();
    match coerce(&cell, "BIT") {
        CanonicalValue::Boolean(b) => assert!(b),
        _ => panic!("expected a boolean"),
    }
}

#[test]
fn test_unknown_type_tries_binary_before_text() {
    let cell = full_cell();
    // both reads available: the binary one wins
    match coerce(&cell, "JSON") {
        CanonicalValue::Text(s) => {
            assert_eq!(s, "MD5 Digest value: 0cb988d042a7f28dd5fe2b55b3f5ac7a")
        },
        _ => panic!("expected text"),
    }
    // only the text read available
    let mut cell = full_cell();
    cell.bytes_val = None;
    match coerce(&cell, "VARCHAR") {
        CanonicalValue::Text(s) => assert_eq!(s, "plain"),
        _ => panic!("expected text"),
    }
    // no read available
    cell.text_val = None;
    assert!(matches!(coerce(&cell, "VARCHAR"), CanonicalValue::Null));
}

#[test]
fn test_datetime_year_padding() {
    let p = DateTimeParts { year: 99, month: 12, day: 31, hour: 23, minute: 59, second: 59 };
    assert_eq!(format_datetime(&p), "0099-12-31 23:59:59");
}
