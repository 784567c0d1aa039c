use openkeyv::error::Error;
use openkeyv::value::{StructuredValue, Value, ValueKind};

#[test]
fn value_kind_tags_are_stable() {
    let kinds = [
        (ValueKind::Binary, 0),
        (ValueKind::Utf8, 1),
        (ValueKind::Integer, 2),
        (ValueKind::Float, 3),
        (ValueKind::Bool, 4),
        (ValueKind::Null, 5),
        (ValueKind::Structured, 6),
        (ValueKind::UnsignedInteger, 7),
    ];

    for (kind, tag) in kinds {
        assert_eq!(kind.tag(), tag);
        assert_eq!(ValueKind::from_tag(tag), Some(kind));
    }
    assert_eq!(ValueKind::from_tag(8), None);
}

#[test]
fn mod_value_carries_kind_and_bytes() {
    let value = Value::integer(42);

    assert_eq!(value.kind(), ValueKind::Integer);
    assert_eq!(value.bytes(), &42_i64.to_le_bytes().to_vec());
}

#[test]
fn value_value_carries_kind_and_bytes() {
    let value = Value::integer(42);

    assert_eq!(value.kind(), ValueKind::Integer);
    assert_eq!(value.bytes(), &42_i64.to_le_bytes().to_vec());
}

#[test]
fn unsigned_integer_uses_exact_little_endian_bytes() {
    let value = Value::unsigned_integer(u64::MAX);

    assert_eq!(value.kind(), ValueKind::UnsignedInteger);
    assert_eq!(value.bytes().as_slice(), &u64::MAX.to_le_bytes());
    assert_eq!(Value::from(u64::MAX), value);
}

#[test]
fn checked_constructor_accepts_valid_payloads() {
    let structured = StructuredValue::List(vec![StructuredValue::UnsignedInteger(u64::MAX)]);
    let structured_bytes = structured.encode().unwrap();
    let values = [
        (ValueKind::Binary, vec![0, 1, 2]),
        (ValueKind::Utf8, b"hello".to_vec()),
        (ValueKind::Integer, i64::MIN.to_le_bytes().to_vec()),
        (ValueKind::UnsignedInteger, u64::MAX.to_le_bytes().to_vec()),
        (ValueKind::Float, 1.5_f64.to_le_bytes().to_vec()),
        (ValueKind::Bool, vec![1]),
        (ValueKind::Null, Vec::new()),
        (ValueKind::Structured, structured_bytes),
    ];

    for (kind, bytes) in values {
        let value = Value::new(kind, bytes.clone()).unwrap();

        assert_eq!(value.kind(), kind);
        assert_eq!(value.bytes(), &bytes);
    }
}

#[test]
fn checked_constructor_rejects_invalid_payloads() {
    let invalid_values = [
        (ValueKind::Utf8, vec![0xff]),
        (ValueKind::Integer, vec![0; 7]),
        (ValueKind::UnsignedInteger, vec![0; 9]),
        (ValueKind::Float, Vec::new()),
        (ValueKind::Bool, Vec::new()),
        (ValueKind::Bool, vec![2]),
        (ValueKind::Bool, vec![0, 1]),
        (ValueKind::Null, vec![0]),
        (ValueKind::Structured, b"OKV1".to_vec()),
        (ValueKind::Structured, b"OKV1\x00\x00".to_vec()),
    ];

    for (kind, bytes) in invalid_values {
        assert!(Value::new(kind, bytes).is_err(), "kind {kind:?}");
    }
}

#[test]
fn structured_value_uses_checked_roundtrip_api() {
    let structured = StructuredValue::Dict(vec![(
        "value".to_string(),
        StructuredValue::UnsignedInteger(u64::MAX),
    )]);

    let value = Value::from_structured(&structured).unwrap();

    assert_eq!(value.kind(), ValueKind::Structured);
    assert_eq!(value.decode_structured().unwrap(), structured);
    assert!(Value::binary(Vec::new()).decode_structured().is_err());
}

#[test]
fn unchecked_constructor_is_explicit() {
    let value = Value::new_unchecked(ValueKind::Integer, Vec::new());
    let structured = Value::structured_unchecked(b"invalid".to_vec());

    assert!(value.bytes().is_empty());
    assert!(structured.decode_structured().is_err());
}

#[test]
fn conversions_choose_the_kind() {
    assert_eq!(Value::from(vec![1u8, 2]).kind(), ValueKind::Binary);
    assert_eq!(Value::from("text"), Value::utf8("text"));
    assert_eq!(Value::from("text".to_string()), Value::utf8("text"));
    assert_eq!(Value::from(-3_i64).bytes(), &(-3_i64).to_le_bytes().to_vec());
    assert_eq!(Value::from(true).bytes(), &vec![1u8]);
    assert_eq!(Value::from(false).bytes(), &vec![0u8]);
    assert_eq!(
        Value::float(2.5_f64.to_bits()).bytes(),
        &2.5_f64.to_le_bytes().to_vec()
    );
    assert!(Value::null().is_empty());
    assert_eq!(Value::utf8("abc").len(), 3);
}

#[test]
fn rejected_text_names_the_reason() {
    let error = Value::new(ValueKind::Utf8, vec![b'a', 0xff]).unwrap_err();
    let reason = String::from_utf8(vec![b'a', 0xff]).unwrap_err().to_string();
    assert_eq!(
        error,
        Error::InvalidValue(format!("invalid UTF-8 payload: {reason}"))
    );
}

#[test]
fn structured_values_are_copied_whole() {
    let value = StructuredValue::Dict(vec![
        ("n".to_string(), StructuredValue::Null),
        (
            "l".to_string(),
            StructuredValue::List(vec![
                StructuredValue::Bool(true),
                StructuredValue::Bytes(vec![1, 2]),
                StructuredValue::String("s".to_string()),
                StructuredValue::Float(1.5_f64.to_bits()),
            ]),
        ),
    ]);
    assert_eq!(value.clone(), value);
}
