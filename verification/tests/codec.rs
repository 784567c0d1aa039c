use openkeyv::error::Error;
use openkeyv::value::codec::{decode, decode_value, encode, encode_value, write_len, Cursor};
use openkeyv::value::StructuredValue;

const MAGIC: &[u8] = b"OKV1";

#[test]
fn dict_encoding_is_key_sorted() {
    let left = StructuredValue::Dict(vec![
        ("b".to_string(), StructuredValue::Integer(2)),
        ("a".to_string(), StructuredValue::Integer(1)),
    ]);
    let right = StructuredValue::Dict(vec![
        ("a".to_string(), StructuredValue::Integer(1)),
        ("b".to_string(), StructuredValue::Integer(2)),
    ]);

    assert_eq!(encode(&left).unwrap(), encode(&right).unwrap());
}

#[test]
fn duplicate_dict_keys_are_rejected_when_encoding() {
    let value = StructuredValue::Dict(vec![
        ("key".to_string(), StructuredValue::Integer(1)),
        ("key".to_string(), StructuredValue::Integer(2)),
    ]);

    assert!(encode(&value).is_err());
}

#[test]
fn duplicate_dict_keys_are_rejected_when_decoding() {
    let tag_dict = encode(&StructuredValue::Dict(Vec::new())).unwrap()[4];
    let tag_int = encode(&StructuredValue::Integer(0)).unwrap()[4];
    let mut bytes = Vec::new();
    bytes.extend_from_slice(MAGIC);
    bytes.push(tag_dict);
    bytes.extend_from_slice(&2_u32.to_le_bytes());
    for value in [1_i64, 2_i64] {
        bytes.extend_from_slice(&3_u32.to_le_bytes());
        bytes.extend_from_slice(b"key");
        bytes.push(tag_int);
        bytes.extend_from_slice(&value.to_le_bytes());
    }

    assert!(decode(&bytes).is_err());
}

#[test]
fn unsigned_integer_tag_is_appended_and_roundtrips_nested_values() {
    let value = StructuredValue::Dict(vec![(
        "values".to_string(),
        StructuredValue::List(vec![
            StructuredValue::Integer(i64::MAX),
            StructuredValue::UnsignedInteger(u64::MAX),
        ]),
    )]);

    let encoded = encode(&value).unwrap();

    assert!(encoded
        .windows(9)
        .any(|bytes| bytes[0] == 9 && bytes[1..] == u64::MAX.to_le_bytes()));
    assert_eq!(decode(&encoded).unwrap(), value);
}

#[test]
fn truncated_unsigned_integer_is_rejected() {
    let mut bytes = Vec::from(MAGIC);
    bytes.push(9);
    bytes.extend_from_slice(&u64::MAX.to_le_bytes()[..7]);

    let err = decode(&bytes).unwrap_err();

    assert!(err.message().contains("truncated structured value"));
}

#[test]
fn unknown_structured_tag_is_rejected() {
    let mut bytes = Vec::from(MAGIC);
    bytes.push(10);

    let err = decode(&bytes).unwrap_err();

    assert!(err.message().contains("unknown structured value tag"));
}

#[test]
fn every_kind_of_value_roundtrips() {
    let value = StructuredValue::Dict(vec![
        ("bool".to_string(), StructuredValue::Bool(true)),
        ("bytes".to_string(), StructuredValue::Bytes(vec![0, 255, 7])),
        ("float".to_string(), StructuredValue::Float((-0.5_f64).to_bits())),
        ("int".to_string(), StructuredValue::Integer(i64::MIN)),
        (
            "list".to_string(),
            StructuredValue::List(vec![StructuredValue::Null, StructuredValue::Bool(false)]),
        ),
        ("null".to_string(), StructuredValue::Null),
        ("text".to_string(), StructuredValue::String("héllo 世界".to_string())),
        ("unsigned".to_string(), StructuredValue::UnsignedInteger(7)),
    ]);
    let bytes = encode(&value).unwrap();
    assert_eq!(&bytes[..4], MAGIC);
    assert_eq!(decode(&bytes).unwrap(), value);
}

#[test]
fn an_integer_has_its_exact_bytes() {
    let bytes = encode(&StructuredValue::Integer(258)).unwrap();
    let mut expected = Vec::from(MAGIC);
    expected.push(bytes[4]);
    expected.extend_from_slice(&258_i64.to_le_bytes());
    assert_eq!(bytes, expected);
}

#[test]
fn trailing_bytes_and_wrong_magic_are_rejected() {
    let mut bytes = encode(&StructuredValue::Null).unwrap();
    bytes.push(0);
    assert!(matches!(decode(&bytes), Err(Error::Deserialization(_))));
    assert!(matches!(decode(b"OKV2\x00"), Err(Error::Deserialization(_))));
    assert!(matches!(decode(b""), Err(Error::Deserialization(_))));
}

#[test]
fn text_that_is_not_utf8_is_rejected() {
    let mut bytes = encode(&StructuredValue::String("a".to_string())).unwrap();
    let last = bytes.len() - 1;
    bytes[last] = 0xff;
    assert!(matches!(decode(&bytes), Err(Error::Deserialization(_))));
}

#[test]
fn nested_dicts_are_written_in_key_order_too() {
    let pair = |first: &str, second: &str| {
        let value = |key: &str| StructuredValue::String(key.to_string());
        StructuredValue::Dict(vec![
            (first.to_string(), value(first)),
            (second.to_string(), value(second)),
        ])
    };
    let nested = |inner: StructuredValue, swapped: bool| {
        let mut entries = vec![
            ("x".to_string(), StructuredValue::List(vec![inner])),
            ("y".to_string(), StructuredValue::Null),
        ];
        if swapped {
            entries.reverse();
        }
        StructuredValue::Dict(entries)
    };
    let written = encode(&nested(pair("a", "b"), false)).unwrap();
    assert_eq!(encode(&nested(pair("b", "a"), true)).unwrap(), written);
    assert_eq!(decode(&written).unwrap(), nested(pair("a", "b"), false));
}

#[test]
fn a_written_value_can_be_neither_extended_nor_cut() {
    let value = StructuredValue::Dict(vec![
        ("a".to_string(), StructuredValue::Bytes(vec![1, 2, 3])),
        (
            "b".to_string(),
            StructuredValue::List(vec![
                StructuredValue::UnsignedInteger(7),
                StructuredValue::Bool(true),
            ]),
        ),
    ]);
    let bytes = encode(&value).unwrap();
    for cut in 0..bytes.len() {
        assert!(matches!(decode(&bytes[..cut]), Err(Error::Deserialization(_))));
    }
    let mut longer = bytes.clone();
    longer.push(0);
    assert_eq!(
        decode(&longer),
        Err(Error::Deserialization(
            "trailing bytes in structured value".to_string()
        ))
    );
    assert_eq!(encode(&decode(&bytes).unwrap()).unwrap().len(), bytes.len());
}

#[test]
fn a_value_is_appended_as_it_is_written_alone() {
    let value = StructuredValue::List(vec![
        StructuredValue::String("x".to_string()),
        StructuredValue::Integer(-1),
    ]);
    let mut out = vec![9, 9];
    encode_value(&value, &mut out).unwrap();
    assert_eq!(&out[..2], &[9, 9]);
    assert_eq!(&out[2..], &encode(&value).unwrap()[4..]);

    let twice = StructuredValue::Dict(vec![
        ("key".to_string(), StructuredValue::Null),
        ("key".to_string(), StructuredValue::Null),
    ]);
    let mut out = vec![9, 9];
    assert_eq!(
        encode_value(&twice, &mut out),
        Err(Error::Serialization(
            "duplicate structured dict key: key".to_string()
        ))
    );
    assert!(out.starts_with(&[9, 9]));

    let mut out = vec![9];
    write_len(&mut out, 258).unwrap();
    assert_eq!(out, vec![9, 2, 1, 0, 0]);
    let too_large = u32::MAX as usize + 1;
    assert!(matches!(
        write_len(&mut out, too_large),
        Err(Error::Serialization(_))
    ));
    assert_eq!(out, vec![9, 2, 1, 0, 0]);
}

#[test]
fn reading_one_value_leaves_the_rest() {
    let first = StructuredValue::Dict(vec![("a".to_string(), StructuredValue::Bool(true))]);
    let mut bytes = Vec::new();
    encode_value(&first, &mut bytes).unwrap();
    let end = bytes.len();
    bytes.extend_from_slice(&[0, 10]);
    let mut cursor = Cursor::new(&bytes);
    assert_eq!(decode_value(&mut cursor).unwrap(), first);
    assert_eq!(cursor.pos, end);
    assert_eq!(end, encode(&first).unwrap().len() - 4);
    assert_eq!(decode_value(&mut cursor).unwrap(), StructuredValue::Null);
    assert_eq!(
        decode_value(&mut cursor),
        Err(Error::Deserialization(
            "unknown structured value tag: 10".to_string()
        ))
    );
    let mut short = Cursor::new(&bytes[..2]);
    assert!(short.read_bytes(3).is_err());
    assert_eq!(short.pos, 0);
    assert_eq!(short.remaining(), 2);
}
