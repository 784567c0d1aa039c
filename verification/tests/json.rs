use openkeyv::value::json::{Json, JsonNumber};
use openkeyv::value::StructuredValue;

fn number(n: i64) -> Json {
    if n < 0 {
        Json::Number(JsonNumber::Negative(n))
    } else {
        Json::Number(JsonNumber::Natural(n as u64))
    }
}

#[test]
fn null_roundtrips() {
    let sv = StructuredValue::Null;
    let json = sv.to_json().unwrap();
    assert_eq!(json, Json::Null);
    assert_eq!(StructuredValue::from_json(&json).unwrap(), sv);
}

#[test]
fn bool_roundtrips() {
    for b in [false, true] {
        let sv = StructuredValue::Bool(b);
        let json = sv.to_json().unwrap();
        assert_eq!(json, Json::Bool(b));
        assert_eq!(StructuredValue::from_json(&json).unwrap(), sv);
    }
}

#[test]
fn integer_roundtrips() {
    for n in [0_i64, -1, 1, i64::MAX, i64::MIN] {
        let sv = StructuredValue::Integer(n);
        let json = sv.to_json().unwrap();
        assert_eq!(json, number(n));
        assert_eq!(StructuredValue::from_json(&json).unwrap(), sv);
    }
}

#[test]
fn unsigned_integer_overflow_range_maps_losslessly() {
    let n = u64::MAX;
    let sv = StructuredValue::UnsignedInteger(n);
    let json = sv.to_json().unwrap();
    assert_eq!(json, Json::Number(JsonNumber::Natural(n)));
    let back = StructuredValue::from_json(&json).unwrap();
    assert_eq!(back, sv);
}

#[test]
fn boundary_i64_max_stays_integer() {
    let sv = StructuredValue::Integer(i64::MAX);
    let json = sv.to_json().unwrap();
    let back = StructuredValue::from_json(&json).unwrap();
    assert_eq!(back, StructuredValue::Integer(i64::MAX));
}

#[test]
fn boundary_i64_max_plus_one_becomes_unsigned() {
    let n = i64::MAX as u64 + 1;
    let json = Json::Number(JsonNumber::Natural(n));
    let sv = StructuredValue::from_json(&json).unwrap();
    assert_eq!(sv, StructuredValue::UnsignedInteger(n));
}

#[test]
fn float_roundtrips() {
    for f in [0.0_f64, -1.5, 3.14159, f64::INFINITY] {
        if f.is_infinite() {
            assert!(StructuredValue::Float(f.to_bits()).to_json().is_err());
            continue;
        }
        let sv = StructuredValue::Float(f.to_bits());
        let json = sv.to_json().unwrap();
        assert_eq!(json, Json::Number(JsonNumber::Float(f.to_bits())));
        assert_eq!(StructuredValue::from_json(&json).unwrap(), sv);
    }
}

#[test]
fn nan_rejected() {
    assert!(StructuredValue::Float(f64::NAN.to_bits()).to_json().is_err());
}

#[test]
fn string_roundtrips() {
    let sv = StructuredValue::String("héllo 世界".to_string());
    let json = sv.to_json().unwrap();
    assert_eq!(json, Json::String("héllo 世界".to_string()));
    assert_eq!(StructuredValue::from_json(&json).unwrap(), sv);
}

#[test]
fn bytes_rejected() {
    let sv = StructuredValue::Bytes(vec![0, 1, 2]);
    assert!(sv.to_json().is_err());
}

#[test]
fn list_roundtrips() {
    let sv = StructuredValue::List(vec![
        StructuredValue::Integer(1),
        StructuredValue::String("two".to_string()),
        StructuredValue::Bool(true),
        StructuredValue::Null,
    ]);
    let json = sv.to_json().unwrap();
    assert!(matches!(&json, Json::Array(items) if items.len() == 4));
    assert_eq!(StructuredValue::from_json(&json).unwrap(), sv);
}

#[test]
fn dict_roundtrips() {
    let sv = StructuredValue::Dict(vec![
        ("a".to_string(), StructuredValue::Integer(1)),
        ("b".to_string(), StructuredValue::UnsignedInteger(u64::MAX)),
        ("c".to_string(), StructuredValue::Float(2.5_f64.to_bits())),
    ]);
    let json = sv.to_json().unwrap();
    assert!(matches!(&json, Json::Object(members) if members.len() == 3));
    assert_eq!(StructuredValue::from_json(&json).unwrap(), sv);
}

#[test]
fn nested_structures_roundtrip() {
    let sv = StructuredValue::Dict(vec![
        (
            "list".to_string(),
            StructuredValue::List(vec![
                StructuredValue::Integer(-1),
                StructuredValue::UnsignedInteger(u64::MAX),
            ]),
        ),
        (
            "nested".to_string(),
            StructuredValue::Dict(vec![(
                "key".to_string(),
                StructuredValue::String("value".to_string()),
            )]),
        ),
    ]);
    let json = sv.to_json().unwrap();
    assert_eq!(StructuredValue::from_json(&json).unwrap(), sv);
}

#[test]
fn duplicate_dict_keys_rejected_in_to_json() {
    let sv = StructuredValue::Dict(vec![
        ("k".to_string(), StructuredValue::Integer(1)),
        ("k".to_string(), StructuredValue::Integer(2)),
    ]);
    assert!(sv.to_json().is_err());
}

#[test]
fn try_from_traits_work() {
    let sv = StructuredValue::Dict(vec![(
        "version".to_string(),
        StructuredValue::UnsignedInteger(u64::MAX),
    )]);
    let json: Json = (&sv).try_into().unwrap();
    let back: StructuredValue = (&json).try_into().unwrap();
    assert_eq!(back, sv);
}

#[test]
fn json_array_with_mixed_types_roundtrips() {
    let document = || {
        Json::Array(vec![
            Json::Null,
            Json::Bool(true),
            number(42),
            number(-7),
            Json::String("text".to_string()),
            Json::Array(vec![number(1), number(2)]),
            Json::Object(vec![("k".to_string(), Json::String("v".to_string()))]),
        ])
    };
    let sv = StructuredValue::from_json(&document()).unwrap();
    let back = sv.to_json().unwrap();
    assert_eq!(back, document());
}

#[test]
fn full_roundtrip_preserves_u64_max() {
    let sv = StructuredValue::Dict(vec![(
        "version".to_string(),
        StructuredValue::UnsignedInteger(u64::MAX),
    )]);
    let json = sv.to_json().unwrap();
    let decoded = StructuredValue::from_json(&json).unwrap();
    assert_eq!(decoded, sv);
}

#[test]
fn members_come_out_in_key_order() {
    let sv = StructuredValue::Dict(vec![
        ("b".to_string(), StructuredValue::Null),
        ("a".to_string(), StructuredValue::Bool(true)),
    ]);
    assert_eq!(
        sv.to_json().unwrap(),
        Json::Object(vec![
            ("a".to_string(), Json::Bool(true)),
            ("b".to_string(), Json::Null),
        ])
    );
}
