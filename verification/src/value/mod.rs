//! Protocol-level values: typed bytes and the structured form.

pub mod codec;
pub mod json;
pub mod json_laws;
pub mod kind;
pub mod roundtrip;
pub mod structured;

use crate::bytes::{le_bytes, signed_bits, to_bits, write_le};
use crate::error::{Error, ErrorModel, Outcome, Result};
use crate::text::{concat, decimal, decimal_string, utf8_error_text, utf8_string};
use crate::value::codec::{decoded, encoded};
pub use kind::ValueKind;
pub use structured::{StructuredModel, StructuredValue};
use vstd::prelude::*;
#[allow(unused_imports)]
use vstd::string::*;
use vstd::utf8::{encode_utf8, valid_utf8};

verus! {

/// Protocol-level value stored by the core: bytes and what they stand for.
///
/// Structured values are represented by [`StructuredValue`] before being encoded into the
/// `Structured` byte kind.
#[derive(Debug, PartialEq, Eq)]
pub struct Value {
    kind: ValueKind,
    bytes: Vec<u8>,
}

/// The model of [`Value`].
#[verifier::ext_equal]
pub struct ValueModel {
    pub kind: ValueKind,
    pub bytes: Seq<u8>,
}

impl View for Value {
    type V = ValueModel;

    closed spec fn view(&self) -> ValueModel {
        ValueModel { kind: self.kind, bytes: self.bytes@ }
    }
}

impl Clone for Value {
    fn clone(&self) -> (value: Self)
        ensures
            value@ == self@,
    {
        let bytes = vstd::slice::slice_to_vec(self.bytes.as_slice());
        Value { kind: self.kind, bytes }
    }
}

/// The error for a payload that does not have its kind's width.
pub open spec fn wrong_width(label: Seq<char>, expected: nat, got: nat) -> ErrorModel {
    ErrorModel::InvalidValue(
        "invalid "@ + label + " payload length: expected "@ + decimal(expected) + " bytes, got "@
            + decimal(got),
    )
}

/// Why bytes cannot be the payload of a kind, if they cannot.
pub open spec fn payload_fault(kind: ValueKind, bytes: Seq<u8>) -> Option<ErrorModel> {
    match kind {
        ValueKind::Binary => None,
        ValueKind::Utf8 => if valid_utf8(bytes) {
            None
        } else {
            Some(ErrorModel::InvalidValue("invalid UTF-8 payload: "@ + utf8_error_text(bytes)))
        },
        ValueKind::Integer => if bytes.len() == 8 {
            None
        } else {
            Some(wrong_width("integer"@, 8, bytes.len()))
        },
        ValueKind::UnsignedInteger => if bytes.len() == 8 {
            None
        } else {
            Some(wrong_width("unsigned integer"@, 8, bytes.len()))
        },
        ValueKind::Float => if bytes.len() == 8 {
            None
        } else {
            Some(wrong_width("float"@, 8, bytes.len()))
        },
        ValueKind::Bool => if bytes.len() == 1 && bytes[0] <= 1 {
            None
        } else {
            Some(
                ErrorModel::InvalidValue(
                    "bool payload must be exactly one byte containing 0 or 1"@,
                ),
            )
        },
        ValueKind::Null => if bytes.len() == 0 {
            None
        } else {
            Some(ErrorModel::InvalidValue("null payload must be empty"@))
        },
        ValueKind::Structured => match decoded(bytes) {
            Ok(_) => None,
            Err(e) => Some(ErrorModel::InvalidValue("invalid structured payload: "@ + e.text())),
        },
    }
}

/// What reading a value as a structured value gives.
pub open spec fn structured_of(value: ValueModel) -> Outcome<StructuredModel> {
    if value.kind != ValueKind::Structured {
        Err(ErrorModel::InvalidValue("expected Structured kind, got "@ + value.kind.name_of()))
    } else {
        decoded(value.bytes)
    }
}

fn validate_fixed_width(bytes: &[u8], expected: usize, label: &str) -> (result: Result<()>)
    ensures
        match result {
            Ok(_) => bytes@.len() == expected,
            Err(e) => bytes@.len() != expected && e@ == wrong_width(
                label@,
                expected as nat,
                bytes@.len(),
            ),
        },
{
    if bytes.len() == expected {
        Ok(())
    } else {
        let mut message = concat("invalid ", label);
        message.append(" payload length: expected ");
        message.append(decimal_string(expected as u64).as_str());
        message.append(" bytes, got ");
        message.append(decimal_string(bytes.len() as u64).as_str());
        Err(Error::InvalidValue(message))
    }
}

fn validate_payload(kind: ValueKind, bytes: &[u8]) -> (result: Result<()>)
    ensures
        match result {
            Ok(_) => payload_fault(kind, bytes@) is None,
            Err(e) => payload_fault(kind, bytes@) == Some(e@),
        },
{
    match kind {
        ValueKind::Binary => Ok(()),
        ValueKind::Utf8 => match utf8_string(vstd::slice::slice_to_vec(bytes)) {
            Ok(_) => Ok(()),
            Err(message) => Err(
                Error::InvalidValue(concat("invalid UTF-8 payload: ", message.as_str())),
            ),
        },
        ValueKind::Integer => validate_fixed_width(bytes, 8, "integer"),
        ValueKind::UnsignedInteger => validate_fixed_width(bytes, 8, "unsigned integer"),
        ValueKind::Float => validate_fixed_width(bytes, 8, "float"),
        ValueKind::Bool => if bytes.len() == 1 && bytes[0] <= 1 {
            Ok(())
        } else {
            Err(
                Error::InvalidValue(
                    "bool payload must be exactly one byte containing 0 or 1".to_owned(),
                ),
            )
        },
        ValueKind::Null => if bytes.len() == 0 {
            Ok(())
        } else {
            Err(Error::InvalidValue("null payload must be empty".to_owned()))
        },
        ValueKind::Structured => match codec::decode(bytes) {
            Ok(_) => Ok(()),
            Err(e) => Err(
                Error::InvalidValue(concat("invalid structured payload: ", e.message().as_str())),
            ),
        },
    }
}

impl Value {
    /// A value of a raw kind and payload, after validating the payload.
    pub fn new(kind: ValueKind, bytes: Vec<u8>) -> (value: Result<Self>)
        ensures
            match value {
                Ok(v) => payload_fault(kind, bytes@) is None && v@ == (ValueModel {
                    kind,
                    bytes: bytes@,
                }),
                Err(e) => payload_fault(kind, bytes@) == Some(e@),
            },
    {
        validate_payload(kind, bytes.as_slice())?;
        Ok(Value { kind, bytes })
    }

    /// A value whose payload is not validated against its kind.
    ///
    /// Prefer the typed constructors or [`Value::new`] at protocol boundaries. This is for
    /// bytes that were produced by an already checked path.
    pub fn new_unchecked(kind: ValueKind, bytes: Vec<u8>) -> (value: Self)
        ensures
            value@ == (ValueModel { kind, bytes: bytes@ }),
    {
        Value { kind, bytes }
    }

    pub fn binary(bytes: Vec<u8>) -> (value: Self)
        ensures
            value@ == (ValueModel { kind: ValueKind::Binary, bytes: bytes@ }),
    {
        Value::new_unchecked(ValueKind::Binary, bytes)
    }

    pub fn utf8(value: &str) -> (made: Self)
        ensures
            made@ == (ValueModel { kind: ValueKind::Utf8, bytes: encode_utf8(value@) }),
    {
        Value::new_unchecked(ValueKind::Utf8, vstd::slice::slice_to_vec(value.as_bytes()))
    }

    pub fn integer(value: i64) -> (made: Self)
        ensures
            made@ == (ValueModel {
                kind: ValueKind::Integer,
                bytes: le_bytes(signed_bits(value), 8),
            }),
    {
        let mut bytes: Vec<u8> = Vec::new();
        write_le(&mut bytes, to_bits(value), 8);
        assert(bytes@ =~= le_bytes(signed_bits(value), 8));
        Value::new_unchecked(ValueKind::Integer, bytes)
    }

    pub fn unsigned_integer(value: u64) -> (made: Self)
        ensures
            made@ == (ValueModel {
                kind: ValueKind::UnsignedInteger,
                bytes: le_bytes(value as nat, 8),
            }),
    {
        let mut bytes: Vec<u8> = Vec::new();
        write_le(&mut bytes, value, 8);
        assert(bytes@ =~= le_bytes(value as nat, 8));
        Value::new_unchecked(ValueKind::UnsignedInteger, bytes)
    }

    /// A float, given by its 64-bit IEEE 754 pattern.
    pub fn float(bits: u64) -> (made: Self)
        ensures
            made@ == (ValueModel { kind: ValueKind::Float, bytes: le_bytes(bits as nat, 8) }),
    {
        let mut bytes: Vec<u8> = Vec::new();
        write_le(&mut bytes, bits, 8);
        assert(bytes@ =~= le_bytes(bits as nat, 8));
        Value::new_unchecked(ValueKind::Float, bytes)
    }

    pub fn bool(value: bool) -> (made: Self)
        ensures
            made@ == (ValueModel {
                kind: ValueKind::Bool,
                bytes: seq![
                    if value {
                        1u8
                    } else {
                        0u8
                    },
                ],
            }),
    {
        let mut bytes: Vec<u8> = Vec::new();
        bytes.push(
            if value {
                1
            } else {
                0
            },
        );
        assert(bytes@ =~= seq![
            if value {
                1u8
            } else {
                0u8
            },
        ]);
        Value::new_unchecked(ValueKind::Bool, bytes)
    }

    pub fn null() -> (made: Self)
        ensures
            made@ == (ValueModel { kind: ValueKind::Null, bytes: Seq::empty() }),
    {
        Value::new_unchecked(ValueKind::Null, Vec::new())
    }

    /// Encodes a structured value into a checked value.
    pub fn from_structured(value: &StructuredValue) -> (made: Result<Self>)
        ensures
            match made {
                Ok(v) => v@.kind == ValueKind::Structured && encoded(value.model()) == Ok::<
                    _,
                    ErrorModel,
                >(v@.bytes),
                Err(e) => encoded(value.model()) == Err::<Seq<u8>, _>(e@),
            },
    {
        Ok(Value::structured_unchecked(value.encode()?))
    }

    /// Decodes this value as a structured value.
    pub fn decode_structured(&self) -> (value: Result<StructuredValue>)
        ensures
            match value {
                Ok(v) => structured_of(self@) == Ok::<_, ErrorModel>(v.model()),
                Err(e) => structured_of(self@) == Err::<StructuredModel, _>(e@),
            },
    {
        if self.kind != ValueKind::Structured {
            return Err(
                Error::InvalidValue(concat("expected Structured kind, got ", self.kind.name())),
            );
        }
        StructuredValue::decode(self.bytes.as_slice())
    }

    /// A structured value from raw bytes that are not validated.
    ///
    /// Prefer [`Value::from_structured`] for normal construction or [`Value::new`] when
    /// accepting raw protocol bytes.
    pub fn structured_unchecked(bytes: Vec<u8>) -> (value: Self)
        ensures
            value@ == (ValueModel { kind: ValueKind::Structured, bytes: bytes@ }),
    {
        Value::new_unchecked(ValueKind::Structured, bytes)
    }

    pub fn kind(&self) -> (kind: ValueKind)
        ensures
            kind == self@.kind,
    {
        self.kind
    }

    pub fn bytes(&self) -> (bytes: &Vec<u8>)
        ensures
            bytes@ == self@.bytes,
    {
        &self.bytes
    }

    pub fn len(&self) -> (len: usize)
        ensures
            len == self@.bytes.len(),
    {
        self.bytes.len()
    }

    pub fn is_empty(&self) -> (empty: bool)
        ensures
            empty == (self@.bytes.len() == 0),
    {
        self.bytes.len() == 0
    }
}

impl From<Vec<u8>> for Value {
    fn from(value: Vec<u8>) -> (made: Self)
        ensures
            made@ == (ValueModel { kind: ValueKind::Binary, bytes: value@ }),
    {
        Value::binary(value)
    }
}

impl vstd::std_specs::convert::FromSpecImpl<Vec<u8>> for Value {
    open spec fn obeys_from_spec() -> bool {
        false
    }

    open spec fn from_spec(value: Vec<u8>) -> Value {
        arbitrary()
    }
}

impl From<String> for Value {
    fn from(value: String) -> (made: Self)
        ensures
            made@ == (ValueModel { kind: ValueKind::Utf8, bytes: encode_utf8(value@) }),
    {
        Value::utf8(value.as_str())
    }
}

impl vstd::std_specs::convert::FromSpecImpl<String> for Value {
    open spec fn obeys_from_spec() -> bool {
        false
    }

    open spec fn from_spec(value: String) -> Value {
        arbitrary()
    }
}

impl<'a> From<&'a str> for Value {
    fn from(value: &'a str) -> (made: Self)
        ensures
            made@ == (ValueModel { kind: ValueKind::Utf8, bytes: encode_utf8(value@) }),
    {
        Value::utf8(value)
    }
}

impl<'a> vstd::std_specs::convert::FromSpecImpl<&'a str> for Value {
    open spec fn obeys_from_spec() -> bool {
        false
    }

    open spec fn from_spec(value: &'a str) -> Value {
        arbitrary()
    }
}

impl From<i64> for Value {
    fn from(value: i64) -> (made: Self)
        ensures
            made@ == (ValueModel { kind: ValueKind::Integer, bytes: le_bytes(signed_bits(value), 8) }),
    {
        Value::integer(value)
    }
}

impl vstd::std_specs::convert::FromSpecImpl<i64> for Value {
    open spec fn obeys_from_spec() -> bool {
        false
    }

    open spec fn from_spec(value: i64) -> Value {
        arbitrary()
    }
}

impl From<u64> for Value {
    fn from(value: u64) -> (made: Self)
        ensures
            made@ == (ValueModel { kind: ValueKind::UnsignedInteger, bytes: le_bytes(value as nat, 8) }),
    {
        Value::unsigned_integer(value)
    }
}

impl vstd::std_specs::convert::FromSpecImpl<u64> for Value {
    open spec fn obeys_from_spec() -> bool {
        false
    }

    open spec fn from_spec(value: u64) -> Value {
        arbitrary()
    }
}

impl From<bool> for Value {
    fn from(value: bool) -> (made: Self)
        ensures
            made@ == (ValueModel { kind: ValueKind::Bool, bytes: seq![
                if value {
                    1u8
                } else {
                    0u8
                },
            ] }),
    {
        Value::bool(value)
    }
}

impl vstd::std_specs::convert::FromSpecImpl<bool> for Value {
    open spec fn obeys_from_spec() -> bool {
        false
    }

    open spec fn from_spec(value: bool) -> Value {
        arbitrary()
    }
}

/// Whatever can be written is a valid payload: what [`Value::from_structured`] makes passes
/// [`Value::new`].
pub proof fn law_structured_payload_valid(m: StructuredModel)
    ensures
        encoded(m) matches Ok(b) ==> payload_fault(ValueKind::Structured, b) is None,
{
    roundtrip::law_encode_decode(m);
}

/// A structured value read back from the value made of it is the same value, its dicts in
/// key order.
pub proof fn law_structured_value_roundtrip(m: StructuredModel)
    ensures
        encoded(m) matches Ok(b) ==> structured_of(
            ValueModel { kind: ValueKind::Structured, bytes: b },
        ) == Ok::<_, ErrorModel>(codec::canonical(m)),
{
    roundtrip::law_encode_decode(m);
}

/// A payload is accepted exactly where a value of that kind is written so: any bytes; the bytes of a
/// text; eight bytes for a number; zero or one for a bool; nothing for a null; the written form of a
/// structured value.
pub proof fn law_payload(bytes: Seq<u8>)
    ensures
        payload_fault(ValueKind::Binary, bytes) is None,
        payload_fault(ValueKind::Utf8, bytes) is None <==> exists|s: Seq<char>|
            bytes == #[trigger] encode_utf8(s),
        payload_fault(ValueKind::Integer, bytes) is None <==> bytes.len() == 8,
        payload_fault(ValueKind::UnsignedInteger, bytes) is None <==> bytes.len() == 8,
        payload_fault(ValueKind::Float, bytes) is None <==> bytes.len() == 8,
        payload_fault(ValueKind::Bool, bytes) is None <==> bytes == seq![0u8] || bytes == seq![1u8],
        payload_fault(ValueKind::Null, bytes) is None <==> bytes == Seq::<u8>::empty(),
        payload_fault(ValueKind::Structured, bytes) is None <==> decoded(bytes) is Ok,
        forall|kind: ValueKind|
            #[trigger] payload_fault(kind, bytes) matches Some(e) ==> e is InvalidValue,
{
    if valid_utf8(bytes) {
        vstd::utf8::decode_utf8_encode_utf8(bytes);
        assert(bytes == encode_utf8(vstd::utf8::decode_utf8(bytes)));
    }
    if exists|s: Seq<char>| bytes == #[trigger] encode_utf8(s) {
        let s = choose|s: Seq<char>| bytes == #[trigger] encode_utf8(s);
        vstd::utf8::encode_utf8_valid_utf8(s);
    }
    if bytes.len() == 1 {
        assert(bytes =~= seq![bytes[0]]);
    }
    if bytes.len() == 0 {
        assert(bytes =~= Seq::empty());
    }
}

/// Only a structured value has a structured form: what its payload reads as. Any other kind is an
/// invalid value.
pub proof fn law_structured_of(value: ValueModel)
    ensures
        value.kind == ValueKind::Structured ==> structured_of(value) == decoded(value.bytes),
        value.kind != ValueKind::Structured ==> (structured_of(value) matches Err(e)
            && e is InvalidValue),
{
}

} // verus!
