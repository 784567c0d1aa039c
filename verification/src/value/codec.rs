//! The byte format of structured values.
//!
//! A header of four bytes is followed by one value. A value is a tag byte and its payload:
//! numbers as eight little-endian bytes, texts, bytes and containers behind a four-byte
//! length. A dict is written in the order of its keys.

use crate::bytes::{
    bits_signed, from_bits, le_bytes, le_value, lemma_byte_range, lemma_le_value_bytes, read_le,
    signed_bits, to_bits, write_le,
};
use crate::error::{Error, ErrorModel, Outcome, Result};
use crate::ordered::{
    arranged, dict_keys, entry_keys, key_sort, lemma_key_sort_indices, sorted_order, KeyMap,
};
use crate::text::{
    append_bytes, concat, decimal, decimal_string, str_eq, utf8_error_text, utf8_string,
};
use crate::value::roundtrip::{distinct_keys, law_parsed_value};
use crate::value::structured::{
    dict_model, lemma_dict_model, lemma_list_model, list_model, StructuredModel, StructuredValue,
};
use vstd::prelude::*;
#[allow(unused_imports)]
use vstd::string::*;
use vstd::utf8::{decode_utf8, encode_utf8, encode_utf8_decode_utf8, valid_utf8};

verus! {

const TAG_NULL: u8 = 0;

const TAG_FALSE: u8 = 1;

const TAG_TRUE: u8 = 2;

const TAG_INT: u8 = 3;

const TAG_FLOAT: u8 = 4;

const TAG_STR: u8 = 5;

const TAG_BYTES: u8 = 6;

const TAG_LIST: u8 = 7;

const TAG_DICT: u8 = 8;

const TAG_UINT: u8 = 9;

/// The header of every structured value: `OKV1`.
pub open spec fn structured_magic() -> Seq<u8> {
    seq![79u8, 75u8, 86u8, 49u8]
}

/// The largest length that the format can hold.
pub open spec fn max_len() -> nat {
    0xffff_ffff
}

/// A length as the format holds it, before the bytes it counts.
pub open spec fn wire_chunk(bytes: Seq<u8>) -> Seq<u8> {
    le_bytes(bytes.len(), 4) + bytes
}

/// A value's tag and payload, with the entries of each dict in the order given.
pub open spec fn wire(m: StructuredModel) -> Seq<u8>
    decreases m,
{
    match m {
        StructuredModel::Null => seq![0u8],
        StructuredModel::Bool(false) => seq![1u8],
        StructuredModel::Bool(true) => seq![2u8],
        StructuredModel::Integer(n) => seq![3u8] + le_bytes(signed_bits(n), 8),
        StructuredModel::Float(bits) => seq![4u8] + le_bytes(bits as nat, 8),
        StructuredModel::String(s) => seq![5u8] + wire_chunk(encode_utf8(s)),
        StructuredModel::Bytes(b) => seq![6u8] + wire_chunk(b),
        StructuredModel::List(items) => seq![7u8] + le_bytes(items.len(), 4) + wire_items(items),
        StructuredModel::Dict(entries) => seq![8u8] + le_bytes(entries.len(), 4) + wire_entries(
            entries,
        ),
        StructuredModel::UnsignedInteger(n) => seq![9u8] + le_bytes(n as nat, 8),
    }
}

/// The items of a list, one behind the other.
pub open spec fn wire_items(items: Seq<StructuredModel>) -> Seq<u8>
    decreases items,
{
    if items.len() == 0 {
        Seq::empty()
    } else {
        wire_items(items.drop_last()) + wire(items.last())
    }
}

/// The entries of a dict, each a key and a value, one behind the other.
pub open spec fn wire_entries(entries: Seq<(Seq<char>, StructuredModel)>) -> Seq<u8>
    decreases entries,
{
    if entries.len() == 0 {
        Seq::empty()
    } else {
        wire_entries(entries.drop_last()) + wire_chunk(encode_utf8(entries.last().0)) + wire(
            entries.last().1,
        )
    }
}

/// The same value with the entries of every dict in the order of their keys.
pub open spec fn canonical(m: StructuredModel) -> StructuredModel
    decreases m,
{
    match m {
        StructuredModel::List(items) => StructuredModel::List(canonical_items(items)),
        StructuredModel::Dict(entries) => StructuredModel::Dict(
            arranged(canonical_entries(entries)),
        ),
        _ => m,
    }
}

/// The canonical forms of a list's items.
pub open spec fn canonical_items(items: Seq<StructuredModel>) -> Seq<StructuredModel>
    decreases items,
{
    if items.len() == 0 {
        Seq::empty()
    } else {
        canonical_items(items.drop_last()).push(canonical(items.last()))
    }
}

/// A dict's entries with canonical values, in the order given.
pub open spec fn canonical_entries(entries: Seq<(Seq<char>, StructuredModel)>) -> Seq<
    (Seq<char>, StructuredModel),
>
    decreases entries,
{
    if entries.len() == 0 {
        Seq::empty()
    } else {
        canonical_entries(entries.drop_last()).push(
            (entries.last().0, canonical(entries.last().1)),
        )
    }
}

/// The error for a length that the format cannot hold.
pub open spec fn too_large() -> ErrorModel {
    ErrorModel::Serialization("structured value is too large"@)
}

/// The first reason, in writing order, why a value cannot be written.
pub open spec fn fault(m: StructuredModel) -> Option<ErrorModel>
    decreases m,
{
    match m {
        StructuredModel::String(s) => if encode_utf8(s).len() > max_len() {
            Some(too_large())
        } else {
            None
        },
        StructuredModel::Bytes(b) => if b.len() > max_len() {
            Some(too_large())
        } else {
            None
        },
        StructuredModel::List(items) => if items.len() > max_len() {
            Some(too_large())
        } else {
            items_fault(items)
        },
        StructuredModel::Dict(entries) => if entries.len() > max_len() {
            Some(too_large())
        } else {
            dict_fault(
                dict_keys(entries),
                entry_faults(entries),
                key_sort(dict_keys(entries)),
                entries.len(),
            )
        },
        _ => None,
    }
}

/// The first fault among a list's items.
pub open spec fn items_fault(items: Seq<StructuredModel>) -> Option<ErrorModel>
    decreases items,
{
    if items.len() == 0 {
        None
    } else {
        match items_fault(items.drop_last()) {
            Some(e) => Some(e),
            None => fault(items.last()),
        }
    }
}

/// The fault of each entry's value.
pub open spec fn entry_faults(entries: Seq<(Seq<char>, StructuredModel)>) -> Seq<
    Option<ErrorModel>,
>
    decreases entries,
{
    if entries.len() == 0 {
        Seq::empty()
    } else {
        entry_faults(entries.drop_last()).push(fault(entries.last().1))
    }
}

/// The first fault among the first `k` entries in key order.
pub open spec fn dict_fault(
    keys: Seq<Seq<char>>,
    faults: Seq<Option<ErrorModel>>,
    order: Seq<int>,
    k: nat,
) -> Option<ErrorModel>
    decreases k,
{
    if k == 0 {
        None
    } else {
        match dict_fault(keys, faults, order, (k - 1) as nat) {
            Some(e) => Some(e),
            None => {
                let i = order[k - 1];
                if k >= 2 && keys[order[k - 2]] == keys[i] {
                    Some(
                        ErrorModel::Serialization("duplicate structured dict key: "@ + keys[i]),
                    )
                } else if encode_utf8(keys[i]).len() > max_len() {
                    Some(too_large())
                } else {
                    faults[i]
                }
            },
        }
    }
}

/// What writing a value gives.
pub open spec fn encoded(m: StructuredModel) -> Outcome<Seq<u8>> {
    match fault(m) {
        Some(e) => Err(e),
        None => Ok(structured_magic() + wire(canonical(m))),
    }
}

/// The error for input that ends too early.
pub open spec fn truncated() -> ErrorModel {
    ErrorModel::Deserialization("truncated structured value"@)
}

/// The counted bytes at the start of `b`, and what follows them.
pub open spec fn parse_chunk(b: Seq<u8>) -> Outcome<(Seq<u8>, Seq<u8>)> {
    if b.len() < 4 || b.len() < 4 + le_value(b.take(4)) {
        Err(truncated())
    } else {
        let n = le_value(b.take(4)) as int;
        Ok((b.subrange(4, 4 + n), b.skip(4 + n)))
    }
}

/// The value at the start of `b`, and what follows it.
pub open spec fn parse_value(b: Seq<u8>) -> Outcome<(StructuredModel, Seq<u8>)>
    decreases b.len(), 0nat,
{
    if b.len() == 0 {
        Err(truncated())
    } else {
        let tag = b[0];
        let r = b.skip(1);
        if tag == 0 {
            Ok((StructuredModel::Null, r))
        } else if tag == 1 {
            Ok((StructuredModel::Bool(false), r))
        } else if tag == 2 {
            Ok((StructuredModel::Bool(true), r))
        } else if tag == 3 || tag == 4 || tag == 9 {
            if r.len() < 8 {
                Err(truncated())
            } else {
                let n = le_value(r.take(8));
                let m = if tag == 3 {
                    StructuredModel::Integer(bits_signed(n) as i64)
                } else if tag == 4 {
                    StructuredModel::Float(n as u64)
                } else {
                    StructuredModel::UnsignedInteger(n as u64)
                };
                Ok((m, r.skip(8)))
            }
        } else if tag == 5 {
            match parse_chunk(r) {
                Err(e) => Err(e),
                Ok((text, rest)) => if valid_utf8(text) {
                    Ok((StructuredModel::String(decode_utf8(text)), rest))
                } else {
                    Err(
                        ErrorModel::Deserialization(
                            "invalid structured UTF-8: "@ + utf8_error_text(text),
                        ),
                    )
                },
            }
        } else if tag == 6 {
            match parse_chunk(r) {
                Err(e) => Err(e),
                Ok((bytes, rest)) => Ok((StructuredModel::Bytes(bytes), rest)),
            }
        } else if tag == 7 || tag == 8 {
            if r.len() < 4 {
                Err(truncated())
            } else if tag == 7 {
                match parse_items(r.skip(4), le_value(r.take(4))) {
                    Err(e) => Err(e),
                    Ok((items, rest)) => Ok((StructuredModel::List(items), rest)),
                }
            } else {
                match parse_entries(r.skip(4), le_value(r.take(4)), Set::empty()) {
                    Err(e) => Err(e),
                    Ok((entries, rest)) => Ok((StructuredModel::Dict(entries), rest)),
                }
            }
        } else {
            Err(
                ErrorModel::Deserialization(
                    "unknown structured value tag: "@ + decimal(tag as nat),
                ),
            )
        }
    }
}

/// The `n` values at the start of `b`, and what follows them.
///
/// A value takes at least one byte, so what follows it is always shorter.
pub open spec fn parse_items(b: Seq<u8>, n: nat) -> Outcome<(Seq<StructuredModel>, Seq<u8>)>
    decreases b.len(), 1nat,
{
    if n == 0 {
        Ok((Seq::empty(), b))
    } else {
        match parse_value(b) {
            Err(e) => Err(e),
            Ok((m, rest)) => if rest.len() < b.len() {
                match parse_items(rest, (n - 1) as nat) {
                    Err(e) => Err(e),
                    Ok((more, end)) => Ok((seq![m] + more, end)),
                }
            } else {
                Err(truncated())
            },
        }
    }
}

/// The `n` dict entries at the start of `b`, none with a key of `seen`, and what follows them.
pub open spec fn parse_entries(b: Seq<u8>, n: nat, seen: Set<Seq<char>>) -> Outcome<
    (Seq<(Seq<char>, StructuredModel)>, Seq<u8>),
>
    decreases b.len(), 1nat,
{
    if n == 0 {
        Ok((Seq::empty(), b))
    } else {
        match parse_chunk(b) {
            Err(e) => Err(e),
            Ok((key_bytes, r)) => if !valid_utf8(key_bytes) {
                Err(
                    ErrorModel::Deserialization(
                        "invalid structured dict key: "@ + utf8_error_text(key_bytes),
                    ),
                )
            } else if seen.contains(decode_utf8(key_bytes)) {
                Err(
                    ErrorModel::Deserialization(
                        "duplicate structured dict key: "@ + decode_utf8(key_bytes),
                    ),
                )
            } else {
                match parse_value(r) {
                    Err(e) => Err(e),
                    Ok((m, rest)) => if rest.len() < b.len() {
                        let key = decode_utf8(key_bytes);
                        match parse_entries(rest, (n - 1) as nat, seen.insert(key)) {
                            Err(e) => Err(e),
                            Ok((more, end)) => Ok((seq![(key, m)] + more, end)),
                        }
                    } else {
                        Err(truncated())
                    },
                }
            },
        }
    }
}

/// What reading bytes gives.
pub open spec fn decoded(b: Seq<u8>) -> Outcome<StructuredModel> {
    if !structured_magic().is_prefix_of(b) {
        Err(ErrorModel::Deserialization("invalid structured value header"@))
    } else {
        match parse_value(b.skip(4)) {
            Err(e) => Err(e),
            Ok((m, rest)) => if rest.len() != 0 {
                Err(ErrorModel::Deserialization("trailing bytes in structured value"@))
            } else {
                Ok(m)
            },
        }
    }
}

proof fn lemma_items_fault_prefix(items: Seq<StructuredModel>, k: int)
    requires
        0 <= k <= items.len(),
        items_fault(items.take(k)) is Some,
    ensures
        items_fault(items) == items_fault(items.take(k)),
    decreases items.len() - k,
{
    if k == items.len() {
        assert(items.take(k) =~= items);
    } else {
        assert(items.take(k + 1).drop_last() =~= items.take(k));
        lemma_items_fault_prefix(items, k + 1);
    }
}

proof fn lemma_dict_fault_prefix(
    keys: Seq<Seq<char>>,
    faults: Seq<Option<ErrorModel>>,
    order: Seq<int>,
    k: nat,
    n: nat,
)
    requires
        k <= n,
        dict_fault(keys, faults, order, k) is Some,
    ensures
        dict_fault(keys, faults, order, n) == dict_fault(keys, faults, order, k),
    decreases n - k,
{
    if k < n {
        lemma_dict_fault_prefix(keys, faults, order, k, (n - 1) as nat);
    }
}

pub proof fn lemma_canonical_entries(entries: Seq<(Seq<char>, StructuredModel)>)
    ensures
        canonical_entries(entries).len() == entries.len(),
        forall|i: int|
            0 <= i < entries.len() ==> #[trigger] canonical_entries(entries)[i] == (
                entries[i].0,
                canonical(entries[i].1),
            ),
        dict_keys(canonical_entries(entries)) =~= dict_keys(entries),
    decreases entries.len(),
{
    if entries.len() > 0 {
        lemma_canonical_entries(entries.drop_last());
    }
}

pub proof fn lemma_entry_faults(entries: Seq<(Seq<char>, StructuredModel)>)
    ensures
        entry_faults(entries).len() == entries.len(),
        forall|i: int|
            0 <= i < entries.len() ==> #[trigger] entry_faults(entries)[i] == fault(entries[i].1),
    decreases entries.len(),
{
    if entries.len() > 0 {
        lemma_entry_faults(entries.drop_last());
    }
}

/// Appends a length in four bytes.
pub fn write_len(out: &mut Vec<u8>, len: usize) -> (result: Result<()>)
    ensures
        match result {
            Ok(_) => len <= max_len() && final(out)@ == old(out)@ + le_bytes(len as nat, 4),
            Err(e) => len > max_len() && e@ == too_large() && final(out)@ == old(out)@,
        },
{
    if len as u64 > 0xffff_ffff {
        return Err(Error::Serialization("structured value is too large".to_owned()));
    }
    write_le(out, len as u64, 4);
    Ok(())
}

/// Appends a value's tag and payload; what was there before stays in front, also where the value
/// cannot be written.
#[verifier::rlimit(40)]
pub fn encode_value(value: &StructuredValue, out: &mut Vec<u8>) -> (result: Result<()>)
    ensures
        old(out)@.is_prefix_of(final(out)@),
        match result {
            Ok(_) => {
                &&& fault(value.model()) is None
                &&& final(out)@ == old(out)@ + wire(canonical(value.model()))
                &&& encoded(value.model()) matches Ok(whole) && final(out)@ == old(out)@
                    + whole.skip(4)
            },
            Err(e) => fault(value.model()) == Some(e@) && encoded(value.model()) == Err::<
                Seq<u8>,
                _,
            >(e@),
        },
    decreases value,
{
    let ghost start = out@;
    let ghost m = value.model();
    proof {
        law_encoded_wire(m);
    }
    match value {
        StructuredValue::Null => {
            out.push(TAG_NULL);
            assert(out@ =~= start + wire(m));
        },
        StructuredValue::Bool(b) => {
            out.push(
                if *b {
                    TAG_TRUE
                } else {
                    TAG_FALSE
                },
            );
            assert(out@ =~= start + wire(m));
        },
        StructuredValue::Integer(n) => {
            out.push(TAG_INT);
            write_le(out, to_bits(*n), 8);
            assert(out@ =~= start + wire(m));
        },
        StructuredValue::UnsignedInteger(n) => {
            out.push(TAG_UINT);
            write_le(out, *n, 8);
            assert(out@ =~= start + wire(m));
        },
        StructuredValue::Float(bits) => {
            out.push(TAG_FLOAT);
            write_le(out, *bits, 8);
            assert(out@ =~= start + wire(m));
        },
        StructuredValue::String(text) => {
            out.push(TAG_STR);
            let bytes = text.as_str().as_bytes();
            write_len(out, bytes.len())?;
            append_bytes(out, bytes);
            assert(out@ =~= start + wire(m));
        },
        StructuredValue::Bytes(bytes) => {
            out.push(TAG_BYTES);
            write_len(out, bytes.len())?;
            append_bytes(out, bytes.as_slice());
            assert(out@ =~= start + wire(m));
        },
        StructuredValue::List(items) => {
            out.push(TAG_LIST);
            proof {
                lemma_list_model(items@);
            }
            write_len(out, items.len())?;
            let ghost head = out@;
            let ghost models = list_model(items@);
            proof {
                assert(models.take(0) =~= Seq::empty());
                assert(head =~= head + wire_items(canonical_items(models.take(0))));
                assert(items_fault(models.take(0)) is None);
            }
            let mut i: usize = 0;
            while i < items.len()
                invariant
                    i <= items@.len(),
                    models == list_model(items@),
                    models.len() == items@.len(),
                    forall|j: int|
                        0 <= j < items@.len() ==> #[trigger] models[j] == items@[j].model(),
                    m == StructuredModel::List(models),
                    models.len() <= max_len(),
                    value == StructuredValue::List(*items),
                    items_fault(models.take(i as int)) is None,
                    start == old(out)@,
                    start.is_prefix_of(head),
                    out@ == head + wire_items(canonical_items(models.take(i as int))),
                decreases items@.len() - i,
            {
                let ghost before = out@;
                proof {
                    assert(models.take(i + 1).drop_last() =~= models.take(i as int));
                    assert(models.take(i + 1).last() == items@[i as int].model());
                    assert(decreases_to!(value => items@[i as int]));
                }
                match encode_value(&items[i], out) {
                    Ok(_) => {},
                    Err(e) => {
                        proof {
                            lemma_items_fault_prefix(models, i + 1);
                        }
                        return Err(e);
                    },
                }
                proof {
                    let now = canonical_items(models.take(i + 1));
                    assert(now.drop_last() =~= canonical_items(models.take(i as int)));
                    assert(out@ =~= head + wire_items(now));
                }
                i += 1;
            }
            proof {
                assert(models.take(i as int) =~= models);
                lemma_canonical_items(models);
                assert(out@ =~= start + wire(canonical(m)));
            }
        },
        StructuredValue::Dict(entries) => {
            out.push(TAG_DICT);
            proof {
                lemma_dict_model(entries@);
            }
            write_len(out, entries.len())?;
            let ghost head = out@;
            let ghost models = dict_model(entries@);
            let ghost keys = dict_keys(models);
            let ghost faults = entry_faults(models);
            let ghost order_spec = key_sort(keys);
            let ghost sorted = arranged(canonical_entries(models));
            let order = sorted_order(entries);
            proof {
                lemma_canonical_entries(models);
                lemma_entry_faults(models);
                assert(entry_keys(entries@) =~= keys);
                lemma_key_sort_indices(keys, keys.len());
                assert(sorted.len() == entries@.len());
                assert(sorted.take(0) =~= Seq::empty());
                assert(head =~= head + wire_entries(sorted.take(0)));
            }
            let mut k: usize = 0;
            while k < order.len()
                invariant
                    k <= order@.len(),
                    order@.len() == entries@.len(),
                    order@.map_values(|i: usize| i as int) == order_spec,
                    forall|a: int| 0 <= a < order@.len() ==> #[trigger] order@[a] < entries@.len(),
                    models == dict_model(entries@),
                    models.len() == entries@.len(),
                    forall|j: int|
                        0 <= j < entries@.len() ==> #[trigger] models[j] == (
                            entries@[j].0@,
                            entries@[j].1.model(),
                        ),
                    keys == dict_keys(models),
                    order_spec == key_sort(keys),
                    faults == entry_faults(models),
                    faults.len() == models.len(),
                    forall|j: int|
                        0 <= j < models.len() ==> #[trigger] faults[j] == fault(models[j].1),
                    canonical_entries(models).len() == models.len(),
                    forall|j: int|
                        0 <= j < models.len() ==> #[trigger] canonical_entries(models)[j] == (
                            models[j].0,
                            canonical(models[j].1),
                        ),
                    dict_keys(canonical_entries(models)) == keys,
                    sorted == arranged(canonical_entries(models)),
                    sorted.len() == entries@.len(),
                    m == StructuredModel::Dict(models),
                    models.len() <= max_len(),
                    value == StructuredValue::Dict(*entries),
                    dict_fault(keys, faults, order_spec, k as nat) is None,
                    start == old(out)@,
                    start.is_prefix_of(head),
                    out@ == head + wire_entries(sorted.take(k as int)),
                decreases order@.len() - k,
            {
                let i: usize = order[k];
                let ghost idx = order_spec[k as int];
                proof {
                    assert(idx == i as int);
                    assert(keys[idx] == entries@[idx].0@);
                    assert(sorted[k as int] == (entries@[idx].0@, canonical(models[idx].1)));
                    assert(sorted.take(k + 1).drop_last() =~= sorted.take(k as int));
                    assert(sorted.take(k + 1).last() == sorted[k as int]);
                    assert(decreases_to!(value => entries@[idx].1));
                    if dict_fault(keys, faults, order_spec, (k + 1) as nat) is Some {
                        lemma_dict_fault_prefix(
                            keys,
                            faults,
                            order_spec,
                            (k + 1) as nat,
                            models.len(),
                        );
                    }
                }
                let key = entries[i].0.as_str();
                if k > 0 {
                    let p: usize = order[k - 1];
                    proof {
                        assert(order_spec[k - 1] == p as int);
                        assert(keys[p as int] == entries@[p as int].0@);
                    }
                    if str_eq(entries[p].0.as_str(), key) {
                        return Err(
                            Error::Serialization(concat("duplicate structured dict key: ", key)),
                        );
                    }
                }
                let ghost before = out@;
                let bytes = key.as_bytes();
                write_len(out, bytes.len())?;
                append_bytes(out, bytes);
                encode_value(&entries[i].1, out)?;
                proof {
                    assert(out@ =~= before + wire_chunk(encode_utf8(keys[idx])) + wire(
                        canonical(models[idx].1),
                    ));
                    assert(out@ =~= head + wire_entries(sorted.take(k + 1)));
                }
                k += 1;
            }
            proof {
                assert(sorted.take(k as int) =~= sorted);
                assert(out@ =~= start + wire(canonical(m)));
            }
        },
    }
    Ok(())
}

/// What is written of a value is the header and then its tag and payload, which are the same
/// wherever the value stands.
pub proof fn law_encoded_wire(m: StructuredModel)
    ensures
        encoded(m) matches Ok(whole) ==> {
            &&& structured_magic().is_prefix_of(whole)
            &&& whole == structured_magic() + wire(canonical(m))
            &&& whole.skip(4) == wire(canonical(m))
        },
{
    if let Ok(whole) = encoded(m) {
        assert(whole.skip(4) =~= wire(canonical(m)));
    }
}

pub proof fn lemma_canonical_items(items: Seq<StructuredModel>)
    ensures
        canonical_items(items).len() == items.len(),
        forall|i: int|
            0 <= i < items.len() ==> #[trigger] canonical_items(items)[i] == canonical(items[i]),
    decreases items.len(),
{
    if items.len() > 0 {
        lemma_canonical_items(items.drop_last());
    }
}

/// Writes a structured value.
pub fn encode(value: &StructuredValue) -> (bytes: Result<Vec<u8>>)
    ensures
        match bytes {
            Ok(b) => encoded(value.model()) == Ok::<_, ErrorModel>(b@),
            Err(e) => encoded(value.model()) == Err::<Seq<u8>, _>(e@),
        },
{
    let mut out: Vec<u8> = Vec::new();
    out.push(79);
    out.push(75);
    out.push(86);
    out.push(49);
    assert(out@ =~= structured_magic());
    encode_value(value, &mut out)?;
    Ok(out)
}

/// A reading position in a byte slice.
pub struct Cursor<'a> {
    pub bytes: &'a [u8],
    pub pos: usize,
}

impl<'a> Cursor<'a> {
    pub open spec fn wf(&self) -> bool {
        self.pos <= self.bytes@.len()
    }

    /// What is left to read.
    pub open spec fn rest(&self) -> Seq<u8> {
        self.bytes@.skip(self.pos as int)
    }

    /// Whether `self` is `before`, moved forward.
    pub open spec fn follows(&self, before: Self) -> bool {
        self.bytes == before.bytes && before.pos <= self.pos && self.wf()
    }

    pub fn new(bytes: &'a [u8]) -> (cursor: Self)
        ensures
            cursor.wf(),
            cursor.bytes == bytes,
            cursor.pos == 0,
            cursor.rest() == bytes@,
    {
        let cursor = Cursor { bytes, pos: 0 };
        assert(cursor.rest() =~= bytes@);
        cursor
    }

    pub fn remaining(&self) -> (n: usize)
        requires
            self.wf(),
        ensures
            n == self.rest().len(),
    {
        self.bytes.len() - self.pos
    }

    pub fn read_bytes(&mut self, len: usize) -> (bytes: Result<&'a [u8]>)
        requires
            old(self).wf(),
        ensures
            final(self).follows(*old(self)),
            match bytes {
                Ok(b) => {
                    &&& len <= old(self).rest().len()
                    &&& b@ == old(self).rest().take(len as int)
                    &&& final(self).rest() == old(self).rest().skip(len as int)
                    &&& final(self).pos == old(self).pos + len
                },
                Err(e) => old(self).rest().len() < len && e@ == truncated() && *final(self) == *old(
                    self,
                ),
            },
    {
        let total: usize = self.bytes.len();
        if len > total - self.pos {
            return Err(Error::Deserialization("truncated structured value".to_owned()));
        }
        let end: usize = self.pos + len;
        let bytes = vstd::slice::slice_subrange(self.bytes, self.pos, end);
        let ghost before = self.rest();
        self.pos = end;
        proof {
            assert(bytes@ =~= before.take(len as int));
            assert(self.rest() =~= before.skip(len as int));
        }
        Ok(bytes)
    }

    pub fn read_u8(&mut self) -> (byte: Result<u8>)
        requires
            old(self).wf(),
        ensures
            final(self).follows(*old(self)),
            match byte {
                Ok(b) => {
                    &&& old(self).rest().len() > 0
                    &&& b == old(self).rest()[0]
                    &&& final(self).rest() == old(self).rest().skip(1)
                    &&& final(self).pos == old(self).pos + 1
                },
                Err(e) => old(self).rest().len() == 0 && e@ == truncated() && *final(self) == *old(
                    self,
                ),
            },
    {
        let bytes = self.read_bytes(1)?;
        Ok(bytes[0])
    }

    pub fn read_u64(&mut self) -> (number: Result<u64>)
        requires
            old(self).wf(),
        ensures
            final(self).follows(*old(self)),
            match number {
                Ok(n) => {
                    &&& old(self).rest().len() >= 8
                    &&& n == le_value(old(self).rest().take(8))
                    &&& final(self).rest() == old(self).rest().skip(8)
                    &&& final(self).pos == old(self).pos + 8
                },
                Err(e) => old(self).rest().len() < 8 && e@ == truncated() && *final(self) == *old(
                    self,
                ),
            },
    {
        let bytes = self.read_bytes(8)?;
        assert(bytes@.subrange(0, 8) =~= bytes@);
        Ok(read_le(bytes, 0, 8))
    }

    pub fn read_len(&mut self) -> (len: Result<usize>)
        requires
            old(self).wf(),
        ensures
            final(self).follows(*old(self)),
            match len {
                Ok(n) => {
                    &&& old(self).rest().len() >= 4
                    &&& n == le_value(old(self).rest().take(4))
                    &&& final(self).rest() == old(self).rest().skip(4)
                    &&& final(self).pos == old(self).pos + 4
                },
                Err(e) => old(self).rest().len() < 4 && e@ == truncated() && *final(self) == *old(
                    self,
                ),
            },
    {
        let bytes = self.read_bytes(4)?;
        assert(bytes@.subrange(0, 4) =~= bytes@);
        let n: u64 = read_le(bytes, 0, 4);
        proof {
            lemma_le_value_bytes(bytes@);
            lemma_byte_range();
        }
        Ok(n as usize)
    }

    /// The counted bytes that come next.
    pub fn read_chunk(&mut self) -> (chunk: Result<&'a [u8]>)
        requires
            old(self).wf(),
        ensures
            final(self).follows(*old(self)),
            match chunk {
                Ok(b) => parse_chunk(old(self).rest()) == Ok::<_, ErrorModel>(
                    (b@, final(self).rest()),
                ) && final(self).pos >= old(self).pos + 4,
                Err(e) => parse_chunk(old(self).rest()) == Err::<(Seq<u8>, Seq<u8>), _>(e@)
                    && final(self).pos == old(self).pos + if old(self).rest().len() < 4 {
                    0int
                } else {
                    4int
                },
            },
    {
        let ghost before = self.rest();
        let n: usize = self.read_len()?;
        let chunk = self.read_bytes(n)?;
        proof {
            assert(chunk@ =~= before.subrange(4, 4 + n));
            assert(self.rest() =~= before.skip(4 + n));
        }
        Ok(chunk)
    }
}

/// The text that UTF-8 bytes hold, or the reason why they hold none.
fn text_of(bytes: &[u8], label: &str) -> (text: Result<String>)
    ensures
        match text {
            Ok(t) => valid_utf8(bytes@) && t@ == decode_utf8(bytes@),
            Err(e) => !valid_utf8(bytes@) && e@ == ErrorModel::Deserialization(
                label@ + utf8_error_text(bytes@),
            ),
        },
{
    match utf8_string(vstd::slice::slice_to_vec(bytes)) {
        Ok(text) => {
            proof {
                encode_utf8_decode_utf8(text@);
            }
            Ok(text)
        },
        Err(message) => Err(Error::Deserialization(concat(label, message.as_str()))),
    }
}

/// Reads one value, and just the bytes that writing it again would take.
pub fn decode_value(cursor: &mut Cursor<'_>) -> (value: Result<StructuredValue>)
    requires
        old(cursor).wf(),
    ensures
        final(cursor).follows(*old(cursor)),
        match value {
            Ok(v) => {
                &&& parse_value(old(cursor).rest()) == Ok::<_, ErrorModel>(
                    (v.model(), final(cursor).rest()),
                )
                &&& distinct_keys(v.model())
                &&& final(cursor).pos > old(cursor).pos
                &&& encoded(v.model()) matches Ok(again) && final(cursor).pos == old(cursor).pos
                    + again.len() - 4
            },
            Err(e) => parse_value(old(cursor).rest()) == Err::<(StructuredModel, Seq<u8>), _>(e@)
                && e@ is Deserialization,
        },
    decreases old(cursor).bytes@.len() - old(cursor).pos,
{
    let ghost b = cursor.rest();
    let ghost start = cursor.pos;
    let ghost bytes = cursor.bytes;
    proof {
        law_parsed_value(b);
    }
    let tag: u8 = cursor.read_u8()?;
    if tag == TAG_NULL {
        Ok(StructuredValue::Null)
    } else if tag == TAG_FALSE {
        Ok(StructuredValue::Bool(false))
    } else if tag == TAG_TRUE {
        Ok(StructuredValue::Bool(true))
    } else if tag == TAG_INT {
        let n: u64 = cursor.read_u64()?;
        Ok(StructuredValue::Integer(from_bits(n)))
    } else if tag == TAG_UINT {
        let n: u64 = cursor.read_u64()?;
        Ok(StructuredValue::UnsignedInteger(n))
    } else if tag == TAG_FLOAT {
        let n: u64 = cursor.read_u64()?;
        Ok(StructuredValue::Float(n))
    } else if tag == TAG_STR {
        let chunk = cursor.read_chunk()?;
        let text = text_of(chunk, "invalid structured UTF-8: ")?;
        Ok(StructuredValue::String(text))
    } else if tag == TAG_BYTES {
        let chunk = cursor.read_chunk()?;
        Ok(StructuredValue::Bytes(vstd::slice::slice_to_vec(chunk)))
    } else if tag == TAG_LIST {
        let len: usize = cursor.read_len()?;
        let ghost r = cursor.rest();
        let mut items: Vec<StructuredValue> = Vec::new();
        let mut i: usize = 0;
        proof {
            assert(list_model(items@) =~= Seq::empty());
            lemma_prepend_nothing(parse_items(r, len as nat));
            assert(parse_value(b) == as_list(parse_items(r, len as nat)));
        }
        while i < len
            invariant
                i <= len,
                cursor.wf(),
                cursor.bytes == bytes,
                cursor.pos > start,
                *old(cursor) == (Cursor { bytes, pos: start }),
                items@.len() == i,
                b == old(cursor).rest(),
                parse_value(b) == as_list(parse_items(r, len as nat)),
                parse_items(r, len as nat) == prepend(
                    list_model(items@),
                    parse_items(cursor.rest(), (len - i) as nat),
                ),
            decreases len - i,
        {
            let ghost before = items@;
            let ghost from = cursor.rest();
            let ghost left = (len - i) as nat;
            let item = match decode_value(cursor) {
                Ok(item) => item,
                Err(e) => {
                    return Err(e);
                },
            };
            items.push(item);
            i += 1;
            proof {
                assert(items@.drop_last() =~= before);
                lemma_prepend_one(
                    list_model(before),
                    item.model(),
                    parse_items(cursor.rest(), (left - 1) as nat),
                );
            }
        }
        proof {
            assert(list_model(items@) + Seq::empty() =~= list_model(items@));
        }
        Ok(StructuredValue::List(items))
    } else if tag == TAG_DICT {
        let len: usize = cursor.read_len()?;
        let ghost r = cursor.rest();
        let mut entries: Vec<(String, StructuredValue)> = Vec::new();
        let mut seen: KeyMap<()> = KeyMap::new();
        let mut i: usize = 0;
        proof {
            assert(dict_model(entries@) =~= Seq::empty());
            assert(seen@.dom() =~= Set::empty());
            lemma_prepend_nothing(parse_entries(r, len as nat, Set::empty()));
            assert(parse_value(b) == as_dict(parse_entries(r, len as nat, Set::empty())));
        }
        while i < len
            invariant
                i <= len,
                cursor.wf(),
                cursor.bytes == bytes,
                cursor.pos > start,
                *old(cursor) == (Cursor { bytes, pos: start }),
                seen.wf(),
                entries@.len() == i,
                b == old(cursor).rest(),
                parse_value(b) == as_dict(parse_entries(r, len as nat, Set::empty())),
                parse_entries(r, len as nat, Set::empty()) == prepend(
                    dict_model(entries@),
                    parse_entries(cursor.rest(), (len - i) as nat, seen@.dom()),
                ),
            decreases len - i,
        {
            let ghost before = entries@;
            let ghost left = (len - i) as nat;
            let ghost known = seen@.dom();
            let chunk = match cursor.read_chunk() {
                Ok(chunk) => chunk,
                Err(e) => {
                    return Err(e);
                },
            };
            let key = match text_of(chunk, "invalid structured dict key: ") {
                Ok(key) => key,
                Err(e) => {
                    return Err(e);
                },
            };
            if !seen.insert(key.clone(), ()) {
                return Err(
                    Error::Deserialization(concat("duplicate structured dict key: ", key.as_str())),
                );
            }
            let item = match decode_value(cursor) {
                Ok(item) => item,
                Err(e) => {
                    return Err(e);
                },
            };
            let ghost k = key@;
            entries.push((key, item));
            i += 1;
            proof {
                assert(entries@.drop_last() =~= before);
                assert(seen@.dom() =~= known.insert(k));
                lemma_prepend_one(
                    dict_model(before),
                    (k, item.model()),
                    parse_entries(cursor.rest(), (left - 1) as nat, known.insert(k)),
                );
            }
        }
        proof {
            assert(dict_model(entries@) + Seq::empty() =~= dict_model(entries@));
        }
        Ok(StructuredValue::Dict(entries))
    } else {
        Err(
            Error::Deserialization(
                concat("unknown structured value tag: ", decimal_string(tag as u64).as_str()),
            ),
        )
    }
}

/// The list of the items read.
spec fn as_list(outcome: Outcome<(Seq<StructuredModel>, Seq<u8>)>) -> Outcome<
    (StructuredModel, Seq<u8>),
> {
    match outcome {
        Ok((items, rest)) => Ok((StructuredModel::List(items), rest)),
        Err(e) => Err(e),
    }
}

/// The dict of the entries read.
spec fn as_dict(outcome: Outcome<(Seq<(Seq<char>, StructuredModel)>, Seq<u8>)>) -> Outcome<
    (StructuredModel, Seq<u8>),
> {
    match outcome {
        Ok((entries, rest)) => Ok((StructuredModel::Dict(entries), rest)),
        Err(e) => Err(e),
    }
}

/// `outcome` with `front` put before what was read.
spec fn prepend<T>(front: Seq<T>, outcome: Outcome<(Seq<T>, Seq<u8>)>) -> Outcome<
    (Seq<T>, Seq<u8>),
> {
    match outcome {
        Ok((more, rest)) => Ok((front + more, rest)),
        Err(e) => Err(e),
    }
}

proof fn lemma_prepend_nothing<T>(outcome: Outcome<(Seq<T>, Seq<u8>)>)
    ensures
        prepend(Seq::empty(), outcome) == outcome,
{
    if let Ok((more, rest)) = outcome {
        assert(Seq::empty() + more =~= more);
    }
}

proof fn lemma_prepend_one<T>(front: Seq<T>, one: T, outcome: Outcome<(Seq<T>, Seq<u8>)>)
    ensures
        prepend(front, prepend(seq![one], outcome)) == prepend(front.push(one), outcome),
{
    if let Ok((more, rest)) = outcome {
        assert(front + (seq![one] + more) =~= front.push(one) + more);
    }
}

/// Reads a structured value.
pub fn decode(bytes: &[u8]) -> (value: Result<StructuredValue>)
    ensures
        match value {
            Ok(v) => decoded(bytes@) == Ok::<_, ErrorModel>(v.model()),
            Err(e) => decoded(bytes@) == Err::<StructuredModel, _>(e@),
        },
{
    if bytes.len() < 4 || bytes[0] != 79 || bytes[1] != 75 || bytes[2] != 86 || bytes[3] != 49 {
        return Err(Error::Deserialization("invalid structured value header".to_owned()));
    }
    assert(structured_magic().is_prefix_of(bytes@));
    let body = vstd::slice::slice_subrange(bytes, 4, bytes.len());
    assert(body@ =~= bytes@.skip(4));
    let mut cursor = Cursor::new(body);
    let value = decode_value(&mut cursor)?;
    if cursor.remaining() != 0 {
        return Err(Error::Deserialization("trailing bytes in structured value".to_owned()));
    }
    Ok(value)
}

} // verus!
