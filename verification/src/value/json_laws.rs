//! What becomes of each structured value in JSON, and of each JSON document as a value.

use crate::error::ErrorModel;
use crate::ordered::{arranged, dict_keys, key_lt, lemma_arranged};
use crate::value::json::{
    finite, json_entries, json_entries_fault, json_fault, json_items, json_items_fault, json_of,
    lemma_faultless_keys_distinct, lemma_json_entries, lemma_structured_entries,
    structured_entries, structured_items, structured_of_json, to_json_outcome, JsonModel,
    JsonNumber,
};
use crate::value::structured::StructuredModel;
use vstd::prelude::*;
#[allow(unused_imports)]
use vstd::string::*;

verus! {

/// Every null, bool, integer, unsigned integer and text has a JSON form of the same content.
pub proof fn law_plain_values_have_json(b: bool, i: i64, n: u64, s: Seq<char>)
    ensures
        to_json_outcome(StructuredModel::Null) == Ok::<_, ErrorModel>(JsonModel::Null),
        to_json_outcome(StructuredModel::Bool(b)) == Ok::<_, ErrorModel>(JsonModel::Bool(b)),
        i < 0 ==> to_json_outcome(StructuredModel::Integer(i)) == Ok::<_, ErrorModel>(
            JsonModel::Number(JsonNumber::Negative(i)),
        ),
        i >= 0 ==> to_json_outcome(StructuredModel::Integer(i)) == Ok::<_, ErrorModel>(
            JsonModel::Number(JsonNumber::Natural(i as u64)),
        ),
        to_json_outcome(StructuredModel::UnsignedInteger(n)) == Ok::<_, ErrorModel>(
            JsonModel::Number(JsonNumber::Natural(n)),
        ),
        to_json_outcome(StructuredModel::String(s)) == Ok::<_, ErrorModel>(JsonModel::String(s)),
{
}

/// A float is finite exactly where its pattern, the sign put aside, is below that of infinity.
pub proof fn law_finite(bits: u64)
    ensures
        finite(bits) <==> bits < 0x7ff0_0000_0000_0000 || 0x8000_0000_0000_0000 <= bits
            < 0xfff0_0000_0000_0000,
{
}

/// A finite float keeps its pattern in JSON; no other float, and no bytes, have a JSON form.
pub proof fn law_float_and_bytes_json(bits: u64, bytes: Seq<u8>)
    ensures
        bits < 0x7ff0_0000_0000_0000 || 0x8000_0000_0000_0000 <= bits < 0xfff0_0000_0000_0000
            ==> to_json_outcome(StructuredModel::Float(bits)) == Ok::<_, ErrorModel>(
            JsonModel::Number(JsonNumber::Float(bits)),
        ),
        !(bits < 0x7ff0_0000_0000_0000 || 0x8000_0000_0000_0000 <= bits < 0xfff0_0000_0000_0000)
            ==> (to_json_outcome(StructuredModel::Float(bits)) matches Err(e)
            && e is Serialization),
        to_json_outcome(StructuredModel::Bytes(bytes)) matches Err(e) && e is Serialization,
{
    law_finite(bits);
}

/// A list has a JSON form exactly where every item has one: the array of these, in the same order.
/// Otherwise the error is that of its first item that has none.
pub proof fn law_list_json(items: Seq<StructuredModel>)
    ensures
        match to_json_outcome(StructuredModel::List(items)) {
            Ok(j) => j matches JsonModel::Array(array) && array.len() == items.len() && forall|
                i: int,
            |
                0 <= i < items.len() ==> to_json_outcome(#[trigger] items[i]) == Ok::<
                    _,
                    ErrorModel,
                >(array[i]),
            Err(e) => exists|k: int|
                {
                    &&& 0 <= k < items.len()
                    &&& to_json_outcome(#[trigger] items[k]) == Err::<JsonModel, _>(e)
                    &&& forall|j: int|
                        0 <= j < k ==> to_json_outcome(#[trigger] items[j]) is Ok
                },
        },
    decreases items.len(),
{
    if items.len() > 0 {
        let front = items.drop_last();
        law_list_json(front);
        let n = items.len() - 1;
        match json_items_fault(front) {
            Some(e) => {
                let k = choose|k: int|
                    {
                        &&& 0 <= k < front.len()
                        &&& to_json_outcome(#[trigger] front[k]) == Err::<JsonModel, _>(e)
                        &&& forall|j: int|
                            0 <= j < k ==> to_json_outcome(#[trigger] front[j]) is Ok
                    };
                assert(items[k] == front[k]);
                assert forall|j: int| 0 <= j < k implies to_json_outcome(
                    #[trigger] items[j],
                ) is Ok by {
                    assert(front[j] == items[j]);
                }
            },
            None => {
                assert forall|j: int| 0 <= j < n implies to_json_outcome(
                    #[trigger] items[j],
                ) == Ok::<_, ErrorModel>(json_items(items)[j]) by {
                    assert(front[j] == items[j]);
                }
                assert(to_json_outcome(items[n]) == match json_fault(items[n]) {
                    Some(e) => Err::<JsonModel, ErrorModel>(e),
                    None => Ok(json_of(items[n])),
                });
            },
        }
    }
}

/// A dict has a JSON form exactly where every value has one and no key comes twice: the object with
/// just these members, in strict key order. Otherwise it is a serialization error.
pub proof fn law_dict_json(entries: Seq<(Seq<char>, StructuredModel)>)
    ensures
        to_json_outcome(StructuredModel::Dict(entries)) is Ok <==> {
            &&& forall|i: int|
                0 <= i < entries.len() ==> to_json_outcome((#[trigger] entries[i]).1) is Ok
            &&& forall|i: int, j: int|
                0 <= i < j < entries.len() ==> (#[trigger] entries[i]).0 != (
                #[trigger] entries[j]).0
        },
        to_json_outcome(StructuredModel::Dict(entries)) matches Ok(j) ==> {
            &&& j is Object
            &&& j->Object_0.len() == entries.len()
            &&& forall|a: int, b: int|
                0 <= a < b < entries.len() ==> key_lt(
                    (#[trigger] j->Object_0[a]).0,
                    (#[trigger] j->Object_0[b]).0,
                )
            &&& forall|i: int|
                0 <= i < entries.len() ==> exists|a: int|
                    {
                        &&& 0 <= a < entries.len()
                        &&& (#[trigger] j->Object_0[a]).0 == (#[trigger] entries[i]).0
                        &&& to_json_outcome(entries[i].1) == Ok::<_, ErrorModel>(
                            j->Object_0[a].1,
                        )
                    }
        },
{
    lemma_dict_json(entries);
    if json_entries_fault(entries) is None {
        let je = json_entries(entries);
        lemma_json_entries(entries);
        lemma_faultless_keys_distinct(entries);
        lemma_arranged(je);
        let object = arranged(je);
        assert forall|i: int| 0 <= i < entries.len() implies exists|a: int|
            {
                &&& 0 <= a < entries.len()
                &&& (#[trigger] object[a]).0 == (#[trigger] entries[i]).0
                &&& to_json_outcome(entries[i].1) == Ok::<_, ErrorModel>(object[a].1)
            } by {
            assert(je.contains(je[i]));
            assert(object.contains(je[i]));
            let a = choose|a: int| 0 <= a < object.len() && object[a] == je[i];
            assert(object[a].0 == entries[i].0);
        }
    }
}

proof fn lemma_dict_json(entries: Seq<(Seq<char>, StructuredModel)>)
    ensures
        json_entries_fault(entries) is None <==> {
            &&& forall|i: int|
                0 <= i < entries.len() ==> to_json_outcome((#[trigger] entries[i]).1) is Ok
            &&& forall|i: int, j: int|
                0 <= i < j < entries.len() ==> (#[trigger] entries[i]).0 != (
                #[trigger] entries[j]).0
        },
    decreases entries.len(),
{
    if entries.len() > 0 {
        let front = entries.drop_last();
        let n = entries.len() - 1;
        lemma_dict_json(front);
        assert(forall|i: int| 0 <= i < n ==> #[trigger] entries[i] == front[i]);
        assert(forall|i: int| 0 <= i < n ==> #[trigger] front[i] == entries[i]);
        assert(entries[n] == entries.last());
        let keys = dict_keys(front);
        if keys.contains(entries[n].0) {
            let i = choose|i: int| 0 <= i < keys.len() && keys[i] == entries[n].0;
            assert(entries[i].0 == entries[n].0);
        } else {
            assert forall|i: int| 0 <= i < n implies (#[trigger] entries[i]).0
                != entries[n].0 by {
                assert(keys[i] == entries[i].0);
                assert(keys.contains(keys[i]));
            }
        }
    }
}

/// Whatever cannot become JSON is a serialization error.
pub proof fn law_json_errors(m: StructuredModel)
    ensures
        to_json_outcome(m) matches Err(e) ==> e is Serialization,
    decreases m,
{
    match m {
        StructuredModel::List(items) => {
            law_list_json(items);
            if let Some(e) = json_items_fault(items) {
                let k = choose|k: int|
                    0 <= k < items.len() && to_json_outcome(#[trigger] items[k]) == Err::<
                        JsonModel,
                        _,
                    >(e);
                assert(decreases_to!(items => items[k]));
                law_json_errors(items[k]);
            }
        },
        StructuredModel::Dict(entries) => {
            lemma_dict_errors(entries);
        },
        _ => {},
    }
}

proof fn lemma_dict_errors(entries: Seq<(Seq<char>, StructuredModel)>)
    ensures
        json_entries_fault(entries) matches Some(e) ==> e is Serialization,
    decreases entries,
{
    if entries.len() > 0 {
        lemma_dict_errors(entries.drop_last());
        assert(decreases_to!(entries => entries[entries.len() - 1]));
        law_json_errors(entries.last().1);
    }
}

/// Every JSON document is the structured value of the same content: numbers that fit `i64` become
/// integers, larger ones unsigned integers, arrays lists and objects dicts, item by item.
pub proof fn law_json_content(
    b: bool,
    n: u64,
    i: i64,
    bits: u64,
    s: Seq<char>,
    items: Seq<JsonModel>,
    members: Seq<(Seq<char>, JsonModel)>,
)
    ensures
        structured_of_json(JsonModel::Null) == StructuredModel::Null,
        structured_of_json(JsonModel::Bool(b)) == StructuredModel::Bool(b),
        n <= i64::MAX ==> structured_of_json(JsonModel::Number(JsonNumber::Natural(n)))
            == StructuredModel::Integer(n as i64),
        n > i64::MAX ==> structured_of_json(JsonModel::Number(JsonNumber::Natural(n)))
            == StructuredModel::UnsignedInteger(n),
        structured_of_json(JsonModel::Number(JsonNumber::Negative(i))) == StructuredModel::Integer(
            i,
        ),
        structured_of_json(JsonModel::Number(JsonNumber::Float(bits))) == StructuredModel::Float(
            bits,
        ),
        structured_of_json(JsonModel::String(s)) == StructuredModel::String(s),
        structured_of_json(JsonModel::Array(items)) matches StructuredModel::List(list)
            && list.len() == items.len() && forall|k: int|
            0 <= k < items.len() ==> list[k] == structured_of_json(#[trigger] items[k]),
        structured_of_json(JsonModel::Object(members)) matches StructuredModel::Dict(dict)
            && dict.len() == members.len() && forall|k: int|
            0 <= k < members.len() ==> dict[k].0 == (#[trigger] members[k]).0 && dict[k].1
                == structured_of_json(members[k].1),
{
    lemma_structured_items(items);
    lemma_structured_entries(members);
}

proof fn lemma_structured_items(items: Seq<JsonModel>)
    ensures
        structured_items(items).len() == items.len(),
        forall|k: int|
            0 <= k < items.len() ==> structured_items(items)[k] == structured_of_json(
                #[trigger] items[k],
            ),
    decreases items.len(),
{
    if items.len() > 0 {
        let front = items.drop_last();
        lemma_structured_items(front);
        assert forall|k: int| 0 <= k < items.len() implies structured_items(items)[k]
            == structured_of_json(#[trigger] items[k]) by {
            if k < front.len() {
                assert(front[k] == items[k]);
            }
        }
    }
}

} // verus!
