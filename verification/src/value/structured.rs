//! Structured values and their model.

use crate::error::{ErrorModel, Result};
use crate::value::codec;
use vstd::prelude::*;

verus! {

/// A structured value: JSON-like data that also holds bytes and tells integers from floats.
///
/// A float is held by its 64-bit IEEE 754 pattern.
#[derive(Debug, PartialEq, Eq)]
pub enum StructuredValue {
    Null,
    Bool(bool),
    Integer(i64),
    UnsignedInteger(u64),
    Float(u64),
    String(String),
    Bytes(Vec<u8>),
    List(Vec<StructuredValue>),
    Dict(Vec<(String, StructuredValue)>),
}

/// The model of [`StructuredValue`].
pub enum StructuredModel {
    Null,
    Bool(bool),
    Integer(i64),
    UnsignedInteger(u64),
    Float(u64),
    String(Seq<char>),
    Bytes(Seq<u8>),
    List(Seq<StructuredModel>),
    Dict(Seq<(Seq<char>, StructuredModel)>),
}

impl StructuredValue {
    pub open spec fn model(self) -> StructuredModel
        decreases self,
    {
        match self {
            StructuredValue::Null => StructuredModel::Null,
            StructuredValue::Bool(b) => StructuredModel::Bool(b),
            StructuredValue::Integer(n) => StructuredModel::Integer(n),
            StructuredValue::UnsignedInteger(n) => StructuredModel::UnsignedInteger(n),
            StructuredValue::Float(bits) => StructuredModel::Float(bits),
            StructuredValue::String(s) => StructuredModel::String(s@),
            StructuredValue::Bytes(b) => StructuredModel::Bytes(b@),
            StructuredValue::List(items) => StructuredModel::List(list_model(items@)),
            StructuredValue::Dict(entries) => StructuredModel::Dict(dict_model(entries@)),
        }
    }

    pub fn encode(&self) -> (bytes: Result<Vec<u8>>)
        ensures
            match bytes {
                Ok(b) => codec::encoded(self.model()) == Ok::<_, ErrorModel>(b@),
                Err(e) => codec::encoded(self.model()) == Err::<Seq<u8>, _>(e@),
            },
    {
        codec::encode(self)
    }

    pub fn decode(bytes: &[u8]) -> (value: Result<Self>)
        ensures
            match value {
                Ok(v) => codec::decoded(bytes@) == Ok::<_, ErrorModel>(v.model()),
                Err(e) => codec::decoded(bytes@) == Err::<StructuredModel, _>(e@),
            },
    {
        codec::decode(bytes)
    }
}

/// The models of a list's items.
pub open spec fn list_model(items: Seq<StructuredValue>) -> Seq<StructuredModel>
    decreases items,
{
    if items.len() == 0 {
        Seq::empty()
    } else {
        list_model(items.drop_last()).push(items.last().model())
    }
}

/// The models of a dict's entries.
pub open spec fn dict_model(entries: Seq<(String, StructuredValue)>) -> Seq<
    (Seq<char>, StructuredModel),
>
    decreases entries,
{
    if entries.len() == 0 {
        Seq::empty()
    } else {
        dict_model(entries.drop_last()).push((entries.last().0@, entries.last().1.model()))
    }
}

/// The items of a list are modelled one by one.
pub proof fn lemma_list_model(items: Seq<StructuredValue>)
    ensures
        list_model(items).len() == items.len(),
        forall|i: int| 0 <= i < items.len() ==> #[trigger] list_model(items)[i] == items[i].model(),
    decreases items.len(),
{
    if items.len() > 0 {
        lemma_list_model(items.drop_last());
    }
}

/// The entries of a dict are modelled one by one.
pub proof fn lemma_dict_model(entries: Seq<(String, StructuredValue)>)
    ensures
        dict_model(entries).len() == entries.len(),
        forall|i: int|
            0 <= i < entries.len() ==> #[trigger] dict_model(entries)[i] == (
                entries[i].0@,
                entries[i].1.model(),
            ),
    decreases entries.len(),
{
    if entries.len() > 0 {
        lemma_dict_model(entries.drop_last());
    }
}

fn copy(value: &StructuredValue) -> (copied: StructuredValue)
    ensures
        copied.model() == value.model(),
    decreases value,
{
    match value {
        StructuredValue::Null => StructuredValue::Null,
        StructuredValue::Bool(b) => StructuredValue::Bool(*b),
        StructuredValue::Integer(n) => StructuredValue::Integer(*n),
        StructuredValue::UnsignedInteger(n) => StructuredValue::UnsignedInteger(*n),
        StructuredValue::Float(bits) => StructuredValue::Float(*bits),
        StructuredValue::String(s) => StructuredValue::String(s.clone()),
        StructuredValue::Bytes(b) => StructuredValue::Bytes(b.clone()),
        StructuredValue::List(items) => {
            let mut copies: Vec<StructuredValue> = Vec::new();
            let mut i: usize = 0;
            assert(items@.take(0) =~= Seq::empty());
            while i < items.len()
                invariant
                    i <= items@.len(),
                    value == StructuredValue::List(*items),
                    list_model(copies@) == list_model(items@.take(i as int)),
                decreases items@.len() - i,
            {
                let ghost before = copies@;
                proof {
                    assert(items@.take(i + 1).drop_last() =~= items@.take(i as int));
                    assert(items@.take(i + 1).last() == items@[i as int]);
                    assert(decreases_to!(value => value->List_0));
                    assert(decreases_to!(value->List_0 => value->List_0@[i as int]));
                    assert(decreases_to!(value => items@[i as int]));
                }
                copies.push(copy(&items[i]));
                assert(copies@.drop_last() =~= before);
                i += 1;
            }
            assert(items@.take(i as int) =~= items@);
            StructuredValue::List(copies)
        },
        StructuredValue::Dict(entries) => {
            let mut copies: Vec<(String, StructuredValue)> = Vec::new();
            let mut i: usize = 0;
            assert(entries@.take(0) =~= Seq::empty());
            while i < entries.len()
                invariant
                    i <= entries@.len(),
                    value == StructuredValue::Dict(*entries),
                    dict_model(copies@) == dict_model(entries@.take(i as int)),
                decreases entries@.len() - i,
            {
                let ghost before = copies@;
                proof {
                    assert(entries@.take(i + 1).drop_last() =~= entries@.take(i as int));
                    assert(entries@.take(i + 1).last() == entries@[i as int]);
                    assert(decreases_to!(value => value->Dict_0));
                    assert(decreases_to!(value->Dict_0 => value->Dict_0@[i as int]));
                    assert(decreases_to!(value => entries@[i as int].1));
                }
                copies.push((entries[i].0.clone(), copy(&entries[i].1)));
                assert(copies@.drop_last() =~= before);
                i += 1;
            }
            assert(entries@.take(i as int) =~= entries@);
            StructuredValue::Dict(copies)
        },
    }
}

impl Clone for StructuredValue {
    fn clone(&self) -> (copied: Self)
        ensures
            copied.model() == self.model(),
    {
        copy(self)
    }
}

} // verus!
