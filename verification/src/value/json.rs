//! Loss-checked conversion between structured values and JSON.
//!
//! The conversion is strict: every variant must have a natural, lossless counterpart in the
//! JSON type system. Binary blobs do not and are rejected rather than silently encoded.

use crate::error::{Error, ErrorModel, Outcome, Result};
use crate::ordered::{
    arranged, dict_keys, entries_map, lemma_arranged, lemma_entries_map, lemma_sorted_unique,
    strictly_keyed, strictly_sorted, KeyMap,
};
use crate::text::concat;
use crate::value::structured::{
    dict_model, lemma_dict_model, lemma_list_model, list_model, StructuredModel, StructuredValue,
};
use vstd::prelude::*;
#[allow(unused_imports)]
use vstd::string::*;

verus! {

/// A JSON number: a natural number, a negative integer, or a float by its bit pattern.
#[derive(Debug, Clone, Copy, PartialEq, Eq, Structural)]
pub enum JsonNumber {
    Natural(u64),
    Negative(i64),
    Float(u64),
}

/// A JSON document.
#[derive(Debug, PartialEq, Eq)]
pub enum Json {
    Null,
    Bool(bool),
    Number(JsonNumber),
    String(String),
    Array(Vec<Json>),
    Object(Vec<(String, Json)>),
}

/// The model of [`Json`].
pub enum JsonModel {
    Null,
    Bool(bool),
    Number(JsonNumber),
    String(Seq<char>),
    Array(Seq<JsonModel>),
    Object(Seq<(Seq<char>, JsonModel)>),
}

impl Json {
    pub open spec fn model(self) -> JsonModel
        decreases self,
    {
        match self {
            Json::Null => JsonModel::Null,
            Json::Bool(b) => JsonModel::Bool(b),
            Json::Number(n) => JsonModel::Number(n),
            Json::String(s) => JsonModel::String(s@),
            Json::Array(items) => JsonModel::Array(array_model(items@)),
            Json::Object(entries) => JsonModel::Object(object_model(entries@)),
        }
    }
}

/// The models of an array's items.
pub open spec fn array_model(items: Seq<Json>) -> Seq<JsonModel>
    decreases items,
{
    if items.len() == 0 {
        Seq::empty()
    } else {
        array_model(items.drop_last()).push(items.last().model())
    }
}

/// The models of an object's members.
pub open spec fn object_model(entries: Seq<(String, Json)>) -> Seq<(Seq<char>, JsonModel)>
    decreases entries,
{
    if entries.len() == 0 {
        Seq::empty()
    } else {
        object_model(entries.drop_last()).push((entries.last().0@, entries.last().1.model()))
    }
}

/// The items of an array are modelled one by one.
pub proof fn lemma_array_model(items: Seq<Json>)
    ensures
        array_model(items).len() == items.len(),
        forall|i: int|
            0 <= i < items.len() ==> #[trigger] array_model(items)[i] == items[i].model(),
    decreases items.len(),
{
    if items.len() > 0 {
        lemma_array_model(items.drop_last());
    }
}

/// The members of an object are modelled one by one.
pub proof fn lemma_object_model(entries: Seq<(String, Json)>)
    ensures
        object_model(entries).len() == entries.len(),
        forall|i: int|
            0 <= i < entries.len() ==> #[trigger] object_model(entries)[i] == (
                entries[i].0@,
                entries[i].1.model(),
            ),
    decreases entries.len(),
{
    if entries.len() > 0 {
        lemma_object_model(entries.drop_last());
    }
}

/// Whether a bit pattern is that of a finite float: its exponent is not all ones.
pub open spec fn finite(bits: u64) -> bool {
    (bits / 0x10_0000_0000_0000) % 0x800 != 0x7ff
}

/// How a float that is not finite is written.
pub open spec fn non_finite_text(bits: u64) -> Seq<char> {
    if bits % 0x10_0000_0000_0000 != 0 {
        "NaN"@
    } else if bits >= 0x8000_0000_0000_0000 {
        "-inf"@
    } else {
        "inf"@
    }
}

/// The JSON number of an integer.
pub open spec fn integer_number(n: i64) -> JsonNumber {
    if n < 0 {
        JsonNumber::Negative(n)
    } else {
        JsonNumber::Natural(n as u64)
    }
}

/// The first reason, in reading order, why a value has no JSON form.
pub open spec fn json_fault(m: StructuredModel) -> Option<ErrorModel>
    decreases m,
{
    match m {
        StructuredModel::Float(bits) => if finite(bits) {
            None
        } else {
            Some(
                ErrorModel::Serialization(
                    "float "@ + non_finite_text(bits) + " is not representable in JSON"@,
                ),
            )
        },
        StructuredModel::Bytes(_) => Some(
            ErrorModel::Serialization(
                "StructuredValue::Bytes has no lossless JSON representation"@,
            ),
        ),
        StructuredModel::List(items) => json_items_fault(items),
        StructuredModel::Dict(entries) => json_entries_fault(entries),
        _ => None,
    }
}

/// The first fault among a list's items.
pub open spec fn json_items_fault(items: Seq<StructuredModel>) -> Option<ErrorModel>
    decreases items,
{
    if items.len() == 0 {
        None
    } else {
        match json_items_fault(items.drop_last()) {
            Some(e) => Some(e),
            None => json_fault(items.last()),
        }
    }
}

/// The first fault among a dict's entries: that of a value, or a key that came before.
pub open spec fn json_entries_fault(entries: Seq<(Seq<char>, StructuredModel)>) -> Option<
    ErrorModel,
>
    decreases entries,
{
    if entries.len() == 0 {
        None
    } else {
        match json_entries_fault(entries.drop_last()) {
            Some(e) => Some(e),
            None => match json_fault(entries.last().1) {
                Some(e) => Some(e),
                None => if dict_keys(entries.drop_last()).contains(entries.last().0) {
                    Some(
                        ErrorModel::Serialization(
                            "duplicate structured dict key: "@ + entries.last().0,
                        ),
                    )
                } else {
                    None
                },
            },
        }
    }
}

/// The JSON form of a value that has one; objects are in key order.
pub open spec fn json_of(m: StructuredModel) -> JsonModel
    decreases m,
{
    match m {
        StructuredModel::Null => JsonModel::Null,
        StructuredModel::Bool(b) => JsonModel::Bool(b),
        StructuredModel::Integer(n) => JsonModel::Number(integer_number(n)),
        StructuredModel::UnsignedInteger(n) => JsonModel::Number(JsonNumber::Natural(n)),
        StructuredModel::Float(bits) => JsonModel::Number(JsonNumber::Float(bits)),
        StructuredModel::String(s) => JsonModel::String(s),
        StructuredModel::Bytes(_) => JsonModel::Null,
        StructuredModel::List(items) => JsonModel::Array(json_items(items)),
        StructuredModel::Dict(entries) => JsonModel::Object(arranged(json_entries(entries))),
    }
}

/// The JSON forms of a list's items.
pub open spec fn json_items(items: Seq<StructuredModel>) -> Seq<JsonModel>
    decreases items,
{
    if items.len() == 0 {
        Seq::empty()
    } else {
        json_items(items.drop_last()).push(json_of(items.last()))
    }
}

/// A dict's entries with values in JSON form, in the order given.
pub open spec fn json_entries(entries: Seq<(Seq<char>, StructuredModel)>) -> Seq<
    (Seq<char>, JsonModel),
>
    decreases entries,
{
    if entries.len() == 0 {
        Seq::empty()
    } else {
        json_entries(entries.drop_last()).push((entries.last().0, json_of(entries.last().1)))
    }
}

/// What converting a structured value to JSON gives.
pub open spec fn to_json_outcome(m: StructuredModel) -> Outcome<JsonModel> {
    match json_fault(m) {
        Some(e) => Err(e),
        None => Ok(json_of(m)),
    }
}

/// The structured form of a JSON number.
pub open spec fn number_value(n: JsonNumber) -> StructuredModel {
    match n {
        JsonNumber::Natural(u) => if u <= i64::MAX {
            StructuredModel::Integer(u as i64)
        } else {
            StructuredModel::UnsignedInteger(u)
        },
        JsonNumber::Negative(i) => StructuredModel::Integer(i),
        JsonNumber::Float(bits) => StructuredModel::Float(bits),
    }
}

/// The structured form of a JSON document.
pub open spec fn structured_of_json(j: JsonModel) -> StructuredModel
    decreases j,
{
    match j {
        JsonModel::Null => StructuredModel::Null,
        JsonModel::Bool(b) => StructuredModel::Bool(b),
        JsonModel::Number(n) => number_value(n),
        JsonModel::String(s) => StructuredModel::String(s),
        JsonModel::Array(items) => StructuredModel::List(structured_items(items)),
        JsonModel::Object(entries) => StructuredModel::Dict(structured_entries(entries)),
    }
}

/// The structured forms of an array's items.
pub open spec fn structured_items(items: Seq<JsonModel>) -> Seq<StructuredModel>
    decreases items,
{
    if items.len() == 0 {
        Seq::empty()
    } else {
        structured_items(items.drop_last()).push(structured_of_json(items.last()))
    }
}

/// The structured forms of an object's members.
pub open spec fn structured_entries(entries: Seq<(Seq<char>, JsonModel)>) -> Seq<
    (Seq<char>, StructuredModel),
>
    decreases entries,
{
    if entries.len() == 0 {
        Seq::empty()
    } else {
        structured_entries(entries.drop_last()).push(
            (entries.last().0, structured_of_json(entries.last().1)),
        )
    }
}

proof fn lemma_json_items_fault_prefix(items: Seq<StructuredModel>, k: int)
    requires
        0 <= k <= items.len(),
        json_items_fault(items.take(k)) is Some,
    ensures
        json_items_fault(items) == json_items_fault(items.take(k)),
    decreases items.len() - k,
{
    if k == items.len() {
        assert(items.take(k) =~= items);
    } else {
        assert(items.take(k + 1).drop_last() =~= items.take(k));
        lemma_json_items_fault_prefix(items, k + 1);
    }
}

proof fn lemma_json_entries_fault_prefix(entries: Seq<(Seq<char>, StructuredModel)>, k: int)
    requires
        0 <= k <= entries.len(),
        json_entries_fault(entries.take(k)) is Some,
    ensures
        json_entries_fault(entries) == json_entries_fault(entries.take(k)),
    decreases entries.len() - k,
{
    if k == entries.len() {
        assert(entries.take(k) =~= entries);
    } else {
        assert(entries.take(k + 1).drop_last() =~= entries.take(k));
        lemma_json_entries_fault_prefix(entries, k + 1);
    }
}

pub proof fn lemma_json_entries(entries: Seq<(Seq<char>, StructuredModel)>)
    ensures
        json_entries(entries).len() == entries.len(),
        forall|i: int|
            0 <= i < entries.len() ==> #[trigger] json_entries(entries)[i] == (
                entries[i].0,
                json_of(entries[i].1),
            ),
        dict_keys(json_entries(entries)) =~= dict_keys(entries),
    decreases entries.len(),
{
    if entries.len() > 0 {
        lemma_json_entries(entries.drop_last());
    }
}

pub proof fn lemma_faultless_keys_distinct(entries: Seq<(Seq<char>, StructuredModel)>)
    requires
        json_entries_fault(entries) is None,
    ensures
        dict_keys(entries).no_duplicates(),
    decreases entries.len(),
{
    if entries.len() > 0 {
        let front = entries.drop_last();
        lemma_faultless_keys_distinct(front);
        let keys = dict_keys(entries);
        assert forall|i: int, j: int|
            0 <= i < keys.len() && 0 <= j < keys.len() && i != j implies keys[i] != keys[j] by {
            if i < front.len() {
                assert(dict_keys(front)[i] == keys[i]);
                assert(dict_keys(front).contains(keys[i]));
            }
            if j < front.len() {
                assert(dict_keys(front)[j] == keys[j]);
                assert(dict_keys(front).contains(keys[j]));
            }
        }
    }
}

/// The error for a dict key that occurs twice.
fn duplicate_key(key: &str) -> (error: Error)
    ensures
        error@ == ErrorModel::Serialization("duplicate structured dict key: "@ + key@),
{
    Error::Serialization(concat("duplicate structured dict key: ", key))
}

fn to_json(value: &StructuredValue) -> (json: Result<Json>)
    ensures
        match json {
            Ok(j) => to_json_outcome(value.model()) == Ok::<_, ErrorModel>(j.model()),
            Err(e) => to_json_outcome(value.model()) == Err::<JsonModel, _>(e@),
        },
    decreases value,
{
    match value {
        StructuredValue::Null => Ok(Json::Null),
        StructuredValue::Bool(b) => Ok(Json::Bool(*b)),
        StructuredValue::Integer(n) => Ok(
            Json::Number(
                if *n < 0 {
                    JsonNumber::Negative(*n)
                } else {
                    JsonNumber::Natural(*n as u64)
                },
            ),
        ),
        StructuredValue::UnsignedInteger(n) => Ok(Json::Number(JsonNumber::Natural(*n))),
        StructuredValue::Float(bits) => if (*bits / 0x10_0000_0000_0000) % 0x800 != 0x7ff {
            Ok(Json::Number(JsonNumber::Float(*bits)))
        } else {
            let text = if *bits % 0x10_0000_0000_0000 != 0 {
                "NaN"
            } else if *bits >= 0x8000_0000_0000_0000 {
                "-inf"
            } else {
                "inf"
            };
            let mut message = concat("float ", text);
            message.append(" is not representable in JSON");
            Err(Error::Serialization(message))
        },
        StructuredValue::String(s) => Ok(Json::String(s.clone())),
        StructuredValue::Bytes(_) => Err(
            Error::Serialization(
                "StructuredValue::Bytes has no lossless JSON representation".to_owned(),
            ),
        ),
        StructuredValue::List(items) => {
            let ghost models = list_model(items@);
            proof {
                lemma_list_model(items@);
                assert(models.take(0) =~= Seq::empty());
            }
            let mut array: Vec<Json> = Vec::new();
            let mut i: usize = 0;
            while i < items.len()
                invariant
                    i <= items@.len(),
                    models == list_model(items@),
                    models.len() == items@.len(),
                    forall|j: int|
                        0 <= j < items@.len() ==> #[trigger] models[j] == items@[j].model(),
                    value == StructuredValue::List(*items),
                    json_items_fault(models.take(i as int)) is None,
                    array_model(array@) == json_items(models.take(i as int)),
                decreases items@.len() - i,
            {
                let ghost before = array@;
                proof {
                    assert(models.take(i + 1).drop_last() =~= models.take(i as int));
                    assert(models.take(i + 1).last() == items@[i as int].model());
                    assert(decreases_to!(value => items@[i as int]));
                    if json_items_fault(models.take(i + 1)) is Some {
                        lemma_json_items_fault_prefix(models, i + 1);
                    }
                }
                let item = to_json(&items[i])?;
                array.push(item);
                proof {
                    assert(array@.drop_last() =~= before);
                }
                i += 1;
            }
            proof {
                assert(models.take(i as int) =~= models);
            }
            Ok(Json::Array(array))
        },
        StructuredValue::Dict(entries) => {
            let ghost models = dict_model(entries@);
            proof {
                lemma_dict_model(entries@);
                assert(models.take(0) =~= Seq::empty());
            }
            let mut members: KeyMap<Json> = KeyMap::new();
            let mut i: usize = 0;
            while i < entries.len()
                invariant
                    i <= entries@.len(),
                    models == dict_model(entries@),
                    models.len() == entries@.len(),
                    forall|j: int|
                        0 <= j < entries@.len() ==> #[trigger] models[j] == (
                            entries@[j].0@,
                            entries@[j].1.model(),
                        ),
                    value == StructuredValue::Dict(*entries),
                    members.wf(),
                    json_entries_fault(models.take(i as int)) is None,
                    forall|k: Seq<char>|
                        members@.dom().contains(k) <==> #[trigger] dict_keys(
                            models.take(i as int),
                        ).contains(k),
                    forall|j: int|
                        0 <= j < i ==> members@.dom().contains((#[trigger] models[j]).0)
                            && members@[models[j].0].model() == json_of(models[j].1),
                decreases entries@.len() - i,
            {
                let ghost now = models.take(i as int);
                let ghost next = models.take(i + 1);
                proof {
                    assert(next.drop_last() =~= now);
                    assert(next.last() == models[i as int]);
                    assert(decreases_to!(value => entries@[i as int].1));
                    if json_entries_fault(next) is Some {
                        lemma_json_entries_fault_prefix(models, i + 1);
                    }
                }
                let key = entries[i].0.clone();
                let member = to_json(&entries[i].1)?;
                let ghost known = members@;
                if !members.insert(key, member) {
                    return Err(duplicate_key(entries[i].0.as_str()));
                }
                proof {
                    assert forall|k: Seq<char>|
                        members@.dom().contains(k) <==> #[trigger] dict_keys(next).contains(
                            k,
                        ) by {
                        if members@.dom().contains(k) {
                            if k == models[i as int].0 {
                                assert(dict_keys(next)[i as int] == k);
                            } else {
                                assert(dict_keys(now).contains(k));
                                let j = choose|j: int|
                                    0 <= j < now.len() && dict_keys(now)[j] == k;
                                assert(dict_keys(next)[j] == k);
                            }
                        }
                        if dict_keys(next).contains(k) {
                            let j = choose|j: int| 0 <= j < next.len() && dict_keys(next)[j] == k;
                            if j < i {
                                assert(dict_keys(now)[j] == k);
                                assert(dict_keys(now).contains(k));
                            }
                        }
                    }
                    assert forall|j: int| 0 <= j < i + 1 implies members@.dom().contains(
                        (#[trigger] models[j]).0,
                    ) && members@[models[j].0].model() == json_of(models[j].1) by {
                        if j < i {
                            assert(known.dom().contains(models[j].0));
                        }
                    }
                }
                i += 1;
            }
            let ghost map = members@;
            let object = members.into_entries();
            proof {
                assert(models.take(i as int) =~= models);
                lemma_object_is_arranged(models, object@, map);
            }
            Ok(Json::Object(object))
        },
    }
}

proof fn lemma_object_is_arranged(
    models: Seq<(Seq<char>, StructuredModel)>,
    object: Seq<(String, Json)>,
    map: Map<Seq<char>, Json>,
)
    requires
        strictly_sorted(object),
        entries_map(object) == map,
        json_entries_fault(models) is None,
        forall|k: Seq<char>|
            map.dom().contains(k) <==> #[trigger] dict_keys(models).contains(k),
        forall|j: int|
            0 <= j < models.len() ==> map.dom().contains((#[trigger] models[j]).0)
                && map[models[j].0].model() == json_of(models[j].1),
    ensures
        object_model(object) == arranged(json_entries(models)),
{
    let x = object_model(object);
    let je = json_entries(models);
    lemma_object_model(object);
    lemma_entries_map(object);
    lemma_json_entries(models);
    lemma_faultless_keys_distinct(models);
    lemma_arranged(je);
    assert(strictly_keyed(x)) by {
        assert forall|i: int, j: int| 0 <= i < j < x.len() implies crate::ordered::key_lt(
            (#[trigger] x[i]).0,
            (#[trigger] x[j]).0,
        ) by {
            assert(x[i].0 == object[i].0@ && x[j].0 == object[j].0@);
        }
    }
    assert forall|e: (Seq<char>, JsonModel)| #[trigger]
        x.contains(e) <==> arranged(je).contains(e) by {
        if x.contains(e) {
            let i = choose|i: int| 0 <= i < x.len() && x[i] == e;
            assert(map.dom().contains(object[i].0@));
            assert(dict_keys(models).contains(e.0));
            let j = choose|j: int| 0 <= j < models.len() && dict_keys(models)[j] == e.0;
            assert(models[j].0 == e.0);
            assert(je[j] == e);
            assert(je.contains(e));
        }
        if arranged(je).contains(e) {
            assert(je.contains(e));
            let j = choose|j: int| 0 <= j < je.len() && je[j] == e;
            assert(je[j] == (models[j].0, json_of(models[j].1)));
            assert(map.dom().contains(e.0));
            let i = choose|i: int| 0 <= i < object.len() && object[i].0@ == e.0;
            assert(x[i] == e);
        }
    }
    lemma_sorted_unique(x, arranged(je));
}

fn from_json(json: &Json) -> (value: StructuredValue)
    ensures
        value.model() == structured_of_json(json.model()),
    decreases json,
{
    match json {
        Json::Null => StructuredValue::Null,
        Json::Bool(b) => StructuredValue::Bool(*b),
        Json::Number(n) => match *n {
            JsonNumber::Natural(u) => if u <= i64::MAX as u64 {
                StructuredValue::Integer(u as i64)
            } else {
                StructuredValue::UnsignedInteger(u)
            },
            JsonNumber::Negative(i) => StructuredValue::Integer(i),
            JsonNumber::Float(bits) => StructuredValue::Float(bits),
        },
        Json::String(s) => StructuredValue::String(s.clone()),
        Json::Array(items) => {
            let ghost models = array_model(items@);
            proof {
                lemma_array_model(items@);
                assert(models.take(0) =~= Seq::empty());
            }
            let mut list: Vec<StructuredValue> = Vec::new();
            let mut i: usize = 0;
            while i < items.len()
                invariant
                    i <= items@.len(),
                    models == array_model(items@),
                    models.len() == items@.len(),
                    forall|j: int|
                        0 <= j < items@.len() ==> #[trigger] models[j] == items@[j].model(),
                    json == Json::Array(*items),
                    list_model(list@) == structured_items(models.take(i as int)),
                decreases items@.len() - i,
            {
                let ghost before = list@;
                proof {
                    assert(models.take(i + 1).drop_last() =~= models.take(i as int));
                    assert(models.take(i + 1).last() == items@[i as int].model());
                    assert(decreases_to!(json => json->Array_0));
                    assert(decreases_to!(json->Array_0 => json->Array_0@[i as int]));
                    assert(decreases_to!(json => items@[i as int]));
                }
                list.push(from_json(&items[i]));
                proof {
                    assert(list@.drop_last() =~= before);
                }
                i += 1;
            }
            proof {
                assert(models.take(i as int) =~= models);
            }
            StructuredValue::List(list)
        },
        Json::Object(entries) => {
            let ghost models = object_model(entries@);
            proof {
                lemma_object_model(entries@);
                assert(models.take(0) =~= Seq::empty());
            }
            let mut dict: Vec<(String, StructuredValue)> = Vec::new();
            let mut i: usize = 0;
            while i < entries.len()
                invariant
                    i <= entries@.len(),
                    models == object_model(entries@),
                    models.len() == entries@.len(),
                    forall|j: int|
                        0 <= j < entries@.len() ==> #[trigger] models[j] == (
                            entries@[j].0@,
                            entries@[j].1.model(),
                        ),
                    json == Json::Object(*entries),
                    dict_model(dict@) == structured_entries(models.take(i as int)),
                decreases entries@.len() - i,
            {
                let ghost before = dict@;
                proof {
                    assert(models.take(i + 1).drop_last() =~= models.take(i as int));
                    assert(models.take(i + 1).last() == models[i as int]);
                    assert(decreases_to!(json => json->Object_0));
                    assert(decreases_to!(json->Object_0 => json->Object_0@[i as int]));
                    assert(decreases_to!(json => entries@[i as int].1));
                }
                dict.push((entries[i].0.clone(), from_json(&entries[i].1)));
                proof {
                    assert(dict@.drop_last() =~= before);
                }
                i += 1;
            }
            proof {
                assert(models.take(i as int) =~= models);
            }
            StructuredValue::Dict(dict)
        },
    }
}

impl StructuredValue {
    /// Converts this structured value into JSON.
    ///
    /// Fails for bytes, because JSON has no native binary type, for floats that are not
    /// finite, and for a dict with a key twice.
    pub fn to_json(&self) -> (json: Result<Json>)
        ensures
            match json {
                Ok(j) => to_json_outcome(self.model()) == Ok::<_, ErrorModel>(j.model()),
                Err(e) => to_json_outcome(self.model()) == Err::<JsonModel, _>(e@),
            },
    {
        to_json(self)
    }

    /// The structured value of a JSON document.
    ///
    /// Integers that fit in `i64` become `Integer`; integers above it become
    /// `UnsignedInteger` without truncation.
    pub fn from_json(json: &Json) -> (value: Result<Self>)
        ensures
            value matches Ok(v) && v.model() == structured_of_json(json.model()),
    {
        Ok(from_json(json))
    }
}

impl<'a> TryFrom<&'a StructuredValue> for Json {
    type Error = Error;

    fn try_from(value: &'a StructuredValue) -> (json: Result<Self>)
        ensures
            match json {
                Ok(j) => to_json_outcome(value.model()) == Ok::<_, ErrorModel>(j.model()),
                Err(e) => to_json_outcome(value.model()) == Err::<JsonModel, _>(e@),
            },
    {
        to_json(value)
    }
}

impl<'a> vstd::std_specs::convert::TryFromSpecImpl<&'a StructuredValue> for Json {
    open spec fn obeys_try_from_spec() -> bool {
        false
    }

    open spec fn try_from_spec(value: &'a StructuredValue) -> Result<Json> {
        arbitrary()
    }
}

impl<'a> TryFrom<&'a Json> for StructuredValue {
    type Error = Error;

    fn try_from(json: &'a Json) -> (value: Result<Self>)
        ensures
            value matches Ok(v) && v.model() == structured_of_json(json.model()),
    {
        Ok(from_json(json))
    }
}

impl<'a> vstd::std_specs::convert::TryFromSpecImpl<&'a Json> for StructuredValue {
    open spec fn obeys_try_from_spec() -> bool {
        false
    }

    open spec fn try_from_spec(json: &'a Json) -> Result<StructuredValue> {
        arbitrary()
    }
}

/// Whether a JSON document is as a parser delivers it: the members of each object in strict
/// key order, negative integers negative, floats finite.
pub open spec fn json_valid(j: JsonModel) -> bool
    decreases j,
{
    match j {
        JsonModel::Number(JsonNumber::Negative(n)) => n < 0,
        JsonModel::Number(JsonNumber::Float(bits)) => finite(bits),
        JsonModel::Array(items) => json_items_valid(items),
        JsonModel::Object(entries) => strictly_keyed(entries) && json_members_valid(entries),
        _ => true,
    }
}

/// Whether every item is valid.
pub open spec fn json_items_valid(items: Seq<JsonModel>) -> bool
    decreases items,
{
    items.len() > 0 ==> json_items_valid(items.drop_last()) && json_valid(items.last())
}

/// Whether every member is valid.
pub open spec fn json_members_valid(entries: Seq<(Seq<char>, JsonModel)>) -> bool
    decreases entries,
{
    entries.len() > 0 ==> json_members_valid(entries.drop_last()) && json_valid(entries.last().1)
}

/// The value that comes back from JSON: the same data, with unsigned integers that fit `i64`
/// as integers and dicts in key order.
pub open spec fn json_normal(m: StructuredModel) -> StructuredModel
    decreases m,
{
    match m {
        StructuredModel::UnsignedInteger(n) => number_value(JsonNumber::Natural(n)),
        StructuredModel::List(items) => StructuredModel::List(json_normal_items(items)),
        StructuredModel::Dict(entries) => StructuredModel::Dict(
            arranged(json_normal_entries(entries)),
        ),
        _ => m,
    }
}

/// The items that come back from JSON.
pub open spec fn json_normal_items(items: Seq<StructuredModel>) -> Seq<StructuredModel>
    decreases items,
{
    if items.len() == 0 {
        Seq::empty()
    } else {
        json_normal_items(items.drop_last()).push(json_normal(items.last()))
    }
}

/// The entries that come back from JSON, in the order given.
pub open spec fn json_normal_entries(entries: Seq<(Seq<char>, StructuredModel)>) -> Seq<
    (Seq<char>, StructuredModel),
>
    decreases entries,
{
    if entries.len() == 0 {
        Seq::empty()
    } else {
        json_normal_entries(entries.drop_last()).push(
            (entries.last().0, json_normal(entries.last().1)),
        )
    }
}

pub proof fn lemma_structured_entries(entries: Seq<(Seq<char>, JsonModel)>)
    ensures
        structured_entries(entries).len() == entries.len(),
        forall|i: int|
            0 <= i < entries.len() ==> #[trigger] structured_entries(entries)[i] == (
                entries[i].0,
                structured_of_json(entries[i].1),
            ),
        dict_keys(structured_entries(entries)) =~= dict_keys(entries),
    decreases entries.len(),
{
    if entries.len() > 0 {
        lemma_structured_entries(entries.drop_last());
    }
}

proof fn lemma_normal_entries(entries: Seq<(Seq<char>, StructuredModel)>)
    ensures
        json_normal_entries(entries).len() == entries.len(),
        forall|i: int|
            0 <= i < entries.len() ==> #[trigger] json_normal_entries(entries)[i] == (
                entries[i].0,
                json_normal(entries[i].1),
            ),
        dict_keys(json_normal_entries(entries)) =~= dict_keys(entries),
    decreases entries.len(),
{
    if entries.len() > 0 {
        lemma_normal_entries(entries.drop_last());
    }
}

/// Converting to JSON and back loses nothing: the same data comes back, with unsigned
/// integers that fit `i64` as integers and dicts in key order.
pub proof fn law_json_lossless(m: StructuredModel)
    requires
        json_fault(m) is None,
    ensures
        structured_of_json(json_of(m)) == json_normal(m),
    decreases m,
{
    match m {
        StructuredModel::List(items) => {
            lemma_items_lossless(items);
        },
        StructuredModel::Dict(entries) => {
            lemma_entries_lossless(entries);
            let je = json_entries(entries);
            let ne = json_normal_entries(entries);
            lemma_json_entries(entries);
            lemma_normal_entries(entries);
            lemma_structured_entries(arranged(je));
            lemma_structured_entries(je);
            lemma_arranged(je);
            lemma_arranged(ne);
            let order = crate::ordered::key_sort(dict_keys(je));
            crate::ordered::lemma_key_sort_indices(dict_keys(je), dict_keys(je).len());
            assert(structured_entries(arranged(je)) =~= arranged(ne)) by {
                assert forall|i: int| 0 <= i < je.len() implies structured_entries(
                    arranged(je),
                )[i] == arranged(ne)[i] by {
                    assert(arranged(je)[i] == je[order[i]]);
                    assert(structured_entries(je)[order[i]] == ne[order[i]]);
                    assert(arranged(ne)[i] == ne[order[i]]);
                }
            }
        },
        _ => {},
    }
}

proof fn lemma_items_lossless(items: Seq<StructuredModel>)
    requires
        json_items_fault(items) is None,
    ensures
        structured_items(json_items(items)) == json_normal_items(items),
    decreases items,
{
    if items.len() > 0 {
        lemma_items_lossless(items.drop_last());
        assert(decreases_to!(items => items[items.len() - 1]));
        law_json_lossless(items.last());
        assert(json_items(items).drop_last() =~= json_items(items.drop_last()));
    }
}

proof fn lemma_entries_lossless(entries: Seq<(Seq<char>, StructuredModel)>)
    requires
        json_entries_fault(entries) is None,
    ensures
        structured_entries(json_entries(entries)) == json_normal_entries(entries),
    decreases entries,
{
    if entries.len() > 0 {
        lemma_entries_lossless(entries.drop_last());
        assert(decreases_to!(entries => entries[entries.len() - 1]));
        law_json_lossless(entries.last().1);
        assert(json_entries(entries).drop_last() =~= json_entries(entries.drop_last()));
    }
}

/// Every JSON document as a parser delivers it comes back unchanged from its structured form.
pub proof fn law_json_roundtrip(j: JsonModel)
    requires
        json_valid(j),
    ensures
        to_json_outcome(structured_of_json(j)) == Ok::<_, ErrorModel>(j),
    decreases j,
{
    match j {
        JsonModel::Array(items) => {
            lemma_json_items_roundtrip(items);
        },
        JsonModel::Object(entries) => {
            lemma_json_members_roundtrip(entries);
            lemma_arranged(entries);
            assert(dict_keys(entries).no_duplicates()) by {
                let keys = dict_keys(entries);
                assert forall|a: int, b: int|
                    0 <= a < keys.len() && 0 <= b < keys.len() && a != b implies keys[a]
                    != keys[b] by {
                    assert(keys[a] == entries[a].0 && keys[b] == entries[b].0);
                    crate::ordered::lemma_key_lt_trichotomy(keys[a], keys[b]);
                    crate::ordered::lemma_key_lt_trichotomy(keys[b], keys[a]);
                }
            }
            lemma_sorted_unique(arranged(entries), entries);
        },
        _ => {},
    }
}

proof fn lemma_json_items_roundtrip(items: Seq<JsonModel>)
    requires
        json_items_valid(items),
    ensures
        json_items_fault(structured_items(items)) is None,
        json_items(structured_items(items)) == items,
    decreases items,
{
    if items.len() > 0 {
        lemma_json_items_roundtrip(items.drop_last());
        assert(decreases_to!(items => items[items.len() - 1]));
        law_json_roundtrip(items.last());
        assert(structured_items(items).drop_last() =~= structured_items(items.drop_last()));
        assert(items.drop_last().push(items.last()) =~= items);
    } else {
        assert(items =~= Seq::empty());
    }
}

proof fn lemma_json_members_roundtrip(entries: Seq<(Seq<char>, JsonModel)>)
    requires
        strictly_keyed(entries),
        json_members_valid(entries),
    ensures
        json_entries_fault(structured_entries(entries)) is None,
        json_entries(structured_entries(entries)) == entries,
    decreases entries,
{
    if entries.len() > 0 {
        let front = entries.drop_last();
        assert(strictly_keyed(front)) by {
            assert forall|a: int, b: int| 0 <= a < b < front.len() implies crate::ordered::key_lt(
                (#[trigger] front[a]).0,
                (#[trigger] front[b]).0,
            ) by {
                assert(front[a] == entries[a] && front[b] == entries[b]);
            }
        }
        lemma_json_members_roundtrip(front);
        assert(decreases_to!(entries => entries[entries.len() - 1]));
        law_json_roundtrip(entries.last().1);
        lemma_structured_entries(entries);
        lemma_structured_entries(front);
        assert(structured_entries(entries).drop_last() =~= structured_entries(front));
        assert(front.push(entries.last()) =~= entries);
        let keys = dict_keys(front);
        assert(!keys.contains(entries.last().0)) by {
            if keys.contains(entries.last().0) {
                let a = choose|a: int| 0 <= a < keys.len() && keys[a] == entries.last().0;
                assert(crate::ordered::key_lt(entries[a].0, entries[entries.len() - 1].0));
                crate::ordered::lemma_key_lt_trichotomy(entries[a].0, entries.last().0);
            }
        }
    } else {
        assert(entries =~= Seq::empty());
    }
}

} // verus!
