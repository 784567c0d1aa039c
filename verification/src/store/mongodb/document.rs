//! The documents that hold entries.
//!
//! A document has the server's object id, a string `key`, the stored entry as generic binary
//! `entry` and, where the entry expires, the datetime `expires_at` once more for the
//! server's own index. Nothing else is accepted.

use crate::entry::{entry_bytes, law_entry_roundtrip, EntryModel, ManagedEntry};
use crate::error::{Error, ErrorModel, Outcome, Result};
use crate::ordered::{sorted_keys, KeyMap};
use crate::store::batch::{decode_mirrored, mirrored};
use crate::text::{concat, str_eq, texts};
use vstd::prelude::*;
#[allow(unused_imports)]
use vstd::string::*;

verus! {

/// A field's value, as far as documents of this library can hold it.
#[derive(Debug, PartialEq, Eq)]
pub enum BsonField {
    ObjectId(Vec<u8>),
    Text(String),
    /// Binary data; `subtype` names the subtype where it is not the generic one.
    Binary { generic: bool, subtype: String, bytes: Vec<u8> },
    /// Milliseconds since the Unix epoch.
    DateTime(i64),
    /// Anything else, by the name of its type.
    Other(String),
}

/// The model of [`BsonField`].
pub enum FieldModel {
    ObjectId(Seq<u8>),
    Text(Seq<char>),
    Binary { generic: bool, subtype: Seq<char>, bytes: Seq<u8> },
    DateTime(i64),
    Other(Seq<char>),
}

impl View for BsonField {
    type V = FieldModel;

    open spec fn view(&self) -> FieldModel {
        match self {
            BsonField::ObjectId(id) => FieldModel::ObjectId(id@),
            BsonField::Text(s) => FieldModel::Text(s@),
            BsonField::Binary { generic, subtype, bytes } => FieldModel::Binary {
                generic: *generic,
                subtype: subtype@,
                bytes: bytes@,
            },
            BsonField::DateTime(t) => FieldModel::DateTime(*t),
            BsonField::Other(name) => FieldModel::Other(name@),
        }
    }
}

impl FieldModel {
    /// The name of a value's type.
    pub open spec fn element_type(self) -> Seq<char> {
        match self {
            FieldModel::ObjectId(_) => "ObjectId"@,
            FieldModel::Text(_) => "String"@,
            FieldModel::Binary { .. } => "Binary"@,
            FieldModel::DateTime(_) => "DateTime"@,
            FieldModel::Other(name) => name,
        }
    }
}

impl BsonField {
    /// The name of a value's type.
    pub fn element_type(&self) -> (name: &str)
        ensures
            name@ == self@.element_type(),
    {
        match self {
            BsonField::ObjectId(_) => "ObjectId",
            BsonField::Text(_) => "String",
            BsonField::Binary { .. } => "Binary",
            BsonField::DateTime(_) => "DateTime",
            BsonField::Other(name) => name.as_str(),
        }
    }

    /// Generic binary data.
    pub fn generic(bytes: Vec<u8>) -> (field: Self)
        ensures
            field@ == (FieldModel::Binary {
                generic: true,
                subtype: "Generic"@,
                bytes: bytes@,
            }),
    {
        BsonField::Binary { generic: true, subtype: "Generic".to_owned(), bytes }
    }
}

/// A document: fields by name.
pub struct MongoDocument {
    fields: KeyMap<BsonField>,
}

impl View for MongoDocument {
    type V = Map<Seq<char>, FieldModel>;

    closed spec fn view(&self) -> Map<Seq<char>, FieldModel> {
        self.fields@.map_values(|f: BsonField| f@)
    }
}

impl MongoDocument {
    pub closed spec fn wf(&self) -> bool {
        self.fields.wf()
    }

    pub fn new() -> (document: Self)
        ensures
            document.wf(),
            document@ == Map::<Seq<char>, FieldModel>::empty(),
    {
        let document = MongoDocument { fields: KeyMap::new() };
        assert(document@ =~= Map::empty());
        document
    }

    /// Gives a field a value, in place of an earlier one.
    pub fn insert(&mut self, name: &str, value: BsonField)
        requires
            old(self).wf(),
        ensures
            final(self).wf(),
            final(self)@ == old(self)@.insert(name@, value@),
    {
        let ghost before = self@;
        let ghost v = value@;
        let _ = self.fields.insert(name.to_owned(), value);
        assert(self@ =~= before.insert(name@, v));
    }

    /// Takes a field out and says whether it was there.
    pub fn remove(&mut self, name: &str) -> (removed: bool)
        requires
            old(self).wf(),
        ensures
            final(self).wf(),
            final(self)@ == old(self)@.remove(name@),
            removed == old(self)@.dom().contains(name@),
    {
        let ghost before = self@;
        let removed = self.fields.remove(name).is_some();
        assert(self@ =~= before.remove(name@));
        removed
    }

    pub fn get(&self, name: &str) -> (value: Option<&BsonField>)
        requires
            self.wf(),
        ensures
            match value {
                Some(v) => self@.dom().contains(name@) && self@[name@] == v@,
                None => !self@.dom().contains(name@),
            },
    {
        self.fields.get(name)
    }

    pub fn contains_key(&self, name: &str) -> (found: bool)
        requires
            self.wf(),
        ensures
            found == self@.dom().contains(name@),
    {
        self.fields.contains(name)
    }

    pub fn len(&self) -> (len: usize)
        requires
            self.wf(),
        ensures
            len == self@.dom().len(),
            self@.dom().finite(),
    {
        assert(self@.dom() =~= self.fields@.dom());
        self.fields.len()
    }
}

/// Names with a comma and a space between them.
pub open spec fn joined(names: Seq<Seq<char>>) -> Seq<char>
    decreases names.len(),
{
    if names.len() == 0 {
        Seq::empty()
    } else if names.len() == 1 {
        names[0]
    } else {
        joined(names.drop_last()) + ", "@ + names.last()
    }
}

fn join(names: &Vec<String>) -> (text: String)
    ensures
        text@ == joined(texts(names@)),
{
    let ghost all = texts(names@);
    let mut text = String::new();
    let mut i: usize = 0;
    proof {
        assert(all.take(0) =~= Seq::empty());
    }
    while i < names.len()
        invariant
            i <= names@.len(),
            all == texts(names@),
            text@ == joined(all.take(i as int)),
        decreases names@.len() - i,
    {
        proof {
            assert(all.take(i + 1).drop_last() =~= all.take(i as int));
            assert(all.take(i + 1).last() == names@[i as int]@);
            if i == 0 {
                assert(text@ + names@[0]@ =~= names@[0]@);
            }
        }
        if i > 0 {
            text.append(", ");
        }
        text.append(names[i].as_str());
        i += 1;
    }
    assert(all.take(i as int) =~= all);
    text
}

/// A document that has been read.
pub struct StoredDocument {
    pub id: Vec<u8>,
    pub key: String,
    pub raw_entry: Vec<u8>,
    pub entry: ManagedEntry,
    pub expires_at: Option<i64>,
}

/// The model of [`StoredDocument`].
#[verifier::ext_equal]
pub struct DocumentModel {
    pub id: Seq<u8>,
    pub key: Seq<char>,
    pub raw_entry: Seq<u8>,
    pub entry: EntryModel,
    pub expires_at: Option<i64>,
}

impl View for StoredDocument {
    type V = DocumentModel;

    open spec fn view(&self) -> DocumentModel {
        DocumentModel {
            id: self.id@,
            key: self.key@,
            raw_entry: self.raw_entry@,
            entry: self.entry@,
            expires_at: self.expires_at,
        }
    }
}

/// Whether a document has just the required fields.
pub open spec fn has_required_fields(fields: Map<Seq<char>, FieldModel>) -> bool {
    &&& fields.dom().len() == if fields.dom().contains("expires_at"@) {
        4nat
    } else {
        3nat
    }
    &&& fields.dom().contains("_id"@)
    &&& fields.dom().contains("key"@)
    &&& fields.dom().contains("entry"@)
}

/// The optional time of expiry that a document repeats.
pub open spec fn repeated_expiry(fields: Map<Seq<char>, FieldModel>, key: Seq<char>) -> Outcome<
    Option<i64>,
> {
    if !fields.dom().contains("expires_at"@) {
        Ok(None)
    } else {
        match fields["expires_at"@] {
            FieldModel::DateTime(t) => Ok(Some(t)),
            other => Err(
                ErrorModel::Deserialization(
                    "MongoDB expires_at for key "@ + key + " must be a datetime, found "@
                        + other.element_type(),
                ),
            ),
        }
    }
}

/// The stored entry's bytes in a document.
pub open spec fn entry_field(field: FieldModel, key: Seq<char>) -> Outcome<Seq<u8>> {
    match field {
        FieldModel::Binary { generic, subtype, bytes } => if generic {
            Ok(bytes)
        } else {
            Err(
                ErrorModel::Deserialization(
                    "MongoDB entry for key "@ + key + " has non-generic binary subtype "@
                        + subtype,
                ),
            )
        },
        other => Err(
            ErrorModel::Deserialization(
                "MongoDB entry for key "@ + key + " must be binary, found "@ + other.element_type(),
            ),
        ),
    }
}

/// What reading a document gives, where a query asked for `expected`.
pub open spec fn document_of(
    fields: Map<Seq<char>, FieldModel>,
    expected: Option<Seq<char>>,
) -> Outcome<DocumentModel> {
    if !has_required_fields(fields) {
        Err(
            ErrorModel::Deserialization(
                "invalid MongoDB document fields: "@ + joined(sorted_keys(fields.dom())),
            ),
        )
    } else {
        match fields["_id"@] {
            FieldModel::ObjectId(id) => match fields["key"@] {
                FieldModel::Text(key) => if expected is Some && expected != Some(key) {
                    Err(
                        ErrorModel::Deserialization(
                            "MongoDB query for key "@ + expected->0 + " returned key "@ + key,
                        ),
                    )
                } else {
                    match entry_field(fields["entry"@], key) {
                        Err(e) => Err(e),
                        Ok(raw_entry) => match repeated_expiry(fields, key) {
                            Err(e) => Err(e),
                            Ok(expires_at) => match mirrored(
                                "MongoDB"@,
                                key,
                                raw_entry,
                                expires_at,
                            ) {
                                Err(e) => Err(e),
                                Ok(entry) => Ok(
                                    DocumentModel { id, key, raw_entry, entry, expires_at },
                                ),
                            },
                        },
                    }
                },
                other => Err(
                    ErrorModel::Deserialization(
                        "MongoDB key must be a string, found "@ + other.element_type(),
                    ),
                ),
            },
            other => Err(
                ErrorModel::Deserialization(
                    "MongoDB _id must be an ObjectId, found "@ + other.element_type(),
                ),
            ),
        }
    }
}

/// The fields that a document is written with.
pub open spec fn written_fields(key: Seq<char>, entry: EntryModel) -> Map<Seq<char>, FieldModel> {
    let fields = Map::<Seq<char>, FieldModel>::empty().insert("key"@, FieldModel::Text(key)).insert(
        "entry"@,
        FieldModel::Binary { generic: true, subtype: "Generic"@, bytes: entry_bytes(entry) },
    );
    match entry.expires_at {
        Some(t) => fields.insert("expires_at"@, FieldModel::DateTime(t)),
        None => fields,
    }
}

/// A written document, once the server gave it an id, reads back as the entry it was made of.
pub proof fn law_document_roundtrip(key: Seq<char>, entry: EntryModel, id: Seq<u8>)
    ensures
        document_of(
            written_fields(key, entry).insert("_id"@, FieldModel::ObjectId(id)),
            Some(key),
        ) == Ok::<_, ErrorModel>(
            DocumentModel {
                id,
                key,
                raw_entry: entry_bytes(entry),
                entry,
                expires_at: entry.expires_at,
            },
        ),
{
    lemma_field_names();
    law_entry_roundtrip(entry);
    let fields = written_fields(key, entry).insert("_id"@, FieldModel::ObjectId(id));
    let base = Set::<Seq<char>>::empty().insert("key"@).insert("entry"@);
    assert(base.len() == 2);
    match entry.expires_at {
        Some(t) => {
            let dom = base.insert("expires_at"@).insert("_id"@);
            assert(fields.dom() =~= dom);
            assert(dom.len() == 4);
        },
        None => {
            let dom = base.insert("_id"@);
            assert(fields.dom() =~= dom);
            assert(dom.len() == 3);
        },
    }
}

proof fn lemma_field_names()
    ensures
        "_id"@ != "key"@,
        "_id"@ != "entry"@,
        "_id"@ != "expires_at"@,
        "key"@ != "entry"@,
        "key"@ != "expires_at"@,
        "entry"@ != "expires_at"@,
{
    reveal_strlit("_id");
    reveal_strlit("key");
    reveal_strlit("entry");
    reveal_strlit("expires_at");
    assert("_id"@[0] != "key"@[0]);
    assert("_id"@.len() == 3 && "key"@.len() == 3 && "entry"@.len() == 5 && "expires_at"@.len()
        == 10);
}

/// The document for an entry, without the id that the server will give it.
pub fn entry_document(key: &str, entry: &ManagedEntry) -> (document: MongoDocument)
    ensures
        document.wf(),
        document@ == written_fields(key@, entry@),
{
    let mut document = MongoDocument::new();
    document.insert("key", BsonField::Text(key.to_owned()));
    document.insert("entry", BsonField::generic(entry.encode()));
    if let Some(t) = entry.expires_at {
        document.insert("expires_at", BsonField::DateTime(t));
    }
    document
}

/// The error for a field of the wrong type.
fn wrong_type(message: &str, field: &BsonField) -> (error: Error)
    ensures
        error@ == ErrorModel::Deserialization(message@ + field@.element_type()),
{
    Error::Deserialization(concat(message, field.element_type()))
}

/// Reads a document. `expected_key` is the key that was asked for, if only one was.
pub fn decode_document(document: &MongoDocument, expected_key: Option<&str>) -> (stored: Result<
    StoredDocument,
>)
    requires
        document.wf(),
    ensures
        ({
            let expected = match expected_key {
                Some(k) => Some(k@),
                None => None,
            };
            match stored {
                Ok(s) => document_of(document@, expected) == Ok::<_, ErrorModel>(s@),
                Err(e) => document_of(document@, expected) == Err::<DocumentModel, _>(e@),
            }
        }),
{
    let wanted: usize = if document.contains_key("expires_at") {
        4
    } else {
        3
    };
    if document.len() != wanted || !document.contains_key("_id") || !document.contains_key("key")
        || !document.contains_key("entry") {
        proof {
            assert(document@.dom() =~= document.fields@.dom());
        }
        let names = document.fields.keys();
        return Err(
            Error::Deserialization(
                concat("invalid MongoDB document fields: ", join(&names).as_str()),
            ),
        );
    }
    let id = match document.get("_id") {
        Some(BsonField::ObjectId(id)) => vstd::slice::slice_to_vec(id.as_slice()),
        Some(field) => {
            return Err(wrong_type("MongoDB _id must be an ObjectId, found ", field));
        },
        None => Vec::new(),
    };
    let key = match document.get("key") {
        Some(BsonField::Text(key)) => key.clone(),
        Some(field) => {
            return Err(wrong_type("MongoDB key must be a string, found ", field));
        },
        None => String::new(),
    };
    if let Some(expected) = expected_key {
        if !str_eq(expected, key.as_str()) {
            let mut message = concat("MongoDB query for key ", expected);
            message.append(" returned key ");
            message.append(key.as_str());
            return Err(Error::Deserialization(message));
        }
    }
    let mut about = concat("MongoDB entry for key ", key.as_str());
    let raw_entry = match document.get("entry") {
        Some(BsonField::Binary { generic, subtype, bytes }) => {
            if !*generic {
                about.append(" has non-generic binary subtype ");
                about.append(subtype.as_str());
                return Err(Error::Deserialization(about));
            }
            vstd::slice::slice_to_vec(bytes.as_slice())
        },
        Some(field) => {
            about.append(" must be binary, found ");
            return Err(wrong_type(about.as_str(), field));
        },
        None => Vec::new(),
    };
    let expires_at = match document.get("expires_at") {
        Some(BsonField::DateTime(t)) => Some(*t),
        Some(field) => {
            let mut message = concat("MongoDB expires_at for key ", key.as_str());
            message.append(" must be a datetime, found ");
            return Err(wrong_type(message.as_str(), field));
        },
        None => None,
    };
    let entry = decode_mirrored("MongoDB", key.as_str(), raw_entry.as_slice(), expires_at)?;
    Ok(StoredDocument { id, key, raw_entry, entry, expires_at })
}

/// What a filter asks of one field.
#[derive(Debug, PartialEq, Eq)]
pub enum Condition {
    /// The field is this object id.
    Id(Vec<u8>),
    /// The field is this text.
    Text(String),
    /// The field is generic binary data with these bytes.
    Bytes(Vec<u8>),
    /// The field is this datetime.
    Time(i64),
    /// There is no such field.
    Absent,
}

impl Condition {
    /// Whether a document's field meets the condition.
    pub open spec fn holds(self, fields: Map<Seq<char>, FieldModel>, name: Seq<char>) -> bool {
        let there = fields.dom().contains(name);
        match self {
            Condition::Id(id) => there && fields[name] == FieldModel::ObjectId(id@),
            Condition::Text(text) => there && fields[name] == FieldModel::Text(text@),
            Condition::Bytes(bytes) => there && (fields[name] matches FieldModel::Binary {
                generic,
                bytes: found,
                ..
            } && generic && found == bytes@),
            Condition::Time(t) => there && fields[name] == FieldModel::DateTime(t),
            Condition::Absent => !there,
        }
    }
}

/// A filter: what is asked of four fields.
#[derive(Debug, PartialEq, Eq)]
pub struct ObservedFilter {
    pub id: Condition,
    pub key: Condition,
    pub entry: Condition,
    pub expires_at: Condition,
}

impl ObservedFilter {
    /// Whether the filter selects a document.
    pub open spec fn selects(self, fields: Map<Seq<char>, FieldModel>) -> bool {
        &&& self.id.holds(fields, "_id"@)
        &&& self.key.holds(fields, "key"@)
        &&& self.entry.holds(fields, "entry"@)
        &&& self.expires_at.holds(fields, "expires_at"@)
    }

    /// Whether the filter is the one for a document as it was read.
    pub open spec fn is_for(self, document: DocumentModel) -> bool {
        &&& self.id matches Condition::Id(id) && id@ == document.id
        &&& self.key matches Condition::Text(key) && key@ == document.key
        &&& self.entry matches Condition::Bytes(bytes) && bytes@ == document.raw_entry
        &&& match document.expires_at {
            Some(t) => self.expires_at == Condition::Time(t),
            None => self.expires_at is Absent,
        }
    }
}

/// The filter for a document as it was read selects that document and no other version of it, so
/// that what has been replaced meanwhile is left alone.
pub proof fn law_filter_is_exact(
    filter: ObservedFilter,
    document: DocumentModel,
    fields: Map<Seq<char>, FieldModel>,
)
    requires
        filter.is_for(document),
        document_of(fields, None) is Ok,
        mirrored("MongoDB"@, document.key, document.raw_entry, document.expires_at) == Ok::<
            _,
            ErrorModel,
        >(document.entry),
    ensures
        filter.selects(fields) <==> document_of(fields, None) == Ok::<_, ErrorModel>(document),
{
    let found = document_of(fields, None)->Ok_0;
    if filter.selects(fields) {
        assert(found.raw_entry == document.raw_entry);
        assert(found.expires_at == document.expires_at);
        assert(found =~= document);
    }
}

impl StoredDocument {
    /// The filter that selects this document only as long as it is as it was read.
    pub fn observed_filter(&self) -> (filter: ObservedFilter)
        ensures
            filter.is_for(self@),
    {
        ObservedFilter {
            id: Condition::Id(vstd::slice::slice_to_vec(self.id.as_slice())),
            key: Condition::Text(self.key.clone()),
            entry: Condition::Bytes(vstd::slice::slice_to_vec(self.raw_entry.as_slice())),
            expires_at: match self.expires_at {
                Some(t) => Condition::Time(t),
                None => Condition::Absent,
            },
        }
    }
}

} // verus!
