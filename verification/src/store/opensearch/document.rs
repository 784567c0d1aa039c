//! The documents that hold entries: the stored entry in padded standard Base64 and, where it
//! expires, the time once more for expiration queries.

use crate::encoding::{base64, base64_decoded, decode_standard, encodable, encode_standard};
use crate::entry::{entry_bytes, entry_of, law_entry_roundtrip, EntryModel, ManagedEntry};
use crate::error::{Error, ErrorModel, Outcome, Result};
use crate::text::{concat, str_eq};
use vstd::prelude::*;
#[allow(unused_imports)]
use vstd::string::*;
use vstd::utf8::encode_utf8;

verus! {

/// The source of a document.
#[derive(Debug, PartialEq, Eq)]
pub struct OpenSearchDoc {
    pub entry: String,
    pub expires_at: Option<i64>,
}

/// The model of [`OpenSearchDoc`].
#[verifier::ext_equal]
pub struct DocModel {
    pub entry: Seq<char>,
    pub expires_at: Option<i64>,
}

impl View for OpenSearchDoc {
    type V = DocModel;

    open spec fn view(&self) -> DocModel {
        DocModel { entry: self.entry@, expires_at: self.expires_at }
    }
}

impl DocModel {
    /// Whether the text is one that memory can hold, as every text is.
    pub open spec fn sized(self) -> bool {
        encode_utf8(self.entry).len() <= isize::MAX
    }
}

/// A document's place: its index and its id.
pub open spec fn place(index: Seq<char>, id: Seq<char>) -> Seq<char> {
    index + "/"@ + id
}

/// A document's place: its index and its id.
pub fn place_of(index: &str, id: &str) -> (text: String)
    ensures
        text@ == place(index@, id@),
{
    let mut text = concat(index, "/");
    text.append(id);
    text
}

/// What reading a document's source gives.
pub open spec fn doc_entry(index: Seq<char>, id: Seq<char>, doc: DocModel) -> Outcome<EntryModel> {
    match base64_decoded(doc.entry) {
        Err(why) => Err(
            ErrorModel::Deserialization(
                "failed to decode Base64 OpenSearch entry "@ + place(index, id) + ": "@ + why,
            ),
        ),
        Ok(bytes) => if base64(bytes) != doc.entry {
            Err(
                ErrorModel::Deserialization(
                    "OpenSearch entry "@ + place(index, id)
                        + " is not canonical padded standard Base64"@,
                ),
            )
        } else {
            match entry_of(bytes) {
                Err(e) => Err(
                    ErrorModel::Deserialization(
                        "failed to decode OpenKeyV entry in OpenSearch document "@ + place(
                            index,
                            id,
                        ) + ": "@ + e.text(),
                    ),
                ),
                Ok(entry) => if doc.expires_at != entry.expires_at {
                    Err(
                        ErrorModel::Deserialization(
                            "OpenSearch document "@ + place(index, id)
                                + " expiration metadata does not match its OpenKeyV entry"@,
                        ),
                    )
                } else {
                    Ok(entry)
                },
            }
        },
    }
}

/// The source of an entry's document. It reads back as the entry, wherever it is stored.
pub fn entry_to_doc(entry: &ManagedEntry) -> (doc: OpenSearchDoc)
    requires
        encodable(entry_bytes(entry@).len()),
    ensures
        doc@ == (DocModel {
            entry: base64(entry_bytes(entry@)),
            expires_at: entry@.expires_at,
        }),
        forall|index: Seq<char>, id: Seq<char>| #[trigger]
            doc_entry(index, id, doc@) == Ok::<_, ErrorModel>(entry@),
{
    let raw = entry.encode();
    let text = encode_standard(raw.as_slice());
    proof {
        law_entry_roundtrip(entry@);
    }
    OpenSearchDoc { entry: text, expires_at: entry.expires_at }
}

/// The entry that a document's source holds.
pub fn doc_to_entry(index: &str, id: &str, doc: &OpenSearchDoc) -> (entry: Result<ManagedEntry>)
    requires
        doc@.sized(),
    ensures
        match entry {
            Ok(e) => doc_entry(index@, id@, doc@) == Ok::<_, ErrorModel>(e@),
            Err(e) => doc_entry(index@, id@, doc@) == Err::<EntryModel, _>(e@),
        },
{
    let bytes = match decode_standard(doc.entry.as_str()) {
        Ok(bytes) => bytes,
        Err(why) => {
            let mut message = concat(
                "failed to decode Base64 OpenSearch entry ",
                place_of(index, id).as_str(),
            );
            message.append(": ");
            message.append(why.as_str());
            return Err(Error::Deserialization(message));
        },
    };
    let again = encode_standard(bytes.as_slice());
    if !str_eq(again.as_str(), doc.entry.as_str()) {
        let mut message = concat("OpenSearch entry ", place_of(index, id).as_str());
        message.append(" is not canonical padded standard Base64");
        return Err(Error::Deserialization(message));
    }
    let entry = match ManagedEntry::decode(bytes.as_slice()) {
        Ok(entry) => entry,
        Err(e) => {
            let mut message = concat(
                "failed to decode OpenKeyV entry in OpenSearch document ",
                place_of(index, id).as_str(),
            );
            message.append(": ");
            message.append(e.message().as_str());
            return Err(Error::Deserialization(message));
        },
    };
    let same = match (entry.expires_at, doc.expires_at) {
        (Some(a), Some(b)) => a == b,
        (None, None) => true,
        _ => false,
    };
    if !same {
        let mut message = concat("OpenSearch document ", place_of(index, id).as_str());
        message.append(" expiration metadata does not match its OpenKeyV entry");
        return Err(Error::Deserialization(message));
    }
    Ok(entry)
}

} // verus!
