//! What a Vault store asks for and how its replies are judged.

use crate::encoding::{
    base64, base64_decoded, base64url, base64url_decoded, decode_standard, encodable,
    encode_standard, encode_url, is_url_char,
};
use crate::entry::{entry_bytes, entry_of, law_entry_roundtrip, EntryModel, EntryRead, ManagedEntry};
use crate::error::{Error, ErrorModel, Outcome, Result};
use crate::store::vault::config::VaultConfig;
use crate::text::{concat, lemma_encode_concat};
use crate::utils::compound::{compound, compound_key, decompound, framed, law_compound_roundtrip};
use vstd::prelude::*;
#[allow(unused_imports)]
use vstd::string::*;
use vstd::utf8::{
    decode_utf8, encode_utf8, encode_utf8_decode_utf8, encode_utf8_valid_utf8, valid_utf8,
};

verus! {

/// A store in Vault's key-value engine.
///
/// Each secret has one field: the stored entry in standard Base64.
pub struct VaultStore {
    config: VaultConfig,
}

/// How a request to the server failed.
#[derive(Debug, PartialEq, Eq)]
pub enum VaultFailure {
    /// There is nothing under the path.
    NotFound,
    /// A body could not be read or written, for the reason given.
    Json(String),
    /// Anything else, in words.
    Other(String),
}

/// The path of a collection and a key: one segment of the URL-safe alphabet.
pub open spec fn path_of(collection: Seq<char>, key: Seq<char>) -> Seq<char> {
    base64url(encode_utf8(compound(collection, key)))
}

/// The collection and key that a path carries.
pub open spec fn path_pair(path: Seq<char>) -> Option<(Seq<char>, Seq<char>)> {
    match base64url_decoded(path) {
        Ok(bytes) => if valid_utf8(bytes) {
            match decompound(decode_utf8(bytes)) {
                Ok(pair) => Some(pair),
                Err(_) => None,
            }
        } else {
            None
        },
        Err(_) => None,
    }
}

/// The path of a collection and a key.
///
/// The path carries the pair, so different pairs have different paths; and it is a single
/// URL-safe segment.
pub fn secret_path(collection: &str, key: &str) -> (path: String)
    requires
        encodable(encode_utf8(compound(collection@, key@)).len()),
    ensures
        path@ == path_of(collection@, key@),
        path_pair(path@) == Some((collection@, key@)),
        forall|i: int| 0 <= i < path@.len() ==> is_url_char(#[trigger] path@[i]),
{
    let identity = compound_key(collection, key);
    let path = encode_url(identity.as_str().as_bytes());
    proof {
        encode_utf8_valid_utf8(identity@);
        encode_utf8_decode_utf8(identity@);
        lemma_collection_bytes(collection@, key@);
        law_compound_roundtrip(collection@, key@);
    }
    path
}

proof fn lemma_collection_bytes(collection: Seq<char>, key: Seq<char>)
    ensures
        encode_utf8(collection).len() <= encode_utf8(compound(collection, key)).len(),
{
    let head = crate::text::decimal(encode_utf8(collection).len()) + seq![':'];
    lemma_encode_concat(head, collection);
    lemma_encode_concat(framed(collection), key);
}

/// A secret's place: its mount and its path.
pub open spec fn place(mount: Seq<char>, path: Seq<char>) -> Seq<char> {
    mount + "/"@ + path
}

fn place_of(mount: &str, path: &str) -> (text: String)
    ensures
        text@ == place(mount@, path@),
{
    let mut text = concat(mount, "/");
    text.append(path);
    text
}

/// A message about a place, with the reason behind it.
pub open spec fn about(before: Seq<char>, here: Seq<char>, why: Seq<char>) -> Seq<char> {
    before + here + ": "@ + why
}

fn told(before: &str, mount: &str, path: &str, why: &str) -> (message: String)
    ensures
        message@ == about(before@, place(mount@, path@), why@),
{
    let mut message = concat(before, place_of(mount, path).as_str());
    message.append(": ");
    message.append(why);
    message
}

/// What the text of a secret's field holds.
pub open spec fn secret_entry(mount: Seq<char>, path: Seq<char>, text: Seq<char>) -> Outcome<
    EntryModel,
> {
    let here = place(mount, path);
    match base64_decoded(text) {
        Err(why) => Err(
            ErrorModel::Deserialization(about("failed to decode base64 Vault entry "@, here, why)),
        ),
        Ok(bytes) => match entry_of(bytes) {
            Err(e) => Err(
                ErrorModel::Deserialization(
                    about(
                        "failed to decode OpenKeyV entry in Vault secret "@,
                        here,
                        e.text(),
                    ),
                ),
            ),
            Ok(entry) => Ok(entry),
        },
    }
}

/// Whether `read` is what a secret comes to at `now`.
pub open spec fn reads_secret(
    read: Result<EntryRead>,
    secret: Outcome<EntryModel>,
    now: i64,
) -> bool {
    match read {
        Ok(EntryRead::Live(e)) => secret == Ok::<_, ErrorModel>(e@) && !e@.expired(now),
        Ok(EntryRead::Expired) => secret matches Ok(e) && e.expired(now),
        Err(e) => secret == Err::<EntryModel, _>(e@),
    }
}

/// How a failed read is reported, unless it only says that there is nothing.
pub open spec fn read_fault(mount: Seq<char>, path: Seq<char>, failure: VaultFailure) -> Option<
    ErrorModel,
> {
    let here = place(mount, path);
    match failure {
        VaultFailure::NotFound => None,
        VaultFailure::Json(why) => Some(
            ErrorModel::Deserialization(about("failed to decode Vault secret "@, here, why@)),
        ),
        VaultFailure::Other(why) => Some(
            ErrorModel::StoreConnection {
                message: about("failed to read Vault secret "@, here, why@),
            },
        ),
    }
}

/// The words of a failure.
pub open spec fn failure_words(failure: VaultFailure) -> Seq<char> {
    match failure {
        VaultFailure::NotFound => "not found"@,
        VaultFailure::Json(why) => why@,
        VaultFailure::Other(why) => why@,
    }
}

impl VaultFailure {
    /// The words of a failure.
    pub fn words(&self) -> (text: &str)
        ensures
            text@ == failure_words(*self),
    {
        match self {
            VaultFailure::NotFound => "not found",
            VaultFailure::Json(why) => why.as_str(),
            VaultFailure::Other(why) => why.as_str(),
        }
    }
}

impl VaultStore {
    /// The collection that is used where none is named.
    pub closed spec fn default_collection(&self) -> Seq<char> {
        self.config.default_collection@
    }

    /// The mount of the engine.
    pub closed spec fn mount(&self) -> Seq<char> {
        self.config.mount_point@
    }

    pub fn with_config(config: VaultConfig) -> (store: Self)
        ensures
            store.default_collection() == config.default_collection@,
            store.mount() == config.mount_point@,
    {
        VaultStore { config }
    }

    pub fn mount_point(&self) -> (mount: &str)
        ensures
            mount@ == self.mount(),
    {
        self.config.mount_point.as_str()
    }

    /// The collection that an optional name stands for.
    pub fn collection_name<'a>(&'a self, collection: Option<&'a str>) -> (name: &'a str)
        ensures
            name@ == match collection {
                Some(n) => n@,
                None => self.default_collection(),
            },
    {
        match collection {
            Some(name) => name,
            None => self.config.default_collection.as_str(),
        }
    }

    /// The text of the field that holds an entry. It reads back as the entry, wherever it is.
    pub fn secret_text(entry: &ManagedEntry) -> (text: String)
        requires
            encodable(entry_bytes(entry@).len()),
        ensures
            text@ == base64(entry_bytes(entry@)),
            forall|mount: Seq<char>, path: Seq<char>| #[trigger]
                secret_entry(mount, path, text@) == Ok::<_, ErrorModel>(entry@),
    {
        let raw = entry.encode();
        proof {
            law_entry_roundtrip(entry@);
        }
        encode_standard(raw.as_slice())
    }

    /// Judges the answer to the read of a secret: its text, or nothing where it is absent.
    pub fn judge_read(&self, path: &str, answer: core::result::Result<String, VaultFailure>) -> (
    text: Result<Option<String>>)
        ensures
            match answer {
                Ok(t) => text matches Ok(Some(s)) && s@ == t@,
                Err(failure) => match text {
                    Ok(None) => read_fault(self.mount(), path@, failure) is None,
                    Ok(Some(_)) => false,
                    Err(e) => read_fault(self.mount(), path@, failure) == Some(e@),
                },
            },
    {
        match answer {
            Ok(text) => Ok(Some(text)),
            Err(failure) => match failure {
                VaultFailure::NotFound => Ok(None),
                VaultFailure::Json(why) => Err(
                    Error::Deserialization(
                        told(
                            "failed to decode Vault secret ",
                            self.mount_point(),
                            path,
                            why.as_str(),
                        ),
                    ),
                ),
                VaultFailure::Other(why) => Err(
                    Error::StoreConnection {
                        message: told(
                            "failed to read Vault secret ",
                            self.mount_point(),
                            path,
                            why.as_str(),
                        ),
                    },
                ),
            },
        }
    }

    /// Reads the text of a secret's field and tells a live entry from an expired one.
    pub fn read_entry(&self, path: &str, text: &str, now: i64) -> (read: Result<EntryRead>)
        ensures
            reads_secret(read, secret_entry(self.mount(), path@, text@), now),
    {
        let bytes = match decode_standard(text) {
            Ok(bytes) => bytes,
            Err(why) => {
                return Err(
                    Error::Deserialization(
                        told(
                            "failed to decode base64 Vault entry ",
                            self.mount_point(),
                            path,
                            why.as_str(),
                        ),
                    ),
                );
            },
        };
        let entry = match ManagedEntry::decode(bytes.as_slice()) {
            Ok(entry) => entry,
            Err(e) => {
                return Err(
                    Error::Deserialization(
                        told(
                            "failed to decode OpenKeyV entry in Vault secret ",
                            self.mount_point(),
                            path,
                            e.message().as_str(),
                        ),
                    ),
                );
            },
        };
        if entry.is_expired(now) {
            Ok(EntryRead::Expired)
        } else {
            Ok(EntryRead::Live(entry))
        }
    }

    /// Judges the answer to a write.
    pub fn judge_write(&self, path: &str, answer: core::result::Result<(), VaultFailure>) -> (
    result: Result<()>)
        ensures
            match answer {
                Ok(_) => result is Ok,
                Err(failure) => result matches Err(e) && e@ == match failure {
                    VaultFailure::Json(why) => ErrorModel::Serialization(
                        about(
                            "failed to encode Vault secret "@,
                            place(self.mount(), path@),
                            why@,
                        ),
                    ),
                    _ => ErrorModel::StoreConnection {
                        message: about(
                            "failed to write Vault secret "@,
                            place(self.mount(), path@),
                            failure_words(failure),
                        ),
                    },
                },
            },
    {
        match answer {
            Ok(_) => Ok(()),
            Err(failure) => match failure {
                VaultFailure::Json(why) => Err(
                    Error::Serialization(
                        told(
                            "failed to encode Vault secret ",
                            self.mount_point(),
                            path,
                            why.as_str(),
                        ),
                    ),
                ),
                _ => Err(
                    Error::StoreConnection {
                        message: told(
                            "failed to write Vault secret ",
                            self.mount_point(),
                            path,
                            failure.words(),
                        ),
                    },
                ),
            },
        }
    }

    /// Judges the answer to a request that may find nothing under the path: whether it found
    /// something. `complaint` begins the report of any other failure.
    pub fn judge_presence(
        &self,
        complaint: &str,
        path: &str,
        answer: core::result::Result<(), VaultFailure>,
    ) -> (found: Result<bool>)
        ensures
            match answer {
                Ok(_) => found matches Ok(true),
                Err(VaultFailure::NotFound) => found matches Ok(false),
                Err(failure) => found matches Err(e) && e@ == (ErrorModel::StoreConnection {
                    message: about(
                        complaint@,
                        place(self.mount(), path@),
                        failure_words(failure),
                    ),
                }),
            },
    {
        match answer {
            Ok(_) => Ok(true),
            Err(VaultFailure::NotFound) => Ok(false),
            Err(failure) => Err(
                Error::StoreConnection {
                    message: told(complaint, self.mount_point(), path, failure.words()),
                },
            ),
        }
    }
}

/// A secret reads as an entry exactly where its text is Base64 of the stored form of that entry; all
/// else is a deserialization error.
pub proof fn law_secret_exact(
    mount: Seq<char>,
    path: Seq<char>,
    text: Seq<char>,
    entry: EntryModel,
)
    ensures
        secret_entry(mount, path, text) == Ok::<_, ErrorModel>(entry) <==> (base64_decoded(
            text,
        ) matches Ok(bytes) && bytes == entry_bytes(entry)),
        secret_entry(mount, path, text) matches Err(e) ==> e is Deserialization,
{
    law_entry_roundtrip(entry);
    if let Ok(bytes) = base64_decoded(text) {
        crate::entry::law_entry_exact(bytes);
    }
}

/// A path names a collection and a key exactly where it decodes to their identity.
pub proof fn law_path_exact(path: Seq<char>, collection: Seq<char>, key: Seq<char>)
    requires
        encode_utf8(collection).len() <= usize::MAX,
    ensures
        path_pair(path) == Some((collection, key)) <==> (base64url_decoded(path) matches Ok(bytes)
            && bytes == encode_utf8(compound(collection, key))),
{
    crate::utils::compound::law_compound_roundtrip(collection, key);
    let identity = compound(collection, key);
    vstd::utf8::encode_utf8_valid_utf8(identity);
    vstd::utf8::encode_utf8_decode_utf8(identity);
    if let Ok(bytes) = base64url_decoded(path) {
        if valid_utf8(bytes) {
            vstd::utf8::decode_utf8_encode_utf8(bytes);
            crate::utils::compound::law_decompound_exact(decode_utf8(bytes));
        }
    }
}

/// A failed read means an absent secret exactly where the server did not find it.
pub proof fn law_read_fault(mount: Seq<char>, path: Seq<char>, failure: VaultFailure)
    ensures
        match failure {
            VaultFailure::NotFound => read_fault(mount, path, failure) is None,
            VaultFailure::Json(_) => read_fault(mount, path, failure) matches Some(e)
                && e is Deserialization,
            VaultFailure::Other(_) => read_fault(mount, path, failure) matches Some(e)
                && e is StoreConnection,
        },
{
}

/// A secret comes to a live entry exactly where its time has not come, to an expired one where it
/// has, and to its error where it cannot be read.
pub proof fn law_secret_read(read: Result<EntryRead>, secret: Outcome<EntryModel>, now: i64)
    ensures
        reads_secret(read, secret, now) <==> match secret {
            Ok(entry) => if entry.expires_at matches Some(t) && t <= now {
                read matches Ok(EntryRead::Expired)
            } else {
                read matches Ok(EntryRead::Live(e)) && e@ == entry
            },
            Err(fault) => read matches Err(e) && e@ == fault,
        },
{
}

} // verus!
