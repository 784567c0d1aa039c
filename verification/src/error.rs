//! The errors of the library and their mathematical model.

use crate::text::{concat, decimal, decimal_string};
use vstd::prelude::*;
#[allow(unused_imports)]
use vstd::string::*;

verus! {

/// Everything that can go wrong in the library or is reported by a backend.
#[derive(Clone, Debug, PartialEq, Eq)]
pub enum Error {
    /// A key, collection or physical identity is not acceptable.
    InvalidKey(String),
    /// A payload does not fit its declared kind.
    InvalidValue(String),
    /// A time to live, in milliseconds, is not a positive duration that fits the clock.
    InvalidTtl(i64),
    /// A value cannot be written in the requested form.
    Serialization(String),
    /// Stored bytes cannot be read back.
    Deserialization(String),
    /// The operation is not possible in the store's present state.
    InvalidOperation(String),
    /// A batch call got unequal numbers of keys and values.
    BatchSizeMismatch { keys: usize, values: usize },
    /// The backend failed or answered out of protocol.
    StoreConnection { message: String },
    /// The store's configuration or schema is not acceptable.
    StoreSetup { message: String },
    /// The system gave no randomness for a revision.
    RevisionGeneration(String),
    /// A change cursor was not issued by this feed.
    InvalidChangeCursor(String),
    /// A change cursor points before what the feed still holds.
    ChangeCursorExpired { requested: String, oldest: String },
    /// A subscriber fell behind and missed changes.
    ChangeFeedLagged { skipped: u64 },
    /// A stored record lacks a field or holds one that cannot be read.
    CorruptedData,
}

/// The model of [`Error`]: the same cases over character sequences.
pub enum ErrorModel {
    InvalidKey(Seq<char>),
    InvalidValue(Seq<char>),
    InvalidTtl(i64),
    Serialization(Seq<char>),
    Deserialization(Seq<char>),
    InvalidOperation(Seq<char>),
    BatchSizeMismatch { keys: nat, values: nat },
    StoreConnection { message: Seq<char> },
    StoreSetup { message: Seq<char> },
    RevisionGeneration(Seq<char>),
    InvalidChangeCursor(Seq<char>),
    ChangeCursorExpired { requested: Seq<char>, oldest: Seq<char> },
    ChangeFeedLagged { skipped: u64 },
    CorruptedData,
}

/// The result type of every fallible function of the library.
pub type Result<T> = core::result::Result<T, Error>;

/// What a fallible function promises: the model of its value or of its error.
pub type Outcome<T> = core::result::Result<T, ErrorModel>;

impl View for Error {
    type V = ErrorModel;

    open spec fn view(&self) -> ErrorModel {
        match self {
            Error::InvalidKey(m) => ErrorModel::InvalidKey(m@),
            Error::InvalidValue(m) => ErrorModel::InvalidValue(m@),
            Error::InvalidTtl(t) => ErrorModel::InvalidTtl(*t),
            Error::Serialization(m) => ErrorModel::Serialization(m@),
            Error::Deserialization(m) => ErrorModel::Deserialization(m@),
            Error::InvalidOperation(m) => ErrorModel::InvalidOperation(m@),
            Error::BatchSizeMismatch { keys, values } => ErrorModel::BatchSizeMismatch {
                keys: *keys as nat,
                values: *values as nat,
            },
            Error::StoreConnection { message } => ErrorModel::StoreConnection {
                message: message@,
            },
            Error::StoreSetup { message } => ErrorModel::StoreSetup { message: message@ },
            Error::RevisionGeneration(m) => ErrorModel::RevisionGeneration(m@),
            Error::InvalidChangeCursor(m) => ErrorModel::InvalidChangeCursor(m@),
            Error::ChangeCursorExpired { requested, oldest } => ErrorModel::ChangeCursorExpired {
                requested: requested@,
                oldest: oldest@,
            },
            Error::ChangeFeedLagged { skipped } => ErrorModel::ChangeFeedLagged {
                skipped: *skipped,
            },
            Error::CorruptedData => ErrorModel::CorruptedData,
        }
    }
}

impl ErrorModel {
    /// The error in words.
    pub open spec fn text(self) -> Seq<char> {
        match self {
            ErrorModel::InvalidKey(m) => "invalid key: "@ + m,
            ErrorModel::InvalidValue(m) => "invalid value: "@ + m,
            ErrorModel::InvalidTtl(t) => "invalid TTL: "@ + signed_decimal(t as int),
            ErrorModel::Serialization(m) => "serialization error: "@ + m,
            ErrorModel::Deserialization(m) => "deserialization error: "@ + m,
            ErrorModel::InvalidOperation(m) => "invalid operation: "@ + m,
            ErrorModel::BatchSizeMismatch { keys, values } => "batch size mismatch: "@ + decimal(
                keys,
            ) + " keys, "@ + decimal(values) + " values"@,
            ErrorModel::StoreConnection { message } => "store connection error: "@ + message,
            ErrorModel::StoreSetup { message } => "store setup error: "@ + message,
            ErrorModel::RevisionGeneration(m) => "revision generation failed: "@ + m,
            ErrorModel::InvalidChangeCursor(m) => "invalid change cursor: "@ + m,
            ErrorModel::ChangeCursorExpired { requested, oldest } => "change cursor expired: requested "@
                + requested + ", oldest "@ + oldest,
            ErrorModel::ChangeFeedLagged { skipped } => "change feed lagged: "@ + decimal(
                skipped as nat,
            ) + " changes skipped"@,
            ErrorModel::CorruptedData => "corrupted data"@,
        }
    }
}

/// The decimal notation of an integer, with a minus sign where it is negative.
pub open spec fn signed_decimal(n: int) -> Seq<char> {
    if n < 0 {
        "-"@ + decimal((-n) as nat)
    } else {
        decimal(n as nat)
    }
}

fn signed_decimal_string(n: i64) -> (text: String)
    ensures
        text@ == signed_decimal(n as int),
{
    if n < 0 {
        let magnitude: u64 = (-(n as i128)) as u64;
        concat("-", decimal_string(magnitude).as_str())
    } else {
        decimal_string(n as u64)
    }
}

impl Error {
    /// The error in words.
    pub fn message(&self) -> (text: String)
        ensures
            text@ == self@.text(),
    {
        match self {
            Error::InvalidKey(m) => concat("invalid key: ", m.as_str()),
            Error::InvalidValue(m) => concat("invalid value: ", m.as_str()),
            Error::InvalidTtl(t) => concat(
                "invalid TTL: ",
                signed_decimal_string(*t).as_str(),
            ),
            Error::Serialization(m) => concat("serialization error: ", m.as_str()),
            Error::Deserialization(m) => concat("deserialization error: ", m.as_str()),
            Error::InvalidOperation(m) => concat("invalid operation: ", m.as_str()),
            Error::BatchSizeMismatch { keys, values } => {
                let mut text = concat("batch size mismatch: ", decimal_string(*keys as u64).as_str());
                text.append(" keys, ");
                text.append(decimal_string(*values as u64).as_str());
                text.append(" values");
                text
            },
            Error::StoreConnection { message } => concat(
                "store connection error: ",
                message.as_str(),
            ),
            Error::StoreSetup { message } => concat("store setup error: ", message.as_str()),
            Error::RevisionGeneration(m) => concat("revision generation failed: ", m.as_str()),
            Error::InvalidChangeCursor(m) => concat("invalid change cursor: ", m.as_str()),
            Error::ChangeCursorExpired { requested, oldest } => {
                let mut text = concat("change cursor expired: requested ", requested.as_str());
                text.append(", oldest ");
                text.append(oldest.as_str());
                text
            },
            Error::ChangeFeedLagged { skipped } => {
                let mut text = concat("change feed lagged: ", decimal_string(*skipped).as_str());
                text.append(" changes skipped");
                text
            },
            Error::CorruptedData => "corrupted data".to_owned(),
        }
    }
}

/// A number that is shown is read back as the same number.
pub proof fn law_shown_number(n: i64)
    ensures
        crate::text::i64_of(signed_decimal(n as int)) == Some(n),
{
    reveal_strlit("-");
    if n < 0 {
        let digits = decimal((-n) as nat);
        crate::text::lemma_decimal_canonical((-n) as nat);
        assert(signed_decimal(n as int).drop_first() =~= digits);
    } else {
        crate::text::lemma_decimal_canonical(n as nat);
        assert(crate::text::is_digit(decimal(n as nat)[0]));
    }
}

} // verus!
