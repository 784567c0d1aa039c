//! Revisions, and what conditional operations answer.

use crate::error::{Error, ErrorModel, Result};
use crate::value::{Value, ValueModel};
use vstd::prelude::*;

verus! {

/// An opaque token that changes with every write of an entry.
#[derive(Debug, Clone, Copy, PartialEq, Eq, Hash)]
pub struct Revision {
    bytes: [u8; 16],
}

impl View for Revision {
    type V = Seq<u8>;

    closed spec fn view(&self) -> Seq<u8> {
        self.bytes@
    }
}

/// `getrandom::fill` fills a buffer with bytes from the system's random source, or says in
/// words why it cannot. Nothing is promised of the bytes.
#[verifier::external_body]
fn random_bytes() -> core::result::Result<[u8; 16], String> {
    let mut bytes = [0u8; 16];
    match getrandom::fill(&mut bytes) {
        Ok(()) => Ok(bytes),
        Err(error) => Err(error.to_string()),
    }
}

impl Revision {
    /// How many bytes a revision has.
    pub const BYTE_LEN: usize = 16;

    pub fn from_bytes(bytes: [u8; 16]) -> (revision: Self)
        ensures
            revision@ == bytes@,
    {
        Revision { bytes }
    }

    pub fn as_bytes(&self) -> (bytes: &[u8; 16])
        ensures
            bytes@ == self@,
    {
        &self.bytes
    }

    /// A new revision from the system's randomness.
    ///
    /// Call it before a mutation, so that a failure leaves no partial write behind.
    pub fn fresh() -> (revision: Result<Self>)
        ensures
            revision matches Err(e) ==> e@ is RevisionGeneration,
    {
        Revision::from_random(random_bytes())
    }

    /// The revision made of random bytes, or the error for a source that failed.
    pub fn from_random(source: core::result::Result<[u8; 16], String>) -> (revision: Result<Self>)
        ensures
            match source {
                Ok(bytes) => revision matches Ok(r) && r@ == bytes@,
                Err(why) => revision matches Err(e) && e@ == ErrorModel::RevisionGeneration(why@),
            },
    {
        match source {
            Ok(bytes) => Ok(Revision::from_bytes(bytes)),
            Err(why) => Err(Error::RevisionGeneration(why)),
        }
    }

    /// Whether two revisions are the same.
    pub fn same_as(&self, other: &Revision) -> (same: bool)
        ensures
            same == (self@ == other@),
    {
        let mut i: usize = 0;
        while i < 16
            invariant
                i <= 16,
                forall|j: int| 0 <= j < i ==> self.bytes@[j] == other.bytes@[j],
            decreases 16 - i,
        {
            if self.bytes[i] != other.bytes[i] {
                return false;
            }
            i += 1;
        }
        assert(self.bytes@ =~= other.bytes@);
        true
    }
}

/// A revision has sixteen bytes.
pub broadcast proof fn lemma_revision_len(revision: Revision)
    ensures
        (#[trigger] revision@).len() == 16,
{
}

/// A value with its revision and the milliseconds it still lives.
#[derive(Debug, PartialEq, Eq)]
pub struct RevisionedValue {
    pub value: Value,
    pub revision: Revision,
    pub ttl: Option<u64>,
}

/// The model of [`RevisionedValue`].
#[verifier::ext_equal]
pub struct RevisionedModel {
    pub value: ValueModel,
    pub revision: Seq<u8>,
    pub ttl: Option<u64>,
}

impl View for RevisionedValue {
    type V = RevisionedModel;

    open spec fn view(&self) -> RevisionedModel {
        RevisionedModel { value: self.value@, revision: self.revision@, ttl: self.ttl }
    }
}

/// The model of an optional value.
pub open spec fn current_model(current: Option<RevisionedValue>) -> Option<RevisionedModel> {
    match current {
        Some(c) => Some(c@),
        None => None,
    }
}

/// The answer to a compare-and-swap.
#[derive(Debug, PartialEq, Eq)]
pub enum CompareAndSwapResult {
    /// The write happened; the entry now has this revision.
    Applied { revision: Revision },
    /// The write did not happen; this is what the entry holds, if it is there.
    Conflict { current: Option<RevisionedValue> },
}

/// The model of [`CompareAndSwapResult`].
pub enum SwapModel {
    Applied { revision: Seq<u8> },
    Conflict { current: Option<RevisionedModel> },
}

impl View for CompareAndSwapResult {
    type V = SwapModel;

    open spec fn view(&self) -> SwapModel {
        match self {
            CompareAndSwapResult::Applied { revision } => SwapModel::Applied {
                revision: revision@,
            },
            CompareAndSwapResult::Conflict { current } => SwapModel::Conflict {
                current: current_model(*current),
            },
        }
    }
}

/// The answer to a compare-and-delete.
#[derive(Debug, PartialEq, Eq)]
pub enum CompareAndDeleteResult {
    /// The entry is gone.
    Deleted,
    /// Nothing was deleted; this is what the entry holds, if it is there.
    Conflict { current: Option<RevisionedValue> },
}

/// The model of [`CompareAndDeleteResult`].
pub enum DeleteModel {
    Deleted,
    Conflict { current: Option<RevisionedModel> },
}

impl View for CompareAndDeleteResult {
    type V = DeleteModel;

    open spec fn view(&self) -> DeleteModel {
        match self {
            CompareAndDeleteResult::Deleted => DeleteModel::Deleted,
            CompareAndDeleteResult::Conflict { current } => DeleteModel::Conflict {
                current: current_model(*current),
            },
        }
    }
}

} // verus!
