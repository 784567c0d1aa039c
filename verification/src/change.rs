//! Changes of a store, and which of them a subscriber asked for.

use crate::text::{list_contains, texts};
use vstd::prelude::*;
#[allow(unused_imports)]
use vstd::string::*;

verus! {

/// A position in a change feed, opaque to its holder.
#[derive(Debug, PartialEq, Eq)]
pub struct ChangeCursor(String);

impl View for ChangeCursor {
    type V = Seq<char>;

    closed spec fn view(&self) -> Seq<char> {
        self.0@
    }
}

impl Clone for ChangeCursor {
    fn clone(&self) -> (cursor: Self)
        ensures
            cursor@ == self@,
    {
        ChangeCursor(self.0.clone())
    }
}

impl ChangeCursor {
    pub fn new(cursor: &str) -> (made: Self)
        ensures
            made@ == cursor@,
    {
        ChangeCursor(cursor.to_owned())
    }

    pub fn as_str(&self) -> (text: &str)
        ensures
            text@ == self@,
    {
        self.0.as_str()
    }
}

/// What happened to a key.
#[derive(Debug, Clone, Copy, PartialEq, Eq, Structural)]
pub enum ChangeOperation {
    Put,
    Delete,
}

/// One change of a store.
#[derive(Debug, PartialEq, Eq)]
pub struct StoreChange {
    pub cursor: ChangeCursor,
    pub revision: u64,
    pub collection: String,
    pub key: String,
    pub operation: ChangeOperation,
    pub occurred_at: i64,
}

/// The model of [`StoreChange`].
#[verifier::ext_equal]
pub struct ChangeModel {
    pub cursor: Seq<char>,
    pub revision: u64,
    pub collection: Seq<char>,
    pub key: Seq<char>,
    pub operation: ChangeOperation,
    pub occurred_at: i64,
}

impl View for StoreChange {
    type V = ChangeModel;

    open spec fn view(&self) -> ChangeModel {
        ChangeModel {
            cursor: self.cursor@,
            revision: self.revision,
            collection: self.collection@,
            key: self.key@,
            operation: self.operation,
            occurred_at: self.occurred_at,
        }
    }
}

impl Clone for StoreChange {
    fn clone(&self) -> (change: Self)
        ensures
            change@ == self@,
    {
        StoreChange {
            cursor: self.cursor.clone(),
            revision: self.revision,
            collection: self.collection.clone(),
            key: self.key.clone(),
            operation: self.operation,
            occurred_at: self.occurred_at,
        }
    }
}

/// Which changes a subscriber wants: an empty list stands for all.
#[derive(Debug, PartialEq, Eq)]
pub struct ChangeFilter {
    pub collections: Vec<String>,
    pub operations: Vec<ChangeOperation>,
}

impl Default for ChangeFilter {
    fn default() -> (filter: Self)
        ensures
            filter.collections@.len() == 0,
            filter.operations@.len() == 0,
    {
        ChangeFilter { collections: Vec::new(), operations: Vec::new() }
    }
}

impl ChangeFilter {
    /// Whether a change passes the filter.
    pub open spec fn wants(&self, change: ChangeModel) -> bool {
        &&& self.collections@.len() == 0 || texts(self.collections@).contains(change.collection)
        &&& self.operations@.len() == 0 || self.operations@.contains(change.operation)
    }

    /// All changes of one collection.
    pub fn collection(name: &str) -> (filter: Self)
        ensures
            texts(filter.collections@) == seq![name@],
            filter.operations@.len() == 0,
    {
        let mut collections: Vec<String> = Vec::new();
        collections.push(name.to_owned());
        assert(texts(collections@) =~= seq![name@]);
        ChangeFilter { collections, operations: Vec::new() }
    }

    /// Whether a change passes the filter.
    pub fn matches(&self, change: &StoreChange) -> (wanted: bool)
        ensures
            wanted == self.wants(change@),
    {
        if self.collections.len() > 0 && !list_contains(
            &self.collections,
            change.collection.as_str(),
        ) {
            return false;
        }
        if self.operations.len() == 0 {
            return true;
        }
        let mut i: usize = 0;
        while i < self.operations.len()
            invariant
                i <= self.operations@.len(),
                self.collections@.len() == 0 || texts(self.collections@).contains(
                    change.collection@,
                ),
                forall|j: int| 0 <= j < i ==> self.operations@[j] != change.operation,
            decreases self.operations@.len() - i,
        {
            if self.operations[i] == change.operation {
                return true;
            }
            i += 1;
        }
        false
    }
}

/// Where a subscription starts.
#[derive(Debug, PartialEq, Eq)]
pub enum ChangeStart {
    /// At the oldest change that is still held.
    Beginning,
    /// Behind the newest change.
    Latest,
    /// Behind the change with this cursor.
    After(ChangeCursor),
}

impl Default for ChangeStart {
    fn default() -> (start: Self)
        ensures
            start is Latest,
    {
        ChangeStart::Latest
    }
}

/// A subscription: where it starts and what it wants.
#[derive(Debug, PartialEq, Eq)]
pub struct ChangeFeedRequest {
    pub start: ChangeStart,
    pub filter: ChangeFilter,
}

impl Default for ChangeFeedRequest {
    fn default() -> (request: Self)
        ensures
            request.start is Latest,
            request.filter.collections@.len() == 0,
            request.filter.operations@.len() == 0,
    {
        ChangeFeedRequest { start: ChangeStart::default(), filter: ChangeFilter::default() }
    }
}

/// A change passes a filter exactly where some place of the collection list, whichever it is, holds
/// its collection, or the list is empty, and the same of its operation.
pub proof fn law_filter_passes(filter: ChangeFilter, change: ChangeModel)
    ensures
        filter.wants(change) <==> {
            &&& filter.collections@.len() == 0 || exists|i: int|
                0 <= i < filter.collections@.len() && #[trigger] filter.collections@[i]@
                    == change.collection
            &&& filter.operations@.len() == 0 || exists|i: int|
                0 <= i < filter.operations@.len() && #[trigger] filter.operations@[i]
                    == change.operation
        },
{
    let names = texts(filter.collections@);
    if names.contains(change.collection) {
        let i = choose|i: int| 0 <= i < names.len() && names[i] == change.collection;
        assert(filter.collections@[i]@ == change.collection);
    }
    if exists|i: int|
        0 <= i < filter.collections@.len() && #[trigger] filter.collections@[i]@
            == change.collection {
        let i = choose|i: int|
            0 <= i < filter.collections@.len() && #[trigger] filter.collections@[i]@
                == change.collection;
        assert(names[i] == change.collection);
    }
    if filter.operations@.contains(change.operation) {
        let i = choose|i: int|
            0 <= i < filter.operations@.len() && filter.operations@[i] == change.operation;
        assert(filter.operations@[i] == change.operation);
    }
}

/// Filters that list the same collections and operations pass the same changes, whatever the order
/// and however often each is listed.
pub proof fn law_filter_order_irrelevant(a: ChangeFilter, b: ChangeFilter, change: ChangeModel)
    requires
        forall|name: Seq<char>|
            texts(a.collections@).contains(name) <==> texts(b.collections@).contains(name),
        forall|operation: ChangeOperation|
            a.operations@.contains(operation) <==> b.operations@.contains(operation),
    ensures
        a.wants(change) == b.wants(change),
{
    if a.collections@.len() > 0 {
        assert(texts(a.collections@).contains(texts(a.collections@)[0]));
    }
    if b.collections@.len() > 0 {
        assert(texts(b.collections@).contains(texts(b.collections@)[0]));
    }
    if a.operations@.len() > 0 {
        assert(a.operations@.contains(a.operations@[0]));
    }
    if b.operations@.len() > 0 {
        assert(b.operations@.contains(b.operations@[0]));
    }
}

/// The place of a change in its feed, its key and its time do not matter to a filter.
pub proof fn law_filter_sees_collection_and_operation(
    filter: ChangeFilter,
    a: ChangeModel,
    b: ChangeModel,
)
    requires
        a.collection == b.collection,
        a.operation == b.operation,
    ensures
        filter.wants(a) == filter.wants(b),
{
}

} // verus!
