//! The indexes that a collection must have.
//!
//! A collection needs a unique index on `key` and a TTL index on `expires_at`. An index that
//! has the keys or the name of one of them must be just that one, and there may be no second.

use crate::error::{Error, ErrorModel, Outcome, Result};
use crate::text::{concat, option_text, str_eq};
use vstd::prelude::*;
#[allow(unused_imports)]
use vstd::string::*;

verus! {

/// The direction of an indexed field.
#[derive(Debug, Clone, Copy, PartialEq, Eq, Structural)]
pub enum IndexDirection {
    /// A 32-bit integer; 1 is ascending.
    Int32(i32),
    /// Any other value.
    Other,
}

/// An index as the server describes it.
#[derive(Debug)]
pub struct MongoIndex {
    pub keys: Vec<(String, IndexDirection)>,
    pub name: Option<String>,
    pub unique: Option<bool>,
    /// Seconds until a document expires behind its datetime.
    pub expire_after: Option<u64>,
    pub sparse: Option<bool>,
    pub has_partial_filter: bool,
    pub has_collation: bool,
    pub hidden: Option<bool>,
}

/// The model of [`MongoIndex`].
pub struct MongoIndexModel {
    pub keys: Seq<(Seq<char>, IndexDirection)>,
    pub name: Option<Seq<char>>,
    pub unique: Option<bool>,
    pub expire_after: Option<u64>,
    pub sparse: Option<bool>,
    pub has_partial_filter: bool,
    pub has_collation: bool,
    pub hidden: Option<bool>,
}

impl View for MongoIndex {
    type V = MongoIndexModel;

    open spec fn view(&self) -> MongoIndexModel {
        MongoIndexModel {
            keys: self.keys@.map_values(|k: (String, IndexDirection)| (k.0@, k.1)),
            name: option_text(self.name),
            unique: self.unique,
            expire_after: self.expire_after,
            sparse: self.sparse,
            has_partial_filter: self.has_partial_filter,
            has_collation: self.has_collation,
            hidden: self.hidden,
        }
    }
}

/// The name of the index on keys.
pub const KEY_INDEX_NAME: &'static str = "openkeyv_key_unique";

/// The name of the index on times of expiry.
pub const TTL_INDEX_NAME: &'static str = "openkeyv_expires_ttl";

impl MongoIndexModel {
    /// Whether the index is on one field, ascending.
    pub open spec fn is_on(self, field: Seq<char>) -> bool {
        self.keys == seq![(field, IndexDirection::Int32(1))]
    }

    /// Whether the index covers all documents, plainly.
    pub open spec fn is_plain(self) -> bool {
        &&& self.sparse != Some(true)
        &&& !self.has_partial_filter
        &&& !self.has_collation
        &&& self.hidden != Some(true)
    }

    /// Whether the index stands in the place of the one on keys.
    pub open spec fn claims_keys(self) -> bool {
        self.is_on("key"@) || self.name == Some("openkeyv_key_unique"@)
    }

    /// Whether the index is the one on keys.
    pub open spec fn is_key_index(self) -> bool {
        &&& self.is_on("key"@)
        &&& self.name == Some("openkeyv_key_unique"@)
        &&& self.unique == Some(true)
        &&& self.expire_after is None
        &&& self.is_plain()
    }

    /// Whether the index stands in the place of the one on times of expiry.
    pub open spec fn claims_expiry(self) -> bool {
        self.is_on("expires_at"@) || self.name == Some("openkeyv_expires_ttl"@)
    }

    /// Whether the index is the one on times of expiry.
    pub open spec fn is_ttl_index(self) -> bool {
        &&& self.is_on("expires_at"@)
        &&& self.name == Some("openkeyv_expires_ttl"@)
        &&& self.expire_after == Some(0u64)
        &&& self.unique != Some(true)
        &&& self.is_plain()
    }
}

/// What the first `n` indexes of a collection come to: whether the one on keys and the one on
/// times of expiry were found.
pub open spec fn inspected(collection: Seq<char>, indexes: Seq<MongoIndexModel>, n: nat) -> Outcome<
    (bool, bool),
>
    decreases n,
{
    if n == 0 {
        Ok((false, false))
    } else {
        match inspected(collection, indexes, (n - 1) as nat) {
            Err(e) => Err(e),
            Ok((keys, expiry)) => {
                let index = indexes[n - 1];
                if index.claims_keys() {
                    if !index.is_key_index() || keys {
                        Err(
                            ErrorModel::StoreSetup {
                                message: "MongoDB collection "@ + collection
                                    + " has an invalid or duplicate key index"@,
                            },
                        )
                    } else {
                        Ok((true, expiry))
                    }
                } else if index.claims_expiry() {
                    if !index.is_ttl_index() || expiry {
                        Err(
                            ErrorModel::StoreSetup {
                                message: "MongoDB collection "@ + collection
                                    + " has an invalid or duplicate TTL index"@,
                            },
                        )
                    } else {
                        Ok((keys, true))
                    }
                } else {
                    Ok((keys, expiry))
                }
            },
        }
    }
}

/// The models of a list of indexes.
pub open spec fn indexes_model(indexes: Seq<MongoIndex>) -> Seq<MongoIndexModel> {
    indexes.map_values(|i: MongoIndex| i@)
}

/// Where the setup of a collection stands.
#[derive(Debug, Clone, Copy, PartialEq, Eq, Structural)]
pub enum IndexStage {
    /// Read the indexes of the collection.
    Inspect,
    /// Make the missing indexes.
    Create { keys: bool, expiry: bool },
    /// Read the indexes once more.
    Verify,
    /// The collection can be used.
    Ready,
}

/// The first stage: a collection that does not exist yet has no indexes to read.
pub open spec fn first_stage(exists: bool) -> IndexStage {
    if exists {
        IndexStage::Inspect
    } else {
        IndexStage::Create { keys: true, expiry: true }
    }
}

/// The stage that follows the reading of the indexes.
pub open spec fn stage_after(
    stage: IndexStage,
    collection: Seq<char>,
    indexes: Seq<MongoIndexModel>,
) -> Outcome<IndexStage> {
    match inspected(collection, indexes, indexes.len()) {
        Err(e) => Err(e),
        Ok((keys, expiry)) => if keys && expiry {
            Ok(
                if stage is Inspect {
                    IndexStage::Verify
                } else {
                    IndexStage::Ready
                },
            )
        } else if stage is Inspect {
            Ok(IndexStage::Create { keys: !keys, expiry: !expiry })
        } else {
            Err(
                ErrorModel::StoreSetup {
                    message: "MongoDB collection "@ + collection
                        + " is missing required OpenKeyV indexes"@,
                },
            )
        },
    }
}

/// A collection is used only when its last reading showed exactly one good index on keys and
/// exactly one on times of expiry.
pub proof fn law_ready_means_indexed(
    stage: IndexStage,
    collection: Seq<char>,
    indexes: Seq<MongoIndexModel>,
)
    requires
        stage_after(stage, collection, indexes) == Ok::<_, ErrorModel>(IndexStage::Ready),
    ensures
        exists|i: int|
            0 <= i < indexes.len() && (#[trigger] indexes[i]).is_key_index() && forall|j: int|
                0 <= j < indexes.len() && (#[trigger] indexes[j]).claims_keys() ==> j == i,
        exists|i: int|
            0 <= i < indexes.len() && (#[trigger] indexes[i]).is_ttl_index() && forall|j: int|
                0 <= j < indexes.len() && (#[trigger] indexes[j]).claims_expiry()
                    && !indexes[j].claims_keys() ==> j == i,
{
    lemma_inspected(collection, indexes, indexes.len());
}

spec fn only_key_index(indexes: Seq<MongoIndexModel>, n: nat, i: int) -> bool {
    &&& 0 <= i < n
    &&& indexes[i].is_key_index()
    &&& forall|j: int| 0 <= j < n && (#[trigger] indexes[j]).claims_keys() ==> j == i
}

spec fn only_ttl_index(indexes: Seq<MongoIndexModel>, n: nat, i: int) -> bool {
    &&& 0 <= i < n
    &&& indexes[i].is_ttl_index()
    &&& forall|j: int|
        0 <= j < n && (#[trigger] indexes[j]).claims_expiry() && !indexes[j].claims_keys() ==> j
            == i
}

proof fn lemma_inspected(collection: Seq<char>, indexes: Seq<MongoIndexModel>, n: nat)
    requires
        n <= indexes.len(),
    ensures
        inspected(collection, indexes, n) matches Ok((keys, expiry)) ==> {
            &&& keys ==> exists|i: int| only_key_index(indexes, n, i)
            &&& !keys ==> forall|j: int| 0 <= j < n ==> !(#[trigger] indexes[j]).claims_keys()
            &&& expiry ==> exists|i: int| only_ttl_index(indexes, n, i)
            &&& !expiry ==> forall|j: int|
                0 <= j < n ==> !(#[trigger] indexes[j]).claims_expiry()
                    || indexes[j].claims_keys()
        },
    decreases n,
{
    if n > 0 {
        let m = (n - 1) as nat;
        lemma_inspected(collection, indexes, m);
        if let Ok((keys, expiry)) = inspected(collection, indexes, n) {
            let (k0, e0) = inspected(collection, indexes, m)->Ok_0;
            if keys {
                if k0 {
                    let i = choose|i: int| only_key_index(indexes, m, i);
                    assert(only_key_index(indexes, n, i));
                } else {
                    assert(only_key_index(indexes, n, n - 1));
                }
            }
            if expiry {
                if e0 {
                    let i = choose|i: int| only_ttl_index(indexes, m, i);
                    assert(only_ttl_index(indexes, n, i));
                } else {
                    assert(only_ttl_index(indexes, n, n - 1));
                }
            }
        }
    }
}

impl MongoIndex {
    fn is_on(&self, field: &str) -> (on: bool)
        ensures
            on == self@.is_on(field@),
    {
        let ghost wanted = seq![(field@, IndexDirection::Int32(1))];
        if self.keys.len() != 1 {
            assert(self@.keys.len() != wanted.len());
            return false;
        }
        let on = str_eq(self.keys[0].0.as_str(), field) && self.keys[0].1 == IndexDirection::Int32(
            1,
        );
        proof {
            assert(self@.keys[0] == (self.keys@[0].0@, self.keys@[0].1));
            assert(wanted[0] == (field@, IndexDirection::Int32(1)));
            if on {
                assert(self@.keys =~= wanted);
            }
        }
        on
    }

    fn is_named(&self, name: &str) -> (named: bool)
        ensures
            named == (self@.name == Some(name@)),
    {
        match &self.name {
            Some(n) => str_eq(n.as_str(), name),
            None => false,
        }
    }

    fn is_plain(&self) -> (plain: bool)
        ensures
            plain == self@.is_plain(),
    {
        let sparse = match self.sparse {
            Some(b) => b,
            None => false,
        };
        let hidden = match self.hidden {
            Some(b) => b,
            None => false,
        };
        !sparse && !self.has_partial_filter && !self.has_collation && !hidden
    }

    fn is_unique(&self) -> (unique: bool)
        ensures
            unique == (self.unique == Some(true)),
    {
        match self.unique {
            Some(b) => b,
            None => false,
        }
    }
}

/// Whether the indexes of a collection hold the one on keys and the one on times of expiry.
pub fn inspect_collection_indexes(collection: &str, indexes: &Vec<MongoIndex>) -> (found: Result<
    (bool, bool),
>)
    ensures
        match found {
            Ok(f) => inspected(collection@, indexes_model(indexes@), indexes@.len()) == Ok::<
                _,
                ErrorModel,
            >(f),
            Err(e) => inspected(collection@, indexes_model(indexes@), indexes@.len()) == Err::<
                (bool, bool),
                _,
            >(e@),
        },
{
    let ghost models = indexes_model(indexes@);
    let mut keys = false;
    let mut expiry = false;
    let mut i: usize = 0;
    while i < indexes.len()
        invariant
            i <= indexes@.len(),
            models == indexes_model(indexes@),
            inspected(collection@, models, i as nat) == Ok::<_, ErrorModel>((keys, expiry)),
        decreases indexes@.len() - i,
    {
        let index = &indexes[i];
        proof {
            assert(models[i as int] == index@);
            if inspected(collection@, models, (i + 1) as nat) is Err {
                lemma_inspected_prefix(collection@, models, (i + 1) as nat, models.len());
            }
        }
        let on_keys = index.is_on("key");
        let key_name = index.is_named("openkeyv_key_unique");
        if on_keys || key_name {
            let valid = on_keys && key_name && index.is_unique() && index.expire_after.is_none()
                && index.is_plain();
            if !valid || keys {
                let mut message = concat("MongoDB collection ", collection);
                message.append(" has an invalid or duplicate key index");
                return Err(Error::StoreSetup { message });
            }
            keys = true;
        } else {
            let on_expiry = index.is_on("expires_at");
            let ttl_name = index.is_named("openkeyv_expires_ttl");
            if on_expiry || ttl_name {
                let at_once = match index.expire_after {
                    Some(seconds) => seconds == 0,
                    None => false,
                };
                let valid = on_expiry && ttl_name && at_once && !index.is_unique()
                    && index.is_plain();
                if !valid || expiry {
                    let mut message = concat("MongoDB collection ", collection);
                    message.append(" has an invalid or duplicate TTL index");
                    return Err(Error::StoreSetup { message });
                }
                expiry = true;
            }
        }
        i += 1;
    }
    Ok((keys, expiry))
}

proof fn lemma_inspected_prefix(
    collection: Seq<char>,
    indexes: Seq<MongoIndexModel>,
    k: nat,
    n: nat,
)
    requires
        k <= n,
        inspected(collection, indexes, k) is Err,
    ensures
        inspected(collection, indexes, n) == inspected(collection, indexes, k),
    decreases n - k,
{
    if k < n {
        lemma_inspected_prefix(collection, indexes, k, (n - 1) as nat);
    }
}

impl IndexStage {
    /// The first stage of a collection's setup.
    pub fn start(exists: bool) -> (stage: Self)
        ensures
            stage == first_stage(exists),
    {
        if exists {
            IndexStage::Inspect
        } else {
            IndexStage::Create { keys: true, expiry: true }
        }
    }

    /// What the making of the missing indexes leads to: they are read once more.
    pub fn after_creating(self) -> (next: Self)
        requires
            self is Create,
        ensures
            next == IndexStage::Verify,
    {
        IndexStage::Verify
    }

    /// What the reading of a collection's indexes leads to.
    pub fn after_reading(self, collection: &str, indexes: &Vec<MongoIndex>) -> (next: Result<Self>)
        requires
            self is Inspect || self is Verify,
        ensures
            match next {
                Ok(s) => stage_after(self, collection@, indexes_model(indexes@)) == Ok::<
                    _,
                    ErrorModel,
                >(s),
                Err(e) => stage_after(self, collection@, indexes_model(indexes@)) == Err::<
                    IndexStage,
                    _,
                >(e@),
            },
    {
        let (keys, expiry) = inspect_collection_indexes(collection, indexes)?;
        let first = match self {
            IndexStage::Inspect => true,
            _ => false,
        };
        if keys && expiry {
            Ok(
                if first {
                    IndexStage::Verify
                } else {
                    IndexStage::Ready
                },
            )
        } else if first {
            Ok(IndexStage::Create { keys: !keys, expiry: !expiry })
        } else {
            let mut message = concat("MongoDB collection ", collection);
            message.append(" is missing required OpenKeyV indexes");
            Err(Error::StoreSetup { message })
        }
    }
}

} // verus!
