//! The configuration of a store in memory.

use crate::value::{Value, ValueModel};
use vstd::prelude::*;

verus! {

/// What a store holds from the start: for each collection, keys and values.
pub type SeedData = Vec<(String, Vec<(String, Value)>)>;

/// The model of one collection's seed.
pub type ItemsModel = Seq<(Seq<char>, ValueModel)>;

/// The model of [`SeedData`].
pub type SeedModel = Seq<(Seq<char>, ItemsModel)>;

/// How a store in memory is set up.
#[derive(Clone, Debug, PartialEq, Eq)]
pub struct MemoryConfig {
    pub max_entries_per_collection: Option<usize>,
    pub default_collection: String,
    pub seed: Option<SeedData>,
}

/// The model of one collection's seed.
pub open spec fn items_model(items: Seq<(String, Value)>) -> ItemsModel {
    items.map_values(|item: (String, Value)| (item.0@, item.1@))
}

/// The model of a seed.
pub open spec fn seed_model(seed: Option<SeedData>) -> SeedModel {
    match seed {
        Some(data) => data@.map_values(
            |part: (String, Vec<(String, Value)>)| (part.0@, items_model(part.1@)),
        ),
        None => Seq::empty(),
    }
}

/// The name of the collection that is used where none is given.
pub open spec fn default_name(given: Option<String>) -> Seq<char> {
    match given {
        Some(name) => name@,
        None => "default_collection"@,
    }
}

/// The given name, or that of the default collection.
pub fn name_or_default(given: Option<String>) -> (name: String)
    ensures
        name@ == default_name(given),
{
    match given {
        Some(name) => name,
        None => "default_collection".to_owned(),
    }
}

impl MemoryConfig {
    pub fn new(
        max_entries_per_collection: Option<usize>,
        default_collection: Option<String>,
        seed: Option<SeedData>,
    ) -> (config: Self)
        ensures
            config.max_entries_per_collection == max_entries_per_collection,
            config.default_collection@ == default_name(default_collection),
            config.seed == seed,
    {
        MemoryConfig {
            max_entries_per_collection,
            default_collection: name_or_default(default_collection),
            seed,
        }
    }
}

impl Default for MemoryConfig {
    fn default() -> (config: Self)
        ensures
            config.max_entries_per_collection is None,
            config.default_collection@ == "default_collection"@,
            config.seed is None,
    {
        MemoryConfig::new(None, None, None)
    }
}

} // verus!
