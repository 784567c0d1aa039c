//! The concurrent maps that hold the collections, and what is relied on of them.
//!
//! A shelf maps the keys of one collection to entries with revisions. The rack maps
//! collection names to shelves.

use crate::cas::CasModel;
use crate::entry::ManagedEntry;
use crate::protocol::Revision;
use crate::text::texts;
use dashmap::DashMap;
use vstd::prelude::*;

verus! {

/// `dashmap::DashMap`, a concurrent hash map.
#[verifier::external_type_specification]
#[verifier::external_body]
#[verifier::reject_recursive_types(K)]
#[verifier::reject_recursive_types(V)]
#[verifier::reject_recursive_types(S)]
pub struct ExDashMap<K, V, S>(dashmap::DashMap<K, V, S>);

/// A stored entry paired with its opaque revision.
#[derive(Debug)]
pub struct RevisionedEntry {
    pub entry: ManagedEntry,
    pub revision: Revision,
}

impl View for RevisionedEntry {
    type V = CasModel;

    open spec fn view(&self) -> CasModel {
        CasModel { entry: self.entry@, revision: self.revision@ }
    }
}

impl Clone for RevisionedEntry {
    fn clone(&self) -> (entry: Self)
        ensures
            entry@ == self@,
    {
        RevisionedEntry { entry: self.entry.clone(), revision: self.revision }
    }
}

/// The model of a shelf.
pub type Entries = Map<Seq<char>, CasModel>;

/// The model of a rack.
pub type Shelves = Map<Seq<char>, Map<Seq<char>, CasModel>>;

/// The entries of one collection.
pub type Shelf = DashMap<String, RevisionedEntry>;

/// All collections.
pub type Rack = DashMap<String, Shelf>;

/// What a shelf holds.
pub uninterp spec fn shelf_entries(shelf: Shelf) -> Entries;

/// What a rack holds.
pub uninterp spec fn rack_shelves(rack: Rack) -> Shelves;

/// `DashMap::new` makes an empty map.
#[verifier::external_body]
pub(crate) fn shelf_new() -> (shelf: Shelf)
    ensures
        shelf_entries(shelf) == Entries::empty(),
{
    DashMap::new()
}

/// `DashMap::insert` gives a key a value, in place of an earlier one.
#[verifier::external_body]
pub(crate) fn shelf_insert(shelf: &mut Shelf, key: String, entry: RevisionedEntry)
    ensures
        shelf_entries(*final(shelf)) == shelf_entries(*old(shelf)).insert(key@, entry@),
{
    shelf.insert(key, entry);
}

/// `DashMap::remove` takes a key out of the map and says whether it was there.
#[verifier::external_body]
pub(crate) fn shelf_remove(shelf: &mut Shelf, key: &str) -> (removed: bool)
    ensures
        shelf_entries(*final(shelf)) == shelf_entries(*old(shelf)).remove(key@),
        removed == shelf_entries(*old(shelf)).dom().contains(key@),
{
    shelf.remove(key).is_some()
}

/// `DashMap::get` finds the value of a key; the entry handed out is a copy.
#[verifier::external_body]
pub(crate) fn shelf_get(shelf: &Shelf, key: &str) -> (entry: Option<RevisionedEntry>)
    ensures
        match entry {
            Some(e) => shelf_entries(*shelf).dom().contains(key@) && shelf_entries(*shelf)[key@]
                == e@,
            None => !shelf_entries(*shelf).dom().contains(key@),
        },
{
    shelf.get(key).map(|entry| entry.value().clone())
}

/// `DashMap::len` counts the keys.
#[verifier::external_body]
pub(crate) fn shelf_len(shelf: &Shelf) -> (len: usize)
    ensures
        len == shelf_entries(*shelf).dom().len(),
{
    shelf.len()
}

/// `DashMap::iter` visits every key once, in an order of its own.
#[verifier::external_body]
pub(crate) fn shelf_keys(shelf: &Shelf) -> (keys: Vec<String>)
    ensures
        texts(keys@).no_duplicates(),
        texts(keys@).to_set() == shelf_entries(*shelf).dom(),
{
    shelf.iter().map(|entry| entry.key().clone()).collect()
}

/// `DashMap::new` makes an empty map.
#[verifier::external_body]
pub(crate) fn rack_new() -> (rack: Rack)
    ensures
        rack_shelves(rack) == Shelves::empty(),
{
    DashMap::new()
}

/// `DashMap::insert` gives a name a shelf, in place of an earlier one.
#[verifier::external_body]
pub(crate) fn rack_insert(rack: &mut Rack, name: String, shelf: Shelf)
    ensures
        rack_shelves(*final(rack)) == rack_shelves(*old(rack)).insert(name@, shelf_entries(shelf)),
{
    rack.insert(name, shelf);
}

/// `DashMap::remove` takes a name out of the map and hands out its shelf.
#[verifier::external_body]
pub(crate) fn rack_remove(rack: &mut Rack, name: &str) -> (shelf: Option<Shelf>)
    ensures
        rack_shelves(*final(rack)) == rack_shelves(*old(rack)).remove(name@),
        match shelf {
            Some(s) => rack_shelves(*old(rack)).dom().contains(name@) && rack_shelves(
                *old(rack),
            )[name@] == shelf_entries(s),
            None => !rack_shelves(*old(rack)).dom().contains(name@),
        },
{
    rack.remove(name).map(|(_, shelf)| shelf)
}

/// `DashMap::iter` visits every name once, in an order of its own.
#[verifier::external_body]
pub(crate) fn rack_names(rack: &Rack) -> (names: Vec<String>)
    ensures
        texts(names@).no_duplicates(),
        texts(names@).to_set() == rack_shelves(*rack).dom(),
{
    rack.iter().map(|entry| entry.key().clone()).collect()
}

/// `DashMap::clear` empties the map.
#[verifier::external_body]
pub(crate) fn rack_clear(rack: &mut Rack)
    ensures
        rack_shelves(*final(rack)) == Shelves::empty(),
{
    rack.clear()
}

} // verus!
