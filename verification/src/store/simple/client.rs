//! What a plain store holds.

use crate::entry::{EntryModel, ManagedEntry};
use crate::ordered::KeyMap;
use vstd::prelude::*;

verus! {

/// The collections, and in each its entries.
pub type SimpleData = KeyMap<KeyMap<ManagedEntry>>;

/// The entries of one collection.
pub type ShelfModel = Map<Seq<char>, EntryModel>;

/// The model of [`SimpleData`].
pub type DataModel = Map<Seq<char>, ShelfModel>;

/// The model of a collection.
pub open spec fn shelf_model(shelf: Map<Seq<char>, ManagedEntry>) -> ShelfModel {
    shelf.map_values(|e: ManagedEntry| e@)
}

/// The holder of a plain store's data.
pub struct SimpleClient {
    data: SimpleData,
}

impl View for SimpleClient {
    type V = DataModel;

    closed spec fn view(&self) -> DataModel {
        self.data@.map_values(|m: KeyMap<ManagedEntry>| shelf_model(m@))
    }
}

impl SimpleClient {
    /// Every collection's keys are in order.
    pub closed spec fn wf(&self) -> bool {
        &&& self.data.wf()
        &&& forall|name: Seq<char>|
            self.data@.dom().contains(name) ==> (#[trigger] self.data@[name]).wf()
    }

    pub fn new() -> (client: Self)
        ensures
            client.wf(),
            client@ == DataModel::empty(),
    {
        let client = SimpleClient { data: KeyMap::new() };
        assert(client@ =~= DataModel::empty());
        client
    }

    /// The entry under a key of a collection.
    pub fn find(&self, name: &str, key: &str) -> (entry: Option<&ManagedEntry>)
        requires
            self.wf(),
        ensures
            match entry {
                Some(e) => self@.dom().contains(name@) && self@[name@].dom().contains(key@)
                    && self@[name@][key@] == e@,
                None => !(self@.dom().contains(name@) && self@[name@].dom().contains(key@)),
            },
    {
        match self.data.get(name) {
            Some(shelf) => shelf.get(key),
            None => None,
        }
    }

    /// Takes a collection out.
    pub fn take(&mut self, name: &str) -> (shelf: Option<KeyMap<ManagedEntry>>)
        requires
            old(self).wf(),
        ensures
            final(self).wf(),
            final(self)@ == old(self)@.remove(name@),
            match shelf {
                Some(s) => s.wf() && old(self)@.dom().contains(name@) && shelf_model(s@) == old(
                    self,
                )@[name@],
                None => !old(self)@.dom().contains(name@),
            },
    {
        let ghost before = self@;
        let shelf = self.data.remove(name);
        assert(self@ =~= before.remove(name@));
        shelf
    }

    /// Puts a collection in its place.
    pub fn place(&mut self, name: &str, shelf: KeyMap<ManagedEntry>)
        requires
            old(self).wf(),
            shelf.wf(),
        ensures
            final(self).wf(),
            final(self)@ == old(self)@.insert(name@, shelf_model(shelf@)),
    {
        let ghost before = self@;
        let ghost model = shelf_model(shelf@);
        let _ = self.data.insert(name.to_owned(), shelf);
        assert(self@ =~= before.insert(name@, model));
    }

    /// The names of the collections.
    pub fn names(&self) -> (names: Vec<String>)
        requires
            self.wf(),
        ensures
            crate::text::texts(names@).to_set() == self@.dom(),
            crate::text::texts(names@).no_duplicates(),
    {
        let names = self.data.keys();
        assert(self.data@.dom() =~= self@.dom());
        names
    }

    /// The keys of a collection; none where there is no such collection.
    pub fn keys(&self, name: &str) -> (keys: Vec<String>)
        requires
            self.wf(),
        ensures
            crate::text::texts(keys@).no_duplicates(),
            crate::text::texts(keys@).to_set() == (if self@.dom().contains(name@) {
                self@[name@].dom()
            } else {
                Set::empty()
            }),
    {
        match self.data.get(name) {
            Some(shelf) => {
                let keys = shelf.keys();
                assert(shelf@.dom() =~= self@[name@].dom());
                keys
            },
            None => {
                let keys: Vec<String> = Vec::new();
                assert(crate::text::texts(keys@).to_set() =~= Set::empty());
                keys
            },
        }
    }
}

} // verus!
