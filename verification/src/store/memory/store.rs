//! The store in memory.
//!
//! Every operation is told the time. Entries that have expired count as absent. Writes get a
//! fresh revision and are recorded in the change log.

use crate::cas::CasModel;
use crate::change::{ChangeOperation, StoreChange};
use crate::entry::{entry_for, ttl_fault, EntryModel, ManagedEntry};
use crate::error::{Error, ErrorModel, Result};
use crate::protocol::{
    CompareAndDeleteResult, CompareAndSwapResult, DeleteModel, Revision, RevisionedValue, SwapModel,
};
use crate::store::memory::bounds::{
    law_all_deleted_wf, law_cleared_wf, law_collection_destroyed_wf, law_culled_wf, law_deleted_wf,
    law_part_wf, law_prepared_wf, law_set_up_failed_wf, law_set_up_wf, law_stored_wf,
    law_with_collection_wf, lemma_parts_planted_wf,
};
use crate::store::memory::capacity::{
    alive, drop_expired, enforce_capacity, expired_keys, limited, lists_deleted,
};
use crate::store::memory::client::{ChangeLog, LogModel, MemoryChangeStream};
use crate::store::memory::config::{seed_model, ItemsModel, MemoryConfig, SeedData, SeedModel};
use crate::store::memory::shelf::{
    rack_clear, rack_insert, rack_names, rack_new, rack_remove, rack_shelves, shelf_entries,
    shelf_get, shelf_insert, shelf_keys, shelf_new, shelf_remove, Entries, Rack, RevisionedEntry,
    Shelf, Shelves,
};
use crate::store::page::{is_page, page_limit, page_of, page_size};
use crate::text::texts;
use crate::value::{Value, ValueModel};
use vstd::prelude::*;
#[allow(unused_imports)]
use vstd::string::*;

verus! {

/// An in-memory key-value store with an optional per-collection entry limit.
pub struct MemoryStore {
    rack: Rack,
    ready: bool,
    log: ChangeLog,
    config: MemoryConfig,
}

/// The model of [`MemoryStore`].
#[verifier::ext_equal]
pub struct MemoryModel {
    /// The collections and what they hold.
    pub shelves: Shelves,
    /// Whether the seed has been planted.
    pub ready: bool,
    /// The change log.
    pub log: LogModel,
    /// How many entries a collection may hold.
    pub limit: Option<usize>,
    /// The collection that is used where none is named.
    pub default_collection: Seq<char>,
    /// What the store holds from the start.
    pub seed: SeedModel,
}

impl View for MemoryStore {
    type V = MemoryModel;

    closed spec fn view(&self) -> MemoryModel {
        MemoryModel {
            shelves: rack_shelves(self.rack),
            ready: self.ready,
            log: self.log@,
            limit: self.config.max_entries_per_collection,
            default_collection: self.config.default_collection@,
            seed: seed_model(self.config.seed),
        }
    }
}

/// The model of an optional name.
pub open spec fn name_model(collection: Option<&str>) -> Option<Seq<char>> {
    match collection {
        Some(name) => Some(name@),
        None => None,
    }
}

/// The collection of that name; empty where there is none.
pub open spec fn shelf_of(shelves: Shelves, name: Seq<char>) -> Entries {
    if shelves.dom().contains(name) {
        shelves[name]
    } else {
        Map::empty()
    }
}

/// `shelf` with entries put in one after the other, the last one winning.
pub open spec fn filled(
    shelf: Entries,
    items: Seq<(Seq<char>, EntryModel)>,
    revisions: Seq<Seq<u8>>,
) -> Entries
    decreases items.len(),
{
    if items.len() == 0 {
        shelf
    } else {
        filled(shelf, items.drop_last(), revisions).insert(
            items.last().0,
            CasModel { entry: items.last().1, revision: revisions[items.len() - 1] },
        )
    }
}

/// Entries that never expire, made at `now`.
pub open spec fn lasting(items: ItemsModel, now: i64) -> Seq<(Seq<char>, EntryModel)> {
    items.map_values(
        |item: (Seq<char>, ValueModel)|
            (
                item.0,
                EntryModel { value: item.1, created_at: Some(now), expires_at: None },
            ),
    )
}

/// The collections after the seed was planted with the given revisions.
pub open spec fn planted(
    shelves: Shelves,
    seed: SeedModel,
    revisions: Seq<Seq<Seq<u8>>>,
    limit: Option<usize>,
    now: i64,
) -> Shelves
    decreases seed.len(),
{
    if seed.len() == 0 {
        shelves
    } else {
        let before = planted(shelves, seed.drop_last(), revisions, limit, now);
        let name = seed.last().0;
        before.insert(
            name,
            limited(
                filled(
                    shelf_of(before, name),
                    lasting(seed.last().1, now),
                    revisions[seed.len() - 1],
                ),
                limit,
                now,
            ),
        )
    }
}

/// The collections after planting broke off: the parts before `part` are planted, and of that part
/// the first `count` items.
pub open spec fn partly_planted(
    shelves: Shelves,
    seed: SeedModel,
    revisions: Seq<Seq<Seq<u8>>>,
    limit: Option<usize>,
    part: int,
    count: int,
    now: i64,
) -> Shelves {
    let before = planted(shelves, seed.take(part), revisions, limit, now);
    let name = seed[part].0;
    before.insert(
        name,
        filled(
            shelf_of(before, name),
            lasting(seed[part].1, now).take(count),
            revisions[part],
        ),
    )
}

impl MemoryModel {
    /// The collection that an optional name stands for.
    pub open spec fn name(self, collection: Option<Seq<char>>) -> Seq<char> {
        match collection {
            Some(name) => name,
            None => self.default_collection,
        }
    }

    /// Whether `after` is this store once its seed is planted, with whatever revisions.
    pub open spec fn set_up(self, after: MemoryModel, now: i64) -> bool {
        if self.ready {
            after == self
        } else {
            exists|revisions: Seq<Seq<Seq<u8>>>|
                after == (MemoryModel {
                    ready: true,
                    shelves: #[trigger] planted(
                        self.shelves,
                        self.seed,
                        revisions,
                        self.limit,
                        now,
                    ),
                    ..self
                })
        }
    }

    /// Whether planting the seed broke off at an item for which no revision could be drawn: what
    /// comes before it is planted, the store is not ready, and nothing else changed.
    pub open spec fn set_up_failed(self, after: MemoryModel, now: i64) -> bool {
        &&& !self.ready
        &&& exists|revisions: Seq<Seq<Seq<u8>>>, part: int, count: int|
            {
                &&& 0 <= part < self.seed.len()
                &&& 0 <= count < self.seed[part].1.len()
                &&& after == (MemoryModel {
                    shelves: #[trigger] partly_planted(
                        self.shelves,
                        self.seed,
                        revisions,
                        self.limit,
                        part,
                        count,
                        now,
                    ),
                    ..self
                })
            }
    }

    /// The store with the collection made where it was missing.
    pub open spec fn with_collection(self, name: Seq<char>) -> MemoryModel {
        MemoryModel { shelves: self.shelves.insert(name, shelf_of(self.shelves, name)), ..self }
    }

    /// Whether `after` is this store, set up and with the collection made.
    pub open spec fn prepared(self, after: MemoryModel, name: Seq<char>, now: i64) -> bool {
        exists|mid: MemoryModel| #[trigger]
            self.set_up(mid, now) && after == mid.with_collection(name)
    }

    /// What a reader finds under a key at `now`.
    pub open spec fn found(self, name: Seq<char>, key: Seq<char>, now: i64) -> Option<CasModel> {
        let shelf = shelf_of(self.shelves, name);
        if shelf.dom().contains(key) && !shelf[key].entry.expired(now) {
            Some(shelf[key])
        } else {
            None
        }
    }

    /// The store with one collection replaced.
    pub open spec fn with_shelf(self, name: Seq<char>, shelf: Entries) -> MemoryModel {
        MemoryModel { shelves: self.shelves.insert(name, shelf), ..self }
    }

    /// The store with one more change recorded.
    pub open spec fn recorded(
        self,
        name: Seq<char>,
        key: Seq<char>,
        operation: ChangeOperation,
        now: i64,
    ) -> MemoryModel {
        MemoryModel { log: self.log.recorded(name, key, operation, now), ..self }
    }

    /// The store with the same operation recorded for each of `keys`.
    pub open spec fn recorded_all(
        self,
        name: Seq<char>,
        keys: Seq<Seq<char>>,
        operation: ChangeOperation,
        now: i64,
    ) -> MemoryModel {
        MemoryModel { log: self.log.recorded_all(name, keys, operation, now), ..self }
    }

    /// Whether `after` is this store after entries were put into a collection: the limit is
    /// enforced once, each key is recorded as put, and then what left as deleted.
    pub open spec fn stored(
        self,
        after: MemoryModel,
        name: Seq<char>,
        items: Seq<(Seq<char>, EntryModel)>,
        revisions: Seq<Seq<u8>>,
        now: i64,
    ) -> bool {
        let full = filled(shelf_of(self.shelves, name), items, revisions);
        let keys = crate::ordered::dict_keys(items);
        exists|deleted: Seq<Seq<char>>| #[trigger]
            lists_deleted(deleted, full, self.limit, now) && after == self.with_shelf(
                name,
                limited(full, self.limit, now),
            ).recorded_all(name, keys, ChangeOperation::Put, now).recorded_all(
                name,
                deleted,
                ChangeOperation::Delete,
                now,
            )
    }

    /// Whether a compare-and-swap writes: where the entry is absent and no revision is expected, or
    /// where the entry has just the expected revision. An expired entry is absent.
    pub open spec fn swap_applies(
        self,
        name: Seq<char>,
        key: Seq<char>,
        expected: Option<Seq<u8>>,
        now: i64,
    ) -> bool {
        match self.found(name, key, now) {
            Some(current) => expected == Some(current.revision),
            None => expected is None,
        }
    }

    /// The answer to a compare-and-swap.
    pub open spec fn swap_answer(
        self,
        name: Seq<char>,
        key: Seq<char>,
        expected: Option<Seq<u8>>,
        revision: Seq<u8>,
        now: i64,
    ) -> SwapModel {
        if self.swap_applies(name, key, expected, now) {
            SwapModel::Applied { revision }
        } else {
            SwapModel::Conflict {
                current: match self.found(name, key, now) {
                    Some(current) => current.visible(now),
                    None => None,
                },
            }
        }
    }

    /// Whether `after` is this store after a compare-and-swap: a write that applies is stored as a
    /// put is, under the limit; a conflict on an expired entry takes it out.
    pub open spec fn swapped(
        self,
        after: MemoryModel,
        name: Seq<char>,
        key: Seq<char>,
        expected: Option<Seq<u8>>,
        entry: EntryModel,
        revision: Seq<u8>,
        now: i64,
    ) -> bool {
        let shelf = shelf_of(self.shelves, name);
        if self.swap_applies(name, key, expected, now) {
            self.stored(after, name, seq![(key, entry)], seq![revision], now)
        } else {
            after == self.with_shelf(
                name,
                match self.found(name, key, now) {
                    Some(_) => shelf,
                    None => shelf.remove(key),
                },
            )
        }
    }

    /// The answer to a compare-and-delete, and the store after it.
    pub open spec fn cleared(
        self,
        name: Seq<char>,
        key: Seq<char>,
        expected: Seq<u8>,
        now: i64,
    ) -> (DeleteModel, MemoryModel) {
        let shelf = shelf_of(self.shelves, name);
        match self.found(name, key, now) {
            Some(current) => if expected == current.revision {
                (
                    DeleteModel::Deleted,
                    self.with_shelf(name, shelf.remove(key)).recorded(
                        name,
                        key,
                        ChangeOperation::Delete,
                        now,
                    ),
                )
            } else {
                (
                    DeleteModel::Conflict { current: current.visible(now) },
                    self.with_shelf(name, shelf),
                )
            },
            None => (
                DeleteModel::Conflict { current: None },
                self.with_shelf(name, shelf.remove(key)),
            ),
        }
    }
}

impl MemoryStore {
    /// Whether every collection holds what it may, and the change log is well-formed.
    pub open spec fn wf(&self) -> bool {
        self@.wf()
    }

    pub fn new() -> (store: Self)
        ensures
            store.wf(),
            store@ == (MemoryModel {
                shelves: Map::empty(),
                ready: false,
                log: LogModel { revision: 0, entries: Seq::empty() },
                limit: None,
                default_collection: "default_collection"@,
                seed: Seq::empty(),
            }),
    {
        MemoryStore::with_options(None, None, None)
    }

    pub fn with_options(
        max_entries_per_collection: Option<usize>,
        default_collection: Option<String>,
        seed: Option<SeedData>,
    ) -> (store: Self)
        ensures
            store.wf(),
            store@ == (MemoryModel {
                shelves: Map::empty(),
                ready: false,
                log: LogModel { revision: 0, entries: Seq::empty() },
                limit: max_entries_per_collection,
                default_collection: crate::store::memory::config::default_name(default_collection),
                seed: seed_model(seed),
            }),
    {
        MemoryStore::with_config(
            MemoryConfig::new(max_entries_per_collection, default_collection, seed),
        )
    }

    pub fn with_config(config: MemoryConfig) -> (store: Self)
        ensures
            store.wf(),
            store@ == (MemoryModel {
                shelves: Map::empty(),
                ready: false,
                log: LogModel { revision: 0, entries: Seq::empty() },
                limit: config.max_entries_per_collection,
                default_collection: config.default_collection@,
                seed: seed_model(config.seed),
            }),
    {
        MemoryStore { rack: rack_new(), ready: false, log: ChangeLog::new(), config }
    }

    /// The collection that an optional name stands for.
    pub fn collection_name(&self, collection: Option<&str>) -> (name: String)
        ensures
            name@ == self@.name(name_model(collection)),
    {
        match collection {
            Some(name) => name.to_owned(),
            None => self.config.default_collection.clone(),
        }
    }

    /// Takes a collection off the rack, or makes an empty one.
    fn take_shelf(&mut self, name: &str) -> (shelf: Shelf)
        ensures
            shelf_entries(shelf) == shelf_of(old(self)@.shelves, name@),
            final(self)@ == (MemoryModel {
                shelves: old(self)@.shelves.remove(name@),
                ..old(self)@
            }),
    {
        match rack_remove(&mut self.rack, name) {
            Some(shelf) => shelf,
            None => shelf_new(),
        }
    }

    /// Puts a collection on the rack.
    fn put_shelf(&mut self, name: &str, shelf: Shelf)
        ensures
            final(self)@ == old(self)@.with_shelf(name@, shelf_entries(shelf)),
    {
        rack_insert(&mut self.rack, name.to_owned(), shelf);
    }

    /// Plants the seed, where that is still to be done.
    fn setup(&mut self, now: i64) -> (result: Result<()>)
        requires
            old(self).wf(),
        ensures
            final(self).wf(),
            match result {
                Ok(_) => old(self)@.set_up(final(self)@, now),
                Err(e) => e@ is RevisionGeneration && old(self)@.set_up_failed(final(self)@, now),
            },
    {
        if self.ready {
            return Ok(());
        }
        let ghost start = self@;
        let ghost mut revisions: Seq<Seq<Seq<u8>>> = Seq::empty();
        let parts: usize = match &self.config.seed {
            Some(seed) => seed.len(),
            None => 0,
        };
        let mut i: usize = 0;
        proof {
            assert(start.seed.take(0) =~= Seq::empty());
        }
        while i < parts
            invariant
                start.wf(),
                !self.ready,
                start == old(self)@,
                parts == start.seed.len(),
                i <= parts,
                revisions.len() == i,
                self@ == (MemoryModel {
                    shelves: planted(
                        start.shelves,
                        start.seed.take(i as int),
                        revisions,
                        start.limit,
                        now,
                    ),
                    ..start
                }),
            decreases parts - i,
        {
            let ghost before = self@;
            proof {
                lemma_parts_planted_wf(start, i as int, revisions, now);
            }
            let count: usize = self.seed_count(i);
            let mut drawn: Vec<Revision> = Vec::new();
            while drawn.len() < count
                invariant
                    start.wf(),
                    !self.ready,
                    self@ == before,
                    start == old(self)@,
                    !start.ready,
                    before == (MemoryModel {
                        shelves: planted(
                            start.shelves,
                            start.seed.take(i as int),
                            revisions,
                            start.limit,
                            now,
                        ),
                        ..start
                    }),
                    i < start.seed.len(),
                    revisions.len() == i,
                    count == start.seed[i as int].1.len(),
                    drawn@.len() <= count,
                decreases count - drawn@.len(),
            {
                match Revision::fresh() {
                    Ok(revision) => drawn.push(revision),
                    Err(e) => {
                        self.plant_items(i, &drawn, now);
                        proof {
                            let all = revisions.push(revisions_model(drawn@));
                            lemma_planted_revisions(
                                start.shelves,
                                start.seed.take(i as int),
                                revisions,
                                all,
                                start.limit,
                                now,
                            );
                            assert(self@ =~= MemoryModel {
                                shelves: partly_planted(
                                    start.shelves,
                                    start.seed,
                                    all,
                                    start.limit,
                                    i as int,
                                    drawn@.len() as int,
                                    now,
                                ),
                                ..start
                            });
                            assert(start.set_up_failed(self@, now));
                            law_set_up_failed_wf(start, self@, now);
                        }
                        return Err(e);
                    },
                }
            }
            self.plant_part(i, &drawn, now);
            proof {
                let so_far = revisions;
                revisions = revisions.push(revisions_model(drawn@));
                let next = start.seed.take(i + 1);
                assert(next.drop_last() =~= start.seed.take(i as int));
                assert(next.last() == start.seed[i as int]);
                lemma_planted_revisions(
                    start.shelves,
                    start.seed.take(i as int),
                    so_far,
                    revisions,
                    start.limit,
                    now,
                );
                assert(self@ =~= MemoryModel {
                    shelves: planted(start.shelves, next, revisions, start.limit, now),
                    ..start
                });
            }
            i += 1;
        }
        self.ready = true;
        proof {
            assert(start.seed.take(i as int) =~= start.seed);
            assert(start.set_up(self@, now));
            law_set_up_wf(start, self@, now);
        }
        Ok(())
    }

    /// Puts the first items of a part of the seed into their collection, as many as there are
    /// revisions for them.
    fn plant_items(&mut self, part: usize, revisions: &Vec<Revision>, now: i64)
        requires
            part < old(self)@.seed.len(),
            revisions@.len() <= old(self)@.seed[part as int].1.len(),
        ensures
            final(self)@ == ({
                let (name, items) = old(self)@.seed[part as int];
                old(self)@.with_shelf(
                    name,
                    filled(
                        shelf_of(old(self)@.shelves, name),
                        lasting(items, now).take(revisions@.len() as int),
                        revisions_model(revisions@),
                    ),
                )
            }),
    {
        let ghost start = self@;
        let name = self.seed_name(part);
        let mut shelf = self.take_shelf(name.as_str());
        let ghost base = shelf_entries(shelf);
        let ghost items = lasting(start.seed[part as int].1, now);
        let ghost made = revisions_model(revisions@);
        let mut j: usize = 0;
        assert(items.take(0) =~= Seq::empty());
        while j < revisions.len()
            invariant
                self@.seed == start.seed,
                self@ == (MemoryModel { shelves: start.shelves.remove(name@), ..start }),
                part < start.seed.len(),
                items == lasting(start.seed[part as int].1, now),
                made == revisions_model(revisions@),
                revisions@.len() <= items.len(),
                j <= revisions@.len(),
                shelf_entries(shelf) == filled(base, items.take(j as int), made),
            decreases revisions@.len() - j,
        {
            let (key, value) = self.seed_item(part, j);
            proof {
                let next = items.take(j + 1);
                assert(next.drop_last() =~= items.take(j as int));
                assert(next.last() == items[j as int]);
                assert(made[j as int] == revisions@[j as int]@);
            }
            shelf_insert(
                &mut shelf,
                key,
                RevisionedEntry { entry: ManagedEntry::new(value, now), revision: revisions[j] },
            );
            j += 1;
        }
        self.put_shelf(name.as_str(), shelf);
        assert(self@ =~= start.with_shelf(
            name@,
            filled(base, items.take(revisions@.len() as int), made),
        )) by {
            assert(start.shelves.remove(name@).insert(name@, shelf_entries(shelf))
                =~= start.shelves.insert(name@, shelf_entries(shelf)));
        }
    }

    /// Plants a part of the seed with the given revisions, under the limit. Nothing is recorded.
    pub fn plant_part(&mut self, part: usize, revisions: &Vec<Revision>, now: i64)
        requires
            old(self).wf(),
            part < old(self)@.seed.len(),
            revisions@.len() == old(self)@.seed[part as int].1.len(),
        ensures
            final(self).wf(),
            final(self)@ == ({
                let (name, items) = old(self)@.seed[part as int];
                old(self)@.with_shelf(
                    name,
                    limited(
                        filled(
                            shelf_of(old(self)@.shelves, name),
                            lasting(items, now),
                            revisions_model(revisions@),
                        ),
                        old(self)@.limit,
                        now,
                    ),
                )
            }),
    {
        let ghost start = self@;
        let name = self.seed_name(part);
        self.plant_items(part, revisions, now);
        let mut shelf = self.take_shelf(name.as_str());
        let ghost full = shelf_entries(shelf);
        let _ = enforce_capacity(&mut shelf, self.config.max_entries_per_collection, now);
        self.put_shelf(name.as_str(), shelf);
        proof {
            let items = lasting(start.seed[part as int].1, now);
            assert(items.take(revisions@.len() as int) =~= items);
            assert(self@.shelves =~= start.shelves.insert(
                name@,
                limited(full, start.limit, now),
            ));
            law_part_wf(start, name@, items, revisions_model(revisions@), now);
        }
    }

    fn seed_name(&self, part: usize) -> (name: String)
        requires
            part < self@.seed.len(),
        ensures
            name@ == self@.seed[part as int].0,
    {
        match &self.config.seed {
            Some(seed) => seed[part].0.clone(),
            None => String::new(),
        }
    }

    fn seed_count(&self, part: usize) -> (count: usize)
        requires
            part < self@.seed.len(),
        ensures
            count == self@.seed[part as int].1.len(),
    {
        match &self.config.seed {
            Some(seed) => seed[part].1.len(),
            None => 0,
        }
    }

    fn seed_item(&self, part: usize, index: usize) -> (item: (String, Value))
        requires
            part < self@.seed.len(),
            index < self@.seed[part as int].1.len(),
        ensures
            (item.0@, item.1@) == self@.seed[part as int].1[index as int],
    {
        match &self.config.seed {
            Some(seed) => (seed[part].1[index].0.clone(), seed[part].1[index].1.clone()),
            None => (String::new(), Value::null()),
        }
    }

    /// Sets the store up and makes a collection where it is missing.
    fn setup_collection(&mut self, name: &str, now: i64) -> (result: Result<()>)
        requires
            old(self).wf(),
        ensures
            final(self).wf(),
            match result {
                Ok(_) => old(self)@.prepared(final(self)@, name@, now),
                Err(e) => e@ is RevisionGeneration && old(self)@.set_up_failed(final(self)@, now),
            },
    {
        self.setup(now)?;
        let ghost mid = self@;
        let shelf = self.take_shelf(name);
        self.put_shelf(name, shelf);
        proof {
            assert(self@ =~= mid.with_collection(name@)) by {
                assert(mid.shelves.remove(name@).insert(name@, shelf_of(mid.shelves, name@))
                    =~= mid.shelves.insert(name@, shelf_of(mid.shelves, name@)));
            }
            assert(old(self)@.set_up(mid, now));
            law_prepared_wf(old(self)@, self@, name@, now);
        }
        Ok(())
    }
}

proof fn lemma_filled_revisions(
    shelf: Entries,
    items: Seq<(Seq<char>, EntryModel)>,
    a: Seq<Seq<u8>>,
    b: Seq<Seq<u8>>,
)
    requires
        forall|i: int| 0 <= i < items.len() ==> a[i] == b[i],
    ensures
        filled(shelf, items, a) == filled(shelf, items, b),
    decreases items.len(),
{
    if items.len() > 0 {
        lemma_filled_revisions(shelf, items.drop_last(), a, b);
    }
}

proof fn lemma_planted_revisions(
    shelves: Shelves,
    seed: SeedModel,
    a: Seq<Seq<Seq<u8>>>,
    b: Seq<Seq<Seq<u8>>>,
    limit: Option<usize>,
    now: i64,
)
    requires
        forall|i: int| 0 <= i < seed.len() ==> a[i] == b[i],
    ensures
        planted(shelves, seed, a, limit, now) == planted(shelves, seed, b, limit, now),
    decreases seed.len(),
{
    if seed.len() > 0 {
        lemma_planted_revisions(shelves, seed.drop_last(), a, b, limit, now);
    }
}

/// The entries for a batch of values put at `now`.
pub open spec fn batch_items(
    keys: Seq<Seq<char>>,
    values: Seq<ValueModel>,
    ttl: Option<i64>,
    now: i64,
) -> Seq<(Seq<char>, EntryModel)> {
    Seq::new(keys.len(), |i: int| (keys[i], entry_for(values[i], ttl, now)->Ok_0))
}

/// The models of a list of values.
pub open spec fn values_model(values: Seq<Value>) -> Seq<ValueModel> {
    values.map_values(|v: Value| v@)
}

/// The keys and entries of a list of entries for a list of keys.
pub open spec fn items_of(keys: Seq<String>, entries: Seq<ManagedEntry>) -> Seq<
    (Seq<char>, EntryModel),
> {
    Seq::new(keys.len(), |i: int| (keys[i]@, entries[i]@))
}

/// The bytes of a list of revisions.
pub open spec fn revisions_model(revisions: Seq<Revision>) -> Seq<Seq<u8>> {
    revisions.map_values(|r: Revision| r@)
}

/// The keys that deleting each of `keys` in turn takes out, in their order.
pub open spec fn taken(shelf: Entries, keys: Seq<Seq<char>>) -> Seq<Seq<char>>
    decreases keys.len(),
{
    if keys.len() == 0 {
        Seq::empty()
    } else {
        let before = taken(shelf, keys.drop_last());
        if shelf.dom().contains(keys.last()) && !keys.drop_last().contains(keys.last()) {
            before.push(keys.last())
        } else {
            before
        }
    }
}

/// What a reader is told of an entry it looked for.
pub open spec fn reads_value(value: Option<Value>, found: Option<CasModel>) -> bool {
    match value {
        Some(v) => found matches Some(c) && v@ == c.entry.value,
        None => found is None,
    }
}

/// What a reader is told of an entry and its time to live.
pub open spec fn reads_ttl(
    value: Option<(Value, Option<u64>)>,
    found: Option<CasModel>,
    now: i64,
) -> bool {
    match value {
        Some((v, ttl)) => found matches Some(c) && v@ == c.entry.value && ttl == c.entry.ttl(now),
        None => found is None,
    }
}

impl MemoryModel {
    /// Whether a key was there, and the store without it: the deletion is recorded where it was.
    pub open spec fn without(self, name: Seq<char>, key: Seq<char>, now: i64) -> (
        bool,
        MemoryModel,
    ) {
        let shelf = shelf_of(self.shelves, name);
        if shelf.dom().contains(key) {
            (
                true,
                self.with_shelf(name, shelf.remove(key)).recorded(
                    name,
                    key,
                    ChangeOperation::Delete,
                    now,
                ),
            )
        } else {
            (false, self)
        }
    }

    /// Whether a collection was there, and the store without it.
    pub open spec fn without_collection(self, name: Seq<char>) -> (bool, MemoryModel) {
        (
            self.shelves.dom().contains(name),
            MemoryModel { shelves: self.shelves.remove(name), ..self },
        )
    }

    /// The store without any collection, its seed to be planted again.
    pub open spec fn emptied(self) -> MemoryModel {
        MemoryModel { shelves: Map::empty(), ready: false, ..self }
    }

    /// How many of some keys were there, and the store without them: each that was there is recorded
    /// as deleted.
    pub open spec fn without_all(self, name: Seq<char>, keys: Seq<Seq<char>>, now: i64) -> (
        nat,
        MemoryModel,
    ) {
        let shelf = shelf_of(self.shelves, name);
        let gone = taken(shelf, keys);
        (
            gone.len(),
            self.with_shelf(name, shelf.remove_keys(keys.to_set())).recorded_all(
                name,
                gone,
                ChangeOperation::Delete,
                now,
            ),
        )
    }

    /// The log after what expired in the first collections was recorded as deleted.
    pub open spec fn culled_log(
        self,
        names: Seq<Seq<char>>,
        lists: Seq<Seq<Seq<char>>>,
        now: i64,
    ) -> LogModel
        decreases names.len(),
    {
        if names.len() == 0 {
            self.log
        } else {
            self.culled_log(names.drop_last(), lists, now).recorded_all(
                names.last(),
                lists[names.len() - 1],
                ChangeOperation::Delete,
                now,
            )
        }
    }

    /// Whether `after` is this store after culling: no expired entry is left, nothing else
    /// changed, and every entry that left is recorded once, collection by collection.
    pub open spec fn culled(self, after: MemoryModel, now: i64) -> bool {
        &&& after.shelves == self.shelves.map_values(|shelf: Entries| alive(shelf, now))
        &&& exists|names: Seq<Seq<char>>, lists: Seq<Seq<Seq<char>>>|
            {
                &&& names.no_duplicates()
                &&& names.to_set() == self.shelves.dom()
                &&& lists.len() == names.len()
                &&& forall|i: int|
                    0 <= i < names.len() ==> {
                        &&& (#[trigger] lists[i]).no_duplicates()
                        &&& lists[i].to_set() == expired_keys(self.shelves[names[i]], now)
                    }
                &&& after.log == #[trigger] self.culled_log(names, lists, now)
            }
        &&& after == (MemoryModel { shelves: after.shelves, log: after.log, ..self })
    }
}

impl MemoryStore {
    /// The log's newest number.
    pub fn revision(&self) -> (revision: u64)
        ensures
            revision == self@.log.revision,
    {
        self.log.revision()
    }

    /// The recorded changes above a number.
    pub fn changes_after(&self, revision: u64) -> (changes: std::collections::VecDeque<StoreChange>)
        ensures
            crate::store::memory::client::changes_model(changes@) == self@.log.after(revision),
    {
        self.log.changes_after(revision)
    }

    /// Opens a subscription.
    pub fn subscribe(&self, request: crate::change::ChangeFeedRequest) -> (stream: Result<
        MemoryChangeStream,
    >)
        requires
            self.wf(),
        ensures
            match stream {
                Ok(s) => self@.log.replay(request.start) == Ok::<_, ErrorModel>(s.pending())
                    && s.wanted() == request.filter,
                Err(e) => self@.log.replay(request.start) == Err::<
                    Seq<crate::change::ChangeModel>,
                    _,
                >(e@),
            },
    {
        let replay = self.log.subscribe(&request.start)?;
        Ok(MemoryChangeStream::new(replay, request.filter))
    }

    /// Finds the live entry under a key.
    fn find(&mut self, name: &str, key: &str, now: i64) -> (entry: Option<RevisionedEntry>)
        requires
            old(self).wf(),
            old(self)@.shelves.dom().contains(name@),
        ensures
            final(self).wf(),
            final(self)@ == old(self)@,
            match entry {
                Some(e) => old(self)@.found(name@, key@, now) == Some(e@),
                None => old(self)@.found(name@, key@, now) is None,
            },
    {
        let ghost before = self@;
        let shelf = self.take_shelf(name);
        let entry = shelf_get(&shelf, key);
        self.put_shelf(name, shelf);
        proof {
            assert(self@.shelves =~= before.shelves);
        }
        match entry {
            Some(e) => if e.entry.is_expired(now) {
                None
            } else {
                Some(e)
            },
            None => None,
        }
    }

    pub fn get(&mut self, key: &str, collection: Option<&str>, now: i64) -> (value: Result<
        Option<Value>,
    >)
        requires
            old(self).wf(),
        ensures
            final(self).wf(),
            match value {
                Ok(v) => {
                    let name = old(self)@.name(name_model(collection));
                    &&& old(self)@.prepared(final(self)@, name, now)
                    &&& reads_value(v, final(self)@.found(name, key@, now))
                },
                Err(e) => e@ is RevisionGeneration && old(self)@.set_up_failed(final(self)@, now),
            },
    {
        let name = self.collection_name(collection);
        self.setup_collection(name.as_str(), now)?;
        match self.find(name.as_str(), key, now) {
            Some(e) => Ok(Some(e.entry.value)),
            None => Ok(None),
        }
    }

    pub fn ttl(&mut self, key: &str, collection: Option<&str>, now: i64) -> (value: Result<
        Option<(Value, Option<u64>)>,
    >)
        requires
            old(self).wf(),
        ensures
            final(self).wf(),
            match value {
                Ok(v) => {
                    let name = old(self)@.name(name_model(collection));
                    &&& old(self)@.prepared(final(self)@, name, now)
                    &&& reads_ttl(v, final(self)@.found(name, key@, now), now)
                },
                Err(e) => e@ is RevisionGeneration && old(self)@.set_up_failed(final(self)@, now),
            },
    {
        let name = self.collection_name(collection);
        self.setup_collection(name.as_str(), now)?;
        match self.find(name.as_str(), key, now) {
            Some(e) => {
                let ttl = e.entry.ttl(now);
                Ok(Some((e.entry.value, ttl)))
            },
            None => Ok(None),
        }
    }

    pub fn get_with_revision(&mut self, key: &str, collection: Option<&str>, now: i64) -> (value:
        Result<Option<RevisionedValue>>)
        requires
            old(self).wf(),
        ensures
            final(self).wf(),
            match value {
                Ok(v) => {
                    let name = old(self)@.name(name_model(collection));
                    &&& old(self)@.prepared(final(self)@, name, now)
                    &&& match v {
                        Some(r) => final(self)@.found(name, key@, now) matches Some(c)
                            && c.visible(now) == Some(r@),
                        None => final(self)@.found(name, key@, now) is None,
                    }
                },
                Err(e) => e@ is RevisionGeneration && old(self)@.set_up_failed(final(self)@, now),
            },
    {
        let name = self.collection_name(collection);
        self.setup_collection(name.as_str(), now)?;
        match self.find(name.as_str(), key, now) {
            Some(e) => {
                let ttl = e.entry.ttl(now);
                Ok(Some(RevisionedValue { value: e.entry.value, revision: e.revision, ttl }))
            },
            None => Ok(None),
        }
    }

    pub fn get_many(&mut self, keys: &Vec<String>, collection: Option<&str>, now: i64) -> (values:
        Result<Vec<Option<Value>>>)
        requires
            old(self).wf(),
        ensures
            final(self).wf(),
            match values {
                Ok(v) => {
                    let name = old(self)@.name(name_model(collection));
                    &&& old(self)@.prepared(final(self)@, name, now)
                    &&& v@.len() == keys@.len()
                    &&& forall|i: int|
                        0 <= i < v@.len() ==> reads_value(
                            #[trigger] v@[i],
                            final(self)@.found(name, keys@[i]@, now),
                        )
                },
                Err(e) => e@ is RevisionGeneration && old(self)@.set_up_failed(final(self)@, now),
            },
    {
        let name = self.collection_name(collection);
        self.setup_collection(name.as_str(), now)?;
        let ghost state = self@;
        let mut values: Vec<Option<Value>> = Vec::new();
        let mut i: usize = 0;
        while i < keys.len()
            invariant
                i <= keys@.len(),
                self.wf(),
                self@ == state,
                state.shelves.dom().contains(name@),
                values@.len() == i,
                forall|j: int|
                    0 <= j < i ==> reads_value(
                        #[trigger] values@[j],
                        state.found(name@, keys@[j]@, now),
                    ),
            decreases keys@.len() - i,
        {
            let value = match self.find(name.as_str(), keys[i].as_str(), now) {
                Some(e) => Some(e.entry.value),
                None => None,
            };
            values.push(value);
            i += 1;
        }
        Ok(values)
    }

    pub fn ttl_many(&mut self, keys: &Vec<String>, collection: Option<&str>, now: i64) -> (values:
        Result<Vec<Option<(Value, Option<u64>)>>>)
        requires
            old(self).wf(),
        ensures
            final(self).wf(),
            match values {
                Ok(v) => {
                    let name = old(self)@.name(name_model(collection));
                    &&& old(self)@.prepared(final(self)@, name, now)
                    &&& v@.len() == keys@.len()
                    &&& forall|i: int|
                        0 <= i < v@.len() ==> reads_ttl(
                            #[trigger] v@[i],
                            final(self)@.found(name, keys@[i]@, now),
                            now,
                        )
                },
                Err(e) => e@ is RevisionGeneration && old(self)@.set_up_failed(final(self)@, now),
            },
    {
        let name = self.collection_name(collection);
        self.setup_collection(name.as_str(), now)?;
        let ghost state = self@;
        let mut values: Vec<Option<(Value, Option<u64>)>> = Vec::new();
        let mut i: usize = 0;
        while i < keys.len()
            invariant
                i <= keys@.len(),
                self.wf(),
                self@ == state,
                state.shelves.dom().contains(name@),
                values@.len() == i,
                forall|j: int|
                    0 <= j < i ==> reads_ttl(
                        #[trigger] values@[j],
                        state.found(name@, keys@[j]@, now),
                        now,
                    ),
            decreases keys@.len() - i,
        {
            let value = match self.find(name.as_str(), keys[i].as_str(), now) {
                Some(e) => {
                    let ttl = e.entry.ttl(now);
                    Some((e.entry.value, ttl))
                },
                None => None,
            };
            values.push(value);
            i += 1;
        }
        Ok(values)
    }

    /// Puts entries with their revisions into a collection, and enforces its limit once.
    pub fn store_entries(
        &mut self,
        name: &str,
        keys: &Vec<String>,
        entries: Vec<ManagedEntry>,
        revisions: &Vec<Revision>,
        now: i64,
    )
        requires
            old(self).wf(),
            keys@.len() == entries@.len(),
            keys@.len() == revisions@.len(),
        ensures
            final(self).wf(),
            old(self)@.stored(
                final(self)@,
                name@,
                items_of(keys@, entries@),
                revisions_model(revisions@),
                now,
            ),
    {
        let ghost start = self@;
        let ghost items = items_of(keys@, entries@);
        let ghost revs = revisions_model(revisions@);
        let mut shelf = self.take_shelf(name);
        let ghost base = shelf_entries(shelf);
        let mut i: usize = 0;
        proof {
            assert(items.take(0) =~= Seq::empty());
        }
        while i < keys.len()
            invariant
                i <= keys@.len(),
                keys@.len() == entries@.len(),
                keys@.len() == revisions@.len(),
                items == items_of(keys@, entries@),
                revs == revisions_model(revisions@),
                shelf_entries(shelf) == filled(base, items.take(i as int), revs),
            decreases keys@.len() - i,
        {
            proof {
                assert(items.take(i + 1).drop_last() =~= items.take(i as int));
                assert(items.take(i + 1).last() == (keys@[i as int]@, entries@[i as int]@));
            }
            shelf_insert(
                &mut shelf,
                keys[i].clone(),
                RevisionedEntry { entry: entries[i].clone(), revision: revisions[i] },
            );
            i += 1;
        }
        let ghost full = shelf_entries(shelf);
        proof {
            assert(items.take(i as int) =~= items);
        }
        let deleted = enforce_capacity(&mut shelf, self.config.max_entries_per_collection, now);
        self.put_shelf(name, shelf);
        self.log.record_all(name, keys, ChangeOperation::Put, now);
        self.log.record_all(name, &deleted, ChangeOperation::Delete, now);
        proof {
            assert(texts(keys@) =~= crate::ordered::dict_keys(items));
            assert(start.shelves.remove(name@).insert(name@, limited(full, start.limit, now))
                =~= start.shelves.insert(name@, limited(full, start.limit, now)));
            assert(lists_deleted(texts(deleted@), full, start.limit, now));
            law_stored_wf(start, self@, name@, items, revs, now);
        }
    }

    pub fn put(
        &mut self,
        key: &str,
        value: Value,
        collection: Option<&str>,
        ttl: Option<i64>,
        now: i64,
    ) -> (result: Result<()>)
        requires
            old(self).wf(),
        ensures
            final(self).wf(),
            ({
                let name = old(self)@.name(name_model(collection));
                let made = entry_for(value@, ttl, now);
                match result {
                    Ok(_) => made is Ok && exists|mid: MemoryModel, revision: Seq<u8>|
                        {
                            &&& old(self)@.prepared(mid, name, now)
                            &&& #[trigger] mid.stored(
                                final(self)@,
                                name,
                                seq![(key@, made->Ok_0)],
                                seq![revision],
                                now,
                            )
                        },
                    Err(e) => {
                        ||| e@ is RevisionGeneration && old(self)@.set_up_failed(final(self)@, now)
                        ||| old(self)@.prepared(final(self)@, name, now) && match made {
                            Ok(_) => e@ is RevisionGeneration,
                            Err(fault) => e@ == fault,
                        }
                    },
                }
            }),
    {
        let name = self.collection_name(collection);
        self.setup_collection(name.as_str(), now)?;
        let ghost mid = self@;
        let entry = ManagedEntry::with_optional_ttl(value, ttl, now)?;
        let revision = Revision::fresh()?;
        let mut keys: Vec<String> = Vec::new();
        keys.push(key.to_owned());
        let ghost made = entry@;
        let mut entries: Vec<ManagedEntry> = Vec::new();
        entries.push(entry);
        let mut revisions: Vec<Revision> = Vec::new();
        revisions.push(revision);
        proof {
            assert(items_of(keys@, entries@) =~= seq![(key@, made)]);
            assert(revisions_model(revisions@) =~= seq![revision@]);
        }
        self.store_entries(name.as_str(), &keys, entries, &revisions, now);
        Ok(())
    }

    pub fn put_many(
        &mut self,
        keys: &Vec<String>,
        values: &Vec<Value>,
        collection: Option<&str>,
        ttl: Option<i64>,
        now: i64,
    ) -> (result: Result<()>)
        requires
            old(self).wf(),
        ensures
            final(self).wf(),
            ({
                let name = old(self)@.name(name_model(collection));
                let bad_ttl = ttl matches Some(t) && ttl_fault(t, now) is Some;
                match result {
                    Ok(_) => keys@.len() == values@.len() && !bad_ttl && exists|
                        mid: MemoryModel,
                        revisions: Seq<Seq<u8>>,
                    |
                        {
                            &&& old(self)@.prepared(mid, name, now)
                            &&& revisions.len() == keys@.len()
                            &&& #[trigger] mid.stored(
                                final(self)@,
                                name,
                                batch_items(texts(keys@), values_model(values@), ttl, now),
                                revisions,
                                now,
                            )
                        },
                    Err(e) => if keys@.len() != values@.len() {
                        e@ == (ErrorModel::BatchSizeMismatch {
                            keys: keys@.len(),
                            values: values@.len(),
                        }) && final(self)@ == old(self)@
                    } else if bad_ttl {
                        ttl_fault(ttl->0, now) == Some(e@) && final(self)@ == old(self)@
                    } else {
                        e@ is RevisionGeneration && (old(self)@.set_up_failed(final(self)@, now)
                            || keys@.len() > 0 && old(self)@.prepared(final(self)@, name, now))
                    },
                }
            }),
    {
        if keys.len() != values.len() {
            return Err(Error::BatchSizeMismatch { keys: keys.len(), values: values.len() });
        }
        if let Some(t) = ttl {
            ManagedEntry::validate_ttl(t, now)?;
        }
        let name = self.collection_name(collection);
        self.setup_collection(name.as_str(), now)?;
        let ghost mid = self@;
        let mut entries: Vec<ManagedEntry> = Vec::new();
        let mut revisions: Vec<Revision> = Vec::new();
        let mut i: usize = 0;
        while i < values.len()
            invariant
                i <= values@.len(),
                self.wf(),
                self@ == mid,
                old(self)@.prepared(mid, name@, now),
                name@ == old(self)@.name(name_model(collection)),
                keys@.len() == values@.len(),
                !(ttl matches Some(t) && ttl_fault(t, now) is Some),
                entries@.len() == i,
                forall|j: int|
                    0 <= j < i ==> entry_for(values@[j]@, ttl, now) == Ok::<_, ErrorModel>(
                        #[trigger] entries@[j]@,
                    ),
            decreases values@.len() - i,
        {
            let entry = ManagedEntry::with_optional_ttl(values[i].clone(), ttl, now)?;
            entries.push(entry);
            i += 1;
        }
        let mut n: usize = 0;
        while n < values.len()
            invariant
                n <= values@.len(),
                self.wf(),
                self@ == mid,
                old(self)@.prepared(mid, name@, now),
                name@ == old(self)@.name(name_model(collection)),
                keys@.len() == values@.len(),
                !(ttl matches Some(t) && ttl_fault(t, now) is Some),
                revisions@.len() == n,
            decreases values@.len() - n,
        {
            let revision = Revision::fresh()?;
            revisions.push(revision);
            n += 1;
        }
        proof {
            let items = batch_items(texts(keys@), values_model(values@), ttl, now);
            assert(items_of(keys@, entries@) =~= items) by {
                assert forall|j: int| 0 <= j < keys@.len() implies items_of(keys@, entries@)[j]
                    == items[j] by {
                    assert(entry_for(values@[j]@, ttl, now) == Ok::<_, ErrorModel>(entries@[j]@));
                }
            }
        }
        self.store_entries(name.as_str(), keys, entries, &revisions, now);
        Ok(())
    }

    pub fn delete(&mut self, key: &str, collection: Option<&str>, now: i64) -> (deleted: Result<
        bool,
    >)
        requires
            old(self).wf(),
        ensures
            final(self).wf(),
            match deleted {
                Ok(gone) => {
                    let name = old(self)@.name(name_model(collection));
                    exists|mid: MemoryModel| #[trigger]
                        old(self)@.prepared(mid, name, now) && (gone, final(self)@) == mid.without(
                            name,
                            key@,
                            now,
                        )
                },
                Err(e) => e@ is RevisionGeneration && old(self)@.set_up_failed(final(self)@, now),
            },
    {
        let name = self.collection_name(collection);
        self.setup_collection(name.as_str(), now)?;
        let ghost mid = self@;
        let mut shelf = self.take_shelf(name.as_str());
        let ghost held = shelf_entries(shelf);
        let gone = shelf_remove(&mut shelf, key);
        self.put_shelf(name.as_str(), shelf);
        if gone {
            self.log.record_change(name.as_str(), key, ChangeOperation::Delete, now);
        }
        proof {
            assert(mid.shelves.remove(name@).insert(name@, held.remove(key@))
                =~= mid.shelves.insert(name@, held.remove(key@)));
            if !gone {
                assert(held.remove(key@) =~= held);
                assert(self@.shelves =~= mid.shelves);
            }
            law_deleted_wf(mid, name@, key@, now);
            assert(old(self)@.prepared(mid, name@, now));
        }
        Ok(gone)
    }

    pub fn delete_many(&mut self, keys: &Vec<String>, collection: Option<&str>, now: i64) -> (count:
        Result<usize>)
        requires
            old(self).wf(),
        ensures
            final(self).wf(),
            match count {
                Ok(n) => {
                    let name = old(self)@.name(name_model(collection));
                    exists|mid: MemoryModel| #[trigger]
                        old(self)@.prepared(mid, name, now) && (n as nat, final(self)@)
                            == mid.without_all(name, texts(keys@), now)
                },
                Err(e) => e@ is RevisionGeneration && old(self)@.set_up_failed(final(self)@, now),
            },
    {
        let name = self.collection_name(collection);
        self.setup_collection(name.as_str(), now)?;
        let ghost mid = self@;
        let ghost all = texts(keys@);
        let mut shelf = self.take_shelf(name.as_str());
        let ghost held = shelf_entries(shelf);
        let mut deleted: Vec<String> = Vec::new();
        let mut i: usize = 0;
        proof {
            assert(all.take(0) =~= Seq::empty());
            assert(all.take(0).to_set() =~= Set::empty());
            assert(held.remove_keys(Set::empty()) =~= held);
            assert(texts(deleted@) =~= taken(held, all.take(0)));
        }
        while i < keys.len()
            invariant
                i <= keys@.len(),
                all == texts(keys@),
                shelf_entries(shelf) == held.remove_keys(all.take(i as int).to_set()),
                texts(deleted@) == taken(held, all.take(i as int)),
            decreases keys@.len() - i,
        {
            let ghost before = deleted@;
            let ghost now_keys = all.take(i as int);
            let ghost k = keys@[i as int]@;
            proof {
                assert(all.take(i + 1).drop_last() =~= now_keys);
                assert(all.take(i + 1).last() == k);
                assert(all.take(i + 1) =~= now_keys.push(k));
                assert(all.take(i + 1).to_set() =~= now_keys.to_set().insert(k)) by {
                    assert forall|x: Seq<char>| #[trigger]
                        now_keys.push(k).contains(x) <==> now_keys.contains(x) || x == k by {
                        if now_keys.contains(x) {
                            let j = choose|j: int| 0 <= j < now_keys.len() && now_keys[j] == x;
                            assert(now_keys.push(k)[j] == x);
                        }
                        if x == k {
                            assert(now_keys.push(k)[now_keys.len() as int] == x);
                        }
                    }
                }
                assert(now_keys.to_set().contains(k) <==> now_keys.contains(k));
            }
            if shelf_remove(&mut shelf, keys[i].as_str()) {
                deleted.push(keys[i].clone());
                assert(texts(deleted@) =~= texts(before).push(k));
            }
            proof {
                assert(shelf_entries(shelf) =~= held.remove_keys(all.take(i + 1).to_set()));
            }
            i += 1;
        }
        self.put_shelf(name.as_str(), shelf);
        self.log.record_all(name.as_str(), &deleted, ChangeOperation::Delete, now);
        proof {
            assert(all.take(i as int) =~= all);
            let left = held.remove_keys(all.to_set());
            assert(mid.shelves.remove(name@).insert(name@, left) =~= mid.shelves.insert(
                name@,
                left,
            ));
            law_all_deleted_wf(mid, name@, all.to_set(), taken(held, all), now);
            assert(old(self)@.prepared(mid, name@, now));
        }
        Ok(deleted.len())
    }

    /// Swaps an entry whose revision is `expected` for a new one with a given revision.
    pub fn swap_entry(
        &mut self,
        name: &str,
        key: &str,
        expected: Option<&Revision>,
        entry: ManagedEntry,
        revision: Revision,
        now: i64,
    ) -> (result: CompareAndSwapResult)
        requires
            old(self).wf(),
        ensures
            final(self).wf(),
            result@ == old(self)@.swap_answer(
                name@,
                key@,
                expected_model(expected),
                revision@,
                now,
            ),
            old(self)@.swapped(
                final(self)@,
                name@,
                key@,
                expected_model(expected),
                entry@,
                revision@,
                now,
            ),
    {
        let ghost start = self@;
        let mut shelf = self.take_shelf(name);
        let ghost held = shelf_entries(shelf);
        let (result, applied) = match shelf_get(&shelf, key) {
            Some(current) if !current.entry.is_expired(now) => {
                let applies = match expected {
                    Some(wanted) => wanted.same_as(&current.revision),
                    None => false,
                };
                if applies {
                    (CompareAndSwapResult::Applied { revision }, true)
                } else {
                    let ttl = current.entry.ttl(now);
                    (
                        CompareAndSwapResult::Conflict {
                            current: Some(
                                RevisionedValue {
                                    value: current.entry.value,
                                    revision: current.revision,
                                    ttl,
                                },
                            ),
                        },
                        false,
                    )
                }
            },
            _ => match expected {
                None => (CompareAndSwapResult::Applied { revision }, true),
                Some(_) => {
                    let _ = shelf_remove(&mut shelf, key);
                    (CompareAndSwapResult::Conflict { current: None }, false)
                },
            },
        };
        let ghost left = shelf_entries(shelf);
        self.put_shelf(name, shelf);
        proof {
            assert(start.shelves.remove(name@).insert(name@, left) =~= start.shelves.insert(
                name@,
                left,
            ));
            law_with_collection_wf(start, name@);
            law_deleted_wf(start, name@, key@, now);
        }
        if applied {
            let ghost mid = self@;
            let ghost made = entry@;
            let mut keys: Vec<String> = Vec::new();
            keys.push(key.to_owned());
            let mut entries: Vec<ManagedEntry> = Vec::new();
            entries.push(entry);
            let mut revisions: Vec<Revision> = Vec::new();
            revisions.push(revision);
            proof {
                assert(items_of(keys@, entries@) =~= seq![(key@, made)]);
                assert(revisions_model(revisions@) =~= seq![revision@]);
            }
            self.store_entries(name, &keys, entries, &revisions, now);
            proof {
                assert(shelf_of(mid.shelves, name@) == held);
                lemma_stored_again(
                    start,
                    self@,
                    name@,
                    seq![(key@, made)],
                    seq![revision@],
                    now,
                );
            }
        }
        result
    }

    /// Writes a value only where the entry still has the expected revision; with none
    /// expected, only where the entry is absent.
    pub fn compare_and_swap(
        &mut self,
        key: &str,
        expected: Option<&Revision>,
        value: Value,
        collection: Option<&str>,
        ttl: Option<i64>,
        now: i64,
    ) -> (result: Result<CompareAndSwapResult>)
        requires
            old(self).wf(),
        ensures
            final(self).wf(),
            ({
                let name = old(self)@.name(name_model(collection));
                let made = entry_for(value@, ttl, now);
                match result {
                    Ok(answer) => made is Ok && exists|mid: MemoryModel, revision: Seq<u8>|
                        {
                            &&& old(self)@.prepared(mid, name, now)
                            &&& answer@ == mid.swap_answer(
                                name,
                                key@,
                                expected_model(expected),
                                revision,
                                now,
                            )
                            &&& #[trigger] mid.swapped(
                                final(self)@,
                                name,
                                key@,
                                expected_model(expected),
                                made->Ok_0,
                                revision,
                                now,
                            )
                        },
                    Err(e) => match made {
                        Err(fault) => e@ == fault && final(self)@ == old(self)@,
                        Ok(_) => e@ is RevisionGeneration && (old(self)@.set_up_failed(
                            final(self)@,
                            now,
                        ) || old(self)@.prepared(final(self)@, name, now)),
                    },
                }
            }),
    {
        let ghost outcome = entry_for(value@, ttl, now);
        let entry = ManagedEntry::with_optional_ttl(value, ttl, now)?;
        let name = self.collection_name(collection);
        self.setup_collection(name.as_str(), now)?;
        let ghost mid = self@;
        let revision = Revision::fresh()?;
        let ghost made = entry@;
        let result = self.swap_entry(name.as_str(), key, expected, entry, revision, now);
        proof {
            assert(old(self)@.prepared(mid, name@, now));
            assert(made == outcome->Ok_0);
            assert(mid.swapped(
                self@,
                old(self)@.name(name_model(collection)),
                key@,
                expected_model(expected),
                outcome->Ok_0,
                revision@,
                now,
            ));
        }
        Ok(result)
    }

    /// Deletes an entry only where it still has the expected revision.
    pub fn compare_and_delete(
        &mut self,
        key: &str,
        expected: &Revision,
        collection: Option<&str>,
        now: i64,
    ) -> (result: Result<CompareAndDeleteResult>)
        requires
            old(self).wf(),
        ensures
            final(self).wf(),
            match result {
                Ok(answer) => {
                    let name = old(self)@.name(name_model(collection));
                    exists|mid: MemoryModel|
                        {
                            &&& old(self)@.prepared(mid, name, now)
                            &&& (answer@, final(self)@) == #[trigger] mid.cleared(
                                name,
                                key@,
                                expected@,
                                now,
                            )
                        }
                },
                Err(e) => e@ is RevisionGeneration && old(self)@.set_up_failed(final(self)@, now),
            },
    {
        let name = self.collection_name(collection);
        self.setup_collection(name.as_str(), now)?;
        let ghost mid = self@;
        let mut shelf = self.take_shelf(name.as_str());
        let ghost held = shelf_entries(shelf);
        let mut gone = false;
        let result = match shelf_get(&shelf, key) {
            Some(current) if !current.entry.is_expired(now) => {
                if expected.same_as(&current.revision) {
                    let _ = shelf_remove(&mut shelf, key);
                    gone = true;
                    CompareAndDeleteResult::Deleted
                } else {
                    let ttl = current.entry.ttl(now);
                    CompareAndDeleteResult::Conflict {
                        current: Some(
                            RevisionedValue {
                                value: current.entry.value,
                                revision: current.revision,
                                ttl,
                            },
                        ),
                    }
                }
            },
            _ => {
                let _ = shelf_remove(&mut shelf, key);
                CompareAndDeleteResult::Conflict { current: None }
            },
        };
        let ghost after = shelf_entries(shelf);
        self.put_shelf(name.as_str(), shelf);
        if gone {
            self.log.record_change(name.as_str(), key, ChangeOperation::Delete, now);
        }
        proof {
            assert(mid.shelves.remove(name@).insert(name@, after) =~= mid.shelves.insert(
                name@,
                after,
            ));
            assert(old(self)@.prepared(mid, name@, now));
            assert(self@ =~= mid.cleared(name@, key@, expected@, now).1);
            law_cleared_wf(mid, name@, key@, expected@, now);
            assert(result@ == mid.cleared(name@, key@, expected@, now).0);
        }
        Ok(result)
    }

    /// Takes out everything that has expired.
    pub fn cull(&mut self, now: i64)
        requires
            old(self).wf(),
        ensures
            final(self).wf(),
            old(self)@.culled(final(self)@, now),
    {
        let ghost start = self@;
        let names = rack_names(&self.rack);
        let ghost all = texts(names@);
        let ghost mut lists: Seq<Seq<Seq<char>>> = Seq::empty();
        let mut i: usize = 0;
        proof {
            assert(all.take(0) =~= Seq::empty());
        }
        while i < names.len()
            invariant
                i <= names@.len(),
                self@.log.wf(),
                all == texts(names@),
                all.no_duplicates(),
                all.to_set() == start.shelves.dom(),
                lists.len() == i,
                forall|j: int|
                    0 <= j < i ==> {
                        &&& (#[trigger] lists[j]).no_duplicates()
                        &&& lists[j].to_set() == expired_keys(start.shelves[all[j]], now)
                    },
                self@.log == start.culled_log(all.take(i as int), lists, now),
                self@ == (MemoryModel { shelves: self@.shelves, log: self@.log, ..start }),
                self@.shelves.dom() == start.shelves.dom(),
                forall|j: int|
                    0 <= j < all.len() ==> self@.shelves[#[trigger] all[j]] == if j < i {
                        alive(start.shelves[all[j]], now)
                    } else {
                        start.shelves[all[j]]
                    },
            decreases names@.len() - i,
        {
            let ghost before = self@;
            proof {
                assert(all[i as int] == names@[i as int]@);
                assert(all.to_set().contains(all[i as int]));
            }
            let mut shelf = self.take_shelf(names[i].as_str());
            let dropped = drop_expired(&mut shelf, now);
            let ghost list = texts(dropped@);
            self.put_shelf(names[i].as_str(), shelf);
            self.log.record_all(names[i].as_str(), &dropped, ChangeOperation::Delete, now);
            proof {
                let earlier = lists;
                lists = lists.push(list);
                assert(all.take(i + 1).drop_last() =~= all.take(i as int));
                lemma_culled_log_lists(start, all.take(i as int), earlier, lists, now);
                assert(self@.shelves.dom() =~= start.shelves.dom());
                assert forall|j: int| 0 <= j < all.len() implies self@.shelves[#[trigger] all[j]]
                    == if j < i + 1 {
                    alive(start.shelves[all[j]], now)
                } else {
                    start.shelves[all[j]]
                } by {
                    if j != i {
                        assert(all[j] != all[i as int]);
                        assert(self@.shelves[all[j]] == before.shelves[all[j]]);
                    }
                }
            }
            i += 1;
        }
        proof {
            assert(all.take(i as int) =~= all);
            let expected = start.shelves.map_values(|shelf: Entries| alive(shelf, now));
            assert forall|n: Seq<char>| self@.shelves.dom().contains(n) implies self@.shelves[n]
                == expected[n] by {
                assert(all.to_set().contains(n));
                let j = choose|j: int| 0 <= j < all.len() && all[j] == n;
                assert(self@.shelves[all[j]] == alive(start.shelves[all[j]], now));
            }
            assert(self@.shelves =~= expected);
            assert(self@.log == start.culled_log(all, lists, now));
            assert(start.culled(self@, now));
            law_culled_wf(start, self@, now);
        }
    }

    /// Keys of a collection, at most a page of them.
    pub fn keys(&mut self, collection: Option<&str>, limit: Option<usize>, now: i64) -> (keys:
        Result<Vec<String>>)
        requires
            old(self).wf(),
        ensures
            final(self).wf(),
            match keys {
                Ok(page) => {
                    let name = old(self)@.name(name_model(collection));
                    &&& old(self)@.prepared(final(self)@, name, now)
                    &&& is_page(
                        texts(page@),
                        shelf_of(final(self)@.shelves, name).dom(),
                        page_size(limit),
                    )
                },
                Err(e) => e@ is RevisionGeneration && old(self)@.set_up_failed(final(self)@, now),
            },
    {
        let name = self.collection_name(collection);
        self.setup_collection(name.as_str(), now)?;
        let ghost mid = self@;
        let shelf = self.take_shelf(name.as_str());
        let keys = shelf_keys(&shelf);
        self.put_shelf(name.as_str(), shelf);
        proof {
            assert(self@.shelves =~= mid.shelves);
        }
        Ok(page_of(keys, page_limit(limit)))
    }

    /// Names of collections, at most a page of them.
    pub fn collections(&mut self, limit: Option<usize>, now: i64) -> (names: Result<Vec<String>>)
        requires
            old(self).wf(),
        ensures
            final(self).wf(),
            match names {
                Ok(page) => old(self)@.set_up(final(self)@, now) && is_page(
                    texts(page@),
                    final(self)@.shelves.dom(),
                    page_size(limit),
                ),
                Err(e) => e@ is RevisionGeneration && old(self)@.set_up_failed(final(self)@, now),
            },
    {
        self.setup(now)?;
        let names = rack_names(&self.rack);
        Ok(page_of(names, page_limit(limit)))
    }

    /// Takes out a whole collection and says whether it was there. Nothing is recorded.
    pub fn destroy_collection(&mut self, collection: &str, now: i64) -> (existed: Result<bool>)
        requires
            old(self).wf(),
        ensures
            final(self).wf(),
            match existed {
                Ok(found) => exists|mid: MemoryModel| #[trigger]
                    old(self)@.set_up(mid, now) && (found, final(self)@) == mid.without_collection(
                        collection@,
                    ),
                Err(e) => e@ is RevisionGeneration && old(self)@.set_up_failed(final(self)@, now),
            },
    {
        self.setup(now)?;
        let ghost mid = self@;
        let found = rack_remove(&mut self.rack, collection).is_some();
        proof {
            assert(old(self)@.set_up(mid, now));
            law_collection_destroyed_wf(mid, collection@);
        }
        Ok(found)
    }

    /// Takes out everything; the seed will be planted again. Nothing is recorded.
    pub fn destroy(&mut self) -> (destroyed: bool)
        requires
            old(self).wf(),
        ensures
            final(self).wf(),
            destroyed,
            final(self)@ == old(self)@.emptied(),
    {
        rack_clear(&mut self.rack);
        self.ready = false;
        true
    }
}

impl Default for MemoryStore {
    fn default() -> (store: Self)
        ensures
            store.wf(),
            store@ == (MemoryModel {
                shelves: Map::empty(),
                ready: false,
                log: LogModel { revision: 0, entries: Seq::empty() },
                limit: None,
                default_collection: "default_collection"@,
                seed: Seq::empty(),
            }),
    {
        MemoryStore::new()
    }
}

/// Putting a collection in its own place before a write makes no difference to the write.
proof fn lemma_stored_again(
    m: MemoryModel,
    after: MemoryModel,
    name: Seq<char>,
    items: Seq<(Seq<char>, EntryModel)>,
    revisions: Seq<Seq<u8>>,
    now: i64,
)
    requires
        m.with_shelf(name, shelf_of(m.shelves, name)).stored(after, name, items, revisions, now),
    ensures
        m.stored(after, name, items, revisions, now),
{
    let mid = m.with_shelf(name, shelf_of(m.shelves, name));
    let full = filled(shelf_of(m.shelves, name), items, revisions);
    let kept = limited(full, m.limit, now);
    assert(mid.shelves.insert(name, kept) =~= m.shelves.insert(name, kept));
    assert(mid.with_shelf(name, kept) =~= m.with_shelf(name, kept));
    let deleted = choose|deleted: Seq<Seq<char>>| #[trigger]
        lists_deleted(deleted, full, m.limit, now) && after == mid.with_shelf(
            name,
            kept,
        ).recorded_all(
            name,
            crate::ordered::dict_keys(items),
            ChangeOperation::Put,
            now,
        ).recorded_all(name, deleted, ChangeOperation::Delete, now);
    assert(lists_deleted(deleted, full, m.limit, now));
}

/// The model of an optional expected revision.
pub open spec fn expected_model(expected: Option<&Revision>) -> Option<Seq<u8>> {
    match expected {
        Some(r) => Some(r@),
        None => None,
    }
}

proof fn lemma_culled_log_lists(
    m: MemoryModel,
    names: Seq<Seq<char>>,
    a: Seq<Seq<Seq<char>>>,
    b: Seq<Seq<Seq<char>>>,
    now: i64,
)
    requires
        forall|i: int| 0 <= i < names.len() ==> a[i] == b[i],
    ensures
        m.culled_log(names, a, now) == m.culled_log(names, b, now),
    decreases names.len(),
{
    if names.len() > 0 {
        lemma_culled_log_lists(m, names.drop_last(), a, b, now);
    }
}

} // verus!
