//! What every operation of the store in memory keeps: collections are finite, none is larger than
//! the limit, and the change log is well-formed.

use crate::change::ChangeOperation;
use crate::entry::EntryModel;
use crate::store::memory::capacity::{alive, expired_keys, law_trimmed, limited, lists_deleted};
use crate::store::memory::client::{law_recorded_all_wf, law_recorded_wf};
use crate::store::memory::config::SeedModel;
use crate::store::memory::shelf::{Entries, Shelves};
use crate::store::memory::store::{filled, lasting, partly_planted, planted, shelf_of, MemoryModel};
use vstd::prelude::*;

verus! {

/// Whether a collection keeps to a limit, if there is one.
pub open spec fn fits(shelf: Entries, limit: Option<usize>) -> bool {
    limit matches Some(max) ==> shelf.dom().len() <= max
}

/// Whether a part of the seed goes to the collection.
pub open spec fn is_seeded(seed: SeedModel, name: Seq<char>) -> bool {
    exists|i: int| 0 <= i < seed.len() && #[trigger] seed[i].0 == name
}

impl MemoryModel {
    /// Whether a collection may hold these entries: finitely many, and no more than the limit. Only
    /// a collection whose seed is still to be planted may be larger, until it is.
    pub open spec fn may_hold(self, name: Seq<char>, shelf: Entries) -> bool {
        &&& shelf.dom().finite()
        &&& self.ready || !is_seeded(self.seed, name) ==> fits(shelf, self.limit)
    }

    /// Whether every collection holds what it may, and the change log is well-formed.
    pub open spec fn wf(self) -> bool {
        &&& self.log.wf()
        &&& forall|name: Seq<char>| #[trigger]
            self.shelves.dom().contains(name) ==> self.may_hold(name, self.shelves[name])
    }
}

/// In every state that the operations reach, a store that is set up keeps each collection finite
/// and within the limit.
pub proof fn law_limit_always_holds(m: MemoryModel, name: Seq<char>)
    requires
        m.wf(),
        m.ready,
    ensures
        shelf_of(m.shelves, name).dom().finite(),
        m.limit matches Some(max) ==> shelf_of(m.shelves, name).dom().len() <= max,
{
}

/// A store without entries is well-formed where its log is.
pub proof fn law_empty_wf(m: MemoryModel)
    requires
        m.log.wf(),
        m.shelves == Shelves::empty(),
    ensures
        m.wf(),
{
}

pub proof fn lemma_filled_finite(
    shelf: Entries,
    items: Seq<(Seq<char>, EntryModel)>,
    revisions: Seq<Seq<u8>>,
)
    requires
        shelf.dom().finite(),
    ensures
        filled(shelf, items, revisions).dom().finite(),
    decreases items.len(),
{
    if items.len() > 0 {
        lemma_filled_finite(shelf, items.drop_last(), revisions);
    }
}

/// Of finitely many entries finitely many stay, and no more than the limit.
pub proof fn lemma_limited_fits(full: Entries, limit: Option<usize>, now: i64)
    requires
        full.dom().finite(),
    ensures
        limited(full, limit, now).dom().finite(),
        fits(limited(full, limit, now), limit),
{
    if let Some(max) = limit {
        let live = alive(full, now);
        assert(live.dom() =~= full.dom().difference(expired_keys(full, now)));
        law_trimmed(live, max as nat);
    }
}

/// A collection may hold less than it holds.
proof fn lemma_may_hold_less(m: MemoryModel, name: Seq<char>, whole: Entries, part: Entries)
    requires
        m.may_hold(name, whole),
        part.dom().subset_of(whole.dom()),
    ensures
        m.may_hold(name, part),
{
    vstd::set_lib::lemma_len_subset(part.dom(), whole.dom());
}

proof fn lemma_shelf_may_hold(m: MemoryModel, name: Seq<char>)
    requires
        m.wf(),
    ensures
        m.may_hold(name, shelf_of(m.shelves, name)),
{
}

proof fn lemma_with_shelf_wf(m: MemoryModel, name: Seq<char>, shelf: Entries)
    requires
        m.wf(),
        m.may_hold(name, shelf),
    ensures
        m.with_shelf(name, shelf).wf(),
{
    let after = m.with_shelf(name, shelf);
    assert forall|n: Seq<char>| #[trigger] after.shelves.dom().contains(n) implies after.may_hold(
        n,
        after.shelves[n],
    ) by {
        if n != name {
            assert(m.shelves.dom().contains(n));
        }
    }
}

/// Only the log tells these stores apart.
proof fn lemma_logged_wf(m: MemoryModel, after: MemoryModel)
    requires
        m.wf(),
        after == (MemoryModel { log: after.log, ..m }),
        after.log.wf(),
    ensures
        after.wf(),
{
    assert forall|n: Seq<char>| #[trigger] after.shelves.dom().contains(n) implies after.may_hold(
        n,
        after.shelves[n],
    ) by {
        assert(m.shelves.dom().contains(n));
    }
}

proof fn lemma_planted(
    shelves: Shelves,
    seed: SeedModel,
    revisions: Seq<Seq<Seq<u8>>>,
    limit: Option<usize>,
    now: i64,
)
    requires
        forall|name: Seq<char>| #[trigger]
            shelves.dom().contains(name) ==> shelves[name].dom().finite(),
    ensures
        ({
            let after = planted(shelves, seed, revisions, limit, now);
            forall|name: Seq<char>| #[trigger]
                after.dom().contains(name) ==> {
                    &&& after[name].dom().finite()
                    &&& if is_seeded(seed, name) {
                        fits(after[name], limit)
                    } else {
                        shelves.dom().contains(name) && after[name] == shelves[name]
                    }
                }
        }),
    decreases seed.len(),
{
    if seed.len() > 0 {
        let front = seed.drop_last();
        lemma_planted(shelves, front, revisions, limit, now);
        let before = planted(shelves, front, revisions, limit, now);
        let after = planted(shelves, seed, revisions, limit, now);
        let (name, items) = seed.last();
        let full = filled(shelf_of(before, name), lasting(items, now), revisions[seed.len() - 1]);
        lemma_filled_finite(shelf_of(before, name), lasting(items, now), revisions[seed.len() - 1]);
        lemma_limited_fits(full, limit, now);
        assert forall|n: Seq<char>| #[trigger] after.dom().contains(n) implies {
            &&& after[n].dom().finite()
            &&& if is_seeded(seed, n) {
                fits(after[n], limit)
            } else {
                shelves.dom().contains(n) && after[n] == shelves[n]
            }
        } by {
            if n == name {
                assert(seed[seed.len() - 1].0 == n);
            } else {
                assert(before.dom().contains(n));
                if is_seeded(seed, n) {
                    let i = choose|i: int| 0 <= i < seed.len() && #[trigger] seed[i].0 == n;
                    assert(front[i].0 == n);
                }
                if is_seeded(front, n) {
                    let i = choose|i: int| 0 <= i < front.len() && #[trigger] front[i].0 == n;
                    assert(seed[i].0 == n);
                }
            }
        }
    }
}

/// The first parts of the seed can be planted in a store that is still to be set up.
pub proof fn lemma_parts_planted_wf(
    m: MemoryModel,
    parts: int,
    revisions: Seq<Seq<Seq<u8>>>,
    now: i64,
)
    requires
        m.wf(),
        !m.ready,
        0 <= parts <= m.seed.len(),
    ensures
        (MemoryModel {
            shelves: planted(m.shelves, m.seed.take(parts), revisions, m.limit, now),
            ..m
        }).wf(),
{
    let first = m.seed.take(parts);
    let shelves = planted(m.shelves, first, revisions, m.limit, now);
    let after = MemoryModel { shelves, ..m };
    assert forall|n: Seq<char>| #[trigger] m.shelves.dom().contains(n) implies m.shelves[
        n
    ].dom().finite() by {
        assert(m.may_hold(n, m.shelves[n]));
    }
    lemma_planted(m.shelves, first, revisions, m.limit, now);
    assert forall|n: Seq<char>| #[trigger] after.shelves.dom().contains(n) implies after.may_hold(
        n,
        after.shelves[n],
    ) by {
        if is_seeded(first, n) {
            let i = choose|i: int| 0 <= i < first.len() && #[trigger] first[i].0 == n;
            assert(m.seed[i].0 == n);
        } else {
            assert(m.may_hold(n, m.shelves[n]));
        }
    }
}

/// Setting a store up keeps it well-formed.
pub proof fn law_set_up_wf(m: MemoryModel, after: MemoryModel, now: i64)
    requires
        m.wf(),
        m.set_up(after, now),
    ensures
        after.wf(),
{
    if !m.ready {
        let drawn = choose|drawn: Seq<Seq<Seq<u8>>>|
            after == (MemoryModel {
                ready: true,
                shelves: #[trigger] planted(m.shelves, m.seed, drawn, m.limit, now),
                ..m
            });
        assert forall|n: Seq<char>| #[trigger] m.shelves.dom().contains(n) implies m.shelves[
            n
        ].dom().finite() by {
            assert(m.may_hold(n, m.shelves[n]));
        }
        lemma_planted(m.shelves, m.seed, drawn, m.limit, now);
        assert forall|n: Seq<char>| #[trigger]
            after.shelves.dom().contains(n) implies after.may_hold(n, after.shelves[n]) by {
            if !is_seeded(m.seed, n) {
                assert(m.may_hold(n, m.shelves[n]));
            }
        }
    }
}

/// A set-up that breaks off keeps the store well-formed.
pub proof fn law_set_up_failed_wf(m: MemoryModel, after: MemoryModel, now: i64)
    requires
        m.wf(),
        m.set_up_failed(after, now),
    ensures
        after.wf(),
{
    let (drawn, part, count) = choose|drawn: Seq<Seq<Seq<u8>>>, part: int, count: int|
        {
            &&& 0 <= part < m.seed.len()
            &&& 0 <= count < m.seed[part].1.len()
            &&& after == (MemoryModel {
                shelves: #[trigger] partly_planted(
                    m.shelves,
                    m.seed,
                    drawn,
                    m.limit,
                    part,
                    count,
                    now,
                ),
                ..m
            })
        };
    lemma_parts_planted_wf(m, part, drawn, now);
    let before = planted(m.shelves, m.seed.take(part), drawn, m.limit, now);
    let mid = MemoryModel { shelves: before, ..m };
    let name = m.seed[part].0;
    let items = lasting(m.seed[part].1, now).take(count);
    lemma_shelf_may_hold(mid, name);
    lemma_filled_finite(shelf_of(before, name), items, drawn[part]);
    assert(is_seeded(m.seed, name));
    lemma_with_shelf_wf(mid, name, filled(shelf_of(before, name), items, drawn[part]));
}

/// Making a collection where it is missing keeps the store well-formed.
pub proof fn law_with_collection_wf(m: MemoryModel, name: Seq<char>)
    requires
        m.wf(),
    ensures
        m.with_collection(name).wf(),
{
    lemma_shelf_may_hold(m, name);
    lemma_with_shelf_wf(m, name, shelf_of(m.shelves, name));
}

/// Preparing a collection keeps the store well-formed.
pub proof fn law_prepared_wf(m: MemoryModel, after: MemoryModel, name: Seq<char>, now: i64)
    requires
        m.wf(),
        m.prepared(after, name, now),
    ensures
        after.wf(),
{
    let mid = choose|mid: MemoryModel| #[trigger]
        m.set_up(mid, now) && after == mid.with_collection(name);
    law_set_up_wf(m, mid, now);
    law_with_collection_wf(mid, name);
}

/// Planting a part of the seed keeps the store well-formed.
pub proof fn law_part_wf(
    m: MemoryModel,
    name: Seq<char>,
    items: Seq<(Seq<char>, EntryModel)>,
    revisions: Seq<Seq<u8>>,
    now: i64,
)
    requires
        m.wf(),
    ensures
        m.with_shelf(
            name,
            limited(filled(shelf_of(m.shelves, name), items, revisions), m.limit, now),
        ).wf(),
{
    lemma_shelf_may_hold(m, name);
    let full = filled(shelf_of(m.shelves, name), items, revisions);
    lemma_filled_finite(shelf_of(m.shelves, name), items, revisions);
    lemma_limited_fits(full, m.limit, now);
    lemma_with_shelf_wf(m, name, limited(full, m.limit, now));
}

/// Putting entries keeps the store well-formed.
pub proof fn law_stored_wf(
    m: MemoryModel,
    after: MemoryModel,
    name: Seq<char>,
    items: Seq<(Seq<char>, EntryModel)>,
    revisions: Seq<Seq<u8>>,
    now: i64,
)
    requires
        m.wf(),
        m.stored(after, name, items, revisions, now),
    ensures
        after.wf(),
{
    let full = filled(shelf_of(m.shelves, name), items, revisions);
    let keys = crate::ordered::dict_keys(items);
    let held = m.with_shelf(name, limited(full, m.limit, now));
    law_part_wf(m, name, items, revisions, now);
    let deleted = choose|deleted: Seq<Seq<char>>| #[trigger]
        lists_deleted(deleted, full, m.limit, now) && after == held.recorded_all(
            name,
            keys,
            ChangeOperation::Put,
            now,
        ).recorded_all(name, deleted, ChangeOperation::Delete, now);
    let put = held.log.recorded_all(name, keys, ChangeOperation::Put, now);
    law_recorded_all_wf(held.log, name, keys, ChangeOperation::Put, now);
    law_recorded_all_wf(put, name, deleted, ChangeOperation::Delete, now);
    lemma_logged_wf(held, after);
}

/// A compare-and-swap keeps the store well-formed, whatever its answer.
pub proof fn law_swapped_wf(
    m: MemoryModel,
    after: MemoryModel,
    name: Seq<char>,
    key: Seq<char>,
    expected: Option<Seq<u8>>,
    entry: EntryModel,
    revision: Seq<u8>,
    now: i64,
)
    requires
        m.wf(),
        m.swapped(after, name, key, expected, entry, revision, now),
    ensures
        after.wf(),
{
    if m.swap_applies(name, key, expected, now) {
        law_stored_wf(m, after, name, seq![(key, entry)], seq![revision], now);
    } else {
        law_with_collection_wf(m, name);
        law_deleted_wf(m, name, key, now);
    }
}

/// Deleting an entry keeps the store well-formed.
pub proof fn law_deleted_wf(m: MemoryModel, name: Seq<char>, key: Seq<char>, now: i64)
    requires
        m.wf(),
    ensures
        m.with_shelf(name, shelf_of(m.shelves, name).remove(key)).wf(),
        m.with_shelf(name, shelf_of(m.shelves, name).remove(key)).recorded(
            name,
            key,
            ChangeOperation::Delete,
            now,
        ).wf(),
{
    let shelf = shelf_of(m.shelves, name);
    let left = m.with_shelf(name, shelf.remove(key));
    lemma_shelf_may_hold(m, name);
    lemma_may_hold_less(m, name, shelf, shelf.remove(key));
    lemma_with_shelf_wf(m, name, shelf.remove(key));
    law_recorded_wf(left.log, name, key, ChangeOperation::Delete, now);
    lemma_logged_wf(left, left.recorded(name, key, ChangeOperation::Delete, now));
}

/// Deleting many entries keeps the store well-formed, whatever is recorded of it.
pub proof fn law_all_deleted_wf(
    m: MemoryModel,
    name: Seq<char>,
    keys: Set<Seq<char>>,
    gone: Seq<Seq<char>>,
    now: i64,
)
    requires
        m.wf(),
    ensures
        m.with_shelf(name, shelf_of(m.shelves, name).remove_keys(keys)).recorded_all(
            name,
            gone,
            ChangeOperation::Delete,
            now,
        ).wf(),
{
    let shelf = shelf_of(m.shelves, name);
    let left = m.with_shelf(name, shelf.remove_keys(keys));
    lemma_shelf_may_hold(m, name);
    lemma_may_hold_less(m, name, shelf, shelf.remove_keys(keys));
    lemma_with_shelf_wf(m, name, shelf.remove_keys(keys));
    law_recorded_all_wf(left.log, name, gone, ChangeOperation::Delete, now);
    lemma_logged_wf(left, left.recorded_all(name, gone, ChangeOperation::Delete, now));
}

/// A compare-and-delete keeps the store well-formed, whatever its answer.
pub proof fn law_cleared_wf(
    m: MemoryModel,
    name: Seq<char>,
    key: Seq<char>,
    expected: Seq<u8>,
    now: i64,
)
    requires
        m.wf(),
    ensures
        m.cleared(name, key, expected, now).1.wf(),
{
    law_deleted_wf(m, name, key, now);
    law_with_collection_wf(m, name);
}

proof fn lemma_culled_log_wf(
    m: MemoryModel,
    names: Seq<Seq<char>>,
    lists: Seq<Seq<Seq<char>>>,
    now: i64,
)
    requires
        m.log.wf(),
    ensures
        m.culled_log(names, lists, now).wf(),
    decreases names.len(),
{
    if names.len() > 0 {
        lemma_culled_log_wf(m, names.drop_last(), lists, now);
        law_recorded_all_wf(
            m.culled_log(names.drop_last(), lists, now),
            names.last(),
            lists[names.len() - 1],
            ChangeOperation::Delete,
            now,
        );
    }
}

/// Culling keeps the store well-formed.
pub proof fn law_culled_wf(m: MemoryModel, after: MemoryModel, now: i64)
    requires
        m.wf(),
        m.culled(after, now),
    ensures
        after.wf(),
{
    let (names, lists) = choose|names: Seq<Seq<char>>, lists: Seq<Seq<Seq<char>>>|
        after.log == #[trigger] m.culled_log(names, lists, now);
    lemma_culled_log_wf(m, names, lists, now);
    assert forall|n: Seq<char>| #[trigger] after.shelves.dom().contains(n) implies after.may_hold(
        n,
        after.shelves[n],
    ) by {
        assert(m.shelves.dom().contains(n));
        lemma_may_hold_less(m, n, m.shelves[n], alive(m.shelves[n], now));
    }
}

/// Destroying a collection keeps the store well-formed.
pub proof fn law_collection_destroyed_wf(m: MemoryModel, name: Seq<char>)
    requires
        m.wf(),
    ensures
        (MemoryModel { shelves: m.shelves.remove(name), ..m }).wf(),
{
    let after = MemoryModel { shelves: m.shelves.remove(name), ..m };
    assert forall|n: Seq<char>| #[trigger] after.shelves.dom().contains(n) implies after.may_hold(
        n,
        after.shelves[n],
    ) by {
        assert(m.shelves.dom().contains(n));
    }
}

/// Destroying a store keeps it well-formed.
pub proof fn law_destroyed_wf(m: MemoryModel)
    requires
        m.wf(),
    ensures
        (MemoryModel { shelves: Map::empty(), ready: false, ..m }).wf(),
{
}

} // verus!
