//! What the operations of the store in memory promise together.

use crate::cas::CasModel;
use crate::change::ChangeOperation;
use crate::entry::{EntryModel, ManagedEntry};
use crate::protocol::{DeleteModel, Revision, SwapModel};
use crate::store::memory::bounds::lemma_filled_finite;
use crate::store::memory::capacity::{
    alive, expired_keys, law_stays, law_trimmed, limited, lists_deleted, stays, trimmed,
};
use crate::store::memory::config::{default_name, seed_model, SeedData, SeedModel};
use crate::store::memory::shelf::{Entries, Shelves};
use crate::store::memory::store::{
    batch_items, filled, items_of, lasting, name_model, planted, reads_ttl, reads_value,
    revisions_model, shelf_of, taken, values_model, MemoryModel,
};
use crate::value::{Value, ValueModel};
use vstd::prelude::*;
#[allow(unused_imports)]
use vstd::string::*;

verus! {

/// Only a seed with an item in it can fail to be planted: a store without one is always set up.
pub proof fn law_without_seed_nothing_fails(m: MemoryModel, after: MemoryModel, now: i64)
    requires
        forall|i: int| 0 <= i < m.seed.len() ==> (#[trigger] m.seed[i]).1.len() == 0,
    ensures
        !m.set_up_failed(after, now),
{
}

/// A collection with one entry written to it, before the limit is enforced.
pub open spec fn with_entry(
    m: MemoryModel,
    name: Seq<char>,
    key: Seq<char>,
    entry: EntryModel,
    revision: Seq<u8>,
) -> Entries {
    shelf_of(m.shelves, name).insert(key, CasModel { entry, revision })
}

proof fn lemma_one_stored(
    m: MemoryModel,
    after: MemoryModel,
    name: Seq<char>,
    key: Seq<char>,
    entry: EntryModel,
    revision: Seq<u8>,
    now: i64,
)
    requires
        m.stored(after, name, seq![(key, entry)], seq![revision], now),
    ensures
        ({
            let full = with_entry(m, name, key, entry, revision);
            &&& after == (MemoryModel {
                shelves: m.shelves.insert(name, limited(full, m.limit, now)),
                log: after.log,
                ..m
            })
            &&& limited(full, m.limit, now).submap_of(full)
            &&& exists|deleted: Seq<Seq<char>>| #[trigger]
                lists_deleted(deleted, full, m.limit, now) && after.log == m.log.recorded(
                    name,
                    key,
                    ChangeOperation::Put,
                    now,
                ).recorded_all(name, deleted, ChangeOperation::Delete, now)
        }),
{
    reveal_with_fuel(filled, 2);
    reveal_with_fuel(crate::store::memory::client::LogModel::recorded_all, 2);
    let one = seq![(key, entry)];
    assert(one.drop_last() =~= Seq::empty());
    let full = with_entry(m, name, key, entry, revision);
    assert(filled(shelf_of(m.shelves, name), one, seq![revision]) == full);
    let keys = crate::ordered::dict_keys(one);
    assert(keys =~= seq![key]);
    assert(keys.drop_last() =~= Seq::empty());
    assert(m.log.recorded_all(name, keys, ChangeOperation::Put, now) == m.log.recorded(
        name,
        key,
        ChangeOperation::Put,
        now,
    ));
    lemma_limited_submap(full, m.limit, now);
}

/// Of two swaps that expect the same revision at most one applies, as long as the first
/// brings a new revision.
pub proof fn law_one_swap_per_revision(
    m: MemoryModel,
    after: MemoryModel,
    name: Seq<char>,
    key: Seq<char>,
    seen: Seq<u8>,
    first: EntryModel,
    fresh: Seq<u8>,
    other: Seq<u8>,
    now: i64,
    later: i64,
)
    requires
        fresh != seen,
        m.swap_answer(name, key, Some(seen), fresh, now) is Applied,
        m.swapped(after, name, key, Some(seen), first, fresh, now),
    ensures
        after.swap_answer(name, key, Some(seen), other, later) is Conflict,
{
    lemma_one_stored(m, after, name, key, first, fresh, now);
    let full = with_entry(m, name, key, first, fresh);
    let kept = limited(full, m.limit, now);
    if kept.dom().contains(key) {
        lemma_submap_at(kept, full, key);
    }
}

/// Of two creations of the same entry at most one applies while the first one lives and is not
/// crowded out by the limit.
pub proof fn law_one_creation(
    m: MemoryModel,
    after: MemoryModel,
    name: Seq<char>,
    key: Seq<char>,
    first: EntryModel,
    fresh: Seq<u8>,
    other: Seq<u8>,
    now: i64,
    later: i64,
)
    requires
        m.swap_answer(name, key, None, fresh, now) is Applied,
        m.swapped(after, name, key, None, first, fresh, now),
        !first.expired(later),
        shelf_of(after.shelves, name).dom().contains(key),
    ensures
        after.swap_answer(name, key, None, other, later) == (SwapModel::Conflict {
            current: CasModel { entry: first, revision: fresh }.visible(later),
        }),
{
    lemma_one_stored(m, after, name, key, first, fresh, now);
    let full = with_entry(m, name, key, first, fresh);
    lemma_submap_at(limited(full, m.limit, now), full, key);
}

/// A swap that does not apply changes nothing that a reader can find, and records nothing.
pub proof fn law_conflict_changes_nothing(
    m: MemoryModel,
    after: MemoryModel,
    name: Seq<char>,
    key: Seq<char>,
    expected: Option<Seq<u8>>,
    entry: EntryModel,
    revision: Seq<u8>,
    now: i64,
)
    requires
        m.swap_answer(name, key, expected, revision, now) is Conflict,
        m.swapped(after, name, key, expected, entry, revision, now),
    ensures
        after.log == m.log,
        forall|n: Seq<char>, k: Seq<char>| #[trigger]
            after.found(n, k, now) == m.found(n, k, now),
{
}

/// A swap that applies is stored as a put is, under the revision that it was answered: so the laws
/// of a put hold of it.
pub proof fn law_swap_is_a_put(
    m: MemoryModel,
    after: MemoryModel,
    name: Seq<char>,
    key: Seq<char>,
    expected: Option<Seq<u8>>,
    entry: EntryModel,
    revision: Seq<u8>,
    now: i64,
)
    requires
        m.swap_answer(name, key, expected, revision, now) is Applied,
        m.swapped(after, name, key, expected, entry, revision, now),
    ensures
        m.swap_answer(name, key, expected, revision, now) == (SwapModel::Applied { revision }),
        m.stored(after, name, seq![(key, entry)], seq![revision], now),
{
}

/// A swap that applies is what a reader finds, with the revision that it was answered, unless the
/// limit crowds it out; every other key that stays keeps what it held; the put is recorded, and
/// then what left.
pub proof fn law_swap_is_read_back(
    m: MemoryModel,
    after: MemoryModel,
    name: Seq<char>,
    key: Seq<char>,
    expected: Option<Seq<u8>>,
    entry: EntryModel,
    revision: Seq<u8>,
    now: i64,
)
    requires
        m.swap_answer(name, key, expected, revision, now) is Applied,
        m.swapped(after, name, key, expected, entry, revision, now),
        !entry.expired(now),
        m.wf(),
    ensures
        ({
            let full = with_entry(m, name, key, entry, revision);
            &&& stays(full, m.limit, key, now) ==> after.found(name, key, now) == Some(
                CasModel { entry, revision },
            )
            &&& forall|n: Seq<char>, k: Seq<char>|
                (n != name || k != key) && (n == name ==> stays(full, m.limit, k, now))
                    ==> #[trigger] after.found(n, k, now) == m.found(n, k, now)
            &&& exists|deleted: Seq<Seq<char>>| #[trigger]
                lists_deleted(deleted, full, m.limit, now) && after.log == m.log.recorded(
                    name,
                    key,
                    ChangeOperation::Put,
                    now,
                ).recorded_all(name, deleted, ChangeOperation::Delete, now)
        }),
{
    law_put_is_read_back(m, after, name, key, entry, revision, now);
    lemma_one_stored(m, after, name, key, entry, revision, now);
}

/// A delete that expects the revision a reader saw removes the entry; one that expects
/// another revision removes nothing that a reader can find.
pub proof fn law_compare_and_delete(
    m: MemoryModel,
    name: Seq<char>,
    key: Seq<char>,
    expected: Seq<u8>,
    now: i64,
)
    ensures
        ({
            let (answer, after) = m.cleared(name, key, expected, now);
            &&& answer is Deleted <==> (m.found(name, key, now) matches Some(c) && c.revision
                == expected)
            &&& answer is Deleted ==> after.found(name, key, now) is None && after.log
                == m.log.recorded(name, key, ChangeOperation::Delete, now)
            &&& answer is Conflict ==> after.log == m.log && forall|n: Seq<char>, k: Seq<char>|
                #[trigger] after.found(n, k, now) == m.found(n, k, now)
        }),
{
}

/// What was put is what a reader finds, unless the limit crowds it out: without a limit always, and
/// with one where fewer live entries than that have greater keys. Other keys that stay keep what
/// they held.
pub proof fn law_put_is_read_back(
    m: MemoryModel,
    after: MemoryModel,
    name: Seq<char>,
    key: Seq<char>,
    entry: EntryModel,
    revision: Seq<u8>,
    now: i64,
)
    requires
        m.stored(after, name, seq![(key, entry)], seq![revision], now),
        !entry.expired(now),
        m.wf(),
    ensures
        ({
            let full = with_entry(m, name, key, entry, revision);
            &&& stays(full, m.limit, key, now) ==> after.found(name, key, now) == Some(
                CasModel { entry, revision },
            )
            &&& forall|n: Seq<char>, k: Seq<char>|
                (n != name || k != key) && (n == name ==> stays(full, m.limit, k, now))
                    ==> #[trigger] after.found(n, k, now) == m.found(n, k, now)
        }),
{
    lemma_one_stored(m, after, name, key, entry, revision, now);
    let full = with_entry(m, name, key, entry, revision);
    let kept = limited(full, m.limit, now);
    assert(shelf_of(after.shelves, name) == kept);
    if stays(full, m.limit, key, now) {
        lemma_kept(full, m.limit, key, now);
    }
    assert forall|n: Seq<char>, k: Seq<char>|
        (n != name || k != key) && (n == name ==> stays(full, m.limit, k, now)) implies #[trigger]
        after.found(n, k, now) == m.found(n, k, now) by {
        if n == name {
            lemma_kept(full, m.limit, k, now);
        }
    }
}

/// Which live entries stay under a limit, and that they stay as they were.
proof fn lemma_kept(full: Entries, limit: Option<usize>, key: Seq<char>, now: i64)
    requires
        full.dom().finite(),
        stays(full, limit, key, now),
    ensures
        ({
            let kept = limited(full, limit, now);
            let live = full.dom().contains(key) && !full[key].entry.expired(now);
            &&& live ==> kept.dom().contains(key) && kept[key] == full[key]
            &&& kept.dom().contains(key) ==> full.dom().contains(key) && kept[key] == full[key]
        }),
{
    lemma_limited_submap(full, limit, now);
    let kept = limited(full, limit, now);
    if kept.dom().contains(key) {
        lemma_submap_at(kept, full, key);
    }
    if let Some(max) = limit {
        let live = alive(full, now);
        assert(live.dom() =~= full.dom().difference(expired_keys(full, now)));
        if live.dom().contains(key) {
            law_stays(live, max as nat, key);
            assert(kept.dom().contains(key));
            lemma_submap_at(kept, full, key);
        }
    }
}

/// A put invalidates the revision that a reader saw before it: a swap that still expects it
/// conflicts.
pub proof fn law_put_invalidates_revision(
    m: MemoryModel,
    after: MemoryModel,
    name: Seq<char>,
    key: Seq<char>,
    entry: EntryModel,
    fresh: Seq<u8>,
    seen: Seq<u8>,
    other: Seq<u8>,
    now: i64,
    later: i64,
)
    requires
        m.stored(after, name, seq![(key, entry)], seq![fresh], now),
        fresh != seen,
    ensures
        after.swap_answer(name, key, Some(seen), other, later) is Conflict,
{
    lemma_one_stored(m, after, name, key, entry, fresh, now);
    let full = with_entry(m, name, key, entry, fresh);
    let kept = limited(full, m.limit, now);
    if kept.dom().contains(key) {
        lemma_submap_at(kept, full, key);
    }
}

proof fn lemma_submap_at(part: Entries, whole: Entries, k: Seq<char>)
    requires
        part.submap_of(whole),
        part.dom().contains(k),
    ensures
        whole.dom().contains(k),
        part[k] == whole[k],
{
    let inside = whole.dom().contains(k);
    assert(inside);
}

proof fn lemma_limited_submap(full: Entries, limit: Option<usize>, now: i64)
    ensures
        limited(full, limit, now).submap_of(full),
        full.dom().finite() ==> (limit matches Some(max) ==> limited(full, limit, now).dom().len()
            <= max),
{
    if let Some(max) = limit {
        let live = alive(full, now);
        assert(live.dom() =~= full.dom().difference(expired_keys(full, now)));
        if live.dom().finite() {
            law_trimmed(live, max as nat);
        }
        let kept = limited(full, limit, now);
        assert(kept == trimmed(live, max as nat));
        assert forall|k: Seq<char>| #[trigger] kept.dom().contains(k) implies full.dom().contains(k)
            && kept[k] == full[k] by {
            lemma_submap_at(kept, live, k);
        }
    }
}

/// After a write, a collection with a limit holds no more entries than that, and only
/// entries that were written.
pub proof fn law_limit_is_kept(
    m: MemoryModel,
    after: MemoryModel,
    name: Seq<char>,
    items: Seq<(Seq<char>, EntryModel)>,
    revisions: Seq<Seq<u8>>,
    now: i64,
)
    requires
        m.stored(after, name, items, revisions, now),
        m.wf(),
    ensures
        m.limit matches Some(max) ==> after.shelves[name].dom().len() <= max,
        after.shelves[name].submap_of(filled(shelf_of(m.shelves, name), items, revisions)),
{
    lemma_filled_finite(shelf_of(m.shelves, name), items, revisions);
    lemma_limited_submap(filled(shelf_of(m.shelves, name), items, revisions), m.limit, now);
}

/// A swap keeps the limit too: a collection that holds no more entries than the limit holds no
/// more after it, whatever the answer.
pub proof fn law_limit_is_kept_by_swaps(
    m: MemoryModel,
    after: MemoryModel,
    name: Seq<char>,
    key: Seq<char>,
    expected: Option<Seq<u8>>,
    entry: EntryModel,
    revision: Seq<u8>,
    now: i64,
)
    requires
        m.swapped(after, name, key, expected, entry, revision, now),
        m.wf(),
        m.limit matches Some(max) ==> shelf_of(m.shelves, name).dom().len() <= max,
    ensures
        m.limit matches Some(max) ==> after.shelves[name].dom().len() <= max,
{
    if m.swap_applies(name, key, expected, now) {
        lemma_one_stored(m, after, name, key, entry, revision, now);
        lemma_limited_submap(with_entry(m, name, key, entry, revision), m.limit, now);
    } else {
        let shelf = shelf_of(m.shelves, name);
        assert(shelf.remove(key).dom() =~= shelf.dom().remove(key));
        vstd::set_lib::lemma_len_subset(shelf.remove(key).dom(), shelf.dom());
    }
}

/// After culling, a reader finds what it found before: only what counted as absent is gone.
pub proof fn law_cull_is_invisible(
    m: MemoryModel,
    after: MemoryModel,
    name: Seq<char>,
    key: Seq<char>,
    now: i64,
)
    requires
        m.culled(after, now),
    ensures
        after.found(name, key, now) == m.found(name, key, now),
        shelf_of(after.shelves, name).dom().contains(key) ==> m.found(name, key, now) is Some,
{
}

/// Of entries put one after the other the last one of each key stays, with its revision; every other
/// key keeps what it held.
pub proof fn law_filled(
    shelf: Entries,
    items: Seq<(Seq<char>, EntryModel)>,
    revisions: Seq<Seq<u8>>,
    key: Seq<char>,
)
    ensures
        forall|i: int|
            0 <= i < items.len() && (#[trigger] items[i]).0 == key && (forall|j: int|
                i < j < items.len() ==> (#[trigger] items[j]).0 != key) ==> {
                &&& filled(shelf, items, revisions).dom().contains(key)
                &&& filled(shelf, items, revisions)[key].entry == items[i].1
                &&& filled(shelf, items, revisions)[key].revision == revisions[i]
            },
        (forall|i: int| 0 <= i < items.len() ==> (#[trigger] items[i]).0 != key) ==> {
            &&& filled(shelf, items, revisions).dom().contains(key) == shelf.dom().contains(key)
            &&& shelf.dom().contains(key) ==> filled(shelf, items, revisions)[key] == shelf[key]
        },
    decreases items.len(),
{
    if items.len() > 0 {
        let front = items.drop_last();
        let n = items.len() - 1;
        law_filled(shelf, front, revisions, key);
        if items[n].0 == key {
            assert forall|i: int|
                0 <= i < items.len() && (#[trigger] items[i]).0 == key && (forall|j: int|
                    i < j < items.len() ==> (#[trigger] items[j]).0 != key) implies i == n by {
                if i < n {
                    assert(items[n].0 != key);
                }
            }
        } else {
            assert forall|i: int|
                0 <= i < items.len() && (#[trigger] items[i]).0 == key && (forall|j: int|
                    i < j < items.len() ==> (#[trigger] items[j]).0 != key) implies {
                &&& filled(shelf, items, revisions).dom().contains(key)
                &&& filled(shelf, items, revisions)[key].entry == items[i].1
                &&& filled(shelf, items, revisions)[key].revision == revisions[i]
            } by {
                assert(front[i] == items[i]);
                assert forall|j: int| i < j < front.len() implies (#[trigger] front[j]).0 != key by {
                    assert(items[j].0 != key);
                }
            }
            if forall|i: int| 0 <= i < items.len() ==> (#[trigger] items[i]).0 != key {
                assert forall|i: int| 0 <= i < front.len() implies (#[trigger] front[i]).0
                    != key by {
                    assert(items[i].0 != key);
                }
            }
        }
    }
}

/// After a batch write without a limit a reader finds under each key the value of its last place,
/// and under every other key what was there.
pub proof fn law_batch_is_read_back(
    m: MemoryModel,
    after: MemoryModel,
    name: Seq<char>,
    keys: Seq<Seq<char>>,
    values: Seq<ValueModel>,
    ttl: Option<i64>,
    revisions: Seq<Seq<u8>>,
    now: i64,
    later: i64,
    other_name: Seq<char>,
    other_key: Seq<char>,
)
    requires
        m.limit is None,
        keys.len() == values.len(),
        ttl matches Some(t) ==> 0 < t && now + t <= crate::utils::ttl::CALENDAR_END && later < now
            + t,
        m.stored(after, name, batch_items(keys, values, ttl, now), revisions, now),
    ensures
        forall|i: int|
            0 <= i < keys.len() && (forall|j: int|
                i < j < keys.len() ==> #[trigger] keys[j] != keys[i]) ==> (after.found(
                name,
                #[trigger] keys[i],
                later,
            ) matches Some(seen) && seen.entry.value == values[i] && seen.revision == revisions[i]
                && seen.entry.expires_at == match ttl {
                Some(t) => Some((now + t) as i64),
                None => None,
            }),
        other_name != name || !keys.contains(other_key) ==> after.found(
            other_name,
            other_key,
            later,
        ) == m.found(other_name, other_key, later),
{
    let items = batch_items(keys, values, ttl, now);
    let full = filled(shelf_of(m.shelves, name), items, revisions);
    assert(after.shelves == m.shelves.insert(name, full));
    assert forall|i: int|
        0 <= i < keys.len() && (forall|j: int|
            i < j < keys.len() ==> #[trigger] keys[j] != keys[i]) implies (after.found(
        name,
        #[trigger] keys[i],
        later,
    ) matches Some(seen) && seen.entry.value == values[i] && seen.revision == revisions[i]
        && seen.entry.expires_at == match ttl {
        Some(t) => Some((now + t) as i64),
        None => None,
    }) by {
        law_filled(shelf_of(m.shelves, name), items, revisions, keys[i]);
        assert(items[i].0 == keys[i]);
        assert forall|j: int| i < j < items.len() implies (#[trigger] items[j]).0 != keys[i] by {
            assert(keys[j] != keys[i]);
        }
    }
    if !keys.contains(other_key) {
        law_filled(shelf_of(m.shelves, name), items, revisions, other_key);
        assert forall|i: int| 0 <= i < items.len() implies (#[trigger] items[i]).0
            != other_key by {
            assert(keys.contains(keys[i]));
        }
    }
}

/// Deleting keys one by one takes out each key that was there once, and no other.
pub proof fn law_taken(shelf: Entries, keys: Seq<Seq<char>>)
    ensures
        taken(shelf, keys).no_duplicates(),
        forall|key: Seq<char>| #[trigger]
            taken(shelf, keys).contains(key) <==> keys.contains(key) && shelf.dom().contains(key),
    decreases keys.len(),
{
    if keys.len() > 0 {
        let front = keys.drop_last();
        let last = keys.last();
        law_taken(shelf, front);
        let before = taken(shelf, front);
        let gone = taken(shelf, keys);
        assert forall|key: Seq<char>| #[trigger] gone.contains(key) <==> keys.contains(key)
            && shelf.dom().contains(key) by {
            assert(before.contains(key) <==> front.contains(key) && shelf.dom().contains(key));
            assert(keys.contains(key) <==> front.contains(key) || key == last) by {
                if keys.contains(key) {
                    let i = choose|i: int| 0 <= i < keys.len() && keys[i] == key;
                    if i < front.len() {
                        assert(front[i] == key);
                    }
                }
                if front.contains(key) {
                    let i = choose|i: int| 0 <= i < front.len() && front[i] == key;
                    assert(keys[i] == key);
                }
                if key == last {
                    assert(keys[keys.len() - 1] == key);
                }
            }
            if gone.len() > before.len() {
                assert(gone == before.push(last));
                if before.contains(key) {
                    let i = choose|i: int| 0 <= i < before.len() && before[i] == key;
                    assert(gone[i] == key);
                }
                if key == last {
                    assert(gone[before.len() as int] == key);
                }
                if gone.contains(key) && key != last {
                    let i = choose|i: int| 0 <= i < gone.len() && gone[i] == key;
                    assert(before[i] == key);
                }
            }
        }
        if gone.len() > before.len() {
            assert(!before.contains(last));
        }
    }
}

/// Once a store is set up, reading finds what is there and changes nothing that anyone can find.
pub proof fn law_reading_changes_nothing(
    m: MemoryModel,
    after: MemoryModel,
    collection: Seq<char>,
    name: Seq<char>,
    key: Seq<char>,
    now: i64,
)
    requires
        m.ready,
        m.prepared(after, collection, now),
    ensures
        after.found(name, key, now) == m.found(name, key, now),
        after.log == m.log,
        after.ready,
{
}

/// What is found is what the collection holds and has not expired; all that is held and lives is
/// found.
pub proof fn law_found(m: MemoryModel, name: Seq<char>, key: Seq<char>, now: i64)
    ensures
        match m.found(name, key, now) {
            Some(seen) => {
                &&& m.shelves.dom().contains(name)
                &&& m.shelves[name].dom().contains(key)
                &&& m.shelves[name][key] == seen
                &&& (seen.entry.expires_at matches Some(t) ==> now < t)
            },
            None => !m.shelves.dom().contains(name) || !m.shelves[name].dom().contains(key) || (
            m.shelves[name][key].entry.expires_at matches Some(t) && t <= now),
        },
{
}

/// A seed item that no later one replaces is there once the store is set up, if there is no limit,
/// and stays there for all time.
pub proof fn law_seed_is_planted(
    shelves: Shelves,
    seed: SeedModel,
    revisions: Seq<Seq<Seq<u8>>>,
    now: i64,
    part: int,
    item: int,
)
    requires
        0 <= part < seed.len(),
        0 <= item < seed[part].1.len(),
        forall|q: int, j: int|
            0 <= q < seed.len() && 0 <= j < seed[q].1.len() && (q > part || q == part && j > item)
                ==> seed[q].0 != seed[part].0 || (#[trigger] seed[q].1[j]).0
                != seed[part].1[item].0,
    ensures
        ({
            let after = planted(shelves, seed, revisions, None, now);
            let name = seed[part].0;
            let key = seed[part].1[item].0;
            &&& after.dom().contains(name)
            &&& after[name].dom().contains(key)
            &&& after[name][key].entry.value == seed[part].1[item].1
            &&& after[name][key].entry.expires_at is None
            &&& after[name][key].revision == revisions[part][item]
        }),
    decreases seed.len(),
{
    let front = seed.drop_last();
    let n = seed.len() - 1;
    let before = planted(shelves, front, revisions, None, now);
    let name = seed[part].0;
    let key = seed[part].1[item].0;
    let items = lasting(seed[n].1, now);
    law_filled(shelf_of(before, seed[n].0), items, revisions[n], key);
    if part < n {
        assert forall|q: int, j: int|
            0 <= q < front.len() && 0 <= j < front[q].1.len() && (q > part || q == part && j
                > item) implies front[q].0 != front[part].0 || (#[trigger] front[q].1[j]).0
            != front[part].1[item].0 by {
            assert(seed[q].1[j] == front[q].1[j]);
        }
        law_seed_is_planted(shelves, front, revisions, now, part, item);
        if seed[n].0 == name {
            assert forall|j: int| 0 <= j < items.len() implies (#[trigger] items[j]).0 != key by {
                assert(seed[n].1[j].0 != key);
            }
        }
    } else {
        assert(items[item].0 == key);
        assert forall|j: int| item < j < items.len() implies (#[trigger] items[j]).0 != key by {
            assert(seed[n].1[j].0 != key);
        }
    }
}

/// After culling nothing that has expired is held, and everything that lives is held as it was.
pub proof fn law_cull_keeps_the_living(
    m: MemoryModel,
    after: MemoryModel,
    name: Seq<char>,
    key: Seq<char>,
    now: i64,
)
    requires
        m.culled(after, now),
        m.shelves.dom().contains(name),
    ensures
        after.shelves.dom().contains(name),
        after.shelves[name].dom().contains(key) <==> m.shelves[name].dom().contains(key) && !(
        m.shelves[name][key].entry.expires_at matches Some(t) && t <= now),
        after.shelves[name].dom().contains(key) ==> after.shelves[name][key]
            == m.shelves[name][key],
{
}

/// A reader is told the value of the entry that is found, and the time it has left; nothing where
/// nothing is found.
pub proof fn law_told(
    value: Option<Value>,
    timed: Option<(Value, Option<u64>)>,
    found: Option<CasModel>,
    now: i64,
)
    ensures
        reads_value(value, found) <==> match (value, found) {
            (Some(v), Some(c)) => v@ == c.entry.value,
            (None, None) => true,
            _ => false,
        },
        reads_ttl(timed, found, now) <==> match (timed, found) {
            (Some((v, left)), Some(c)) => v@ == c.entry.value && left == match c.entry.expires_at {
                Some(t) => Some(
                    if t <= now {
                        0u64
                    } else {
                        (t - now) as u64
                    },
                ),
                None => None,
            },
            (None, None) => true,
            _ => false,
        },
{
}

/// A compare-and-swap applies exactly where nothing is found and nothing is expected, or where what
/// is found has just the expected revision; otherwise the answer names what is found.
pub proof fn law_swap_decides(
    m: MemoryModel,
    name: Seq<char>,
    key: Seq<char>,
    expected: Option<Seq<u8>>,
    revision: Seq<u8>,
    now: i64,
)
    ensures
        match (m.found(name, key, now), expected) {
            (None, None) => m.swap_answer(name, key, expected, revision, now)
                == (SwapModel::Applied { revision }),
            (None, Some(_)) => m.swap_answer(name, key, expected, revision, now)
                == (SwapModel::Conflict { current: None }),
            (Some(c), wanted) => if wanted == Some(c.revision) {
                m.swap_answer(name, key, expected, revision, now) == (SwapModel::Applied {
                    revision,
                })
            } else {
                m.swap_answer(name, key, expected, revision, now) matches SwapModel::Conflict {
                    current: Some(seen),
                } && seen.value == c.entry.value && seen.revision == c.revision
            },
        },
{
}

/// A compare-and-delete that is refused names what is found.
pub proof fn law_refused_delete_names_current(
    m: MemoryModel,
    name: Seq<char>,
    key: Seq<char>,
    expected: Seq<u8>,
    now: i64,
)
    ensures
        m.cleared(name, key, expected, now).0 matches DeleteModel::Conflict { current } ==> match (
            m.found(name, key, now),
            current,
        ) {
            (Some(c), Some(seen)) => seen.value == c.entry.value && seen.revision == c.revision,
            (None, None) => true,
            _ => false,
        },
{
}

/// A store uses the collection that is named, and its default one where none is.
pub proof fn law_named(m: MemoryModel, name: &str)
    ensures
        m.name(name_model(Some(name))) == name@,
        m.name(name_model(None)) == m.default_collection,
{
}

/// The lists of a batch stand for their items, one for each, in order.
pub proof fn law_lists(
    keys: Seq<String>,
    entries: Seq<ManagedEntry>,
    values: Seq<Value>,
    revisions: Seq<Revision>,
    i: int,
)
    ensures
        items_of(keys, entries).len() == keys.len(),
        values_model(values).len() == values.len(),
        revisions_model(revisions).len() == revisions.len(),
        0 <= i < keys.len() ==> items_of(keys, entries)[i] == (keys[i]@, entries[i]@),
        0 <= i < values.len() ==> values_model(values)[i] == values[i]@,
        0 <= i < revisions.len() ==> revisions_model(revisions)[i] == revisions[i]@,
{
}

/// A seed stands for its parts and their items, in order; the default collection has its name where
/// none is given.
pub proof fn law_configuration(seed: SeedData, name: String, p: int, i: int)
    ensures
        seed_model(None).len() == 0,
        seed_model(Some(seed)).len() == seed@.len(),
        0 <= p < seed@.len() ==> {
            &&& seed_model(Some(seed))[p].0 == seed@[p].0@
            &&& seed_model(Some(seed))[p].1.len() == seed@[p].1@.len()
            &&& 0 <= i < seed@[p].1@.len() ==> seed_model(Some(seed))[p].1[i] == (
                seed@[p].1@[i].0@,
                seed@[p].1@[i].1@,
            )
        },
        default_name(None) == "default_collection"@,
        default_name(Some(name)) == name@,
{
}

/// A deleted key is found no more, at any time; every other key keeps what it held; and the deletion
/// is recorded exactly where the key was there.
pub proof fn law_deleted_is_gone(
    m: MemoryModel,
    name: Seq<char>,
    key: Seq<char>,
    now: i64,
    other_name: Seq<char>,
    other_key: Seq<char>,
    later: i64,
)
    ensures
        ({
            let (gone, after) = m.without(name, key, now);
            &&& gone <==> m.shelves.dom().contains(name) && m.shelves[name].dom().contains(key)
            &&& after.found(name, key, later) is None
            &&& other_name != name || other_key != key ==> after.found(other_name, other_key, later)
                == m.found(other_name, other_key, later)
            &&& after.log == if gone {
                m.log.recorded(name, key, ChangeOperation::Delete, now)
            } else {
                m.log
            }
        }),
{
}

/// Deleted keys are found no more; every other key keeps what it held; what is counted is how many
/// of them were there, each once, and just these are recorded.
pub proof fn law_all_deleted_are_gone(
    m: MemoryModel,
    name: Seq<char>,
    keys: Seq<Seq<char>>,
    now: i64,
    other_name: Seq<char>,
    key: Seq<char>,
    later: i64,
)
    ensures
        ({
            let (count, after) = m.without_all(name, keys, now);
            &&& keys.contains(key) ==> after.found(name, key, later) is None
            &&& other_name != name || !keys.contains(key) ==> after.found(other_name, key, later)
                == m.found(other_name, key, later)
            &&& exists|gone: Seq<Seq<char>>|
                {
                    &&& count == gone.len()
                    &&& #[trigger] gone.no_duplicates()
                    &&& forall|k: Seq<char>|
                        #[trigger] gone.contains(k) <==> keys.contains(k) && shelf_of(
                            m.shelves,
                            name,
                        ).dom().contains(k)
                    &&& after.log == m.log.recorded_all(name, gone, ChangeOperation::Delete, now)
                }
        }),
{
    let gone = taken(shelf_of(m.shelves, name), keys);
    law_taken(shelf_of(m.shelves, name), keys);
    assert(gone.no_duplicates());
    assert(keys.to_set().contains(key) <==> keys.contains(key));
}

/// A destroyed collection is there no more and nothing of it is found; all others keep what they
/// held; nothing is recorded. A destroyed store has no collection, and its seed is planted again.
pub proof fn law_destroyed(
    m: MemoryModel,
    name: Seq<char>,
    other: Seq<char>,
    key: Seq<char>,
    now: i64,
)
    ensures
        ({
            let (found, after) = m.without_collection(name);
            &&& found <==> m.shelves.dom().contains(name)
            &&& !after.shelves.dom().contains(name)
            &&& after.found(name, key, now) is None
            &&& other != name ==> after.found(other, key, now) == m.found(other, key, now)
            &&& other != name ==> (after.shelves.dom().contains(other) <==> m.shelves.dom().contains(
                other,
            ))
            &&& after.log == m.log
        }),
        m.emptied().found(other, key, now) is None,
        !m.emptied().shelves.dom().contains(other),
        !m.emptied().ready,
        m.emptied().seed == m.seed,
        m.emptied().limit == m.limit,
        m.emptied().log == m.log,
{
}

} // verus!
