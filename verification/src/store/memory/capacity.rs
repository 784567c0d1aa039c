//! The size limit of a collection.
//!
//! Where a limit is set, every write first drops what has expired and then, while the
//! collection is too large, the entry with the least key.

use crate::ordered::{
    key_le, key_lt, key_order, lemma_key_lt_transitive, lemma_key_lt_trichotomy, KeyOrder,
};
use crate::store::memory::shelf::{
    shelf_entries, shelf_get, shelf_keys, shelf_len, shelf_remove, Entries, Shelf,
};
use crate::text::texts;
use vstd::prelude::*;
#[allow(unused_imports)]
use vstd::string::*;

verus! {

/// The keys whose entries have expired at `now`.
pub open spec fn expired_keys(m: Entries, now: i64) -> Set<Seq<char>> {
    m.dom().filter(|k: Seq<char>| m[k].entry.expired(now))
}

/// What has not expired at `now`.
pub open spec fn alive(m: Entries, now: i64) -> Entries {
    m.remove_keys(expired_keys(m, now))
}

/// Whether `k` is the least key.
pub open spec fn is_least(m: Entries, k: Seq<char>) -> bool {
    m.dom().contains(k) && forall|other: Seq<char>| #[trigger]
        m.dom().contains(other) ==> key_le(k, other)
}

/// The least key.
pub open spec fn least(m: Entries) -> Seq<char> {
    choose|k: Seq<char>| is_least(m, k)
}

/// The keys that leave, in their order, until at most `max` are left.
pub open spec fn evictions(m: Entries, max: nat) -> Seq<Seq<char>>
    decreases m.dom().len(),
{
    if !m.dom().finite() || m.dom().len() <= max || !m.dom().contains(least(m)) {
        Seq::empty()
    } else {
        seq![least(m)] + evictions(m.remove(least(m)), max)
    }
}

/// What stays.
pub open spec fn trimmed(m: Entries, max: nat) -> Entries
    decreases m.dom().len(),
{
    if !m.dom().finite() || m.dom().len() <= max || !m.dom().contains(least(m)) {
        m
    } else {
        trimmed(m.remove(least(m)), max)
    }
}

/// A collection after its limit, if any, was enforced at `now`.
pub open spec fn limited(m: Entries, limit: Option<usize>, now: i64) -> Entries {
    match limit {
        None => m,
        Some(max) => trimmed(alive(m, now), max as nat),
    }
}

/// Whether `deleted` lists what enforcing the limit takes out: first what had expired, in
/// some order, then the least keys in increasing order.
pub open spec fn lists_deleted(
    deleted: Seq<Seq<char>>,
    m: Entries,
    limit: Option<usize>,
    now: i64,
) -> bool {
    match limit {
        None => deleted.len() == 0,
        Some(max) => exists|expired: Seq<Seq<char>>|
            {
                &&& #[trigger] expired.no_duplicates()
                &&& expired.to_set() == expired_keys(m, now)
                &&& deleted == expired + evictions(alive(m, now), max as nat)
            },
    }
}

proof fn lemma_least_unique(m: Entries, a: Seq<char>, b: Seq<char>)
    requires
        is_least(m, a),
        is_least(m, b),
    ensures
        a == b,
{
    assert(key_le(a, b) && key_le(b, a));
    lemma_key_lt_trichotomy(a, b);
}

proof fn lemma_least_exists(m: Entries, keys: Set<Seq<char>>) -> (k: Seq<char>)
    requires
        keys.finite(),
        keys.len() > 0,
        keys.subset_of(m.dom()),
    ensures
        keys.contains(k),
        forall|other: Seq<char>| #[trigger] keys.contains(other) ==> key_le(k, other),
    decreases keys.len(),
{
    let one = keys.choose();
    let rest = keys.remove(one);
    if rest.len() == 0 {
        assert forall|other: Seq<char>| #[trigger] keys.contains(other) implies key_le(
            one,
            other,
        ) by {
            if other != one {
                assert(rest.contains(other));
                assert(rest =~= Set::empty());
            }
        }
        one
    } else {
        let low = lemma_least_exists(m, rest);
        lemma_key_lt_trichotomy(one, low);
        if key_lt(one, low) {
            assert forall|other: Seq<char>| #[trigger] keys.contains(other) implies key_le(
                one,
                other,
            ) by {
                if other != one {
                    assert(rest.contains(other));
                    assert(key_le(low, other));
                    if low != other {
                        lemma_key_lt_transitive(one, low, other);
                    }
                }
            }
            one
        } else {
            assert forall|other: Seq<char>| #[trigger] keys.contains(other) implies key_le(
                low,
                other,
            ) by {
                if other != one {
                    assert(rest.contains(other));
                }
            }
            low
        }
    }
}

/// A finite collection that is not empty has a least key.
pub proof fn lemma_least(m: Entries)
    requires
        m.dom().finite(),
        m.dom().len() > 0,
    ensures
        is_least(m, least(m)),
{
    let k = lemma_least_exists(m, m.dom());
    assert(is_least(m, k));
}

/// Enforcing a limit leaves at most that many entries, changes none that stays, and every
/// entry that leaves has a smaller key than every entry that stays.
pub proof fn law_trimmed(m: Entries, max: nat)
    requires
        m.dom().finite(),
    ensures
        trimmed(m, max).submap_of(m),
        trimmed(m, max).dom().len() == if m.dom().len() <= max {
            m.dom().len()
        } else {
            max
        },
        trimmed(m, max).dom().finite(),
        forall|gone: Seq<char>, kept: Seq<char>|
            #![trigger m.dom().contains(gone), trimmed(m, max).dom().contains(kept)]
            m.dom().contains(gone) && !trimmed(m, max).dom().contains(gone) && trimmed(
                m,
                max,
            ).dom().contains(kept) ==> key_lt(gone, kept),
        m.dom().len() <= max ==> trimmed(m, max) == m,
    decreases m.dom().len(),
{
    if m.dom().len() > max {
        lemma_least(m);
        let k = least(m);
        let rest = m.remove(k);
        assert(rest.dom() =~= m.dom().remove(k));
        law_trimmed(rest, max);
        let t = trimmed(m, max);
        assert(t == trimmed(rest, max));
        assert forall|gone: Seq<char>, kept: Seq<char>|
            #![trigger m.dom().contains(gone), t.dom().contains(kept)]
            m.dom().contains(gone) && !t.dom().contains(gone) && t.dom().contains(
                kept,
            ) implies key_lt(gone, kept) by {
            assert(rest.dom().contains(kept));
            assert(m.dom().contains(kept));
            if gone == k {
                assert(key_le(k, kept));
            } else {
                assert(rest.dom().contains(gone));
            }
        }
    }
}

/// What leaves is listed once, in increasing order, and is just what does not stay.
pub proof fn law_evictions(m: Entries, max: nat)
    requires
        m.dom().finite(),
    ensures
        evictions(m, max).no_duplicates(),
        evictions(m, max).to_set() == m.dom().difference(trimmed(m, max).dom()),
        forall|i: int, j: int|
            0 <= i < j < evictions(m, max).len() ==> key_lt(
                #[trigger] evictions(m, max)[i],
                #[trigger] evictions(m, max)[j],
            ),
    decreases m.dom().len(),
{
    if m.dom().len() > max {
        lemma_least(m);
        let k = least(m);
        let rest = m.remove(k);
        assert(rest.dom() =~= m.dom().remove(k));
        law_evictions(rest, max);
        law_trimmed(rest, max);
        let tail = evictions(rest, max);
        let e = evictions(m, max);
        assert(e =~= seq![k] + tail);
        assert forall|i: int| 0 <= i < tail.len() implies key_lt(k, #[trigger] tail[i]) by {
            assert(tail.to_set().contains(tail[i]));
            assert(m.dom().contains(tail[i]));
            assert(key_le(k, tail[i]));
        }
        assert forall|i: int, j: int| 0 <= i < j < e.len() implies key_lt(
            #[trigger] e[i],
            #[trigger] e[j],
        ) by {
            assert(e[j] == tail[j - 1]);
            if i > 0 {
                assert(e[i] == tail[i - 1]);
            }
        }
        assert forall|i: int, j: int| 0 <= i < e.len() && 0 <= j < e.len() && i != j implies e[i]
            != e[j] by {
            if i < j {
                assert(key_lt(e[i], e[j]));
            } else {
                assert(key_lt(e[j], e[i]));
            }
            lemma_key_lt_trichotomy(e[i], e[j]);
            lemma_key_lt_trichotomy(e[j], e[i]);
        }
        assert forall|x: Seq<char>| #[trigger] e.to_set().contains(x) <==> m.dom().difference(
            trimmed(m, max).dom(),
        ).contains(x) by {
            if e.contains(x) {
                let i = choose|i: int| 0 <= i < e.len() && e[i] == x;
                if i > 0 {
                    assert(tail[i - 1] == x);
                    assert(tail.to_set().contains(x));
                } else {
                    assert(!rest.dom().contains(k));
                }
            }
            if m.dom().contains(x) && !trimmed(m, max).dom().contains(x) {
                if x == k {
                    assert(e[0] == x);
                } else {
                    assert(tail.to_set().contains(x));
                    let i = choose|i: int| 0 <= i < tail.len() && tail[i] == x;
                    assert(e[i + 1] == x);
                }
            }
        }
        assert(e.to_set() =~= m.dom().difference(trimmed(m, max).dom()));
    } else {
        assert(evictions(m, max).to_set() =~= m.dom().difference(trimmed(m, max).dom()));
    }
}

/// The keys above `key`.
pub open spec fn greater_keys(m: Entries, key: Seq<char>) -> Set<Seq<char>> {
    m.dom().filter(|k: Seq<char>| key_lt(key, k))
}

/// An entry stays exactly where fewer entries than the limit have greater keys.
pub proof fn law_stays(m: Entries, max: nat, key: Seq<char>)
    requires
        m.dom().finite(),
        m.dom().contains(key),
    ensures
        trimmed(m, max).dom().contains(key) <==> greater_keys(m, key).len() < max,
{
    law_trimmed(m, max);
    let kept = trimmed(m, max).dom();
    let above = greater_keys(m, key);
    lemma_key_lt_trichotomy(key, key);
    assert(!above.contains(key));
    if kept.contains(key) {
        assert(above.insert(key).subset_of(kept)) by {
            assert forall|k: Seq<char>| above.insert(key).contains(k) implies kept.contains(k) by {
                if k != key && !kept.contains(k) {
                    assert(m.dom().contains(k));
                    assert(key_lt(k, key));
                    lemma_key_lt_trichotomy(key, k);
                }
            }
        }
        vstd::set_lib::lemma_len_subset(above.insert(key), kept);
    } else {
        assert(kept.subset_of(above)) by {
            assert forall|k: Seq<char>| kept.contains(k) implies above.contains(k) by {
                assert(m.dom().contains(k));
                assert(key_lt(key, k));
            }
        }
        vstd::set_lib::lemma_len_subset(kept, above);
    }
}

/// Whether a live entry stays when the limit, if any, is enforced at `now`.
pub open spec fn stays(m: Entries, limit: Option<usize>, key: Seq<char>, now: i64) -> bool {
    match limit {
        None => true,
        Some(max) => greater_keys(alive(m, now), key).len() < max,
    }
}

/// Takes the expired entries out and lists their keys.
pub fn drop_expired(shelf: &mut Shelf, now: i64) -> (dropped: Vec<String>)
    ensures
        shelf_entries(*final(shelf)) == alive(shelf_entries(*old(shelf)), now),
        texts(dropped@).no_duplicates(),
        texts(dropped@).to_set() == expired_keys(shelf_entries(*old(shelf)), now),
        shelf_entries(*final(shelf)).dom().finite(),
{
    let ghost m = shelf_entries(*shelf);
    let keys = shelf_keys(shelf);
    let ghost all = texts(keys@);
    let mut dropped: Vec<String> = Vec::new();
    let mut i: usize = 0;
    proof {
        assert(m.remove_keys(Set::empty()) =~= m);
        assert(texts(dropped@).to_set() =~= Set::empty());
    }
    while i < keys.len()
        invariant
            i <= keys@.len(),
            all == texts(keys@),
            all.no_duplicates(),
            all.to_set() == m.dom(),
            shelf_entries(*shelf) == m.remove_keys(texts(dropped@).to_set()),
            texts(dropped@).no_duplicates(),
            forall|k: Seq<char>| #[trigger]
                texts(dropped@).contains(k) <==> all.take(i as int).contains(k)
                    && m[k].entry.expired(now),
        decreases keys@.len() - i,
    {
        let ghost before = dropped@;
        let ghost k = keys@[i as int]@;
        proof {
            assert(all[i as int] == k);
            assert(!all.take(i as int).contains(k)) by {
                if all.take(i as int).contains(k) {
                    let j = choose|j: int| 0 <= j < i && all.take(i as int)[j] == k;
                    assert(all[j] == k);
                }
            }
            assert(!texts(before).contains(k));
            assert(all.to_set().contains(k));
            assert(all.take(i + 1) =~= all.take(i as int).push(k));
            assert forall|x: Seq<char>| #[trigger]
                all.take(i + 1).contains(x) <==> all.take(i as int).contains(x) || x == k by {
                if all.take(i as int).contains(x) {
                    let j = choose|j: int| 0 <= j < i && all.take(i as int)[j] == x;
                    assert(all.take(i + 1)[j] == x);
                }
                if x == k {
                    assert(all.take(i + 1)[i as int] == x);
                }
            }
        }
        let expired = match shelf_get(shelf, keys[i].as_str()) {
            Some(entry) => entry.entry.is_expired(now),
            None => false,
        };
        if expired {
            let _ = shelf_remove(shelf, keys[i].as_str());
            dropped.push(keys[i].clone());
            proof {
                let d = texts(dropped@);
                assert(d =~= texts(before).push(k));
                assert forall|x: Seq<char>| #[trigger]
                    d.contains(x) <==> texts(before).contains(x) || x == k by {
                    if texts(before).contains(x) {
                        let j = choose|j: int|
                            0 <= j < texts(before).len() && texts(before)[j] == x;
                        assert(d[j] == x);
                    }
                    if x == k {
                        assert(d[d.len() - 1] == x);
                    }
                }
                assert(d.to_set() =~= texts(before).to_set().insert(k));
                assert(shelf_entries(*shelf) =~= m.remove_keys(d.to_set()));
            }
        }
        i += 1;
    }
    proof {
        assert(all.take(i as int) =~= all);
        assert forall|k: Seq<char>| #[trigger]
            texts(dropped@).to_set().contains(k) <==> expired_keys(m, now).contains(k) by {
            assert(all.contains(k) <==> all.to_set().contains(k));
        }
        assert(texts(dropped@).to_set() =~= expired_keys(m, now));
        vstd::seq_lib::seq_to_set_is_finite(all);
        assert(shelf_entries(*shelf).dom() =~= m.dom().difference(expired_keys(m, now)));
    }
    dropped
}

/// The least key of a shelf that is not empty.
fn least_key(shelf: &Shelf) -> (key: Option<String>)
    ensures
        match key {
            Some(k) => is_least(shelf_entries(*shelf), k@),
            None => shelf_entries(*shelf).dom() == Set::<Seq<char>>::empty(),
        },
{
    let keys = shelf_keys(shelf);
    let ghost all = texts(keys@);
    let ghost m = shelf_entries(*shelf);
    if keys.len() == 0 {
        assert(m.dom() =~= Set::empty());
        return None;
    }
    let mut low: usize = 0;
    let mut i: usize = 1;
    while i < keys.len()
        invariant
            1 <= i <= keys@.len(),
            low < i,
            all == texts(keys@),
            forall|j: int| 0 <= j < i ==> key_le(keys@[low as int]@, #[trigger] keys@[j]@),
        decreases keys@.len() - i,
    {
        match key_order(keys[i].as_str(), keys[low].as_str()) {
            KeyOrder::Less => {
                proof {
                    assert forall|j: int| 0 <= j < i + 1 implies key_le(
                        keys@[i as int]@,
                        #[trigger] keys@[j]@,
                    ) by {
                        if j < i {
                            assert(key_le(keys@[low as int]@, keys@[j]@));
                            if keys@[low as int]@ != keys@[j]@ {
                                lemma_key_lt_transitive(
                                    keys@[i as int]@,
                                    keys@[low as int]@,
                                    keys@[j]@,
                                );
                            }
                        }
                    }
                }
                low = i;
            },
            _ => {
                proof {
                    lemma_key_lt_trichotomy(keys@[i as int]@, keys@[low as int]@);
                }
            },
        }
        i += 1;
    }
    let key = keys[low].clone();
    proof {
        assert(all[low as int] == key@);
        assert(all.to_set().contains(key@));
        assert forall|other: Seq<char>| #[trigger] m.dom().contains(other) implies key_le(
            key@,
            other,
        ) by {
            assert(all.to_set().contains(other));
            let j = choose|j: int| 0 <= j < all.len() && all[j] == other;
            assert(keys@[j]@ == other);
        }
    }
    Some(key)
}

/// Enforces a collection's limit, if it has one, and lists the keys that left.
pub fn enforce_capacity(shelf: &mut Shelf, limit: Option<usize>, now: i64) -> (deleted: Vec<String>)
    ensures
        shelf_entries(*final(shelf)) == limited(shelf_entries(*old(shelf)), limit, now),
        lists_deleted(texts(deleted@), shelf_entries(*old(shelf)), limit, now),
{
    let max: usize = match limit {
        Some(max) => max,
        None => {
            return Vec::new();
        },
    };
    let ghost m = shelf_entries(*shelf);
    let mut deleted = drop_expired(shelf, now);
    let ghost expired = texts(deleted@);
    let ghost live = alive(m, now);
    proof {
        assert(expired =~= expired + Seq::empty());
        assert(texts(deleted@) + evictions(live, max as nat) =~= expired + evictions(
            live,
            max as nat,
        ));
    }
    while shelf_len(shelf) > max
        invariant
            shelf_entries(*shelf).dom().finite(),
            trimmed(shelf_entries(*shelf), max as nat) == trimmed(live, max as nat),
            texts(deleted@) + evictions(shelf_entries(*shelf), max as nat) == expired + evictions(
                live,
                max as nat,
            ),
        ensures
            shelf_entries(*shelf).dom().len() <= max,
        decreases shelf_entries(*shelf).dom().len(),
    {
        let ghost now_held = shelf_entries(*shelf);
        let ghost before = deleted@;
        let key = match least_key(shelf) {
            Some(key) => key,
            None => {
                proof {
                    assert(now_held.dom().len() == 0);
                }
                break ;
            },
        };
        proof {
            lemma_least_unique(now_held, key@, least(now_held));
            assert(now_held.remove(key@).dom() =~= now_held.dom().remove(key@));
        }
        let _ = shelf_remove(shelf, key.as_str());
        deleted.push(key);
        proof {
            assert(texts(deleted@) =~= texts(before).push(key@));
            assert(texts(deleted@) + evictions(shelf_entries(*shelf), max as nat) =~= texts(before)
                + (seq![key@] + evictions(shelf_entries(*shelf), max as nat)));
        }
    }
    proof {
        assert(texts(deleted@) =~= texts(deleted@) + Seq::empty());
    }
    deleted
}

} // verus!
