//! The order of keys, and maps and sorted orders built on it.
//!
//! Keys are ordered as their UTF-8 bytes are, lexicographically.

use crate::text::{lemma_encode_injective, texts};
use vstd::prelude::*;
#[allow(unused_imports)]
use vstd::string::*;
use vstd::utf8::encode_utf8;

verus! {

/// How two keys stand to each other.
#[derive(Clone, Copy, Debug, PartialEq, Eq, Structural)]
pub enum KeyOrder {
    Less,
    Equal,
    Greater,
}

/// Lexicographic order on bytes.
pub open spec fn bytes_lt(a: Seq<u8>, b: Seq<u8>) -> bool
    decreases a.len(),
{
    if b.len() == 0 {
        false
    } else if a.len() == 0 {
        true
    } else {
        a[0] < b[0] || (a[0] == b[0] && bytes_lt(a.drop_first(), b.drop_first()))
    }
}

/// The order of keys.
pub open spec fn key_lt(a: Seq<char>, b: Seq<char>) -> bool {
    bytes_lt(encode_utf8(a), encode_utf8(b))
}

/// The order of keys, equality included.
pub open spec fn key_le(a: Seq<char>, b: Seq<char>) -> bool {
    a == b || key_lt(a, b)
}

proof fn lemma_bytes_lt_trichotomy(a: Seq<u8>, b: Seq<u8>)
    ensures
        bytes_lt(a, b) ==> a != b && !bytes_lt(b, a),
        a == b || bytes_lt(a, b) || bytes_lt(b, a),
    decreases a.len(),
{
    if a.len() == 0 || b.len() == 0 {
        assert(a.len() == b.len() ==> a =~= b);
    } else {
        lemma_bytes_lt_trichotomy(a.drop_first(), b.drop_first());
        if a[0] == b[0] && a.drop_first() == b.drop_first() {
            assert forall|i: int| 0 <= i < a.len() implies a[i] == b[i] by {
                if i > 0 {
                    assert(a.drop_first()[i - 1] == b.drop_first()[i - 1]);
                }
            }
            assert(a.drop_first().len() == b.drop_first().len());
            assert(a =~= b);
        }
    }
}

proof fn lemma_bytes_lt_transitive(a: Seq<u8>, b: Seq<u8>, c: Seq<u8>)
    requires
        bytes_lt(a, b),
        bytes_lt(b, c),
    ensures
        bytes_lt(a, c),
    decreases a.len(),
{
    if a.len() > 0 && b.len() > 0 && c.len() > 0 && a[0] == b[0] && b[0] == c[0] {
        lemma_bytes_lt_transitive(a.drop_first(), b.drop_first(), c.drop_first());
    }
}

/// Of two keys exactly one is less, or they are equal.
pub proof fn lemma_key_lt_trichotomy(a: Seq<char>, b: Seq<char>)
    ensures
        key_lt(a, b) ==> a != b && !key_lt(b, a),
        a == b || key_lt(a, b) || key_lt(b, a),
{
    lemma_bytes_lt_trichotomy(encode_utf8(a), encode_utf8(b));
    if encode_utf8(a) == encode_utf8(b) {
        lemma_encode_injective(a, b);
    }
}

/// The order of keys is transitive.
pub proof fn lemma_key_lt_transitive(a: Seq<char>, b: Seq<char>, c: Seq<char>)
    requires
        key_lt(a, b),
        key_lt(b, c),
    ensures
        key_lt(a, c),
{
    lemma_bytes_lt_transitive(encode_utf8(a), encode_utf8(b), encode_utf8(c));
}

proof fn lemma_bytes_lt_common(a: Seq<u8>, b: Seq<u8>, i: int)
    requires
        0 <= i <= a.len(),
        i <= b.len(),
        a.take(i) == b.take(i),
    ensures
        bytes_lt(a, b) == bytes_lt(a.skip(i), b.skip(i)),
    decreases i,
{
    if i == 0 {
        assert(a.skip(0) =~= a);
        assert(b.skip(0) =~= b);
    } else {
        assert(a[0] == a.take(i)[0] && b[0] == b.take(i)[0]);
        let a1 = a.drop_first();
        let b1 = b.drop_first();
        assert(a1.take(i - 1) =~= a.take(i).drop_first());
        assert(b1.take(i - 1) =~= b.take(i).drop_first());
        lemma_bytes_lt_common(a1, b1, i - 1);
        assert(a1.skip(i - 1) =~= a.skip(i));
        assert(b1.skip(i - 1) =~= b.skip(i));
    }
}

/// How `a` stands to `b`.
pub fn key_order(a: &str, b: &str) -> (order: KeyOrder)
    ensures
        order == KeyOrder::Less <==> key_lt(a@, b@),
        order == KeyOrder::Equal <==> a@ == b@,
        order == KeyOrder::Greater <==> key_lt(b@, a@),
{
    let x = a.as_bytes();
    let y = b.as_bytes();
    proof {
        lemma_key_lt_trichotomy(a@, b@);
        lemma_key_lt_trichotomy(b@, a@);
    }
    let mut i: usize = 0;
    while i < x.len() && i < y.len() && x[i] == y[i]
        invariant
            i <= x.len(),
            i <= y.len(),
            x@.take(i as int) =~= y@.take(i as int),
        decreases x.len() - i,
    {
        i += 1;
    }
    proof {
        lemma_bytes_lt_common(x@, y@, i as int);
        lemma_bytes_lt_common(y@, x@, i as int);
    }
    if i < x.len() && i < y.len() {
        if x[i] < y[i] {
            KeyOrder::Less
        } else {
            KeyOrder::Greater
        }
    } else if i < y.len() {
        KeyOrder::Less
    } else if i < x.len() {
        KeyOrder::Greater
    } else {
        proof {
            assert(x@ =~= x@.take(i as int));
            assert(y@ =~= y@.take(i as int));
            lemma_encode_injective(a@, b@);
        }
        KeyOrder::Equal
    }
}

/// Whether the keys of `entries` increase strictly.
pub open spec fn strictly_sorted<V>(entries: Seq<(String, V)>) -> bool {
    forall|i: int, j: int|
        0 <= i < j < entries.len() ==> key_lt(#[trigger] entries[i].0@, #[trigger] entries[j].0@)
}

/// The map that a list of entries with distinct keys stands for.
pub open spec fn entries_map<V>(entries: Seq<(String, V)>) -> Map<Seq<char>, V>
    decreases entries.len(),
{
    if entries.len() == 0 {
        Map::empty()
    } else {
        entries_map(entries.drop_last()).insert(entries.last().0@, entries.last().1)
    }
}

/// The map of a list of entries holds each of them, and nothing else.
pub proof fn lemma_entries_map<V>(entries: Seq<(String, V)>)
    requires
        strictly_sorted(entries),
    ensures
        forall|k: Seq<char>|
            #![trigger entries_map(entries).dom().contains(k)]
            entries_map(entries).dom().contains(k) <==> exists|i: int|
                0 <= i < entries.len() && entries[i].0@ == k,
        forall|i: int|
            #![trigger entries[i]]
            0 <= i < entries.len() ==> entries_map(entries).dom().contains(entries[i].0@)
                && entries_map(entries)[entries[i].0@] == entries[i].1,
    decreases entries.len(),
{
    if entries.len() > 0 {
        let front = entries.drop_last();
        let last = entries.last();
        assert forall|i: int, j: int| 0 <= i < j < front.len() implies key_lt(
            #[trigger] front[i].0@,
            #[trigger] front[j].0@,
        ) by {
            assert(front[i] == entries[i] && front[j] == entries[j]);
        }
        lemma_entries_map(front);
        assert forall|k: Seq<char>|
            #![trigger entries_map(entries).dom().contains(k)]
            entries_map(entries).dom().contains(k) <==> exists|i: int|
                0 <= i < entries.len() && entries[i].0@ == k by {
            if entries_map(entries).dom().contains(k) {
                if k == last.0@ {
                    assert(entries[entries.len() - 1].0@ == k);
                } else {
                    assert(entries_map(front).dom().contains(k));
                    let i = choose|i: int| 0 <= i < front.len() && front[i].0@ == k;
                    assert(0 <= i < front.len() && front[i].0@ == k);
                    assert(entries[i] == front[i]);
                }
            }
            if exists|i: int| 0 <= i < entries.len() && entries[i].0@ == k {
                let i = choose|i: int| 0 <= i < entries.len() && entries[i].0@ == k;
                if i < front.len() {
                    assert(front[i] == entries[i]);
                    assert(entries_map(front).dom().contains(k));
                }
            }
        }
        assert forall|i: int| #![trigger entries[i]] 0 <= i < entries.len() implies entries_map(
            entries,
        ).dom().contains(entries[i].0@) && entries_map(entries)[entries[i].0@] == entries[i].1 by {
            if i < front.len() {
                assert(front[i] == entries[i]);
                assert(key_lt(entries[i].0@, entries[entries.len() - 1].0@));
                lemma_key_lt_trichotomy(entries[i].0@, last.0@);
            }
        }
    }
}

/// A map from text keys, kept in key order.
pub struct KeyMap<V> {
    entries: Vec<(String, V)>,
}

impl<V> View for KeyMap<V> {
    type V = Map<Seq<char>, V>;

    closed spec fn view(&self) -> Map<Seq<char>, V> {
        entries_map(self.entries@)
    }
}

impl<V> KeyMap<V> {
    /// The keys increase strictly.
    pub closed spec fn wf(&self) -> bool {
        strictly_sorted(self.entries@)
    }

    pub fn new() -> (map: Self)
        ensures
            map.wf(),
            map@ == Map::<Seq<char>, V>::empty(),
    {
        KeyMap { entries: Vec::new() }
    }

    /// Where `key` is, or where it would have to be inserted.
    fn slot(&self, key: &str) -> (slot: (usize, bool))
        requires
            self.wf(),
        ensures
            slot.0 <= self.entries@.len(),
            slot.1 ==> slot.0 < self.entries@.len() && self.entries@[slot.0 as int].0@ == key@,
            slot.1 == self@.dom().contains(key@),
            forall|i: int| 0 <= i < slot.0 ==> key_lt(#[trigger] self.entries@[i].0@, key@),
            forall|i: int|
                slot.0 <= i < self.entries@.len() && !slot.1 ==> key_lt(
                    key@,
                    #[trigger] self.entries@[i].0@,
                ),
            slot.1 ==> forall|i: int|
                slot.0 < i < self.entries@.len() ==> key_lt(
                    key@,
                    #[trigger] self.entries@[i].0@,
                ),
    {
        let ghost es = self.entries@;
        let mut low: usize = 0;
        let mut high: usize = self.entries.len();
        while low < high
            invariant
                self.wf(),
                es == self.entries@,
                low <= high <= es.len(),
                forall|i: int| 0 <= i < low ==> key_lt(#[trigger] es[i].0@, key@),
                forall|i: int| high <= i < es.len() ==> key_lt(key@, #[trigger] es[i].0@),
            decreases high - low,
        {
            let middle: usize = low + (high - low) / 2;
            match key_order(self.entries[middle].0.as_str(), key) {
                KeyOrder::Less => {
                    proof {
                        assert forall|i: int| 0 <= i < middle + 1 implies key_lt(
                            #[trigger] es[i].0@,
                            key@,
                        ) by {
                            if i < middle {
                                assert(key_lt(es[i].0@, es[middle as int].0@));
                                lemma_key_lt_transitive(es[i].0@, es[middle as int].0@, key@);
                            }
                        }
                    }
                    low = middle + 1;
                },
                KeyOrder::Greater => {
                    proof {
                        assert forall|i: int| middle <= i < es.len() implies key_lt(
                            key@,
                            #[trigger] es[i].0@,
                        ) by {
                            if middle < i {
                                assert(key_lt(es[middle as int].0@, es[i].0@));
                                lemma_key_lt_transitive(key@, es[middle as int].0@, es[i].0@);
                            }
                        }
                    }
                    high = middle;
                },
                KeyOrder::Equal => {
                    proof {
                        lemma_entries_map(es);
                        assert(es[middle as int].0@ == key@);
                    }
                    return (middle, true);
                },
            }
        }
        proof {
            lemma_entries_map(es);
            if self@.dom().contains(key@) {
                let i = choose|i: int| 0 <= i < es.len() && es[i].0@ == key@;
                lemma_key_lt_trichotomy(key@, key@);
                assert(key_lt(es[i].0@, key@) || key_lt(key@, es[i].0@));
            }
        }
        (low, false)
    }

    /// The value of `key`, if there is one.
    pub fn get(&self, key: &str) -> (value: Option<&V>)
        requires
            self.wf(),
        ensures
            match value {
                Some(v) => self@.dom().contains(key@) && self@[key@] == *v,
                None => !self@.dom().contains(key@),
            },
    {
        let (index, found) = self.slot(key);
        if found {
            proof {
                lemma_entries_map(self.entries@);
                assert(self.entries@[index as int].0@ == key@);
            }
            Some(&self.entries[index].1)
        } else {
            None
        }
    }

    /// The entries in key order.
    pub fn into_entries(self) -> (entries: Vec<(String, V)>)
        requires
            self.wf(),
        ensures
            strictly_sorted(entries@),
            entries_map(entries@) == self@,
    {
        self.entries
    }

    /// How many keys there are.
    pub fn len(&self) -> (len: usize)
        requires
            self.wf(),
        ensures
            self@.dom().finite(),
            len == self@.dom().len(),
    {
        proof {
            lemma_entries_len(self.entries@);
        }
        self.entries.len()
    }

    /// The keys in their order.
    pub fn keys(&self) -> (keys: Vec<String>)
        requires
            self.wf(),
        ensures
            texts(keys@) == sorted_keys(self@.dom()),
            texts(keys@).to_set() == self@.dom(),
            texts(keys@).no_duplicates(),
    {
        let mut keys: Vec<String> = Vec::new();
        let mut i: usize = 0;
        while i < self.entries.len()
            invariant
                i <= self.entries@.len(),
                keys@.len() == i,
                forall|j: int| 0 <= j < i ==> #[trigger] keys@[j]@ == self.entries@[j].0@,
            decreases self.entries@.len() - i,
        {
            keys.push(self.entries[i].0.clone());
            i += 1;
        }
        proof {
            let es = self.entries@;
            let k = texts(keys@);
            lemma_entries_map(es);
            assert forall|a: int, b: int| 0 <= a < b < k.len() implies key_lt(
                #[trigger] k[a],
                #[trigger] k[b],
            ) by {
                assert(key_lt(es[a].0@, es[b].0@));
            }
            assert forall|x: Seq<char>| #[trigger]
                k.to_set().contains(x) <==> self@.dom().contains(x) by {
                if k.contains(x) {
                    let a = choose|a: int| 0 <= a < k.len() && k[a] == x;
                    assert(es[a].0@ == x);
                }
                if self@.dom().contains(x) {
                    let a = choose|a: int| 0 <= a < es.len() && es[a].0@ == x;
                    assert(k[a] == x);
                }
            }
            assert(k.to_set() =~= self@.dom());
            lemma_sorted_keys(k);
            assert forall|a: int, b: int|
                0 <= a < k.len() && 0 <= b < k.len() && a != b implies k[a] != k[b] by {
                lemma_key_lt_trichotomy(k[a], k[b]);
                assert(key_lt(k[a], k[b]) || key_lt(k[b], k[a]));
            }
        }
        keys
    }

    /// Takes a key out and hands out its value.
    pub fn remove(&mut self, key: &str) -> (value: Option<V>)
        requires
            old(self).wf(),
        ensures
            final(self).wf(),
            final(self)@ == old(self)@.remove(key@),
            match value {
                Some(v) => old(self)@.dom().contains(key@) && old(self)@[key@] == v,
                None => !old(self)@.dom().contains(key@),
            },
    {
        let (index, found) = self.slot(key);
        let ghost before = self.entries@;
        proof {
            lemma_entries_map(before);
        }
        if !found {
            proof {
                assert(self@.remove(key@) =~= self@);
            }
            return None;
        }
        let (_, value) = self.entries.remove(index);
        proof {
            let after = self.entries@;
            assert(before[index as int].0@ == key@);
            assert forall|i: int, j: int| 0 <= i < j < after.len() implies key_lt(
                #[trigger] after[i].0@,
                #[trigger] after[j].0@,
            ) by {
                let bi = if i < index { i } else { i + 1 };
                let bj = if j < index { j } else { j + 1 };
                assert(after[i] == before[bi] && after[j] == before[bj]);
            }
            lemma_entries_map(after);
            let a = entries_map(after);
            let b = entries_map(before).remove(key@);
            assert forall|k: Seq<char>| a.dom().contains(k) <==> b.dom().contains(k) by {
                if a.dom().contains(k) {
                    let i = choose|i: int| 0 <= i < after.len() && after[i].0@ == k;
                    let bi = if i < index { i } else { i + 1 };
                    assert(after[i] == before[bi]);
                    assert(before[bi].0@ == k);
                    if i < index {
                        assert(key_lt(before[bi].0@, before[index as int].0@));
                    } else {
                        assert(key_lt(before[index as int].0@, before[bi].0@));
                    }
                    lemma_key_lt_trichotomy(k, key@);
                    lemma_key_lt_trichotomy(key@, k);
                }
                if b.dom().contains(k) {
                    let i = choose|i: int| 0 <= i < before.len() && before[i].0@ == k;
                    let ai = if i < index { i } else { i - 1 };
                    assert(after[ai] == before[i]);
                    assert(after[ai].0@ == k);
                }
            }
            assert forall|k: Seq<char>| a.dom().contains(k) implies a[k] == b[k] by {
                let i = choose|i: int| 0 <= i < after.len() && after[i].0@ == k;
                let bi = if i < index { i } else { i + 1 };
                assert(after[i] == before[bi]);
                assert(a[after[i].0@] == after[i].1);
                assert(entries_map(before)[before[bi].0@] == before[bi].1);
            }
            assert(a =~= b);
        }
        Some(value)
    }

    /// Whether `key` has a value.
    pub fn contains(&self, key: &str) -> (found: bool)
        requires
            self.wf(),
        ensures
            found == self@.dom().contains(key@),
    {
        self.slot(key).1
    }

    /// Gives `key` a value, in place of an earlier one. Says whether the key is new.
    pub fn insert(&mut self, key: String, value: V) -> (fresh: bool)
        requires
            old(self).wf(),
        ensures
            final(self).wf(),
            final(self)@ == old(self)@.insert(key@, value),
            fresh == !old(self)@.dom().contains(key@),
    {
        let (index, found) = self.slot(key.as_str());
        let ghost before = self.entries@;
        let ghost k = key@;
        proof {
            lemma_entries_map(before);
        }
        if found {
            self.entries[index].1 = value;
            proof {
                let after = self.entries@;
                assert forall|i: int, j: int| 0 <= i < j < after.len() implies key_lt(
                    #[trigger] after[i].0@,
                    #[trigger] after[j].0@,
                ) by {
                    assert(after[i].0@ == before[i].0@ && after[j].0@ == before[j].0@);
                }
                lemma_entries_map(after);
                lemma_map_from_entries(before, after, k, value, index as int, true);
            }
            false
        } else {
            self.entries.insert(index, (key, value));
            proof {
                let after = self.entries@;
                assert forall|i: int, j: int| 0 <= i < j < after.len() implies key_lt(
                    #[trigger] after[i].0@,
                    #[trigger] after[j].0@,
                ) by {
                    let bi = if i < index { i } else { i - 1 };
                    let bj = if j < index { j } else { j - 1 };
                    if i != index && j != index {
                        assert(after[i] == before[bi] && after[j] == before[bj]);
                    } else if i == index {
                        assert(after[j] == before[bj]);
                    } else {
                        assert(after[i] == before[bi]);
                    }
                }
                lemma_entries_map(after);
                lemma_map_from_entries(before, after, k, value, index as int, false);
            }
            true
        }
    }
}

proof fn lemma_map_from_entries<V>(
    before: Seq<(String, V)>,
    after: Seq<(String, V)>,
    key: Seq<char>,
    value: V,
    index: int,
    found: bool,
)
    requires
        strictly_sorted(before),
        strictly_sorted(after),
        0 <= index < after.len(),
        after[index].0@ == key,
        after[index].1 == value,
        found ==> after.len() == before.len() && before[index].0@ == key && forall|i: int|
            0 <= i < after.len() && i != index ==> after[i] == before[i],
        !found ==> after.len() == before.len() + 1 && (forall|i: int|
            0 <= i < index ==> after[i] == before[i]) && (forall|i: int|
            index < i < after.len() ==> after[i] == before[i - 1]),
    ensures
        entries_map(after) == entries_map(before).insert(key, value),
{
    lemma_entries_map(before);
    lemma_entries_map(after);
    let a = entries_map(after);
    let b = entries_map(before).insert(key, value);
    assert forall|k: Seq<char>| a.dom().contains(k) <==> b.dom().contains(k) by {
        if a.dom().contains(k) {
            let i = choose|i: int| 0 <= i < after.len() && after[i].0@ == k;
            if i != index {
                let bi = if found || i < index { i } else { i - 1 };
                assert(before[bi].0@ == k);
            }
        }
        if b.dom().contains(k) && k != key {
            let i = choose|i: int| 0 <= i < before.len() && before[i].0@ == k;
            let ai = if found || i < index { i } else { i + 1 };
            assert(after[ai] == before[i]);
            assert(after[ai].0@ == k);
        } else if k == key {
            assert(after[index].0@ == k);
        }
    }
    assert forall|k: Seq<char>| a.dom().contains(k) implies a[k] == b[k] by {
        let i = choose|i: int| 0 <= i < after.len() && after[i].0@ == k;
        assert(a[after[i].0@] == after[i].1);
        if i != index {
            let bi = if found || i < index { i } else { i - 1 };
            assert(before[bi] == after[i]);
            assert(entries_map(before)[before[bi].0@] == before[bi].1);
            if k == key {
                if i < index {
                    assert(key_lt(after[i].0@, after[index].0@));
                } else {
                    assert(key_lt(after[index].0@, after[i].0@));
                }
                lemma_key_lt_trichotomy(key, key);
            }
        }
    }
    assert(a =~= b);
}

/// `order` with index `i` placed behind every index whose key is not greater.
pub open spec fn place_index(keys: Seq<Seq<char>>, order: Seq<int>, i: int) -> Seq<int>
    decreases order.len(),
{
    if order.len() == 0 {
        seq![i]
    } else if key_le(keys[order.last()], keys[i]) {
        order.push(i)
    } else {
        place_index(keys, order.drop_last(), i).push(order.last())
    }
}

/// The indices below `n` in the order of their keys; equal keys keep their order.
pub open spec fn key_sort_upto(keys: Seq<Seq<char>>, n: nat) -> Seq<int>
    decreases n,
{
    if n == 0 {
        Seq::empty()
    } else {
        place_index(keys, key_sort_upto(keys, (n - 1) as nat), n - 1)
    }
}

/// All indices in the order of their keys; equal keys keep their order.
pub open spec fn key_sort(keys: Seq<Seq<char>>) -> Seq<int> {
    key_sort_upto(keys, keys.len())
}

/// Whether the keys at the indices of `order` do not decrease.
pub open spec fn in_key_order(keys: Seq<Seq<char>>, order: Seq<int>) -> bool {
    forall|a: int, b: int|
        0 <= a < b < order.len() ==> key_le(keys[#[trigger] order[a]], keys[#[trigger] order[b]])
}

proof fn lemma_key_le_transitive(a: Seq<char>, b: Seq<char>, c: Seq<char>)
    requires
        key_le(a, b),
        key_le(b, c),
    ensures
        key_le(a, c),
{
    if key_lt(a, b) && key_lt(b, c) {
        lemma_key_lt_transitive(a, b, c);
    }
}

proof fn lemma_place_index(keys: Seq<Seq<char>>, order: Seq<int>, i: int)
    requires
        in_key_order(keys, order),
    ensures
        in_key_order(keys, place_index(keys, order, i)),
        place_index(keys, order, i).to_multiset() == order.to_multiset().insert(i),
        place_index(keys, order, i).len() == order.len() + 1,
    decreases order.len(),
{
    broadcast use vstd::seq_lib::group_to_multiset_ensures;

    if order.len() == 0 {
        assert(seq![i] =~= order.push(i));
    } else if key_le(keys[order.last()], keys[i]) {
        assert forall|a: int, b: int| 0 <= a < b < order.push(i).len() implies key_le(
            keys[#[trigger] order.push(i)[a]],
            keys[#[trigger] order.push(i)[b]],
        ) by {
            if b == order.len() && a < order.len() - 1 {
                assert(key_le(keys[order[a]], keys[order[order.len() - 1]]));
                lemma_key_le_transitive(keys[order[a]], keys[order.last()], keys[i]);
            }
        }
    } else {
        let front = order.drop_last();
        let placed = place_index(keys, front, i);
        lemma_place_index(keys, front, i);
        let whole = placed.push(order.last());
        assert(front.push(order.last()) =~= order);
        assert(whole.to_multiset() =~= order.to_multiset().insert(i));
        assert forall|a: int, b: int| 0 <= a < b < whole.len() implies key_le(
            keys[#[trigger] whole[a]],
            keys[#[trigger] whole[b]],
        ) by {
            if b == placed.len() {
                let x = placed[a];
                assert(placed.to_multiset().contains(x));
                if x != i {
                    assert(front.to_multiset().contains(x));
                    assert(front.contains(x));
                    let c = choose|c: int| 0 <= c < front.len() && front[c] == x;
                    assert(order[c] == x);
                    assert(key_le(keys[order[c]], keys[order[order.len() - 1]]));
                } else {
                    lemma_key_lt_trichotomy(keys[order.last()], keys[i]);
                }
            }
        }
    }
}

/// A sorted order holds every index once, and its keys do not decrease.
pub proof fn lemma_key_sort_upto(keys: Seq<Seq<char>>, n: nat)
    ensures
        in_key_order(keys, key_sort_upto(keys, n)),
        key_sort_upto(keys, n).len() == n,
        forall|i: int|
            #![trigger key_sort_upto(keys, n).to_multiset().count(i)]
            key_sort_upto(keys, n).to_multiset().count(i) == if 0 <= i < n {
                1nat
            } else {
                0nat
            },
    decreases n,
{
    broadcast use vstd::seq_lib::group_to_multiset_ensures;

    if n > 0 {
        lemma_key_sort_upto(keys, (n - 1) as nat);
        let order = key_sort_upto(keys, (n - 1) as nat);
        lemma_place_index(keys, order, n - 1);
        assert forall|i: int| #![trigger key_sort_upto(keys, n).to_multiset().count(i)]
            key_sort_upto(keys, n).to_multiset().count(i) == if 0 <= i < n {
                1nat
            } else {
                0nat
            } by {
            assert(order.to_multiset().count(i) == if 0 <= i < n - 1 {
                1nat
            } else {
                0nat
            });
        }
    }
}

/// Every place of a sorted order holds a valid index, and every index has a place.
pub proof fn lemma_key_sort_indices(keys: Seq<Seq<char>>, n: nat)
    ensures
        key_sort_upto(keys, n).len() == n,
        key_sort_upto(keys, n).no_duplicates(),
        forall|a: int|
            0 <= a < n ==> 0 <= #[trigger] key_sort_upto(keys, n)[a] < n,
        forall|i: int| 0 <= i < n ==> #[trigger] key_sort_upto(keys, n).contains(i),
{
    broadcast use vstd::seq_lib::group_to_multiset_ensures;

    let order = key_sort_upto(keys, n);
    lemma_key_sort_upto(keys, n);
    assert forall|a: int| 0 <= a < n implies 0 <= #[trigger] order[a] < n by {
        assert(order.contains(order[a]));
        assert(order.to_multiset().count(order[a]) > 0);
    }
    assert forall|i: int| 0 <= i < n implies #[trigger] order.contains(i) by {
        assert(order.to_multiset().count(i) == 1);
    }
    assert forall|i: int| order.to_multiset().contains(i) implies order.to_multiset().count(i)
        == 1 by {
        assert(order.to_multiset().count(i) > 0);
    }
    order.lemma_multiset_has_no_duplicates_conv();
}

proof fn lemma_place_is_insert(keys: Seq<Seq<char>>, order: Seq<int>, i: int, p: int)
    requires
        0 <= p <= order.len(),
        forall|a: int| 0 <= a < p ==> key_le(keys[#[trigger] order[a]], keys[i]),
        forall|a: int| p <= a < order.len() ==> key_lt(keys[i], keys[#[trigger] order[a]]),
    ensures
        place_index(keys, order, i) == order.insert(p, i),
    decreases order.len(),
{
    if order.len() == 0 {
        assert(order.insert(p, i) =~= seq![i]);
    } else if p == order.len() {
        assert(key_le(keys[order[p - 1]], keys[i]));
        assert(order.insert(p, i) =~= order.push(i));
    } else {
        assert(key_lt(keys[i], keys[order[order.len() - 1]]));
        lemma_key_lt_trichotomy(keys[i], keys[order.last()]);
        let front = order.drop_last();
        assert forall|a: int| 0 <= a < p implies key_le(keys[#[trigger] front[a]], keys[i]) by {
            assert(front[a] == order[a]);
        }
        assert forall|a: int| p <= a < front.len() implies key_lt(
            keys[i],
            keys[#[trigger] front[a]],
        ) by {
            assert(front[a] == order[a]);
        }
        lemma_place_is_insert(keys, front, i, p);
        assert(front.insert(p, i).push(order.last()) =~= order.insert(p, i));
    }
}

/// The keys of a list of entries.
pub open spec fn entry_keys<V>(entries: Seq<(String, V)>) -> Seq<Seq<char>> {
    entries.map_values(|e: (String, V)| e.0@)
}

/// The indices of `entries` in the order of their keys; equal keys keep their order.
pub fn sorted_order<V>(entries: &Vec<(String, V)>) -> (order: Vec<usize>)
    ensures
        order@.len() == entries@.len(),
        order@.map_values(|i: usize| i as int) == key_sort(entry_keys(entries@)),
        forall|a: int| 0 <= a < order@.len() ==> #[trigger] order@[a] < entries@.len(),
{
    let ghost keys = entry_keys(entries@);
    let mut order: Vec<usize> = Vec::new();
    let mut n: usize = 0;
    while n < entries.len()
        invariant
            n <= entries@.len(),
            keys == entry_keys(entries@),
            order@.len() == n,
            order@.map_values(|i: usize| i as int) == key_sort_upto(keys, n as nat),
            forall|a: int| 0 <= a < n ==> #[trigger] order@[a] < n,
        decreases entries@.len() - n,
    {
        let ghost before = order@.map_values(|i: usize| i as int);
        proof {
            lemma_key_sort_upto(keys, n as nat);
            assert(keys[n as int] == entries@[n as int].0@);
        }
        let mut low: usize = 0;
        let mut high: usize = n;
        while low < high
            invariant
                low <= high <= n,
                n < entries@.len(),
                keys == entry_keys(entries@),
                keys[n as int] == entries@[n as int].0@,
                order@.len() == n,
                before == order@.map_values(|i: usize| i as int),
                in_key_order(keys, before),
                forall|a: int| 0 <= a < n ==> #[trigger] order@[a] < n,
                forall|a: int|
                    0 <= a < low ==> key_le(keys[#[trigger] before[a]], keys[n as int]),
                forall|a: int|
                    high <= a < n ==> key_lt(keys[n as int], keys[#[trigger] before[a]]),
            decreases high - low,
        {
            let middle: usize = low + (high - low) / 2;
            let at: usize = order[middle];
            let ghost m = middle as int;
            proof {
                assert(before[m] == at as int);
                assert(keys[at as int] == entries@[at as int].0@);
            }
            match key_order(entries[n].0.as_str(), entries[at].0.as_str()) {
                KeyOrder::Less => {
                    proof {
                        assert forall|a: int| middle <= a < n implies key_lt(
                            keys[n as int],
                            keys[#[trigger] before[a]],
                        ) by {
                            if a > middle {
                                assert(key_le(keys[before[m]], keys[before[a]]));
                                if keys[before[m]] != keys[before[a]] {
                                    lemma_key_lt_transitive(
                                        keys[n as int],
                                        keys[before[m]],
                                        keys[before[a]],
                                    );
                                }
                            }
                        }
                    }
                    high = middle;
                },
                _ => {
                    proof {
                        lemma_key_lt_trichotomy(keys[n as int], keys[before[m]]);
                        assert forall|a: int| 0 <= a < middle + 1 implies key_le(
                            keys[#[trigger] before[a]],
                            keys[n as int],
                        ) by {
                            if a < middle {
                                assert(key_le(keys[before[a]], keys[before[m]]));
                                lemma_key_le_transitive(
                                    keys[before[a]],
                                    keys[before[m]],
                                    keys[n as int],
                                );
                            }
                        }
                    }
                    low = middle + 1;
                },
            }
        }
        proof {
            lemma_place_is_insert(keys, before, n as int, low as int);
        }
        order.insert(low, n);
        proof {
            assert(order@.map_values(|i: usize| i as int) =~= before.insert(low as int, n as int));
        }
        n += 1;
    }
    order
}

/// The keys of a dict's entries.
pub open spec fn dict_keys<V>(entries: Seq<(Seq<char>, V)>) -> Seq<Seq<char>> {
    entries.map_values(|e: (Seq<char>, V)| e.0)
}

/// The entries in the order of their keys.
pub open spec fn arranged<V>(entries: Seq<(Seq<char>, V)>) -> Seq<(Seq<char>, V)> {
    key_sort(dict_keys(entries)).map_values(|i: int| entries[i])
}

/// Arranging keeps the entries; with distinct keys the keys then increase strictly.
pub proof fn lemma_arranged<V>(entries: Seq<(Seq<char>, V)>)
    ensures
        arranged(entries).len() == entries.len(),
        forall|e: (Seq<char>, V)|
            #[trigger] arranged(entries).contains(e) <==> entries.contains(e),
        dict_keys(entries).no_duplicates() ==> {
            &&& dict_keys(arranged(entries)).no_duplicates()
            &&& forall|i: int, j: int|
                0 <= i < j < entries.len() ==> key_lt(
                    (#[trigger] arranged(entries)[i]).0,
                    (#[trigger] arranged(entries)[j]).0,
                )
        },
{
    let keys = dict_keys(entries);
    let order = key_sort(keys);
    let a = arranged(entries);
    lemma_key_sort_upto(keys, keys.len());
    lemma_key_sort_indices(keys, keys.len());
    assert forall|e: (Seq<char>, V)| #[trigger]
        a.contains(e) <==> entries.contains(e) by {
        if a.contains(e) {
            let i = choose|i: int| 0 <= i < a.len() && a[i] == e;
            assert(entries[order[i]] == e);
        }
        if entries.contains(e) {
            let i = choose|i: int| 0 <= i < entries.len() && entries[i] == e;
            assert(order.contains(i));
            let j = choose|j: int| 0 <= j < order.len() && order[j] == i;
            assert(a[j] == e);
        }
    }
    if keys.no_duplicates() {
        assert forall|i: int, j: int| 0 <= i < j < entries.len() implies key_lt(
            (#[trigger] a[i]).0,
            (#[trigger] a[j]).0,
        ) by {
            assert(key_le(keys[order[i]], keys[order[j]]));
            assert(order[i] != order[j]);
            assert(keys[order[i]] == a[i].0 && keys[order[j]] == a[j].0);
        }
        assert forall|i: int, j: int|
            0 <= i < a.len() && 0 <= j < a.len() && i != j implies dict_keys(a)[i] != dict_keys(
            a,
        )[j] by {
            assert(dict_keys(a)[i] == keys[order[i]]);
            assert(dict_keys(a)[j] == keys[order[j]]);
            assert(order[i] != order[j]);
        }
    }
}

/// Whether the keys increase strictly.
pub open spec fn strictly_keyed<V>(s: Seq<(Seq<char>, V)>) -> bool {
    forall|i: int, j: int|
        0 <= i < j < s.len() ==> key_lt((#[trigger] s[i]).0, (#[trigger] s[j]).0)
}

/// Entries in strict key order are determined by which they are.
pub proof fn lemma_sorted_unique<V>(
    x: Seq<(Seq<char>, V)>,
    y: Seq<(Seq<char>, V)>,
)
    requires
        strictly_keyed(x),
        strictly_keyed(y),
        forall|e: (Seq<char>, V)| #[trigger] x.contains(e) <==> y.contains(e),
    ensures
        x == y,
    decreases x.len(),
{
    if x.len() == 0 || y.len() == 0 {
        if x.len() > 0 {
            assert(x.contains(x[0]));
        }
        if y.len() > 0 {
            assert(y.contains(y[0]));
            assert(x.contains(y[0]));
        }
        assert(x =~= y);
    } else {
        assert(x.contains(x[0]) && y.contains(y[0]));
        assert(y.contains(x[0]) && x.contains(y[0]));
        let p = choose|p: int| 0 <= p < y.len() && y[p] == x[0];
        let q = choose|q: int| 0 <= q < x.len() && x[q] == y[0];
        if p > 0 {
            assert(key_lt(y[0].0, y[p].0));
            if q > 0 {
                assert(key_lt(x[0].0, x[q].0));
            }
            lemma_key_lt_trichotomy(x[0].0, y[0].0);
            lemma_key_lt_trichotomy(y[0].0, x[0].0);
        }
        assert(x[0] == y[0]);
        let xs = x.drop_first();
        let ys = y.drop_first();
        assert forall|e: (Seq<char>, V)| #[trigger]
            xs.contains(e) <==> ys.contains(e) by {
            lemma_rest_contains(x, e);
            lemma_rest_contains(y, e);
            assert(x.contains(e) <==> y.contains(e));
        }
        assert(strictly_keyed(xs)) by {
            assert forall|i: int, j: int| 0 <= i < j < xs.len() implies key_lt(
                (#[trigger] xs[i]).0,
                (#[trigger] xs[j]).0,
            ) by {
                assert(xs[i] == x[i + 1] && xs[j] == x[j + 1]);
            }
        }
        assert(strictly_keyed(ys)) by {
            assert forall|i: int, j: int| 0 <= i < j < ys.len() implies key_lt(
                (#[trigger] ys[i]).0,
                (#[trigger] ys[j]).0,
            ) by {
                assert(ys[i] == y[i + 1] && ys[j] == y[j + 1]);
            }
        }
        lemma_sorted_unique(xs, ys);
        assert(x =~= seq![x[0]] + xs);
        assert(y =~= seq![y[0]] + ys);
    }
}

proof fn lemma_rest_contains<V>(
    s: Seq<(Seq<char>, V)>,
    e: (Seq<char>, V),
)
    requires
        s.len() > 0,
        strictly_keyed(s),
    ensures
        s.drop_first().contains(e) <==> s.contains(e) && e != s[0],
{
    let rest = s.drop_first();
    if rest.contains(e) {
        let i = choose|i: int| 0 <= i < rest.len() && rest[i] == e;
        assert(s[i + 1] == e);
        assert(key_lt(s[0].0, s[i + 1].0));
        lemma_key_lt_trichotomy(s[0].0, e.0);
    }
    if s.contains(e) && e != s[0] {
        let i = choose|i: int| 0 <= i < s.len() && s[i] == e;
        assert(rest[i - 1] == e);
    }
}

/// Whether keys increase strictly.
pub open spec fn increasing(keys: Seq<Seq<char>>) -> bool {
    forall|i: int, j: int|
        0 <= i < j < keys.len() ==> key_lt(#[trigger] keys[i], #[trigger] keys[j])
}

/// The keys of a set in their order.
pub open spec fn sorted_keys(keys: Set<Seq<char>>) -> Seq<Seq<char>> {
    choose|sorted: Seq<Seq<char>>| increasing(sorted) && sorted.to_set() == keys
}

/// There is only one way to list a set of keys in their order.
pub proof fn lemma_sorted_keys(sorted: Seq<Seq<char>>)
    requires
        increasing(sorted),
    ensures
        sorted_keys(sorted.to_set()) == sorted,
{
    let other = sorted_keys(sorted.to_set());
    let a = sorted.map_values(|k: Seq<char>| (k, ()));
    let b = other.map_values(|k: Seq<char>| (k, ()));
    assert(strictly_keyed(a)) by {
        assert forall|i: int, j: int| 0 <= i < j < a.len() implies key_lt(
            (#[trigger] a[i]).0,
            (#[trigger] a[j]).0,
        ) by {
            assert(key_lt(sorted[i], sorted[j]));
        }
    }
    assert(strictly_keyed(b)) by {
        assert forall|i: int, j: int| 0 <= i < j < b.len() implies key_lt(
            (#[trigger] b[i]).0,
            (#[trigger] b[j]).0,
        ) by {
            assert(key_lt(other[i], other[j]));
        }
    }
    assert forall|e: (Seq<char>, ())| #[trigger] a.contains(e) <==> b.contains(e) by {
        assert(sorted.to_set().contains(e.0) <==> other.to_set().contains(e.0));
        if a.contains(e) {
            let i = choose|i: int| 0 <= i < a.len() && a[i] == e;
            assert(sorted[i] == e.0);
            assert(other.contains(e.0));
            let j = choose|j: int| 0 <= j < other.len() && other[j] == e.0;
            assert(b[j] == e);
        }
        if b.contains(e) {
            let i = choose|i: int| 0 <= i < b.len() && b[i] == e;
            assert(other[i] == e.0);
            assert(sorted.contains(e.0));
            let j = choose|j: int| 0 <= j < sorted.len() && sorted[j] == e.0;
            assert(a[j] == e);
        }
    }
    lemma_sorted_unique(a, b);
    assert(sorted =~= other) by {
        assert forall|i: int| 0 <= i < sorted.len() implies sorted[i] == other[i] by {
            assert(a[i].0 == sorted[i] && b[i].0 == other[i]);
        }
    }
}

proof fn lemma_entries_len<V>(entries: Seq<(String, V)>)
    requires
        strictly_sorted(entries),
    ensures
        entries_map(entries).dom().finite(),
        entries_map(entries).dom().len() == entries.len(),
    decreases entries.len(),
{
    if entries.len() > 0 {
        let front = entries.drop_last();
        let last = entries.last().0@;
        assert forall|i: int, j: int| 0 <= i < j < front.len() implies key_lt(
            #[trigger] front[i].0@,
            #[trigger] front[j].0@,
        ) by {
            assert(front[i] == entries[i] && front[j] == entries[j]);
        }
        lemma_entries_len(front);
        lemma_entries_map(front);
        assert(!entries_map(front).dom().contains(last)) by {
            if entries_map(front).dom().contains(last) {
                let i = choose|i: int| 0 <= i < front.len() && front[i].0@ == last;
                assert(front[i] == entries[i]);
                assert(key_lt(entries[i].0@, entries[entries.len() - 1].0@));
                lemma_key_lt_trichotomy(last, last);
            }
        }
        assert(entries_map(entries).dom() =~= entries_map(front).dom().insert(last));
    } else {
        assert(entries_map(entries).dom() =~= Set::empty());
    }
}

/// A set of texts.
pub struct KeySet {
    keys: KeyMap<()>,
}

impl View for KeySet {
    type V = Set<Seq<char>>;

    closed spec fn view(&self) -> Set<Seq<char>> {
        self.keys@.dom()
    }
}

impl KeySet {
    pub closed spec fn wf(&self) -> bool {
        self.keys.wf()
    }

    pub fn new() -> (set: Self)
        ensures
            set.wf(),
            set@ == Set::<Seq<char>>::empty(),
    {
        let set = KeySet { keys: KeyMap::new() };
        assert(set@ =~= Set::empty());
        set
    }

    /// Adds a text and says whether it is new.
    pub fn insert(&mut self, key: &str) -> (fresh: bool)
        requires
            old(self).wf(),
        ensures
            final(self).wf(),
            final(self)@ == old(self)@.insert(key@),
            fresh == !old(self)@.contains(key@),
    {
        let ghost before = self@;
        let fresh = self.keys.insert(key.to_owned(), ());
        assert(self@ =~= before.insert(key@));
        fresh
    }

    pub fn contains(&self, key: &str) -> (found: bool)
        requires
            self.wf(),
        ensures
            found == self@.contains(key@),
    {
        self.keys.contains(key)
    }

    pub fn len(&self) -> (len: usize)
        requires
            self.wf(),
        ensures
            self@.finite(),
            len == self@.len(),
    {
        self.keys.len()
    }

    /// The texts in their order.
    pub fn sorted(&self) -> (keys: Vec<String>)
        requires
            self.wf(),
        ensures
            texts(keys@) == sorted_keys(self@),
            texts(keys@).to_set() == self@,
            texts(keys@).no_duplicates(),
    {
        self.keys.keys()
    }
}

/// A key comes before another exactly where its bytes are a proper prefix of the other's, or are
/// smaller at the first place where they differ.
pub proof fn law_key_order(a: Seq<char>, b: Seq<char>)
    ensures
        key_lt(a, b) <==> ({
            let x = encode_utf8(a);
            let y = encode_utf8(b);
            exists|i: int| #[trigger]
                x.take(i) == y.take(i) && 0 <= i <= x.len() && i < y.len() && (i < x.len() ==> x[i]
                    < y[i])
        }),
{
    law_bytes_order(encode_utf8(a), encode_utf8(b));
}

proof fn law_bytes_order(x: Seq<u8>, y: Seq<u8>)
    ensures
        bytes_lt(x, y) <==> exists|i: int| #[trigger]
            x.take(i) == y.take(i) && 0 <= i <= x.len() && i < y.len() && (i < x.len() ==> x[i]
                < y[i]),
    decreases x.len(),
{
    if y.len() > 0 {
        if x.len() == 0 || x[0] < y[0] {
            assert(x.take(0) =~= y.take(0));
        } else {
            let p = x.drop_first();
            let q = y.drop_first();
            law_bytes_order(p, q);
            if x[0] == y[0] && bytes_lt(p, q) {
                let i = choose|i: int| #[trigger]
                    p.take(i) == q.take(i) && 0 <= i <= p.len() && i < q.len() && (i < p.len()
                        ==> p[i] < q[i]);
                assert(x.take(i + 1) =~= seq![x[0]] + p.take(i));
                assert(y.take(i + 1) =~= seq![y[0]] + q.take(i));
            }
            if exists|i: int| #[trigger]
                x.take(i) == y.take(i) && 0 <= i <= x.len() && i < y.len() && (i < x.len() ==> x[i]
                    < y[i]) {
                let i = choose|i: int| #[trigger]
                    x.take(i) == y.take(i) && 0 <= i <= x.len() && i < y.len() && (i < x.len()
                        ==> x[i] < y[i]);
                assert(i > 0);
                assert(x.take(i)[0] == y.take(i)[0]);
                assert(p.take(i - 1) =~= x.take(i).drop_first());
                assert(q.take(i - 1) =~= y.take(i).drop_first());
            }
        }
    }
}

} // verus!
