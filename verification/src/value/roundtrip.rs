//! What writing and reading structured values promise together.

use crate::bytes::{
    bits_signed, le_bytes, le_value, lemma_byte_range, lemma_le_bytes_value, lemma_le_value_bytes,
    signed_bits,
};
use crate::error::ErrorModel;
use crate::ordered::{
    arranged, dict_keys, in_key_order, key_le, key_lt, key_sort, lemma_arranged,
    lemma_key_lt_transitive, lemma_key_lt_trichotomy, lemma_key_sort_indices, lemma_key_sort_upto,
    lemma_sorted_unique,
};
use crate::value::codec::{
    canonical, canonical_entries, canonical_items, decoded, dict_fault, encoded, entry_faults,
    fault, items_fault, lemma_canonical_entries, lemma_canonical_items, lemma_entry_faults, max_len,
    parse_chunk, parse_entries, parse_items, parse_value, structured_magic, too_large, wire,
    wire_chunk, wire_entries, wire_items,
};
use crate::value::structured::StructuredModel;
use vstd::prelude::*;
use vstd::utf8::{
    decode_utf8, decode_utf8_encode_utf8, encode_utf8, encode_utf8_decode_utf8,
    encode_utf8_valid_utf8,
};

verus! {

/// Whether the format can hold a value as it stands: every length fits four bytes, and no
/// dict has a key twice.
pub open spec fn well_formed(m: StructuredModel) -> bool
    decreases m,
{
    match m {
        StructuredModel::String(s) => encode_utf8(s).len() <= max_len(),
        StructuredModel::Bytes(b) => b.len() <= max_len(),
        StructuredModel::List(items) => items.len() <= max_len() && items_well_formed(items),
        StructuredModel::Dict(entries) => {
            &&& entries.len() <= max_len()
            &&& dict_keys(entries).no_duplicates()
            &&& entries_well_formed(entries)
        },
        _ => true,
    }
}

/// Whether the format can hold every item.
pub open spec fn items_well_formed(items: Seq<StructuredModel>) -> bool
    decreases items,
{
    items.len() > 0 ==> items_well_formed(items.drop_last()) && well_formed(items.last())
}

/// Whether the format can hold every key and value.
pub open spec fn entries_well_formed(entries: Seq<(Seq<char>, StructuredModel)>) -> bool
    decreases entries,
{
    entries.len() > 0 ==> {
        &&& entries_well_formed(entries.drop_last())
        &&& encode_utf8(entries.last().0).len() <= max_len()
        &&& well_formed(entries.last().1)
    }
}

proof fn lemma_items_well_formed(items: Seq<StructuredModel>)
    ensures
        items_well_formed(items) <==> forall|i: int|
            0 <= i < items.len() ==> well_formed(#[trigger] items[i]),
    decreases items.len(),
{
    if items.len() > 0 {
        let front = items.drop_last();
        lemma_items_well_formed(front);
        if items_well_formed(items) {
            assert forall|i: int| 0 <= i < items.len() implies well_formed(
                #[trigger] items[i],
            ) by {
                if i < front.len() {
                    assert(front[i] == items[i]);
                }
            }
        }
        if forall|i: int| 0 <= i < items.len() ==> well_formed(#[trigger] items[i]) {
            assert forall|i: int| 0 <= i < front.len() implies well_formed(
                #[trigger] front[i],
            ) by {
                assert(front[i] == items[i]);
            }
            assert(well_formed(items[items.len() - 1]));
        }
    }
}

spec fn entry_well_formed(entry: (Seq<char>, StructuredModel)) -> bool {
    encode_utf8(entry.0).len() <= max_len() && well_formed(entry.1)
}

proof fn lemma_entries_well_formed(entries: Seq<(Seq<char>, StructuredModel)>)
    ensures
        entries_well_formed(entries) <==> forall|i: int|
            0 <= i < entries.len() ==> entry_well_formed(#[trigger] entries[i]),
    decreases entries.len(),
{
    if entries.len() > 0 {
        let front = entries.drop_last();
        lemma_entries_well_formed(front);
        if entries_well_formed(entries) {
            assert forall|i: int| 0 <= i < entries.len() implies entry_well_formed(
                #[trigger] entries[i],
            ) by {
                if i < front.len() {
                    assert(front[i] == entries[i]);
                }
            }
        }
        if forall|i: int| 0 <= i < entries.len() ==> entry_well_formed(#[trigger] entries[i]) {
            assert forall|i: int| 0 <= i < front.len() implies entry_well_formed(
                #[trigger] front[i],
            ) by {
                assert(front[i] == entries[i]);
            }
            assert(entry_well_formed(entries[entries.len() - 1]));
        }
    }
}

proof fn lemma_wire_items_first(items: Seq<StructuredModel>)
    requires
        items.len() > 0,
    ensures
        wire_items(items) == wire(items[0]) + wire_items(items.drop_first()),
    decreases items.len(),
{
    if items.len() == 1 {
        assert(items.drop_last() =~= Seq::empty());
        assert(items.drop_first() =~= Seq::empty());
        assert(wire_items(items) =~= wire(items[0]) + wire_items(items.drop_first()));
    } else {
        lemma_wire_items_first(items.drop_last());
        assert(items.drop_last().drop_first() =~= items.drop_first().drop_last());
        assert(wire_items(items) =~= wire(items[0]) + wire_items(items.drop_first()));
    }
}

spec fn wire_entry(entry: (Seq<char>, StructuredModel)) -> Seq<u8> {
    wire_chunk(encode_utf8(entry.0)) + wire(entry.1)
}

proof fn lemma_wire_entries_first(entries: Seq<(Seq<char>, StructuredModel)>)
    requires
        entries.len() > 0,
    ensures
        wire_entries(entries) == wire_entry(entries[0]) + wire_entries(entries.drop_first()),
    decreases entries.len(),
{
    if entries.len() == 1 {
        assert(entries.drop_last() =~= Seq::empty());
        assert(entries.drop_first() =~= Seq::empty());
        assert(wire_entries(entries) =~= wire_entry(entries[0]) + wire_entries(
            entries.drop_first(),
        ));
    } else {
        lemma_wire_entries_first(entries.drop_last());
        assert(entries.drop_last().drop_first() =~= entries.drop_first().drop_last());
        assert(wire_entries(entries) =~= wire_entry(entries[0]) + wire_entries(
            entries.drop_first(),
        ));
    }
}

proof fn lemma_parse_chunk(bytes: Seq<u8>, rest: Seq<u8>)
    requires
        bytes.len() <= max_len(),
    ensures
        parse_chunk(wire_chunk(bytes) + rest) == Ok::<_, ErrorModel>((bytes, rest)),
{
    lemma_byte_range();
    lemma_le_bytes_value(bytes.len(), 4);
    let b = wire_chunk(bytes) + rest;
    assert(b.take(4) =~= le_bytes(bytes.len(), 4));
    assert(b.subrange(4, 4 + bytes.len() as int) =~= bytes);
    assert(b.skip(4 + bytes.len() as int) =~= rest);
}

proof fn lemma_parse_wire(m: StructuredModel, rest: Seq<u8>)
    requires
        well_formed(m),
    ensures
        parse_value(wire(m) + rest) == Ok::<_, ErrorModel>((m, rest)),
        wire(m).len() > 0,
    decreases m,
{
    lemma_byte_range();
    let b = wire(m) + rest;
    match m {
        StructuredModel::Null => {
            assert(b.skip(1) =~= rest);
        },
        StructuredModel::Bool(v) => {
            assert(b.skip(1) =~= rest);
        },
        StructuredModel::Integer(n) => {
            lemma_le_bytes_value(signed_bits(n), 8);
            assert(b.skip(1).take(8) =~= le_bytes(signed_bits(n), 8));
            assert(b.skip(1).skip(8) =~= rest);
        },
        StructuredModel::Float(n) => {
            lemma_le_bytes_value(n as nat, 8);
            assert(b.skip(1).take(8) =~= le_bytes(n as nat, 8));
            assert(b.skip(1).skip(8) =~= rest);
        },
        StructuredModel::UnsignedInteger(n) => {
            lemma_le_bytes_value(n as nat, 8);
            assert(b.skip(1).take(8) =~= le_bytes(n as nat, 8));
            assert(b.skip(1).skip(8) =~= rest);
        },
        StructuredModel::String(s) => {
            let text = encode_utf8(s);
            lemma_parse_chunk(text, rest);
            assert(b.skip(1) =~= wire_chunk(text) + rest);
            encode_utf8_valid_utf8(s);
            encode_utf8_decode_utf8(s);
        },
        StructuredModel::Bytes(bytes) => {
            lemma_parse_chunk(bytes, rest);
            assert(b.skip(1) =~= wire_chunk(bytes) + rest);
        },
        StructuredModel::List(items) => {
            lemma_le_bytes_value(items.len(), 4);
            assert(b.skip(1).take(4) =~= le_bytes(items.len(), 4));
            assert(b.skip(1).skip(4) =~= wire_items(items) + rest);
            lemma_parse_wire_items(items, rest);
        },
        StructuredModel::Dict(entries) => {
            lemma_le_bytes_value(entries.len(), 4);
            assert(b.skip(1).take(4) =~= le_bytes(entries.len(), 4));
            assert(b.skip(1).skip(4) =~= wire_entries(entries) + rest);
            lemma_parse_wire_entries(entries, rest, Set::empty());
        },
    }
}

proof fn lemma_parse_wire_items(items: Seq<StructuredModel>, rest: Seq<u8>)
    requires
        items_well_formed(items),
    ensures
        parse_items(wire_items(items) + rest, items.len()) == Ok::<_, ErrorModel>((items, rest)),
    decreases items,
{
    if items.len() == 0 {
        assert(wire_items(items) + rest =~= rest);
        assert(items =~= Seq::empty());
    } else {
        let tail = items.drop_first();
        lemma_items_well_formed(items);
        lemma_items_well_formed(tail);
        assert forall|i: int| 0 <= i < tail.len() implies well_formed(#[trigger] tail[i]) by {
            assert(tail[i] == items[i + 1]);
        }
        assert(well_formed(items[0]));
        assert(decreases_to!(items => items[0]));
        lemma_parse_wire(items[0], wire_items(tail) + rest);
        lemma_parse_wire_items(tail, rest);
        lemma_wire_items_first(items);
        assert(wire_items(items) + rest =~= wire(items[0]) + (wire_items(tail) + rest));
        assert(seq![items[0]] + tail =~= items);
    }
}

proof fn lemma_entries_tail(entries: Seq<(Seq<char>, StructuredModel)>, seen: Set<Seq<char>>)
    requires
        entries.len() > 0,
        entries_well_formed(entries),
        dict_keys(entries).no_duplicates(),
        forall|i: int| 0 <= i < entries.len() ==> !seen.contains(#[trigger] entries[i].0),
    ensures
        entry_well_formed(entries[0]),
        entries_well_formed(entries.drop_first()),
        dict_keys(entries.drop_first()).no_duplicates(),
        forall|i: int|
            0 <= i < entries.drop_first().len() ==> !seen.insert(entries[0].0).contains(
                #[trigger] entries.drop_first()[i].0,
            ),
{
    let tail = entries.drop_first();
    let key = entries[0].0;
    lemma_entries_well_formed(entries);
    lemma_entries_well_formed(tail);
    assert forall|i: int| 0 <= i < tail.len() implies entry_well_formed(#[trigger] tail[i]) by {
        assert(tail[i] == entries[i + 1]);
    }
    let keys = dict_keys(entries);
    assert(entry_well_formed(entries[0]));
    assert forall|i: int| 0 <= i < tail.len() implies !seen.insert(key).contains(
        #[trigger] tail[i].0,
    ) by {
        assert(tail[i] == entries[i + 1]);
        assert(keys[i + 1] == tail[i].0 && keys[0] == key);
    }
    assert forall|i: int, j: int|
        0 <= i < tail.len() && 0 <= j < tail.len() && i != j implies dict_keys(tail)[i]
        != dict_keys(tail)[j] by {
        assert(dict_keys(tail)[i] == keys[i + 1]);
        assert(dict_keys(tail)[j] == keys[j + 1]);
    }
}

#[verifier::rlimit(40)]
proof fn lemma_parse_wire_entries(
    entries: Seq<(Seq<char>, StructuredModel)>,
    rest: Seq<u8>,
    seen: Set<Seq<char>>,
)
    requires
        entries_well_formed(entries),
        dict_keys(entries).no_duplicates(),
        forall|i: int| 0 <= i < entries.len() ==> !seen.contains(#[trigger] entries[i].0),
    ensures
        parse_entries(wire_entries(entries) + rest, entries.len(), seen) == Ok::<_, ErrorModel>(
            (entries, rest),
        ),
    decreases entries,
{
    if entries.len() == 0 {
        assert(wire_entries(entries) + rest =~= rest);
        assert(entries =~= Seq::empty());
    } else {
        let tail = entries.drop_first();
        let key = entries[0].0;
        let m = entries[0].1;
        lemma_entries_tail(entries, seen);
        assert(decreases_to!(entries => entries[0]));
        let end = wire_entries(tail) + rest;
        lemma_parse_chunk(encode_utf8(key), wire(m) + end);
        encode_utf8_valid_utf8(key);
        encode_utf8_decode_utf8(key);
        lemma_parse_wire(m, end);
        lemma_parse_wire_entries(tail, rest, seen.insert(key));
        lemma_wire_entries_first(entries);
        assert(wire_entries(entries) + rest =~= wire_chunk(encode_utf8(key)) + (wire(m) + end));
        assert(seq![entries[0]] + tail =~= entries);
    }
}

proof fn lemma_parse_chunk_exact(b: Seq<u8>)
    ensures
        parse_chunk(b) matches Ok((bytes, rest)) ==> b == wire_chunk(bytes) + rest && bytes.len()
            <= max_len() && rest.len() + 4 <= b.len(),
{
    if let Ok((bytes, rest)) = parse_chunk(b) {
        lemma_byte_range();
        lemma_le_value_bytes(b.take(4));
        assert(b =~= wire_chunk(bytes) + rest);
    }
}

proof fn lemma_parse_exact(b: Seq<u8>)
    ensures
        parse_value(b) matches Ok((m, rest)) ==> {
            &&& b == wire(m) + rest
            &&& well_formed(m)
            &&& rest.len() < b.len()
        },
    decreases b.len(), 0nat,
{
    if let Ok((m, rest)) = parse_value(b) {
        lemma_byte_range();
        let tag = b[0];
        let r = b.skip(1);
        if tag == 0 || tag == 1 || tag == 2 {
            assert(b =~= wire(m) + rest);
        } else if tag == 3 || tag == 4 || tag == 9 {
            lemma_le_value_bytes(r.take(8));
            let n = le_value(r.take(8));
            assert(n < 0x1_0000_0000_0000_0000);
            if tag == 3 {
                assert(signed_bits(bits_signed(n) as i64) == n);
            }
            assert(b =~= wire(m) + rest);
        } else if tag == 5 {
            lemma_parse_chunk_exact(r);
            let text = parse_chunk(r)->Ok_0.0;
            decode_utf8_encode_utf8(text);
            assert(b =~= seq![5u8] + r);
            assert(seq![5u8] + (wire_chunk(text) + rest) =~= seq![5u8] + wire_chunk(text) + rest);
        } else if tag == 6 {
            lemma_parse_chunk_exact(r);
            let bytes = parse_chunk(r)->Ok_0.0;
            assert(b =~= seq![6u8] + r);
            assert(seq![6u8] + (wire_chunk(bytes) + rest) =~= seq![6u8] + wire_chunk(bytes) + rest);
        } else {
            lemma_le_value_bytes(r.take(4));
            let n = le_value(r.take(4));
            if tag == 7 {
                lemma_parse_items_exact(r.skip(4), n);
            } else {
                lemma_parse_entries_exact(r.skip(4), n, Set::empty());
            }
            assert(b =~= seq![tag] + r.take(4) + r.skip(4));
            assert(b =~= wire(m) + rest);
        }
    }
}

proof fn lemma_parse_items_exact(b: Seq<u8>, n: nat)
    ensures
        parse_items(b, n) matches Ok((items, rest)) ==> {
            &&& b == wire_items(items) + rest
            &&& items.len() == n
            &&& items_well_formed(items)
            &&& rest.len() <= b.len()
        },
    decreases b.len(), 1nat,
{
    if let Ok((items, rest)) = parse_items(b, n) {
        if n == 0 {
            assert(b =~= wire_items(items) + rest);
        } else {
            lemma_parse_exact(b);
            let (m, next) = parse_value(b)->Ok_0;
            lemma_parse_items_exact(next, (n - 1) as nat);
            let (more, end) = parse_items(next, (n - 1) as nat)->Ok_0;
            assert(items.drop_first() =~= more);
            lemma_wire_items_first(items);
            assert(b =~= wire_items(items) + rest);
            lemma_items_well_formed(more);
            lemma_items_well_formed(items);
            assert forall|i: int| 0 <= i < items.len() implies well_formed(
                #[trigger] items[i],
            ) by {
                if i > 0 {
                    assert(items[i] == more[i - 1]);
                }
            }
        }
    }
}

proof fn lemma_parse_entries_exact(b: Seq<u8>, n: nat, seen: Set<Seq<char>>)
    ensures
        parse_entries(b, n, seen) matches Ok((entries, rest)) ==> {
            &&& b == wire_entries(entries) + rest
            &&& entries.len() == n
            &&& entries_well_formed(entries)
            &&& dict_keys(entries).no_duplicates()
            &&& forall|i: int| 0 <= i < entries.len() ==> !seen.contains(#[trigger] entries[i].0)
            &&& rest.len() <= b.len()
        },
    decreases b.len(), 1nat,
{
    if let Ok((entries, rest)) = parse_entries(b, n, seen) {
        if n == 0 {
            assert(b =~= wire_entries(entries) + rest);
        } else {
            lemma_parse_chunk_exact(b);
            let (key_bytes, r) = parse_chunk(b)->Ok_0;
            let key = decode_utf8(key_bytes);
            decode_utf8_encode_utf8(key_bytes);
            lemma_parse_exact(r);
            let (m, next) = parse_value(r)->Ok_0;
            lemma_parse_entries_exact(next, (n - 1) as nat, seen.insert(key));
            let (more, end) = parse_entries(next, (n - 1) as nat, seen.insert(key))->Ok_0;
            assert(entries.drop_first() =~= more);
            lemma_wire_entries_first(entries);
            assert(b =~= wire_entries(entries) + rest);
            lemma_entries_well_formed(more);
            lemma_entries_well_formed(entries);
            assert forall|i: int| 0 <= i < entries.len() implies entry_well_formed(
                #[trigger] entries[i],
            ) by {
                if i > 0 {
                    assert(entries[i] == more[i - 1]);
                }
            }
            assert forall|i: int| 0 <= i < entries.len() implies !seen.contains(
                #[trigger] entries[i].0,
            ) by {
                if i > 0 {
                    assert(entries[i] == more[i - 1]);
                }
            }
            let keys = dict_keys(entries);
            assert forall|i: int, j: int|
                0 <= i < keys.len() && 0 <= j < keys.len() && i != j implies keys[i]
                != keys[j] by {
                if i > 0 && j > 0 {
                    assert(dict_keys(more)[i - 1] == keys[i]);
                    assert(dict_keys(more)[j - 1] == keys[j]);
                } else if i > 0 {
                    assert(entries[i] == more[i - 1]);
                } else {
                    assert(entries[j] == more[j - 1]);
                }
            }
        }
    }
}

/// Every sequence of bytes that can be read is the written form of what is read, so no two
/// byte strings read as the same value.
pub proof fn law_decoded_exact(b: Seq<u8>)
    ensures
        decoded(b) matches Ok(m) ==> b == structured_magic() + wire(m) && well_formed(m),
{
    if let Ok(m) = decoded(b) {
        lemma_parse_exact(b.skip(4));
        let rest = parse_value(b.skip(4))->Ok_0.1;
        assert(b =~= structured_magic() + b.skip(4));
        assert(b.skip(4) =~= wire(m));
    }
}

/// Every value that the format can hold is read back from its written form, whatever the
/// order of its dicts.
pub proof fn law_wire_readable(m: StructuredModel)
    requires
        well_formed(m),
    ensures
        decoded(structured_magic() + wire(m)) == Ok::<_, ErrorModel>(m),
{
    let b = structured_magic() + wire(m);
    lemma_parse_wire(m, Seq::empty());
    assert(b.skip(4) =~= wire(m) + Seq::empty());
}

spec fn dict_step_ok(
    keys: Seq<Seq<char>>,
    faults: Seq<Option<ErrorModel>>,
    order: Seq<int>,
    j: int,
) -> bool {
    &&& j >= 1 ==> keys[order[j - 1]] != keys[order[j]]
    &&& encode_utf8(keys[order[j]]).len() <= max_len()
    &&& faults[order[j]] is None
}

proof fn lemma_dict_fault_none(
    keys: Seq<Seq<char>>,
    faults: Seq<Option<ErrorModel>>,
    order: Seq<int>,
    k: nat,
)
    ensures
        dict_fault(keys, faults, order, k) is None <==> forall|j: int|
            0 <= j < k ==> #[trigger] dict_step_ok(keys, faults, order, j),
    decreases k,
{
    if k > 0 {
        lemma_dict_fault_none(keys, faults, order, (k - 1) as nat);
        if forall|j: int| 0 <= j < k ==> #[trigger] dict_step_ok(keys, faults, order, j) {
            assert(dict_step_ok(keys, faults, order, k - 1));
        }
        if dict_fault(keys, faults, order, k) is None {
            assert(dict_step_ok(keys, faults, order, k - 1));
        }
    }
}

proof fn lemma_adjacent_distinct(keys: Seq<Seq<char>>, order: Seq<int>, a: int, b: int)
    requires
        in_key_order(keys, order),
        forall|j: int| 1 <= j < order.len() ==> keys[order[j - 1]] != keys[#[trigger] order[j]],
        0 <= a < b < order.len(),
    ensures
        key_lt(keys[order[a]], keys[order[b]]),
{
    assert(keys[order[a + 1 - 1]] != keys[order[a + 1]]);
    assert(key_le(keys[order[a]], keys[order[a + 1]]));
    if a + 1 < b {
        assert(key_le(keys[order[a + 1]], keys[order[b]]));
        if keys[order[a + 1]] != keys[order[b]] {
            lemma_key_lt_transitive(keys[order[a]], keys[order[a + 1]], keys[order[b]]);
        }
    }
}

proof fn lemma_fault_iff(m: StructuredModel)
    ensures
        fault(m) is None <==> well_formed(m),
    decreases m,
{
    match m {
        StructuredModel::List(items) => {
            lemma_items_fault_iff(items);
        },
        StructuredModel::Dict(entries) => {
            let keys = dict_keys(entries);
            let faults = entry_faults(entries);
            let order = key_sort(keys);
            lemma_entry_faults_iff(entries);
            lemma_entry_faults(entries);
            lemma_entries_well_formed(entries);
            lemma_dict_fault_none(keys, faults, order, entries.len());
            lemma_key_sort_upto(keys, keys.len());
            lemma_key_sort_indices(keys, keys.len());
            if dict_fault(keys, faults, order, entries.len()) is None {
                assert forall|j: int| 1 <= j < order.len() implies keys[order[j - 1]]
                    != keys[#[trigger] order[j]] by {
                    assert(dict_step_ok(keys, faults, order, j));
                }
                assert forall|i: int, j: int|
                    0 <= i < keys.len() && 0 <= j < keys.len() && i != j implies keys[i]
                    != keys[j] by {
                    assert(order.contains(i) && order.contains(j));
                    let a = choose|a: int| 0 <= a < order.len() && order[a] == i;
                    let b = choose|b: int| 0 <= b < order.len() && order[b] == j;
                    if a < b {
                        lemma_adjacent_distinct(keys, order, a, b);
                    } else {
                        lemma_adjacent_distinct(keys, order, b, a);
                    }
                    lemma_key_lt_trichotomy(keys[i], keys[j]);
                    lemma_key_lt_trichotomy(keys[j], keys[i]);
                }
                assert forall|i: int| 0 <= i < entries.len() implies entry_well_formed(
                    #[trigger] entries[i],
                ) by {
                    assert(order.contains(i));
                    let a = choose|a: int| 0 <= a < order.len() && order[a] == i;
                    assert(dict_step_ok(keys, faults, order, a));
                    assert(keys[i] == entries[i].0);
                    assert(faults[i] == fault(entries[i].1));
                }
            }
            if keys.no_duplicates() && entries_well_formed(entries) {
                assert forall|j: int| 0 <= j < entries.len() implies #[trigger] dict_step_ok(
                    keys,
                    faults,
                    order,
                    j,
                ) by {
                    let i = order[j];
                    assert(entry_well_formed(entries[i]));
                    assert(keys[i] == entries[i].0);
                    assert(faults[i] == fault(entries[i].1));
                }
            }
        },
        _ => {},
    }
}

proof fn lemma_items_fault_iff(items: Seq<StructuredModel>)
    ensures
        items_fault(items) is None <==> items_well_formed(items),
    decreases items,
{
    if items.len() > 0 {
        lemma_items_fault_iff(items.drop_last());
        assert(decreases_to!(items => items[items.len() - 1]));
        lemma_fault_iff(items.last());
    }
}

proof fn lemma_entry_faults_iff(entries: Seq<(Seq<char>, StructuredModel)>)
    ensures
        forall|i: int|
            0 <= i < entries.len() ==> ((#[trigger] entry_faults(entries)[i]) is None
                <==> well_formed(entries[i].1)),
    decreases entries,
{
    lemma_entry_faults(entries);
    if entries.len() > 0 {
        let front = entries.drop_last();
        lemma_entry_faults_iff(front);
        lemma_entry_faults(front);
        assert(decreases_to!(entries => entries[entries.len() - 1]));
        lemma_fault_iff(entries.last().1);
        assert forall|i: int| 0 <= i < entries.len() implies ((#[trigger] entry_faults(
            entries,
        )[i]) is None <==> well_formed(entries[i].1)) by {
            if i < front.len() {
                assert(front[i] == entries[i]);
                assert(entry_faults(front)[i] == entry_faults(entries)[i]);
            }
        }
    }
}

/// A value can be written exactly when the format can hold it.
pub proof fn law_encoded_iff_well_formed(m: StructuredModel)
    ensures
        encoded(m) is Ok <==> well_formed(m),
{
    lemma_fault_iff(m);
}

proof fn lemma_canonical_well_formed(m: StructuredModel)
    requires
        well_formed(m),
    ensures
        well_formed(canonical(m)),
    decreases m,
{
    match m {
        StructuredModel::List(items) => {
            lemma_canonical_items_well_formed(items);
            lemma_canonical_items(items);
        },
        StructuredModel::Dict(entries) => {
            lemma_canonical_entries_well_formed(entries);
            lemma_canonical_entries(entries);
            let ce = canonical_entries(entries);
            lemma_arranged(ce);
            lemma_entries_well_formed(ce);
            lemma_entries_well_formed(arranged(ce));
            assert forall|i: int| 0 <= i < arranged(ce).len() implies entry_well_formed(
                #[trigger] arranged(ce)[i],
            ) by {
                assert(arranged(ce).contains(arranged(ce)[i]));
                let j = choose|j: int| 0 <= j < ce.len() && ce[j] == arranged(ce)[i];
                assert(entry_well_formed(ce[j]));
            }
        },
        _ => {},
    }
}

proof fn lemma_canonical_items_well_formed(items: Seq<StructuredModel>)
    requires
        items_well_formed(items),
    ensures
        items_well_formed(canonical_items(items)),
    decreases items,
{
    if items.len() > 0 {
        lemma_canonical_items_well_formed(items.drop_last());
        assert(decreases_to!(items => items[items.len() - 1]));
        lemma_canonical_well_formed(items.last());
        assert(canonical_items(items).drop_last() =~= canonical_items(items.drop_last()));
    }
}

proof fn lemma_canonical_entries_well_formed(entries: Seq<(Seq<char>, StructuredModel)>)
    requires
        entries_well_formed(entries),
    ensures
        entries_well_formed(canonical_entries(entries)),
    decreases entries,
{
    if entries.len() > 0 {
        lemma_canonical_entries_well_formed(entries.drop_last());
        assert(decreases_to!(entries => entries[entries.len() - 1]));
        lemma_canonical_well_formed(entries.last().1);
        assert(canonical_entries(entries).drop_last() =~= canonical_entries(entries.drop_last()));
    }
}

/// Reading what was written gives the value back, its dicts in key order.
pub proof fn law_encode_decode(m: StructuredModel)
    ensures
        encoded(m) matches Ok(b) ==> decoded(b) == Ok::<_, ErrorModel>(canonical(m)),
{
    if encoded(m) is Ok {
        lemma_fault_iff(m);
        lemma_canonical_well_formed(m);
        law_wire_readable(canonical(m));
    }
}

/// What is written of a dict with distinct keys, or why it cannot be written, does not depend on
/// the order in which its entries are given.
pub proof fn law_dict_order_irrelevant(
    a: Seq<(Seq<char>, StructuredModel)>,
    b: Seq<(Seq<char>, StructuredModel)>,
)
    requires
        a.to_multiset() == b.to_multiset(),
        dict_keys(a).no_duplicates(),
    ensures
        encoded(StructuredModel::Dict(b)) == encoded(StructuredModel::Dict(a)),
{
    broadcast use vstd::seq_lib::group_to_multiset_ensures;

    assert(a.len() == a.to_multiset().len() && b.len() == b.to_multiset().len());
    assert forall|e: (Seq<char>, StructuredModel)| #[trigger] a.contains(e) <==> b.contains(e) by {
        assert(a.contains(e) <==> a.to_multiset().count(e) > 0);
        assert(b.contains(e) <==> b.to_multiset().count(e) > 0);
    }
    let ka = dict_keys(a);
    let kb = dict_keys(b);
    assert forall|i: int| 0 <= i < ka.len() implies kb.contains(#[trigger] ka[i]) by {
        assert(ka[i] == a[i].0);
        assert(a.contains(a[i]));
        let j = choose|j: int| 0 <= j < b.len() && b[j] == a[i];
        assert(kb[j] == ka[i]);
    }
    lemma_covering_keys(ka, kb);
    lemma_arranged(a);
    lemma_arranged(b);
    lemma_sorted_unique(arranged(a), arranged(b));
    lemma_dict_fault_arranged(a, b, a.len());
    let ca = canonical_entries(a);
    let cb = canonical_entries(b);
    lemma_canonical_entries(a);
    lemma_canonical_entries(b);
    lemma_arranged(ca);
    lemma_arranged(cb);
    assert forall|e: (Seq<char>, StructuredModel)| #[trigger]
        arranged(ca).contains(e) <==> arranged(cb).contains(e) by {
        if arranged(ca).contains(e) {
            lemma_canonical_contains(a, b, e);
        }
        if arranged(cb).contains(e) {
            lemma_canonical_contains(b, a, e);
        }
    }
    lemma_sorted_unique(arranged(ca), arranged(cb));
}

/// The first fault depends only on the entries in key order.
proof fn lemma_dict_fault_arranged(
    a: Seq<(Seq<char>, StructuredModel)>,
    b: Seq<(Seq<char>, StructuredModel)>,
    k: nat,
)
    requires
        arranged(a) == arranged(b),
        k <= a.len(),
        a.len() == b.len(),
    ensures
        dict_fault(dict_keys(a), entry_faults(a), key_sort(dict_keys(a)), k) == dict_fault(
            dict_keys(b),
            entry_faults(b),
            key_sort(dict_keys(b)),
            k,
        ),
    decreases k,
{
    if k > 0 {
        lemma_dict_fault_arranged(a, b, (k - 1) as nat);
        lemma_arranged_at(a, k - 1);
        lemma_arranged_at(b, k - 1);
        if k >= 2 {
            lemma_arranged_at(a, k - 2);
            lemma_arranged_at(b, k - 2);
        }
    }
}

proof fn lemma_arranged_at(entries: Seq<(Seq<char>, StructuredModel)>, k: int)
    requires
        0 <= k < entries.len(),
    ensures
        ({
            let i = key_sort(dict_keys(entries))[k];
            &&& 0 <= i < entries.len()
            &&& dict_keys(entries)[i] == arranged(entries)[k].0
            &&& entry_faults(entries)[i] == fault(arranged(entries)[k].1)
        }),
{
    lemma_key_sort_indices(dict_keys(entries), entries.len());
    lemma_entry_faults(entries);
}

proof fn lemma_canonical_contains(
    a: Seq<(Seq<char>, StructuredModel)>,
    b: Seq<(Seq<char>, StructuredModel)>,
    e: (Seq<char>, StructuredModel),
)
    requires
        forall|e: (Seq<char>, StructuredModel)| #[trigger] a.contains(e) ==> b.contains(e),
        canonical_entries(a).contains(e),
    ensures
        canonical_entries(b).contains(e),
{
    lemma_canonical_entries(a);
    lemma_canonical_entries(b);
    let i = choose|i: int| 0 <= i < a.len() && canonical_entries(a)[i] == e;
    assert(a.contains(a[i]));
    let j = choose|j: int| 0 <= j < b.len() && b[j] == a[i];
    assert(canonical_entries(b)[j] == e);
}

/// Whether two values differ in nothing but the order of dict entries, at any depth.
pub open spec fn same_but_order(a: StructuredModel, b: StructuredModel) -> bool
    decreases a,
{
    match (a, b) {
        (StructuredModel::List(x), StructuredModel::List(y)) => {
            &&& x.len() == y.len()
            &&& forall|i: int|
                #![trigger x[i]]
                #![trigger y[i]]
                0 <= i < x.len() ==> same_but_order(x[i], y[i])
        },
        (StructuredModel::Dict(x), StructuredModel::Dict(y)) => {
            &&& x.len() == y.len()
            &&& forall|i: int| #![trigger x[i]] 0 <= i < x.len() ==> has_same(y, x[i])
        },
        _ => a == b,
    }
}

/// Whether a dict has an entry of the same key whose value differs in nothing but order.
pub open spec fn has_same(
    entries: Seq<(Seq<char>, StructuredModel)>,
    entry: (Seq<char>, StructuredModel),
) -> bool
    decreases entry,
{
    exists|j: int|
        #![trigger entries[j]]
        0 <= j < entries.len() && entry.0 == entries[j].0 && same_but_order(entry.1, entries[j].1)
}

proof fn lemma_same_but_order(a: StructuredModel, b: StructuredModel)
    requires
        well_formed(a),
        same_but_order(a, b),
    ensures
        well_formed(b),
        canonical(b) == canonical(a),
    decreases a,
{
    match (a, b) {
        (StructuredModel::List(x), StructuredModel::List(y)) => {
            lemma_items_well_formed(x);
            lemma_items_well_formed(y);
            lemma_canonical_items(x);
            lemma_canonical_items(y);
            assert forall|i: int| 0 <= i < x.len() implies well_formed(#[trigger] y[i])
                && canonical(y[i]) == canonical(x[i]) by {
                assert(decreases_to!(x => x[i]));
                assert(well_formed(x[i]));
                assert(same_but_order(x[i], y[i]));
                lemma_same_but_order(x[i], y[i]);
            }
            assert(canonical_items(x) =~= canonical_items(y));
        },
        (StructuredModel::Dict(x), StructuredModel::Dict(y)) => {
            let kx = dict_keys(x);
            let ky = dict_keys(y);
            lemma_entries_well_formed(x);
            lemma_entries_well_formed(y);
            lemma_canonical_entries(x);
            lemma_canonical_entries(y);
            assert forall|i: int| 0 <= i < kx.len() implies ky.contains(#[trigger] kx[i]) by {
                assert(kx[i] == x[i].0);
                assert(has_same(y, x[i]));
                let j = choose|j: int|
                    #![trigger y[j]]
                    0 <= j < y.len() && x[i].0 == y[j].0 && same_but_order(x[i].1, y[j].1);
                assert(ky[j] == kx[i]);
            }
            lemma_covering_keys(kx, ky);
            let cx = canonical_entries(x);
            let cy = canonical_entries(y);
            assert forall|j: int| 0 <= j < y.len() implies #[trigger] entry_well_formed(y[j])
                && cx.contains(cy[j]) by {
                assert(ky[j] == y[j].0);
                assert(kx.contains(ky[j]));
                let i = choose|i: int| 0 <= i < kx.len() && kx[i] == ky[j];
                assert(kx[i] == x[i].0);
                assert(has_same(y, x[i]));
                let k = choose|k: int|
                    #![trigger y[k]]
                    0 <= k < y.len() && x[i].0 == y[k].0 && same_but_order(x[i].1, y[k].1);
                assert(ky[k] == ky[j]);
                assert(entry_well_formed(x[i]));
                assert(decreases_to!(x => x[i]));
                lemma_same_but_order(x[i].1, y[j].1);
                assert(cx[i] == cy[j]);
            }
            assert forall|i: int| 0 <= i < x.len() implies cy.contains(#[trigger] cx[i]) by {
                assert(kx[i] == x[i].0);
                assert(ky.contains(kx[i]));
                let j = choose|j: int| 0 <= j < ky.len() && ky[j] == kx[i];
                assert(entry_well_formed(y[j]));
                let p = choose|p: int| 0 <= p < cx.len() && cx[p] == cy[j];
                assert(kx[p] == ky[j]);
            }
            lemma_arranged(cx);
            lemma_arranged(cy);
            assert forall|e: (Seq<char>, StructuredModel)| #[trigger]
                arranged(cx).contains(e) <==> arranged(cy).contains(e) by {
                if cx.contains(e) {
                    let i = choose|i: int| 0 <= i < cx.len() && cx[i] == e;
                    assert(cy.contains(cx[i]));
                }
                if cy.contains(e) {
                    let j = choose|j: int| 0 <= j < cy.len() && cy[j] == e;
                    assert(entry_well_formed(y[j]));
                    assert(cx.contains(cy[j]));
                }
            }
            lemma_sorted_unique(arranged(cx), arranged(cy));
        },
        _ => {},
    }
}

/// As many keys as distinct ones that are all among them: then they are distinct and the same.
proof fn lemma_covering_keys(a: Seq<Seq<char>>, b: Seq<Seq<char>>)
    requires
        a.len() == b.len(),
        a.no_duplicates(),
        forall|i: int| 0 <= i < a.len() ==> b.contains(#[trigger] a[i]),
    ensures
        b.no_duplicates(),
        forall|j: int| 0 <= j < b.len() ==> a.contains(#[trigger] b[j]),
{
    broadcast use vstd::seq_lib::seq_to_set_is_finite;

    a.unique_seq_to_set();
    b.lemma_cardinality_of_set();
    assert(a.to_set().subset_of(b.to_set()));
    vstd::set_lib::lemma_len_subset(a.to_set(), b.to_set());
    vstd::set_lib::lemma_subset_equality(a.to_set(), b.to_set());
    b.lemma_no_dup_set_cardinality();
    assert forall|j: int| 0 <= j < b.len() implies a.contains(#[trigger] b[j]) by {
        assert(b.to_set().contains(b[j]));
    }
}

/// Whether no dict has a key twice, at any depth.
pub open spec fn distinct_keys(m: StructuredModel) -> bool
    decreases m,
{
    match m {
        StructuredModel::List(items) => forall|i: int|
            #![trigger items[i]]
            0 <= i < items.len() ==> distinct_keys(items[i]),
        StructuredModel::Dict(entries) => {
            &&& dict_keys(entries).no_duplicates()
            &&& forall|i: int|
                #![trigger entries[i]]
                0 <= i < entries.len() ==> distinct_keys(entries[i].1)
        },
        _ => true,
    }
}

/// A value that can be written has distinct keys at every depth.
pub proof fn law_encoded_keys_distinct(m: StructuredModel)
    ensures
        encoded(m) is Ok ==> distinct_keys(m),
    decreases m,
{
    lemma_fault_iff(m);
    if well_formed(m) {
        match m {
            StructuredModel::List(items) => {
                lemma_items_well_formed(items);
                assert forall|i: int| 0 <= i < items.len() implies distinct_keys(
                    #[trigger] items[i],
                ) by {
                    assert(decreases_to!(items => items[i]));
                    law_encoded_keys_distinct(items[i]);
                    lemma_fault_iff(items[i]);
                }
            },
            StructuredModel::Dict(entries) => {
                lemma_entries_well_formed(entries);
                assert forall|i: int| #![trigger entries[i]] 0 <= i < entries.len() implies
                    distinct_keys(entries[i].1) by {
                    assert(decreases_to!(entries => entries[i]));
                    assert(entry_well_formed(entries[i]));
                    law_encoded_keys_distinct(entries[i].1);
                    lemma_fault_iff(entries[i].1);
                }
            },
            _ => {},
        }
    }
}

/// With distinct keys, a value can only be too large to be written.
pub proof fn law_distinct_keys_fault(m: StructuredModel)
    requires
        distinct_keys(m),
    ensures
        encoded(m) matches Err(e) ==> e == too_large(),
    decreases m,
{
    match m {
        StructuredModel::List(items) => {
            assert forall|i: int| 0 <= i < items.len() implies (fault(#[trigger] items[i]) matches
                Some(e) ==> e == too_large()) by {
                assert(decreases_to!(items => items[i]));
                law_distinct_keys_fault(items[i]);
            }
            lemma_items_too_large(items);
        },
        StructuredModel::Dict(entries) => {
            lemma_entry_faults(entries);
            assert forall|i: int| 0 <= i < entries.len() implies ((#[trigger] entry_faults(
                entries,
            )[i]) matches Some(e) ==> e == too_large()) by {
                let entry = entries[i];
                assert(decreases_to!(entries => entries[i]));
                assert(distinct_keys(entry.1));
                law_distinct_keys_fault(entry.1);
            }
            lemma_key_sort_indices(dict_keys(entries), entries.len());
            lemma_dict_too_large(entries, entries.len());
        },
        _ => {},
    }
}

proof fn lemma_items_too_large(items: Seq<StructuredModel>)
    requires
        forall|i: int|
            0 <= i < items.len() ==> (fault(#[trigger] items[i]) matches Some(e) ==> e
                == too_large()),
    ensures
        items_fault(items) matches Some(e) ==> e == too_large(),
    decreases items.len(),
{
    if items.len() > 0 {
        let front = items.drop_last();
        assert forall|i: int| 0 <= i < front.len() implies (fault(#[trigger] front[i]) matches Some(
            e,
        ) ==> e == too_large()) by {
            assert(front[i] == items[i]);
        }
        lemma_items_too_large(front);
        assert(items.last() == items[items.len() - 1]);
    }
}

proof fn lemma_dict_too_large(entries: Seq<(Seq<char>, StructuredModel)>, k: nat)
    requires
        k <= entries.len(),
        dict_keys(entries).no_duplicates(),
        entry_faults(entries).len() == entries.len(),
        forall|i: int|
            0 <= i < entries.len() ==> ((#[trigger] entry_faults(entries)[i]) matches Some(e) ==> e
                == too_large()),
    ensures
        dict_fault(
            dict_keys(entries),
            entry_faults(entries),
            key_sort(dict_keys(entries)),
            k,
        ) matches Some(e) ==> e == too_large(),
    decreases k,
{
    if k > 0 {
        let keys = dict_keys(entries);
        let order = key_sort(keys);
        lemma_dict_too_large(entries, (k - 1) as nat);
        lemma_key_sort_indices(keys, keys.len());
        let i = order[k - 1];
        assert(0 <= i < entries.len());
        if k >= 2 {
            let before = order[k - 2];
            assert(0 <= before < entries.len());
            assert(before != i);
            assert(keys[before] != keys[i]);
        }
        let value_fault = entry_faults(entries)[i];
        assert(value_fault matches Some(e) ==> e == too_large());
    }
}

/// Differing in order only goes both ways between values with distinct keys.
proof fn lemma_same_but_order_back(a: StructuredModel, b: StructuredModel)
    requires
        distinct_keys(a),
        same_but_order(a, b),
    ensures
        distinct_keys(b),
        same_but_order(b, a),
    decreases a,
{
    match (a, b) {
        (StructuredModel::List(x), StructuredModel::List(y)) => {
            assert forall|i: int|
                #![trigger x[i]]
                #![trigger y[i]]
                0 <= i < y.len() implies distinct_keys(y[i]) && same_but_order(y[i], x[i]) by {
                assert(decreases_to!(x => x[i]));
                lemma_same_but_order_back(x[i], y[i]);
            }
        },
        (StructuredModel::Dict(x), StructuredModel::Dict(y)) => {
            let kx = dict_keys(x);
            let ky = dict_keys(y);
            assert forall|i: int| 0 <= i < kx.len() implies ky.contains(#[trigger] kx[i]) by {
                assert(kx[i] == x[i].0);
                assert(has_same(y, x[i]));
                let j = choose|j: int|
                    #![trigger y[j]]
                    0 <= j < y.len() && x[i].0 == y[j].0 && same_but_order(x[i].1, y[j].1);
                assert(ky[j] == kx[i]);
            }
            lemma_covering_keys(kx, ky);
            assert forall|j: int| #![trigger y[j]] 0 <= j < y.len() implies distinct_keys(y[j].1)
                && has_same(x, y[j]) by {
                assert(ky[j] == y[j].0);
                assert(kx.contains(ky[j]));
                let i = choose|i: int| 0 <= i < kx.len() && kx[i] == ky[j];
                assert(kx[i] == x[i].0);
                assert(has_same(y, x[i]));
                let k = choose|k: int|
                    #![trigger y[k]]
                    0 <= k < y.len() && x[i].0 == y[k].0 && same_but_order(x[i].1, y[k].1);
                assert(ky[k] == ky[j]);
                assert(decreases_to!(x => x[i]));
                lemma_same_but_order_back(x[i].1, y[j].1);
            }
        },
        _ => {},
    }
}

/// What is written of a value with distinct keys, or why it cannot be written, does not depend on
/// the order in which the entries of its dicts are given, at any depth.
pub proof fn law_order_irrelevant_at_any_depth(a: StructuredModel, b: StructuredModel)
    requires
        distinct_keys(a),
        same_but_order(a, b),
    ensures
        encoded(b) == encoded(a),
{
    lemma_fault_iff(a);
    lemma_fault_iff(b);
    lemma_same_but_order_back(a, b);
    if well_formed(a) {
        lemma_same_but_order(a, b);
    } else {
        if well_formed(b) {
            lemma_same_but_order(b, a);
        }
        law_distinct_keys_fault(a);
        law_distinct_keys_fault(b);
    }
}

/// Reading one value takes as many bytes as writing it again does, and what is read can be written:
/// no dict in it has a key twice, at any depth. Whatever cannot be read, an unknown tag among it, is
/// a deserialization error.
pub proof fn law_parsed_value(b: Seq<u8>)
    ensures
        match parse_value(b) {
            Ok((m, rest)) => {
                &&& b[0] < 10
                &&& well_formed(m)
                &&& distinct_keys(m)
                &&& b == wire(m) + rest
                &&& encoded(m) matches Ok(again) && again.len() - 4 == b.len() - rest.len()
            },
            Err(e) => e is Deserialization,
        },
{
    lemma_parse_errors(b);
    lemma_parse_exact(b);
    if let Ok((m, rest)) = parse_value(b) {
        lemma_fault_iff(m);
        law_encoded_keys_distinct(m);
        lemma_canonical_len(m);
    }
}

proof fn lemma_canonical_len(m: StructuredModel)
    requires
        well_formed(m),
    ensures
        wire(canonical(m)).len() == wire(m).len(),
    decreases m,
{
    lemma_byte_range();
    match m {
        StructuredModel::List(items) => {
            lemma_canonical_items_len(items);
            lemma_canonical_items(items);
        },
        StructuredModel::Dict(entries) => {
            let ce = canonical_entries(entries);
            lemma_canonical_entries_len(entries);
            lemma_canonical_entries(entries);
            lemma_arranged(ce);
            lemma_distinct_entries(ce);
            lemma_distinct_entries(arranged(ce));
            lemma_wire_entries_len(ce, arranged(ce));
        },
        _ => {},
    }
}

proof fn lemma_canonical_items_len(items: Seq<StructuredModel>)
    requires
        items_well_formed(items),
    ensures
        wire_items(canonical_items(items)).len() == wire_items(items).len(),
    decreases items,
{
    if items.len() > 0 {
        lemma_canonical_items_len(items.drop_last());
        assert(decreases_to!(items => items[items.len() - 1]));
        lemma_canonical_len(items.last());
        assert(canonical_items(items).drop_last() =~= canonical_items(items.drop_last()));
    }
}

proof fn lemma_canonical_entries_len(entries: Seq<(Seq<char>, StructuredModel)>)
    requires
        entries_well_formed(entries),
    ensures
        wire_entries(canonical_entries(entries)).len() == wire_entries(entries).len(),
    decreases entries,
{
    if entries.len() > 0 {
        lemma_canonical_entries_len(entries.drop_last());
        assert(decreases_to!(entries => entries[entries.len() - 1]));
        lemma_canonical_len(entries.last().1);
        assert(canonical_entries(entries).drop_last() =~= canonical_entries(entries.drop_last()));
    }
}

proof fn lemma_distinct_entries(entries: Seq<(Seq<char>, StructuredModel)>)
    requires
        dict_keys(entries).no_duplicates(),
    ensures
        entries.no_duplicates(),
{
    let keys = dict_keys(entries);
    assert forall|i: int, j: int|
        0 <= i < entries.len() && 0 <= j < entries.len() && i != j implies entries[i]
        != entries[j] by {
        assert(keys[i] == entries[i].0 && keys[j] == entries[j].0);
    }
}

proof fn lemma_wire_entries_without(entries: Seq<(Seq<char>, StructuredModel)>, p: int)
    requires
        0 <= p < entries.len(),
    ensures
        wire_entries(entries).len() == wire_entries(entries.remove(p)).len() + wire_entry(
            entries[p],
        ).len(),
    decreases entries.len(),
{
    if p == entries.len() - 1 {
        assert(entries.remove(p) =~= entries.drop_last());
    } else {
        lemma_wire_entries_without(entries.drop_last(), p);
        assert(entries.remove(p).drop_last() =~= entries.drop_last().remove(p));
        assert(entries.remove(p).last() == entries.last());
    }
}

/// The same entries in another order take as many bytes.
proof fn lemma_wire_entries_len(
    x: Seq<(Seq<char>, StructuredModel)>,
    y: Seq<(Seq<char>, StructuredModel)>,
)
    requires
        x.no_duplicates(),
        y.no_duplicates(),
        x.len() == y.len(),
        forall|e: (Seq<char>, StructuredModel)| #[trigger] y.contains(e) <==> x.contains(e),
    ensures
        wire_entries(x).len() == wire_entries(y).len(),
    decreases x.len(),
{
    if x.len() > 0 {
        let e = x.last();
        assert(x.contains(e));
        assert(y.contains(e));
        let p = choose|p: int| 0 <= p < y.len() && y[p] == e;
        let fewer = y.remove(p);
        let front = x.drop_last();
        assert forall|i: int, j: int|
            0 <= i < fewer.len() && 0 <= j < fewer.len() && i != j implies fewer[i] != fewer[j] by {
            let i1 = if i < p { i } else { i + 1 };
            let j1 = if j < p { j } else { j + 1 };
            assert(fewer[i] == y[i1] && fewer[j] == y[j1]);
        }
        assert forall|o: (Seq<char>, StructuredModel)| #[trigger]
            fewer.contains(o) <==> front.contains(o) by {
            if fewer.contains(o) {
                let i = choose|i: int| 0 <= i < fewer.len() && fewer[i] == o;
                let i1 = if i < p { i } else { i + 1 };
                assert(y[i1] == o);
                assert(y.contains(o));
                let k = choose|k: int| 0 <= k < x.len() && x[k] == o;
                assert(front[k] == o);
            }
            if front.contains(o) {
                let k = choose|k: int| 0 <= k < front.len() && front[k] == o;
                assert(x[k] == o);
                assert(x.contains(o));
                assert(y.contains(o));
                let i = choose|i: int| 0 <= i < y.len() && y[i] == o;
                assert(i != p);
                let i0 = if i < p { i } else { i - 1 };
                assert(fewer[i0] == o);
            }
        }
        lemma_wire_entries_len(front, fewer);
        lemma_wire_entries_without(y, p);
    }
}

/// A value's written form is no longer readable with anything behind it, nor with anything taken
/// off its end.
pub proof fn law_decoded_ends(b: Seq<u8>, more: Seq<u8>, cut: int)
    requires
        decoded(b) is Ok,
        more.len() > 0,
        0 <= cut < b.len(),
    ensures
        structured_magic().is_prefix_of(b),
        decoded(b + more) == Err::<StructuredModel, _>(
            ErrorModel::Deserialization("trailing bytes in structured value"@),
        ),
        decoded(b.take(cut)) matches Err(ErrorModel::Deserialization(_)),
{
    lemma_extended(b, more);
    law_decode_errors(b.take(cut));
    if decoded(b.take(cut)) is Ok {
        lemma_extended(b.take(cut), b.skip(cut));
        assert(b.take(cut) + b.skip(cut) =~= b);
    }
}

proof fn lemma_extended(b: Seq<u8>, more: Seq<u8>)
    requires
        decoded(b) is Ok,
        more.len() > 0,
    ensures
        decoded(b + more) == Err::<StructuredModel, _>(
            ErrorModel::Deserialization("trailing bytes in structured value"@),
        ),
{
    let m = decoded(b)->Ok_0;
    law_decoded_exact(b);
    lemma_parse_wire(m, more);
    assert((b + more).skip(4) =~= wire(m) + more);
    assert(structured_magic().is_prefix_of(b + more)) by {
        assert((b + more).take(4) =~= structured_magic());
    }
}

/// Whatever cannot be read is a deserialization error.
pub proof fn law_decode_errors(b: Seq<u8>)
    ensures
        decoded(b) matches Err(e) ==> e is Deserialization,
{
    if structured_magic().is_prefix_of(b) {
        lemma_parse_errors(b.skip(4));
    }
}

proof fn lemma_parse_errors(b: Seq<u8>)
    ensures
        parse_value(b) matches Err(e) ==> e is Deserialization,
    decreases b.len(), 0nat,
{
    if b.len() > 0 {
        let r = b.skip(1);
        if r.len() >= 4 {
            lemma_items_errors(r.skip(4), le_value(r.take(4)));
            lemma_entries_errors(r.skip(4), le_value(r.take(4)), Set::empty());
        }
    }
}

proof fn lemma_items_errors(b: Seq<u8>, n: nat)
    ensures
        parse_items(b, n) matches Err(e) ==> e is Deserialization,
    decreases b.len(), 1nat,
{
    if n > 0 {
        lemma_parse_errors(b);
        if let Ok((m, rest)) = parse_value(b) {
            if rest.len() < b.len() {
                lemma_items_errors(rest, (n - 1) as nat);
            }
        }
    }
}

proof fn lemma_entries_errors(b: Seq<u8>, n: nat, seen: Set<Seq<char>>)
    ensures
        parse_entries(b, n, seen) matches Err(e) ==> e is Deserialization,
    decreases b.len(), 1nat,
{
    if n > 0 {
        if let Ok((key, r)) = parse_chunk(b) {
            lemma_parse_errors(r);
            if let Ok((m, rest)) = parse_value(r) {
                if rest.len() < b.len() {
                    lemma_entries_errors(rest, (n - 1) as nat, seen.insert(decode_utf8(key)));
                }
            }
        }
    }
}

/// What is written of plain values: the header `OKV1`, a tag, and the content. Numbers take eight
/// bytes, the least significant first; a text or bytes are counted in four bytes before them, and
/// fit where their count does.
pub proof fn law_plain_values_written(
    b: bool,
    i: i64,
    n: u64,
    bits: u64,
    s: Seq<char>,
    bytes: Seq<u8>,
)
    ensures
        ({
            let magic = seq![0x4fu8, 0x4bu8, 0x56u8, 0x31u8];
            let text = encode_utf8(s);
            &&& encoded(StructuredModel::Null) == Ok::<_, ErrorModel>(magic + seq![0u8])
            &&& encoded(StructuredModel::Bool(b)) == Ok::<_, ErrorModel>(
                magic + seq![
                    if b {
                        2u8
                    } else {
                        1u8
                    },
                ],
            )
            &&& encoded(StructuredModel::Integer(i)) == Ok::<_, ErrorModel>(
                magic + (seq![3u8] + le_bytes(signed_bits(i), 8)),
            )
            &&& encoded(StructuredModel::Float(bits)) == Ok::<_, ErrorModel>(
                magic + (seq![4u8] + le_bytes(bits as nat, 8)),
            )
            &&& encoded(StructuredModel::UnsignedInteger(n)) == Ok::<_, ErrorModel>(
                magic + (seq![9u8] + le_bytes(n as nat, 8)),
            )
            &&& text.len() <= 0xffff_ffff ==> encoded(StructuredModel::String(s)) == Ok::<
                _,
                ErrorModel,
            >(magic + (seq![5u8] + (le_bytes(text.len(), 4) + text)))
            &&& text.len() > 0xffff_ffff ==> (encoded(StructuredModel::String(s)) matches Err(e)
                && e is Serialization)
            &&& bytes.len() <= 0xffff_ffff ==> encoded(StructuredModel::Bytes(bytes)) == Ok::<
                _,
                ErrorModel,
            >(magic + (seq![6u8] + (le_bytes(bytes.len(), 4) + bytes)))
            &&& bytes.len() > 0xffff_ffff ==> (encoded(StructuredModel::Bytes(bytes)) matches Err(e)
                && e is Serialization)
        }),
{
}

/// A list can be written exactly where its length fits four bytes and every item can be written. A
/// dict can be written exactly where its length and its keys' lengths do, no key comes twice and
/// every value can be written.
pub proof fn law_containers_written(
    items: Seq<StructuredModel>,
    entries: Seq<(Seq<char>, StructuredModel)>,
)
    ensures
        encoded(StructuredModel::List(items)) is Ok <==> items.len() <= 0xffff_ffff && forall|
            i: int,
        |
            0 <= i < items.len() ==> encoded(#[trigger] items[i]) is Ok,
        encoded(StructuredModel::Dict(entries)) is Ok <==> {
            &&& entries.len() <= 0xffff_ffff
            &&& forall|i: int, j: int|
                0 <= i < j < entries.len() ==> (#[trigger] entries[i]).0 != (
                #[trigger] entries[j]).0
            &&& forall|i: int|
                0 <= i < entries.len() ==> encode_utf8((#[trigger] entries[i]).0).len()
                    <= 0xffff_ffff && encoded(entries[i].1) is Ok
        },
        encoded(StructuredModel::List(items)) matches Ok(b) ==> b.len() >= 9 && b[4] == 7
            && b.subrange(5, 9) == le_bytes(items.len(), 4),
        encoded(StructuredModel::Dict(entries)) matches Ok(b) ==> b.len() >= 9 && b[4] == 8
            && b.subrange(5, 9) == le_bytes(entries.len(), 4),
{
    lemma_fault_iff(StructuredModel::List(items));
    lemma_fault_iff(StructuredModel::Dict(entries));
    lemma_items_well_formed(items);
    lemma_entries_well_formed(entries);
    assert forall|i: int| 0 <= i < items.len() implies (encoded(#[trigger] items[i]) is Ok
        <==> well_formed(items[i])) by {
        lemma_fault_iff(items[i]);
    }
    assert forall|i: int| 0 <= i < entries.len() implies (entry_well_formed(
        #[trigger] entries[i],
    ) <==> encode_utf8(entries[i].0).len() <= 0xffff_ffff && encoded(entries[i].1) is Ok) by {
        lemma_fault_iff(entries[i].1);
    }
    let keys = dict_keys(entries);
    if keys.no_duplicates() {
        assert forall|i: int, j: int| 0 <= i < j < entries.len() implies (#[trigger] entries[i]).0
            != (#[trigger] entries[j]).0 by {
            assert(keys[i] != keys[j]);
        }
    }
    if forall|i: int, j: int|
        0 <= i < j < entries.len() ==> (#[trigger] entries[i]).0 != (#[trigger] entries[j]).0 {
        assert forall|i: int, j: int|
            0 <= i < keys.len() && 0 <= j < keys.len() && i != j implies keys[i] != keys[j] by {
            assert(keys[i] == entries[i].0 && keys[j] == entries[j].0);
            if i < j {
                assert(entries[i].0 != entries[j].0);
            } else {
                assert(entries[j].0 != entries[i].0);
            }
        }
    }
    crate::bytes::lemma_le_bytes_len(items.len(), 4);
    crate::bytes::lemma_le_bytes_len(entries.len(), 4);
    if let Ok(b) = encoded(StructuredModel::List(items)) {
        lemma_canonical_items(items);
        assert(b.subrange(5, 9) =~= le_bytes(items.len(), 4));
    }
    if let Ok(b) = encoded(StructuredModel::Dict(entries)) {
        lemma_canonical_entries(entries);
        lemma_arranged(canonical_entries(entries));
        assert(b.subrange(5, 9) =~= le_bytes(entries.len(), 4));
    }
}

/// Whether the keys of every dict increase strictly, at any depth.
pub open spec fn keys_in_order(m: StructuredModel) -> bool
    decreases m,
{
    match m {
        StructuredModel::List(items) => forall|i: int|
            #![trigger items[i]]
            0 <= i < items.len() ==> keys_in_order(items[i]),
        StructuredModel::Dict(entries) => {
            &&& forall|i: int, j: int|
                0 <= i < j < entries.len() ==> key_lt(
                    (#[trigger] entries[i]).0,
                    (#[trigger] entries[j]).0,
                )
            &&& forall|i: int|
                #![trigger entries[i]]
                0 <= i < entries.len() ==> keys_in_order(entries[i].1)
        },
        _ => true,
    }
}

/// The canonical form of a value with distinct keys is the same value, its dicts in key order.
proof fn lemma_canonical_same(m: StructuredModel)
    requires
        distinct_keys(m),
    ensures
        same_but_order(m, canonical(m)),
        keys_in_order(canonical(m)),
    decreases m,
{
    match m {
        StructuredModel::List(items) => {
            lemma_canonical_items(items);
            let y = canonical_items(items);
            assert forall|i: int|
                #![trigger items[i]]
                #![trigger y[i]]
                0 <= i < items.len() implies same_but_order(items[i], y[i]) && keys_in_order(
                y[i],
            ) by {
                assert(decreases_to!(items => items[i]));
                assert(y[i] == canonical(items[i]));
                lemma_canonical_same(items[i]);
            }
        },
        StructuredModel::Dict(entries) => {
            let ce = canonical_entries(entries);
            let y = arranged(ce);
            lemma_canonical_entries(entries);
            lemma_arranged(ce);
            assert forall|i: int| #![trigger entries[i]] 0 <= i < entries.len() implies has_same(
                y,
                entries[i],
            ) && keys_in_order(ce[i].1) by {
                assert(decreases_to!(entries => entries[i]));
                lemma_canonical_same(entries[i].1);
                assert(ce[i] == (entries[i].0, canonical(entries[i].1)));
                assert(ce.contains(ce[i]));
                assert(y.contains(ce[i]));
                let j = choose|j: int| 0 <= j < y.len() && y[j] == ce[i];
                assert(entries[i].0 == y[j].0);
            }
            assert forall|j: int| #![trigger y[j]] 0 <= j < y.len() implies keys_in_order(
                y[j].1,
            ) by {
                assert(y.contains(y[j]));
                let i = choose|i: int| 0 <= i < ce.len() && ce[i] == y[j];
                assert(keys_in_order(ce[i].1)) by {
                    let e = entries[i];
                }
            }
        },
        _ => {},
    }
}

/// What is written is read back as the same value: lists in their order, dicts with the same
/// entries, in key order, at every depth.
pub proof fn law_written_is_read_back(m: StructuredModel)
    ensures
        encoded(m) matches Ok(b) ==> (decoded(b) matches Ok(back) && same_but_order(m, back)
            && keys_in_order(back)),
{
    if encoded(m) is Ok {
        law_encode_decode(m);
        law_encoded_keys_distinct(m);
        lemma_canonical_same(m);
    }
}

} // verus!
