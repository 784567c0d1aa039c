//! What reads and listings of rows give, and what a batch read gives back of a batch write.

use crate::entry::{entry_bytes, entry_for, EntryModel};
use crate::error::{ErrorModel, Result};
use crate::store::batch::{
    batch_fault, last_places, law_last_places, law_mirrored_exact, law_mirrored_roundtrip, mirrored,
    BatchModel,
};
use crate::store::postgres::store::{
    collection_of, gathered, index_name_of, keys_fault, listed, reads_row, row_keys, rows_model,
    uniform_fault, RowModel, RowRead, StoredRow,
};
use crate::value::ValueModel;
use vstd::prelude::*;
#[allow(unused_imports)]
use vstd::string::*;
use vstd::utf8::encode_utf8;

verus! {

/// The entry that a batch write leaves under the key at place `p`.
pub open spec fn written(values: Seq<ValueModel>, ttl: Option<i64>, now: i64, p: int) -> EntryModel {
    entry_for(values[p], ttl, now)->Ok_0
}

/// Whether a row is the one that a batch write made for the key at place `p`.
pub open spec fn is_written_row(
    row: RowModel,
    keys: Seq<Seq<char>>,
    values: Seq<ValueModel>,
    ttl: Option<i64>,
    now: i64,
    p: int,
) -> bool {
    &&& row.key == keys[p]
    &&& row.raw_entry == entry_bytes(written(values, ttl, now, p))
    &&& row.expires_at == written(values, ttl, now, p).expires_at
}

/// Whether rows are what a batch write made, in whatever order: for each key one row, with its last
/// value.
pub open spec fn holds_batch(
    rows: Seq<RowModel>,
    keys: Seq<Seq<char>>,
    values: Seq<ValueModel>,
    ttl: Option<i64>,
    now: i64,
) -> bool {
    &&& forall|a: int, b: int|
        0 <= a < rows.len() && 0 <= b < rows.len() && a != b ==> (#[trigger] rows[a]).key != (
        #[trigger] rows[b]).key
    &&& forall|a: int|
        0 <= a < rows.len() ==> exists|p: int|
            last_places(keys, 0).contains(p) && is_written_row(
                #[trigger] rows[a],
                keys,
                values,
                ttl,
                now,
                p,
            )
    &&& forall|p: int|
        #[trigger] last_places(keys, 0).contains(p) ==> exists|a: int|
            0 <= a < rows.len() && (#[trigger] rows[a]).key == keys[p]
}

proof fn lemma_gathered_written(
    source: Seq<char>,
    rows: Seq<RowModel>,
    keys: Seq<Seq<char>>,
    values: Seq<ValueModel>,
    ttl: Option<i64>,
    now: i64,
    later: i64,
    n: nat,
)
    requires
        n <= rows.len(),
        batch_fault(keys.len(), values.len(), ttl, now) is None,
        ttl matches Some(t) ==> later < now + t,
        holds_batch(rows, keys, values, ttl, now),
    ensures
        gathered(source, keys, rows, n, later) matches Ok(batch) && {
            &&& batch.expired == Seq::<int>::empty()
            &&& forall|key: Seq<char>| #[trigger]
                batch.entries.dom().contains(key) ==> exists|a: int|
                    0 <= a < n && (#[trigger] rows[a]).key == key
            &&& forall|a: int|
                0 <= a < n ==> batch.entries.dom().contains((#[trigger] rows[a]).key)
                    && rows[a].entry() == Ok::<_, ErrorModel>(batch.entries[rows[a].key])
        },
    decreases n,
{
    if n > 0 {
        let k = (n - 1) as nat;
        lemma_gathered_written(source, rows, keys, values, ttl, now, later, k);
        let before = gathered(source, keys, rows, k, later)->Ok_0;
        let row = rows[k as int];
        let p = choose|p: int|
            last_places(keys, 0).contains(p) && is_written_row(row, keys, values, ttl, now, p);
        law_last_places(keys, 0);
        let entry = written(values, ttl, now, p);
        law_mirrored_roundtrip("Postgres"@, row.key, entry);
        assert(keys[p] == row.key);
        assert(keys.contains(row.key));
        assert(!entry.expired(later));
        if before.entries.dom().contains(row.key) {
            let a = choose|a: int| 0 <= a < k && (#[trigger] rows[a]).key == row.key;
            assert(rows[a].key != rows[k as int].key);
        }
        let batch = gathered(source, keys, rows, n, later)->Ok_0;
        assert(batch == BatchModel {
            entries: before.entries.insert(row.key, entry),
            expired: before.expired,
        });
        assert forall|a: int| 0 <= a < n implies batch.entries.dom().contains(
            (#[trigger] rows[a]).key,
        ) && rows[a].entry() == Ok::<_, ErrorModel>(batch.entries[rows[a].key]) by {
            if a < k {
                assert(rows[a].key != rows[k as int].key);
            }
        }
    }
}

proof fn lemma_one_last_place(keys: Seq<Seq<char>>, p: int, q: int)
    requires
        last_places(keys, 0).contains(p),
        last_places(keys, 0).contains(q),
        keys[p] == keys[q],
    ensures
        p == q,
{
    law_last_places(keys, 0);
    if q < p {
        assert(keys.skip(q + 1)[p - q - 1] == keys[q]);
    }
    if p < q {
        assert(keys.skip(p + 1)[q - p - 1] == keys[p]);
    }
}

/// Reading a batch gives back what a batch write left, in whatever order the server returns the
/// rows: under each key its last value, and nothing is missing, as long as nothing has expired.
pub proof fn law_batch_is_read_back(
    source: Seq<char>,
    rows: Seq<RowModel>,
    keys: Seq<Seq<char>>,
    values: Seq<ValueModel>,
    ttl: Option<i64>,
    now: i64,
    later: i64,
)
    requires
        batch_fault(keys.len(), values.len(), ttl, now) is None,
        ttl matches Some(t) ==> later < now + t,
        holds_batch(rows, keys, values, ttl, now),
    ensures
        gathered(source, keys, rows, rows.len(), later) matches Ok(batch) && {
            &&& batch.expired == Seq::<int>::empty()
            &&& forall|p: int| #[trigger]
                last_places(keys, 0).contains(p) ==> batch.found(keys[p]) == Some(
                    written(values, ttl, now, p),
                )
            &&& forall|i: int| 0 <= i < keys.len() ==> batch.found(#[trigger] keys[i]) is Some
        },
{
    lemma_gathered_written(source, rows, keys, values, ttl, now, later, rows.len());
    law_last_places(keys, 0);
    let batch = gathered(source, keys, rows, rows.len(), later)->Ok_0;
    assert forall|p: int| #[trigger] last_places(keys, 0).contains(p) implies batch.found(keys[p])
        == Some(written(values, ttl, now, p)) by {
        let a = choose|a: int| 0 <= a < rows.len() && (#[trigger] rows[a]).key == keys[p];
        let q = choose|q: int|
            last_places(keys, 0).contains(q) && is_written_row(rows[a], keys, values, ttl, now, q);
        assert(keys[q] == keys[p]);
        lemma_one_last_place(keys, p, q);
        law_mirrored_roundtrip("Postgres"@, rows[a].key, written(values, ttl, now, p));
    }
    assert forall|i: int| 0 <= i < keys.len() implies batch.found(#[trigger] keys[i]) is Some by {
        assert(keys.skip(0) =~= keys);
        assert(keys.contains(keys[i]));
        let p = choose|p: int| #[trigger] last_places(keys, 0).contains(p) && keys[p] == keys[i];
        assert(last_places(keys, 0).contains(p));
    }
}

/// Whether a row holds an entry that lives at `now`, and repeats its time of expiry.
pub open spec fn is_live(row: RowModel, now: i64) -> bool {
    exists|entry: EntryModel|
        {
            &&& row.raw_entry == #[trigger] entry_bytes(entry)
            &&& row.expires_at == entry.expires_at
            &&& (entry.expires_at matches Some(t) ==> now < t)
        }
}

proof fn lemma_is_live(row: RowModel, now: i64)
    ensures
        is_live(row, now) <==> (row.entry() matches Ok(e) && !e.expired(now)),
{
    law_mirrored_exact("Postgres"@, row.key, row.raw_entry, row.expires_at);
    if is_live(row, now) {
        let entry = choose|entry: EntryModel|
            {
                &&& row.raw_entry == #[trigger] entry_bytes(entry)
                &&& row.expires_at == entry.expires_at
                &&& (entry.expires_at matches Some(t) ==> now < t)
            };
        assert(mirrored("Postgres"@, row.key, row.raw_entry, row.expires_at) == Ok::<
            _,
            ErrorModel,
        >(entry));
    }
    if let Ok(entry) = row.entry() {
        assert(mirrored("Postgres"@, row.key, row.raw_entry, row.expires_at) == Ok::<
            _,
            ErrorModel,
        >(entry));
        assert(row.raw_entry == entry_bytes(entry));
    }
}

/// Listing collections succeeds where all rows are live. Each name is listed once and is the
/// collection of a row; there are no more than the limit; and where they are fewer, the collection
/// of every row is among them.
pub proof fn law_listed_collections(rows: Seq<RowModel>, limit: nat, n: nat, now: i64)
    requires
        n <= rows.len(),
        forall|i: int| 0 <= i < n ==> is_live(#[trigger] rows[i], now),
    ensures
        listed(rows, limit, n, now) matches Ok(names) && {
            &&& names.no_duplicates()
            &&& names.len() <= limit
            &&& forall|a: int|
                0 <= a < names.len() ==> exists|i: int|
                    0 <= i < n && (#[trigger] rows[i]).collection == #[trigger] names[a]
            &&& names.len() < limit ==> forall|i: int|
                0 <= i < n ==> names.contains((#[trigger] rows[i]).collection)
        },
    decreases n,
{
    if n > 0 {
        let m = (n - 1) as nat;
        law_listed_collections(rows, limit, m, now);
        lemma_is_live(rows[m as int], now);
        assert(is_live(rows[m as int], now));
        let before = listed(rows, limit, m, now)->Ok_0;
        let names = listed(rows, limit, n, now)->Ok_0;
        let name = rows[m as int].collection;
        assert forall|a: int| 0 <= a < names.len() implies exists|i: int|
            0 <= i < n && (#[trigger] rows[i]).collection == #[trigger] names[a] by {
            if a < before.len() {
                assert(names[a] == before[a]);
                let i = choose|i: int|
                    0 <= i < m && (#[trigger] rows[i]).collection == before[a];
                assert(rows[i].collection == names[a]);
            } else {
                assert(rows[m as int].collection == names[a]);
            }
        }
        if names.len() < limit {
            assert forall|i: int| 0 <= i < n implies names.contains(
                (#[trigger] rows[i]).collection,
            ) by {
                if i < m {
                    assert(before.contains(rows[i].collection));
                    let a = choose|a: int| 0 <= a < before.len() && before[a] == rows[i].collection;
                    assert(names[a] == rows[i].collection);
                } else if names.len() > before.len() {
                    assert(names[before.len() as int] == name);
                }
            }
        }
    }
}

/// Collections are listed in the order in which they first appear: every row of one is behind some
/// row of each that is listed before it.
pub proof fn law_listed_in_order(
    rows: Seq<RowModel>,
    limit: nat,
    n: nat,
    now: i64,
    a: int,
    b: int,
    i: int,
)
    requires
        n <= rows.len(),
        forall|i: int| 0 <= i < n ==> is_live(#[trigger] rows[i], now),
        listed(rows, limit, n, now) is Ok,
        0 <= a < b < listed(rows, limit, n, now)->Ok_0.len(),
        0 <= i < n,
        rows[i].collection == listed(rows, limit, n, now)->Ok_0[b],
    ensures
        exists|j: int|
            0 <= j < i && (#[trigger] rows[j]).collection == listed(rows, limit, n, now)->Ok_0[a],
    decreases n,
{
    let m = (n - 1) as nat;
    law_listed_collections(rows, limit, m, now);
    assert(is_live(rows[m as int], now));
    lemma_is_live(rows[m as int], now);
    let before = listed(rows, limit, m, now)->Ok_0;
    let names = listed(rows, limit, n, now)->Ok_0;
    if b < before.len() {
        let k = if i < m {
            i
        } else {
            choose|k: int| 0 <= k < m && (#[trigger] rows[k]).collection == before[b]
        };
        assert(names[b] == before[b] && names[a] == before[a]);
        assert(rows[k].collection == before[b]);
        law_listed_in_order(rows, limit, m, now, a, b, k);
        let j = choose|j: int| 0 <= j < k && (#[trigger] rows[j]).collection == before[a];
        assert(rows[j].collection == names[a]);
    } else {
        if i < m {
            assert(before.contains(rows[i].collection));
        }
        assert(names[a] == before[a]);
        let j = choose|j: int| 0 <= j < m && (#[trigger] rows[j]).collection == before[a];
        assert(rows[j].collection == names[a]);
    }
}

/// Listing collections fails only on a row that is not live, with a deserialization error.
pub proof fn law_listing_fails_on_dead_rows(rows: Seq<RowModel>, limit: nat, n: nat, now: i64)
    requires
        n <= rows.len(),
    ensures
        listed(rows, limit, n, now) matches Err(e) ==> e is Deserialization && exists|k: int|
            0 <= k < n && !is_live(#[trigger] rows[k], now),
    decreases n,
{
    if n > 0 {
        law_listing_fails_on_dead_rows(rows, limit, (n - 1) as nat, now);
        let row = rows[n - 1];
        lemma_is_live(row, now);
        law_mirrored_exact("Postgres"@, row.key, row.raw_entry, row.expires_at);
        if listed(rows, limit, (n - 1) as nat, now) is Err {
            let k = choose|k: int| 0 <= k < n - 1 && !is_live(#[trigger] rows[k], now);
            assert(!is_live(rows[k], now));
        }
    }
}

/// Rows that must be live pass exactly where each one is; rows that must have expired pass exactly
/// where each holds an entry whose time has come. Anything else is a deserialization error.
pub proof fn law_uniform_rows(complaint: Seq<char>, rows: Seq<RowModel>, live: bool, now: i64)
    ensures
        uniform_fault(complaint, rows, live, now) is None <==> forall|i: int|
            0 <= i < rows.len() ==> if live {
                is_live(#[trigger] rows[i], now)
            } else {
                rows[i].entry() is Ok && (rows[i].expires_at matches Some(t) && t <= now)
            },
        uniform_fault(complaint, rows, live, now) matches Some(e) ==> e is Deserialization,
    decreases rows.len(),
{
    if rows.len() > 0 {
        let front = rows.drop_last();
        let n = rows.len() - 1;
        law_uniform_rows(complaint, front, live, now);
        let row = rows[n];
        lemma_is_live(row, now);
        law_mirrored_exact("Postgres"@, row.key, row.raw_entry, row.expires_at);
        if let Ok(entry) = row.entry() {
            assert(mirrored("Postgres"@, row.key, row.raw_entry, row.expires_at) == Ok::<
                _,
                ErrorModel,
            >(entry));
            assert(row.expires_at == entry.expires_at);
        }
        assert(forall|i: int| 0 <= i < n ==> #[trigger] rows[i] == front[i]);
        assert(forall|i: int| 0 <= i < n ==> #[trigger] front[i] == rows[i]);
    }
}

/// Keys pass exactly where none of them holds a NUL; a key that does is an invalid key.
pub proof fn law_keys_without_nul(keys: Seq<Seq<char>>)
    ensures
        keys_fault(keys) is None <==> forall|i: int, j: int|
            0 <= i < keys.len() && 0 <= j < keys[i].len() ==> #[trigger] keys[i][j] != '\0',
        keys_fault(keys) matches Some(e) ==> e is InvalidKey,
    decreases keys.len(),
{
    if keys.len() > 0 {
        let front = keys.drop_last();
        let n = keys.len() - 1;
        law_keys_without_nul(front);
        assert(forall|i: int| 0 <= i < n ==> #[trigger] keys[i] == front[i]);
        assert(forall|i: int| 0 <= i < n ==> #[trigger] front[i] == keys[i]);
        if keys[n].contains('\0') {
            let j = choose|j: int| 0 <= j < keys[n].len() && keys[n][j] == '\0';
            assert(keys[n][j] == '\0');
        } else {
            assert forall|j: int| 0 <= j < keys[n].len() implies #[trigger] keys[n][j]
                != '\0' by {
                assert(keys[n].contains(keys[n][j]));
            }
        }
        if keys_fault(front) is Some {
            let (i, j) = choose|i: int, j: int|
                0 <= i < front.len() && 0 <= j < front[i].len() && #[trigger] front[i][j] == '\0';
            assert(keys[i][j] == '\0');
        } else {
            assert forall|i: int, j: int|
                0 <= i < n && 0 <= j < keys[i].len() implies #[trigger] keys[i][j] != '\0' by {
                assert(front[i][j] != '\0');
            }
        }
    }
}

/// A batch read of rows: each row was asked for and readable, and no key is live twice. Under each
/// key that was asked for the entry of its live row is found; where no row of it lives, nothing.
/// The rows that had expired are noted by their places, in order.
pub proof fn law_gathered_rows(
    source: Seq<char>,
    requested: Seq<Seq<char>>,
    rows: Seq<RowModel>,
    n: nat,
    now: i64,
)
    requires
        n <= rows.len(),
    ensures
        gathered(source, requested, rows, n, now) is Ok <==> {
            &&& forall|i: int|
                0 <= i < n ==> requested.contains((#[trigger] rows[i]).key) && rows[i].entry() is Ok
            &&& forall|i: int, j: int|
                0 <= i < j < n && is_live(#[trigger] rows[i], now) && is_live(
                    #[trigger] rows[j],
                    now,
                ) ==> rows[i].key != rows[j].key
        },
        gathered(source, requested, rows, n, now) matches Err(e) ==> e is Deserialization,
        gathered(source, requested, rows, n, now) matches Ok(batch) ==> {
            &&& forall|i: int|
                0 <= i < n && is_live(#[trigger] rows[i], now) ==> batch.found(rows[i].key) == Some(
                    rows[i].entry()->Ok_0,
                )
            &&& forall|key: Seq<char>|
                (#[trigger] batch.found(key)) is Some ==> exists|i: int|
                    0 <= i < n && is_live(#[trigger] rows[i], now) && rows[i].key == key
            &&& forall|i: int|
                #[trigger] batch.expired.contains(i) <==> 0 <= i < n && !is_live(rows[i], now)
            &&& forall|a: int, b: int|
                0 <= a < b < batch.expired.len() ==> batch.expired[a] < batch.expired[b]
        },
    decreases n,
{
    if n > 0 {
        let m = (n - 1) as nat;
        law_gathered_rows(source, requested, rows, m, now);
        let row = rows[m as int];
        lemma_is_live(row, now);
        law_mirrored_exact("Postgres"@, row.key, row.raw_entry, row.expires_at);
        let earlier = gathered(source, requested, rows, m, now);
        if earlier is Ok && requested.contains(row.key) && row.entry() is Ok {
            let before = earlier->Ok_0;
            let entry = row.entry()->Ok_0;
            if !entry.expired(now) && before.found(row.key) is Some {
                let i = choose|i: int|
                    0 <= i < m && is_live(#[trigger] rows[i], now) && rows[i].key == row.key;
                assert(is_live(rows[i], now) && is_live(rows[m as int], now));
            } else {
                let batch = gathered(source, requested, rows, n, now)->Ok_0;
                assert forall|i: int, j: int|
                    0 <= i < j < n && is_live(#[trigger] rows[i], now) && is_live(
                        #[trigger] rows[j],
                        now,
                    ) implies rows[i].key != rows[j].key by {
                    if j == m && rows[i].key == row.key {
                        assert(before.found(rows[i].key) is Some);
                    }
                }
                assert forall|i: int| 0 <= i < n && is_live(#[trigger] rows[i], now) implies
                    batch.found(rows[i].key) == Some(rows[i].entry()->Ok_0) by {
                    if i < m {
                        assert(before.found(rows[i].key) == Some(rows[i].entry()->Ok_0));
                    }
                }
                assert forall|key: Seq<char>| (#[trigger] batch.found(key)) is Some implies exists|
                    i: int,
                |
                    0 <= i < n && is_live(#[trigger] rows[i], now) && rows[i].key == key by {
                    if before.found(key) is Some {
                        let i = choose|i: int|
                            0 <= i < m && is_live(#[trigger] rows[i], now) && rows[i].key == key;
                        assert(is_live(rows[i], now));
                    } else {
                        assert(is_live(rows[m as int], now));
                    }
                }
                assert forall|i: int| #[trigger] batch.expired.contains(i) <==> 0 <= i < n
                    && !is_live(rows[i], now) by {
                    if entry.expired(now) {
                        assert(batch.expired == before.expired.push(m as int));
                        if before.expired.contains(i) {
                            let a = choose|a: int|
                                0 <= a < before.expired.len() && before.expired[a] == i;
                            assert(batch.expired[a] == i);
                        }
                        if i == m {
                            assert(batch.expired[before.expired.len() as int] == i);
                        }
                        if batch.expired.contains(i) && i != m {
                            let a = choose|a: int|
                                0 <= a < batch.expired.len() && batch.expired[a] == i;
                            assert(before.expired[a] == i);
                        }
                        assert(before.expired.contains(i) <==> 0 <= i < m && !is_live(
                            rows[i],
                            now,
                        ));
                    }
                }
                assert forall|a: int, b: int| 0 <= a < b < batch.expired.len() implies
                    batch.expired[a] < batch.expired[b] by {
                    if b == before.expired.len() {
                        assert(before.expired.contains(before.expired[a]));
                    }
                }
            }
        }
    }
}

/// The rows of a list stand for their columns, one for each, in order.
pub proof fn law_rows(rows: Seq<StoredRow>, i: int)
    requires
        0 <= i < rows.len(),
    ensures
        rows_model(rows).len() == rows.len(),
        rows_model(rows)[i].collection == rows[i].collection@,
        rows_model(rows)[i].key == rows[i].key@,
        rows_model(rows)[i].raw_entry == rows[i].raw_entry@,
        rows_model(rows)[i].expires_at == rows[i].expires_at,
{
}

/// A store uses the collection that is named, and its default one where none is; a name with a NUL
/// in it is an invalid key.
pub proof fn law_collection_used(default: Seq<char>, name: &str)
    ensures
        !name@.contains('\0') ==> collection_of(default, Some(name)) == Ok::<_, ErrorModel>(name@),
        name@.contains('\0') ==> (collection_of(default, Some(name)) matches Err(e)
            && e is InvalidKey),
        !default.contains('\0') ==> collection_of(default, None) == Ok::<_, ErrorModel>(default),
        default.contains('\0') ==> (collection_of(default, None) matches Err(e)
            && e is InvalidKey),
{
}

/// The expiration index is named after its table as long as the name fits 63 bytes.
pub proof fn law_index_name(table: Seq<char>)
    ensures
        encode_utf8("idx_"@ + table + "_expires_at"@).len() <= 63 ==> index_name_of(table) == "idx_"@
            + table + "_expires_at"@,
{
}

/// The keys of rows: one for each row, in order.
pub proof fn law_row_keys(rows: Seq<RowModel>, i: int)
    requires
        0 <= i < rows.len(),
    ensures
        row_keys(rows).len() == rows.len(),
        row_keys(rows)[i] == rows[i].key,
{
}

/// A row reads as live exactly where it is, with the entry that it holds; as expired exactly where
/// the time of its entry has come; and as an error exactly where it holds no entry.
pub proof fn law_row_read(read: Result<RowRead>, row: RowModel, now: i64)
    requires
        reads_row(read, row, now),
    ensures
        is_live(row, now) <==> (read matches Ok(RowRead::Live(_))),
        read matches Ok(RowRead::Live(e)) ==> row.raw_entry == entry_bytes(e@),
        read matches Ok(RowRead::Expired) ==> (row.expires_at matches Some(t) && t <= now),
        read is Err <==> row.entry() is Err,
{
    lemma_is_live(row, now);
    law_mirrored_exact("Postgres"@, row.key, row.raw_entry, row.expires_at);
    if let Ok(entry) = row.entry() {
        assert(mirrored("Postgres"@, row.key, row.raw_entry, row.expires_at) == Ok::<
            _,
            ErrorModel,
        >(entry));
        assert(row.raw_entry == entry_bytes(entry) && row.expires_at == entry.expires_at);
    }
}

} // verus!
