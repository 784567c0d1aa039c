//! What a PostgreSQL store sends and how it reads what comes back.

use crate::entry::{EntryModel, ManagedEntry};
use crate::error::{Error, ErrorModel, Outcome, Result};
use crate::hash::{blake3_hex, digest_hex};
use crate::hex::is_lower_hex;
use crate::ordered::KeyMap;
use crate::store::batch::{
    batch_fault, batch_writes, check_batch, decode_mirrored, mirrored, prepare_writes, writes_model,
    BatchModel, BatchRead, BatchWrite,
};
use crate::store::postgres::config::{PostgresConfig, MAX_IDENTIFIER_BYTES};
use crate::text::{concat, holds_ascii, lemma_encode_concat, list_contains, texts};
use crate::value::Value;
use vstd::prelude::*;
#[allow(unused_imports)]
use vstd::string::*;
use vstd::utf8::{encode_utf8, is_ascii_chars, is_ascii_chars_encode_utf8};

verus! {

/// A store in a PostgreSQL table.
///
/// Each row holds a collection, a key, a complete stored entry and, where the entry expires,
/// the time of expiry once more, for the index.
pub struct PostgresStore {
    config: PostgresConfig,
}

/// A row as it was read.
pub struct StoredRow {
    pub collection: String,
    pub key: String,
    pub raw_entry: Vec<u8>,
    pub expires_at: Option<i64>,
}

/// The model of [`StoredRow`].
pub struct RowModel {
    pub collection: Seq<char>,
    pub key: Seq<char>,
    pub raw_entry: Seq<u8>,
    pub expires_at: Option<i64>,
}

impl View for StoredRow {
    type V = RowModel;

    open spec fn view(&self) -> RowModel {
        RowModel {
            collection: self.collection@,
            key: self.key@,
            raw_entry: self.raw_entry@,
            expires_at: self.expires_at,
        }
    }
}

/// The models of a list of rows.
pub open spec fn rows_model(rows: Seq<StoredRow>) -> Seq<RowModel> {
    rows.map_values(|r: StoredRow| r@)
}

/// The keys of a list of rows.
pub open spec fn row_keys(rows: Seq<RowModel>) -> Seq<Seq<char>> {
    rows.map_values(|r: RowModel| r.key)
}

/// The name of the expiration index: long table names are shortened to a digest.
pub open spec fn index_name_of(table: Seq<char>) -> Seq<char> {
    let plain = "idx_"@ + table + "_expires_at"@;
    if encode_utf8(plain).len() <= MAX_IDENTIFIER_BYTES {
        plain
    } else {
        "idx_"@ + blake3_hex(encode_utf8(table)).take(16) + "_expires_at"@
    }
}

/// Why a text cannot be stored in a text column, if it cannot.
pub open spec fn identity_fault(kind: Seq<char>, identity: Seq<char>) -> Option<ErrorModel> {
    if identity.contains('\0') {
        Some(ErrorModel::InvalidKey("Postgres "@ + kind + " cannot contain NUL"@))
    } else {
        None
    }
}

/// The first fault among a list of keys.
pub open spec fn keys_fault(keys: Seq<Seq<char>>) -> Option<ErrorModel>
    decreases keys.len(),
{
    if keys.len() == 0 {
        None
    } else {
        match keys_fault(keys.drop_last()) {
            Some(e) => Some(e),
            None => identity_fault("key"@, keys.last()),
        }
    }
}

/// The collection that an optional name stands for, where it can be stored.
pub open spec fn collection_of(default: Seq<char>, collection: Option<&str>) -> Outcome<Seq<char>> {
    let name = match collection {
        Some(name) => name@,
        None => default,
    };
    match identity_fault("collection"@, name) {
        Some(e) => Err(e),
        None => Ok(name),
    }
}

impl RowModel {
    /// The entry of a row.
    pub open spec fn entry(self) -> Outcome<EntryModel> {
        mirrored("Postgres"@, self.key, self.raw_entry, self.expires_at)
    }
}

/// What the first `n` rows of a batch read come to.
pub open spec fn gathered(
    source: Seq<char>,
    requested: Seq<Seq<char>>,
    rows: Seq<RowModel>,
    n: nat,
    now: i64,
) -> Outcome<BatchModel>
    decreases n,
{
    if n == 0 {
        Ok(BatchModel::nothing())
    } else {
        match gathered(source, requested, rows, (n - 1) as nat, now) {
            Err(e) => Err(e),
            Ok(batch) => {
                let row = rows[n - 1];
                if !requested.contains(row.key) {
                    Err(
                        ErrorModel::Deserialization(
                            source + " returned unrequested key "@ + row.key,
                        ),
                    )
                } else {
                    match row.entry() {
                        Err(e) => Err(e),
                        Ok(entry) => batch.taken_in(source, n - 1, row.key, entry, now),
                    }
                }
            },
        }
    }
}

/// The first fault among rows that must all be live, or must all have expired.
pub open spec fn uniform_fault(
    complaint: Seq<char>,
    rows: Seq<RowModel>,
    live: bool,
    now: i64,
) -> Option<ErrorModel>
    decreases rows.len(),
{
    if rows.len() == 0 {
        None
    } else {
        match uniform_fault(complaint, rows.drop_last(), live, now) {
            Some(e) => Some(e),
            None => match rows.last().entry() {
                Err(e) => Some(e),
                Ok(entry) => if entry.expired(now) == live {
                    Some(ErrorModel::Deserialization(complaint + rows.last().key))
                } else {
                    None
                },
            },
        }
    }
}

/// What listing the collections of rows gives: each name once, in the order of the rows, and
/// no row is looked at once `limit` names are found.
pub open spec fn listed(rows: Seq<RowModel>, limit: nat, n: nat, now: i64) -> Outcome<
    Seq<Seq<char>>,
>
    decreases n,
{
    if n == 0 {
        Ok(Seq::empty())
    } else {
        match listed(rows, limit, (n - 1) as nat, now) {
            Err(e) => Err(e),
            Ok(names) => if names.len() >= limit {
                Ok(names)
            } else {
                match rows[n - 1].entry() {
                    Err(e) => Err(e),
                    Ok(entry) => if entry.expired(now) {
                        Err(
                            ErrorModel::Deserialization(
                                "Postgres collection enumeration returned expired key "@
                                    + rows[n - 1].key,
                            ),
                        )
                    } else if names.contains(rows[n - 1].collection) {
                        Ok(names)
                    } else {
                        Ok(names.push(rows[n - 1].collection))
                    },
                }
            },
        }
    }
}

/// What reading one row comes to.
pub enum RowRead {
    /// The entry lives.
    Live(ManagedEntry),
    /// The entry has expired; the row may be deleted where it is still the same.
    Expired,
}

/// Whether `read` is what a row comes to at `now`.
pub open spec fn reads_row(read: Result<RowRead>, row: RowModel, now: i64) -> bool {
    match read {
        Ok(RowRead::Live(e)) => row.entry() == Ok::<_, ErrorModel>(e@) && !e@.expired(now),
        Ok(RowRead::Expired) => row.entry() matches Ok(e) && e.expired(now),
        Err(e) => row.entry() == Err::<EntryModel, _>(e@),
    }
}

impl PostgresStore {
    /// The name of the table.
    pub closed spec fn table(&self) -> Seq<char> {
        self.config.table_name@
    }

    /// The collection that is used where none is named.
    pub closed spec fn default_collection(&self) -> Seq<char> {
        self.config.default_collection@
    }

    pub fn with_config(config: PostgresConfig) -> (store: Self)
        ensures
            store.table() == config.table_name@,
            store.default_collection() == config.default_collection@,
    {
        PostgresStore { config }
    }

    pub fn table_name(&self) -> (name: &str)
        ensures
            name@ == self.table(),
    {
        self.config.table_name.as_str()
    }

    /// Accepts a text that a text column can hold.
    pub fn validate_text_identity(kind: &str, identity: &str) -> (result: Result<()>)
        ensures
            match result {
                Ok(_) => identity_fault(kind@, identity@) is None,
                Err(e) => identity_fault(kind@, identity@) == Some(e@),
            },
    {
        if holds_ascii(identity, 0) {
            let mut message = concat("Postgres ", kind);
            message.append(" cannot contain NUL");
            return Err(Error::InvalidKey(message));
        }
        Ok(())
    }

    /// Accepts keys that a text column can hold.
    pub fn validate_keys(keys: &Vec<String>) -> (result: Result<()>)
        ensures
            match result {
                Ok(_) => keys_fault(texts(keys@)) is None,
                Err(e) => keys_fault(texts(keys@)) == Some(e@),
            },
    {
        let ghost all = texts(keys@);
        let mut i: usize = 0;
        proof {
            assert(all.take(0) =~= Seq::empty());
        }
        while i < keys.len()
            invariant
                i <= keys@.len(),
                all == texts(keys@),
                keys_fault(all.take(i as int)) is None,
            decreases keys@.len() - i,
        {
            proof {
                assert(all.take(i + 1).drop_last() =~= all.take(i as int));
                if keys_fault(all.take(i + 1)) is Some {
                    lemma_keys_fault_prefix(all, i + 1);
                }
            }
            PostgresStore::validate_text_identity("key", keys[i].as_str())?;
            i += 1;
        }
        assert(all.take(i as int) =~= all);
        Ok(())
    }

    /// The collection that an optional name stands for, where it can be stored.
    pub fn collection_name(&self, collection: Option<&str>) -> (name: Result<String>)
        ensures
            match name {
                Ok(n) => collection_of(self.default_collection(), collection) == Ok::<
                    _,
                    ErrorModel,
                >(n@),
                Err(e) => collection_of(self.default_collection(), collection) == Err::<
                    Seq<char>,
                    _,
                >(e@),
            },
    {
        let name = match collection {
            Some(name) => name.to_owned(),
            None => self.config.default_collection.clone(),
        };
        PostgresStore::validate_text_identity("collection", name.as_str())?;
        Ok(name)
    }

    /// The name of the expiration index.
    pub fn expires_index_name(&self) -> (name: String)
        ensures
            name@ == index_name_of(self.table()),
            encode_utf8(name@).len() <= MAX_IDENTIFIER_BYTES,
    {
        let mut plain = concat("idx_", self.table_name());
        plain.append("_expires_at");
        if plain.as_str().as_bytes().len() <= MAX_IDENTIFIER_BYTES {
            return plain;
        }
        let digest = digest_hex(self.table_name().as_bytes());
        proof {
            assert forall|i: int| 0 <= i < digest@.len() implies '\0' <= #[trigger] digest@[i]
                <= '\u{7f}' by {
                assert(is_lower_hex(digest@[i]));
            }
        }
        let short = digest.as_str().substring_ascii(0, 16);
        proof {
            assert(digest@.subrange(0, 16) =~= digest@.take(16));
        }
        let mut name = concat("idx_", short);
        name.append("_expires_at");
        proof {
            lemma_short_index_name(short@);
        }
        name
    }

    /// The entry of a row.
    pub fn decode_entry(
        key: &str,
        raw_entry: &Vec<u8>,
        expires_at: Option<i64>,
    ) -> (entry: Result<ManagedEntry>)
        ensures
            match entry {
                Ok(e) => mirrored("Postgres"@, key@, raw_entry@, expires_at) == Ok::<
                    _,
                    ErrorModel,
                >(e@),
                Err(e) => mirrored("Postgres"@, key@, raw_entry@, expires_at) == Err::<
                    EntryModel,
                    _,
                >(e@),
            },
    {
        decode_mirrored("Postgres", key, raw_entry.as_slice(), expires_at)
    }

    /// Reads one row at `now`.
    pub fn read_row(row: &StoredRow, now: i64) -> (read: Result<RowRead>)
        ensures
            reads_row(read, row@, now),
    {
        let entry = PostgresStore::decode_entry(row.key.as_str(), &row.raw_entry, row.expires_at)?;
        if entry.is_expired(now) {
            Ok(RowRead::Expired)
        } else {
            Ok(RowRead::Live(entry))
        }
    }

    /// Gathers the rows of a batch read. `source` is what errors call the query.
    pub fn read_batch(
        source: &str,
        keys: &Vec<String>,
        rows: &Vec<StoredRow>,
        now: i64,
    ) -> (batch: Result<BatchRead>)
        ensures
            match batch {
                Ok(b) => b.wf() && gathered(
                    source@,
                    texts(keys@),
                    rows_model(rows@),
                    rows@.len(),
                    now,
                ) == Ok::<_, ErrorModel>(b@),
                Err(e) => gathered(source@, texts(keys@), rows_model(rows@), rows@.len(), now)
                    == Err::<BatchModel, _>(e@),
            },
    {
        let ghost models = rows_model(rows@);
        let ghost wanted = texts(keys@);
        let mut requested: KeyMap<()> = KeyMap::new();
        let mut k: usize = 0;
        proof {
            assert(wanted.take(0) =~= Seq::empty());
        }
        while k < keys.len()
            invariant
                k <= keys@.len(),
                wanted == texts(keys@),
                requested.wf(),
                forall|x: Seq<char>| #[trigger]
                    requested@.dom().contains(x) <==> wanted.take(k as int).contains(x),
            decreases keys@.len() - k,
        {
            let ghost known = requested@;
            let ghost now_keys = wanted.take(k as int);
            let ghost next_keys = wanted.take(k + 1);
            let _ = requested.insert(keys[k].clone(), ());
            proof {
                assert(wanted[k as int] == keys@[k as int]@);
                assert(next_keys =~= now_keys.push(wanted[k as int]));
                assert forall|x: Seq<char>| #[trigger]
                    requested@.dom().contains(x) <==> next_keys.contains(x) by {
                    assert(requested@.dom().contains(x) <==> known.dom().contains(x) || x
                        == wanted[k as int]);
                    if now_keys.contains(x) {
                        let j = choose|j: int| 0 <= j < now_keys.len() && now_keys[j] == x;
                        assert(next_keys[j] == x);
                    }
                    if x == wanted[k as int] {
                        assert(next_keys[k as int] == x);
                    }
                    if next_keys.contains(x) {
                        let j = choose|j: int| 0 <= j < next_keys.len() && next_keys[j] == x;
                        if j < k {
                            assert(now_keys[j] == x);
                        }
                    }
                }
            }
            k += 1;
        }
        assert(wanted.take(k as int) =~= wanted);
        let mut batch = BatchRead::new();
        let mut i: usize = 0;
        while i < rows.len()
            invariant
                i <= rows@.len(),
                models == rows_model(rows@),
                wanted == texts(keys@),
                requested.wf(),
                forall|x: Seq<char>| #[trigger]
                    requested@.dom().contains(x) <==> wanted.contains(x),
                batch.wf(),
                gathered(source@, wanted, models, i as nat, now) == Ok::<_, ErrorModel>(batch@),
            decreases rows@.len() - i,
        {
            let row = &rows[i];
            proof {
                assert(models[i as int] == row@);
                if gathered(source@, wanted, models, (i + 1) as nat, now) is Err {
                    lemma_gathered_prefix(
                        source@,
                        wanted,
                        models,
                        (i + 1) as nat,
                        rows@.len(),
                        now,
                    );
                }
            }
            if !requested.contains(row.key.as_str()) {
                let mut message = concat(source, " returned unrequested key ");
                message.append(row.key.as_str());
                return Err(Error::Deserialization(message));
            }
            let entry = PostgresStore::decode_entry(
                row.key.as_str(),
                &row.raw_entry,
                row.expires_at,
            )?;
            batch.take_in(source, i, row.key.as_str(), entry, now)?;
            i += 1;
        }
        Ok(batch)
    }

    /// Holds rows that should all have expired against the time.
    pub fn check_expired(rows: &Vec<StoredRow>, now: i64) -> (result: Result<()>)
        ensures
            ({
                let fault = uniform_fault(
                    "Postgres expiration query returned live key "@,
                    rows_model(rows@),
                    false,
                    now,
                );
                match result {
                    Ok(_) => fault is None,
                    Err(e) => fault == Some(e@),
                }
            }),
    {
        PostgresStore::check_uniform(
            "Postgres expiration query returned live key ",
            rows,
            false,
            now,
        )
    }

    fn check_uniform(complaint: &str, rows: &Vec<StoredRow>, live: bool, now: i64) -> (result:
        Result<()>)
        ensures
            match result {
                Ok(_) => uniform_fault(complaint@, rows_model(rows@), live, now) is None,
                Err(e) => uniform_fault(complaint@, rows_model(rows@), live, now) == Some(e@),
            },
    {
        let ghost models = rows_model(rows@);
        let mut i: usize = 0;
        proof {
            assert(models.take(0) =~= Seq::empty());
        }
        while i < rows.len()
            invariant
                i <= rows@.len(),
                models == rows_model(rows@),
                uniform_fault(complaint@, models.take(i as int), live, now) is None,
            decreases rows@.len() - i,
        {
            let row = &rows[i];
            proof {
                assert(models.take(i + 1).drop_last() =~= models.take(i as int));
                assert(models.take(i + 1).last() == row@);
                if uniform_fault(complaint@, models.take(i + 1), live, now) is Some {
                    lemma_uniform_prefix(complaint@, models, live, i + 1, now);
                }
            }
            let entry = PostgresStore::decode_entry(
                row.key.as_str(),
                &row.raw_entry,
                row.expires_at,
            )?;
            if entry.is_expired(now) == live {
                return Err(Error::Deserialization(concat(complaint, row.key.as_str())));
            }
            i += 1;
        }
        assert(models.take(i as int) =~= models);
        Ok(())
    }

    /// The keys of rows that should all be live.
    pub fn list_keys(rows: &Vec<StoredRow>, now: i64) -> (keys: Result<Vec<String>>)
        ensures
            ({
                let fault = uniform_fault(
                    "Postgres key enumeration returned expired key "@,
                    rows_model(rows@),
                    true,
                    now,
                );
                match keys {
                    Ok(k) => fault is None && texts(k@) == row_keys(rows_model(rows@)),
                    Err(e) => fault == Some(e@),
                }
            }),
    {
        PostgresStore::check_uniform(
            "Postgres key enumeration returned expired key ",
            rows,
            true,
            now,
        )?;
        let mut keys: Vec<String> = Vec::new();
        let mut i: usize = 0;
        while i < rows.len()
            invariant
                i <= rows@.len(),
                keys@.len() == i,
                forall|j: int| 0 <= j < i ==> #[trigger] keys@[j]@ == rows@[j].key@,
            decreases rows@.len() - i,
        {
            keys.push(rows[i].key.clone());
            i += 1;
        }
        proof {
            assert(texts(keys@) =~= row_keys(rows_model(rows@)));
        }
        Ok(keys)
    }

    /// The collections of rows, each once, at most `limit` of them.
    pub fn list_collections(rows: &Vec<StoredRow>, limit: usize, now: i64) -> (names: Result<
        Vec<String>,
    >)
        ensures
            match names {
                Ok(n) => listed(rows_model(rows@), limit as nat, rows@.len(), now) == Ok::<
                    _,
                    ErrorModel,
                >(texts(n@)),
                Err(e) => listed(rows_model(rows@), limit as nat, rows@.len(), now) == Err::<
                    Seq<Seq<char>>,
                    _,
                >(e@),
            },
    {
        let ghost models = rows_model(rows@);
        let mut names: Vec<String> = Vec::new();
        let mut i: usize = 0;
        proof {
            assert(texts(names@) =~= Seq::empty());
        }
        while i < rows.len()
            invariant
                i <= rows@.len(),
                models == rows_model(rows@),
                listed(models, limit as nat, i as nat, now) == Ok::<_, ErrorModel>(texts(names@)),
            decreases rows@.len() - i,
        {
            let row = &rows[i];
            let ghost before = names@;
            proof {
                assert(models[i as int] == row@);
                if listed(models, limit as nat, (i + 1) as nat, now) is Err {
                    lemma_listed_prefix(models, limit as nat, (i + 1) as nat, rows@.len(), now);
                }
            }
            if names.len() < limit {
                let entry = PostgresStore::decode_entry(
                    row.key.as_str(),
                    &row.raw_entry,
                    row.expires_at,
                )?;
                if entry.is_expired(now) {
                    return Err(
                        Error::Deserialization(
                            concat(
                                "Postgres collection enumeration returned expired key ",
                                row.key.as_str(),
                            ),
                        ),
                    );
                }
                if !list_contains(&names, row.collection.as_str()) {
                    names.push(row.collection.clone());
                    assert(texts(names@) =~= texts(before).push(row.collection@));
                }
            }
            i += 1;
        }
        Ok(names)
    }

    /// Prepares the writes of a batch: checks come first, and the last value of a key wins.
    pub fn prepare_put_many(
        &self,
        keys: &Vec<String>,
        values: &Vec<Value>,
        collection: Option<&str>,
        ttl: Option<i64>,
        now: i64,
    ) -> (writes: Result<(String, Vec<BatchWrite>)>)
        ensures
            ({
                let size = batch_fault(keys@.len(), values@.len(), ttl, now);
                let name = collection_of(self.default_collection(), collection);
                let bad_key = keys_fault(texts(keys@));
                match writes {
                    Ok((n, w)) => {
                        &&& size is None
                        &&& name == Ok::<_, ErrorModel>(n@)
                        &&& bad_key is None
                        &&& writes_model(w@) == batch_writes(
                            texts(keys@),
                            values@.map_values(|v: Value| v@),
                            ttl,
                            now,
                        )
                    },
                    Err(e) => if size is Some {
                        size == Some(e@)
                    } else if name is Err {
                        name == Err::<Seq<char>, _>(e@)
                    } else {
                        bad_key == Some(e@)
                    },
                }
            }),
    {
        check_batch(keys, values, ttl, now)?;
        let name = self.collection_name(collection)?;
        PostgresStore::validate_keys(keys)?;
        let writes = prepare_writes(keys, values, ttl, now)?;
        Ok((name, writes))
    }
}

proof fn lemma_keys_fault_prefix(keys: Seq<Seq<char>>, k: int)
    requires
        0 <= k <= keys.len(),
        keys_fault(keys.take(k)) is Some,
    ensures
        keys_fault(keys) == keys_fault(keys.take(k)),
    decreases keys.len() - k,
{
    if k == keys.len() {
        assert(keys.take(k) =~= keys);
    } else {
        assert(keys.take(k + 1).drop_last() =~= keys.take(k));
        lemma_keys_fault_prefix(keys, k + 1);
    }
}

proof fn lemma_gathered_prefix(
    source: Seq<char>,
    requested: Seq<Seq<char>>,
    rows: Seq<RowModel>,
    k: nat,
    n: nat,
    now: i64,
)
    requires
        k <= n,
        gathered(source, requested, rows, k, now) is Err,
    ensures
        gathered(source, requested, rows, n, now) == gathered(source, requested, rows, k, now),
    decreases n - k,
{
    if k < n {
        lemma_gathered_prefix(source, requested, rows, k, (n - 1) as nat, now);
    }
}

proof fn lemma_uniform_prefix(
    complaint: Seq<char>,
    rows: Seq<RowModel>,
    live: bool,
    k: int,
    now: i64,
)
    requires
        0 <= k <= rows.len(),
        uniform_fault(complaint, rows.take(k), live, now) is Some,
    ensures
        uniform_fault(complaint, rows, live, now) == uniform_fault(
            complaint,
            rows.take(k),
            live,
            now,
        ),
    decreases rows.len() - k,
{
    if k == rows.len() {
        assert(rows.take(k) =~= rows);
    } else {
        assert(rows.take(k + 1).drop_last() =~= rows.take(k));
        lemma_uniform_prefix(complaint, rows, live, k + 1, now);
    }
}

proof fn lemma_listed_prefix(rows: Seq<RowModel>, limit: nat, k: nat, n: nat, now: i64)
    requires
        k <= n,
        listed(rows, limit, k, now) is Err,
    ensures
        listed(rows, limit, n, now) == listed(rows, limit, k, now),
    decreases n - k,
{
    if k < n {
        lemma_listed_prefix(rows, limit, k, (n - 1) as nat, now);
    }
}

proof fn lemma_short_index_name(short: Seq<char>)
    requires
        short.len() == 16,
        is_ascii_chars(short),
    ensures
        encode_utf8("idx_"@ + short + "_expires_at"@).len() <= MAX_IDENTIFIER_BYTES,
{
    reveal_strlit("idx_");
    reveal_strlit("_expires_at");
    assert(is_ascii_chars("idx_"@));
    assert(is_ascii_chars("_expires_at"@));
    lemma_encode_concat("idx_"@, short);
    lemma_encode_concat("idx_"@ + short, "_expires_at"@);
    is_ascii_chars_encode_utf8("idx_"@);
    is_ascii_chars_encode_utf8(short);
    is_ascii_chars_encode_utf8("_expires_at"@);
}

/// A statement with the table's name between two fixed texts.
fn statement(before: &str, table: &str, behind: &str) -> (sql: String)
    ensures
        sql@ == before@ + table@ + behind@,
{
    let mut sql = concat(before, table);
    sql.append(behind);
    sql
}

impl PostgresStore {
    /// The statement that reads the row of a collection and a key.
    pub fn select_sql(&self) -> (sql: String)
        ensures
            sql@ == "SELECT entry, expires_at FROM "@ + self.table()
                + " WHERE collection = $1 AND key = $2"@,
    {
        statement(
            "SELECT entry, expires_at FROM ",
            self.table_name(),
            " WHERE collection = $1 AND key = $2",
        )
    }

    /// The statement that deletes a row where it is still as it was read.
    pub fn delete_observed_sql(&self) -> (sql: String)
        ensures
            sql@ == "DELETE FROM "@ + self.table()
                + " WHERE collection = $1 AND key = $2 AND entry = $3 AND expires_at IS NOT DISTINCT FROM $4"@,
    {
        statement(
            "DELETE FROM ",
            self.table_name(),
            " WHERE collection = $1 AND key = $2 AND entry = $3 AND expires_at IS NOT DISTINCT FROM $4",
        )
    }

    /// The statement that writes a row.
    pub fn upsert_sql(&self) -> (sql: String)
        ensures
            sql@ == "INSERT INTO "@ + self.table()
                + " (collection, key, entry, expires_at) VALUES ($1, $2, $3, $4) ON CONFLICT (collection, key) DO UPDATE SET entry = EXCLUDED.entry, expires_at = EXCLUDED.expires_at"@,
    {
        statement(
            "INSERT INTO ",
            self.table_name(),
            " (collection, key, entry, expires_at) VALUES ($1, $2, $3, $4) ON CONFLICT (collection, key) DO UPDATE SET entry = EXCLUDED.entry, expires_at = EXCLUDED.expires_at",
        )
    }

    /// The statement that deletes a row.
    pub fn delete_sql(&self) -> (sql: String)
        ensures
            sql@ == "DELETE FROM "@ + self.table()
                + " WHERE collection = $1 AND key = $2"@,
    {
        statement(
            "DELETE FROM ",
            self.table_name(),
            " WHERE collection = $1 AND key = $2",
        )
    }

    /// The statement that reads the rows of a collection and some keys.
    pub fn select_many_sql(&self) -> (sql: String)
        ensures
            sql@ == "SELECT key, entry, expires_at FROM "@ + self.table()
                + " WHERE collection = $1 AND key = ANY($2)"@,
    {
        statement(
            "SELECT key, entry, expires_at FROM ",
            self.table_name(),
            " WHERE collection = $1 AND key = ANY($2)",
        )
    }

    /// The statement that deletes rows of a collection where they are still as they were read.
    pub fn delete_observed_many_sql(&self) -> (sql: String)
        ensures
            sql@ == "DELETE FROM "@ + self.table()
                + " AS target USING UNNEST($2::text[], $3::bytea[], $4::timestamptz[]) AS observed(key, entry, expires_at) WHERE target.collection = $1 AND target.key = observed.key AND target.entry = observed.entry AND target.expires_at IS NOT DISTINCT FROM observed.expires_at"@,
    {
        statement(
            "DELETE FROM ",
            self.table_name(),
            " AS target USING UNNEST($2::text[], $3::bytea[], $4::timestamptz[]) AS observed(key, entry, expires_at) WHERE target.collection = $1 AND target.key = observed.key AND target.entry = observed.entry AND target.expires_at IS NOT DISTINCT FROM observed.expires_at",
        )
    }

    /// The statement that writes rows of a collection.
    pub fn upsert_many_sql(&self) -> (sql: String)
        ensures
            sql@ == "INSERT INTO "@ + self.table()
                + " (collection, key, entry, expires_at) SELECT $1, rows.key, rows.entry, rows.expires_at FROM UNNEST($2::text[], $3::bytea[], $4::timestamptz[]) AS rows(key, entry, expires_at) ON CONFLICT (collection, key) DO UPDATE SET entry = EXCLUDED.entry, expires_at = EXCLUDED.expires_at"@,
    {
        statement(
            "INSERT INTO ",
            self.table_name(),
            " (collection, key, entry, expires_at) SELECT $1, rows.key, rows.entry, rows.expires_at FROM UNNEST($2::text[], $3::bytea[], $4::timestamptz[]) AS rows(key, entry, expires_at) ON CONFLICT (collection, key) DO UPDATE SET entry = EXCLUDED.entry, expires_at = EXCLUDED.expires_at",
        )
    }

    /// The statement that deletes rows of a collection by their keys.
    pub fn delete_many_sql(&self) -> (sql: String)
        ensures
            sql@ == "DELETE FROM "@ + self.table()
                + " WHERE collection = $1 AND key = ANY($2)"@,
    {
        statement(
            "DELETE FROM ",
            self.table_name(),
            " WHERE collection = $1 AND key = ANY($2)",
        )
    }

    /// The statement that reads the rows that have expired.
    pub fn select_expired_sql(&self) -> (sql: String)
        ensures
            sql@ == "SELECT collection, key, entry, expires_at FROM "@ + self.table()
                + " WHERE expires_at IS NOT NULL AND expires_at <= now()"@,
    {
        statement(
            "SELECT collection, key, entry, expires_at FROM ",
            self.table_name(),
            " WHERE expires_at IS NOT NULL AND expires_at <= now()",
        )
    }

    /// The statement that deletes expired rows where they are still as they were read.
    pub fn delete_expired_sql(&self) -> (sql: String)
        ensures
            sql@ == "DELETE FROM "@ + self.table()
                + " AS target USING UNNEST($1::text[], $2::text[], $3::bytea[], $4::timestamptz[]) AS observed(collection, key, entry, expires_at) WHERE target.collection = observed.collection AND target.key = observed.key AND target.entry = observed.entry AND target.expires_at IS NOT DISTINCT FROM observed.expires_at"@,
    {
        statement(
            "DELETE FROM ",
            self.table_name(),
            " AS target USING UNNEST($1::text[], $2::text[], $3::bytea[], $4::timestamptz[]) AS observed(collection, key, entry, expires_at) WHERE target.collection = observed.collection AND target.key = observed.key AND target.entry = observed.entry AND target.expires_at IS NOT DISTINCT FROM observed.expires_at",
        )
    }

    /// The statement that reads the live rows of a collection, in key order.
    pub fn keys_sql(&self) -> (sql: String)
        ensures
            sql@ == "SELECT key, entry, expires_at FROM "@ + self.table()
                + " WHERE collection = $1 AND (expires_at IS NULL OR expires_at > now()) ORDER BY key LIMIT $2"@,
    {
        statement(
            "SELECT key, entry, expires_at FROM ",
            self.table_name(),
            " WHERE collection = $1 AND (expires_at IS NULL OR expires_at > now()) ORDER BY key LIMIT $2",
        )
    }

    /// The statement that reads all live rows, in the order of collections and keys.
    pub fn collections_sql(&self) -> (sql: String)
        ensures
            sql@ == "SELECT collection, key, entry, expires_at FROM "@ + self.table()
                + " WHERE expires_at IS NULL OR expires_at > now() ORDER BY collection, key"@,
    {
        statement(
            "SELECT collection, key, entry, expires_at FROM ",
            self.table_name(),
            " WHERE expires_at IS NULL OR expires_at > now() ORDER BY collection, key",
        )
    }

    /// The statement that deletes a whole collection.
    pub fn destroy_collection_sql(&self) -> (sql: String)
        ensures
            sql@ == "DELETE FROM "@ + self.table()
                + " WHERE collection = $1"@,
    {
        statement(
            "DELETE FROM ",
            self.table_name(),
            " WHERE collection = $1",
        )
    }

    /// The statement that drops the table.
    pub fn destroy_sql(&self) -> (sql: String)
        ensures
            sql@ == "DROP TABLE "@ + self.table(),
    {
        concat("DROP TABLE ", self.table_name())
    }
}

} // verus!
