use base64::engine::general_purpose::STANDARD;
use base64::Engine;
use openkeyv::entry::{EntryRead, ManagedEntry};
use openkeyv::error::Error;
use openkeyv::store::null::{NullClient, NullConfig, NullStore};
use openkeyv::store::postgres::store::RowRead;
use openkeyv::store::postgres::{
    ColumnInfo, ConstraintInfo, IndexInfo, PostgresConfig, PostgresStore, SetupReply, SetupStage,
    StoredRow,
};
use openkeyv::store::rocksdb::store::{is_doomed, read_replies, read_reply};
use openkeyv::store::rocksdb::{
    map_rocksdb_err, DoomedWalk, RocksDBConfig, RocksDBStore, RocksReply,
};
use openkeyv::store::s3::store::{judge_batch_delete, DeleteFailure};
use openkeyv::store::s3::{
    is_s3_not_found, s3_key, CollectionListing, KeyListing, ListPage, ListStep, S3Config, S3Store,
    Sweep,
};
use openkeyv::store::simple::SimpleStore;
use openkeyv::store::sqlite::SqliteConfig;
use openkeyv::store::vault::{VaultConfig, VaultFailure, VaultStore};
use openkeyv::value::Value;
use std::collections::BTreeMap;

const NOW: i64 = 1_784_000_000_000;

fn names(list: &[&str]) -> Vec<String> {
    list.iter().map(|name| name.to_string()).collect()
}

// PostgreSQL

#[test]
fn postgres_table_names_are_strict_ascii_identifiers() {
    for valid in ["kv_store", "_private", "Table42"] {
        assert!(PostgresConfig::new(Some(valid)).is_ok());
    }

    for invalid in ["", "1table", "has-dash", "table name", "数据"] {
        assert!(PostgresConfig::new(Some(invalid)).is_err());
    }

    assert!(PostgresConfig::new(Some(&"a".repeat(64))).is_err());
}

#[test]
fn postgres_text_identity_rejects_nul_only() {
    assert!(PostgresStore::validate_text_identity("key", "line\n值").is_ok());
    assert!(matches!(
        PostgresStore::validate_text_identity("key", "bad\0key"),
        Err(Error::InvalidKey(message)) if message == "Postgres key cannot contain NUL"
    ));
}

#[test]
fn postgres_prevalidates_nul_before_service_access() {
    let store = postgres();
    let keys = names(&["valid", "bad\0key"]);
    assert!(matches!(
        PostgresStore::validate_text_identity("key", "bad\0key"),
        Err(Error::InvalidKey(_))
    ));
    assert!(matches!(
        PostgresStore::validate_keys(&keys),
        Err(Error::InvalidKey(_))
    ));
    assert!(matches!(
        store.prepare_put_many(
            &keys,
            &vec![Value::utf8("first"), Value::utf8("second")],
            Some("entries"),
            None,
            NOW,
        ),
        Err(Error::InvalidKey(_))
    ));
    assert!(matches!(
        store.collection_name(Some("entries\0")),
        Err(Error::InvalidKey(message)) if message == "Postgres collection cannot contain NUL"
    ));
}

fn postgres() -> PostgresStore {
    PostgresStore::with_config(PostgresConfig::new(None).unwrap())
}

fn column(position: i32, name: &str, data: &str, udt: &str, nullable: &str) -> ColumnInfo {
    ColumnInfo {
        ordinal_position: position,
        column_name: name.to_string(),
        data_type: data.to_string(),
        udt_name: udt.to_string(),
        is_nullable: nullable.to_string(),
        column_default: None,
        is_identity: "NO".to_string(),
        is_generated: "NEVER".to_string(),
    }
}

fn good_columns() -> Vec<ColumnInfo> {
    vec![
        column(1, "collection", "text", "text", "NO"),
        column(2, "key", "text", "text", "NO"),
        column(3, "entry", "bytea", "bytea", "NO"),
        column(4, "expires_at", "timestamp with time zone", "timestamptz", "YES"),
    ]
}

fn good_index(store: &PostgresStore) -> IndexInfo {
    IndexInfo {
        index_name: store.expires_index_name(),
        is_unique: false,
        is_primary: false,
        columns: names(&["expires_at"]),
        predicate: Some("(expires_at IS NOT NULL)".to_string()),
    }
}

fn good_constraints() -> Vec<ConstraintInfo> {
    vec![ConstraintInfo {
        constraint_type: "p".to_string(),
        definition: "PRIMARY KEY (collection, key)".to_string(),
    }]
}

#[test]
fn postgres_setup_runs_through_its_stages() {
    let store = postgres();
    let mut stage = SetupStage::Begin;
    for (reply, next) in [
        (SetupReply::Done, SetupStage::CreateTable),
        (SetupReply::Done, SetupStage::LockTable),
        (SetupReply::Done, SetupStage::Columns),
        (SetupReply::Columns(good_columns()), SetupStage::Constraints),
        (SetupReply::Constraints(good_constraints()), SetupStage::Indexes),
        (SetupReply::Indexes(Vec::new()), SetupStage::CreateIndex),
        (SetupReply::Done, SetupStage::IndexesAgain),
        (SetupReply::Indexes(vec![good_index(&store)]), SetupStage::Commit),
        (SetupReply::Done, SetupStage::Done),
    ] {
        stage = store.after_reply(stage, reply).unwrap();
        assert_eq!(stage, next);
    }
}

#[test]
fn postgres_setup_rejects_other_schemas() {
    let store = postgres();
    let mut columns = good_columns();
    columns[2].data_type = "jsonb".to_string();
    assert_eq!(
        store.after_reply(SetupStage::Columns, SetupReply::Columns(columns)),
        Err(Error::StoreSetup {
            message: "Postgres table kv_store does not match the required OpenKeyV schema"
                .to_string()
        })
    );
    assert!(store
        .after_reply(SetupStage::Constraints, SetupReply::Constraints(Vec::new()))
        .is_err());
    let mut index = good_index(&store);
    index.is_unique = true;
    assert!(store
        .after_reply(SetupStage::Indexes, SetupReply::Indexes(vec![index]))
        .is_err());
    assert!(store
        .after_reply(SetupStage::IndexesAgain, SetupReply::Indexes(Vec::new()))
        .is_err());
    assert_eq!(
        store.after_reply(SetupStage::LockTable, SetupReply::Failed("down".to_string())),
        Err(Error::StoreSetup {
            message: "failed to lock Postgres table kv_store for validation: down".to_string()
        })
    );
}

#[test]
fn postgres_long_table_names_have_a_short_index_name() {
    let table = "t".repeat(60);
    let store = PostgresStore::with_config(PostgresConfig::new(Some(&table)).unwrap());
    let digest = blake3::hash(table.as_bytes()).to_hex().to_string();
    assert_eq!(
        store.expires_index_name(),
        format!("idx_{}_expires_at", &digest[..16])
    );
    assert_eq!(postgres().expires_index_name(), "idx_kv_store_expires_at");
}

fn row(key: &str, entry: &ManagedEntry) -> StoredRow {
    StoredRow {
        collection: "c".to_string(),
        key: key.to_string(),
        raw_entry: entry.encode(),
        expires_at: entry.expires_at,
    }
}

#[test]
fn postgres_rows_are_held_against_their_entries() {
    let entry = ManagedEntry::with_ttl(Value::integer(1), 1_000, NOW).unwrap();
    assert!(matches!(
        PostgresStore::read_row(&row("k", &entry), NOW),
        Ok(RowRead::Live(_))
    ));
    assert!(matches!(
        PostgresStore::read_row(&row("k", &entry), NOW + 1_000),
        Ok(RowRead::Expired)
    ));
    let mut other = row("k", &entry);
    other.expires_at = None;
    assert!(matches!(
        PostgresStore::read_row(&other, NOW),
        Err(Error::Deserialization(_))
    ));
    let mut corrupt = row("k", &entry);
    corrupt.raw_entry = b"{}".to_vec();
    assert!(PostgresStore::read_row(&corrupt, NOW).is_err());
}

#[test]
fn postgres_batches_keep_order_and_the_last_value() {
    let store = postgres();
    let keys = names(&["a", "b", "a"]);
    let values = vec![Value::integer(1), Value::integer(2), Value::integer(3)];
    let (collection, writes) = store
        .prepare_put_many(&keys, &values, None, None, NOW)
        .unwrap();
    assert_eq!(collection, "default_collection");
    let kept: Vec<usize> = writes.iter().map(|write| write.index).collect();
    assert_eq!(kept, vec![1, 2]);

    let one = ManagedEntry::new(Value::integer(1), NOW);
    let two = ManagedEntry::with_ttl(Value::integer(2), 10, NOW).unwrap();
    let rows = vec![row("b", &two), row("a", &one)];
    let batch = PostgresStore::read_batch("q", &keys, &rows, NOW + 5).unwrap();
    assert_eq!(
        batch.values(&keys),
        vec![
            Some(Value::integer(1)),
            Some(Value::integer(2)),
            Some(Value::integer(1))
        ]
    );
    assert_eq!(
        batch.values_with_ttl(&keys, NOW + 5)[1],
        Some((Value::integer(2), Some(5)))
    );
    let later = PostgresStore::read_batch("q", &keys, &rows, NOW + 10).unwrap();
    assert_eq!(later.expired(), &vec![0usize]);
    assert!(PostgresStore::read_batch("q", &names(&["a"]), &rows, NOW).is_err());
    assert!(store
        .prepare_put_many(&names(&["x\0"]), &vec![Value::null()], None, None, NOW)
        .is_err());
}

#[test]
fn postgres_enumerations_reject_expired_rows() {
    let one = ManagedEntry::new(Value::integer(1), NOW);
    let two = ManagedEntry::with_ttl(Value::integer(2), 10, NOW).unwrap();
    let rows = vec![row("a", &one), row("b", &two)];
    assert_eq!(
        PostgresStore::list_keys(&rows, NOW).unwrap(),
        names(&["a", "b"])
    );
    assert!(PostgresStore::list_keys(&rows, NOW + 10).is_err());
    assert_eq!(
        PostgresStore::list_collections(&rows, 5, NOW).unwrap(),
        names(&["c"])
    );
    assert!(PostgresStore::check_expired(&vec![row("b", &two)], NOW + 10).is_ok());
    assert!(PostgresStore::check_expired(&rows, NOW + 10).is_err());
}

#[test]
fn postgres_statements_name_the_table() {
    let store = postgres();
    assert_eq!(
        store.select_sql(),
        "SELECT entry, expires_at FROM kv_store WHERE collection = $1 AND key = $2"
    );
    assert_eq!(store.destroy_sql(), "DROP TABLE kv_store");
    assert_eq!(
        store.lock_table_sql(),
        "LOCK TABLE kv_store IN ACCESS EXCLUSIVE MODE"
    );
}

// SQLite

#[test]
fn rusqlite_table_name_validation_is_ascii_and_sql_safe() {
    assert!(SqliteConfig::new(Some("kv_entries_2")).is_ok());
    assert!(SqliteConfig::new(Some("_entries")).is_ok());
    assert!(SqliteConfig::new(Some("2entries")).is_err());
    assert!(SqliteConfig::new(Some("entries-name")).is_err());
    assert!(SqliteConfig::new(Some("数据")).is_err());
}

#[test]
fn sqlite_names_have_their_reasons() {
    for (name, message) in [
        ("", "table name cannot be empty"),
        ("2x", "table name must start with an ASCII letter or underscore: 2x"),
        (
            "x-y",
            "table name must contain only ASCII letters, digits, and underscores: x-y",
        ),
    ] {
        assert_eq!(
            SqliteConfig::new(Some(name)),
            Err(Error::StoreSetup {
                message: message.to_string()
            })
        );
    }
    assert!(SqliteConfig::new(Some(&"a".repeat(63))).is_ok());
    assert!(SqliteConfig::new(Some(&"a".repeat(64))).is_err());
    assert_eq!(SqliteConfig::new(None).unwrap().table_name, "kv_entries");
}

// The store that keeps nothing

#[test]
fn test_null_store() {
    let mut store = NullStore::new();
    let value = Value::null();

    store.put("k", value.clone(), None, None);
    assert_eq!(store.get("k", None), None);
    assert!(!store.delete("k", None));
    assert!(store.destroy());
}

#[test]
fn null_store_answers_every_operation() {
    let mut store = NullStore::with_config(NullConfig);
    assert_eq!(store, NullStore::default());
    assert_eq!(NullClient::new(), NullClient::default());
    let keys = names(&["a", "b"]);
    store.put_many(&keys, &vec![Value::null()], None, Some(-1));
    assert_eq!(store.get_many(&keys, None), vec![None, None]);
    assert_eq!(store.ttl_many(&keys, None), vec![None, None]);
    assert_eq!(store.ttl("a", None), None);
    assert_eq!(store.delete_many(&keys, None), 0);
    store.cull();
    assert!(store.keys(None, None).is_empty());
    assert!(store.collections(None).is_empty());
    assert!(!store.destroy_collection("c"));
}

// The plain store

#[test]
fn test_simple_store_roundtrip() {
    let mut store = SimpleStore::new();
    let value = Value::integer(1);

    store.put("k", value.clone(), None, None, NOW);
    let got = store.get("k", None, NOW);
    assert_eq!(got, Some(value));
}

#[test]
fn test_simple_store_delete() {
    let mut store = SimpleStore::new();
    store.put("k", Value::null(), None, None, NOW);
    assert!(store.delete("k", None));
    assert!(!store.delete("k", None));
}

#[test]
fn test_simple_store_destroy() {
    let mut store = SimpleStore::new();
    store.put("k", Value::null(), None, None, NOW);
    assert!(store.destroy());
    assert_eq!(store.get("k", None, NOW), None);
}

#[test]
fn simple_store_batches_and_expiry() {
    let mut store = SimpleStore::with_options(Some("main".to_string()));
    let keys = names(&["a", "b", "a"]);
    let values = vec![Value::integer(1), Value::integer(2), Value::integer(3)];
    store.put_many(&keys, &values, None, Some(10), NOW).unwrap();
    assert_eq!(
        store.get_many(&keys, Some("main"), NOW),
        vec![
            Some(Value::integer(3)),
            Some(Value::integer(2)),
            Some(Value::integer(3))
        ]
    );
    assert_eq!(
        store.ttl_many(&names(&["a", "x"]), None, NOW + 4),
        vec![Some((Value::integer(3), 6)), None]
    );
    assert_eq!(store.get("a", None, NOW + 10), None);
    assert_eq!(store.keys(None, None).len(), 2);
    store.cull(NOW + 10);
    assert!(store.keys(None, None).is_empty());
    assert_eq!(store.collections(None), names(&["main"]));
    assert_eq!(
        store.put_many(&keys, &vec![Value::null()], None, None, NOW),
        Err(Error::BatchSizeMismatch { keys: 3, values: 1 })
    );
    store.put("b", Value::null(), None, Some(0), NOW);
    assert_eq!(store.get("b", None, NOW), None);
    assert!(store.delete("b", None));
    store.put("a", Value::null(), None, None, NOW);
    assert_eq!(store.ttl("a", None, NOW), Some((Value::null(), 0)));
    assert_eq!(store.delete_many(&keys, None), 1);
    assert!(store.destroy_collection("main"));
    assert!(!store.destroy_collection("main"));
}

// RocksDB

#[test]
fn store_test_rocksdb_store_roundtrip() {
    let store = RocksDBStore::with_config(RocksDBConfig::default());
    let value = Value::utf8("Alice");
    let mut db = BTreeMap::new();
    db.insert(
        store.identity("user1", None),
        RocksDBStore::prepare_put(value.clone(), None, NOW),
    );
    let bytes = db.get("default_collection:user1").unwrap().clone();
    assert!(bytes.starts_with(b"OKVE1"));
    let entry = read_reply(&RocksReply::Found(bytes), NOW).unwrap().unwrap();
    assert_eq!(entry.value, value);
}

#[test]
fn test_rocksdb_store_batch_roundtrip() {
    let store = RocksDBStore::with_config(RocksDBConfig::default());
    let keys = names(&["one", "two"]);
    let values = vec![Value::integer(1), Value::integer(2)];
    let writes = store
        .prepare_put_many(&keys, &values, None, None, NOW)
        .unwrap();
    for (write, key) in writes.iter().zip(&keys) {
        assert_eq!(write.0, store.identity(key, None));
        assert!(write.1.starts_with(b"OKVE1"));
    }
    let replies = writes
        .into_iter()
        .map(|(_, bytes)| RocksReply::Found(bytes))
        .collect();
    let read: Vec<_> = read_replies(&replies, NOW)
        .unwrap()
        .into_iter()
        .map(|entry| entry.map(|entry| entry.value))
        .collect();
    assert_eq!(read, values.into_iter().map(Some).collect::<Vec<_>>());
    assert_eq!(
        store.prepare_put_many(&names(&["a"]), &Vec::new(), None, None, NOW),
        Err(Error::BatchSizeMismatch { keys: 1, values: 0 })
    );
}

#[test]
fn test_rocksdb_batch_reads_preserve_order_and_expiration() {
    let persistent = Value::utf8("persistent");
    let expiring = Value::utf8("expiring");
    let replies = vec![
        RocksReply::Found(RocksDBStore::prepare_put(persistent.clone(), None, NOW)),
        RocksReply::Absent,
        RocksReply::Found(RocksDBStore::prepare_put(Value::null(), Some(-1_000), NOW)),
        RocksReply::Found(RocksDBStore::prepare_put(expiring.clone(), Some(60_000), NOW)),
    ];
    let results = read_replies(&replies, NOW).unwrap();
    assert_eq!(results[0].as_ref().unwrap().value, persistent);
    assert_eq!(
        RocksDBStore::remaining(results[0].as_ref().unwrap(), NOW),
        0
    );
    assert_eq!(results[1], None);
    assert_eq!(results[2], None);
    let last = results[3].as_ref().unwrap();
    assert_eq!(last.value, expiring);
    let ttl = RocksDBStore::remaining(last, NOW + 1);
    assert!(ttl > 0 && ttl <= 60_000);
}

#[test]
fn test_rocksdb_store_rejects_json_entry_payload() {
    let error = read_reply(&RocksReply::Found(br#"{"value":null}"#.to_vec()), NOW).unwrap_err();
    assert!(error.message().contains("invalid OpenKeyV entry magic"));
    assert_eq!(
        read_reply(&RocksReply::Failed("io".to_string()), NOW),
        Err(map_rocksdb_err("io".to_string()))
    );
}

#[test]
fn test_rocksdb_cull_rejects_corrupt_entry() {
    let error = is_doomed(b"corrupt", NOW).unwrap_err();
    assert!(error.message().contains("invalid OpenKeyV entry magic"));
    let entry = ManagedEntry::with_ttl(Value::null(), 5, NOW).unwrap();
    assert!(!is_doomed(&entry.encode(), NOW + 4).unwrap());
    assert!(is_doomed(&entry.encode(), NOW + 5).unwrap());
}

#[test]
fn test_rocksdb_enumeration_rejects_invalid_key_encoding() {
    let store = RocksDBStore::with_config(RocksDBConfig::default());
    let mut key = store.identity("", None).into_bytes();
    assert_eq!(key, b"default_collection:");
    key.push(0xff);
    let mut keys = store.walk_keys(None, None);
    assert!(matches!(
        keys.visit(key.clone()),
        Err(Error::Deserialization(_))
    ));
    let mut collections = store.walk_collections(None);
    assert!(matches!(
        collections.visit(key),
        Err(Error::Deserialization(_))
    ));
    assert_eq!(
        collections.visit(b"no-separator".to_vec()),
        Err(Error::Deserialization(
            "invalid RocksDB compound key".to_string()
        ))
    );
}

#[test]
fn store_test_rocksdb_store_collections() {
    let store = RocksDBStore::with_config(RocksDBConfig::default());
    let mut walk = store.walk_collections(None);
    for collection in ["c1", "c2"] {
        let key = store.identity("k", Some(collection));
        assert!(walk.visit(key.into_bytes()).unwrap());
    }
    let collections = walk.names();
    assert!(collections.contains(&"c1".to_string()));
    assert!(collections.contains(&"c2".to_string()));

    let mut walk = store.walk_collections(None);
    for key in ["c1:a", "c1:b", "c2:a"] {
        assert!(walk.visit(key.as_bytes().to_vec()).unwrap());
    }
    assert_eq!(walk.names(), names(&["c1", "c2"]));

    let mut keys = store.walk_keys(Some("c1"), Some(2));
    assert!(keys.visit(b"c1:a".to_vec()).unwrap());
    assert!(!keys.visit(b"c1:b".to_vec()).unwrap());
    assert_eq!(keys.keys(), names(&["a", "b"]));
    let mut keys = store.walk_keys(Some("c1"), None);
    assert!(!keys.visit(b"c2:a".to_vec()).unwrap());
    assert!(keys.keys().is_empty());
}

#[test]
fn store_test_rocksdb_store_destroy_collection() {
    let store = RocksDBStore::with_config(RocksDBConfig::default());
    let mut db = BTreeMap::new();
    db.insert(
        store.identity("k", Some("c1")).into_bytes(),
        RocksDBStore::prepare_put(Value::null(), None, NOW),
    );
    let doomed = |db: &BTreeMap<Vec<u8>, Vec<u8>>| {
        let mut walk = DoomedWalk::new("c1");
        for key in db.keys() {
            if !walk.visit(key.clone()) {
                break;
            }
        }
        walk.batch()
    };
    let batch = doomed(&db).unwrap();
    assert_eq!(batch, vec![b"c1:k".to_vec()]);
    for key in batch {
        db.remove(&key);
    }
    assert_eq!(doomed(&db), None);

    assert!(RocksDBStore::goes_with("c", b"c:k"));
    assert!(!RocksDBStore::goes_with("c", b"c2:k"));
    assert!(!RocksDBStore::goes_with("c", b"c"));
}

#[test]
fn destroying_a_rocksdb_collection_stops_behind_it() {
    let mut walk = DoomedWalk::new("c");
    assert!(walk.visit(b"c:a".to_vec()));
    assert!(walk.visit(vec![b'c', b':', 0xff]));
    assert!(!walk.visit(b"c1:a".to_vec()));
    assert_eq!(
        walk.batch(),
        Some(vec![b"c:a".to_vec(), vec![b'c', b':', 0xff]])
    );
}

// S3

#[test]
fn s3_listings_are_read_strictly() {
    let objects = vec![s3_key("c", "a").unwrap(), s3_key("c", "b").unwrap()];
    assert_eq!(
        S3Store::page_keys("c", &objects).unwrap(),
        names(&["a", "b"])
    );
    assert_eq!(
        S3Store::page_keys("d", &objects),
        Err(Error::InvalidKey(
            "S3 object key belongs to collection \"c\", expected \"d\"".to_string()
        ))
    );
    let collections = S3Store::page_collections(
        names(&["c"]),
        &vec![s3_key("d", "x").unwrap(), s3_key("c", "y").unwrap()],
    )
    .unwrap();
    assert_eq!(collections, names(&["c", "d"]));
    assert!(S3Store::wants_next_page(Some(true), 3, 10));
    assert!(!S3Store::wants_next_page(Some(true), 10, 10));
    assert!(!S3Store::wants_next_page(None, 3, 10));
}

fn list_page(objects: Vec<String>, truncated: bool) -> ListPage {
    ListPage {
        objects,
        truncated: Some(truncated),
        next: Some("token".to_string()),
    }
}

#[test]
fn s3_pages_say_what_follows_them() {
    let more = ListStep::More(Some("token".to_string()));
    assert_eq!(list_page(vec![], true).into_step(true), more);
    assert_eq!(list_page(vec![], true).into_step(false), ListStep::Done);
    assert_eq!(list_page(vec![], false).into_step(true), ListStep::Done);
    let unsaid = ListPage {
        objects: vec![],
        truncated: None,
        next: Some("token".to_string()),
    };
    assert_eq!(unsaid.into_step(true), ListStep::Done);
    assert_eq!(list_page(vec![], true).into_batch(), None);
    assert_eq!(
        list_page(names(&["a", "b"]), false).into_batch(),
        Some(names(&["a", "b"]))
    );
}

#[test]
fn s3_listings_go_on_until_enough_is_found() {
    let object = |key: &str| s3_key("c", key).unwrap();
    let (listing, prefix) = KeyListing::start("c", Some(3)).unwrap();
    assert!(object("a").starts_with(&prefix));
    let (listing, step) = listing
        .take_in(list_page(vec![object("a"), object("b")], true))
        .unwrap();
    assert_eq!(step, ListStep::More(Some("token".to_string())));
    let (listing, step) = listing
        .take_in(list_page(vec![object("c"), object("d")], true))
        .unwrap();
    assert_eq!(step, ListStep::Done);
    assert_eq!(listing.finish(), names(&["a", "b", "c"]));

    let (listing, step) = CollectionListing::start(None)
        .take_in(list_page(
            vec![object("a"), s3_key("d", "x").unwrap(), object("b")],
            false,
        ))
        .unwrap();
    assert_eq!(step, ListStep::Done);
    assert_eq!(listing.finish(), names(&["c", "d"]));
    assert!(CollectionListing::start(None)
        .take_in(list_page(names(&["raw"]), false))
        .is_err());
}

#[test]
fn s3_sweeps_delete_in_batches() {
    let objects: Vec<String> = (0..1_205)
        .map(|index| s3_key("c", &format!("key-{index:04}")).unwrap())
        .collect();
    let (sweep, _) = Sweep::start("c").unwrap();
    assert!(sweep.batches().is_empty());
    let (sweep, step) = sweep
        .take_in(list_page(objects[..700].to_vec(), true))
        .unwrap();
    assert_eq!(step, ListStep::More(Some("token".to_string())));
    let (sweep, step) = sweep
        .take_in(list_page(objects[700..].to_vec(), false))
        .unwrap();
    assert_eq!(step, ListStep::Done);
    let batches = sweep.batches();
    assert_eq!(batches.len(), 2);
    assert_eq!(batches[0].len(), 1_000);
    assert_eq!(batches.concat(), objects);
    assert!(sweep
        .take_in(list_page(vec![s3_key("d", "x").unwrap()], false))
        .is_err());
}

#[test]
fn s3_errors_are_told_apart() {
    assert!(is_s3_not_found("service error: NoSuchKey"));
    assert!(is_s3_not_found("HTTP 404"));
    assert!(!is_s3_not_found("AccessDenied"));
    assert!(judge_batch_delete(&Vec::new()).is_ok());
    assert_eq!(
        judge_batch_delete(&vec![DeleteFailure {
            key: Some("k".to_string()),
            code: None,
            message: Some("m".to_string()),
        }]),
        Err(Error::StoreConnection {
            message: "S3 batch delete failed: key=k code=<unknown> message=m".to_string()
        })
    );
}

#[test]
fn s3_writes_carry_stored_entries() {
    let store = S3Store::with_config(S3Config::new("bucket", None));
    assert_eq!(store.bucket_name(), "bucket");
    let writes = store
        .prepare_put_many(
            &names(&["a"]),
            &vec![Value::integer(5)],
            Some("c"),
            None,
            NOW,
        )
        .unwrap();
    assert_eq!(writes[0].0, s3_key("c", "a").unwrap());
    assert_eq!(
        ManagedEntry::decode(&writes[0].1).unwrap().value,
        Value::integer(5)
    );
}

// Vault

#[test]
fn vault_secrets_read_back() {
    let store = VaultStore::with_config(VaultConfig::new(None, None));
    let entry = ManagedEntry::with_ttl(Value::utf8("s"), 10, NOW).unwrap();
    let text = VaultStore::secret_text(&entry);
    assert_eq!(text, STANDARD.encode(entry.encode()));
    assert!(matches!(
        store.read_entry("p", &text, NOW),
        Ok(EntryRead::Live(read)) if read == entry
    ));
    assert!(matches!(
        store.read_entry("p", &text, NOW + 10),
        Ok(EntryRead::Expired)
    ));
    let reason = |text: &str| match store.read_entry("p", text, NOW) {
        Err(Error::Deserialization(message)) => message,
        _ => panic!("not refused"),
    };
    assert!(reason("not base64").contains("failed to decode base64 Vault entry"));
    assert!(reason("T0tWRTE").contains("failed to decode base64 Vault entry"));
    assert!(reason(&STANDARD.encode(br#"{"value":null}"#))
        .contains("invalid OpenKeyV entry magic"));
}

#[test]
fn vault_failures_are_judged() {
    let store = VaultStore::with_config(VaultConfig::new(None, Some("kv".to_string())));
    assert_eq!(store.mount_point(), "kv");
    assert_eq!(store.judge_read("p", Ok("t".to_string())), Ok(Some("t".to_string())));
    assert_eq!(store.judge_read("p", Err(VaultFailure::NotFound)), Ok(None));
    assert!(matches!(
        store.judge_read("p", Err(VaultFailure::Json("x".to_string()))),
        Err(Error::Deserialization(_))
    ));
    assert!(matches!(
        store.judge_write("p", Err(VaultFailure::Json("x".to_string()))),
        Err(Error::Serialization(_))
    ));
    assert!(matches!(
        store.judge_write("p", Err(VaultFailure::Other("x".to_string()))),
        Err(Error::StoreConnection { .. })
    ));
    assert_eq!(
        store.judge_presence("failed ", "p", Err(VaultFailure::NotFound)),
        Ok(false)
    );
    assert_eq!(store.judge_presence("failed ", "p", Ok(())), Ok(true));
}
