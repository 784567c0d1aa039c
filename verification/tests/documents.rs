use openkeyv::entry::ManagedEntry;
use openkeyv::error::Error;
use openkeyv::store::batch::prepare_writes;
use openkeyv::store::mongodb::{
    BsonField, Condition, DocumentRead, IndexDirection, IndexStage, MongoDBStore, MongoDocument,
    MongoIndex,
};
use openkeyv::store::opensearch::bulk::{judge_bulk_delete, judge_bulk_index};
use openkeyv::store::opensearch::document::{doc_to_entry, entry_to_doc};
use openkeyv::store::opensearch::purge::{Purge, PurgeAction};
use openkeyv::store::opensearch::reads::{judge_read, list_keys, read_entries, ReadOutcome};
use openkeyv::store::opensearch::reply::{
    accept_absence, BulkItem, BulkItemResult, BulkReply, ErrorBody, ErrorReply, GetBody,
    MgetDocument, SearchPage, ShardSummary,
};
use openkeyv::store::opensearch::scan::{judge_clear, IdScan, ScanAction, ScrollPage};
use openkeyv::store::opensearch::store::CullReply;
use openkeyv::store::opensearch::{OpenSearchDoc, OpenSearchStore};
use openkeyv::value::Value;

const CREATED: i64 = 1_784_000_000_000;

fn names(list: &[&str]) -> Vec<String> {
    list.iter().map(|name| name.to_string()).collect()
}

fn fixed_entry(expires_at: Option<i64>) -> ManagedEntry {
    ManagedEntry {
        value: Value::utf8("value"),
        created_at: Some(CREATED),
        expires_at,
    }
}

fn stored_document(entry: &ManagedEntry) -> MongoDocument {
    let mut document = MongoDBStore::entry_document("key", entry);
    document.insert("_id", BsonField::ObjectId(vec![0; 12]));
    document
}

#[test]
fn mongodb_document_uses_exact_binary_shape() {
    let entry = fixed_entry(Some(1_784_000_030_000));
    let document = stored_document(&entry);

    assert_eq!(document.len(), 4);
    assert!(matches!(document.get("_id"), Some(BsonField::ObjectId(_))));
    assert!(matches!(document.get("key"), Some(BsonField::Text(key)) if key == "key"));
    match document.get("entry") {
        Some(BsonField::Binary { generic, bytes, .. }) => {
            assert!(generic);
            assert_eq!(&bytes[..5], b"OKVE1");
        }
        other => panic!("not generic binary: {other:?}"),
    }
    assert!(matches!(
        document.get("expires_at"),
        Some(BsonField::DateTime(1_784_000_030_000))
    ));
    assert!(!document.contains_key("value"));
    assert!(!document.contains_key("created_at"));

    let decoded = MongoDBStore::decode_document(&document, Some("key")).unwrap();
    assert_eq!(decoded.entry, entry);
}

#[test]
fn mongodb_document_rejects_old_extra_and_malformed_fields() {
    let mut old = MongoDocument::new();
    old.insert("_id", BsonField::ObjectId(vec![0; 12]));
    old.insert("key", BsonField::Text("old".to_string()));
    old.insert("value", BsonField::Other("EmbeddedDocument".to_string()));
    old.insert("created_at", BsonField::DateTime(CREATED));
    assert!(MongoDBStore::decode_document(&old, Some("old")).is_err());

    let mut extra = stored_document(&fixed_entry(None));
    extra.insert("collection", BsonField::Text("default".to_string()));
    assert!(MongoDBStore::decode_document(&extra, Some("key")).is_err());

    let mut wrong_subtype = stored_document(&fixed_entry(None));
    wrong_subtype.insert(
        "entry",
        BsonField::Binary {
            generic: false,
            subtype: "Uuid".to_string(),
            bytes: vec![0; 16],
        },
    );
    assert!(MongoDBStore::decode_document(&wrong_subtype, Some("key")).is_err());

    let mut wrong_id = stored_document(&fixed_entry(None));
    wrong_id.insert("_id", BsonField::Text("not-an-object-id".to_string()));
    assert!(MongoDBStore::decode_document(&wrong_id, Some("key")).is_err());
}

#[test]
fn mongodb_document_rejects_expiration_mismatch() {
    let entry = fixed_entry(Some(1_784_000_030_000));
    let mut missing = stored_document(&entry);
    missing.remove("expires_at");
    assert!(MongoDBStore::decode_document(&missing, Some("key")).is_err());

    let mut different = stored_document(&entry);
    different.insert("expires_at", BsonField::DateTime(1_784_000_030_001));
    assert!(MongoDBStore::decode_document(&different, Some("key")).is_err());

    let mut unexpected = stored_document(&fixed_entry(None));
    unexpected.insert("expires_at", BsonField::DateTime(1_784_000_030_000));
    assert!(MongoDBStore::decode_document(&unexpected, Some("key")).is_err());
}

fn index(field: &str, name: &str, unique: bool, expire_after: Option<u64>) -> MongoIndex {
    MongoIndex {
        keys: vec![(field.to_string(), IndexDirection::Int32(1))],
        name: Some(name.to_string()),
        unique: if unique { Some(true) } else { None },
        expire_after,
        sparse: None,
        has_partial_filter: false,
        has_collation: false,
        hidden: None,
    }
}

fn good_indexes() -> Vec<MongoIndex> {
    vec![
        index("_id", "_id_", false, None),
        index("key", "openkeyv_key_unique", true, None),
        index("expires_at", "openkeyv_expires_ttl", false, Some(0)),
    ]
}

#[test]
fn mongodb_setup_makes_the_missing_indexes() {
    assert_eq!(
        IndexStage::start(false),
        IndexStage::Create {
            keys: true,
            expiry: true
        }
    );
    assert_eq!(IndexStage::start(false).after_creating(), IndexStage::Verify);
    let stage = IndexStage::start(true);
    assert_eq!(stage, IndexStage::Inspect);
    let mut indexes = good_indexes();
    indexes.pop();
    assert_eq!(
        stage.after_reading("c", &indexes).unwrap(),
        IndexStage::Create {
            keys: false,
            expiry: true
        }
    );
    assert_eq!(
        IndexStage::Verify.after_reading("c", &good_indexes()).unwrap(),
        IndexStage::Ready
    );
    assert_eq!(
        IndexStage::Verify.after_reading("c", &indexes),
        Err(Error::StoreSetup {
            message: "MongoDB collection c is missing required OpenKeyV indexes".to_string()
        })
    );
    let conflicting = vec![index("key", "other", true, None)];
    assert_eq!(
        IndexStage::Inspect.after_reading("c", &conflicting),
        Err(Error::StoreSetup {
            message: "MongoDB collection c has an invalid or duplicate key index".to_string()
        })
    );
    let slow = vec![index("expires_at", "openkeyv_expires_ttl", false, Some(60))];
    assert!(IndexStage::Inspect.after_reading("c", &slow).is_err());
}

#[test]
fn mongodb_batches_are_read_strictly() {
    let keys = names(&["key", "other"]);
    let live = stored_document(&fixed_entry(None));
    let batch = MongoDBStore::read_batch("q", &keys, &vec![live], CREATED).unwrap();
    assert_eq!(batch.values(&keys), vec![Some(Value::utf8("value")), None]);
    let twice = vec![
        stored_document(&fixed_entry(None)),
        stored_document(&fixed_entry(None)),
    ];
    assert!(MongoDBStore::read_batch("q", &keys, &twice, CREATED).is_err());
    assert!(MongoDBStore::read_batch("q", &names(&["x"]), &twice, CREATED).is_err());
    let expired = vec![stored_document(&fixed_entry(Some(CREATED + 5)))];
    let (listed, gone) = MongoDBStore::list_keys(&expired, 10, CREATED + 5).unwrap();
    assert!(listed.is_empty());
    assert_eq!(gone, vec![0]);
    assert!(MongoDBStore::check_expired("c", &expired, CREATED + 5).is_ok());
    assert!(MongoDBStore::check_expired("c", &expired, CREATED).is_err());
    assert!(MongoDBStore::check_writes("c", 2, 2).is_ok());
    assert_eq!(
        MongoDBStore::check_writes("c", 1, 2),
        Err(Error::StoreConnection {
            message: "MongoDB batch write for c acknowledged 1 of 2 replacements".to_string()
        })
    );
    assert_eq!(MongoDBStore::deleted_count("c", 9), Ok(9));
}

#[test]
fn opensearch_documents_roundtrip() {
    let entry = fixed_entry(Some(CREATED + 10));
    let doc = entry_to_doc(&entry);
    assert_eq!(doc.expires_at, Some(CREATED + 10));
    assert_eq!(doc_to_entry("i", "d", &doc).unwrap(), entry);
    let wrong = OpenSearchDoc {
        entry: doc.entry,
        expires_at: None,
    };
    assert!(doc_to_entry("i", "d", &wrong).is_err());
    let corrupt = OpenSearchDoc {
        entry: "e30=".to_string(),
        expires_at: None,
    };
    assert!(doc_to_entry("i", "d", &corrupt).is_err());
}

fn document(id: &str, found: bool, entry: Option<&ManagedEntry>) -> GetBody {
    GetBody::Document {
        id: id.to_string(),
        found,
        source: entry.map(entry_to_doc),
    }
}

fn absent_index() -> ErrorReply {
    ErrorReply {
        error: ErrorBody {
            kind: "index_not_found_exception".to_string(),
            reason: "gone".to_string(),
        },
        status: 404,
    }
}

#[test]
fn opensearch_reads_are_judged() {
    let entry = fixed_entry(Some(CREATED + 10));
    assert!(matches!(
        judge_read("i", "d", 200, document("d", true, Some(&entry)), CREATED),
        Ok(ReadOutcome::Live(read)) if read == entry
    ));
    assert!(matches!(
        judge_read("i", "d", 200, document("d", true, Some(&entry)), CREATED + 10),
        Ok(ReadOutcome::Expired)
    ));
    assert!(matches!(
        judge_read("i", "d", 404, document("d", false, None), CREATED),
        Ok(ReadOutcome::Absent)
    ));
    assert!(matches!(
        judge_read("i", "d", 404, GetBody::Error(absent_index()), CREATED),
        Ok(ReadOutcome::Absent)
    ));
    assert!(judge_read("i", "d", 500, GetBody::Error(absent_index()), CREATED).is_err());
    assert!(judge_read("i", "d", 200, document("e", true, Some(&entry)), CREATED).is_err());
    assert!(judge_read("i", "d", 200, document("d", true, None), CREATED).is_err());
    assert!(accept_absence("request", 404, &absent_index()).is_ok());
    assert_eq!(
        accept_absence("request", 403, &absent_index()),
        Err(Error::StoreConnection {
            message: "request failed with HTTP 403 / body status 404: \
                      index_not_found_exception: gone"
                .to_string()
        })
    );
}

fn shards(total: u64, successful: u64, failed: u64) -> ShardSummary {
    ShardSummary {
        total,
        successful,
        skipped: 0,
        failed,
    }
}

fn page(hits: &[&str]) -> SearchPage {
    SearchPage {
        timed_out: false,
        shards: shards(1, 1, 0),
        hits: names(hits),
    }
}

#[test]
fn opensearch_lists_and_batches_are_strict() {
    assert_eq!(
        list_keys("i", &page(&["okv1-a2V5"])).unwrap(),
        names(&["key"])
    );
    assert!(list_keys("i", &page(&["raw"])).is_err());
    let mut partial = page(&["okv1-a2V5"]);
    partial.timed_out = true;
    assert!(matches!(
        list_keys("i", &partial),
        Err(Error::StoreConnection { .. })
    ));

    let entry = fixed_entry(None);
    let ids = names(&["okv1-a2V5", "okv1-YQ"]);
    let answers = |first: &str| {
        vec![
            MgetDocument {
                id: first.to_string(),
                found: Some(true),
                source: Some(entry_to_doc(&entry)),
                error: None,
            },
            MgetDocument {
                id: "okv1-YQ".to_string(),
                found: Some(false),
                source: None,
                error: None,
            },
        ]
    };
    let batch = read_entries("i", &ids, &answers("okv1-a2V5"), CREATED).unwrap();
    assert_eq!(batch.values(&ids), vec![Some(Value::utf8("value")), None]);
    assert!(read_entries("i", &ids, &answers("okv1-YQ"), CREATED).is_err());
    assert!(read_entries("i", &ids, &Vec::new(), CREATED).is_err());
}

fn bulk_result(id: &str, status: u16, result: &str) -> BulkItemResult {
    BulkItemResult {
        id: id.to_string(),
        status,
        result: Some(result.to_string()),
        error: None,
        shards: Some(shards(2, 1, 0)),
    }
}

#[test]
fn opensearch_bulk_replies_are_judged() {
    let ids = names(&["a", "b"]);
    let indexed = BulkReply {
        errors: false,
        items: vec![
            BulkItem {
                index: Some(bulk_result("a", 201, "created")),
                delete: None,
            },
            BulkItem {
                index: Some(bulk_result("b", 200, "updated")),
                delete: None,
            },
        ],
    };
    assert!(judge_bulk_index("i", &ids, &indexed).is_ok());
    assert!(judge_bulk_index("i", &names(&["a"]), &indexed).is_err());
    let deleted = BulkReply {
        errors: false,
        items: vec![
            BulkItem {
                index: None,
                delete: Some(bulk_result("a", 200, "deleted")),
            },
            BulkItem {
                index: None,
                delete: Some(bulk_result("b", 404, "not_found")),
            },
        ],
    };
    assert_eq!(judge_bulk_delete("i", &ids, &deleted), Ok(1));
    assert!(judge_bulk_index("i", &ids, &deleted).is_err());
    assert!(judge_bulk_delete("i", &ids, &indexed).is_err());
}

#[test]
fn opensearch_id_scans_clear_their_scroll() {
    let scroll = |id: &str, hits: &[&str]| ScrollPage {
        scroll_id: id.to_string(),
        page: page(hits),
    };
    let (scan, action) = IdScan::start("i", scroll("s1", &["okv1-a2V5"])).unwrap();
    assert_eq!(action, ScanAction::Scroll);
    assert_eq!(scan.scroll_id(), "s1");
    let (scan, action) = scan.next(Ok(scroll("s2", &[])));
    assert_eq!(action, ScanAction::Clear);
    assert_eq!(scan.scroll_id(), "s2");
    assert_eq!(scan.finish(Ok(())), Ok(true));

    let (scan, action) = IdScan::start("i", scroll("s1", &["raw"])).unwrap();
    assert_eq!(action, ScanAction::Clear);
    assert!(scan.finish(Ok(())).is_err());
    assert!(IdScan::start("i", scroll("", &[])).is_err());
    assert!(judge_clear("s", true, 1).is_ok());
    assert!(judge_clear("s", false, 1).is_err());
}

#[test]
fn opensearch_writes_and_destruction() {
    let store = OpenSearchStore::new("p");
    let (target, documents) = store
        .prepare_put_many(
            &names(&["a", "b", "a"]),
            &vec![Value::integer(1), Value::integer(2), Value::integer(3)],
            Some("c"),
            None,
            CREATED,
        )
        .unwrap();
    assert_eq!(target, "p-okv1-63");
    assert_eq!(documents.len(), 2);
    assert_eq!(
        store
            .owned_indices(&names(&["p-okv1-63"]))
            .unwrap(),
        vec![("p-okv1-63".to_string(), "c".to_string())]
    );
    assert!(store.owned_indices(&names(&["p-users"])).is_err());
    let reply = CullReply {
        timed_out: false,
        total: 2,
        deleted: 2,
        version_conflicts: 0,
        noops: 0,
        failures: 0,
    };
    assert!(OpenSearchStore::judge_cull(&names(&["i"]), reply).is_ok());
    assert!(OpenSearchStore::judge_collection_destroyed("i", true).is_ok());
    assert!(OpenSearchStore::judge_collection_destroyed("i", false).is_err());
    assert!(OpenSearchStore::judge_destroyed(&names(&["i"]), false).is_err());
}

#[test]
fn opensearch_passes_check_everything_before_they_act() {
    let owned = || {
        vec![
            ("p-okv1-61".to_string(), "a".to_string()),
            ("p-okv1-62".to_string(), "b".to_string()),
        ]
    };
    let mut purge = Purge::start(owned());
    assert_eq!(purge.next(), PurgeAction::Validate("p-okv1-61".to_string()));
    purge.after_check(Ok(true)).unwrap();
    assert_eq!(purge.next(), PurgeAction::Validate("p-okv1-62".to_string()));
    purge.after_check(Ok(false)).unwrap();
    assert_eq!(
        purge.next(),
        PurgeAction::Act(names(&["p-okv1-61", "p-okv1-62"]))
    );

    let mut refused = Purge::start(owned());
    let fault = Error::InvalidKey("raw-key".to_string());
    assert_eq!(refused.after_check(Err(fault.clone())), Err(fault));
    assert_eq!(refused.next(), PurgeAction::Validate("p-okv1-61".to_string()));
    assert_eq!(Purge::start(Vec::new()).next(), PurgeAction::Nothing);
}

#[test]
fn opensearch_rejects_noncanonical_and_corrupt_documents() {
    let valid = ManagedEntry::with_ttl(Value::utf8("value"), 60_000, CREATED).unwrap();
    let text = entry_to_doc(&valid).entry;
    assert!(text.ends_with('='));
    let source = |entry: &str, expires_at| OpenSearchDoc {
        entry: entry.to_string(),
        expires_at,
    };
    for doc in [
        source("not base64", None),
        source(text.trim_end_matches('='), None),
        source(text.trim_end_matches('='), valid.expires_at),
        source("eyJ2YWx1ZSI6bnVsbH0=", None),
        source(&text, Some(valid.expires_at.unwrap() + 1)),
        source(&text, None),
    ] {
        assert!(matches!(
            doc_to_entry("i", "d", &doc),
            Err(Error::Deserialization(_))
        ));
    }
    assert_eq!(
        doc_to_entry("i", "d", &source(&text, valid.expires_at)),
        Ok(valid)
    );
}

#[test]
fn mongodb_conditional_cleanup_preserves_concurrent_replacement() {
    let expired = stored_document(&fixed_entry(Some(CREATED - 5_000)));
    let observed = MongoDBStore::decode_document(&expired, Some("key")).unwrap();
    let filter = observed.observed_filter();
    assert_eq!(filter.id, Condition::Id(vec![0; 12]));
    assert_eq!(filter.key, Condition::Text("key".to_string()));
    assert_eq!(filter.entry, Condition::Bytes(observed.raw_entry.clone()));
    assert_eq!(filter.expires_at, Condition::Time(CREATED - 5_000));

    let replacement = stored_document(&fixed_entry(None));
    let replaced = MongoDBStore::decode_document(&replacement, Some("key")).unwrap();
    assert_eq!(replaced.observed_filter().expires_at, Condition::Absent);
    assert_ne!(replaced.observed_filter(), filter);
}

#[test]
fn mongodb_invalid_collection_fails_before_service_access() {
    let collection = "x".repeat(111);
    assert!(matches!(
        MongoDBStore::encode_collection_name("kv_store", &collection),
        Err(Error::InvalidKey(_))
    ));
}

#[test]
fn mongodb_batch_ttl_fails_before_service_access() {
    let error = prepare_writes(
        &names(&["key"]),
        &vec![Value::utf8("value")],
        Some(0),
        CREATED,
    )
    .err();
    assert_eq!(error, Some(Error::InvalidTtl(0)));
}

#[test]
fn a_mongodb_document_is_live_until_its_entry_expires() {
    let entry = fixed_entry(Some(CREATED + 5_000));
    let document = stored_document(&entry);
    assert!(matches!(
        MongoDBStore::read_document(&document, "key", CREATED + 4_999),
        Ok(DocumentRead::Live(live)) if live == entry
    ));
    match MongoDBStore::read_document(&document, "key", CREATED + 5_000) {
        Ok(DocumentRead::Expired(stored)) => {
            assert_eq!(stored.key, "key");
            assert_eq!(stored.entry, entry);
        }
        _ => panic!("expected an expired document"),
    }
    assert!(matches!(
        MongoDBStore::read_document(&document, "other", CREATED),
        Err(Error::Deserialization(_))
    ));
}
