use openkeyv::change::{
    ChangeCursor, ChangeFeedRequest, ChangeFilter, ChangeOperation, ChangeStart, StoreChange,
};
use openkeyv::error::{Error, Result};
use openkeyv::protocol::{
    CompareAndDeleteResult, CompareAndSwapResult, Revision, RevisionedValue,
};
use openkeyv::store::memory::client::{LiveEvent, StreamStep};
use openkeyv::store::memory::{MemoryChangeStream, MemoryConfig, MemoryStore, CHANGE_RETENTION};
use openkeyv::value::Value;

const NOW: i64 = 1_784_000_000_000;

fn names(list: &[&str]) -> Vec<String> {
    list.iter().map(|name| name.to_string()).collect()
}

/// A subscriber that hears what the store records behind its replay.
struct Feed {
    stream: MemoryChangeStream,
    heard: u64,
}

impl Feed {
    fn open(store: &MemoryStore, request: ChangeFeedRequest) -> Result<Self> {
        Ok(Feed {
            stream: store.subscribe(request)?,
            heard: store.revision(),
        })
    }

    fn recv(&mut self, store: &MemoryStore) -> Option<StoreChange> {
        match self.stream.advance() {
            StreamStep::Deliver(change) => return Some(change),
            StreamStep::Listen => {}
            _ => panic!("a replay neither fails nor ends"),
        }
        for change in store.changes_after(self.heard) {
            self.heard = change.revision;
            if let StreamStep::Deliver(change) = self.stream.hear(LiveEvent::Change(change)) {
                return Some(change);
            }
        }
        None
    }
}

fn conflict_current(result: CompareAndSwapResult) -> Option<RevisionedValue> {
    match result {
        CompareAndSwapResult::Conflict { current } => current,
        CompareAndSwapResult::Applied { .. } => None,
    }
}

#[test]
fn test_memory_store_basic() {
    let mut store = MemoryStore::new();
    let value = Value::utf8("test");

    store.put("key1", value.clone(), None, None, NOW).unwrap();
    let result = store.get("key1", None, NOW).unwrap();
    assert_eq!(result, Some(value));
}

#[test]
fn test_memory_store_enforces_collection_capacity_after_single_and_batch_puts() {
    let mut store = MemoryStore::with_options(Some(2), None, None);

    store.put("a", Value::utf8("a"), None, None, NOW).unwrap();
    store.put("b", Value::utf8("b"), None, None, NOW + 1).unwrap();
    store.put("c", Value::utf8("c"), None, None, NOW + 2).unwrap();

    assert_eq!(store.get("a", None, NOW + 2).unwrap(), None);
    assert!(store.get("b", None, NOW + 2).unwrap().is_some());
    assert!(store.get("c", None, NOW + 2).unwrap().is_some());

    store
        .put_many(
            &names(&["d", "e", "f"]),
            &vec![Value::utf8("d"), Value::utf8("e"), Value::utf8("f")],
            None,
            None,
            NOW + 3,
        )
        .unwrap();

    assert_eq!(store.get("b", None, NOW + 3).unwrap(), None);
    assert_eq!(store.get("c", None, NOW + 3).unwrap(), None);
    assert_eq!(store.get("d", None, NOW + 3).unwrap(), None);
    assert!(store.get("e", None, NOW + 3).unwrap().is_some());
    assert!(store.get("f", None, NOW + 3).unwrap().is_some());
}

#[test]
fn test_capacity_eviction_emits_delete_change() {
    let mut store = MemoryStore::with_options(Some(1), None, None);
    let mut changes = Feed::open(&store, ChangeFeedRequest::default()).unwrap();

    store.put("a", Value::utf8("a"), None, None, NOW).unwrap();
    changes.recv(&store).unwrap();
    store.put("b", Value::utf8("b"), None, None, NOW + 1).unwrap();

    let put = changes.recv(&store).unwrap();
    let delete = changes.recv(&store).unwrap();
    assert_eq!(put.key, "b");
    assert_eq!(put.operation, ChangeOperation::Put);
    assert_eq!(delete.key, "a");
    assert_eq!(delete.operation, ChangeOperation::Delete);
}

#[test]
fn test_memory_store_preserves_missing_ttl() {
    let mut store = MemoryStore::new();
    let value = Value::utf8("persistent");
    let keys = names(&["key1", "missing"]);

    store.put("key1", value.clone(), None, None, NOW).unwrap();

    assert_eq!(
        store.ttl("key1", None, NOW).unwrap(),
        Some((value.clone(), None))
    );
    assert_eq!(
        store.ttl_many(&keys, None, NOW).unwrap(),
        vec![Some((value, None)), None]
    );
}

#[test]
fn test_memory_store_ttl() {
    let mut store = MemoryStore::new();
    let value = Value::null();

    store.put("key1", value.clone(), None, Some(10), NOW).unwrap();
    assert!(store.get("key1", None, NOW).unwrap().is_some());
    assert_eq!(
        store.ttl("key1", None, NOW + 4).unwrap(),
        Some((value, Some(6)))
    );

    assert!(store.get("key1", None, NOW + 50).unwrap().is_none());
}

#[test]
fn test_memory_store_delete() {
    let mut store = MemoryStore::new();
    let value = Value::null();

    store.put("key1", value, None, None, NOW).unwrap();
    assert!(store.delete("key1", None, NOW).unwrap());
    assert!(!store.delete("key1", None, NOW).unwrap());
}

#[test]
fn test_memory_store_collections() {
    let mut store = MemoryStore::new();
    let value = Value::null();

    store.put("k", value.clone(), Some("c1"), None, NOW).unwrap();
    store.put("k", value, Some("c2"), None, NOW).unwrap();

    let cols = store.collections(None, NOW).unwrap();
    assert!(cols.contains(&"c1".to_string()));
    assert!(cols.contains(&"c2".to_string()));
}

#[test]
fn test_memory_store_bulk() {
    let mut store = MemoryStore::new();
    let v1 = Value::integer(1);
    let v2 = Value::integer(2);

    store
        .put_many(
            &names(&["k1", "k2"]),
            &vec![v1.clone(), v2.clone()],
            None,
            None,
            NOW,
        )
        .unwrap();

    let results = store.get_many(&names(&["k1", "k2"]), None, NOW).unwrap();
    assert_eq!(results, vec![Some(v1), Some(v2)]);
}

#[test]
fn test_change_feed_delivers_live_mutations_across_clones() {
    let mut store = MemoryStore::new();
    let mut changes = Feed::open(&store, ChangeFeedRequest::default()).unwrap();

    store
        .put("service-1", Value::utf8("ready"), Some("events"), None, NOW)
        .unwrap();
    store.delete("service-1", Some("events"), NOW).unwrap();

    let put = changes.recv(&store).unwrap();
    let delete = changes.recv(&store).unwrap();

    assert_eq!(put.revision, 1);
    assert_eq!(put.collection, "events");
    assert_eq!(put.key, "service-1");
    assert_eq!(put.operation, ChangeOperation::Put);
    assert_eq!(delete.revision, 2);
    assert_eq!(delete.operation, ChangeOperation::Delete);
}

#[test]
fn test_cull_emits_delete_change_for_expired_entries() {
    let mut store = MemoryStore::new();
    let mut changes = Feed::open(&store, ChangeFeedRequest::default()).unwrap();

    store
        .put("expired", Value::utf8("value"), Some("events"), Some(10), NOW)
        .unwrap();
    changes.recv(&store).unwrap();

    store.cull(NOW + 50);

    let delete = changes.recv(&store).unwrap();
    assert_eq!(delete.collection, "events");
    assert_eq!(delete.key, "expired");
    assert_eq!(delete.operation, ChangeOperation::Delete);
    assert_eq!(store.get("expired", Some("events"), NOW + 50).unwrap(), None);
}

#[test]
fn test_change_feed_replays_and_resumes_after_cursor() {
    let mut store = MemoryStore::new();
    store
        .put("event-1", Value::integer(1), Some("events"), None, NOW)
        .unwrap();
    store
        .put("event-2", Value::integer(2), Some("events"), None, NOW)
        .unwrap();

    let mut replay = Feed::open(
        &store,
        ChangeFeedRequest {
            start: ChangeStart::Beginning,
            filter: ChangeFilter::collection("events"),
        },
    )
    .unwrap();
    let first = replay.recv(&store).unwrap();
    let second = replay.recv(&store).unwrap();
    assert_eq!(first.key, "event-1");
    assert_eq!(second.key, "event-2");

    let mut resumed = Feed::open(
        &store,
        ChangeFeedRequest {
            start: ChangeStart::After(first.cursor),
            filter: ChangeFilter::collection("events"),
        },
    )
    .unwrap();
    assert_eq!(resumed.recv(&store).unwrap().key, "event-2");

    store
        .put("event-3", Value::integer(3), Some("events"), None, NOW)
        .unwrap();
    assert_eq!(resumed.recv(&store).unwrap().key, "event-3");
}

#[test]
fn test_change_feed_filters_collections_and_operations() {
    let mut store = MemoryStore::new();
    let mut changes = Feed::open(
        &store,
        ChangeFeedRequest {
            start: ChangeStart::Latest,
            filter: ChangeFilter {
                collections: names(&["events"]),
                operations: vec![ChangeOperation::Put],
            },
        },
    )
    .unwrap();

    store.put("ignored", Value::null(), Some("state"), None, NOW).unwrap();
    store.put("deleted", Value::null(), Some("events"), None, NOW).unwrap();
    store.delete("deleted", Some("events"), NOW).unwrap();
    store.put("matched", Value::null(), Some("events"), None, NOW).unwrap();

    let first = changes.recv(&store).unwrap();
    let second = changes.recv(&store).unwrap();
    assert_eq!(first.key, "deleted");
    assert_eq!(second.key, "matched");
    assert_eq!(second.operation, ChangeOperation::Put);
}

#[test]
fn test_change_feed_does_not_report_missing_delete() {
    let mut store = MemoryStore::new();
    let mut changes = Feed::open(&store, ChangeFeedRequest::default()).unwrap();

    assert!(!store.delete("missing", Some("events"), NOW).unwrap());
    assert_eq!(changes.recv(&store), None);
}

#[test]
fn test_change_feed_rejects_expired_cursor() {
    let mut store = MemoryStore::new();
    for revision in 0..=CHANGE_RETENTION {
        store
            .put(
                &format!("event-{revision}"),
                Value::integer(revision as i64),
                Some("events"),
                None,
                NOW,
            )
            .unwrap();
    }

    let result = store.subscribe(ChangeFeedRequest {
        start: ChangeStart::After(ChangeCursor::new("0")),
        filter: ChangeFilter::default(),
    });
    assert!(matches!(result, Err(Error::ChangeCursorExpired { .. })));
}

#[test]
fn test_memory_store_destroy() {
    let mut store = MemoryStore::new();
    let value = Value::null();
    store.put("k", value, None, None, NOW).unwrap();

    assert!(store.destroy());
    assert_eq!(store.get("k", None, NOW).unwrap(), None);
}

#[test]
fn test_get_with_revision_missing() {
    let mut store = MemoryStore::new();
    assert_eq!(store.get_with_revision("missing", None, NOW).unwrap(), None);
}

#[test]
fn test_cas_create_if_absent_success() {
    let mut store = MemoryStore::new();
    let result = store
        .compare_and_swap("k", None, Value::utf8("v"), None, None, NOW)
        .unwrap();
    let revision = match result {
        CompareAndSwapResult::Applied { revision } => revision,
        _ => panic!("expected applied"),
    };
    let observed = store.get_with_revision("k", None, NOW).unwrap().unwrap();
    assert_eq!(observed.value, Value::utf8("v"));
    assert_eq!(observed.revision, revision);
    assert_eq!(observed.ttl, None);
}

#[test]
fn test_cas_create_if_absent_existing_conflict() {
    let mut store = MemoryStore::new();
    store.put("k", Value::utf8("v"), None, None, NOW).unwrap();
    let current = store
        .compare_and_swap("k", None, Value::utf8("other"), None, None, NOW)
        .unwrap();
    match current {
        CompareAndSwapResult::Conflict { current: Some(rev) } => {
            assert_eq!(rev.value, Value::utf8("v"));
            assert_eq!(rev.ttl, None);
        }
        _ => panic!("expected conflict with current"),
    }
}

#[test]
fn test_cas_exact_revision_update() {
    let mut store = MemoryStore::new();
    store.put("k", Value::integer(1), None, None, NOW).unwrap();
    let observed = store.get_with_revision("k", None, NOW).unwrap().unwrap();

    let result = store
        .compare_and_swap("k", Some(&observed.revision), Value::integer(2), None, None, NOW)
        .unwrap();
    let new_revision = match result {
        CompareAndSwapResult::Applied { revision } => revision,
        _ => panic!("expected applied"),
    };
    assert_ne!(new_revision, observed.revision);

    let after = store.get_with_revision("k", None, NOW).unwrap().unwrap();
    assert_eq!(after.value, Value::integer(2));
    assert_eq!(after.revision, new_revision);
}

#[test]
fn test_cas_stale_revision_conflict() {
    let mut store = MemoryStore::new();
    store.put("k", Value::integer(1), None, None, NOW).unwrap();
    let first = store.get_with_revision("k", None, NOW).unwrap().unwrap();
    store.put("k", Value::integer(2), None, None, NOW).unwrap();

    let result = store
        .compare_and_swap("k", Some(&first.revision), Value::integer(3), None, None, NOW)
        .unwrap();
    match result {
        CompareAndSwapResult::Conflict { current: Some(rev) } => {
            assert_eq!(rev.value, Value::integer(2))
        }
        _ => panic!("expected conflict"),
    }
}

#[test]
fn test_cas_same_value_changes_revision() {
    let mut store = MemoryStore::new();
    store.put("k", Value::utf8("same"), None, None, NOW).unwrap();
    let before = store.get_with_revision("k", None, NOW).unwrap().unwrap();

    let result = store
        .compare_and_swap("k", Some(&before.revision), Value::utf8("same"), None, None, NOW)
        .unwrap();
    match result {
        CompareAndSwapResult::Applied { revision } => assert_ne!(revision, before.revision),
        _ => panic!("expected applied"),
    }
}

#[test]
fn test_cas_ttl_validation_before_mutation() {
    let mut store = MemoryStore::new();
    store.put("k", Value::utf8("v"), None, None, NOW).unwrap();
    let observed = store.get_with_revision("k", None, NOW).unwrap().unwrap();

    let err = store
        .compare_and_swap(
            "k",
            Some(&observed.revision),
            Value::utf8("v"),
            None,
            Some(-1_000),
            NOW,
        )
        .unwrap_err();
    assert!(matches!(err, Error::InvalidTtl(_)));
    let after = store.get_with_revision("k", None, NOW).unwrap().unwrap();
    assert_eq!(after.revision, observed.revision);
}

#[test]
fn test_cas_new_ttl_replaces_old_ttl() {
    let mut store = MemoryStore::new();
    store
        .put("k", Value::utf8("v"), None, Some(100_000), NOW)
        .unwrap();
    let observed = store.get_with_revision("k", None, NOW).unwrap().unwrap();
    assert!(observed.ttl.unwrap() > 0);

    let result = store
        .compare_and_swap("k", Some(&observed.revision), Value::utf8("v2"), None, None, NOW)
        .unwrap();
    assert!(matches!(result, CompareAndSwapResult::Applied { .. }));

    let after = store.get_with_revision("k", None, NOW).unwrap().unwrap();
    assert_eq!(after.value, Value::utf8("v2"));
    assert_eq!(after.ttl, None);
}

#[test]
fn test_cas_conflict_does_not_refresh_ttl() {
    let mut store = MemoryStore::new();
    store
        .put("k", Value::utf8("v"), None, Some(100_000), NOW)
        .unwrap();
    let observed = store.get_with_revision("k", None, NOW).unwrap().unwrap();
    let ttl_before = observed.ttl.unwrap();

    store
        .compare_and_swap(
            "k",
            Some(&Revision::from_bytes([0; 16])),
            Value::utf8("x"),
            None,
            None,
            NOW,
        )
        .unwrap();
    let after = store.get_with_revision("k", None, NOW).unwrap().unwrap();
    assert_eq!(after.ttl.unwrap(), ttl_before);
}

#[test]
fn test_cas_expired_treated_as_absent() {
    let mut store = MemoryStore::new();
    store.put("k", Value::utf8("v"), None, Some(10), NOW).unwrap();

    let result = store
        .compare_and_swap("k", None, Value::utf8("rebuilt"), None, None, NOW + 50)
        .unwrap();
    assert!(matches!(result, CompareAndSwapResult::Applied { .. }));

    store
        .put("exp", Value::utf8("v"), None, Some(10), NOW + 50)
        .unwrap();
    let result = store
        .compare_and_swap(
            "exp",
            Some(&Revision::from_bytes([1; 16])),
            Value::utf8("x"),
            None,
            None,
            NOW + 100,
        )
        .unwrap();
    assert!(matches!(&result, CompareAndSwapResult::Conflict { .. }));
    assert_eq!(conflict_current(result), None);
}

#[test]
fn test_compare_and_delete_success() {
    let mut store = MemoryStore::new();
    store.put("k", Value::utf8("v"), None, None, NOW).unwrap();
    let observed = store.get_with_revision("k", None, NOW).unwrap().unwrap();

    let result = store
        .compare_and_delete("k", &observed.revision, None, NOW)
        .unwrap();
    assert_eq!(result, CompareAndDeleteResult::Deleted);
    assert_eq!(store.get("k", None, NOW).unwrap(), None);
}

#[test]
fn test_compare_and_delete_stale_conflict() {
    let mut store = MemoryStore::new();
    store.put("k", Value::utf8("v"), None, None, NOW).unwrap();
    let first = store.get_with_revision("k", None, NOW).unwrap().unwrap();
    store.put("k", Value::utf8("v2"), None, None, NOW).unwrap();

    let result = store
        .compare_and_delete("k", &first.revision, None, NOW)
        .unwrap();
    match result {
        CompareAndDeleteResult::Conflict { current: Some(rev) } => {
            assert_eq!(rev.value, Value::utf8("v2"))
        }
        _ => panic!("expected conflict"),
    }
}

#[test]
fn test_compare_and_delete_missing_conflict() {
    let mut store = MemoryStore::new();
    let result = store
        .compare_and_delete("missing", &Revision::from_bytes([1; 16]), None, NOW)
        .unwrap();
    assert_eq!(result, CompareAndDeleteResult::Conflict { current: None });
}

#[test]
fn test_compare_and_delete_expired_treated_as_absent() {
    let mut store = MemoryStore::new();
    store.put("k", Value::utf8("v"), None, Some(10), NOW).unwrap();
    let observed = store.get_with_revision("k", None, NOW).unwrap().unwrap();

    let result = store
        .compare_and_delete("k", &observed.revision, None, NOW + 50)
        .unwrap();
    assert_eq!(result, CompareAndDeleteResult::Conflict { current: None });
    assert_eq!(store.get("k", None, NOW + 50).unwrap(), None);
}

#[test]
fn test_delete_recreate_rejects_stale_revision() {
    let mut store = MemoryStore::new();
    store.put("k", Value::utf8("v1"), None, None, NOW).unwrap();
    let first = store.get_with_revision("k", None, NOW).unwrap().unwrap();
    store.delete("k", None, NOW).unwrap();
    store.put("k", Value::utf8("v2"), None, None, NOW).unwrap();

    let result = store
        .compare_and_swap("k", Some(&first.revision), Value::utf8("v3"), None, None, NOW)
        .unwrap();
    match result {
        CompareAndSwapResult::Conflict { current: Some(rev) } => {
            assert_eq!(rev.value, Value::utf8("v2"))
        }
        _ => panic!("expected conflict"),
    }
}

#[test]
fn test_ordinary_put_invalidates_observed_revision() {
    let mut store = MemoryStore::new();
    store.put("k", Value::utf8("v1"), None, None, NOW).unwrap();
    let observed = store.get_with_revision("k", None, NOW).unwrap().unwrap();
    store.put("k", Value::utf8("v2"), None, None, NOW).unwrap();

    let result = store
        .compare_and_swap("k", Some(&observed.revision), Value::utf8("v3"), None, None, NOW)
        .unwrap();
    assert!(matches!(result, CompareAndSwapResult::Conflict { .. }));
}

#[test]
fn test_ordinary_put_many_invalidates_observed_revision() {
    let mut store = MemoryStore::new();
    store.put("k", Value::utf8("v1"), None, None, NOW).unwrap();
    let observed = store.get_with_revision("k", None, NOW).unwrap().unwrap();
    store
        .put_many(&names(&["k"]), &vec![Value::utf8("v2")], None, None, NOW)
        .unwrap();

    let result = store
        .compare_and_swap("k", Some(&observed.revision), Value::utf8("v3"), None, None, NOW)
        .unwrap();
    assert!(matches!(result, CompareAndSwapResult::Conflict { .. }));
}

#[test]
fn test_concurrent_cas_exactly_one_success() {
    let mut store = MemoryStore::new();
    store.put("k", Value::utf8("seed"), None, None, NOW).unwrap();
    let observed = store.get_with_revision("k", None, NOW).unwrap().unwrap();

    let mut applied = 0usize;
    for i in 0..8u8 {
        let result = store
            .compare_and_swap(
                "k",
                Some(&observed.revision),
                Value::integer(i as i64),
                None,
                None,
                NOW,
            )
            .unwrap();
        if matches!(result, CompareAndSwapResult::Applied { .. }) {
            applied += 1;
        }
    }
    assert_eq!(applied, 1);
}

#[test]
fn test_concurrent_create_if_absent_exactly_one_success() {
    let mut store = MemoryStore::new();
    let mut applied = 0usize;
    for i in 0..8u8 {
        let result = store
            .compare_and_swap("k", None, Value::integer(i as i64), None, None, NOW)
            .unwrap();
        if matches!(result, CompareAndSwapResult::Applied { .. }) {
            applied += 1;
        }
    }
    assert_eq!(applied, 1);
}

#[test]
fn test_change_feed_only_records_successful_mutations() {
    let mut store = MemoryStore::new();
    let mut changes = Feed::open(&store, ChangeFeedRequest::default()).unwrap();

    store.put("k", Value::utf8("v"), None, None, NOW).unwrap();
    let observed = store.get_with_revision("k", None, NOW).unwrap().unwrap();

    store
        .compare_and_swap(
            "k",
            Some(&Revision::from_bytes([9; 16])),
            Value::utf8("x"),
            None,
            None,
            NOW,
        )
        .unwrap();

    let first = changes.recv(&store).unwrap();
    assert_eq!(first.key, "k");
    assert_eq!(first.operation, ChangeOperation::Put);

    assert_eq!(changes.recv(&store), None);

    store
        .compare_and_swap("k", Some(&observed.revision), Value::utf8("v2"), None, None, NOW)
        .unwrap();
    let second = changes.recv(&store).unwrap();
    assert_eq!(second.key, "k");
    assert_eq!(second.operation, ChangeOperation::Put);
}

#[test]
fn a_seed_is_there_from_the_first_operation() {
    let seed = vec![(
        "cfg".to_string(),
        vec![("a".to_string(), Value::integer(1)), ("b".to_string(), Value::null())],
    )];
    let mut store = MemoryStore::with_options(None, None, Some(seed));
    assert_eq!(
        store.get("a", Some("cfg"), NOW).unwrap(),
        Some(Value::integer(1))
    );
    let mut keys = store.keys(Some("cfg"), None, NOW).unwrap();
    keys.sort();
    assert_eq!(keys, names(&["a", "b"]));
    assert!(store.destroy());
    assert_eq!(
        store.get("b", Some("cfg"), NOW).unwrap(),
        Some(Value::null())
    );
}

#[test]
fn a_batch_of_unequal_lists_is_refused() {
    let mut store = MemoryStore::new();
    assert_eq!(
        store.put_many(&names(&["a", "b"]), &vec![Value::null()], None, None, NOW),
        Err(Error::BatchSizeMismatch { keys: 2, values: 1 })
    );
    assert_eq!(
        store.put_many(&names(&["a"]), &vec![Value::null()], None, Some(0), NOW),
        Err(Error::InvalidTtl(0))
    );
    assert_eq!(store.get("a", None, NOW).unwrap(), None);
}

#[test]
fn an_empty_batch_is_put() {
    let mut store = MemoryStore::with_options(Some(1), None, None);
    store.put("a", Value::null(), None, None, NOW).unwrap();
    assert_eq!(store.put_many(&vec![], &vec![], None, None, NOW), Ok(()));
    assert_eq!(store.get("a", None, NOW).unwrap(), Some(Value::null()));
}

#[test]
fn a_swap_keeps_the_limit() {
    let mut store = MemoryStore::with_options(Some(1), None, None);
    store.put("a", Value::utf8("a"), None, None, NOW).unwrap();
    let mut changes = Feed::open(&store, ChangeFeedRequest::default()).unwrap();
    let created = store
        .compare_and_swap("b", None, Value::utf8("b"), None, None, NOW + 1)
        .unwrap();
    assert!(matches!(created, CompareAndSwapResult::Applied { .. }));
    assert_eq!(store.get("a", None, NOW + 1).unwrap(), None);
    assert_eq!(
        store.get("b", None, NOW + 1).unwrap(),
        Some(Value::utf8("b"))
    );
    assert_eq!(store.keys(None, None, NOW + 1).unwrap(), names(&["b"]));
    let put = changes.recv(&store).unwrap();
    let delete = changes.recv(&store).unwrap();
    assert_eq!((put.key.as_str(), put.operation), ("b", ChangeOperation::Put));
    assert_eq!(
        (delete.key.as_str(), delete.operation),
        ("a", ChangeOperation::Delete)
    );

    let crowded_out = store
        .compare_and_swap("a", None, Value::utf8("again"), None, None, NOW + 2)
        .unwrap();
    assert!(matches!(crowded_out, CompareAndSwapResult::Applied { .. }));
    assert_eq!(store.keys(None, None, NOW + 2).unwrap(), names(&["b"]));
}

#[test]
fn a_part_of_a_seed_is_planted_under_the_limit() {
    let seed = vec![(
        "cfg".to_string(),
        vec![("a".to_string(), Value::integer(1)), ("b".to_string(), Value::null())],
    )];
    let mut store = MemoryStore::with_options(Some(1), None, Some(seed));
    assert_eq!(store.keys(Some("cfg"), None, NOW).unwrap(), names(&["b"]));
    let revisions = vec![Revision::from_bytes([1; 16]), Revision::from_bytes([2; 16])];
    store.plant_part(0, &revisions, NOW);
    assert_eq!(store.keys(Some("cfg"), None, NOW).unwrap(), names(&["b"]));
    let seen = store
        .get_with_revision("b", Some("cfg"), NOW)
        .unwrap()
        .unwrap();
    assert_eq!(seen.value, Value::null());
    assert_eq!(seen.revision, Revision::from_bytes([2; 16]));
}

#[test]
fn pages_are_limited_and_collections_go_whole() {
    let mut store = MemoryStore::with_config(MemoryConfig {
        max_entries_per_collection: None,
        default_collection: "main".to_string(),
        seed: None,
    });
    for key in ["a", "b", "c"] {
        store.put(key, Value::null(), None, None, NOW).unwrap();
    }
    assert_eq!(store.keys(Some("main"), Some(2), NOW).unwrap().len(), 2);
    assert_eq!(store.keys(None, Some(0), NOW).unwrap().len(), 0);
    assert_eq!(store.keys(None, None, NOW).unwrap().len(), 3);
    assert_eq!(
        store.delete_many(&names(&["a", "x", "a"]), None, NOW).unwrap(),
        1
    );
    assert!(store.destroy_collection("main", NOW).unwrap());
    assert!(!store.destroy_collection("main", NOW).unwrap());
    assert_eq!(store.keys(None, None, NOW).unwrap().len(), 0);
}

#[test]
fn culling_keeps_what_is_alive() {
    let mut store = MemoryStore::new();
    store.put("old", Value::null(), None, Some(10), NOW).unwrap();
    store.put("new", Value::integer(7), None, Some(1_000), NOW).unwrap();
    store.cull(NOW + 10);
    assert_eq!(store.keys(None, None, NOW + 10).unwrap(), names(&["new"]));
    assert_eq!(
        store.get("new", None, NOW + 10).unwrap(),
        Some(Value::integer(7))
    );
}

#[test]
fn bad_cursors_are_told_from_expired_ones() {
    let mut store = MemoryStore::new();
    store.put("k", Value::null(), None, None, NOW).unwrap();
    for cursor in ["x", "5"] {
        let result = store.subscribe(ChangeFeedRequest {
            start: ChangeStart::After(ChangeCursor::new(cursor)),
            filter: ChangeFilter::default(),
        });
        assert!(matches!(result, Err(Error::InvalidChangeCursor(c)) if c == cursor));
    }
}

#[test]
fn a_subscriber_that_fell_behind_is_told() {
    let store = MemoryStore::new();
    let stream = store.subscribe(ChangeFeedRequest::default()).unwrap();
    assert!(matches!(
        stream.hear(LiveEvent::Lagged(4)),
        StreamStep::Fail(Error::ChangeFeedLagged { skipped: 4 })
    ));
    assert!(matches!(stream.hear(LiveEvent::Closed), StreamStep::End));
}
