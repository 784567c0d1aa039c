use openkeyv::cas;
use openkeyv::change::{ChangeFilter, ChangeOperation};
use openkeyv::entry::ManagedEntry;
use openkeyv::error::Error;
use openkeyv::migration::{
    after_ttl, selected, target_collection, CopyStep, Migration, MigrationOptions,
    MigrationReport,
};
use openkeyv::protocol::{CompareAndDeleteResult, CompareAndSwapResult, Revision};
use openkeyv::store::redis::feed::{
    cursor_revision, is_internal_key, needs_first_entry, stream_change, validate_after_cursor,
    RedisChangeStream, StreamEntry, CHANGE_REVISION_KEY, CHANGE_STREAM_KEY,
};
use openkeyv::store::redis::reply::{
    decode_cad_outcome, decode_cas_outcome, read_slot, read_slots, Reply, ReplyValue,
};
use openkeyv::store::redis::store::collection_scan_pattern;
use openkeyv::store::redis::write::expected_bytes;
use openkeyv::store::redis::{map_redis_err, RedisConfig, RedisStore};
use openkeyv::store::valkey;
use openkeyv::store::valkey::{CollectionsPlan, ValkeyConfig, ValkeyStore};
use openkeyv::utils::compound::Subspace;
use openkeyv::value::Value;

const NOW: i64 = 1_784_000_000_000;

fn names(list: &[&str]) -> Vec<String> {
    list.iter().map(|name| name.to_string()).collect()
}

#[test]
fn store_scan_pattern_escapes_collection_glob_characters() {
    assert_eq!(collection_scan_pattern("*?[\\]"), r"5:\*\?\[\\\]*");
}

#[test]
fn scan_pattern_escapes_collection_glob_characters() {
    assert_eq!(
        valkey::store::collection_scan_pattern(&Subspace::default(), "*?[\\]"),
        r"5:\*\?\[\\\]*"
    );
}

#[test]
fn redis_change_cursors_require_stream_ids_with_zero_sequence() {
    assert_eq!(cursor_revision("42-0").unwrap(), 42);
    assert!(matches!(
        cursor_revision("42"),
        Err(Error::InvalidChangeCursor(_))
    ));
    assert!(matches!(
        cursor_revision("42-1"),
        Err(Error::InvalidChangeCursor(_))
    ));
    assert!(matches!(
        cursor_revision("not-a-cursor"),
        Err(Error::InvalidChangeCursor(_))
    ));
}

#[test]
fn redis_changefeed_keys_are_not_collections() {
    assert!(is_internal_key(CHANGE_STREAM_KEY));
    assert!(is_internal_key(CHANGE_REVISION_KEY));
    assert!(!is_internal_key("5:events:key"));
}

fn stream_entry(revision: u64, collection: &str) -> StreamEntry {
    StreamEntry {
        id: format!("{revision}-0"),
        revision: Some(revision),
        collection: Some(collection.to_string()),
        key: Some("k".to_string()),
        operation: Some("put".to_string()),
        occurred_at: Some(NOW.to_string()),
    }
}

#[test]
fn stream_entries_are_read_strictly() {
    let change = stream_change(&stream_entry(7, "c")).unwrap();
    assert_eq!(change.cursor.as_str(), "7-0");
    assert_eq!(change.revision, 7);
    assert_eq!(change.operation, ChangeOperation::Put);
    assert_eq!(change.occurred_at, NOW);

    let mut deleted = stream_entry(7, "c");
    deleted.operation = Some("delete".to_string());
    deleted.occurred_at = Some("-5".to_string());
    let change = stream_change(&deleted).unwrap();
    assert_eq!(change.operation, ChangeOperation::Delete);
    assert_eq!(change.occurred_at, -5);

    for text in ["x", "", "-", "9223372036854775808", "9223372036854775807", "8210266876800000"] {
        let mut bad = stream_entry(7, "c");
        bad.occurred_at = Some(text.to_string());
        assert_eq!(stream_change(&bad), Err(Error::CorruptedData));
    }
    let mut latest = stream_entry(7, "c");
    latest.occurred_at = Some("8210266876799999".to_string());
    assert!(stream_change(&latest).is_ok());
    let mut bad = stream_entry(7, "c");
    bad.operation = Some("patch".to_string());
    assert_eq!(stream_change(&bad), Err(Error::CorruptedData));
    let mut bad = stream_entry(7, "c");
    bad.revision = None;
    assert_eq!(stream_change(&bad), Err(Error::CorruptedData));
}

#[test]
fn subscribers_hear_what_they_want_and_notice_gaps() {
    let mut stream =
        RedisChangeStream::from_latest(Some("4-0"), ChangeFilter::collection("wanted")).unwrap();
    let found = stream
        .advance(&vec![
            stream_entry(5, "other"),
            stream_entry(6, "wanted"),
            stream_entry(7, "wanted"),
        ])
        .unwrap()
        .unwrap();
    assert_eq!(found.revision, 6);
    assert_eq!(stream.cursor, "6-0");
    let found = stream.advance(&vec![stream_entry(7, "wanted")]).unwrap();
    assert_eq!(found.unwrap().revision, 7);
    assert_eq!(stream.advance(&vec![stream_entry(8, "other")]), Ok(None));
    assert_eq!(
        stream.advance(&vec![stream_entry(12, "wanted")]),
        Err(Error::ChangeCursorExpired {
            requested: "8-0".to_string(),
            oldest: "12-0".to_string()
        })
    );
    assert_eq!(stream.cursor, "8-0");

    let mut from_start = RedisChangeStream::from_beginning(ChangeFilter::default());
    assert_eq!(from_start.cursor, "0-0");
    assert_eq!(
        from_start
            .advance(&vec![stream_entry(40, "c")])
            .unwrap()
            .unwrap()
            .revision,
        40
    );
}

#[test]
fn cursors_are_checked_against_the_stream() {
    assert_eq!(needs_first_entry("0-0", None), Ok(false));
    assert_eq!(needs_first_entry("4-0", Some("8-0")), Ok(true));
    assert_eq!(
        needs_first_entry("9-0", Some("8-0")),
        Err(Error::InvalidChangeCursor("9-0".to_string()))
    );
    assert!(validate_after_cursor("0-0", None, None).is_ok());
    assert!(matches!(
        validate_after_cursor("3-0", None, None),
        Err(Error::InvalidChangeCursor(_))
    ));
    assert!(matches!(
        validate_after_cursor("9-0", Some("8-0"), Some("1-0")),
        Err(Error::InvalidChangeCursor(_))
    ));
    assert!(validate_after_cursor("4-0", Some("8-0"), Some("5-0")).is_ok());
    assert_eq!(
        validate_after_cursor("3-0", Some("8-0"), Some("5-0")),
        Err(Error::ChangeCursorExpired {
            requested: "3-0".to_string(),
            oldest: "5-0".to_string()
        })
    );
    let stream =
        RedisChangeStream::from_cursor("4-0", Some("8-0"), Some("5-0"), ChangeFilter::default())
            .unwrap();
    assert_eq!(stream.last_revision, Some(4));
}

fn reply(value: ReplyValue) -> Reply {
    Reply {
        value,
        shown: "shown".to_string(),
    }
}

#[test]
fn script_answers_are_decoded() {
    let revision = Revision::from_bytes([5; 16]);
    assert_eq!(
        decode_cas_outcome(&vec![reply(ReplyValue::Int(1))], revision, NOW),
        Ok(CompareAndSwapResult::Applied { revision })
    );
    let entry = ManagedEntry::with_ttl(Value::integer(3), 10, NOW).unwrap();
    let bytes = cas::encode(&entry, revision);
    let conflict = vec![
        reply(ReplyValue::Int(0)),
        reply(ReplyValue::Bulk(bytes.clone())),
    ];
    assert!(matches!(
        decode_cas_outcome(&conflict, revision, NOW),
        Ok(CompareAndSwapResult::Conflict { current: Some(current) })
            if current.value == Value::integer(3) && current.ttl == Some(10)
    ));
    assert_eq!(
        decode_cas_outcome(&conflict, revision, NOW + 10),
        Ok(CompareAndSwapResult::Conflict { current: None })
    );
    for absent in [ReplyValue::Nil, ReplyValue::Bool(false)] {
        assert_eq!(
            decode_cad_outcome(&vec![reply(ReplyValue::Int(0)), reply(absent)], NOW),
            Ok(CompareAndDeleteResult::Conflict { current: None })
        );
    }
    assert_eq!(
        decode_cad_outcome(&vec![reply(ReplyValue::Int(1))], NOW),
        Ok(CompareAndDeleteResult::Deleted)
    );
    for (outcome, message) in [
        (
            decode_cad_outcome(&Vec::new(), NOW),
            "CAD reply missing status",
        ),
        (
            decode_cad_outcome(&vec![reply(ReplyValue::Nil)], NOW),
            "unexpected CAD status: shown",
        ),
        (
            decode_cad_outcome(
                &vec![reply(ReplyValue::Int(0)), reply(ReplyValue::Bool(true))],
                NOW,
            ),
            "unexpected CAS current value: shown",
        ),
    ] {
        assert_eq!(outcome, Err(map_redis_err(message.to_string())));
    }
    assert_eq!(
        decode_cas_outcome(&vec![reply(ReplyValue::Int(2))], revision, NOW),
        Err(map_redis_err("unexpected CAS status: shown".to_string()))
    );
}

#[test]
fn what_is_written_is_read_back() {
    let store = RedisStore::with_config(RedisConfig::default());
    let write = store
        .prepare_put("k", Value::utf8("v"), Some("c"), Some(1_500), NOW)
        .unwrap();
    assert_eq!(write.identity, "1:ck");
    assert_eq!(write.milliseconds, "1500");
    let seen = read_slot(Some(write.envelope.clone()), NOW + 500)
        .unwrap()
        .unwrap();
    assert_eq!(seen.value, Value::utf8("v"));
    assert_eq!(seen.revision, write.revision);
    assert_eq!(seen.ttl, Some(1_000));
    assert!(read_slot(Some(write.envelope.clone()), NOW + 1_500)
        .unwrap()
        .is_none());
    let seen = read_slots(vec![None, Some(write.envelope)], NOW).unwrap();
    assert!(seen[0].is_none());
    assert!(seen[1].is_some());
    assert!(read_slots(vec![Some(b"raw".to_vec())], NOW).is_err());

    let forever = store
        .prepare_put("k", Value::null(), None, None, NOW)
        .unwrap();
    assert_eq!(forever.milliseconds, "0");
    let error = store
        .prepare_put("k", Value::null(), None, Some(-1), NOW)
        .unwrap_err();
    assert_eq!(error, Error::InvalidTtl(-1));
    assert!(error.message().to_lowercase().contains("ttl"));
    assert!(expected_bytes(None).is_empty());
    assert_eq!(
        expected_bytes(Some(Revision::from_bytes([9; 16]))),
        vec![9u8; 16]
    );
}

#[test]
fn raw_payloads_and_bare_entries_are_no_envelopes() {
    let error = read_slot(Some(br#"{"value":null}"#.to_vec()), NOW).unwrap_err();
    assert!(error.message().contains("CAS envelope"));
    let mut bare = ManagedEntry::new(Value::null(), NOW).encode();
    while bare.len() < cas::PREFIX_LEN {
        bare.push(0);
    }
    let error = read_slot(Some(bare), NOW).unwrap_err();
    assert!(error.message().contains("CAS envelope magic"));
}

#[test]
fn scans_read_off_keys_and_collections() {
    let store = RedisStore::with_config(RedisConfig::new(Some("c".to_string())));
    let scan = store.scan_keys(None, None);
    let scan = scan
        .take_in(&names(&["1:cb", "1:ca", "1:cb"]))
        .unwrap();
    assert!(scan.goes_on(17));
    assert!(!scan.goes_on(0));
    assert_eq!(scan.names(), names(&["a", "b"]));

    let scan = store.scan_keys(None, Some(1)).take_in(&names(&["1:ca", "bad"]));
    assert!(!scan.unwrap().goes_on(17));
    assert!(matches!(
        store.scan_keys(None, None).take_in(&names(&["1:da"])),
        Err(Error::InvalidKey(message))
            if message == "Redis SCAN returned an identity outside collection \"c\""
    ));

    let scan = store
        .scan_collections(None)
        .take_in(&names(&["1:ca", CHANGE_STREAM_KEY, "1:db"]))
        .unwrap();
    assert_eq!(scan.names(), names(&["c", "d"]));

    assert_eq!(RedisStore::check_doomed("c", &names(&["1:ca"])), Ok(true));
    assert_eq!(RedisStore::check_doomed("c", &Vec::new()), Ok(false));
    assert!(RedisStore::check_doomed("c", &names(&["1:ca", "1:db"])).is_err());
    assert_eq!(
        store.identities(&names(&["x", "y"]), None),
        names(&["1:cx", "1:cy"])
    );
}

#[test]
fn valkey_namespaces_keep_apart() {
    let store = ValkeyStore::with_config(ValkeyConfig::default().with_keyspace("ns"));
    assert_eq!(store.identity("k", Some("c")), "2:ns1:ck");
    assert_eq!(store.registry_key(), "2:ns__openkeyv_collections");
    assert_eq!(store.keys_pattern("c"), "2:ns1:c*");
    assert_eq!(store.destroy_pattern(), Some("2:ns*".to_string()));
    let scan = store
        .scan_keys(Some("c"), None)
        .take_in(&names(&["2:ns1:ck"]))
        .unwrap();
    assert_eq!(scan.names(), names(&["k"]));
    assert!(matches!(
        store.scan_keys(Some("c"), None).take_in(&names(&["1:ck"])),
        Err(Error::InvalidKey(message))
            if message == "Valkey SCAN returned an identity outside keyspace"
    ));
    assert!(store.check_doomed("c", &names(&["1:ck"])).is_err());
    assert_eq!(
        store.plan_collections(None, None),
        CollectionsPlan::Listed(Vec::new())
    );
    assert_eq!(
        store.plan_collections(Some(names(&["a", "b"])), Some(1)),
        CollectionsPlan::Listed(names(&["a"]))
    );

    let plain = ValkeyStore::with_config(ValkeyConfig::new(None));
    assert_eq!(plain.destroy_pattern(), None);
    assert_eq!(plain.plan_collections(None, None), CollectionsPlan::Scan);
    let scan = plain
        .scan_collections()
        .take_in(&names(&["1:ca", "__openkeyv_collections"]))
        .unwrap();
    assert_eq!(scan.names(), names(&["c"]));

    let writes = plain
        .prepare_put_many(
            &names(&["a", "b"]),
            &vec![Value::integer(1), Value::integer(2)],
            Some("c"),
            Some(10_500),
            NOW,
        )
        .unwrap();
    assert_eq!(writes[1].identity, "1:cb");
    assert_eq!(writes[1].milliseconds, "10500");
    assert_ne!(writes[0].revision, writes[1].revision);
    assert!(plain
        .prepare_put_many(&Vec::new(), &Vec::new(), Some("c"), Some(10_500), NOW)
        .unwrap()
        .is_empty());
    assert_eq!(
        plain.prepare_put_many(&names(&["a"]), &Vec::new(), None, None, NOW),
        Err(Error::BatchSizeMismatch { keys: 1, values: 0 })
    );
}

#[test]
fn migrations_move_legacy_keys_once() {
    assert!(matches!(
        Migration::start(&Subspace::default(), MigrationOptions::default()),
        Err(Error::InvalidOperation(message))
            if message == "keyspace migration requires a non-empty target keyspace"
    ));

    let options = MigrationOptions {
        collection_prefix: Some(("old_".to_string(), "new_".to_string())),
        ..MigrationOptions::default()
    };
    assert!(selected(&options, "old_a"));
    assert_eq!(target_collection(&options, "old_a"), Some("new_a".to_string()));
    assert_eq!(target_collection(&options, "else"), None);

    let keyspace = Subspace::new("ns");
    let mut migration = Migration::start(&keyspace, options).unwrap();
    migration.take_in(&names(&[
        "5:old_ak1",
        "2:ns5:new_ak2",
        "4:elsek3",
        "__openkeyv_collections",
        "5:old_ak4",
    ]));
    assert_eq!(migration.len(), 2);
    let (candidate, place) = migration.candidate_at(0);
    assert_eq!(candidate.legacy, "5:old_ak1");
    assert_eq!(place, "2:ns5:new_ak1");

    assert_eq!(migration.after_presence(true), CopyStep::Present);
    assert_eq!(migration.after_presence(false), CopyStep::AskTtl);
    assert_eq!(after_ttl(-2), CopyStep::Expired);
    assert_eq!(after_ttl(0), CopyStep::Expired);
    assert_eq!(after_ttl(-1), CopyStep::Copy { ttl: None });
    assert_eq!(after_ttl(250), CopyStep::Copy { ttl: Some(250) });

    assert!(migration.settle(CopyStep::Copy { ttl: Some(250) }));
    assert!(!migration.settle(CopyStep::Expired));
    assert!(migration.settle(CopyStep::Present));
    assert_eq!(
        migration.outcome(),
        MigrationReport {
            scanned: 5,
            copied: 1,
            skipped_expired: 1
        }
    );
}
