use openkeyv::cas;
use openkeyv::entry::{EntryRead, ManagedEntry};
use openkeyv::error::Error;
use openkeyv::protocol::Revision;
use openkeyv::store::batch::{distinct_keys, last_indices, prepare_writes};
use openkeyv::utils::ttl::CALENDAR_END;
use openkeyv::value::{Value, ValueKind};

const NOW: i64 = 1_784_000_000_000;

fn names(list: &[&str]) -> Vec<String> {
    list.iter().map(|name| name.to_string()).collect()
}

#[test]
fn entries_roundtrip_with_and_without_times() {
    let plain = ManagedEntry {
        value: Value::utf8("x"),
        created_at: None,
        expires_at: None,
    };
    let dated = ManagedEntry::with_ttl(Value::integer(-7), 1_500, NOW).unwrap();
    assert_eq!(dated.expires_at, Some(NOW + 1_500));
    for entry in [plain, dated] {
        let bytes = entry.encode();
        assert_eq!(&bytes[..5], b"OKVE1");
        assert_eq!(ManagedEntry::decode(&bytes).unwrap(), entry);
    }
}

#[test]
fn corrupt_entries_are_rejected() {
    let bytes = ManagedEntry::new(Value::null(), NOW).encode();
    for end in 0..bytes.len() {
        assert!(matches!(
            ManagedEntry::decode(&bytes[..end]),
            Err(Error::Deserialization(_))
        ));
    }
    assert!(matches!(
        ManagedEntry::decode(b"{\"value\":1}"),
        Err(Error::Deserialization(_))
    ));
}

#[test]
fn entries_expire_at_their_time() {
    let entry = ManagedEntry::with_ttl(Value::null(), 10, NOW).unwrap();
    assert!(!entry.is_expired(NOW + 9));
    assert!(entry.is_expired(NOW + 10));
    assert_eq!(entry.ttl(NOW + 3), Some(7));
    assert_eq!(ManagedEntry::new(Value::null(), NOW).ttl(NOW), None);
    assert_eq!(
        ManagedEntry::with_ttl(Value::null(), 0, NOW),
        Err(Error::InvalidTtl(0))
    );
    assert_eq!(
        ManagedEntry::validate_ttl(i64::MAX, NOW),
        Err(Error::InvalidTtl(i64::MAX))
    );
    let longest = CALENDAR_END - NOW;
    assert_eq!(ManagedEntry::validate_ttl(longest, NOW), Ok(()));
    assert_eq!(
        ManagedEntry::with_ttl(Value::null(), longest, NOW).unwrap().expires_at,
        Some(CALENDAR_END)
    );
    assert_eq!(
        ManagedEntry::with_ttl(Value::null(), longest + 1, NOW),
        Err(Error::InvalidTtl(longest + 1))
    );
    assert!(matches!(
        ManagedEntry::read(&entry.encode(), NOW),
        Ok(EntryRead::Live(_))
    ));
    assert!(matches!(
        ManagedEntry::read(&entry.encode(), NOW + 10),
        Ok(EntryRead::Expired)
    ));
}

#[test]
fn envelopes_roundtrip_and_are_strict() {
    let entry = ManagedEntry::new(Value::utf8("v"), NOW);
    let revision = Revision::from_bytes([7; 16]);
    let bytes = cas::encode(&entry, revision);
    assert_eq!(&bytes[..5], b"OKVC1");
    assert_eq!(&bytes[cas::MAGIC_LEN..cas::PREFIX_LEN], &[7u8; 16]);
    let read = cas::decode(Some(bytes.clone())).unwrap().unwrap();
    assert_eq!(read.entry, entry);
    assert_eq!(read.revision, revision);
    let seen = cas::to_revisioned_value(read, NOW).unwrap();
    assert_eq!(seen.value, Value::utf8("v"));
    assert!(cas::decode(None).unwrap().is_none());
    assert!(cas::decode(Some(b"raw".to_vec())).is_err());
    assert!(cas::decode(Some(entry.encode())).is_err());
    assert!(cas::decode(Some(bytes[..20].to_vec())).is_err());
}

#[test]
fn fresh_revisions_differ() {
    let first = Revision::fresh().unwrap();
    let second = Revision::fresh().unwrap();
    assert!(!first.same_as(&second));
    assert!(first.same_as(&first));
    assert_eq!(
        Revision::from_random(Err("dry".to_string())),
        Err(Error::RevisionGeneration("dry".to_string()))
    );
    assert_eq!(
        Revision::from_random(Ok([3; 16])).unwrap().as_bytes(),
        &[3u8; 16]
    );
}

#[test]
fn batches_keep_the_last_of_each_key() {
    let keys = names(&["a", "b", "a", "c", "b"]);
    assert_eq!(last_indices(&keys), vec![2, 3, 4]);
    assert_eq!(distinct_keys(&keys), names(&["a", "b", "c"]));
    let values: Vec<Value> = (0..5).map(Value::integer).collect();
    let writes = prepare_writes(&keys, &values, Some(5), NOW).unwrap();
    let kept: Vec<(usize, Value)> = writes
        .into_iter()
        .map(|write| (write.index, write.entry.value))
        .collect();
    assert_eq!(
        kept,
        vec![
            (2, Value::integer(2)),
            (3, Value::integer(3)),
            (4, Value::integer(4))
        ]
    );
}

#[test]
fn every_error_has_its_words() {
    assert_eq!(
        Error::InvalidKey("k".to_string()).message(),
        "invalid key: k"
    );
    assert!(Error::BatchSizeMismatch { keys: 2, values: 1 }
        .message()
        .contains('2'));
    assert!(Error::ChangeCursorExpired {
        requested: "1".to_string(),
        oldest: "5".to_string()
    }
    .message()
    .contains('5'));
    assert_eq!(ValueKind::Utf8.name(), "Utf8");
}
