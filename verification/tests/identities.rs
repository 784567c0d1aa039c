use base64::engine::general_purpose::URL_SAFE_NO_PAD;
use base64::Engine;
use openkeyv::error::Error;
use openkeyv::store::mongodb::names::{
    collection_page, decode_collection_name, encode_collection_name, owned_collection_names,
    MAX_NAMESPACE_BYTES,
};
use openkeyv::store::mongodb::MongoDBStore;
use openkeyv::store::opensearch::names::{
    decode_document_id, decode_index_name, encode_document_id, encode_index_name, index_pattern,
};
use openkeyv::store::s3::names::{
    decompose_s3_key, s3_collection_prefix, s3_key, MAX_KEY_BYTES, SEGMENT_BYTES,
};
use openkeyv::store::vault::secret_path;
use openkeyv::utils::compound::collection_prefix;

const COLLECTION_PREFIX: &str = "okv1-";

fn max_logical_collection_bytes(database_name: &str) -> usize {
    (MAX_NAMESPACE_BYTES - database_name.len() - 1 - COLLECTION_PREFIX.len()) / 2
}

#[test]
fn mongodb_collection_transport_roundtrips_exact_logical_names() {
    let names = [
        "",
        "Users",
        "users",
        "\u{e9}",
        "e\u{301}",
        "control\n\t",
        "embedded\0nul",
        "path/colon:dot.",
        "okv1-5573657273",
    ];
    for logical in names {
        let physical = MongoDBStore::encode_collection_name("kv_store", logical).unwrap();
        assert!(physical.starts_with(COLLECTION_PREFIX));
        assert!(physical[COLLECTION_PREFIX.len()..]
            .bytes()
            .all(|byte| byte.is_ascii_hexdigit()));
        assert_eq!(
            MongoDBStore::decode_collection_name("kv_store", &physical).unwrap(),
            Some((physical, logical.to_string()))
        );
    }
}

#[test]
fn mongodb_collection_transport_rejects_malformed_owned_names() {
    assert_eq!(
        MongoDBStore::decode_collection_name("kv_store", "external").unwrap(),
        None
    );
    for malformed in ["okv1-0", "okv1-gg", "okv1-FF", "okv1-ff", "okv1-557365727S"] {
        assert!(
            matches!(
                MongoDBStore::decode_collection_name("kv_store", malformed),
                Err(Error::InvalidKey(_))
            ),
            "malformed name should fail: {malformed}"
        );
    }
}

#[test]
fn mongodb_collection_transport_enforces_namespace_boundary() {
    let database_name = "kv_store";
    let accepted = "x".repeat(max_logical_collection_bytes(database_name));
    let rejected = "x".repeat(max_logical_collection_bytes(database_name) + 1);
    let physical = MongoDBStore::encode_collection_name(database_name, &accepted).unwrap();
    assert_eq!(
        database_name.len() + 1 + physical.len(),
        MAX_NAMESPACE_BYTES - 1
    );
    assert!(matches!(
        MongoDBStore::encode_collection_name(database_name, &rejected),
        Err(Error::InvalidKey(_))
    ));
    assert!(matches!(
        MongoDBStore::decode_collection_name(
            database_name,
            &format!("{COLLECTION_PREFIX}{}", "aa".repeat(111))
        ),
        Err(Error::InvalidKey(_))
    ));
}

#[test]
fn mongodb_names_are_hexadecimal() {
    assert_eq!(
        encode_collection_name("db", "Users").unwrap(),
        "okv1-5573657273"
    );
    assert_eq!(
        decode_collection_name("db", "okv1-5573657273").unwrap(),
        Some("Users".to_string())
    );
    assert_eq!(
        owned_collection_names(
            "db",
            &vec!["other".to_string(), "okv1-61".to_string()]
        )
        .unwrap(),
        vec![("okv1-61".to_string(), "a".to_string())]
    );
}

#[test]
fn opensearch_identity_transport_is_reversible_and_bounded() {
    let collections = ["", "Users", "users", "é", "e\u{301}", "a/b:*?[x]\\\0值"];
    for collection in collections {
        let index = encode_index_name("p", collection).unwrap();
        assert_eq!(decode_index_name("p", &index).unwrap(), collection);
        assert!(index
            .bytes()
            .all(|byte| byte.is_ascii_lowercase() || byte.is_ascii_digit() || byte == b'-'));
    }
    assert_ne!(
        encode_index_name("p", "Users").unwrap(),
        encode_index_name("p", "users").unwrap()
    );
    assert_ne!(
        encode_index_name("p", "é").unwrap(),
        encode_index_name("p", "e\u{301}").unwrap()
    );

    let max_collection = "a".repeat(124);
    let max_index = encode_index_name("p", &max_collection).unwrap();
    assert_eq!(max_index.len(), 255);
    assert_eq!(decode_index_name("p", &max_index).unwrap(), max_collection);
    assert!(matches!(
        encode_index_name("p", &"a".repeat(125)),
        Err(Error::InvalidKey(_))
    ));

    let keys = ["", "Key", "key", "é", "e\u{301}", "a/b:*?[x]\\\0值"];
    for key in keys {
        let document_id = encode_document_id(key).unwrap();
        assert_eq!(decode_document_id(&document_id).unwrap(), key);
        assert!(document_id
            .bytes()
            .all(|byte| { byte.is_ascii_alphanumeric() || byte == b'-' || byte == b'_' }));
    }
    assert_ne!(
        encode_document_id("Key").unwrap(),
        encode_document_id("key").unwrap()
    );
    assert_ne!(
        encode_document_id("é").unwrap(),
        encode_document_id("e\u{301}").unwrap()
    );

    let max_key = "a".repeat(380);
    let max_document_id = encode_document_id(&max_key).unwrap();
    assert_eq!(max_document_id.len(), 512);
    assert_eq!(decode_document_id(&max_document_id).unwrap(), max_key);
    assert!(matches!(
        encode_document_id(&"a".repeat(381)),
        Err(Error::InvalidKey(_))
    ));
}

#[test]
fn opensearch_identity_transport_rejects_noncanonical_names() {
    for prefix in [
        "", "Upper", "-prefix", "_prefix", "+prefix", "prefix*", "prefix?", "prefix ",
        "prefix:", "前缀",
    ] {
        assert!(
            matches!(
                encode_index_name(prefix, "collection"),
                Err(Error::InvalidKey(_))
            ),
            "accepted invalid prefix {prefix:?}"
        );
    }
    assert!(matches!(
        encode_index_name(&"a".repeat(250), ""),
        Err(Error::InvalidKey(_))
    ));

    for index in [
        "p-users",
        "p-okv2-",
        "p-okv1-0",
        "p-okv1-4A",
        "p-okv1-gg",
        "p-okv1-ff",
        "q-okv1-61",
    ] {
        assert!(
            matches!(decode_index_name("p", index), Err(Error::InvalidKey(_))),
            "accepted invalid index {index:?}"
        );
    }
    let oversized_index = format!("p-okv1-{}", "61".repeat(125));
    assert!(matches!(
        decode_index_name("p", &oversized_index),
        Err(Error::InvalidKey(_))
    ));

    for document_id in [
        "raw-key",
        "okv2-",
        "okv1-YQ==",
        "okv1-*",
        "okv1-YR",
        "okv1-_w",
    ] {
        assert!(
            matches!(decode_document_id(document_id), Err(Error::InvalidKey(_))),
            "accepted invalid document id {document_id:?}"
        );
    }
    let oversized_document_id = format!("okv1-{}", "a".repeat(508));
    assert_eq!(oversized_document_id.len(), 513);
    assert!(matches!(
        decode_document_id(&oversized_document_id),
        Err(Error::InvalidKey(_))
    ));
}

#[test]
fn opensearch_names_have_their_exact_form() {
    assert_eq!(encode_index_name("p", "a").unwrap(), "p-okv1-61");
    assert_eq!(index_pattern("p").unwrap(), "p-*");
    assert_eq!(encode_document_id("key").unwrap(), "okv1-a2V5");
}

#[test]
fn s3_transport_roundtrips_exact_identities() {
    let cases = [
        ("a/b", "c"),
        ("a", "b/c"),
        ("a:b", "c"),
        ("a", "b:c"),
        ("Users", "Key"),
        ("users", "Key"),
        ("é", "e\u{301}"),
        ("集合", "键🔑"),
        ("", ""),
        ("space collection", "line\nnull\0/:*?[]\\"),
    ];

    for (collection, key) in cases {
        let object_key = s3_key(collection, key).unwrap();
        assert!(object_key.starts_with("okv1/"));
        assert!(object_key.bytes().all(|byte| {
            byte.is_ascii_alphanumeric() || matches!(byte, b'_' | b'-' | b'/')
        }));
        assert!(object_key
            .split('/')
            .all(|segment| segment.len() <= SEGMENT_BYTES));
        assert_eq!(
            decompose_s3_key(&object_key).unwrap(),
            (collection.to_string(), key.to_string())
        );
    }

    assert_ne!(s3_key("a/b", "c").unwrap(), s3_key("a", "b/c").unwrap());
    assert_ne!(s3_key("a:b", "c").unwrap(), s3_key("a", "b:c").unwrap());
}

#[test]
fn s3_transport_enforces_exact_object_key_limit() {
    let accepted = s3_key("a", &"k".repeat(752)).unwrap();
    assert_eq!(accepted.len(), MAX_KEY_BYTES);

    assert!(matches!(
        s3_key("a", &"k".repeat(753)),
        Err(Error::InvalidKey(_))
    ));
    assert!(matches!(
        s3_collection_prefix(&"c".repeat(1_024)),
        Err(Error::InvalidKey(_))
    ));
}

#[test]
fn s3_transport_rejects_malformed_physical_identities() {
    let collection_frame = URL_SAFE_NO_PAD.encode(collection_prefix("collection").as_bytes());
    let key = URL_SAFE_NO_PAD.encode("key");
    let valid = s3_key("collection", "key").unwrap();
    let collection_len = collection_frame.len();
    let invalid_utf8_collection = URL_SAFE_NO_PAD.encode([0xff]);
    let invalid_utf8_key = URL_SAFE_NO_PAD.encode([0xff]);
    let frame_with_key = URL_SAFE_NO_PAD.encode(b"10:collectionkey");
    let long_collection_frame =
        URL_SAFE_NO_PAD.encode(collection_prefix(&"c".repeat(200)).as_bytes());
    let split_at = SEGMENT_BYTES;
    let noncanonical_collection_chunks = format!(
        "okv1/{}/{}/{}/key/{key}",
        long_collection_frame.len(),
        &long_collection_frame[..split_at - 1],
        &long_collection_frame[split_at - 1..]
    );
    let long_key = URL_SAFE_NO_PAD.encode("k".repeat(200));
    let noncanonical_key_chunks = format!(
        "okv1/{collection_len}/{collection_frame}/key/{}//{}",
        &long_key[..SEGMENT_BYTES],
        &long_key[SEGMENT_BYTES..]
    );

    let malformed = [
        String::new(),
        "collection/key".to_string(),
        valid.replacen("okv1", "okv2", 1),
        format!("okv1//{collection_frame}/key/{key}"),
        format!("okv1/0{collection_len}/{collection_frame}/key/{key}"),
        format!("okv1/{}/{collection_frame}/key/{key}", collection_len + 1),
        format!("okv1/{}/{collection_frame}/key/{key}", collection_len - 1),
        format!("okv1/999999999/{collection_frame}/key/{key}"),
        noncanonical_collection_chunks,
        format!("okv1/{collection_len}/{collection_frame}/value/{key}"),
        format!("okv1/{collection_len}/{collection_frame}/key"),
        noncanonical_key_chunks,
        format!(
            "okv1/{collection_len}/{collection_frame}/key/{}",
            "a".repeat(201)
        ),
        format!("{valid}/"),
        format!(
            "okv1/{collection_len}/{}/key/{key}",
            "*".repeat(collection_len)
        ),
        format!("okv1/2/{invalid_utf8_collection}/key/{key}"),
        format!("okv1/{}/{frame_with_key}/key/{key}", frame_with_key.len()),
        format!("okv1/{collection_len}/{collection_frame}/key/*"),
        format!("okv1/{collection_len}/{collection_frame}/key/{invalid_utf8_key}"),
        "a".repeat(MAX_KEY_BYTES + 1),
    ];

    for object_key in malformed {
        assert!(matches!(
            decompose_s3_key(&object_key),
            Err(Error::InvalidKey(_))
        ));
    }
}

#[test]
fn vault_paths_are_collision_free_url_safe_segments() {
    let first = secret_path("a:b/集合", "c?%");
    let second = secret_path("a", "b/集合c?%");

    assert_ne!(first, second);
    assert!(first
        .bytes()
        .all(|byte| byte.is_ascii_alphanumeric() || byte == b'-' || byte == b'_'));
    assert!(second
        .bytes()
        .all(|byte| byte.is_ascii_alphanumeric() || byte == b'-' || byte == b'_'));
}

#[test]
fn vault_path_is_the_encoded_identity() {
    assert_eq!(secret_path("a", "b"), URL_SAFE_NO_PAD.encode("1:ab"));
}

#[test]
fn mongodb_collections_are_listed_by_their_logical_names() {
    let pair = |physical: &str, logical: &str| (physical.to_string(), logical.to_string());
    let owned = vec![pair("okv1-61", "a"), pair("okv1-62", "b")];
    assert_eq!(collection_page(&owned, None), vec!["a", "b"]);
    assert_eq!(collection_page(&owned, Some(1)), vec!["a"]);
    assert!(collection_page(&owned, Some(0)).is_empty());
}
