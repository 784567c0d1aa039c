use openkeyv::error::Error;
use openkeyv::utils::compound::{
    collection_prefix, compound_key, decompound_key, subspace_compound_key,
    subspace_decompound_key, Subspace,
};

#[test]
fn canonical_identity_roundtrips_exact_strings() {
    for (collection, key) in [
        ("", ""),
        ("default", "key"),
        ("a:b", "c/d"),
        ("集合", "键🔑"),
        ("*?[\\]", ":/::"),
    ] {
        let identity = compound_key(collection, key);
        assert_eq!(decompound_key(&identity).unwrap(), (collection, key));
    }
}

#[test]
fn canonical_identity_uses_utf8_byte_length() {
    let identity = compound_key("集合", "key");

    assert_eq!(identity, "6:集合key");
    assert_eq!(collection_prefix("集合"), "6:集合");
}

#[test]
fn canonical_identity_distinguishes_collision_pairs() {
    let left = compound_key("a:b", "c");
    let right = compound_key("a", "b:c");

    assert_ne!(left, right);
    assert_eq!(decompound_key(&left).unwrap(), ("a:b", "c"));
    assert_eq!(decompound_key(&right).unwrap(), ("a", "b:c"));
}

#[test]
fn canonical_identity_preserves_case_and_unicode_normalization() {
    assert_ne!(compound_key("Users", "Key"), compound_key("users", "Key"));
    assert_ne!(compound_key("é", "key"), compound_key("e\u{301}", "key"));
}

#[test]
fn collection_prefix_matches_only_the_exact_collection_frame() {
    let prefix = collection_prefix("a:b");

    assert!(compound_key("a:b", "key").starts_with(&prefix));
    assert!(!compound_key("a", "b:key").starts_with(&prefix));
}

#[test]
fn malformed_identity_is_rejected() {
    for identity in [
        "",
        ":key",
        "x:key",
        "01:akey",
        "2:a",
        "1:ékey",
        "999999999999999999999999999999999999999999999999999999999999999999999999999999:key",
    ] {
        assert!(matches!(
            decompound_key(identity),
            Err(Error::InvalidKey(_))
        ));
    }
}

#[test]
fn each_malformed_identity_has_its_reason() {
    for (identity, reason) in [
        ("", "compound identity is missing its length delimiter"),
        (":key", "compound identity has an invalid collection length"),
        ("x:key", "compound identity has an invalid collection length"),
        ("01:akey", "compound identity has a non-canonical collection length"),
        ("99999999999999999999:key", "compound identity collection length is too large"),
        ("1:ékey", "compound identity collection length is outside a UTF-8 boundary"),
        ("2:a", "compound identity collection length is outside a UTF-8 boundary"),
    ] {
        assert_eq!(
            decompound_key(identity),
            Err(Error::InvalidKey(reason.to_string()))
        );
    }
}

#[test]
fn subspace_roundtrips_and_keeps_empty_layout_compatible() {
    let empty = Subspace::default();
    assert_eq!(subspace_compound_key(&empty, "users", "key"), "5:userskey");
    assert_eq!(
        subspace_decompound_key(&empty, "5:userskey"),
        Some(("users", "key"))
    );

    let scoped = Subspace::new("租户A");
    let identity = subspace_compound_key(&scoped, "users", "key");
    assert_eq!(identity, "7:租户A5:userskey");
    assert_eq!(
        subspace_decompound_key(&scoped, &identity),
        Some(("users", "key"))
    );
    assert_eq!(
        subspace_decompound_key(&Subspace::new("other"), &identity),
        None
    );
    assert_eq!(subspace_decompound_key(&scoped, "7:租户Abad"), None);
}

#[test]
fn subspace_scopes_plain_keys() {
    let scoped = Subspace::new("ab");
    assert!(!scoped.is_empty());
    assert_eq!(scoped.prefix(), "2:ab");
    assert_eq!(scoped.scope("__registry"), "2:ab__registry");
    assert!(Subspace::default().is_empty());
    assert_eq!(Subspace::default().prefix(), "");
    assert_eq!(Subspace::default().scope("x"), "x");
}
