use this_me::encoding::b64_decode;
use this_me::json::json_field_str;
use this_me::errors::MeError;
use this_me::me::{now_rfc3339, Me};
use this_me::model::GetFilter;
use this_me::store::{MemStore, MeStore};
use this_me::validate::{validate_password, validate_username};

#[test]
fn username_rules() {
    assert!(validate_username("alice123"));
    assert!(validate_username("a.b.c2025"));
    assert!(validate_username("under_score"));
    assert!(!validate_username("abcd"));
    assert!(!validate_username("abcdefghij0123456789xy"));
    assert!(!validate_username(".alice"));
    assert!(!validate_username("_alice"));
    assert!(!validate_username("alice."));
    assert!(!validate_username("alice_"));
    assert!(!validate_username("al..ice"));
    assert!(!validate_username("al__ice"));
    assert!(!validate_username("al._ice"));
    assert!(!validate_username("al_.ice"));
    assert!(!validate_username("a.b.c.d2"));
    assert!(!validate_username("alice!23"));
    assert!(!validate_username("älice23"));
}

#[test]
fn password_rules() {
    assert!(validate_password("pw12"));
    assert!(validate_password("pw1234"));
    assert!(!validate_password("pw1"));
    assert!(!validate_password(""));
}

#[test]
fn create_validates_before_touching_store() {
    let mut store = MemStore::new();
    assert!(matches!(Me::create(&mut store, "abc", "pw1234"), Err(MeError::Validation)));
    assert!(matches!(Me::create(&mut store, "alice123", "pw1"), Err(MeError::Validation)));
    assert_eq!(store.load_keys("abc"), Err(MeError::NotFound));
}

#[test]
fn create_persists_and_returns_unlocked_identity() {
    let mut store = MemStore::new();
    let me = Me::create(&mut store, "alice123", "pw1234").unwrap();
    assert_eq!(me.username, "alice123");
    let (pk, epk) = store.load_keys("alice123").unwrap();
    assert_eq!(pk, me.public_key);
    let pk_bytes = b64_decode(&me.public_key).unwrap();
    assert_eq!(pk_bytes.len(), 32);
    let seed_bytes = b64_decode(&me.private_key_raw).unwrap();
    assert_eq!(seed_bytes.len(), 32);
    assert_ne!(me.public_key, me.private_key_raw);
    assert!(b64_decode(&epk).is_some());
    assert!(matches!(
        Me::create(&mut store, "alice123", "pw1234"),
        Err(MeError::AlreadyExists)
    ));
}

#[test]
fn end_to_end_scenario() {
    let mut store = MemStore::new();
    let created = Me::create(&mut store, "alice123", "pw1234").unwrap();

    let loaded = Me::load(&store, "alice123", "pw1234").unwrap();
    assert_eq!(loaded.context_id, created.context_id);
    assert_eq!(loaded.public_key, created.public_key);

    assert!(matches!(
        Me::load(&store, "alice123", "wrongpw"),
        Err(MeError::AuthenticationFailed)
    ));
    assert!(matches!(Me::load(&store, "bob45678", "pw1234"), Err(MeError::NotFound)));

    loaded.change_password(&mut store, "pw1234", "newpw5678").unwrap();
    assert!(matches!(
        Me::load(&store, "alice123", "pw1234"),
        Err(MeError::AuthenticationFailed)
    ));
    let reloaded = Me::load(&store, "alice123", "newpw5678").unwrap();
    assert_eq!(reloaded.context_id, created.context_id);
}

#[test]
fn tampered_record_fails_authentication() {
    let mut store = MemStore::new();
    Me::create(&mut store, "alice123", "pw1234").unwrap();
    let (_, epk) = store.load_keys("alice123").unwrap();
    let mut blob = b64_decode(&epk).unwrap();
    let mid = blob.len() / 2;
    blob[mid] ^= 0x01;
    let tampered = this_me::encoding::b64_encode(&blob);
    store.update_encrypted_private("alice123", &tampered).unwrap();
    assert!(matches!(
        Me::load(&store, "alice123", "pw1234"),
        Err(MeError::AuthenticationFailed)
    ));
}

#[test]
fn verbs_insert_and_query_through_identity() {
    let mut store = MemStore::new();
    let me = Me::create(&mut store, "alice123", "pw1234").unwrap();
    let ctx = me.context_id.clone();
    me.be(&mut store, &ctx, "mood", "curious").unwrap();
    me.have(&mut store, &ctx, "keys", "two").unwrap();
    me.do_(&mut store, &ctx, "walk", "park").unwrap();
    me.at(&mut store, &ctx, "city", "harbour").unwrap();
    me.relate(&mut store, &ctx, "friend", "bob").unwrap();
    me.react(&mut store, &ctx, "post-7", "smile").unwrap();
    me.communicate(&mut store, &ctx, "bob", "hello there").unwrap();

    let mut f = GetFilter::for_verb("all");
    f.context_id = Some(ctx.clone());
    let out = me.get(&store, &f).unwrap();
    assert_eq!(out.len(), 7);

    let mut fb = GetFilter::for_verb("be");
    fb.context_id = Some(ctx.clone());
    let be_rows = me.get(&store, &fb).unwrap();
    assert_eq!(be_rows.len(), 1);
    assert_eq!(be_rows[0].key, "mood");
    assert_eq!(be_rows[0].value, "curious");

    assert!(matches!(
        me.insert(&mut store, "sing", &ctx, "k", "v"),
        Err(MeError::Validation)
    ));
}

#[test]
fn create_identity_records_prepared_material() {
    let mut store = MemStore::new();
    Me::create_identity(&mut store, "carol.x9", "encrypted-blob", "public-key").unwrap();
    let (pk, epk) = store.load_keys("carol.x9").unwrap();
    assert_eq!(pk, "public-key");
    assert_eq!(epk, "encrypted-blob");
    assert!(matches!(
        Me::create_identity(&mut store, "carol.x9", "b", "p"),
        Err(MeError::AlreadyExists)
    ));
}

#[test]
fn with_keys_derives_context() {
    let a = Me::with_keys("alice123", "pk", "raw-key");
    let b = Me::with_keys("bob45678", "pk2", "raw-key");
    assert_eq!(a.context_id, b.context_id);
    assert_eq!(a.context_id, Me::derive_context("raw-key"));
}

#[test]
fn timestamps_are_nonempty_iso_text() {
    let t = now_rfc3339();
    assert!(t.contains('T'));
    assert!(t.len() >= 20);
}

#[test]
fn error_messages_name_their_cause() {
    assert_eq!(MeError::Validation.message(), "validation error");
    assert_eq!(MeError::AlreadyExists.message(), "identity already exists");
    assert_eq!(MeError::NotFound.message(), "identity does not exist");
    assert_eq!(MeError::AuthenticationFailed.message(), "authentication failed");
    assert_eq!(MeError::EncryptionFailed.message(), "encryption failed");
    assert_eq!(MeError::StoreConnectivity.message(), "store connectivity failure");
    assert_eq!(MeError::Serialization.message(), "serialization error");
}

#[test]
fn json_field_lookup() {
    assert_eq!(
        json_field_str("{\"shade\":\"red\",\"n\":1}", "shade"),
        Some("red".to_string())
    );
    assert_eq!(json_field_str("{\"shade\":\"red\"}", "hue"), None);
    assert_eq!(json_field_str("{\"n\":1}", "n"), None);
    assert_eq!(json_field_str("not json", "shade"), None);
    assert_eq!(json_field_str("[1,2,3]", "shade"), None);
}
