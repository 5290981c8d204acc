//! Tests of access levels, sessions, the keyed store, and the
//! authorization rules of the storage engine.

use objstore::auth::{AuthContext, AuthLevel};
use objstore::metadata::Metadata;
use objstore::storage::Storage;
use objstore::store::MemStore;
use sha2::Digest;

fn ctx(key: &[u8], level: AuthLevel, last_used: u64) -> AuthContext {
    AuthContext {
        access_key: key.to_vec(),
        access_level: level,
        last_used,
        secret_key: b"s".to_vec(),
    }
}

#[test]
fn test_auth_context_jwt() {
    let auth_context = AuthContext {
        access_key: b"test".to_vec(),
        secret_key: b"None".to_vec(),
        access_level: AuthLevel::Admin,
        last_used: 0,
    };

    let auth_context_2 = AuthContext {
        access_key: b"test".to_vec(),
        secret_key: b"None".to_vec(),
        access_level: AuthLevel::Admin,
        last_used: 0,
    };

    assert_eq!(auth_context, auth_context_2);
}

#[test]
fn test_auth_level_comparison() {
    assert!(AuthLevel::Admin > AuthLevel::ReadWrite);
    assert!(AuthLevel::ReadWrite > AuthLevel::Read);
    assert!(AuthLevel::Read > AuthLevel::Public);
}

#[test]
fn level_tokens_round_trip() {
    assert_eq!(AuthLevel::from_string("Owner"), AuthLevel::Owner);
    assert_eq!(AuthLevel::from_string("nonsense"), AuthLevel::Public);
    assert_eq!(AuthLevel::Admin.to_string(), "Admin");
    assert!(AuthLevel::Public < AuthLevel::Read);
}

#[test]
fn fresh_sessions_have_random_ascii_keys() {
    let a = AuthContext::random(7);
    let b = AuthContext::random(7);
    assert_eq!(a.access_level, AuthLevel::Public);
    assert_eq!(a.last_used, 7);
    assert_eq!(a.access_key.len(), 28);
    assert!(a.access_key.iter().all(|b| *b < 128));
    assert_ne!(a.access_key, b.access_key);
}

#[test]
fn jwt_sign_and_verify_round_trip() {
    let secret = b"server-secret";
    let c = ctx(b"key-1", AuthLevel::ReadWrite, 0);
    let token = c.as_jwt(secret);
    let (id, level) = AuthContext::id_from_jwt(secret, &token);
    assert_eq!(id, Some(b"key-1".to_vec()));
    assert_eq!(level, Some(AuthLevel::ReadWrite));

    let (id2, level2) = AuthContext::id_from_jwt(b"other-secret", &token);
    assert_eq!(id2, None);
    assert_eq!(level2, None);
}

#[test]
fn traversal_ids_are_rejected() {
    let mut store = MemStore::new();
    assert!(!store.blob_save(b"../../etc/passwd".to_vec(), b"x".to_vec()));
    assert!(store.blob_load(b"../../etc/passwd").is_none());
    assert!(!store.blob_delete(b"../../etc/passwd"));
    assert!(store.blob_save(b"a/b.txt".to_vec(), b"x".to_vec()));
    assert!(store.blob_load(b"a/b.txt").is_some());

    let owner = ctx(b"o", AuthLevel::ReadWrite, 0);
    let mut store = MemStore::new();
    store.sessions.put(b"o".to_vec(), owner.duplicate());
    let storage = Storage::new(owner);
    assert!(!storage.put_object(
        &mut store,
        b"../../etc/passwd",
        b"x",
        objstore::http::MimeType::TextPlain,
        AuthLevel::Public,
        1,
    ));
    assert_eq!(store.metas.len(), 0);
}

#[test]
fn record_file_names_hash_the_id() {
    let name = objstore::store::record_file_name(b"some-id");
    let expected = format!("{}.json", hex::encode(sha2::Sha256::digest(b"some-id")));
    assert_eq!(name, expected.into_bytes());
}

#[test]
fn put_then_get_returns_the_bytes_and_digest_etag() {
    let owner = ctx(b"owner-key", AuthLevel::ReadWrite, 0);
    let mut store = MemStore::new();
    store.sessions.put(b"owner-key".to_vec(), owner.duplicate());
    let storage = Storage::new(owner);

    let data = b"hello object".to_vec();
    assert!(storage.put_object(
        &mut store,
        b"a/b.txt",
        &data,
        objstore::http::MimeType::TextPlain,
        AuthLevel::Public,
        100,
    ));

    let obj = storage.get_object(&store, b"a/b.txt", true).unwrap();
    assert_eq!(obj.get_data(), data);
    let expected_etag = hex::encode(sha2::Sha256::digest(&data));
    assert_eq!(obj.metadata.etag, expected_etag.clone().into_bytes());
    assert_eq!(obj.metadata.size, data.len() as u64);
    assert_eq!(obj.metadata.last_modified, 100);
    assert_eq!(obj.metadata.name, b"b.txt".to_vec());
    assert_eq!(obj.metadata.owner_id, b"owner-key".to_vec());

    let data2 = b"different bytes".to_vec();
    assert!(storage.put_object(
        &mut store,
        b"a/b.txt",
        &data2,
        objstore::http::MimeType::TextPlain,
        AuthLevel::Public,
        200,
    ));
    let obj2 = storage.get_object(&store, b"a/b.txt", true).unwrap();
    assert_ne!(obj2.metadata.etag, expected_etag.into_bytes());
    assert_eq!(obj2.metadata.last_modified, 200);
    assert_eq!(obj2.get_data(), data2);
}

#[test]
fn get_of_missing_key_is_none() {
    let caller = ctx(b"c", AuthLevel::Admin, 0);
    let mut store = MemStore::new();
    store.sessions.put(b"c".to_vec(), caller.duplicate());
    let storage = Storage::new(caller);
    assert!(storage.get_object(&store, b"never/put", true).is_none());
}

fn seeded_store() -> MemStore {
    let mut store = MemStore::new();
    store
        .sessions
        .put(b"owner".to_vec(), ctx(b"owner", AuthLevel::ReadWrite, 0));
    store
        .sessions
        .put(b"anon".to_vec(), ctx(b"anon", AuthLevel::Public, 0));
    store
        .sessions
        .put(b"reader".to_vec(), ctx(b"reader", AuthLevel::Read, 0));
    store
        .sessions
        .put(b"admin1".to_vec(), ctx(b"admin1", AuthLevel::Admin, 0));
    store
        .sessions
        .put(b"admin2".to_vec(), ctx(b"admin2", AuthLevel::Admin, 0));
    store
}

fn meta_owned_by(owner: &[u8], readable_by: AuthLevel) -> Metadata {
    Metadata {
        name: b"n".to_vec(),
        key: b"k".to_vec(),
        size: 1,
        last_modified: 0,
        etag: b"e".to_vec(),
        mime_type: b"text/plain".to_vec(),
        owner_id: owner.to_vec(),
        readable_by,
    }
}

#[test]
fn public_objects_are_readable_without_authentication() {
    let store = seeded_store();
    let anon = Storage::new(ctx(b"never-seen", AuthLevel::Public, 0));
    let m = meta_owned_by(b"owner", AuthLevel::Public);
    assert!(anon.is_object_readable(&store, &m));
}

#[test]
fn owner_restricted_objects_are_readable_only_by_the_owner() {
    let store = seeded_store();
    let m = meta_owned_by(b"owner", AuthLevel::Owner);

    let owner = Storage::new(ctx(b"owner", AuthLevel::ReadWrite, 0));
    assert!(owner.is_object_readable(&store, &m));

    let reader = Storage::new(ctx(b"reader", AuthLevel::Read, 0));
    assert!(!reader.is_object_readable(&store, &m));

    let anon = Storage::new(ctx(b"anon", AuthLevel::Public, 0));
    assert!(!anon.is_object_readable(&store, &m));
}

#[test]
fn read_restricted_objects_follow_rank() {
    let store = seeded_store();
    let m = meta_owned_by(b"owner", AuthLevel::Read);
    let reader = Storage::new(ctx(b"reader", AuthLevel::Read, 0));
    let anon = Storage::new(ctx(b"anon", AuthLevel::Public, 0));
    assert!(reader.is_object_readable(&store, &m));
    assert!(!anon.is_object_readable(&store, &m));
}

#[test]
fn admin_writes_any_non_admin_object_but_not_other_admins() {
    let store = seeded_store();
    let admin1 = Storage::new(ctx(b"admin1", AuthLevel::Admin, 0));

    let owned_by_user = meta_owned_by(b"owner", AuthLevel::Public);
    assert!(admin1.is_object_writable(&store, &owned_by_user));

    let owned_by_self = meta_owned_by(b"admin1", AuthLevel::Public);
    assert!(admin1.is_object_writable(&store, &owned_by_self));

    let owned_by_other_admin = meta_owned_by(b"admin2", AuthLevel::Public);
    assert!(!admin1.is_object_writable(&store, &owned_by_other_admin));

    let owner = Storage::new(ctx(b"owner", AuthLevel::ReadWrite, 0));
    let not_owned = meta_owned_by(b"reader", AuthLevel::Public);
    assert!(!owner.is_object_writable(&store, &not_owned));
    assert!(owner.is_object_writable(&store, &meta_owned_by(b"owner", AuthLevel::Public)));
}

#[test]
fn list_filters_by_readability() {
    let mut store = seeded_store();
    let owner = Storage::new(ctx(b"owner", AuthLevel::ReadWrite, 0));
    assert!(owner.put_object(
        &mut store,
        b"pub.txt",
        b"1",
        objstore::http::MimeType::TextPlain,
        AuthLevel::Public,
        1,
    ));
    assert!(owner.put_object(
        &mut store,
        b"own.txt",
        b"2",
        objstore::http::MimeType::TextPlain,
        AuthLevel::Owner,
        1,
    ));

    let anon = Storage::new(ctx(b"anon", AuthLevel::Public, 0));
    let visible = anon.list_objects(&store);
    assert_eq!(visible.len(), 1);
    assert_eq!(visible[0].key, b"pub.txt".to_vec());

    let all = owner.list_objects(&store);
    assert_eq!(all.len(), 2);
}

#[test]
fn delete_requires_writability() {
    let mut store = seeded_store();
    let owner = Storage::new(ctx(b"owner", AuthLevel::ReadWrite, 0));
    assert!(owner.put_object(
        &mut store,
        b"doc",
        b"1",
        objstore::http::MimeType::TextPlain,
        AuthLevel::Public,
        1,
    ));

    let reader = Storage::new(ctx(b"reader", AuthLevel::Read, 0));
    assert!(!reader.delete_object(&mut store, b"doc"));
    assert!(store.blob_load(b"doc").is_some());

    assert!(owner.delete_object(&mut store, b"doc"));
    assert!(store.blob_load(b"doc").is_none());
    assert!(owner.get_object(&store, b"doc", false).is_none());
}
