//! End-to-end tests: whole requests through the handler, the idle-session
//! sweep, the response serialization, and the record JSON form.

use objstore::auth::{AuthContext, AuthLevel};
use objstore::handler::{handle_http_request, reap_expired};
use objstore::http::MimeType;
use objstore::metadata::Metadata;
use objstore::parser::Parser;
use objstore::response::Response;
use objstore::store::MemStore;

const SECRET: &[u8] = b"test-server-secret";

fn ctx(key: &[u8], level: AuthLevel, last_used: u64) -> AuthContext {
    AuthContext {
        access_key: key.to_vec(),
        access_level: level,
        last_used,
        secret_key: b"s".to_vec(),
    }
}

fn run(store: &mut MemStore, raw: &[u8], now: u64) -> (Response, Option<objstore::storage::Object>) {
    let mut p = Parser::new();
    p.update(raw);
    assert!(p.is_done());
    handle_http_request(p, store, SECRET, now)
}

fn cookie_line(c: &AuthContext) -> Vec<u8> {
    let mut line = b"Cookie: authorization=".to_vec();
    line.extend_from_slice(&c.as_jwt(SECRET));
    line.extend_from_slice(b"\r\n");
    line
}

#[test]
fn visibility_scenario_across_sessions() {
    let mut store = MemStore::new();
    let s1 = ctx(b"s1", AuthLevel::ReadWrite, 0);
    store.sessions.put(b"s1".to_vec(), s1.duplicate());

    // S1 stores a read-restricted object.
    let mut put = b"PUT /a/b.txt HTTP/1.1\r\n".to_vec();
    put.extend_from_slice(&cookie_line(&s1));
    put.extend_from_slice(b"X-Readable-By: Read\r\nContent-Length: 6\r\n\r\nsecret");
    let (res, _) = run(&mut store, &put, 10);
    assert_eq!(res.status_code, 200);

    // A fresh anonymous session gets 404: existence is not leaked.
    let (res, obj) = run(&mut store, b"GET /a/b.txt HTTP/1.1\r\n\r\n", 11);
    assert_eq!(res.status_code, 404);
    assert!(obj.is_none());

    // A session at level Read sees it.
    let s2 = ctx(b"s2", AuthLevel::Read, 0);
    store.sessions.put(b"s2".to_vec(), s2.duplicate());
    let mut get = b"GET /a/b.txt HTTP/1.1\r\n".to_vec();
    get.extend_from_slice(&cookie_line(&s2));
    get.extend_from_slice(b"\r\n");
    let (res, obj) = run(&mut store, &get, 12);
    assert_eq!(res.status_code, 200);
    assert_eq!(obj.unwrap().get_data(), b"secret".to_vec());
}

#[test]
fn get_of_never_put_key_is_404() {
    let mut store = MemStore::new();
    let (res, obj) = run(&mut store, b"GET /nothing HTTP/1.1\r\n\r\n", 1);
    assert_eq!(res.status_code, 404);
    assert!(obj.is_none());
}

#[test]
fn anonymous_requests_get_a_session_cookie() {
    let mut store = MemStore::new();
    let (res, _) = run(&mut store, b"PUT /x HTTP/1.1\r\nContent-Length: 1\r\n\r\na", 1);
    assert_eq!(res.status_code, 200);
    assert_eq!(store.sessions.len(), 1);
    // The PUT needed authentication, so the cookie reaches the wire.
    let wire = res.as_bytes();
    let text = String::from_utf8_lossy(&wire).to_string();
    assert!(text.contains("set-cookie: authorization="));
    assert!(text.contains("; HttpOnly"));
}

#[test]
fn structurally_bad_token_is_refused() {
    let mut store = MemStore::new();
    let (res, _) = run(
        &mut store,
        b"GET /x HTTP/1.1\r\nCookie: authorization=not-a-token\r\n\r\n",
        1,
    );
    assert_eq!(res.status_code, 400);
    assert_eq!(res.body, b"Invalid Authorization Token".to_vec());
}

#[test]
fn token_upgrade_never_downgrades() {
    let mut store = MemStore::new();
    store
        .sessions
        .put(b"u".to_vec(), ctx(b"u", AuthLevel::Read, 0));

    // A token claiming ReadWrite upgrades the stored session.
    let claiming = ctx(b"u", AuthLevel::ReadWrite, 0);
    let mut get = b"GET /missing HTTP/1.1\r\n".to_vec();
    get.extend_from_slice(&cookie_line(&claiming));
    get.extend_from_slice(b"\r\n");
    run(&mut store, &get, 5);
    assert_eq!(
        store.sessions.get(b"u").unwrap().access_level,
        AuthLevel::ReadWrite
    );

    // A token claiming only Public does not downgrade it.
    let low = ctx(b"u", AuthLevel::Public, 0);
    let mut get = b"GET /missing HTTP/1.1\r\n".to_vec();
    get.extend_from_slice(&cookie_line(&low));
    get.extend_from_slice(b"\r\n");
    run(&mut store, &get, 6);
    assert_eq!(
        store.sessions.get(b"u").unwrap().access_level,
        AuthLevel::ReadWrite
    );
}

#[test]
fn empty_key_is_bad_request_except_list() {
    let mut store = MemStore::new();
    let (res, _) = run(&mut store, b"GET / HTTP/1.1\r\n\r\n", 1);
    assert_eq!(res.status_code, 400);
    assert_eq!(res.body, b"Bad request".to_vec());

    let (res, _) = run(&mut store, b"LIST / HTTP/1.1\r\n\r\n", 2);
    assert_eq!(res.status_code, 200);
    assert_eq!(res.body, b"[]".to_vec());
}

#[test]
fn conditional_get_returns_not_modified() {
    let mut store = MemStore::new();
    let s1 = ctx(b"s1", AuthLevel::ReadWrite, 0);
    store.sessions.put(b"s1".to_vec(), s1.duplicate());
    let mut put = b"PUT /f HTTP/1.1\r\n".to_vec();
    put.extend_from_slice(&cookie_line(&s1));
    put.extend_from_slice(b"Content-Length: 2\r\n\r\nhi");
    let (res, _) = run(&mut store, &put, 10);
    assert_eq!(res.status_code, 200);

    let etag = store.metas.get(b"f").unwrap().etag.clone();
    let mut get = b"GET /f HTTP/1.1\r\nIf-None-Match: ".to_vec();
    get.extend_from_slice(&etag);
    get.extend_from_slice(b"\r\n\r\n");
    let (res, obj) = run(&mut store, &get, 11);
    assert_eq!(res.status_code, 304);
    assert!(obj.is_none());

    let (res, _) = run(&mut store, b"GET /f HTTP/1.1\r\nIf-Modified-Since: 10\r\n\r\n", 12);
    assert_eq!(res.status_code, 304);
}

#[test]
fn non_public_put_needs_readwrite() {
    let mut store = MemStore::new();
    store
        .sessions
        .put(b"r".to_vec(), ctx(b"r", AuthLevel::Read, 0));
    let low = ctx(b"r", AuthLevel::Read, 0);
    let mut put = b"PUT /p HTTP/1.1\r\n".to_vec();
    put.extend_from_slice(&cookie_line(&low));
    put.extend_from_slice(b"X-Readable-By: Owner\r\nContent-Length: 1\r\n\r\nz");
    let (res, _) = run(&mut store, &put, 1);
    assert_eq!(res.status_code, 403);
    assert_eq!(res.body, b"Forbidden to write non public files".to_vec());
}

#[test]
fn reaping_deletes_only_idle_unprivileged_ownerless_sessions() {
    let mut store = MemStore::new();
    store
        .sessions
        .put(b"idle".to_vec(), ctx(b"idle", AuthLevel::Read, 100));
    store
        .sessions
        .put(b"admin".to_vec(), ctx(b"admin", AuthLevel::Admin, 100));
    store
        .sessions
        .put(b"owner".to_vec(), ctx(b"owner", AuthLevel::ReadWrite, 100));
    store
        .sessions
        .put(b"active".to_vec(), ctx(b"active", AuthLevel::Read, 2500));

    let owner = objstore::storage::Storage::new(ctx(b"owner", AuthLevel::ReadWrite, 100));
    assert!(owner.put_object(
        &mut store,
        b"kept",
        b"1",
        MimeType::TextPlain,
        AuthLevel::Public,
        100,
    ));

    reap_expired(&mut store, 2500);

    assert!(store.sessions.get(b"idle").is_none());
    assert!(store.sessions.get(b"admin").is_some());
    assert!(store.sessions.get(b"owner").is_some());
    assert!(store.sessions.get(b"active").is_some());
}

#[test]
fn response_serialization_is_exact() {
    let mut res = Response::new(200);
    res.set_header(b"x-a", b"1");
    res.set_body(b"hi".to_vec(), MimeType::TextPlain);
    let wire = res.as_bytes();
    assert_eq!(
        wire,
        b"HTTP/1.1 200 OK\r\nx-a: 1\r\ncontent-length: 2\r\ncontent-type: text/plain\r\n\r\nhi"
            .to_vec()
    );
}

#[test]
fn set_cookie_is_dropped_without_authentication() {
    let mut res = Response::new(200);
    res.set_cookie(b"authorization", b"tok", true);
    let without = String::from_utf8(res.as_bytes()).unwrap();
    assert!(!without.contains("set-cookie"));
    res.mark_required_authentication();
    let with = String::from_utf8(res.as_bytes()).unwrap();
    assert!(with.contains("set-cookie: authorization=tok; HttpOnly"));
}

#[test]
fn metadata_json_is_canonical() {
    let m = Metadata {
        name: b"b.txt".to_vec(),
        key: b"a/b.txt".to_vec(),
        size: 3,
        last_modified: 7,
        etag: b"ff".to_vec(),
        mime_type: b"text/plain".to_vec(),
        owner_id: b"o\"wn\\er".to_vec(),
        readable_by: AuthLevel::Read,
    };
    let j = objstore::json::meta_to_json(&m);
    assert_eq!(
        String::from_utf8(j).unwrap(),
        "{\"name\":\"b.txt\",\"key\":\"a/b.txt\",\"size\":3,\"last_modified\":7,\
         \"etag\":\"ff\",\"mime_type\":\"text/plain\",\"owner_id\":\"o\\\"wn\\\\er\",\
         \"readable_by\":\"Read\"}"
    );
}

#[test]
fn body_as_string_decodes_textual_bodies() {
    let mut p = Parser::new();
    p.update(b"POST /x HTTP/1.1\r\nContent-Type: text/plain\r\nContent-Length: 5\r\n\r\nhello");
    let mut r = p.consume_request().unwrap();
    r.body_as_string();
    assert_eq!(r.body, Some("hello".to_string()));
}

#[test]
fn metadata_round_trips_through_json() {
    let m = Metadata {
        name: b"we\"ird\\name\x01".to_vec(),
        key: b"dir/we\"ird".to_vec(),
        size: u64::MAX,
        last_modified: 123456789,
        etag: b"abcdef".to_vec(),
        mime_type: b"application/json".to_vec(),
        owner_id: b"owner".to_vec(),
        readable_by: AuthLevel::Owner,
    };
    let j = objstore::json::meta_to_json(&m);
    let back = objstore::json::meta_from_json(&j).unwrap();
    assert_eq!(back, m);
    assert!(objstore::json::meta_from_json(b"{\"nope\":1}").is_none());
}

#[test]
fn session_round_trips_through_json() {
    let c = ctx(b"some\x02key", AuthLevel::Admin, 42);
    let j = objstore::json::ctx_to_json(&c);
    let back = objstore::json::ctx_from_json(&j).unwrap();
    assert_eq!(back, c);
}
