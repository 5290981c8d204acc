//! Request handling: resolve the caller's session from the signed cookie,
//! route the request by method and key, drive the storage engine, and
//! assemble the response. The whole outcome — status code, store effects,
//! and the object to stream — is stated as a function of the request, the
//! session and the store.

use vstd::prelude::*;
use vstd::string::StringSliceAdditionalSpecFns;

use crate::auth::{level_le, level_of_token, AuthContext, AuthContextV, AuthLevel};
use crate::bytes::{dec_digits, sub_vec};
use crate::http::{Method, MimeType};
use crate::metadata::MetadataV;
use crate::parser::{invalid_model, Parser};
use crate::request::{header_lookup, hview, ReqModel, Request};
use crate::response::Response;
use crate::storage::{new_meta, object_readable, object_writable, put_allowed, Object, Storage};
use crate::store::{assoc_delete, assoc_lookup, assoc_set, id_is_safe, MemStore};
use crate::wrappers::jwt_claims_of;

verus! {

/// The uri with every leading `/` removed: the storage key of a request.
pub open spec fn strip_slashes(s: Seq<u8>) -> Seq<u8>
    decreases s.len(),
{
    if s.len() > 0 && s[0] == 47 {
        strip_slashes(s.drop_first())
    } else {
        s
    }
}

/// `strip_slashes` is the suffix from the first byte that is not `/`.
proof fn lemma_strip_slashes(s: Seq<u8>, i: int)
    requires
        0 <= i <= s.len(),
        forall|j: int| 0 <= j < i ==> s[j] == 47,
        i < s.len() ==> s[i] != 47,
    ensures
        strip_slashes(s) == s.skip(i),
    decreases i,
{
    if i > 0 {
        lemma_strip_slashes(s.drop_first(), i - 1);
        assert(s.drop_first().skip(i - 1) =~= s.skip(i));
    } else {
        assert(s.skip(0) =~= s);
    }
}

/// Remove the leading `/`s of a uri.
pub fn strip_slashes_of(s: &[u8]) -> (r: Vec<u8>)
    ensures
        r@ == strip_slashes(s@),
{
    let mut i: usize = 0;
    while i < s.len() && s[i] == 47
        invariant
            0 <= i <= s.len(),
            forall|j: int| 0 <= j < i ==> s@[j] == 47,
        decreases s.len() - i,
    {
        i += 1;
    }
    proof {
        lemma_strip_slashes(s@, i as int);
    }
    sub_vec(s, i, s.len())
}

/// The storage key of a request.
pub open spec fn req_key(r: ReqModel) -> Seq<u8> {
    strip_slashes(r.uri)
}

/// The visibility a PUT asks for through `X-Readable-By`: `Owner`, `Read`
/// or `Public` are honoured, anything else — and no header — means
/// `Public`.
pub open spec fn x_readable_level(r: ReqModel) -> AuthLevel {
    match header_lookup(r.headers, "x-readable-by".spec_bytes()) {
        Some(v) => {
            if v == "Owner".spec_bytes() {
                AuthLevel::Owner
            } else if v == "Read".spec_bytes() {
                AuthLevel::Read
            } else {
                AuthLevel::Public
            }
        },
        None => AuthLevel::Public,
    }
}

/// The contents of the three tables of a store, as one spec value.
pub ghost struct StoreV {
    pub sessions: Seq<(Seq<u8>, AuthContextV)>,
    pub metas: Seq<(Seq<u8>, MetadataV)>,
    pub blobs: Seq<(Seq<u8>, Seq<u8>)>,
}

/// The contents of a store.
pub open spec fn store_view(st: &MemStore) -> StoreV {
    StoreV { sessions: st.sessions@, metas: st.metas@, blobs: st.blobs@ }
}

/// Whether a GET or HEAD of `key` can see an object: present and
/// readable; a GET additionally needs the payload loadable.
pub open spec fn get_visible(s: AuthContextV, key: Seq<u8>, st: StoreV) -> bool {
    match assoc_lookup(st.metas, key) {
        Some(m) => object_readable(s, m, st.sessions),
        None => false,
    }
}

/// Whether a GET of `key` can deliver the payload.
pub open spec fn get_loadable(s: AuthContextV, key: Seq<u8>, st: StoreV) -> bool {
    get_visible(s, key, st) && id_is_safe(key) && assoc_lookup(st.blobs, key) is Some
}

/// The status a GET of `key` answers: missing, unreadable or unloadable
/// objects are `404` without distinction; a matching `If-None-Match` or
/// `If-Modified-Since` is `304`; otherwise `200`.
pub open spec fn get_status(s: AuthContextV, r: ReqModel, key: Seq<u8>, st: StoreV) -> u16 {
    if !get_loadable(s, key, st) {
        404
    } else {
        let m = assoc_lookup(st.metas, key)->Some_0;
        if header_lookup(r.headers, "if-none-match".spec_bytes()) == Some(m.etag) {
            304
        } else if header_lookup(r.headers, "if-modified-since".spec_bytes()) == Some(
            dec_digits(m.last_modified as nat),
        ) {
            304
        } else {
            200
        }
    }
}

/// Whether the `X-Readable-By` gate turns a PUT away: asking for a
/// non-public visibility needs at least `ReadWrite`.
pub open spec fn put_gate_refuses(s: AuthContextV, r: ReqModel) -> bool {
    x_readable_level(r) != AuthLevel::Public && !level_le(AuthLevel::ReadWrite, s.access_level)
}

/// The status a PUT or POST answers.
pub open spec fn put_status(s: AuthContextV, r: ReqModel, key: Seq<u8>, st: StoreV) -> u16 {
    if put_gate_refuses(s, r) {
        403
    } else if put_allowed(s, key, st.metas, st.sessions) {
        200
    } else {
        400
    }
}

/// Whether a DELETE of `key` goes through: an object is there, the
/// caller may write it, and the blob can be removed.
pub open spec fn delete_works(s: AuthContextV, key: Seq<u8>, st: StoreV) -> bool {
    (assoc_lookup(st.metas, key) matches Some(m) && object_writable(s, m, st.sessions))
        && id_is_safe(key) && assoc_lookup(st.blobs, key) is Some
}

/// The status a DELETE answers: below `ReadWrite` it is turned away.
pub open spec fn delete_status(s: AuthContextV, key: Seq<u8>, st: StoreV) -> u16 {
    if !level_le(AuthLevel::ReadWrite, s.access_level) {
        403
    } else if delete_works(s, key, st) {
        200
    } else {
        400
    }
}

/// Whether a request's key is empty where one is required: every method
/// but LIST and TRACE works on a key.
pub open spec fn empty_key_refused(r: ReqModel) -> bool {
    req_key(r).len() == 0 && r.method != Method::LIST && r.method != Method::TRACE
}

/// The status the storage engine answers for a whole request; `prev` is
/// the status already on the response, which methods outside the routing
/// table leave alone.
pub open spec fn storage_status(s: AuthContextV, r: ReqModel, st: StoreV, prev: u16) -> u16 {
    let key = req_key(r);
    if empty_key_refused(r) {
        400
    } else {
        match r.method {
            Method::GET => get_status(s, r, key, st),
            Method::PUT => put_status(s, r, key, st),
            Method::POST => put_status(s, r, key, st),
            Method::DELETE => delete_status(s, key, st),
            Method::HEAD => if get_visible(s, key, st) {
                200
            } else {
                404
            },
            Method::LIST => 200,
            Method::TRACE => 200,
            _ => prev,
        }
    }
}

/// The descriptor table after a request: only an admitted PUT, POST or
/// DELETE changes it.
pub open spec fn metas_after(s: AuthContextV, r: ReqModel, st: StoreV, now: u64) -> Seq<
    (Seq<u8>, MetadataV),
> {
    let key = req_key(r);
    if empty_key_refused(r) {
        st.metas
    } else {
        match r.method {
            Method::PUT | Method::POST => {
                if !put_gate_refuses(s, r) && put_allowed(s, key, st.metas, st.sessions) {
                    assoc_set(
                        st.metas,
                        key,
                        new_meta(s, key, r.raw_body, req_mime(r), x_readable_level(r), now),
                    )
                } else {
                    st.metas
                }
            },
            Method::DELETE => {
                if level_le(AuthLevel::ReadWrite, s.access_level) && (assoc_lookup(st.metas, key)
                    matches Some(m) && object_writable(s, m, st.sessions)) {
                    assoc_delete(st.metas, key)
                } else {
                    st.metas
                }
            },
            _ => st.metas,
        }
    }
}

/// The blob table after a request.
pub open spec fn blobs_after(s: AuthContextV, r: ReqModel, st: StoreV, now: u64) -> Seq<
    (Seq<u8>, Seq<u8>),
> {
    let key = req_key(r);
    if empty_key_refused(r) {
        st.blobs
    } else {
        match r.method {
            Method::PUT | Method::POST => {
                if !put_gate_refuses(s, r) && put_allowed(s, key, st.metas, st.sessions) {
                    assoc_set(st.blobs, key, r.raw_body)
                } else {
                    st.blobs
                }
            },
            Method::DELETE => {
                if level_le(AuthLevel::ReadWrite, s.access_level) && (assoc_lookup(st.metas, key)
                    matches Some(m) && object_writable(s, m, st.sessions)) && id_is_safe(key) {
                    assoc_delete(st.blobs, key)
                } else {
                    st.blobs
                }
            },
            _ => st.blobs,
        }
    }
}

/// The MIME type a request declares, octet-stream when none.
pub open spec fn req_mime(r: ReqModel) -> MimeType {
    match r.mime_type {
        Some(m) => m,
        None => MimeType::ApplicationOctetStream,
    }
}

/// Route one parsed request through the storage engine, acting for the
/// given session. The response takes the status `storage_status` says;
/// the store's tables change exactly as `metas_after` and `blobs_after`
/// say; the session's `last_used` is refreshed and re-persisted whatever
/// the outcome; and a successful GET hands back the object whose bytes
/// are to follow the response.
pub fn handle_storage(
    req: &Request,
    res: Response,
    auth_context: AuthContext,
    store: &mut MemStore,
    now: u64,
) -> (r: (Response, Option<Object>))
    ensures
        r.0.status_code == storage_status(auth_context@, req@, store_view(old(store)), res.status_code),
        final(store).metas@ == metas_after(auth_context@, req@, store_view(old(store)), now),
        final(store).blobs@ == blobs_after(auth_context@, req@, store_view(old(store)), now),
        final(store).sessions@ == assoc_set(
            old(store).sessions@,
            auth_context@.access_key,
            (AuthContextV { last_used: now, ..auth_context@ }),
        ),
        (match r.1 {
            Some(obj) => req@.method == Method::GET && r.0.status_code == 200 && (assoc_lookup(
                old(store).metas@,
                req_key(req@),
            ) matches Some(m) && obj.metadata@ == m) && (assoc_lookup(
                old(store).blobs@,
                req_key(req@),
            ) matches Some(d) && (obj.data matches Some(dd) && dd@ == d)),
            None => !(req@.method == Method::GET && r.0.status_code == 200 && !empty_key_refused(
                req@,
            )),
        }),
{
    let mut res = res;
    let storage = Storage::new(auth_context.duplicate());
    let key = strip_slashes_of(req.uri.as_slice());

    let mut obj: Option<Object> = None;
    if key.len() == 0 && !matches!(req.method, Method::LIST) && !matches!(req.method, Method::TRACE) {
        res.set_status_code(400);
        res.set_body(crate::bytes::lit_vec("Bad request"), MimeType::TextPlain);
    } else {
        match req.method {
            Method::GET => {
                match storage.get_object(store, key.as_slice(), true) {
                    Some(object) => {
                        if !matches!(object.metadata.readable_by, AuthLevel::Public) {
                            res.mark_required_authentication();
                        }
                        let mut not_modified = false;
                        match crate::request::headers_get(&req.headers, "if-none-match".as_bytes()) {
                            Some(inm) => {
                                if crate::bytes::bytes_eq(
                                    inm.as_slice(),
                                    object.metadata.etag.as_slice(),
                                ) {
                                    not_modified = true;
                                }
                            },
                            None => {},
                        }
                        if !not_modified {
                            let lm = crate::bytes::render_dec(object.metadata.last_modified);
                            match crate::request::headers_get(
                                &req.headers,
                                "if-modified-since".as_bytes(),
                            ) {
                                Some(ims) => {
                                    if crate::bytes::bytes_eq(ims.as_slice(), lm.as_slice()) {
                                        not_modified = true;
                                    }
                                },
                                None => {},
                            }
                        }
                        if not_modified {
                            res.set_status_code(304);
                            res.set_body(
                                crate::bytes::lit_vec("Not modified"),
                                MimeType::TextPlain,
                            );
                        } else {
                            match crate::request::headers_get(&req.headers, "accept".as_bytes()) {
                                Some(accept) => {
                                    if crate::bytes::bytes_eq(
                                        accept.as_slice(),
                                        "application/octet-stream".as_bytes(),
                                    ) {
                                        let mut cd = crate::bytes::lit_vec(
                                            "attachment; filename=\"",
                                        );
                                        cd.extend_from_slice(object.metadata.name.as_slice());
                                        cd.extend_from_slice("\"".as_bytes());
                                        res.set_header("Content-Disposition".as_bytes(), cd.as_slice());
                                    }
                                },
                                None => {},
                            }
                            res.set_status_code(200);
                            let lm = crate::bytes::render_dec(object.metadata.last_modified);
                            res.set_header("last-modified".as_bytes(), lm.as_slice());
                            res.set_header("etag".as_bytes(), object.metadata.etag.as_slice());
                            let dlen: usize = match &object.data {
                                Some(d) => d.len(),
                                None => 0,
                            };
                            let cl = crate::bytes::render_dec(dlen as u64);
                            res.set_header("content-length".as_bytes(), cl.as_slice());
                            res.set_header(
                                "content-type".as_bytes(),
                                object.metadata.mime_type.as_slice(),
                            );
                            obj = Some(object);
                        }
                    },
                    None => {
                        res.set_status_code(404);
                        res.set_body(
                            crate::bytes::lit_vec("Not found / Forbidden"),
                            MimeType::TextPlain,
                        );
                    },
                }
            },
            Method::PUT | Method::POST => {
                res.mark_required_authentication();
                let mut readable_by = AuthLevel::Public;
                match crate::request::headers_get(&req.headers, "x-readable-by".as_bytes()) {
                    Some(v) => {
                        if crate::bytes::bytes_eq(v.as_slice(), "Owner".as_bytes()) {
                            readable_by = AuthLevel::Owner;
                        } else if crate::bytes::bytes_eq(v.as_slice(), "Read".as_bytes()) {
                            readable_by = AuthLevel::Read;
                        } else {
                            readable_by = AuthLevel::Public;
                        }
                    },
                    None => {},
                }
                proof {
                    assert(readable_by == x_readable_level(req@));
                }
                if !matches!(readable_by, AuthLevel::Public) && auth_context.access_level.lt(
                    &AuthLevel::ReadWrite,
                ) {
                    res.set_status_code(403);
                    res.set_body(
                        crate::bytes::lit_vec("Forbidden to write non public files"),
                        MimeType::TextPlain,
                    );
                } else {
                    let mime = match req.mime_type {
                        Some(m) => m,
                        None => MimeType::default(),
                    };
                    if storage.put_object(
                        store,
                        key.as_slice(),
                        req.raw_body.as_slice(),
                        mime,
                        readable_by,
                        now,
                    ) {
                        res.set_status_code(200);
                    } else {
                        res.set_status_code(400);
                        res.set_body(
                            crate::bytes::lit_vec("Failed to save"),
                            MimeType::TextPlain,
                        );
                    }
                }
            },
            Method::DELETE => {
                res.mark_required_authentication();
                if auth_context.access_level.lt(&AuthLevel::ReadWrite) {
                    res.set_status_code(403);
                    res.set_body(crate::bytes::lit_vec("Forbidden"), MimeType::TextPlain);
                } else {
                    if storage.delete_object(store, key.as_slice()) {
                        res.set_status_code(200);
                    } else {
                        res.set_status_code(400);
                        res.set_body(
                            crate::bytes::lit_vec("Failed to delete"),
                            MimeType::TextPlain,
                        );
                    }
                }
            },
            Method::HEAD => {
                match storage.get_object(store, key.as_slice(), false) {
                    Some(object) => {
                        if !matches!(object.metadata.readable_by, AuthLevel::Public) {
                            res.mark_required_authentication();
                        }
                        res.set_status_code(200);
                        let mut cd = crate::bytes::lit_vec("attachment; filename=\"");
                        cd.extend_from_slice(object.metadata.name.as_slice());
                        cd.extend_from_slice("\"".as_bytes());
                        res.set_header("Content-Disposition".as_bytes(), cd.as_slice());
                        let lm = crate::bytes::render_dec(object.metadata.last_modified);
                        res.set_header("Last-Modified".as_bytes(), lm.as_slice());
                        res.set_header("Etag".as_bytes(), object.metadata.etag.as_slice());
                        res.set_header(
                            "Content-Type".as_bytes(),
                            object.metadata.mime_type.as_slice(),
                        );
                        let sz = crate::bytes::render_dec(object.metadata.size);
                        res.set_header("Content-Length".as_bytes(), sz.as_slice());
                    },
                    None => {
                        res.set_status_code(404);
                        res.set_body(crate::bytes::lit_vec("Not Found"), MimeType::TextPlain);
                    },
                }
            },
            Method::LIST | Method::TRACE => {
                res.mark_required_authentication();
                let objects = storage.list_objects(store);
                let json = crate::json::metas_to_json(&objects);
                res.set_status_code(200);
                res.set_body(json, MimeType::ApplicationJson);
            },
            _ => {},
        }
    }

    let mut ctx = auth_context;
    ctx.update_last_used(now);
    let akey = sub_vec(ctx.access_key.as_slice(), 0, ctx.access_key.len());
    proof {
        assert(akey@ =~= ctx.access_key@);
    }
    store.sessions.put(akey, ctx);
    (res, obj)
}


/// The `authorization` cookie of a request, if any.
pub open spec fn token_of(r: ReqModel) -> Option<Seq<u8>> {
    match r.cookies {
        Some(cs) => header_lookup(cs, "authorization".spec_bytes()),
        None => None,
    }
}

/// `c` raised to `lvl` when `lvl` ranks strictly higher; a session's
/// level never goes down.
pub open spec fn upgraded(c: AuthContextV, lvl: AuthLevel) -> AuthContextV {
    if c.access_level.rank_spec() < lvl.rank_spec() {
        AuthContextV { access_level: lvl, ..c }
    } else {
        c
    }
}

/// What the cookie resolves to: `None` for a token whose signature or
/// shape fails (answered with a refusal); `Some(None)` when a fresh
/// session must be issued (no cookie, or the named session is gone);
/// `Some(Some(c))` for the stored session, upgraded to the level the
/// token claims when that is higher.
pub open spec fn resolution(
    r: ReqModel,
    secret: Seq<u8>,
    sessions: Seq<(Seq<u8>, AuthContextV)>,
) -> Option<Option<AuthContextV>> {
    match token_of(r) {
        None => Some(None),
        Some(t) => match jwt_claims_of(secret, t) {
            None => None,
            Some(p) => match assoc_lookup(sessions, p.0) {
                None => Some(None),
                Some(stored) => Some(Some(upgraded(stored, level_of_token(p.1)))),
            },
        },
    }
}

/// The session table once the resolved session's upgrade, if any, has
/// been persisted.
pub open spec fn sessions_mid(
    r: ReqModel,
    secret: Seq<u8>,
    sessions: Seq<(Seq<u8>, AuthContextV)>,
) -> Seq<(Seq<u8>, AuthContextV)> {
    match resolution(r, secret, sessions) {
        Some(Some(ctx)) => {
            let stored = assoc_lookup(sessions, jwt_claims_of(secret, token_of(r)->Some_0)->Some_0.0)->Some_0;
            if stored == ctx {
                sessions
            } else {
                assoc_set(sessions, ctx.access_key, ctx)
            }
        },
        _ => sessions,
    }
}

/// Serve one parsed request end to end: an unusable parse is refused
/// outright; a cookie that fails verification is refused; otherwise the
/// session the cookie resolves to — or a fresh `Public` session, saved
/// and announced through a new `HttpOnly` cookie — is handed to the
/// storage engine, and the outcome is exactly what `storage_status`,
/// `metas_after` and `blobs_after` say for that session over the store
/// with the upgrade already persisted.
pub fn handle_http_request(parser: Parser, store: &mut MemStore, secret: &[u8], now: u64) -> (r: (
    Response,
    Option<Object>,
))
    ensures
        invalid_model(parser@) ==> r.0.status_code == 400 && r.1 is None && final(store).sessions@
            == old(store).sessions@ && final(store).metas@ == old(store).metas@
            && final(store).blobs@ == old(store).blobs@
            && r.0.body@ == "Invalid HTTP Request".spec_bytes(),
        !invalid_model(parser@) ==> ({
            let req = parser@.req->Some_0;
            let res0 = resolution(req, secret@, old(store).sessions@);
            match res0 {
                None => r.0.status_code == 400 && r.1 is None && final(store).sessions@
                    == old(store).sessions@ && final(store).metas@ == old(store).metas@
                    && final(store).blobs@ == old(store).blobs@ && r.0.body@
                    == "Invalid Authorization Token".spec_bytes(),
                Some(Some(ctx)) => ({
                    let mid = StoreV {
                        sessions: sessions_mid(req, secret@, old(store).sessions@),
                        metas: old(store).metas@,
                        blobs: old(store).blobs@,
                    };
                    &&& r.0.status_code == storage_status(ctx, req, mid, 200)
                    &&& final(store).metas@ == metas_after(ctx, req, mid, now)
                    &&& final(store).blobs@ == blobs_after(ctx, req, mid, now)
                    &&& final(store).sessions@ == assoc_set(
                        mid.sessions,
                        ctx.access_key,
                        (AuthContextV { last_used: now, ..ctx }),
                    )
                }),
                Some(None) => exists|fresh: AuthContextV, tok: Seq<u8>|
                    #![trigger jwt_claims_of(secret@, tok), assoc_set(old(store).sessions@, fresh.access_key, fresh)]
                    {
                        let mid = StoreV {
                            sessions: assoc_set(old(store).sessions@, fresh.access_key, fresh),
                            metas: old(store).metas@,
                            blobs: old(store).blobs@,
                        };
                        &&& jwt_claims_of(secret@, tok) == Some(
                            (fresh.access_key, crate::auth::level_token(AuthLevel::Public)),
                        )
                        &&& fresh.access_level == AuthLevel::Public
                        &&& fresh.last_used == now
                        &&& r.0.status_code == storage_status(fresh, req, mid, 200)
                        &&& header_lookup(
                            hview(r.0.headers@),
                            "set-cookie".spec_bytes(),
                        ) == Some(
                            crate::response::cookie_value(
                                "authorization".spec_bytes(),
                                tok,
                                true,
                            ),
                        )
                        &&& final(store).metas@ == metas_after(fresh, req, mid, now)
                        &&& final(store).blobs@ == blobs_after(fresh, req, mid, now)
                        &&& final(store).sessions@ == assoc_set(
                            mid.sessions,
                            fresh.access_key,
                            (AuthContextV { last_used: now, ..fresh }),
                        )
                    },
            }
        }),
{
    let ghost m0 = parser@;
    let mut res = Response::new(200);
    if parser.is_invalid() {
        res.set_status_code(400);
        res.set_body(crate::bytes::lit_vec("Invalid HTTP Request"), MimeType::TextPlain);
        return (res, None);
    }
    let request = match parser.consume_request() {
        Some(r) => r,
        None => {
            proof {
                assert(false);
            }
            return (res, None);
        },
    };
    let ghost rm = request@;
    let mut auth: Option<AuthContext> = None;
    let mut bad_token = false;
    match &request.cookies {
        Some(cs) => {
            match crate::request::headers_get(cs, "authorization".as_bytes()) {
                Some(tok) => {
                    match AuthContext::id_from_jwt(secret, tok.as_slice()) {
                        (Some(id), Some(level)) => {
                            match store.sessions.get(id.as_slice()) {
                                Some(stored) => {
                                    let mut ctx = stored.duplicate();
                                    if ctx.access_level.lt(&level) {
                                        ctx.access_level = level;
                                        let k = sub_vec(
                                            ctx.access_key.as_slice(),
                                            0,
                                            ctx.access_key.len(),
                                        );
                                        proof {
                                            assert(k@ =~= ctx.access_key@);
                                        }
                                        store.sessions.put(k, ctx.duplicate());
                                    }
                                    auth = Some(ctx);
                                },
                                None => {},
                            }
                        },
                        _ => {
                            bad_token = true;
                        },
                    }
                },
                None => {},
            }
        },
        None => {},
    }
    if bad_token {
        res.set_status_code(400);
        res.set_body(crate::bytes::lit_vec("Invalid Authorization Token"), MimeType::TextPlain);
        return (res, None);
    }
    match auth {
        Some(ctx) => {
            proof {
                assert(resolution(rm, secret@, old(store).sessions@) == Some(Some(ctx@)));
                assert(store.sessions@ == sessions_mid(rm, secret@, old(store).sessions@));
                assert(store.metas@ == old(store).metas@);
                assert(store.blobs@ == old(store).blobs@);
            }
            handle_storage(&request, res, ctx, store, now)
        },
        None => {
            proof {
                assert(resolution(rm, secret@, old(store).sessions@) == Some(
                    None::<AuthContextV>,
                ));
            }
            let ctx = AuthContext::random(now);
            let k = sub_vec(ctx.access_key.as_slice(), 0, ctx.access_key.len());
            proof {
                assert(k@ =~= ctx.access_key@);
            }
            store.sessions.put(k, ctx.duplicate());
            let token = ctx.as_jwt(secret);
            let ghost fresh = ctx@;
            let ghost tokv = token@;
            proof {
                assert(store.sessions@ == assoc_set(
                    old(store).sessions@,
                    fresh.access_key,
                    fresh,
                ));
                assert(store.metas@ == old(store).metas@);
                assert(store.blobs@ == old(store).blobs@);
            }
            let (mut res2, obj) = handle_storage(&request, res, ctx, store, now);
            let ghost hs0 = crate::request::hview(res2.headers@);
            res2.set_cookie("authorization".as_bytes(), token.as_slice(), true);
            proof {
                crate::request::lemma_header_set_same(
                    hs0,
                    "set-cookie".spec_bytes(),
                    crate::response::cookie_value("authorization".spec_bytes(), tokv, true),
                );
                assert(jwt_claims_of(secret@, tokv) == Some(
                    (fresh.access_key, crate::auth::level_token(AuthLevel::Public)),
                ));
            }
            (res2, obj)
        },
    }
}

/// Whether any stored object names `key` as its owner.
pub open spec fn owns_object(metas: Seq<(Seq<u8>, MetadataV)>, key: Seq<u8>) -> bool {
    exists|i: int| 0 <= i < metas.len() && (#[trigger] metas[i]).1.owner_id == key
}

/// Whether the reaping sweep may delete a session: idle for longer than
/// the threshold, below `Admin`, and owning no stored object.
pub open spec fn expendable(
    c: AuthContextV,
    metas: Seq<(Seq<u8>, MetadataV)>,
    now: u64,
) -> bool {
    &&& c.last_used + 1800 < now
    &&& c.access_level != AuthLevel::Admin
    &&& !owns_object(metas, c.access_key)
}

/// The session table after a reaping sweep: the expendable records gone,
/// everything else in place.
pub open spec fn reap_filter(
    sessions: Seq<(Seq<u8>, AuthContextV)>,
    metas: Seq<(Seq<u8>, MetadataV)>,
    now: u64,
) -> Seq<(Seq<u8>, AuthContextV)>
    decreases sessions.len(),
{
    if sessions.len() == 0 {
        sessions
    } else {
        let rest = reap_filter(sessions.drop_last(), metas, now);
        if expendable(sessions.last().1, metas, now) {
            rest
        } else {
            rest.push(sessions.last())
        }
    }
}

/// Whether any stored object names `key` as its owner.
fn owns_any(metas: &crate::store::Table<crate::metadata::Metadata>, key: &[u8]) -> (r: bool)
    ensures
        r == owns_object(metas@, key@),
{
    let n = metas.len();
    let mut i: usize = 0;
    while i < n
        invariant
            0 <= i <= n,
            n == metas@.len(),
            forall|j: int| 0 <= j < i ==> (#[trigger] metas@[j]).1.owner_id != key@,
        decreases n - i,
    {
        let m = metas.at(i);
        if crate::bytes::bytes_eq(m.owner_id.as_slice(), key) {
            proof {
                assert(metas@[i as int].1.owner_id == key@);
            }
            return true;
        }
        i += 1;
    }
    false
}

/// The idle-session sweep, run as connections arrive: delete every
/// session idle for longer than the threshold, unless it is an `Admin`
/// session or owns at least one stored object.
pub fn reap_expired(store: &mut MemStore, now: u64)
    ensures
        final(store).sessions@ == reap_filter(old(store).sessions@, old(store).metas@, now),
        final(store).metas@ == old(store).metas@,
        final(store).blobs@ == old(store).blobs@,
{
    let mut taken: crate::store::Table<AuthContext> = crate::store::Table::new();
    core::mem::swap(&mut store.sessions, &mut taken);
    let entries = taken.take_entries();
    let ghost sv = crate::store::tview(entries@);
    let mut kept: Vec<(Vec<u8>, AuthContext)> = Vec::new();
    proof {
        assert(sv.take(0) =~= Seq::<(Seq<u8>, AuthContextV)>::empty());
        assert(crate::store::tview(kept@) =~= reap_filter(sv.take(0), store.metas@, now));
    }
    let mut i: usize = 0;
    while i < entries.len()
        invariant
            0 <= i <= entries.len(),
            sv == crate::store::tview(entries@),
            sv.len() == entries.len(),
            crate::store::tview(kept@) == reap_filter(sv.take(i as int), store.metas@, now),
        decreases entries.len() - i,
    {
        proof {
            crate::store::lemma_tview_index(entries@, i as int);
            assert(sv.take(i + 1).drop_last() =~= sv.take(i as int));
            assert(sv.take(i + 1).last() == sv[i as int]);
        }
        let c = &entries[i].1;
        let idle = now > 1800 && c.last_used < now - 1800;
        let gone = idle && !matches!(c.access_level, AuthLevel::Admin) && !owns_any(
            &store.metas,
            c.access_key.as_slice(),
        );
        if !gone {
            let k = sub_vec(entries[i].0.as_slice(), 0, entries[i].0.len());
            let v = c.duplicate();
            proof {
                assert(k@ =~= entries@[i as int].0@);
            }
            let ghost kept0 = crate::store::tview(kept@);
            kept.push((k, v));
            proof {
                assert forall|j: int|
                    0 <= j < crate::store::tview(kept@).len() implies crate::store::tview(kept@)[j]
                    == kept0.push(sv[i as int])[j] by {
                    crate::store::lemma_tview_index(kept@, j);
                    if j < kept0.len() {
                        crate::store::lemma_tview_index(kept@.drop_last(), j);
                        assert(kept@[j] == kept@.drop_last()[j]);
                    }
                }
                assert(crate::store::tview(kept@) =~= kept0.push(sv[i as int]));
            }
        }
        i += 1;
    }
    proof {
        assert(sv.take(i as int) =~= sv);
    }
    let mut fresh = crate::store::Table::from_entries(kept);
    core::mem::swap(&mut store.sessions, &mut fresh);
}

} // verus!
