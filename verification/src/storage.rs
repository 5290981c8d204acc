//! The storage and authorization engine: object CRUD over the keyed
//! stores, gated by the readability and writability rules. Both rules
//! re-read the stored session records on every decision, so authorization
//! stays live against concurrent session upgrades.

use vstd::prelude::*;

use crate::auth::{level_le, AuthContext, AuthContextV, AuthLevel};
use crate::bytes::{split_on, sub_vec};
use crate::http::{mime_token, MimeType};
use crate::metadata::{Metadata, MetadataV};
use crate::store::{assoc_lookup, assoc_set, id_is_safe, MemStore};
use crate::wrappers::{hex_encode, hex_of, sha256, sha256_of};

verus! {

/// The readability rule for a session `s` and a target `m`, given the
/// session's own stored record and the owner's stored record. Public
/// objects are always readable. Otherwise the caller's record must load;
/// a missing owner record admits only administrators; with both records,
/// an administrator reads anything a non-administrator owns, the owner
/// reads an owner-restricted object, and anything else is read exactly
/// when the object's level is within the session's rank.
pub open spec fn readable_spec(
    s: AuthContextV,
    m: MetadataV,
    s_rec: Option<AuthContextV>,
    o_rec: Option<AuthContextV>,
) -> bool {
    if m.readable_by == AuthLevel::Public {
        true
    } else {
        match s_rec {
            None => false,
            Some(sr) => match o_rec {
                None => sr.access_level == AuthLevel::Admin,
                Some(orec) => {
                    if s.access_level == AuthLevel::Admin && orec.access_level != AuthLevel::Admin {
                        true
                    } else if m.readable_by == AuthLevel::Owner && s == orec {
                        true
                    } else {
                        level_le(m.readable_by, s.access_level)
                    }
                },
            },
        }
    }
}

/// The writability rule for a session `s` and a target `m`. The caller's
/// record must load; a missing owner record admits only administrators;
/// with both records, an administrator writes anything except another
/// administrator's object, and anyone else writes exactly what they own
/// (whole-record identity with the owner's stored record).
pub open spec fn writable_spec(
    s: AuthContextV,
    m: MetadataV,
    s_rec: Option<AuthContextV>,
    o_rec: Option<AuthContextV>,
) -> bool {
    match s_rec {
        None => false,
        Some(sr) => match o_rec {
            None => sr.access_level == AuthLevel::Admin,
            Some(orec) => {
                if s.access_level == AuthLevel::Admin {
                    if orec.access_level == AuthLevel::Admin {
                        orec.access_key == s.access_key
                    } else {
                        true
                    }
                } else {
                    s == orec
                }
            },
        },
    }
}

/// Readability against the session store: the caller's and the owner's
/// records are whatever the store holds at decision time.
pub open spec fn object_readable(
    s: AuthContextV,
    m: MetadataV,
    sessions: Seq<(Seq<u8>, AuthContextV)>,
) -> bool {
    readable_spec(s, m, assoc_lookup(sessions, s.access_key), assoc_lookup(sessions, m.owner_id))
}

/// Writability against the session store.
pub open spec fn object_writable(
    s: AuthContextV,
    m: MetadataV,
    sessions: Seq<(Seq<u8>, AuthContextV)>,
) -> bool {
    writable_spec(s, m, assoc_lookup(sessions, s.access_key), assoc_lookup(sessions, m.owner_id))
}

/// The view of an optional loaded record.
pub open spec fn opt_ctx(o: Option<&AuthContext>) -> Option<AuthContextV> {
    match o {
        Some(c) => Some(c@),
        None => None,
    }
}

/// Decide readability from the loaded records.
pub fn readable_with(
    session: &AuthContext,
    meta: &Metadata,
    session_rec: Option<&AuthContext>,
    owner_rec: Option<&AuthContext>,
) -> (r: bool)
    ensures
        r == readable_spec(session@, meta@, opt_ctx(session_rec), opt_ctx(owner_rec)),
{
    if matches!(meta.readable_by, AuthLevel::Public) {
        return true;
    }
    match session_rec {
        None => false,
        Some(sr) => match owner_rec {
            None => matches!(sr.access_level, AuthLevel::Admin),
            Some(orec) => {
                if matches!(session.access_level, AuthLevel::Admin) && !matches!(
                    orec.access_level,
                    AuthLevel::Admin,
                ) {
                    true
                } else if matches!(meta.readable_by, AuthLevel::Owner) && session == orec {
                    true
                } else {
                    meta.readable_by.le(&session.access_level)
                }
            },
        },
    }
}

/// Decide writability from the loaded records.
pub fn writable_with(
    session: &AuthContext,
    meta: &Metadata,
    session_rec: Option<&AuthContext>,
    owner_rec: Option<&AuthContext>,
) -> (r: bool)
    ensures
        r == writable_spec(session@, meta@, opt_ctx(session_rec), opt_ctx(owner_rec)),
{
    match session_rec {
        None => false,
        Some(sr) => match owner_rec {
            None => matches!(sr.access_level, AuthLevel::Admin),
            Some(orec) => {
                if matches!(session.access_level, AuthLevel::Admin) {
                    if matches!(orec.access_level, AuthLevel::Admin) {
                        crate::bytes::bytes_eq(
                            orec.access_key.as_slice(),
                            session.access_key.as_slice(),
                        )
                    } else {
                        true
                    }
                } else {
                    session == orec
                }
            },
        },
    }
}

/// A stored object: its key, its descriptor, and, when loaded, its bytes.
pub struct Object {
    pub key: Vec<u8>,
    pub metadata: Metadata,
    pub data: Option<Vec<u8>>,
}

impl Object {
    /// The object's bytes, or nothing when the payload was never loaded.
    pub fn get_data(&self) -> (r: Vec<u8>)
        ensures
            r@ == (match self.data {
                Some(d) => d@,
                None => Seq::<u8>::empty(),
            }),
    {
        match &self.data {
            Some(d) => sub_vec(d.as_slice(), 0, d.len()),
            None => Vec::new(),
        }
    }
}

/// The display name of a key: its last `/`-separated segment, a trailing
/// separator ignored.
pub open spec fn obj_name(key: Seq<u8>) -> Seq<u8> {
    let segs = split_on(key, 47);
    let trimmed = if segs.len() > 0 && segs.last().len() == 0 && key.len() > 0 {
        segs.drop_last()
    } else {
        segs
    };
    if trimmed.len() == 0 {
        Seq::empty()
    } else {
        trimmed.last()
    }
}

/// Compute the display name of a key.
pub fn obj_name_of(key: &[u8]) -> (r: Vec<u8>)
    ensures
        r@ == obj_name(key@),
{
    let segs = crate::bytes::split(key, 47);
    let ghost sm = segs@.map_values(|v: Vec<u8>| v@);
    let n = segs.len();
    proof {
        assert(sm.len() == segs@.len());
        assert(sm.len() > 0);
        assert(sm.last() == segs@[n - 1]@);
    }
    let use_n = if key.len() > 0 && segs[n - 1].len() == 0 {
        n - 1
    } else {
        n
    };
    if use_n == 0 {
        proof {
            assert(obj_name(key@) =~= Seq::<u8>::empty());
        }
        return Vec::new();
    }
    proof {
        assert(sm[use_n - 1] == segs@[use_n - 1]@);
        if use_n == n {
            assert(obj_name(key@) == sm.last());
        } else {
            assert(obj_name(key@) == sm.drop_last().last());
            assert(sm.drop_last().last() == sm[use_n - 1]);
        }
    }
    let seg = &segs[use_n - 1];
    sub_vec(seg.as_slice(), 0, seg.len())
}

/// The descriptor a PUT by session `s` writes.
pub open spec fn new_meta(
    s: AuthContextV,
    key: Seq<u8>,
    data: Seq<u8>,
    mime_type: MimeType,
    readable_by: AuthLevel,
    now: u64,
) -> MetadataV {
    MetadataV {
        name: obj_name(key),
        key: key,
        size: data.len() as u64,
        last_modified: now,
        etag: hex_of(sha256_of(data)),
        mime_type: mime_token(mime_type),
        owner_id: s.access_key,
        readable_by: readable_by,
    }
}

/// Whether a PUT at `key` is allowed: any descriptor already there must
/// be writable by the caller, and the key must obey the path rules so
/// that the blob can be stored.
pub open spec fn put_allowed(
    s: AuthContextV,
    key: Seq<u8>,
    metas: Seq<(Seq<u8>, MetadataV)>,
    sessions: Seq<(Seq<u8>, AuthContextV)>,
) -> bool {
    (match assoc_lookup(metas, key) {
        Some(m) => object_writable(s, m, sessions),
        None => true,
    }) && id_is_safe(key)
}

/// The descriptors the caller may see, in store order.
pub open spec fn readable_metas(
    s: AuthContextV,
    metas: Seq<(Seq<u8>, MetadataV)>,
    sessions: Seq<(Seq<u8>, AuthContextV)>,
) -> Seq<MetadataV>
    decreases metas.len(),
{
    if metas.len() == 0 {
        Seq::empty()
    } else {
        let rest = readable_metas(s, metas.drop_last(), sessions);
        if object_readable(s, metas.last().1, sessions) {
            rest.push(metas.last().1)
        } else {
            rest
        }
    }
}

/// The storage engine, acting for one resolved session.
pub struct Storage {
    pub auth_context: AuthContext,
}

impl Storage {
    /// An engine acting for the given session.
    pub fn new(auth_context: AuthContext) -> (r: Storage)
        ensures
            r.auth_context@ == auth_context@,
    {
        Storage { auth_context }
    }

    /// Decide whether the engine's session may read an object, against
    /// the records the store holds now.
    pub fn is_object_readable(&self, store: &MemStore, metadata: &Metadata) -> (r: bool)
        ensures
            r == object_readable(self.auth_context@, metadata@, store.sessions@),
    {
        let s_rec = store.sessions.get(self.auth_context.access_key.as_slice());
        let o_rec = store.sessions.get(metadata.owner_id.as_slice());
        readable_with(&self.auth_context, metadata, s_rec, o_rec)
    }

    /// Decide whether the engine's session may write an object.
    pub fn is_object_writable(&self, store: &MemStore, metadata: &Metadata) -> (r: bool)
        ensures
            r == object_writable(self.auth_context@, metadata@, store.sessions@),
    {
        let s_rec = store.sessions.get(self.auth_context.access_key.as_slice());
        let o_rec = store.sessions.get(metadata.owner_id.as_slice());
        writable_with(&self.auth_context, metadata, s_rec, o_rec)
    }

    /// Fetch an object: nothing when it is absent or not readable; the
    /// payload only when asked for and loadable.
    pub fn get_object(&self, store: &MemStore, key: &[u8], read_data: bool) -> (r: Option<Object>)
        ensures
            ({
                let meta = assoc_lookup(store.metas@, key@);
                match r {
                    Some(obj) => (meta matches Some(mv) && obj.metadata@ == mv) && obj.key@ == key@
                        && object_readable(self.auth_context@, meta->Some_0, store.sessions@) && (
                    if read_data {
                        (obj.data matches Some(d) && assoc_lookup(store.blobs@, key@) == Some(d@))
                            && id_is_safe(key@)
                    } else {
                        obj.data is None
                    }),
                    None => meta is None || !object_readable(
                        self.auth_context@,
                        meta->Some_0,
                        store.sessions@,
                    ) || (read_data && (!id_is_safe(key@) || assoc_lookup(store.blobs@, key@)
                        is None)),
                }
            }),
    {
        let metadata = match store.metas.get(key) {
            Some(m) => m.duplicate(),
            None => {
                return None;
            },
        };
        if !self.is_object_readable(store, &metadata) {
            return None;
        }
        if !read_data {
            return Some(
                Object { key: sub_vec(key, 0, key.len()), metadata, data: None },
            );
        }
        let data = match store.blob_load(key) {
            Some(d) => sub_vec(d.as_slice(), 0, d.len()),
            None => {
                return None;
            },
        };
        Some(Object { key: sub_vec(key, 0, key.len()), metadata, data: Some(data) })
    }

    /// Store an object: any descriptor already at the key must be
    /// writable by the caller, and the key must obey the path rules;
    /// then a fresh descriptor — owner, time, size, content hash — and
    /// the bytes are written together. On failure nothing changes.
    pub fn put_object(
        &self,
        store: &mut MemStore,
        key: &[u8],
        data: &[u8],
        mime_type: MimeType,
        readable_by: AuthLevel,
        now: u64,
    ) -> (r: bool)
        ensures
            r == put_allowed(self.auth_context@, key@, old(store).metas@, old(store).sessions@),
            final(store).sessions@ == old(store).sessions@,
            r ==> final(store).metas@ == assoc_set(
                old(store).metas@,
                key@,
                new_meta(self.auth_context@, key@, data@, mime_type, readable_by, now),
            ) && final(store).blobs@ == assoc_set(old(store).blobs@, key@, data@),
            !r ==> final(store).metas@ == old(store).metas@ && final(store).blobs@ == old(
                store,
            ).blobs@,
    {
        let existing_writable = match store.metas.get(key) {
            Some(m) => {
                let m = m.duplicate();
                self.is_object_writable(store, &m)
            },
            None => true,
        };
        if !existing_writable {
            return false;
        }
        if !crate::store::check_id_safe(key) {
            return false;
        }
        let digest = sha256(data);
        let etag = hex_encode(digest.as_slice());
        let mime_bytes = {
            let t = mime_type.to_str();
            let tb = t.as_bytes();
            sub_vec(tb, 0, tb.len())
        };
        let metadata = Metadata {
            name: obj_name_of(key),
            key: sub_vec(key, 0, key.len()),
            size: data.len() as u64,
            last_modified: now,
            etag,
            mime_type: mime_bytes,
            owner_id: sub_vec(
                self.auth_context.access_key.as_slice(),
                0,
                self.auth_context.access_key.len(),
            ),
            readable_by,
        };
        proof {
            assert(metadata.key@ =~= key@);
            assert(metadata.mime_type@ =~= mime_token(mime_type));
            assert(metadata.owner_id@ =~= self.auth_context.access_key@);
            assert(metadata@ == new_meta(
                self.auth_context@,
                key@,
                data@,
                mime_type,
                readable_by,
                now,
            ));
        }
        let keycopy1 = sub_vec(key, 0, key.len());
        proof {
            assert(keycopy1@ =~= key@);
        }
        store.metas.put(keycopy1, metadata);
        let keycopy2 = sub_vec(key, 0, key.len());
        let datacopy = sub_vec(data, 0, data.len());
        proof {
            assert(keycopy2@ =~= key@);
            assert(datacopy@ =~= data@);
        }
        let saved = store.blob_save(keycopy2, datacopy);
        proof {
            assert(saved);
        }
        true
    }

    /// Remove an object: it must exist and be writable by the caller;
    /// the descriptor goes first, then the bytes.
    pub fn delete_object(&self, store: &mut MemStore, key: &[u8]) -> (r: bool)
        ensures
            final(store).sessions@ == old(store).sessions@,
            r == ({
                (assoc_lookup(old(store).metas@, key@) matches Some(m) && object_writable(
                    self.auth_context@,
                    m,
                    old(store).sessions@,
                )) && id_is_safe(key@) && assoc_lookup(old(store).blobs@, key@) is Some
            }),
            (assoc_lookup(old(store).metas@, key@) matches Some(m) && object_writable(
                self.auth_context@,
                m,
                old(store).sessions@,
            )) ==> final(store).metas@ == crate::store::assoc_delete(old(store).metas@, key@)
                && final(store).blobs@ == (if id_is_safe(key@) {
                crate::store::assoc_delete(old(store).blobs@, key@)
            } else {
                old(store).blobs@
            }),
            !(assoc_lookup(old(store).metas@, key@) matches Some(m) && object_writable(
                self.auth_context@,
                m,
                old(store).sessions@,
            )) ==> final(store).metas@ == old(store).metas@ && final(store).blobs@ == old(
                store,
            ).blobs@,
    {
        let metadata = match store.metas.get(key) {
            Some(m) => m.duplicate(),
            None => {
                return false;
            },
        };
        if !self.is_object_writable(store, &metadata) {
            return false;
        }
        store.metas.remove(key);
        let blob_gone = store.blob_delete(key);
        proof {
            if !blob_gone && id_is_safe(key@) {
                crate::store::lemma_assoc_delete_absent(old(store).blobs@, key@);
            }
        }
        blob_gone
    }

    /// The descriptors of every stored object the caller may read, in
    /// store order.
    pub fn list_objects(&self, store: &MemStore) -> (r: Vec<Metadata>)
        ensures
            r@.map_values(|m: Metadata| m@) == readable_metas(
                self.auth_context@,
                store.metas@,
                store.sessions@,
            ),
    {
        let mut r: Vec<Metadata> = Vec::new();
        let ghost metas = store.metas@;
        proof {
            assert(metas.take(0) =~= Seq::<(Seq<u8>, MetadataV)>::empty());
            assert(r@.map_values(|m: Metadata| m@) =~= readable_metas(
                self.auth_context@,
                metas.take(0),
                store.sessions@,
            ));
        }
        let n = store.metas.len();
        let mut i: usize = 0;
        while i < n
            invariant
                0 <= i <= n,
                n == store.metas@.len(),
                metas == store.metas@,
                r@.map_values(|m: Metadata| m@) == readable_metas(
                    self.auth_context@,
                    metas.take(i as int),
                    store.sessions@,
                ),
            decreases n - i,
        {
            let m = store.metas.at(i);
            proof {
                assert(metas.take(i + 1).drop_last() =~= metas.take(i as int));
                assert(metas.take(i + 1).last() == metas[i as int]);
            }
            let ghost r0 = r@;
            if self.is_object_readable(store, m) {
                let copy = m.duplicate();
                r.push(copy);
                proof {
                    assert(r@.map_values(|m: Metadata| m@) =~= r0.map_values(
                        |m: Metadata| m@,
                    ).push(metas[i as int].1));
                }
            }
            i += 1;
        }
        proof {
            assert(metas.take(i as int) =~= metas);
        }
        r
    }
}


/// Writing an object and reading it back: after an admitted PUT the
/// descriptor stored at the key is the fresh one — its tag the hex
/// SHA-256 digest of the bytes, its time the given clock — and the bytes
/// stored at the key are exactly what was written. A later PUT at the
/// same key replaces both, so its tag differs exactly when the digests
/// of the two byte strings differ.
pub proof fn lemma_put_then_get(
    s: AuthContextV,
    key: Seq<u8>,
    data: Seq<u8>,
    mime_type: MimeType,
    readable_by: AuthLevel,
    now: u64,
    metas: Seq<(Seq<u8>, MetadataV)>,
    blobs: Seq<(Seq<u8>, Seq<u8>)>,
)
    ensures
        assoc_lookup(
            assoc_set(metas, key, new_meta(s, key, data, mime_type, readable_by, now)),
            key,
        ) == Some(new_meta(s, key, data, mime_type, readable_by, now)),
        assoc_lookup(assoc_set(blobs, key, data), key) == Some(data),
        new_meta(s, key, data, mime_type, readable_by, now).etag == hex_of(sha256_of(data)),
        new_meta(s, key, data, mime_type, readable_by, now).last_modified == now,
        forall|s2: AuthContextV, d2: Seq<u8>, rb2: AuthLevel, mt2: MimeType, t2: u64|
            sha256_of(d2) != sha256_of(data) ==> (#[trigger] new_meta(
                s2,
                key,
                d2,
                mt2,
                rb2,
                t2,
            )).etag != new_meta(s, key, data, mime_type, readable_by, now).etag,
{
    crate::store::lemma_assoc_set_same(
        metas,
        key,
        new_meta(s, key, data, mime_type, readable_by, now),
    );
    crate::store::lemma_assoc_set_same(blobs, key, data);
    assert forall|s2: AuthContextV, d2: Seq<u8>, rb2: AuthLevel, mt2: MimeType, t2: u64|
        sha256_of(d2) != sha256_of(data) implies (#[trigger] new_meta(s2, key, d2, mt2, rb2, t2)).etag
        != new_meta(s, key, data, mime_type, readable_by, now).etag by {
        if hex_of(sha256_of(d2)) == hex_of(sha256_of(data)) {
            lemma_hex_injective(sha256_of(d2), sha256_of(data));
        }
    }
}

/// Hex encoding is injective: equal encodings come from equal bytes.
pub proof fn lemma_hex_injective(a: Seq<u8>, b: Seq<u8>)
    requires
        hex_of(a) == hex_of(b),
    ensures
        a == b,
{
    assert(hex_of(a).len() == a.len() * 2);
    assert(hex_of(b).len() == b.len() * 2);
    assert(a.len() == b.len());
    assert forall|i: int| 0 <= i < a.len() implies a[i] == b[i] by {
        assert(hex_of(a)[2 * i] == crate::wrappers::hex_digit((a[i] / 16) as u8));
        assert(hex_of(a)[2 * i + 1] == crate::wrappers::hex_digit((a[i] % 16) as u8));
        assert(hex_of(b)[2 * i] == crate::wrappers::hex_digit((b[i] / 16) as u8));
        assert(hex_of(b)[2 * i + 1] == crate::wrappers::hex_digit((b[i] % 16) as u8));
        assert(a[i] / 16 == b[i] / 16 && a[i] % 16 == b[i] % 16);
        assert(a[i] == 16 * (a[i] / 16) + a[i] % 16);
        assert(b[i] == 16 * (b[i] / 16) + b[i] % 16);
    }
    assert(a =~= b);
}

/// A public object is readable by every session, one that never
/// authenticated included; and among sessions ranked below `Owner` whose
/// stored record is not an administrator's, an owner-restricted object
/// is readable only by the session whose whole record equals the owner's
/// stored record.
pub proof fn lemma_readability(
    s: AuthContextV,
    m: MetadataV,
    s_rec: Option<AuthContextV>,
    o_rec: Option<AuthContextV>,
)
    ensures
        m.readable_by == AuthLevel::Public ==> readable_spec(s, m, s_rec, o_rec),
        (m.readable_by == AuthLevel::Owner && s.access_level.rank_spec()
            < AuthLevel::Owner.rank_spec() && (match s_rec {
            Some(sr) => sr.access_level != AuthLevel::Admin,
            None => true,
        })) ==> (readable_spec(s, m, s_rec, o_rec) <==> (s_rec is Some && (
        o_rec matches Some(o) && s == o))),
{
}

/// An administrator may write any object a non-administrator owns, and
/// another administrator's object only when the owner's key is its own.
pub proof fn lemma_admin_writability(
    s: AuthContextV,
    m: MetadataV,
    s_rec: Option<AuthContextV>,
    o_rec: Option<AuthContextV>,
)
    requires
        s.access_level == AuthLevel::Admin,
        (s_rec is Some),
        (o_rec is Some),
    ensures
        writable_spec(s, m, s_rec, o_rec) <==> (o_rec->Some_0.access_level != AuthLevel::Admin
            || o_rec->Some_0.access_key == s.access_key),
{
}

} // verus!
