//! The keyed stores behind the service: a generic association table used
//! for session records, object descriptors and blobs, and the path rules
//! of the on-disk layout — record file names are the hex SHA-256 digest
//! of the record id, and blob identifiers must be free of traversal
//! segments.

use vstd::prelude::*;
use vstd::string::StringSliceAdditionalSpecFns;

use crate::auth::{AuthContext, AuthContextV};
use crate::bytes::{bytes_eq, split_on, sub_vec};
use crate::metadata::{Metadata, MetadataV};
use crate::wrappers::{hex_encode, hex_of, sha256, sha256_of};

verus! {

/// The value bound to `k` in an association sequence, front to back.
pub open spec fn assoc_lookup<V>(s: Seq<(Seq<u8>, V)>, k: Seq<u8>) -> Option<V>
    decreases s.len(),
{
    if s.len() == 0 {
        None
    } else if s[0].0 == k {
        Some(s[0].1)
    } else {
        assoc_lookup(s.drop_first(), k)
    }
}

/// Bind `k` to `v`: replace the entry holding `k`, or append one.
pub open spec fn assoc_set<V>(s: Seq<(Seq<u8>, V)>, k: Seq<u8>, v: V) -> Seq<(Seq<u8>, V)>
    decreases s.len(),
{
    if s.len() == 0 {
        seq![(k, v)]
    } else if s[0].0 == k {
        seq![(k, v)] + s.drop_first()
    } else {
        seq![s[0]] + assoc_set(s.drop_first(), k, v)
    }
}

/// Remove the entry holding `k`, if any.
pub open spec fn assoc_delete<V>(s: Seq<(Seq<u8>, V)>, k: Seq<u8>) -> Seq<(Seq<u8>, V)>
    decreases s.len(),
{
    if s.len() == 0 {
        s
    } else if s[0].0 == k {
        s.drop_first()
    } else {
        seq![s[0]] + assoc_delete(s.drop_first(), k)
    }
}

/// `assoc_lookup` ignores a prefix free of `k`.
pub proof fn lemma_assoc_lookup_skip<V>(s: Seq<(Seq<u8>, V)>, k: Seq<u8>, i: int)
    requires
        0 <= i <= s.len(),
        forall|j: int| 0 <= j < i ==> (#[trigger] s[j]).0 != k,
    ensures
        assoc_lookup(s, k) == assoc_lookup(s.skip(i), k),
    decreases i,
{
    if i > 0 {
        lemma_assoc_lookup_skip(s.drop_first(), k, i - 1);
        assert(s.drop_first().skip(i - 1) =~= s.skip(i));
    } else {
        assert(s.skip(0) =~= s);
    }
}

/// When the first entry holding `k` stands at `i`, `assoc_set` updates in
/// place, `assoc_delete` removes that entry, and `assoc_lookup` reads it.
pub proof fn lemma_assoc_at<V>(s: Seq<(Seq<u8>, V)>, k: Seq<u8>, v: V, i: int)
    requires
        0 <= i < s.len(),
        s[i].0 == k,
        forall|j: int| 0 <= j < i ==> (#[trigger] s[j]).0 != k,
    ensures
        assoc_set(s, k, v) == s.update(i, (k, v)),
        assoc_delete(s, k) == s.remove(i),
        assoc_lookup(s, k) == Some(s[i].1),
    decreases i,
{
    if i == 0 {
        assert(assoc_set(s, k, v) =~= s.update(0, (k, v)));
        assert(assoc_delete(s, k) =~= s.remove(0));
    } else {
        lemma_assoc_at(s.drop_first(), k, v, i - 1);
        lemma_assoc_lookup_skip(s, k, i);
        assert(s.skip(i)[0] == s[i]);
        assert(s.drop_first().update(i - 1, (k, v)) =~= s.update(i, (k, v)).drop_first());
        assert(assoc_set(s, k, v) =~= s.update(i, (k, v)));
        assert(s.drop_first().remove(i - 1) =~= s.remove(i).drop_first());
        assert(assoc_delete(s, k) =~= s.remove(i));
    }
}

/// Looking up the key just bound finds the new value.
pub proof fn lemma_assoc_set_same<V>(s: Seq<(Seq<u8>, V)>, k: Seq<u8>, v: V)
    ensures
        assoc_lookup(assoc_set(s, k, v), k) == Some(v),
    decreases s.len(),
{
    if s.len() == 0 {
        assert(assoc_set(s, k, v) == seq![(k, v)]);
    } else if s[0].0 == k {
        let r = seq![(k, v)] + s.drop_first();
        assert(r[0] == (k, v));
    } else {
        lemma_assoc_set_same(s.drop_first(), k, v);
        let r = seq![s[0]] + assoc_set(s.drop_first(), k, v);
        assert(r[0] == s[0]);
        assert(r.drop_first() =~= assoc_set(s.drop_first(), k, v));
    }
}

/// A lookup that finds nothing means deletion changes nothing.
pub proof fn lemma_assoc_delete_absent<V>(s: Seq<(Seq<u8>, V)>, k: Seq<u8>)
    requires
        assoc_lookup(s, k) is None,
    ensures
        assoc_delete(s, k) == s,
    decreases s.len(),
{
    if s.len() > 0 {
        lemma_assoc_delete_absent(s.drop_first(), k);
        assert(assoc_delete(s, k) =~= s);
    }
}

/// When no entry holds `k`, `assoc_set` appends and `assoc_delete` does
/// nothing.
pub proof fn lemma_assoc_absent<V>(s: Seq<(Seq<u8>, V)>, k: Seq<u8>, v: V)
    requires
        forall|j: int| 0 <= j < s.len() ==> (#[trigger] s[j]).0 != k,
    ensures
        assoc_set(s, k, v) == s.push((k, v)),
        assoc_delete(s, k) == s,
        assoc_lookup(s, k) is None,
    decreases s.len(),
{
    if s.len() == 0 {
        assert(assoc_set(s, k, v) =~= s.push((k, v)));
        assert(assoc_delete(s, k) =~= s);
    } else {
        lemma_assoc_absent(s.drop_first(), k, v);
        assert(assoc_set(s, k, v) =~= s.push((k, v)));
        assert(assoc_delete(s, k) =~= s);
    }
}

/// The mathematical reading of a keyed table.
pub open spec fn tview<V: View>(s: Seq<(Vec<u8>, V)>) -> Seq<(Seq<u8>, V::V)> {
    s.map_values(|p: (Vec<u8>, V)| (p.0@, p.1@))
}

/// Reading one entry of a keyed table.
pub proof fn lemma_tview_index<V: View>(s: Seq<(Vec<u8>, V)>, i: int)
    requires
        0 <= i < s.len(),
    ensures
        tview(s).len() == s.len(),
        tview(s)[i] == (s[i].0@, s[i].1@),
{
}

/// A keyed table of records: the in-memory form of one base directory of
/// the persistent layout.
pub struct Table<V> {
    entries: Vec<(Vec<u8>, V)>,
}

impl<V: View> View for Table<V> {
    type V = Seq<(Seq<u8>, V::V)>;

    closed spec fn view(&self) -> Seq<(Seq<u8>, V::V)> {
        tview(self.entries@)
    }
}

impl<V: View> Table<V> {
    /// An empty table.
    pub fn new() -> (r: Table<V>)
        ensures
            r@ == Seq::<(Seq<u8>, V::V)>::empty(),
    {
        let r = Table { entries: Vec::new() };
        proof {
            assert(r@ =~= Seq::<(Seq<u8>, V::V)>::empty());
        }
        r
    }

    /// How many records the table holds.
    pub fn len(&self) -> (r: usize)
        ensures
            r == self@.len(),
    {
        self.entries.len()
    }

    /// The record at a position, for enumeration.
    pub fn at(&self, i: usize) -> (r: &V)
        requires
            i < self@.len(),
        ensures
            r@ == self@[i as int].1,
    {
        proof {
            lemma_tview_index(self.entries@, i as int);
        }
        &self.entries[i].1
    }

    /// The key at a position, for enumeration.
    pub fn key_at(&self, i: usize) -> (r: &Vec<u8>)
        requires
            i < self@.len(),
        ensures
            r@ == self@[i as int].0,
    {
        proof {
            lemma_tview_index(self.entries@, i as int);
        }
        &self.entries[i].0
    }

    /// Look a record up by its key.
    pub fn get(&self, k: &[u8]) -> (r: Option<&V>)
        ensures
            match r {
                Some(v) => assoc_lookup(self@, k@) == Some(v@),
                None => assoc_lookup(self@, k@) is None,
            },
    {
        let ghost m = self@;
        let mut i: usize = 0;
        while i < self.entries.len()
            invariant
                0 <= i <= self.entries.len(),
                m == tview(self.entries@),
                m.len() == self.entries.len(),
                forall|j: int| 0 <= j < i ==> (#[trigger] m[j]).0 != k@,
            decreases self.entries.len() - i,
        {
            proof {
                lemma_tview_index(self.entries@, i as int);
            }
            if bytes_eq(self.entries[i].0.as_slice(), k) {
                proof {
                    lemma_assoc_lookup_skip(m, k@, i as int);
                    assert(m.skip(i as int)[0] == m[i as int]);
                }
                return Some(&self.entries[i].1);
            }
            i += 1;
        }
        proof {
            lemma_assoc_lookup_skip(m, k@, i as int);
            assert(m.skip(i as int).len() == 0);
        }
        None
    }

    /// Store a record under a key, replacing an earlier record with the
    /// same key.
    pub fn put(&mut self, k: Vec<u8>, v: V)
        ensures
            final(self)@ == assoc_set(old(self)@, k@, v@),
    {
        let mut entries: Vec<(Vec<u8>, V)> = Vec::new();
        core::mem::swap(&mut self.entries, &mut entries);
        let entries = table_put(entries, k, v);
        let mut entries = entries;
        core::mem::swap(&mut self.entries, &mut entries);
    }

    /// Give the table up as its entry vector.
    pub fn take_entries(self) -> (r: Vec<(Vec<u8>, V)>)
        ensures
            tview(r@) == self@,
    {
        self.entries
    }

    /// A table holding exactly the given entries.
    pub fn from_entries(entries: Vec<(Vec<u8>, V)>) -> (r: Table<V>)
        ensures
            r@ == tview(entries@),
    {
        Table { entries }
    }

    /// Remove the record under a key; report whether one was there.
    pub fn remove(&mut self, k: &[u8]) -> (r: bool)
        ensures
            final(self)@ == assoc_delete(old(self)@, k@),
            r == (assoc_lookup(old(self)@, k@) is Some),
    {
        let mut entries: Vec<(Vec<u8>, V)> = Vec::new();
        core::mem::swap(&mut self.entries, &mut entries);
        let (entries, hit) = table_remove(entries, k);
        let mut entries = entries;
        core::mem::swap(&mut self.entries, &mut entries);
        hit
    }
}

/// Find the position of `k` among the entries.
fn table_find<V: View>(entries: &Vec<(Vec<u8>, V)>, k: &[u8]) -> (r: Option<usize>)
    ensures
        match r {
            Some(i) => i < entries@.len() && tview(entries@)[i as int].0 == k@ && (forall|j: int|
                0 <= j < i ==> (#[trigger] tview(entries@)[j]).0 != k@),
            None => forall|j: int|
                0 <= j < entries@.len() ==> (#[trigger] tview(entries@)[j]).0 != k@,
        },
{
    let ghost m = tview(entries@);
    let mut i: usize = 0;
    while i < entries.len()
        invariant
            0 <= i <= entries.len(),
            m == tview(entries@),
            m.len() == entries.len(),
            forall|j: int| 0 <= j < i ==> (#[trigger] m[j]).0 != k@,
        decreases entries.len() - i,
    {
        proof {
            lemma_tview_index(entries@, i as int);
        }
        if bytes_eq(entries[i].0.as_slice(), k) {
            return Some(i);
        }
        i += 1;
    }
    None
}

/// Replace or append the entry for `k` in an owned entry vector.
fn table_put<V: View>(entries: Vec<(Vec<u8>, V)>, k: Vec<u8>, v: V) -> (r: Vec<(Vec<u8>, V)>)
    ensures
        tview(r@) == assoc_set(tview(entries@), k@, v@),
{
    let ghost m = tview(entries@);
    let mut entries = entries;
    match table_find(&entries, k.as_slice()) {
        Some(i) => {
            proof {
                lemma_tview_index(entries@, i as int);
                lemma_assoc_at(m, k@, v@, i as int);
            }
            entries.remove(i);
            entries.insert(i, (k, v));
            proof {
                assert forall|j: int| 0 <= j < tview(entries@).len() implies tview(entries@)[j]
                    == m.update(i as int, (k@, v@))[j] by {
                    lemma_tview_index(entries@, j);
                }
                assert(tview(entries@) =~= m.update(i as int, (k@, v@)));
            }
        },
        None => {
            proof {
                lemma_assoc_absent(m, k@, v@);
            }
            entries.push((k, v));
            proof {
                assert forall|j: int| 0 <= j < tview(entries@).len() implies tview(entries@)[j]
                    == m.push((k@, v@))[j] by {
                    lemma_tview_index(entries@, j);
                }
                assert(tview(entries@) =~= m.push((k@, v@)));
            }
        },
    }
    entries
}

/// Remove the entry for `k` from an owned entry vector.
fn table_remove<V: View>(entries: Vec<(Vec<u8>, V)>, k: &[u8]) -> (r: (Vec<(Vec<u8>, V)>, bool))
    ensures
        tview(r.0@) == assoc_delete(tview(entries@), k@),
        r.1 == (assoc_lookup(tview(entries@), k@) is Some),
{
    let ghost m = tview(entries@);
    let mut entries = entries;
    match table_find(&entries, k) {
        Some(i) => {
            proof {
                lemma_tview_index(entries@, i as int);
                lemma_assoc_at(m, k@, m[i as int].1, i as int);
            }
            entries.remove(i);
            proof {
                assert forall|j: int| 0 <= j < tview(entries@).len() implies tview(entries@)[j]
                    == m.remove(i as int)[j] by {
                    lemma_tview_index(entries@, j);
                }
                assert(tview(entries@) =~= m.remove(i as int));
            }
            (entries, true)
        },
        None => {
            proof {
                if m.len() > 0 {
                    lemma_assoc_absent(m, k@, m[0].1);
                } else {
                    assert(assoc_delete(m, k@) =~= m);
                }
            }
            (entries, false)
        },
    }
}

/// Whether one path segment is plain: non-empty and no traversal.
pub open spec fn seg_ok(seg: Seq<u8>) -> bool {
    seg.len() > 0 && seg != ".".spec_bytes() && seg != "..".spec_bytes()
}

/// Whether an identifier may name a file under the trusted root: it is
/// non-empty and every `/`-separated segment is plain, so the resolved
/// path cannot leave the root through traversal segments.
pub open spec fn id_is_safe(id: Seq<u8>) -> bool {
    forall|i: int| 0 <= i < split_on(id, 47).len() ==> seg_ok(#[trigger] split_on(id, 47)[i])
}

/// Check an identifier against the path rules.
pub fn check_id_safe(id: &[u8]) -> (r: bool)
    ensures
        r == id_is_safe(id@),
{
    let segs = crate::bytes::split(id, 47);
    let ghost sm = segs@.map_values(|v: Vec<u8>| v@);
    let mut i: usize = 0;
    while i < segs.len()
        invariant
            0 <= i <= segs.len(),
            sm == segs@.map_values(|v: Vec<u8>| v@),
            sm == split_on(id@, 47),
            sm.len() == segs.len(),
            forall|j: int| 0 <= j < i ==> seg_ok(#[trigger] sm[j]),
        decreases segs.len() - i,
    {
        let seg = &segs[i];
        proof {
            assert(sm[i as int] == segs@[i as int]@);
        }
        if seg.len() == 0 || bytes_eq(seg.as_slice(), ".".as_bytes()) || bytes_eq(
            seg.as_slice(),
            "..".as_bytes(),
        ) {
            proof {
                assert(!seg_ok(split_on(id@, 47)[i as int]));
            }
            return false;
        }
        i += 1;
    }
    true
}

/// Every identifier holding a `..` segment is rejected by the path rules.
pub proof fn lemma_traversal_unsafe(id: Seq<u8>, i: int)
    requires
        0 <= i < split_on(id, 47).len(),
        split_on(id, 47)[i] == ".".spec_bytes() || split_on(id, 47)[i] == "..".spec_bytes()
            || split_on(id, 47)[i].len() == 0,
    ensures
        !id_is_safe(id),
{
}

/// The file name of a keyed record: the lowercase hex SHA-256 digest of
/// the id, with a `.json` suffix. The id itself never reaches the file
/// system.
pub fn record_file_name(id: &[u8]) -> (r: Vec<u8>)
    ensures
        r@ == hex_of(sha256_of(id@)) + ".json".spec_bytes(),
{
    let digest = sha256(id);
    let mut name = hex_encode(digest.as_slice());
    let ghost hexpart = name@;
    name.extend_from_slice(".json".as_bytes());
    proof {
        assert(name@ =~= hexpart + ".json".spec_bytes());
    }
    name
}

/// The in-memory store: session records, object descriptors, and object
/// blobs, each keyed by an identifier. The blob table enforces the path
/// rules that the on-disk blob store owes to its trusted root.
pub struct MemStore {
    pub sessions: Table<AuthContext>,
    pub metas: Table<Metadata>,
    pub blobs: Table<Vec<u8>>,
}

impl MemStore {
    /// An empty store.
    pub fn new() -> (r: MemStore)
        ensures
            r.sessions@ == Seq::<(Seq<u8>, AuthContextV)>::empty(),
            r.metas@ == Seq::<(Seq<u8>, MetadataV)>::empty(),
            r.blobs_view() == Seq::<(Seq<u8>, Seq<u8>)>::empty(),
    {
        MemStore { sessions: Table::new(), metas: Table::new(), blobs: Table::new() }
    }

    /// The blob table's contents.
    pub open spec fn blobs_view(&self) -> Seq<(Seq<u8>, Seq<u8>)> {
        self.blobs@
    }

    /// Store an object's bytes under its identifier. Fails, changing
    /// nothing, when the identifier breaks the path rules.
    pub fn blob_save(&mut self, key: Vec<u8>, data: Vec<u8>) -> (r: bool)
        ensures
            r == id_is_safe(key@),
            r ==> final(self).blobs_view() == assoc_set(old(self).blobs_view(), key@, data@),
            !r ==> final(self).blobs_view() == old(self).blobs_view(),
            final(self).sessions@ == old(self).sessions@,
            final(self).metas@ == old(self).metas@,
    {
        if !check_id_safe(key.as_slice()) {
            return false;
        }
        self.blobs.put(key, data);
        true
    }

    /// Load an object's bytes. An identifier that breaks the path rules
    /// is rejected before any lookup.
    pub fn blob_load(&self, key: &[u8]) -> (r: Option<&Vec<u8>>)
        ensures
            match r {
                Some(v) => id_is_safe(key@) && assoc_lookup(self.blobs_view(), key@) == Some(v@),
                None => !id_is_safe(key@) || assoc_lookup(self.blobs_view(), key@) is None,
            },
    {
        if !check_id_safe(key) {
            return None;
        }
        self.blobs.get(key)
    }

    /// Remove an object's bytes; identifiers that break the path rules
    /// fail without touching the store.
    pub fn blob_delete(&mut self, key: &[u8]) -> (r: bool)
        ensures
            final(self).sessions@ == old(self).sessions@,
            final(self).metas@ == old(self).metas@,
            r == (id_is_safe(key@) && assoc_lookup(old(self).blobs_view(), key@) is Some),
            r ==> final(self).blobs_view() == assoc_delete(old(self).blobs_view(), key@),
            !r ==> final(self).blobs_view() == old(self).blobs_view(),
    {
        if !check_id_safe(key) {
            return false;
        }
        let hit = self.blobs.remove(key);
        proof {
            if !hit {
                lemma_assoc_delete_absent(old(self).blobs@, key@);
            }
        }
        hit
    }
}

} // verus!
