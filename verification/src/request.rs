//! The parsed HTTP request: request line, header map, raw body, and the
//! fields derived from the headers once the header section is complete.
//!
//! Header names are stored lower-cased and trimmed; a repeated name
//! overwrites the earlier entry. The map is a vector of pairs whose
//! mathematical reading is given by `header_lookup` and `header_set`.

use vstd::prelude::*;
use vstd::string::StringSliceAdditionalSpecFns;

use crate::bytes::{all_digits, dec_value, find_byte, split_on, trim};
use crate::http::{mime_of, Method, MimeType};

verus! {

/// The cookie map read from the `;`-separated entries of a `cookie`
/// header: each entry is split on its first `=`, the key trimmed; entries
/// without `=` are ignored, and a repeated key overwrites.
pub open spec fn cookies_of(pieces: Seq<Seq<u8>>) -> Seq<(Seq<u8>, Seq<u8>)>
    decreases pieces.len(),
{
    if pieces.len() == 0 {
        Seq::empty()
    } else {
        let rest = cookies_of(pieces.drop_last());
        match find_byte(pieces.last(), 61) {
            None => rest,
            Some(i) => header_set(rest, trim(pieces.last().take(i)), pieces.last().skip(i + 1)),
        }
    }
}

/// The value bound to `name`, reading the pair sequence front to back.
pub open spec fn header_lookup(hs: Seq<(Seq<u8>, Seq<u8>)>, name: Seq<u8>) -> Option<Seq<u8>>
    decreases hs.len(),
{
    if hs.len() == 0 {
        None
    } else if hs[0].0 == name {
        Some(hs[0].1)
    } else {
        header_lookup(hs.drop_first(), name)
    }
}

/// Bind `name` to `value`: replace the entry that holds `name`, or append a
/// new one.
pub open spec fn header_set(
    hs: Seq<(Seq<u8>, Seq<u8>)>,
    name: Seq<u8>,
    value: Seq<u8>,
) -> Seq<(Seq<u8>, Seq<u8>)>
    decreases hs.len(),
{
    if hs.len() == 0 {
        seq![(name, value)]
    } else if hs[0].0 == name {
        seq![(name, value)] + hs.drop_first()
    } else {
        seq![hs[0]] + header_set(hs.drop_first(), name, value)
    }
}

/// The mathematical reading of an executable header map.
pub open spec fn hview(hs: Seq<(Vec<u8>, Vec<u8>)>) -> Seq<(Seq<u8>, Seq<u8>)> {
    hs.map_values(|p: (Vec<u8>, Vec<u8>)| (p.0@, p.1@))
}

/// `header_lookup` ignores a prefix free of `name`.
pub proof fn lemma_header_lookup_skip(hs: Seq<(Seq<u8>, Seq<u8>)>, name: Seq<u8>, i: int)
    requires
        0 <= i <= hs.len(),
        forall|j: int| 0 <= j < i ==> (#[trigger] hs[j]).0 != name,
    ensures
        header_lookup(hs, name) == header_lookup(hs.skip(i), name),
    decreases i,
{
    if i > 0 {
        lemma_header_lookup_skip(hs.drop_first(), name, i - 1);
        assert(hs.drop_first().skip(i - 1) =~= hs.skip(i));
    } else {
        assert(hs.skip(0) =~= hs);
    }
}

/// When the first entry holding `name` stands at `i`, `header_set` is an
/// update in place at `i`.
pub proof fn lemma_header_set_at(
    hs: Seq<(Seq<u8>, Seq<u8>)>,
    name: Seq<u8>,
    value: Seq<u8>,
    i: int,
)
    requires
        0 <= i < hs.len(),
        hs[i].0 == name,
        forall|j: int| 0 <= j < i ==> (#[trigger] hs[j]).0 != name,
    ensures
        header_set(hs, name, value) == hs.update(i, (name, value)),
    decreases i,
{
    if i == 0 {
        assert(header_set(hs, name, value) =~= hs.update(0, (name, value)));
    } else {
        lemma_header_set_at(hs.drop_first(), name, value, i - 1);
        assert(hs.drop_first().update(i - 1, (name, value)) =~= hs.update(i, (
            name,
            value,
        )).drop_first());
        assert(header_set(hs, name, value) =~= hs.update(i, (name, value)));
    }
}

/// Looking up the name just bound finds the new value.
pub proof fn lemma_header_set_same(hs: Seq<(Seq<u8>, Seq<u8>)>, name: Seq<u8>, value: Seq<u8>)
    ensures
        header_lookup(header_set(hs, name, value), name) == Some(value),
    decreases hs.len(),
{
    if hs.len() == 0 {
        assert(header_set(hs, name, value) == seq![(name, value)]);
    } else if hs[0].0 == name {
        let r = seq![(name, value)] + hs.drop_first();
        assert(r[0] == (name, value));
    } else {
        lemma_header_set_same(hs.drop_first(), name, value);
        let r = seq![hs[0]] + header_set(hs.drop_first(), name, value);
        assert(r[0] == hs[0]);
        assert(r.drop_first() =~= header_set(hs.drop_first(), name, value));
    }
}

/// When no entry holds `name`, `header_set` appends.
pub proof fn lemma_header_set_push(hs: Seq<(Seq<u8>, Seq<u8>)>, name: Seq<u8>, value: Seq<u8>)
    requires
        forall|j: int| 0 <= j < hs.len() ==> (#[trigger] hs[j]).0 != name,
    ensures
        header_set(hs, name, value) == hs.push((name, value)),
    decreases hs.len(),
{
    if hs.len() == 0 {
        assert(header_set(hs, name, value) =~= hs.push((name, value)));
    } else {
        lemma_header_set_push(hs.drop_first(), name, value);
        assert(header_set(hs, name, value) =~= hs.push((name, value)));
    }
}

/// Look a name up in an executable header map.
pub fn headers_get<'a>(hs: &'a Vec<(Vec<u8>, Vec<u8>)>, name: &[u8]) -> (r: Option<&'a Vec<u8>>)
    ensures
        match r {
            Some(v) => header_lookup(hview(hs@), name@) == Some(v@),
            None => header_lookup(hview(hs@), name@) is None,
        },
{
    let ghost m = hview(hs@);
    let mut i: usize = 0;
    while i < hs.len()
        invariant
            0 <= i <= hs.len(),
            m == hview(hs@),
            m.len() == hs.len(),
            forall|j: int| 0 <= j < i ==> (#[trigger] m[j]).0 != name@,
        decreases hs.len() - i,
    {
        if crate::bytes::bytes_eq(hs[i].0.as_slice(), name) {
            proof {
                lemma_header_lookup_skip(m, name@, i as int);
                assert(m.skip(i as int)[0] == m[i as int]);
            }
            return Some(&hs[i].1);
        }
        i += 1;
    }
    proof {
        lemma_header_lookup_skip(m, name@, i as int);
        assert(m.skip(i as int).len() == 0);
    }
    None
}

/// Reading one entry of an executable header map.
pub proof fn lemma_hview_index(hs: Seq<(Vec<u8>, Vec<u8>)>, i: int)
    requires
        0 <= i < hs.len(),
    ensures
        hview(hs).len() == hs.len(),
        hview(hs)[i] == (hs[i].0@, hs[i].1@),
{
}

/// Bind a name in an executable header map, replacing an earlier binding:
/// the map with `name` bound to `value`.
pub fn headers_put(hs: &Vec<(Vec<u8>, Vec<u8>)>, name: Vec<u8>, value: Vec<u8>) -> (r: Vec<
    (Vec<u8>, Vec<u8>),
>)
    ensures
        hview(r@) == header_set(hview(hs@), name@, value@),
{
    let ghost m = hview(hs@);
    let mut found: Option<usize> = None;
    let mut i: usize = 0;
    while i < hs.len()
        invariant
            0 <= i <= hs.len(),
            m == hview(hs@),
            m.len() == hs.len(),
            match found {
                Some(f) => f == i && i < hs.len() && m[f as int].0 == name@ && (forall|j: int|
                    0 <= j < f ==> (#[trigger] m[j]).0 != name@),
                None => forall|j: int| 0 <= j < i ==> (#[trigger] m[j]).0 != name@,
            },
        ensures
            match found {
                Some(f) => f < hs.len() && m[f as int].0 == name@ && (forall|j: int|
                    0 <= j < f ==> (#[trigger] m[j]).0 != name@),
                None => forall|j: int| 0 <= j < m.len() ==> (#[trigger] m[j]).0 != name@,
            },
        decreases hs.len() - i,
    {
        proof {
            lemma_hview_index(hs@, i as int);
        }
        if crate::bytes::bytes_eq(hs[i].0.as_slice(), name.as_slice()) {
            found = Some(i);
            break ;
        }
        i += 1;
    }
    let ghost target = match found {
        Some(f) => m.update(f as int, (name@, value@)),
        None => m.push((name@, value@)),
    };
    proof {
        match found {
            Some(f) => {
                lemma_header_set_at(m, name@, value@, f as int);
            },
            None => {
                lemma_header_set_push(m, name@, value@);
            },
        }
        assert(target == header_set(m, name@, value@));
    }
    let mut r: Vec<(Vec<u8>, Vec<u8>)> = Vec::new();
    let mut k: usize = 0;
    while k < hs.len()
        invariant
            0 <= k <= hs.len(),
            m == hview(hs@),
            m.len() == hs.len(),
            found matches Some(f) ==> f < hs.len() && target == m.update(
                f as int,
                (name@, value@),
            ),
            found is None ==> target == m.push((name@, value@)),
            r@.len() == k,
            forall|j: int| 0 <= j < k ==> hview(r@)[j] == target[j],
        decreases hs.len() - k,
    {
        let ghost rv0 = r@;
        let replace_here = match found {
            Some(f) => f == k,
            None => false,
        };
        if replace_here {
            let n2 = crate::bytes::sub_vec(name.as_slice(), 0, name.len());
            let v2 = crate::bytes::sub_vec(value.as_slice(), 0, value.len());
            proof {
                assert(n2@ =~= name@);
                assert(v2@ =~= value@);
            }
            r.push((n2, v2));
        } else {
            proof {
                lemma_hview_index(hs@, k as int);
            }
            let e0 = crate::bytes::sub_vec(hs[k].0.as_slice(), 0, hs[k].0.len());
            let e1 = crate::bytes::sub_vec(hs[k].1.as_slice(), 0, hs[k].1.len());
            proof {
                assert(e0@ =~= hs@[k as int].0@);
                assert(e1@ =~= hs@[k as int].1@);
            }
            r.push((e0, e1));
        }
        proof {
            assert forall|j: int| 0 <= j < k + 1 implies hview(r@)[j] == target[j] by {
                lemma_hview_index(r@, j);
                if j < k {
                    assert(r@[j] == rv0[j]);
                    lemma_hview_index(rv0, j);
                }
            }
        }
        k += 1;
    }
    if found.is_none() {
        proof {
            lemma_hview_index(r@.push((name, value)), k as int);
        }
        r.push((name, value));
    }
    proof {
        assert forall|j: int| 0 <= j < target.len() implies hview(r@)[j] == target[j] by {
            lemma_hview_index(r@, j);
        }
        assert(hview(r@) =~= target);
    }
    r
}

/// The mathematical content of a request.
pub ghost struct ReqModel {
    pub method: Method,
    pub uri: Seq<u8>,
    pub version: Seq<u8>,
    pub headers: Seq<(Seq<u8>, Seq<u8>)>,
    pub raw_body: Seq<u8>,
    pub content_length: Option<u64>,
    pub cookies: Option<Seq<(Seq<u8>, Seq<u8>)>>,
    pub mime_type: Option<MimeType>,
    pub body: Option<Seq<char>>,
}

/// An HTTP request as assembled by the parser.
pub struct Request {
    pub method: Method,
    pub uri: Vec<u8>,
    pub version: Vec<u8>,
    pub headers: Vec<(Vec<u8>, Vec<u8>)>,
    pub raw_body: Vec<u8>,
    pub content_length: Option<u64>,
    pub cookies: Option<Vec<(Vec<u8>, Vec<u8>)>>,
    pub mime_type: Option<MimeType>,
    pub body: Option<String>,
}

impl View for Request {
    type V = ReqModel;

    open spec fn view(&self) -> ReqModel {
        ReqModel {
            method: self.method,
            uri: self.uri@,
            version: self.version@,
            headers: hview(self.headers@),
            raw_body: self.raw_body@,
            content_length: self.content_length,
            cookies: match self.cookies {
                Some(cs) => Some(hview(cs@)),
                None => None,
            },
            mime_type: self.mime_type,
            body: match self.body {
                Some(b) => Some(b@),
                None => None,
            },
        }
    }
}

/// A fresh request: the given request line, no headers, no body, and no
/// derived fields yet.
pub open spec fn fresh_req(method: Method, uri: Seq<u8>, version: Seq<u8>) -> ReqModel {
    ReqModel {
        method,
        uri,
        version,
        headers: Seq::empty(),
        raw_body: Seq::empty(),
        content_length: None,
        cookies: None,
        mime_type: None,
        body: None,
    }
}

/// Whether a `content-length` header value is a well-formed unsigned
/// decimal that fits the machine.
pub open spec fn valid_content_length(v: Seq<u8>) -> bool {
    v.len() > 0 && all_digits(v) && dec_value(v) <= u64::MAX
}

/// The first `;`-separated segment of a header value.
pub open spec fn first_segment(v: Seq<u8>) -> Seq<u8> {
    match find_byte(v, 59) {
        Some(i) => v.take(i),
        None => v,
    }
}

/// The derived fields once the header section is complete: the declared
/// content length, the cookie map, and the MIME type. `None` when a
/// declared `content-length` is not a well-formed number.
pub open spec fn post_model(r: ReqModel) -> Option<ReqModel> {
    let clh = header_lookup(r.headers, "content-length".spec_bytes());
    let cl_ok = match clh {
        Some(v) => valid_content_length(v),
        None => true,
    };
    if !cl_ok {
        None
    } else {
        Some(
            ReqModel {
                content_length: match clh {
                    Some(v) => Some(dec_value(v) as u64),
                    None => None,
                },
                cookies: match header_lookup(r.headers, "cookie".spec_bytes()) {
                    Some(v) => Some(cookies_of(split_on(v, 59))),
                    None => None,
                },
                mime_type: match header_lookup(r.headers, "content-type".spec_bytes()) {
                    Some(v) => Some(mime_of(trim(first_segment(v)))),
                    None => None,
                },
                ..r
            },
        )
    }
}

impl Request {
    /// Create an empty request carrying only the request line.
    pub fn new(method: Method, uri: Vec<u8>, version: Vec<u8>) -> (r: Request)
        ensures
            r@ == fresh_req(method, uri@, version@),
    {
        let r = Request {
            method,
            uri,
            version,
            headers: Vec::new(),
            raw_body: Vec::new(),
            content_length: None,
            cookies: None,
            mime_type: None,
            body: None,
        };
        proof {
            assert(r@.headers =~= Seq::<(Seq<u8>, Seq<u8>)>::empty());
            assert(r@ =~= fresh_req(method, r.uri@, r.version@));
        }
        r
    }

    /// Derive `content_length`, `cookies` and `mime_type` from the header
    /// map. Returns false, leaving the request unchanged, when a declared
    /// `content-length` is not a well-formed number.
    pub fn post_process(&mut self) -> (ok: bool)
        ensures
            match post_model(old(self)@) {
                Some(m) => ok && final(self)@ == m,
                None => !ok && *final(self) == *old(self),
            },
    {
        let cl: Option<u64> = match headers_get(&self.headers, "content-length".as_bytes()) {
            Some(v) => {
                match crate::bytes::parse_dec(v.as_slice()) {
                    Some(n) => Some(n),
                    None => {
                        return false;
                    },
                }
            },
            None => None,
        };
        let cookies: Option<Vec<(Vec<u8>, Vec<u8>)>> = match headers_get(
            &self.headers,
            "cookie".as_bytes(),
        ) {
            Some(v) => Some(parse_cookies(v.as_slice())),
            None => None,
        };
        let mime: Option<MimeType> = match headers_get(&self.headers, "content-type".as_bytes()) {
            Some(v) => {
                let ghost vv = v@;
                let seg = match crate::bytes::find_byte_at(v.as_slice(), 59) {
                    Some(i) => crate::bytes::sub_vec(v.as_slice(), 0, i),
                    None => crate::bytes::sub_vec(v.as_slice(), 0, v.len()),
                };
                proof {
                    assert(seg@ =~= first_segment(vv));
                }
                let trimmed = crate::bytes::trim_bytes(seg.as_slice());
                Some(MimeType::from_str(trimmed.as_slice()))
            },
            None => None,
        };
        self.content_length = cl;
        self.cookies = cookies;
        self.mime_type = mime;
        true
    }
}

impl Request {
    /// Decode the raw body as text when the MIME type is textual; the
    /// derived fields must have been computed first.
    pub fn body_as_string(&mut self)
        requires
            old(self)@.mime_type is Some,
        ensures
            final(self)@ == (ReqModel {
                body: if crate::http::mime_is_utf8(old(self)@.mime_type->Some_0) {
                    Some(crate::wrappers::lossy_of(old(self)@.raw_body))
                } else {
                    old(self)@.body
                },
                ..old(self)@
            }),
    {
        let utf8 = match &self.mime_type {
            Some(m) => m.is_utf8(),
            None => false,
        };
        if utf8 {
            let s = crate::wrappers::lossy_string(self.raw_body.as_slice());
            self.body = Some(s);
        }
    }
}

/// Read a `cookie` header value into a key/value map: split on `;`, then
/// each entry on its first `=`; keys are trimmed, entries without `=` are
/// ignored, and a repeated key overwrites.
pub fn parse_cookies(v: &[u8]) -> (r: Vec<(Vec<u8>, Vec<u8>)>)
    ensures
        hview(r@) == cookies_of(split_on(v@, 59)),
{
    let pieces = crate::bytes::split(v, 59);
    let ghost pm = pieces@.map_values(|p: Vec<u8>| p@);
    let mut r: Vec<(Vec<u8>, Vec<u8>)> = Vec::new();
    proof {
        assert(pm.take(0) =~= Seq::<Seq<u8>>::empty());
        assert(hview(r@) =~= cookies_of(pm.take(0)));
    }
    let mut i: usize = 0;
    while i < pieces.len()
        invariant
            0 <= i <= pieces.len(),
            pm == pieces@.map_values(|p: Vec<u8>| p@),
            pm.len() == pieces.len(),
            pm == split_on(v@, 59),
            hview(r@) == cookies_of(pm.take(i as int)),
        decreases pieces.len() - i,
    {
        let piece = &pieces[i];
        proof {
            assert(pm.take(i + 1).drop_last() =~= pm.take(i as int));
            assert(pm.take(i + 1).last() == pm[i as int]);
        }
        match crate::bytes::find_byte_at(piece.as_slice(), 61) {
            Some(j) => {
                let plen = piece.len();
                let keyraw = crate::bytes::sub_vec(piece.as_slice(), 0, j);
                proof {
                    assert(keyraw@ =~= pm[i as int].take(j as int));
                }
                let key = crate::bytes::trim_bytes(keyraw.as_slice());
                let value = crate::bytes::sub_vec(piece.as_slice(), j + 1, plen);
                proof {
                    assert(keyraw@ =~= pm[i as int].take(j as int));
                    assert(value@ =~= pm[i as int].skip(j + 1));
                }
                r = headers_put(&r, key, value);
            },
            None => {},
        }
        i += 1;
    }
    proof {
        assert(pm.take(i as int) =~= pm);
    }
    r
}

} // verus!
