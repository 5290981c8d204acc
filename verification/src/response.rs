//! The response builder: status code, header map and body, serialized to
//! wire bytes. The `set-cookie` header is emitted only when the response
//! was marked as having needed authentication; otherwise it is silently
//! dropped from the serialized output.

use vstd::prelude::*;
use vstd::string::StringSliceAdditionalSpecFns;

use crate::bytes::{dec_digits, render_dec, sub_vec};
use crate::http::{mime_token, status_code_lookup, status_reason, MimeType};
use crate::request::{header_set, headers_put, hview};

verus! {

/// The serialized form of the header lines: each `name: value` line in
/// insertion order, a `set-cookie` line kept only on responses that
/// needed authentication.
pub open spec fn render_headers(hs: Seq<(Seq<u8>, Seq<u8>)>, emit_cookie: bool) -> Seq<u8>
    decreases hs.len(),
{
    if hs.len() == 0 {
        Seq::empty()
    } else {
        render_headers(hs.drop_last(), emit_cookie) + (if hs.last().0 == "set-cookie".spec_bytes()
            && !emit_cookie {
            Seq::<u8>::empty()
        } else {
            hs.last().0 + ": ".spec_bytes() + hs.last().1 + "\r\n".spec_bytes()
        })
    }
}

/// The wire bytes of a response: the status line with the looked-up
/// reason phrase, the header lines, a blank line, then the body verbatim.
pub open spec fn render_response(
    status_code: u16,
    headers: Seq<(Seq<u8>, Seq<u8>)>,
    body: Seq<u8>,
    emit_cookie: bool,
) -> Seq<u8> {
    "HTTP/1.1 ".spec_bytes() + dec_digits(status_code as nat) + " ".spec_bytes() + status_reason(
        status_code,
    ) + "\r\n".spec_bytes() + render_headers(headers, emit_cookie) + "\r\n".spec_bytes() + body
}

/// The cookie header value `key=value`, with the `HttpOnly` attribute
/// when asked for.
pub open spec fn cookie_value(key: Seq<u8>, value: Seq<u8>, httponly: bool) -> Seq<u8> {
    key + "=".spec_bytes() + value + (if httponly {
        "; HttpOnly".spec_bytes()
    } else {
        Seq::<u8>::empty()
    })
}

/// An HTTP response being assembled.
pub struct Response {
    pub required_authentication: bool,
    pub status_code: u16,
    pub headers: Vec<(Vec<u8>, Vec<u8>)>,
    pub body: Vec<u8>,
}

impl Response {
    /// An empty response with the given status code.
    pub fn new(status_code: u16) -> (r: Response)
        ensures
            r.status_code == status_code,
            hview(r.headers@) == Seq::<(Seq<u8>, Seq<u8>)>::empty(),
            r.body@ == Seq::<u8>::empty(),
            !r.required_authentication,
    {
        let r = Response {
            required_authentication: false,
            status_code,
            headers: Vec::new(),
            body: Vec::new(),
        };
        proof {
            assert(hview(r.headers@) =~= Seq::<(Seq<u8>, Seq<u8>)>::empty());
        }
        r
    }

    /// Mark that serving this response needed authentication context, so
    /// a session cookie may be issued with it.
    pub fn mark_required_authentication(&mut self)
        ensures
            *final(self) == (Response { required_authentication: true, ..*old(self) }),
    {
        self.required_authentication = true;
    }

    /// Replace the status code.
    pub fn set_status_code(&mut self, status_code: u16)
        ensures
            *final(self) == (Response { status_code, ..*old(self) }),
    {
        self.status_code = status_code;
    }

    /// Bind a header, replacing an earlier binding of the same name.
    pub fn set_header(&mut self, key: &[u8], value: &[u8])
        ensures
            hview(final(self).headers@) == header_set(hview(old(self).headers@), key@, value@),
            final(self).status_code == old(self).status_code,
            final(self).body@ == old(self).body@,
            final(self).required_authentication == old(self).required_authentication,
    {
        let k = sub_vec(key, 0, key.len());
        let v = sub_vec(value, 0, value.len());
        proof {
            assert(k@ =~= key@);
            assert(v@ =~= value@);
        }
        let hs = headers_put(&self.headers, k, v);
        self.headers = hs;
    }

    /// Store a `key=value` cookie under the `set-cookie` header, with the
    /// `HttpOnly` attribute when asked for.
    pub fn set_cookie(&mut self, key: &[u8], value: &[u8], httponly: bool)
        ensures
            hview(final(self).headers@) == header_set(
                hview(old(self).headers@),
                "set-cookie".spec_bytes(),
                cookie_value(key@, value@, httponly),
            ),
            final(self).status_code == old(self).status_code,
            final(self).body@ == old(self).body@,
            final(self).required_authentication == old(self).required_authentication,
    {
        let mut v = sub_vec(key, 0, key.len());
        proof {
            assert(v@ =~= key@);
        }
        v.extend_from_slice("=".as_bytes());
        v.extend_from_slice(value);
        let ghost base = key@ + "=".spec_bytes() + value@;
        proof {
            assert(v@ =~= base);
        }
        if httponly {
            v.extend_from_slice("; HttpOnly".as_bytes());
            proof {
                assert(v@ =~= cookie_value(key@, value@, true));
            }
        } else {
            proof {
                assert(v@ =~= cookie_value(key@, value@, false));
            }
        }
        let sc = "set-cookie".as_bytes();
        let k = sub_vec(sc, 0, sc.len());
        proof {
            assert(k@ =~= "set-cookie".spec_bytes());
        }
        let hs = headers_put(&self.headers, k, v);
        self.headers = hs;
    }

    /// Install the body, recording its length and MIME type as headers.
    pub fn set_body(&mut self, body: Vec<u8>, mime_type: MimeType)
        ensures
            hview(final(self).headers@) == header_set(
                header_set(
                    hview(old(self).headers@),
                    "content-length".spec_bytes(),
                    dec_digits(body@.len()),
                ),
                "content-type".spec_bytes(),
                mime_token(mime_type),
            ),
            final(self).body@ == body@,
            final(self).status_code == old(self).status_code,
            final(self).required_authentication == old(self).required_authentication,
    {
        let len64: u64 = body.len() as u64;
        let lenbytes = render_dec(len64);
        self.set_header("content-length".as_bytes(), lenbytes.as_slice());
        let t = mime_type.to_str();
        self.set_header("content-type".as_bytes(), t.as_bytes());
        self.body = body;
    }

    /// Serialize to wire bytes.
    pub fn as_bytes(&self) -> (r: Vec<u8>)
        ensures
            r@ == render_response(
                self.status_code,
                hview(self.headers@),
                self.body@,
                self.required_authentication,
            ),
    {
        let mut out: Vec<u8> = Vec::new();
        out.extend_from_slice("HTTP/1.1 ".as_bytes());
        let code = render_dec(self.status_code as u64);
        out.extend_from_slice(code.as_slice());
        out.extend_from_slice(" ".as_bytes());
        let reason = status_code_lookup(self.status_code);
        out.extend_from_slice(reason.as_bytes());
        out.extend_from_slice("\r\n".as_bytes());
        let ghost prefix = "HTTP/1.1 ".spec_bytes() + dec_digits(self.status_code as nat)
            + " ".spec_bytes() + status_reason(self.status_code) + "\r\n".spec_bytes();
        proof {
            assert(out@ =~= prefix);
        }
        let ghost hm = hview(self.headers@);
        let mut i: usize = 0;
        while i < self.headers.len()
            invariant
                0 <= i <= self.headers.len(),
                hm == hview(self.headers@),
                hm.len() == self.headers.len(),
                out@ == prefix + render_headers(hm.take(i as int), self.required_authentication),
            decreases self.headers.len() - i,
        {
            proof {
                crate::request::lemma_hview_index(self.headers@, i as int);
                assert(hm.take(i + 1).drop_last() =~= hm.take(i as int));
                assert(hm.take(i + 1).last() == hm[i as int]);
            }
            let ghost out0 = out@;
            let skip_cookie = crate::bytes::bytes_eq(
                self.headers[i].0.as_slice(),
                "set-cookie".as_bytes(),
            ) && !self.required_authentication;
            if !skip_cookie {
                out.extend_from_slice(self.headers[i].0.as_slice());
                out.extend_from_slice(": ".as_bytes());
                out.extend_from_slice(self.headers[i].1.as_slice());
                out.extend_from_slice("\r\n".as_bytes());
                proof {
                    assert(out@ =~= out0 + (hm[i as int].0 + ": ".spec_bytes() + hm[i as int].1
                        + "\r\n".spec_bytes()));
                    assert(out@ =~= prefix + render_headers(
                        hm.take(i + 1),
                        self.required_authentication,
                    ));
                }
            } else {
                proof {
                    assert(out@ =~= out0 + Seq::<u8>::empty());
                    assert(out@ =~= prefix + render_headers(
                        hm.take(i + 1),
                        self.required_authentication,
                    ));
                }
            }
            i += 1;
        }
        proof {
            assert(hm.take(i as int) =~= hm);
        }
        out.extend_from_slice("\r\n".as_bytes());
        out.extend_from_slice(self.body.as_slice());
        proof {
            assert(out@ =~= render_response(
                self.status_code,
                hm,
                self.body@,
                self.required_authentication,
            ));
        }
        out
    }
}

} // verus!
