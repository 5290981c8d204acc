//! Incremental HTTP/1.1 request parser.
//!
//! `update` may be fed the wire bytes in chunks of any size, one byte at a
//! time included; the parser never assumes a complete line is available.
//! Its whole behaviour is the spec-level transition system `update_model`,
//! and feeding a request in chunks reaches the same completed request as
//! feeding it whole (`lemma_update_chunks`).

use vstd::prelude::*;
use vstd::string::StringSliceAdditionalSpecFns;

use crate::bytes::{find_pair, lower, split_on, starts_with, trim};
use crate::http::{method_of, Method};
use crate::request::{fresh_req, header_set, post_model, ReqModel, Request};

verus! {

/// The mathematical state of the parser.
pub ghost struct ParserModel {
    pub buffer: Seq<u8>,
    pub line_done: bool,
    pub headers_done: bool,
    pub invalid: bool,
    pub req: Option<ReqModel>,
}

/// The state of a fresh parser.
pub open spec fn init_model() -> ParserModel {
    ParserModel {
        buffer: Seq::empty(),
        line_done: false,
        headers_done: false,
        invalid: false,
        req: None,
    }
}

/// `m` with `data` appended to its buffer.
pub open spec fn buf_add(m: ParserModel, data: Seq<u8>) -> ParserModel {
    ParserModel { buffer: m.buffer + data, ..m }
}

/// Consume a request line: it must split on single spaces into exactly
/// three tokens, the version must begin `HTTP/`, and the method must be
/// one of the fixed set; otherwise the parser turns invalid.
pub open spec fn step_request_line(m: ParserModel, line: Seq<u8>) -> ParserModel {
    let toks = split_on(line, 32);
    if toks.len() != 3 {
        ParserModel { invalid: true, ..m }
    } else if !starts_with(toks[2], "HTTP/".spec_bytes()) {
        ParserModel { invalid: true, ..m }
    } else {
        match method_of(toks[0]) {
            None => ParserModel { invalid: true, ..m },
            Some(meth) => ParserModel {
                line_done: true,
                req: Some(fresh_req(meth, toks[1], toks[2])),
                ..m
            },
        }
    }
}

/// Consume one header line. An empty line ends the header section and
/// derives the post-processed fields; a line without `": "` turns the
/// parser invalid; otherwise the name is trimmed and lower-cased and the
/// header recorded, a repeated name overwriting.
pub open spec fn step_header_line(m: ParserModel, line: Seq<u8>) -> ParserModel {
    if line.len() == 0 {
        match m.req {
            Some(r) => match post_model(r) {
                Some(r2) => ParserModel { headers_done: true, req: Some(r2), ..m },
                None => ParserModel { invalid: true, ..m },
            },
            None => ParserModel { invalid: true, ..m },
        }
    } else {
        match find_pair(line, 58, 32) {
            None => ParserModel { invalid: true, ..m },
            Some(i) => {
                let name = lower(trim(line.take(i)));
                let value = line.skip(i + 2);
                match m.req {
                    Some(r) => ParserModel {
                        req: Some(ReqModel { headers: header_set(r.headers, name, value), ..r }),
                        ..m
                    },
                    None => ParserModel { invalid: true, ..m },
                }
            },
        }
    }
}

/// Consume one complete line.
pub open spec fn step_line(m: ParserModel, line: Seq<u8>) -> ParserModel {
    if !m.line_done {
        step_request_line(m, line)
    } else {
        step_header_line(m, line)
    }
}

/// Once the header section is over, all buffered bytes belong to the body.
pub open spec fn finish_body(m: ParserModel) -> ParserModel {
    match m.req {
        Some(r) => ParserModel {
            buffer: Seq::empty(),
            req: Some(ReqModel { raw_body: r.raw_body + m.buffer, ..r }),
            ..m
        },
        None => m,
    }
}

/// Drive the parser as far as the buffered bytes allow: consume complete
/// lines up to the blank line, then move the rest to the body.
pub open spec fn process(m: ParserModel) -> ParserModel
    decreases m.buffer.len(),
    via process_decreases
{
    if m.invalid {
        m
    } else if m.headers_done {
        finish_body(m)
    } else {
        match find_pair(m.buffer, 13, 10) {
            None => m,
            Some(i) => process(
                step_line(ParserModel { buffer: m.buffer.skip(i + 2), ..m }, m.buffer.take(i)),
            ),
        }
    }
}

#[via_fn]
proof fn process_decreases(m: ParserModel) {
    crate::bytes::lemma_find_pair_props(m.buffer, 13, 10);
}

/// What one call of `update` does: nothing once invalid, else append the
/// new bytes and drive the parser.
pub open spec fn update_model(m: ParserModel, data: Seq<u8>) -> ParserModel {
    if m.invalid {
        m
    } else {
        process(buf_add(m, data))
    }
}

/// Whether the parser reports an unusable request: the grammar was
/// violated, or no request line was ever completed.
pub open spec fn invalid_model(m: ParserModel) -> bool {
    m.invalid || m.req is None
}

/// Whether the parser needs no further bytes: an invalid parse is done;
/// an incomplete header section is not; otherwise the body must reach a
/// declared `content-length`.
pub open spec fn done_model(m: ParserModel) -> bool {
    if invalid_model(m) {
        true
    } else if !m.headers_done {
        false
    } else {
        match m.req {
            Some(r) => match r.content_length {
                Some(n) => r.raw_body.len() >= n,
                None => true,
            },
            None => true,
        }
    }
}

/// Two parser states that tell a caller the same thing: the same flags
/// and the same request; the leftover buffers may differ only once the
/// parse is invalid, where they are never read again.
pub open spec fn same_outcome(a: ParserModel, b: ParserModel) -> bool {
    &&& a.invalid == b.invalid
    &&& a.line_done == b.line_done
    &&& a.headers_done == b.headers_done
    &&& a.req == b.req
    &&& (!a.invalid ==> a == b)
}

/// Consuming a line leaves the buffer alone, so it commutes with
/// appending bytes to the buffer.
proof fn lemma_step_line_buf(m: ParserModel, t: Seq<u8>, line: Seq<u8>)
    ensures
        step_line(buf_add(m, t), line) == buf_add(step_line(m, line), t),
{
}

/// Once driving the parser has turned it invalid, appending more bytes
/// only lengthens the leftover buffer.
proof fn lemma_process_invalid(m: ParserModel, t: Seq<u8>)
    requires
        process(m).invalid,
    ensures
        process(buf_add(m, t)) == buf_add(process(m), t),
    decreases m.buffer.len(),
{
    if m.invalid {
    } else if m.headers_done {
        assert(!process(m).invalid);
    } else {
        match find_pair(m.buffer, 13, 10) {
            None => {
                assert(!process(m).invalid);
            },
            Some(i) => {
                crate::bytes::lemma_find_pair_props(m.buffer, 13, 10);
                crate::bytes::lemma_find_pair_append(m.buffer, t, 13, 10);
                let line = m.buffer.take(i);
                let pre = ParserModel { buffer: m.buffer.skip(i + 2), ..m };
                let m1 = step_line(pre, line);
                assert((m.buffer + t).take(i) =~= line);
                assert((m.buffer + t).skip(i + 2) =~= m.buffer.skip(i + 2) + t);
                assert(ParserModel { buffer: (m.buffer + t).skip(i + 2), ..m } == buf_add(pre, t));
                lemma_step_line_buf(pre, t, line);
                lemma_process_invalid(m1, t);
            },
        }
    }
}

/// Driving the parser commutes with appending bytes: settling what is
/// buffered first and then appending reaches the same state as appending
/// first, as long as the settled state is not invalid.
proof fn lemma_process_append(m: ParserModel, t: Seq<u8>)
    requires
        !process(m).invalid,
    ensures
        process(buf_add(process(m), t)) == process(buf_add(m, t)),
    decreases m.buffer.len(),
{
    if m.invalid {
        assert(false);
    } else if m.headers_done {
        match m.req {
            None => {
            },
            Some(r) => {
                assert((r.raw_body + m.buffer) + t =~= r.raw_body + (m.buffer + t));
            },
        }
    } else {
        match find_pair(m.buffer, 13, 10) {
            None => {
            },
            Some(i) => {
                crate::bytes::lemma_find_pair_props(m.buffer, 13, 10);
                crate::bytes::lemma_find_pair_append(m.buffer, t, 13, 10);
                let line = m.buffer.take(i);
                let pre = ParserModel { buffer: m.buffer.skip(i + 2), ..m };
                let m1 = step_line(pre, line);
                assert((m.buffer + t).take(i) =~= line);
                assert((m.buffer + t).skip(i + 2) =~= m.buffer.skip(i + 2) + t);
                assert(ParserModel { buffer: (m.buffer + t).skip(i + 2), ..m } == buf_add(pre, t));
                lemma_step_line_buf(pre, t, line);
                lemma_process_append(m1, t);
            },
        }
    }
}

/// Driving the parser is idempotent: a settled state settles to itself.
pub proof fn lemma_process_idem(m: ParserModel)
    ensures
        process(process(m)) == process(m),
{
    if process(m).invalid {
    } else {
        lemma_process_append(m, Seq::empty());
        assert(buf_add(process(m), Seq::empty()) == process(m)) by {
            assert(process(m).buffer + Seq::<u8>::empty() =~= process(m).buffer);
        }
        assert(buf_add(m, Seq::empty()) == m) by {
            assert(m.buffer + Seq::<u8>::empty() =~= m.buffer);
        }
    }
}

/// Feed the chunks one `update` at a time.
pub open spec fn feed_model(m: ParserModel, chunks: Seq<Seq<u8>>) -> ParserModel
    decreases chunks.len(),
{
    if chunks.len() == 0 {
        m
    } else {
        feed_model(update_model(m, chunks.first()), chunks.drop_first())
    }
}

/// All the chunks, joined.
pub open spec fn concat_of(chunks: Seq<Seq<u8>>) -> Seq<u8>
    decreases chunks.len(),
{
    if chunks.len() == 0 {
        Seq::empty()
    } else {
        chunks.first() + concat_of(chunks.drop_first())
    }
}

/// An invalid parser ignores whatever else it is fed.
proof fn lemma_feed_invalid(m: ParserModel, chunks: Seq<Seq<u8>>)
    requires
        m.invalid,
    ensures
        feed_model(m, chunks) == m,
    decreases chunks.len(),
{
    if chunks.len() > 0 {
        lemma_feed_invalid(m, chunks.drop_first());
    }
}

/// Feeding a settled parser state chunk by chunk tells the caller exactly
/// what feeding the joined bytes in one call tells it: the same flags and
/// the same completed request.
pub proof fn lemma_feed_concat(m: ParserModel, chunks: Seq<Seq<u8>>)
    requires
        process(m) == m,
    ensures
        same_outcome(feed_model(m, chunks), update_model(m, concat_of(chunks))),
    decreases chunks.len(),
{
    if chunks.len() == 0 {
        if !m.invalid {
            assert(buf_add(m, concat_of(chunks)) == m) by {
                assert(m.buffer + Seq::<u8>::empty() =~= m.buffer);
            }
        }
    } else {
        let c0 = chunks.first();
        let rest = chunks.drop_first();
        let m1 = update_model(m, c0);
        if m.invalid {
            lemma_feed_invalid(m, rest);
        } else {
            assert(buf_add(m, concat_of(chunks)) == buf_add(buf_add(m, c0), concat_of(rest))) by {
                assert(m.buffer + (c0 + concat_of(rest)) =~= (m.buffer + c0) + concat_of(rest));
            }
            if m1.invalid {
                lemma_feed_invalid(m1, rest);
                lemma_process_invalid(buf_add(m, c0), concat_of(rest));
            } else {
                lemma_process_idem(buf_add(m, c0));
                lemma_feed_concat(m1, rest);
                lemma_process_append(buf_add(m, c0), concat_of(rest));
            }
        }
    }
}

/// A fresh parser is settled.
pub proof fn lemma_init_settled()
    ensures
        process(init_model()) == init_model(),
{
    crate::bytes::lemma_find_pair_props(init_model().buffer, 13, 10);
}

/// For every splitting of the wire bytes into chunks, feeding the chunks
/// one `update` at a time reports the same validity and completion and
/// builds the same request as feeding the whole buffer in one call.
pub proof fn lemma_update_chunks(chunks: Seq<Seq<u8>>)
    ensures
        same_outcome(
            feed_model(init_model(), chunks),
            update_model(init_model(), concat_of(chunks)),
        ),
        invalid_model(feed_model(init_model(), chunks)) == invalid_model(
            update_model(init_model(), concat_of(chunks)),
        ),
        done_model(feed_model(init_model(), chunks)) == done_model(
            update_model(init_model(), concat_of(chunks)),
        ),
{
    lemma_init_settled();
    lemma_feed_concat(init_model(), chunks);
}

/// A request line whose method is outside the fixed set, or whose version
/// does not begin `HTTP/`, makes the parser both invalid and done.
pub proof fn lemma_bad_request_line(data: Seq<u8>, i: int)
    requires
        find_pair(data, 13, 10) == Some(i),
        ({
            let toks = split_on(data.take(i), 32);
            toks.len() == 3 && (method_of(toks[0]) is None || !starts_with(
                toks[2],
                "HTTP/".spec_bytes(),
            ))
        }),
    ensures
        invalid_model(update_model(init_model(), data)),
        done_model(update_model(init_model(), data)),
{
    let m = buf_add(init_model(), data);
    assert(m.buffer =~= data);
    crate::bytes::lemma_find_pair_props(data, 13, 10);
    let line = data.take(i);
    let pre = ParserModel { buffer: data.skip(i + 2), ..m };
    let m1 = step_line(pre, line);
    assert(m1.invalid);
    assert(process(m1) == m1);
    assert(process(m) == process(m1));
}

/// While a `content-length` of `n` is declared and the parse is neither
/// invalid nor short of headers, the parser is done exactly when at least
/// `n` body bytes have arrived.
pub proof fn lemma_done_content_length(m: ParserModel, n: u64)
    requires
        !invalid_model(m),
        m.headers_done,
        m.req matches Some(r) && r.content_length == Some(n),
    ensures
        done_model(m) == (m.req->Some_0.raw_body.len() >= n),
{
}

/// Feeding more bytes after the header section only appends them to the
/// body, so the body length grows from the delivered chunks alone.
pub proof fn lemma_body_accumulates(m: ParserModel, data: Seq<u8>)
    requires
        !m.invalid,
        m.headers_done,
        (m.req is Some),
        process(m) == m,
    ensures
        (update_model(m, data).req matches Some(r2) && r2 == (ReqModel {
            raw_body: m.req->Some_0.raw_body + data,
            ..m.req->Some_0
        })),
        update_model(m, data).headers_done,
        !update_model(m, data).invalid,
{
    let r = m.req->Some_0;
    assert(m.buffer =~= Seq::<u8>::empty()) by {
        assert(finish_body(m) == m);
        assert(finish_body(m).buffer =~= Seq::<u8>::empty());
    }
    assert(buf_add(m, data).buffer =~= data);
    assert(update_model(m, data) == finish_body(buf_add(m, data)));
}

/// Header names are matched without regard to ASCII case: two header
/// lines whose names agree after trimming and case folding, and whose
/// values agree, drive the parser to the same state.
pub proof fn lemma_header_case_insensitive(m: ParserModel, l1: Seq<u8>, l2: Seq<u8>)
    requires
        l1.len() > 0,
        l2.len() > 0,
        find_pair(l1, 58, 32) is Some,
        find_pair(l2, 58, 32) is Some,
        lower(trim(l1.take(find_pair(l1, 58, 32)->Some_0))) == lower(
            trim(l2.take(find_pair(l2, 58, 32)->Some_0)),
        ),
        l1.skip(find_pair(l1, 58, 32)->Some_0 + 2) == l2.skip(find_pair(l2, 58, 32)->Some_0 + 2),
    ensures
        step_header_line(m, l1) == step_header_line(m, l2),
{
}

/// The incremental request parser.
pub struct Parser {
    buffer: Vec<u8>,
    has_parsed_request_line: bool,
    has_consumed_req_headers: bool,
    invalid: bool,
    /// The request built so far; complete once `is_done` and not
    /// `is_invalid`.
    pub request: Option<Request>,
}

impl View for Parser {
    type V = ParserModel;

    closed spec fn view(&self) -> ParserModel {
        ParserModel {
            buffer: self.buffer@,
            line_done: self.has_parsed_request_line,
            headers_done: self.has_consumed_req_headers,
            invalid: self.invalid,
            req: match self.request {
                Some(r) => Some(r@),
                None => None,
            },
        }
    }
}

/// Parse a request line into a fresh request, or report that the line is
/// not a well-formed request line.
fn take_request_line(line: &[u8]) -> (r: Option<Request>)
    ensures
        ({
            let toks = split_on(line@, 32);
            match r {
                Some(req) => toks.len() == 3 && starts_with(toks[2], "HTTP/".spec_bytes())
                    && method_of(toks[0]) is Some && req@ == fresh_req(
                    method_of(toks[0])->Some_0,
                    toks[1],
                    toks[2],
                ),
                None => toks.len() != 3 || !starts_with(toks[2], "HTTP/".spec_bytes())
                    || method_of(toks[0]) is None,
            }
        }),
{
    let toks = crate::bytes::split(line, 32);
    let ghost tm = split_on(line@, 32);
    proof {
        assert(toks@.map_values(|v: Vec<u8>| v@).len() == tm.len());
    }
    if toks.len() != 3 {
        return None;
    }
    proof {
        assert(toks@.map_values(|v: Vec<u8>| v@)[2] == tm[2]);
        assert(toks@.map_values(|v: Vec<u8>| v@)[1] == tm[1]);
        assert(toks@.map_values(|v: Vec<u8>| v@)[0] == tm[0]);
    }
    if !crate::bytes::starts_with_bytes(toks[2].as_slice(), "HTTP/".as_bytes()) {
        return None;
    }
    let meth = match Method::from_str(toks[0].as_slice()) {
        Ok(meth) => meth,
        Err(_) => {
            return None;
        },
    };
    let mut toks = toks;
    let version = toks.pop().unwrap();
    let uri = toks.pop().unwrap();
    let req = Request::new(meth, uri, version);
    Some(req)
}

impl Parser {
    /// A fresh parser with an empty buffer and no request.
    pub fn new() -> (r: Parser)
        ensures
            r@ == init_model(),
    {
        let r = Parser {
            buffer: Vec::new(),
            has_parsed_request_line: false,
            has_consumed_req_headers: false,
            invalid: false,
            request: None,
        };
        proof {
            assert(r@.buffer =~= init_model().buffer);
        }
        r
    }

    /// Give up the parser and keep the request built so far.
    pub fn consume_request(self) -> (r: Option<Request>)
        ensures
            match r {
                Some(req) => self@.req == Some(req@),
                None => self@.req is None,
            },
    {
        self.request
    }

    /// Feed the next chunk of wire bytes to the parser.
    pub fn update(&mut self, raw_data: &[u8])
        ensures
            final(self)@ == update_model(old(self)@, raw_data@),
    {
        let mut p = Parser::new();
        core::mem::swap(self, &mut p);
        let mut p = update_owned(p, raw_data);
        core::mem::swap(self, &mut p);
    }

    /// Whether the parser needs no further bytes.
    pub fn is_done(&self) -> (r: bool)
        ensures
            r == done_model(self@),
    {
        if self.is_invalid() {
            return true;
        }
        if !self.has_consumed_req_headers {
            return false;
        }
        if let Some(request) = &self.request {
            if let Some(cl) = request.content_length {
                return request.raw_body.len() as u64 >= cl;
            }
        }
        true
    }

    /// Whether the grammar was violated or no request was ever started.
    pub fn is_invalid(&self) -> (r: bool)
        ensures
            r == invalid_model(self@),
    {
        self.invalid || self.request.is_none()
    }
}

/// The body of `update`, on an owned parser.
fn update_owned(p: Parser, raw_data: &[u8]) -> (r: Parser)
    ensures
        r@ == update_model(p@, raw_data@),
{
    if p.invalid {
        return p;
    }
    let Parser {
        mut buffer,
        mut has_parsed_request_line,
        mut has_consumed_req_headers,
        mut invalid,
        mut request,
    } = p;
    buffer.extend_from_slice(raw_data);
    proof {
        assert(buffer@ =~= p@.buffer + raw_data@);
    }
    let ghost goal = process(buf_add(p@, raw_data@));
    let ghost cur = ParserModel {
        buffer: buffer@,
        line_done: has_parsed_request_line,
        headers_done: has_consumed_req_headers,
        invalid,
        req: match &request {
            Some(r) => Some(r@),
            None => None,
        },
    };
    proof {
        assert(cur == buf_add(p@, raw_data@));
    }
    while !invalid && !has_consumed_req_headers
        invariant
            goal == process(
                ParserModel {
                    buffer: buffer@,
                    line_done: has_parsed_request_line,
                    headers_done: has_consumed_req_headers,
                    invalid,
                    req: match &request {
                        Some(r) => Some(r@),
                        None => None,
                    },
                },
            ),
        ensures
            invalid || has_consumed_req_headers || find_pair(buffer@, 13, 10) is None,
            goal == process(
                ParserModel {
                    buffer: buffer@,
                    line_done: has_parsed_request_line,
                    headers_done: has_consumed_req_headers,
                    invalid,
                    req: match &request {
                        Some(r) => Some(r@),
                        None => None,
                    },
                },
            ),
        decreases buffer@.len(),
    {
        let ghost cur = ParserModel {
            buffer: buffer@,
            line_done: has_parsed_request_line,
            headers_done: has_consumed_req_headers,
            invalid,
            req: match &request {
                Some(r) => Some(r@),
                None => None,
            },
        };
        let blen = buffer.len();
        let i = match crate::bytes::find_pair_at(buffer.as_slice(), 13, 10) {
            Some(i) => i,
            None => {
                break ;
            },
        };
        let line = crate::bytes::sub_vec(buffer.as_slice(), 0, i);
        let rest = crate::bytes::sub_vec(buffer.as_slice(), i + 2, blen);
        proof {
            assert(line@ =~= cur.buffer.take(i as int));
            assert(rest@ =~= cur.buffer.skip(i + 2));
        }
        buffer = rest;
        let ghost mid = ParserModel { buffer: buffer@, ..cur };
        let ghost next = step_line(mid, line@);
        proof {
            assert(process(cur) == process(next));
        }
        if !has_parsed_request_line {
            match take_request_line(line.as_slice()) {
                Some(req) => {
                    request = Some(req);
                    has_parsed_request_line = true;
                },
                None => {
                    invalid = true;
                },
            }
        } else {
            if line.len() == 0 {
                match &mut request {
                    Some(req) => {
                        if req.post_process() {
                            has_consumed_req_headers = true;
                        } else {
                            invalid = true;
                        }
                    },
                    None => {
                        invalid = true;
                    },
                }
            } else {
                match crate::bytes::find_pair_at(line.as_slice(), 58, 32) {
                    None => {
                        invalid = true;
                    },
                    Some(j) => {
                        let raw_name = crate::bytes::sub_vec(line.as_slice(), 0, j);
                        let trimmed = crate::bytes::trim_bytes(raw_name.as_slice());
                        let name = crate::bytes::to_lower(trimmed.as_slice());
                        let value = crate::bytes::sub_vec(line.as_slice(), j + 2, line.len());
                        proof {
                            assert(raw_name@ =~= line@.take(j as int));
                            assert(value@ =~= line@.skip(j + 2));
                        }
                        match &mut request {
                            Some(req) => {
                                let hs = crate::request::headers_put(&req.headers, name, value);
                                req.headers = hs;
                            },
                            None => {
                                invalid = true;
                            },
                        }
                    },
                }
            }
        }
        proof {
            let after = ParserModel {
                buffer: buffer@,
                line_done: has_parsed_request_line,
                headers_done: has_consumed_req_headers,
                invalid,
                req: match &request {
                    Some(r) => Some(r@),
                    None => None,
                },
            };
            assert(after == next);
        }
    }
    let ghost exitm = ParserModel {
        buffer: buffer@,
        line_done: has_parsed_request_line,
        headers_done: has_consumed_req_headers,
        invalid,
        req: match &request {
            Some(r) => Some(r@),
            None => None,
        },
    };
    if !invalid && has_consumed_req_headers {
        proof {
            assert(process(exitm) == finish_body(exitm));
        }
        match &mut request {
            Some(req) => {
                let ghost body0 = req.raw_body@;
                req.raw_body.extend_from_slice(buffer.as_slice());
                proof {
                    assert(req.raw_body@ =~= body0 + exitm.buffer);
                }
                buffer.clear();
                proof {
                    assert(buffer@ =~= Seq::<u8>::empty());
                }
            },
            None => {},
        }
        proof {
            let after = ParserModel {
                buffer: buffer@,
                line_done: has_parsed_request_line,
                headers_done: has_consumed_req_headers,
                invalid,
                req: match &request {
                    Some(r) => Some(r@),
                    None => None,
                },
            };
            assert(after == finish_body(exitm));
        }
    } else {
        proof {
            assert(process(exitm) == exitm);
        }
    }
    let r = Parser {
        buffer,
        has_parsed_request_line,
        has_consumed_req_headers,
        invalid,
        request,
    };
    proof {
        assert(r@ == goal);
    }
    r
}

} // verus!
