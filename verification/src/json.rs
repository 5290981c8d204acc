//! The canonical JSON form of the two record types. Records are written
//! with a fixed key order and no extra whitespace; strings escape the
//! quote, the backslash and control bytes. The decoder reads exactly this
//! canonical form back.

use vstd::prelude::*;
use vstd::string::StringSliceAdditionalSpecFns;

use crate::auth::{level_of_token, level_token, AuthContext, AuthContextV, AuthLevel};
use crate::bytes::{all_digits, dec_digits, dec_value, is_digit, render_dec, starts_with, sub_vec};
use crate::metadata::{Metadata, MetadataV};
use crate::wrappers::hex_digit;

verus! {

/// The escaped form of one byte inside a JSON string: quote and
/// backslash take a backslash, control bytes take a `\u00..` escape,
/// everything else stands as it is.
pub open spec fn esc_byte(b: u8) -> Seq<u8> {
    if b == 34 {
        seq![92u8, 34u8]
    } else if b == 92 {
        seq![92u8, 92u8]
    } else if b < 32 {
        seq![92u8, 117u8, 48u8, 48u8, hex_digit((b / 16) as u8), hex_digit((b % 16) as u8)]
    } else {
        seq![b]
    }
}

/// The escaped form of a byte string.
pub open spec fn esc_bytes(s: Seq<u8>) -> Seq<u8>
    decreases s.len(),
{
    if s.len() == 0 {
        Seq::empty()
    } else {
        esc_byte(s[0]) + esc_bytes(s.drop_first())
    }
}

/// A JSON string: the escaped bytes between quotes.
pub open spec fn json_str(s: Seq<u8>) -> Seq<u8> {
    seq![34u8] + esc_bytes(s) + seq![34u8]
}

/// Append the escaped form of `s` to `out`.
fn push_escaped(out: &mut Vec<u8>, s: &[u8])
    ensures
        final(out)@ == old(out)@ + esc_bytes(s@),
{
    let ghost base = out@;
    let mut i: usize = 0;
    while i < s.len()
        invariant
            0 <= i <= s.len(),
            out@ == base + esc_bytes(s@.take(i as int)),
        decreases s.len() - i,
    {
        let ghost pre = s@.take(i as int);
        proof {
            lemma_esc_snoc(s@.take(i + 1));
            assert(s@.take(i + 1).drop_last() =~= pre);
            assert(s@.take(i + 1).last() == s@[i as int]);
        }
        let b = s[i];
        if b == 34 {
            out.push(92);
            out.push(34);
        } else if b == 92 {
            out.push(92);
            out.push(92);
        } else if b < 32 {
            out.push(92);
            out.push(117);
            out.push(48);
            out.push(48);
            let hi = b / 16;
            let lo = b % 16;
            out.push(if hi < 10 { 48 + hi } else { 87 + hi });
            out.push(if lo < 10 { 48 + lo } else { 87 + lo });
        } else {
            out.push(b);
        }
        proof {
            assert(out@ =~= base + esc_bytes(pre) + esc_byte(s@[i as int]));
            assert(out@ =~= base + esc_bytes(s@.take(i + 1)));
        }
        i += 1;
    }
    proof {
        assert(s@.take(s@.len() as int) =~= s@);
    }
}

/// Escaping a string appends the escape of its last byte.
proof fn lemma_esc_snoc(s: Seq<u8>)
    requires
        s.len() > 0,
    ensures
        esc_bytes(s) == esc_bytes(s.drop_last()) + esc_byte(s.last()),
    decreases s.len(),
{
    if s.len() == 1 {
        assert(s.drop_last() =~= Seq::<u8>::empty());
        assert(s.drop_first() =~= Seq::<u8>::empty());
        assert(esc_bytes(Seq::<u8>::empty()) =~= Seq::<u8>::empty());
        assert(esc_bytes(s) == esc_byte(s[0]) + esc_bytes(s.drop_first()));
        assert(esc_bytes(s) =~= esc_bytes(s.drop_last()) + esc_byte(s.last()));
    } else {
        lemma_esc_snoc(s.drop_first());
        assert(s.drop_first().drop_last() =~= s.drop_last().drop_first());
        assert(s.drop_last()[0] == s[0]);
        assert(s.drop_first().last() == s.last());
        assert(esc_bytes(s) =~= esc_bytes(s.drop_last()) + esc_byte(s.last())) by {
            assert(esc_bytes(s) == esc_byte(s[0]) + esc_bytes(s.drop_first()));
            assert(esc_bytes(s.drop_last()) == esc_byte(s[0]) + esc_bytes(s.drop_last().drop_first()));
        }
    }
}

/// The canonical JSON record of an object descriptor.
pub open spec fn meta_json(m: MetadataV) -> Seq<u8> {
    "{\"name\":".spec_bytes() + json_str(m.name) + ",\"key\":".spec_bytes() + json_str(m.key)
        + ",\"size\":".spec_bytes() + dec_digits(m.size as nat) + ",\"last_modified\":".spec_bytes()
        + dec_digits(m.last_modified as nat) + ",\"etag\":".spec_bytes() + json_str(m.etag)
        + ",\"mime_type\":".spec_bytes() + json_str(m.mime_type) + ",\"owner_id\":".spec_bytes()
        + json_str(m.owner_id) + ",\"readable_by\":".spec_bytes() + json_str(
        level_token(m.readable_by),
    ) + "}".spec_bytes()
}

/// The canonical JSON record of a session.
pub open spec fn ctx_json(c: AuthContextV) -> Seq<u8> {
    "{\"access_key\":".spec_bytes() + json_str(c.access_key) + ",\"access_level\":".spec_bytes()
        + json_str(level_token(c.access_level)) + ",\"last_used\":".spec_bytes() + dec_digits(
        c.last_used as nat,
    ) + ",\"secret_key\":".spec_bytes() + json_str(c.secret_key) + "}".spec_bytes()
}

/// Append a quoted, escaped JSON string.
fn push_json_str(out: &mut Vec<u8>, s: &[u8])
    ensures
        final(out)@ == old(out)@ + json_str(s@),
{
    let ghost base = out@;
    out.push(34);
    push_escaped(out, s);
    out.push(34);
    proof {
        assert(out@ =~= base + json_str(s@));
    }
}

/// Serialize an object descriptor to its canonical JSON record.
pub fn meta_to_json(m: &Metadata) -> (r: Vec<u8>)
    ensures
        r@ == meta_json(m@),
{
    let mut out: Vec<u8> = Vec::new();
    out.extend_from_slice("{\"name\":".as_bytes());
    push_json_str(&mut out, m.name.as_slice());
    out.extend_from_slice(",\"key\":".as_bytes());
    push_json_str(&mut out, m.key.as_slice());
    out.extend_from_slice(",\"size\":".as_bytes());
    let d = render_dec(m.size);
    out.extend_from_slice(d.as_slice());
    out.extend_from_slice(",\"last_modified\":".as_bytes());
    let d = render_dec(m.last_modified);
    out.extend_from_slice(d.as_slice());
    out.extend_from_slice(",\"etag\":".as_bytes());
    push_json_str(&mut out, m.etag.as_slice());
    out.extend_from_slice(",\"mime_type\":".as_bytes());
    push_json_str(&mut out, m.mime_type.as_slice());
    out.extend_from_slice(",\"owner_id\":".as_bytes());
    push_json_str(&mut out, m.owner_id.as_slice());
    out.extend_from_slice(",\"readable_by\":".as_bytes());
    let lvl = m.readable_by.to_string();
    push_json_str(&mut out, lvl.as_str().as_bytes());
    out.extend_from_slice("}".as_bytes());
    proof {
        assert(out@ =~= meta_json(m@));
    }
    out
}

/// Serialize a session to its canonical JSON record.
pub fn ctx_to_json(c: &AuthContext) -> (r: Vec<u8>)
    ensures
        r@ == ctx_json(c@),
{
    let mut out: Vec<u8> = Vec::new();
    out.extend_from_slice("{\"access_key\":".as_bytes());
    push_json_str(&mut out, c.access_key.as_slice());
    out.extend_from_slice(",\"access_level\":".as_bytes());
    let lvl = c.access_level.to_string();
    push_json_str(&mut out, lvl.as_str().as_bytes());
    out.extend_from_slice(",\"last_used\":".as_bytes());
    let d = render_dec(c.last_used);
    out.extend_from_slice(d.as_slice());
    out.extend_from_slice(",\"secret_key\":".as_bytes());
    push_json_str(&mut out, c.secret_key.as_slice());
    out.extend_from_slice("}".as_bytes());
    proof {
        assert(out@ =~= ctx_json(c@));
    }
    out
}

/// The comma-separated JSON records of a list of descriptors, in order.
pub open spec fn metas_inner(ms: Seq<MetadataV>) -> Seq<u8>
    decreases ms.len(),
{
    if ms.len() == 0 {
        Seq::empty()
    } else if ms.len() == 1 {
        meta_json(ms[0])
    } else {
        metas_inner(ms.drop_last()) + ",".spec_bytes() + meta_json(ms.last())
    }
}

/// The JSON array of a list of descriptors, in order.
pub open spec fn metas_json(ms: Seq<MetadataV>) -> Seq<u8> {
    "[".spec_bytes() + metas_inner(ms) + "]".spec_bytes()
}

/// Serialize a list of descriptors to a JSON array.
pub fn metas_to_json(ms: &Vec<Metadata>) -> (r: Vec<u8>)
    ensures
        r@ == metas_json(ms@.map_values(|m: Metadata| m@)),
{
    let ghost mv = ms@.map_values(|m: Metadata| m@);
    let mut out: Vec<u8> = Vec::new();
    out.extend_from_slice("[".as_bytes());
    let mut i: usize = 0;
    while i < ms.len()
        invariant
            0 <= i <= ms.len(),
            mv == ms@.map_values(|m: Metadata| m@),
            mv.len() == ms.len(),
            out@ == "[".spec_bytes() + metas_inner(mv.take(i as int)),
        decreases ms.len() - i,
    {
        let ghost out0 = out@;
        if i > 0 {
            out.extend_from_slice(",".as_bytes());
        }
        let j = meta_to_json(&ms[i]);
        out.extend_from_slice(j.as_slice());
        proof {
            assert(mv.take(i + 1).drop_last() =~= mv.take(i as int));
            assert(mv.take(i + 1).last() == mv[i as int]);
            if i == 0 {
                assert(mv.take(0) =~= Seq::<MetadataV>::empty());
                assert(out@ =~= "[".spec_bytes() + metas_inner(mv.take(1)));
            } else {
                assert(out@ =~= out0 + ",".spec_bytes() + meta_json(mv[i as int]));
                assert(out@ =~= "[".spec_bytes() + metas_inner(mv.take(i + 1)));
            }
        }
        i += 1;
    }
    proof {
        assert(mv.take(i as int) =~= mv);
    }
    out.extend_from_slice("]".as_bytes());
    proof {
        assert(out@ =~= metas_json(mv));
    }
    out
}


/// Whether a byte is a lowercase hex digit.
pub open spec fn is_hex(b: u8) -> bool {
    48 <= b <= 57 || 97 <= b <= 102
}

/// The value of a lowercase hex digit byte.
pub open spec fn hex_val(b: u8) -> u8 {
    if b <= 57 {
        (b - 48) as u8
    } else {
        (b - 87) as u8
    }
}

/// Read the bytes of a JSON string after its opening quote: the decoded
/// bytes and what follows the closing quote. Only the escapes the
/// encoder writes are read back; an unescaped control byte fails.
pub open spec fn parse_chars(b: Seq<u8>) -> Option<(Seq<u8>, Seq<u8>)>
    decreases b.len(),
{
    if b.len() == 0 {
        None
    } else if b[0] == 34 {
        Some((Seq::empty(), b.drop_first()))
    } else if b[0] == 92 {
        if b.len() >= 2 && (b[1] == 34 || b[1] == 92) {
            match parse_chars(b.skip(2)) {
                Some(p) => Some((seq![b[1]] + p.0, p.1)),
                None => None,
            }
        } else if b.len() >= 6 && b[1] == 117 && b[2] == 48 && b[3] == 48 && is_hex(b[4]) && is_hex(
            b[5],
        ) {
            match parse_chars(b.skip(6)) {
                Some(p) => Some((seq![(hex_val(b[4]) * 16 + hex_val(b[5])) as u8] + p.0, p.1)),
                None => None,
            }
        } else {
            None
        }
    } else if b[0] >= 32 {
        match parse_chars(b.drop_first()) {
            Some(p) => Some((seq![b[0]] + p.0, p.1)),
            None => None,
        }
    } else {
        None
    }
}

/// Read a whole JSON string: an opening quote, then its bytes.
pub open spec fn parse_jstr(b: Seq<u8>) -> Option<(Seq<u8>, Seq<u8>)> {
    if b.len() > 0 && b[0] == 34 {
        parse_chars(b.drop_first())
    } else {
        None
    }
}

/// Reading back what the encoder escaped recovers the original bytes
/// and leaves the trailing input untouched.
proof fn lemma_parse_chars_round(s: Seq<u8>, rest: Seq<u8>)
    ensures
        parse_chars(esc_bytes(s) + seq![34u8] + rest) == Some((s, rest)),
    decreases s.len(),
{
    let b = esc_bytes(s) + seq![34u8] + rest;
    if s.len() == 0 {
        assert(b =~= seq![34u8] + rest);
        assert(b[0] == 34);
        assert(b.drop_first() =~= rest);
    } else {
        lemma_parse_chars_round(s.drop_first(), rest);
        let btail = esc_bytes(s.drop_first()) + seq![34u8] + rest;
        assert(esc_bytes(s) == esc_byte(s[0]) + esc_bytes(s.drop_first()));
        let c = s[0];
        if c == 34 || c == 92 {
            assert(b[0] == 92 && b[1] == c);
            assert(b.skip(2) =~= btail);
            assert(seq![c] + s.drop_first() =~= s);
        } else if c < 32 {
            assert(b[0] == 92 && b[1] == 117 && b[2] == 48 && b[3] == 48);
            assert(b[4] == crate::wrappers::hex_digit((c / 16) as u8));
            assert(b[5] == crate::wrappers::hex_digit((c % 16) as u8));
            assert(is_hex(b[4]) && is_hex(b[5]));
            assert(hex_val(b[4]) == c / 16 && hex_val(b[5]) == c % 16);
            assert((hex_val(b[4]) * 16 + hex_val(b[5])) as u8 == c);
            assert(b.skip(6) =~= btail);
            assert(seq![c] + s.drop_first() =~= s);
        } else {
            assert(b[0] == c && c != 34 && c != 92 && c >= 32);
            assert(b.drop_first() =~= btail);
            assert(seq![c] + s.drop_first() =~= s);
        }
    }
}

/// Reading back a whole encoded JSON string.
proof fn lemma_parse_jstr_round(s: Seq<u8>, rest: Seq<u8>)
    ensures
        parse_jstr(json_str(s) + rest) == Some((s, rest)),
{
    let b = json_str(s) + rest;
    assert(b[0] == 34);
    assert(b.drop_first() =~= esc_bytes(s) + seq![34u8] + rest);
    lemma_parse_chars_round(s, rest);
}

/// How many leading decimal digits the input has.
pub open spec fn digits_end(b: Seq<u8>) -> int
    decreases b.len(),
{
    if b.len() > 0 && is_digit(b[0]) {
        1 + digits_end(b.drop_first())
    } else {
        0
    }
}

/// Read a decimal number: its digits and what follows them.
pub open spec fn parse_num(b: Seq<u8>) -> Option<(nat, Seq<u8>)> {
    let n = digits_end(b);
    if n == 0 {
        None
    } else {
        Some((dec_value(b.take(n)), b.skip(n)))
    }
}

/// The canonical digit string of `n` is non-empty, all digits, and
/// denotes `n`.
pub proof fn lemma_dec_digits_props(n: nat)
    ensures
        dec_digits(n).len() >= 1,
        all_digits(dec_digits(n)),
        dec_value(dec_digits(n)) == n,
    decreases n,
{
    if n < 10 {
        let d = dec_digits(n);
        assert(d =~= seq![(n + 48) as u8]);
        assert(d.drop_last() =~= Seq::<u8>::empty());
        assert(dec_value(Seq::<u8>::empty()) == 0);
        assert(dec_value(d) == dec_value(d.drop_last()) * 10 + (d.last() - 48) as nat);
        assert(dec_value(d) == n);
    } else {
        lemma_dec_digits_props(n / 10);
        let d = dec_digits(n);
        assert(d == dec_digits(n / 10).push((n % 10 + 48) as u8));
        assert(d.drop_last() =~= dec_digits(n / 10));
        assert(dec_value(d) == dec_value(dec_digits(n / 10)) * 10 + (d.last() - 48) as nat);
        assert(forall|j: int| 0 <= j < d.len() - 1 ==> d[j] == dec_digits(n / 10)[j]);
    }
}

/// The digit run of an all-digit string followed by a non-digit is
/// exactly that string.
proof fn lemma_digits_end_concat(d: Seq<u8>, rest: Seq<u8>)
    requires
        all_digits(d),
        rest.len() > 0,
        !is_digit(rest[0]),
    ensures
        digits_end(d + rest) == d.len(),
    decreases d.len(),
{
    let b = d + rest;
    if d.len() == 0 {
        assert(b =~= rest);
    } else {
        lemma_digits_end_concat(d.drop_first(), rest);
        assert(b[0] == d[0] && is_digit(b[0]));
        assert(b.drop_first() =~= d.drop_first() + rest);
    }
}

/// Reading back a rendered number recovers it.
proof fn lemma_parse_num_round(n: u64, rest: Seq<u8>)
    requires
        rest.len() > 0,
        !is_digit(rest[0]),
    ensures
        parse_num(dec_digits(n as nat) + rest) == Some((n as nat, rest)),
{
    lemma_dec_digits_props(n as nat);
    lemma_digits_end_concat(dec_digits(n as nat), rest);
    let b = dec_digits(n as nat) + rest;
    let len = dec_digits(n as nat).len() as int;
    assert(b.take(len) =~= dec_digits(n as nat));
    assert(b.skip(len) =~= rest);
}

/// Expect a fixed literal and hand back what follows it.
pub open spec fn expect(b: Seq<u8>, lit: Seq<u8>) -> Option<Seq<u8>> {
    if starts_with(b, lit) {
        Some(b.skip(lit.len() as int))
    } else {
        None
    }
}

/// Expecting a literal that stands there succeeds.
proof fn lemma_expect_concat(lit: Seq<u8>, rest: Seq<u8>)
    ensures
        expect(lit + rest, lit) == Some(rest),
{
    let b = lit + rest;
    assert(b.take(lit.len() as int) =~= lit);
    assert(b.skip(lit.len() as int) =~= rest);
}

/// Reading a level token back gives the level it names.
pub proof fn lemma_level_token_round(l: AuthLevel)
    ensures
        level_of_token(level_token(l)) == l,
{
    reveal_strlit("Public");
    reveal_strlit("Read");
    reveal_strlit("ReadWrite");
    reveal_strlit("Owner");
    reveal_strlit("Admin");
    broadcast use vstd::string::is_ascii_spec_bytes;

    assert(vstd::string::is_ascii("Public"));
    assert(vstd::string::is_ascii("Read"));
    assert(vstd::string::is_ascii("ReadWrite"));
    assert(vstd::string::is_ascii("Owner"));
    assert(vstd::string::is_ascii("Admin"));
    assert("Public".spec_bytes().len() == 6);
    assert("Read".spec_bytes().len() == 4);
    assert("ReadWrite".spec_bytes().len() == 9);
    assert("Owner".spec_bytes().len() == 5);
    assert("Admin".spec_bytes().len() == 5);
    assert("Owner".spec_bytes()[0] == 79);
    assert("Admin".spec_bytes()[0] == 65);
}


/// Read an object descriptor from its canonical JSON record: the exact
/// key order and spacing the encoder writes, nothing after the closing
/// brace, and every number within machine range.
pub open spec fn meta_parse(b: Seq<u8>) -> Option<MetadataV> {
    match expect(b, "{\"name\":".spec_bytes()) {
        None => None,
        Some(b1) => match parse_jstr(b1) {
            None => None,
            Some((name, b2)) => match expect(b2, ",\"key\":".spec_bytes()) {
                None => None,
                Some(b3) => match parse_jstr(b3) {
                    None => None,
                    Some((key, b4)) => match expect(b4, ",\"size\":".spec_bytes()) {
                        None => None,
                        Some(b5) => match parse_num(b5) {
                            None => None,
                            Some((size, b6)) => if size > u64::MAX {
                                None
                            } else {
                                match expect(b6, ",\"last_modified\":".spec_bytes()) {
                                    None => None,
                                    Some(b7) => match parse_num(b7) {
                                        None => None,
                                        Some((lm, b8)) => if lm > u64::MAX {
                                            None
                                        } else {
                                            match expect(b8, ",\"etag\":".spec_bytes()) {
                                                None => None,
                                                Some(b9) => match parse_jstr(b9) {
                                                    None => None,
                                                    Some((etag, b10)) => meta_parse_tail(
                                                        b10,
                                                        name,
                                                        key,
                                                        size as u64,
                                                        lm as u64,
                                                        etag,
                                                    ),
                                                },
                                            }
                                        },
                                    },
                                }
                            },
                        },
                    },
                },
            },
        },
    }
}

/// The tail of `meta_parse`: the MIME token, the owner and the read
/// level, then the closing brace and the end of the input.
pub open spec fn meta_parse_tail(
    b: Seq<u8>,
    name: Seq<u8>,
    key: Seq<u8>,
    size: u64,
    lm: u64,
    etag: Seq<u8>,
) -> Option<MetadataV> {
    match expect(b, ",\"mime_type\":".spec_bytes()) {
        None => None,
        Some(b1) => match parse_jstr(b1) {
            None => None,
            Some((mime, b2)) => match expect(b2, ",\"owner_id\":".spec_bytes()) {
                None => None,
                Some(b3) => match parse_jstr(b3) {
                    None => None,
                    Some((owner, b4)) => match expect(b4, ",\"readable_by\":".spec_bytes()) {
                        None => None,
                        Some(b5) => match parse_jstr(b5) {
                            None => None,
                            Some((lvl, b6)) => match expect(b6, "}".spec_bytes()) {
                                None => None,
                                Some(b7) => if b7.len() == 0 {
                                    Some(
                                        MetadataV {
                                            name,
                                            key,
                                            size,
                                            last_modified: lm,
                                            etag,
                                            mime_type: mime,
                                            owner_id: owner,
                                            readable_by: level_of_token(lvl),
                                        },
                                    )
                                } else {
                                    None
                                },
                            },
                        },
                    },
                },
            },
        },
    }
}

/// Read a session record from its canonical JSON form.
pub open spec fn ctx_parse(b: Seq<u8>) -> Option<AuthContextV> {
    match expect(b, "{\"access_key\":".spec_bytes()) {
        None => None,
        Some(b1) => match parse_jstr(b1) {
            None => None,
            Some((akey, b2)) => match expect(b2, ",\"access_level\":".spec_bytes()) {
                None => None,
                Some(b3) => match parse_jstr(b3) {
                    None => None,
                    Some((lvl, b4)) => match expect(b4, ",\"last_used\":".spec_bytes()) {
                        None => None,
                        Some(b5) => match parse_num(b5) {
                            None => None,
                            Some((lu, b6)) => if lu > u64::MAX {
                                None
                            } else {
                                match expect(b6, ",\"secret_key\":".spec_bytes()) {
                                    None => None,
                                    Some(b7) => match parse_jstr(b7) {
                                        None => None,
                                        Some((skey, b8)) => match expect(b8, "}".spec_bytes()) {
                                            None => None,
                                            Some(b9) => if b9.len() == 0 {
                                                Some(
                                                    AuthContextV {
                                                        access_key: akey,
                                                        access_level: level_of_token(lvl),
                                                        last_used: lu as u64,
                                                        secret_key: skey,
                                                    },
                                                )
                                            } else {
                                                None
                                            },
                                        },
                                    },
                                }
                            },
                        },
                    },
                },
            },
        },
    }
}

/// Serializing an object descriptor and reading it back yields the same
/// descriptor.
/// The tail of the descriptor round trip: MIME token, owner, level and
/// the closing brace.
#[verifier::rlimit(100)]
#[verifier::spinoff_prover]
proof fn lemma_meta_tail_round(m: MetadataV)
    ensures
        meta_parse_tail(
            ",\"mime_type\":".spec_bytes() + (json_str(m.mime_type) + (",\"owner_id\":".spec_bytes()
                + (json_str(m.owner_id) + (",\"readable_by\":".spec_bytes() + (json_str(
                level_token(m.readable_by),
            ) + "}".spec_bytes()))))),
            m.name,
            m.key,
            m.size,
            m.last_modified,
            m.etag,
        ) == Some(m),
{
    let s8 = "}".spec_bytes();
    let s7b = json_str(level_token(m.readable_by)) + s8;
    let s7 = ",\"readable_by\":".spec_bytes() + s7b;
    let s6b = json_str(m.owner_id) + s7;
    let s6 = ",\"owner_id\":".spec_bytes() + s6b;
    let s5b = json_str(m.mime_type) + s6;
    let s5 = ",\"mime_type\":".spec_bytes() + s5b;
    lemma_expect_concat(",\"mime_type\":".spec_bytes(), s5b);
    assert(expect(s5, ",\"mime_type\":".spec_bytes()) == Some(s5b));
    lemma_parse_jstr_round(m.mime_type, s6);
    assert(parse_jstr(s5b) == Some((m.mime_type, s6)));
    lemma_expect_concat(",\"owner_id\":".spec_bytes(), s6b);
    assert(expect(s6, ",\"owner_id\":".spec_bytes()) == Some(s6b));
    lemma_parse_jstr_round(m.owner_id, s7);
    assert(parse_jstr(s6b) == Some((m.owner_id, s7)));
    lemma_expect_concat(",\"readable_by\":".spec_bytes(), s7b);
    assert(expect(s7, ",\"readable_by\":".spec_bytes()) == Some(s7b));
    lemma_parse_jstr_round(level_token(m.readable_by), s8);
    assert(parse_jstr(s7b) == Some((level_token(m.readable_by), s8)));
    assert(s8 =~= "}".spec_bytes() + Seq::<u8>::empty());
    lemma_expect_concat("}".spec_bytes(), Seq::<u8>::empty());
    assert(expect(s8, "}".spec_bytes()) == Some(Seq::<u8>::empty()));
    lemma_level_token_round(m.readable_by);
}

/// Serializing an object descriptor and reading it back yields the same
/// descriptor.
#[verifier::rlimit(100)]
#[verifier::spinoff_prover]
pub proof fn lemma_meta_round_trip(m: MetadataV)
    ensures
        meta_parse(meta_json(m)) == Some(m),
{
    reveal_strlit(",\"last_modified\":");
    reveal_strlit(",\"etag\":");
    broadcast use vstd::string::is_ascii_spec_bytes;

    assert(vstd::string::is_ascii(",\"last_modified\":"));
    assert(vstd::string::is_ascii(",\"etag\":"));
    let s8 = "}".spec_bytes();
    let s7b = json_str(level_token(m.readable_by)) + s8;
    let s7 = ",\"readable_by\":".spec_bytes() + s7b;
    let s6b = json_str(m.owner_id) + s7;
    let s6 = ",\"owner_id\":".spec_bytes() + s6b;
    let s5b = json_str(m.mime_type) + s6;
    let s5 = ",\"mime_type\":".spec_bytes() + s5b;
    let s4b = json_str(m.etag) + s5;
    let s4 = ",\"etag\":".spec_bytes() + s4b;
    let s3b = dec_digits(m.last_modified as nat) + s4;
    let s3 = ",\"last_modified\":".spec_bytes() + s3b;
    let s2b = dec_digits(m.size as nat) + s3;
    let s2 = ",\"size\":".spec_bytes() + s2b;
    let s1b = json_str(m.key) + s2;
    let s1 = ",\"key\":".spec_bytes() + s1b;
    let s0b = json_str(m.name) + s1;
    let b = meta_json(m);
    assert(b =~= "{\"name\":".spec_bytes() + s0b);
    lemma_expect_concat("{\"name\":".spec_bytes(), s0b);
    assert(expect(b, "{\"name\":".spec_bytes()) == Some(s0b));
    lemma_parse_jstr_round(m.name, s1);
    assert(parse_jstr(s0b) == Some((m.name, s1)));
    lemma_expect_concat(",\"key\":".spec_bytes(), s1b);
    assert(expect(s1, ",\"key\":".spec_bytes()) == Some(s1b));
    lemma_parse_jstr_round(m.key, s2);
    assert(parse_jstr(s1b) == Some((m.key, s2)));
    lemma_expect_concat(",\"size\":".spec_bytes(), s2b);
    assert(expect(s2, ",\"size\":".spec_bytes()) == Some(s2b));
    assert(s3[0] == 44 && !is_digit(s3[0]));
    lemma_parse_num_round(m.size, s3);
    assert(parse_num(s2b) == Some((m.size as nat, s3)));
    lemma_expect_concat(",\"last_modified\":".spec_bytes(), s3b);
    assert(expect(s3, ",\"last_modified\":".spec_bytes()) == Some(s3b));
    assert(s4[0] == 44 && !is_digit(s4[0]));
    lemma_parse_num_round(m.last_modified, s4);
    assert(parse_num(s3b) == Some((m.last_modified as nat, s4)));
    lemma_expect_concat(",\"etag\":".spec_bytes(), s4b);
    assert(expect(s4, ",\"etag\":".spec_bytes()) == Some(s4b));
    lemma_parse_jstr_round(m.etag, s5);
    assert(parse_jstr(s4b) == Some((m.etag, s5)));
    lemma_meta_tail_round(m);
    assert(meta_parse_tail(s5, m.name, m.key, m.size, m.last_modified, m.etag) == Some(m));
}

/// Serializing a session and reading it back yields the same session.
#[verifier::rlimit(100)]
#[verifier::spinoff_prover]
pub proof fn lemma_ctx_round_trip(c: AuthContextV)
    ensures
        ctx_parse(ctx_json(c)) == Some(c),
{
    reveal_strlit(",\"secret_key\":");
    broadcast use vstd::string::is_ascii_spec_bytes;

    assert(vstd::string::is_ascii(",\"secret_key\":"));
    let s4 = "}".spec_bytes();
    let s3b = json_str(c.secret_key) + s4;
    let s3 = ",\"secret_key\":".spec_bytes() + s3b;
    let s2b = dec_digits(c.last_used as nat) + s3;
    let s2 = ",\"last_used\":".spec_bytes() + s2b;
    let s1b = json_str(level_token(c.access_level)) + s2;
    let s1 = ",\"access_level\":".spec_bytes() + s1b;
    let s0b = json_str(c.access_key) + s1;
    let b = ctx_json(c);
    assert(b =~= "{\"access_key\":".spec_bytes() + s0b);
    lemma_expect_concat("{\"access_key\":".spec_bytes(), s0b);
    lemma_parse_jstr_round(c.access_key, s1);
    lemma_expect_concat(",\"access_level\":".spec_bytes(), s1b);
    lemma_parse_jstr_round(level_token(c.access_level), s2);
    lemma_expect_concat(",\"last_used\":".spec_bytes(), s2b);
    assert(s3[0] == 44 && !is_digit(s3[0]));
    lemma_parse_num_round(c.last_used, s3);
    lemma_expect_concat(",\"secret_key\":".spec_bytes(), s3b);
    lemma_parse_jstr_round(c.secret_key, s4);
    assert(s4 =~= "}".spec_bytes() + Seq::<u8>::empty());
    lemma_expect_concat("}".spec_bytes(), Seq::<u8>::empty());
    lemma_level_token_round(c.access_level);
}


/// Expect a fixed literal at the front of the input.
fn expect_lit<'a>(b: &'a [u8], lit: &[u8]) -> (r: Option<&'a [u8]>)
    ensures
        match r {
            Some(t) => expect(b@, lit@) == Some(t@),
            None => expect(b@, lit@) is None,
        },
{
    if crate::bytes::starts_with_bytes(b, lit) {
        let t = &b[lit.len()..b.len()];
        proof {
            assert(t@ =~= b@.skip(lit@.len() as int));
        }
        Some(t)
    } else {
        None
    }
}

/// Read a JSON string from the front of the input.
fn read_jstr<'a>(b: &'a [u8]) -> (r: Option<(Vec<u8>, &'a [u8])>)
    ensures
        match r {
            Some(p) => (parse_jstr(b@) matches Some(q) && q.0 == p.0@ && q.1 == p.1@),
            None => parse_jstr(b@) is None,
        },
{
    if b.len() == 0 || b[0] != 34 {
        return None;
    }
    let mut out: Vec<u8> = Vec::new();
    let mut pos: usize = 1;
    proof {
        assert(out@ + parse_chars(b@.skip(1))->Some_0.0 =~= parse_chars(b@.skip(1))->Some_0.0);
    }
    loop
        invariant
            1 <= pos <= b@.len(),
            b@.len() > 0 && b@[0] == 34,
            parse_chars(b@.skip(1)) == (match parse_chars(b@.skip(pos as int)) {
                Some(p) => Some((out@ + p.0, p.1)),
                None => None,
            }),
        decreases b@.len() - pos,
    {
        let ghost opos = pos as int;
        let ghost oout = out@;
        let ghost s = b@.skip(opos);
        proof {
            assert(forall|j: int| 0 <= j < s.len() ==> s[j] == b@[opos + j]);
        }
        if pos >= b.len() {
            proof {
                assert(s.len() == 0);
            }
            return None;
        }
        let c = b[pos];
        if c == 34 {
            let t = &b[pos + 1..b.len()];
            proof {
                assert(s[0] == 34);
                assert(s.drop_first() =~= b@.skip(opos + 1));
                assert(t@ =~= b@.skip(opos + 1));
                assert(oout + Seq::<u8>::empty() =~= oout);
                assert(parse_chars(s) == Some((Seq::<u8>::empty(), s.drop_first())));
                assert(parse_chars(b@.skip(1)) == Some((oout, t@)));
                assert(b@.drop_first() =~= b@.skip(1));
                assert(parse_jstr(b@) == parse_chars(b@.drop_first()));
            }
            return Some((out, t));
        } else if c == 92 {
            if pos + 1 < b.len() && (b[pos + 1] == 34 || b[pos + 1] == 92) {
                out.push(b[pos + 1]);
                pos = pos + 2;
                proof {
                    assert(s[0] == 92 && (s[1] == 34 || s[1] == 92));
                    assert(s.skip(2) =~= b@.skip(opos + 2));
                    if parse_chars(b@.skip(pos as int)) is Some {
                        let p = parse_chars(b@.skip(pos as int))->Some_0;
                        assert(oout + (seq![s[1]] + p.0) =~= out@ + p.0);
                    }
                }
            } else if b.len() - pos > 5 && b[pos + 1] == 117 && b[pos + 2] == 48 && b[pos + 3]
                == 48 && (48 <= b[pos + 4] && b[pos + 4] <= 57 || 97 <= b[pos + 4] && b[pos + 4]
                <= 102) && (48 <= b[pos + 5] && b[pos + 5] <= 57 || 97 <= b[pos + 5] && b[pos + 5]
                <= 102) {
                let hi = if b[pos + 4] <= 57 {
                    b[pos + 4] - 48
                } else {
                    b[pos + 4] - 87
                };
                let lo = if b[pos + 5] <= 57 {
                    b[pos + 5] - 48
                } else {
                    b[pos + 5] - 87
                };
                out.push(hi * 16 + lo);
                pos = pos + 6;
                proof {
                    assert(s[0] == 92 && s[1] == 117 && s[2] == 48 && s[3] == 48);
                    assert(is_hex(s[4]) && is_hex(s[5]));
                    assert(hi == hex_val(s[4]) && lo == hex_val(s[5]));
                    assert(s.skip(6) =~= b@.skip(opos + 6));
                    if parse_chars(b@.skip(pos as int)) is Some {
                        let p = parse_chars(b@.skip(pos as int))->Some_0;
                        assert(oout + (seq![(hex_val(s[4]) * 16 + hex_val(s[5])) as u8] + p.0)
                            =~= out@ + p.0);
                    }
                }
            } else {
                proof {
                    assert(s[0] == 92);
                    if s.len() >= 2 {
                        assert(s[1] == b@[opos + 1]);
                    }
                }
                return None;
            }
        } else if c >= 32 {
            out.push(c);
            pos = pos + 1;
            proof {
                assert(s[0] == c && c != 34 && c != 92 && c >= 32);
                assert(s.drop_first() =~= b@.skip(opos + 1));
                if parse_chars(b@.skip(pos as int)) is Some {
                    let p = parse_chars(b@.skip(pos as int))->Some_0;
                    assert(oout + (seq![c] + p.0) =~= out@ + p.0);
                }
            }
        } else {
            proof {
                assert(s[0] == c && c < 32 && c != 34);
            }
            return None;
        }
    }
}

/// Where the leading digit run of the input ends.
proof fn lemma_digits_end_at(b: Seq<u8>, j: int)
    requires
        0 <= j <= b.len(),
        forall|k: int| 0 <= k < j ==> is_digit(b[k]),
        j < b.len() ==> !is_digit(b[j]),
    ensures
        digits_end(b) == j,
    decreases j,
{
    if j > 0 {
        lemma_digits_end_at(b.drop_first(), j - 1);
    }
}

/// Read a decimal number from the front of the input; numbers beyond
/// machine range fail.
fn read_u64<'a>(b: &'a [u8]) -> (r: Option<(u64, &'a [u8])>)
    ensures
        match r {
            Some(p) => (parse_num(b@) matches Some(q) && q.0 == p.0 && q.1 == p.1@),
            None => parse_num(b@) is None || parse_num(b@)->Some_0.0 > u64::MAX,
        },
{
    let mut j: usize = 0;
    while j < b.len() && 48 <= b[j] && b[j] <= 57
        invariant
            0 <= j <= b.len(),
            forall|k: int| 0 <= k < j ==> is_digit(b@[k]),
        decreases b.len() - j,
    {
        j += 1;
    }
    proof {
        lemma_digits_end_at(b@, j as int);
    }
    if j == 0 {
        return None;
    }
    let digits = sub_vec(b, 0, j);
    match crate::bytes::parse_dec(digits.as_slice()) {
        Some(n) => {
            let t = &b[j..b.len()];
            proof {
                assert(digits@ =~= b@.take(j as int));
                assert(t@ =~= b@.skip(j as int));
            }
            Some((n, t))
        },
        None => {
            proof {
                assert(digits@ =~= b@.take(j as int));
            }
            None
        },
    }
}

/// Read an object descriptor back from its canonical JSON record.
pub fn meta_from_json(b: &[u8]) -> (r: Option<Metadata>)
    ensures
        match r {
            Some(m) => meta_parse(b@) == Some(m@),
            None => meta_parse(b@) is None,
        },
{
    let b1 = match expect_lit(b, "{\"name\":".as_bytes()) {
        Some(t) => t,
        None => {
            return None;
        },
    };
    let (name, b2) = match read_jstr(b1) {
        Some(p) => p,
        None => {
            return None;
        },
    };
    let b3 = match expect_lit(b2, ",\"key\":".as_bytes()) {
        Some(t) => t,
        None => {
            return None;
        },
    };
    let (key, b4) = match read_jstr(b3) {
        Some(p) => p,
        None => {
            return None;
        },
    };
    let b5 = match expect_lit(b4, ",\"size\":".as_bytes()) {
        Some(t) => t,
        None => {
            return None;
        },
    };
    let (size, b6) = match read_u64(b5) {
        Some(p) => p,
        None => {
            return None;
        },
    };
    let b7 = match expect_lit(b6, ",\"last_modified\":".as_bytes()) {
        Some(t) => t,
        None => {
            return None;
        },
    };
    let (lm, b8) = match read_u64(b7) {
        Some(p) => p,
        None => {
            return None;
        },
    };
    let b9 = match expect_lit(b8, ",\"etag\":".as_bytes()) {
        Some(t) => t,
        None => {
            return None;
        },
    };
    let (etag, b10) = match read_jstr(b9) {
        Some(p) => p,
        None => {
            return None;
        },
    };
    let b11 = match expect_lit(b10, ",\"mime_type\":".as_bytes()) {
        Some(t) => t,
        None => {
            return None;
        },
    };
    let (mime, b12) = match read_jstr(b11) {
        Some(p) => p,
        None => {
            return None;
        },
    };
    let b13 = match expect_lit(b12, ",\"owner_id\":".as_bytes()) {
        Some(t) => t,
        None => {
            return None;
        },
    };
    let (owner, b14) = match read_jstr(b13) {
        Some(p) => p,
        None => {
            return None;
        },
    };
    let b15 = match expect_lit(b14, ",\"readable_by\":".as_bytes()) {
        Some(t) => t,
        None => {
            return None;
        },
    };
    let (lvl, b16) = match read_jstr(b15) {
        Some(p) => p,
        None => {
            return None;
        },
    };
    let b17 = match expect_lit(b16, "}".as_bytes()) {
        Some(t) => t,
        None => {
            return None;
        },
    };
    if b17.len() != 0 {
        return None;
    }
    let readable_by = AuthLevel::from_token(lvl.as_slice());
    Some(
        Metadata {
            name,
            key,
            size,
            last_modified: lm,
            etag,
            mime_type: mime,
            owner_id: owner,
            readable_by,
        },
    )
}

/// Read a session record back from its canonical JSON form.
pub fn ctx_from_json(b: &[u8]) -> (r: Option<AuthContext>)
    ensures
        match r {
            Some(c) => ctx_parse(b@) == Some(c@),
            None => ctx_parse(b@) is None,
        },
{
    let b1 = match expect_lit(b, "{\"access_key\":".as_bytes()) {
        Some(t) => t,
        None => {
            return None;
        },
    };
    let (akey, b2) = match read_jstr(b1) {
        Some(p) => p,
        None => {
            return None;
        },
    };
    let b3 = match expect_lit(b2, ",\"access_level\":".as_bytes()) {
        Some(t) => t,
        None => {
            return None;
        },
    };
    let (lvl, b4) = match read_jstr(b3) {
        Some(p) => p,
        None => {
            return None;
        },
    };
    let b5 = match expect_lit(b4, ",\"last_used\":".as_bytes()) {
        Some(t) => t,
        None => {
            return None;
        },
    };
    let (lu, b6) = match read_u64(b5) {
        Some(p) => p,
        None => {
            return None;
        },
    };
    let b7 = match expect_lit(b6, ",\"secret_key\":".as_bytes()) {
        Some(t) => t,
        None => {
            return None;
        },
    };
    let (skey, b8) = match read_jstr(b7) {
        Some(p) => p,
        None => {
            return None;
        },
    };
    let b9 = match expect_lit(b8, "}".as_bytes()) {
        Some(t) => t,
        None => {
            return None;
        },
    };
    if b9.len() != 0 {
        return None;
    }
    let access_level = AuthLevel::from_token(lvl.as_slice());
    Some(AuthContext { access_key: akey, access_level, last_used: lu, secret_key: skey })
}

} // verus!
