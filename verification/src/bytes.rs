//! Small byte-level helpers shared by the protocol modules: comparison
//! against ASCII literals, case folding of header names, and decimal
//! rendering and reading of unsigned integers.

use vstd::prelude::*;
use vstd::string::StringSliceAdditionalSpecFns;

verus! {

/// Compare two byte slices for equality of contents.
pub fn bytes_eq(a: &[u8], b: &[u8]) -> (r: bool)
    ensures
        r == (a@ == b@),
{
    if a.len() != b.len() {
        proof {
            assert(a@.len() != b@.len());
        }
        return false;
    }
    let mut i: usize = 0;
    while i < a.len()
        invariant
            0 <= i <= a.len(),
            a.len() == b.len(),
            forall|j: int| 0 <= j < i ==> a@[j] == b@[j],
        decreases a.len() - i,
    {
        if a[i] != b[i] {
            return false;
        }
        i += 1;
    }
    proof {
        assert(a@ =~= b@);
    }
    true
}

/// Copy the bytes of `s` between `lo` and `hi` into a fresh vector.
pub fn sub_vec(s: &[u8], lo: usize, hi: usize) -> (r: Vec<u8>)
    requires
        lo <= hi <= s@.len(),
    ensures
        r@ == s@.subrange(lo as int, hi as int),
{
    let mut r: Vec<u8> = Vec::new();
    let mut k: usize = lo;
    while k < hi
        invariant
            lo <= k <= hi <= s@.len(),
            r@.len() == k - lo,
            forall|j: int| 0 <= j < r@.len() ==> r@[j] == s@[lo + j],
        decreases hi - k,
    {
        r.push(s[k]);
        k += 1;
    }
    proof {
        assert(r@ =~= s@.subrange(lo as int, hi as int));
    }
    r
}

/// The ASCII lower-case image of one byte: letters `A`..`Z` map to
/// `a`..`z`, everything else is unchanged.
pub open spec fn lower_byte(b: u8) -> u8 {
    if 65 <= b <= 90 {
        (b + 32) as u8
    } else {
        b
    }
}

/// The ASCII lower-case image of a byte sequence.
pub open spec fn lower(s: Seq<u8>) -> Seq<u8> {
    s.map_values(|b: u8| lower_byte(b))
}

/// Lower-case a byte vector in ASCII.
pub fn to_lower(s: &[u8]) -> (r: Vec<u8>)
    ensures
        r@ == lower(s@),
{
    let mut r: Vec<u8> = Vec::new();
    let mut i: usize = 0;
    while i < s.len()
        invariant
            0 <= i <= s.len(),
            r@.len() == i,
            forall|j: int| 0 <= j < i ==> r@[j] == lower_byte(s@[j]),
        decreases s.len() - i,
    {
        let b = s[i];
        if 65 <= b && b <= 90 {
            r.push(b + 32);
        } else {
            r.push(b);
        }
        i += 1;
    }
    proof {
        assert(r@ =~= lower(s@));
    }
    r
}

/// Whether a byte is an ASCII decimal digit.
pub open spec fn is_digit(b: u8) -> bool {
    48 <= b <= 57
}

/// Whether every byte of a sequence is an ASCII decimal digit.
pub open spec fn all_digits(s: Seq<u8>) -> bool {
    forall|i: int| 0 <= i < s.len() ==> is_digit(s[i])
}

/// The unsigned integer denoted by a sequence of decimal digit bytes.
pub open spec fn dec_value(s: Seq<u8>) -> nat
    decreases s.len(),
{
    if s.len() == 0 {
        0
    } else {
        dec_value(s.drop_last()) * 10 + (s.last() - 48) as nat
    }
}

/// Read a decimal number from a byte sequence. Succeeds exactly on
/// non-empty all-digit inputs whose value fits in `u64`.
pub fn parse_dec(s: &[u8]) -> (r: Option<u64>)
    ensures
        r is Some <==> s@.len() > 0 && all_digits(s@) && dec_value(s@) <= u64::MAX,
        r matches Some(n) ==> n == dec_value(s@),
{
    if s.len() == 0 {
        return None;
    }
    let mut acc: u64 = 0;
    let mut i: usize = 0;
    while i < s.len()
        invariant
            0 <= i <= s.len(),
            s@.len() > 0,
            all_digits(s@.take(i as int)),
            acc == dec_value(s@.take(i as int)),
            dec_value(s@.take(i as int)) <= u64::MAX,
        decreases s.len() - i,
    {
        let b = s[i];
        if b < 48 || b > 57 {
            proof {
                lemma_not_all_digits(s@, i as int);
            }
            return None;
        }
        let d: u64 = (b - 48) as u64;
        if acc > (u64::MAX - d) / 10 {
            proof {
                lemma_dec_value_overflow(s@, i as int, acc as nat, d as nat);
            }
            return None;
        }
        acc = acc * 10 + d;
        proof {
            assert(s@.take(i + 1).drop_last() =~= s@.take(i as int));
            assert(s@.take(i + 1).last() == s@[i as int]);
        }
        i += 1;
    }
    proof {
        assert(s@.take(s@.len() as int) =~= s@);
    }
    Some(acc)
}

/// A prefix that is not all digits makes the whole sequence not all digits.
proof fn lemma_not_all_digits(s: Seq<u8>, i: int)
    requires
        0 <= i < s.len(),
        !is_digit(s[i]),
    ensures
        !all_digits(s),
{
}

/// Once a decimal prefix would overflow `u64` on the next digit, the value
/// of every extension of that prefix exceeds `u64::MAX`.
proof fn lemma_dec_value_overflow(s: Seq<u8>, i: int, acc: nat, d: nat)
    requires
        0 <= i < s.len(),
        is_digit(s[i]),
        d == (s[i] - 48) as nat,
        acc == dec_value(s.take(i)),
        acc * 10 + d > u64::MAX,
    ensures
        dec_value(s) > u64::MAX,
    decreases s.len() - i,
{
    assert(s.take(i + 1).drop_last() =~= s.take(i));
    assert(dec_value(s.take(i + 1)) == acc * 10 + d);
    lemma_dec_value_grows(s, i + 1);
}

/// The value of a digit-prefix never exceeds the value of the whole
/// sequence.
proof fn lemma_dec_value_grows(s: Seq<u8>, i: int)
    requires
        0 <= i <= s.len(),
    ensures
        dec_value(s) >= dec_value(s.take(i)),
    decreases s.len() - i,
{
    if i < s.len() {
        lemma_dec_value_grows(s, i + 1);
        assert(s.take(i + 1).drop_last() =~= s.take(i));
        assert(dec_value(s.take(i + 1)) == dec_value(s.take(i)) * 10 + (s.take(i + 1).last() - 48) as nat);
        assert(s.take(s.len() as int) =~= s);
    } else {
        assert(s.take(s.len() as int) =~= s);
    }
}

/// The index of the first occurrence of the two-byte pattern `a b` in `s`.
pub open spec fn find_pair(s: Seq<u8>, a: u8, b: u8) -> Option<int>
    decreases s.len(),
{
    if s.len() < 2 {
        None
    } else if s[0] == a && s[1] == b {
        Some(0)
    } else {
        match find_pair(s.drop_first(), a, b) {
            Some(i) => Some(i + 1),
            None => None,
        }
    }
}

/// What `find_pair` returns: the first index where the pattern stands, or
/// nothing when the pattern does not occur.
pub proof fn lemma_find_pair_props(s: Seq<u8>, a: u8, b: u8)
    ensures
        match find_pair(s, a, b) {
            Some(i) => 0 <= i <= s.len() - 2 && s[i] == a && s[i + 1] == b && (forall|j: int|
                0 <= j < i ==> !(#[trigger] s[j] == a && s[j + 1] == b)),
            None => forall|j: int| 0 <= j < s.len() - 1 ==> !(#[trigger] s[j] == a && s[j + 1] == b),
        },
    decreases s.len(),
{
    if s.len() >= 2 && !(s[0] == a && s[1] == b) {
        let t = s.drop_first();
        lemma_find_pair_props(t, a, b);
        match find_pair(t, a, b) {
            Some(i) => {
                assert forall|j: int| 0 <= j < i + 1 implies !(#[trigger] s[j] == a && s[j + 1]
                    == b) by {
                    if j > 0 {
                        assert(!(t[j - 1] == a && t[j] == b));
                        assert(t[j - 1] == s[j] && t[j] == s[j + 1]);
                    }
                }
            },
            None => {
                assert forall|j: int| 0 <= j < s.len() - 1 implies !(#[trigger] s[j] == a && s[j
                    + 1] == b) by {
                    if j > 0 {
                        assert(!(t[j - 1] == a && t[j] == b));
                        assert(t[j - 1] == s[j] && t[j] == s[j + 1]);
                    }
                }
            },
        }
    }
}

/// A first occurrence of the pattern determines `find_pair`.
pub proof fn lemma_find_pair_from_first(s: Seq<u8>, a: u8, b: u8, i: int)
    requires
        0 <= i <= s.len() - 2,
        s[i] == a,
        s[i + 1] == b,
        forall|j: int| 0 <= j < i ==> !(#[trigger] s[j] == a && s[j + 1] == b),
    ensures
        find_pair(s, a, b) == Some(i),
    decreases s.len(),
{
    if !(s[0] == a && s[1] == b) {
        lemma_find_pair_from_first(s.drop_first(), a, b, i - 1);
    }
}

/// Appending bytes does not move an occurrence that is already there.
pub proof fn lemma_find_pair_append(s: Seq<u8>, t: Seq<u8>, a: u8, b: u8)
    requires
        find_pair(s, a, b) is Some,
    ensures
        find_pair(s + t, a, b) == find_pair(s, a, b),
{
    let i = find_pair(s, a, b)->Some_0;
    lemma_find_pair_props(s, a, b);
    assert(forall|j: int| 0 <= j < i ==> (s + t)[j] == s[j]);
    lemma_find_pair_from_first(s + t, a, b, i);
}

/// Find the first occurrence of the two-byte pattern `a b` in a slice.
pub fn find_pair_at(s: &[u8], a: u8, b: u8) -> (r: Option<usize>)
    ensures
        match r {
            Some(i) => i + 2 <= s@.len() && find_pair(s@, a, b) == Some(i as int),
            None => find_pair(s@, a, b) is None,
        },
{
    if s.len() < 2 {
        proof {
            lemma_find_pair_props(s@, a, b);
            if find_pair(s@, a, b) is Some {
                assert(false);
            }
        }
        return None;
    }
    let mut j: usize = 0;
    while j < s.len() - 1
        invariant
            s@.len() >= 2,
            0 <= j <= s.len() - 1,
            forall|k: int| 0 <= k < j ==> !(#[trigger] s@[k] == a && s@[k + 1] == b),
        decreases s.len() - j,
    {
        if s[j] == a && s[j + 1] == b {
            proof {
                lemma_find_pair_from_first(s@, a, b, j as int);
            }
            return Some(j);
        }
        j += 1;
    }
    proof {
        lemma_find_pair_props(s@, a, b);
        if find_pair(s@, a, b) is Some {
            let i = find_pair(s@, a, b)->Some_0;
            assert(!(s@[i] == a && s@[i + 1] == b));
        }
    }
    None
}

/// The index of the first occurrence of byte `x` in `s`.
pub open spec fn find_byte(s: Seq<u8>, x: u8) -> Option<int>
    decreases s.len(),
{
    if s.len() == 0 {
        None
    } else if s[0] == x {
        Some(0)
    } else {
        match find_byte(s.drop_first(), x) {
            Some(i) => Some(i + 1),
            None => None,
        }
    }
}

/// What `find_byte` returns: the first index holding `x`, or nothing when
/// `x` does not occur.
pub proof fn lemma_find_byte_props(s: Seq<u8>, x: u8)
    ensures
        match find_byte(s, x) {
            Some(i) => 0 <= i < s.len() && s[i] == x && (forall|j: int| 0 <= j < i ==> s[j] != x),
            None => forall|j: int| 0 <= j < s.len() ==> s[j] != x,
        },
    decreases s.len(),
{
    if s.len() > 0 && s[0] != x {
        let t = s.drop_first();
        lemma_find_byte_props(t, x);
        match find_byte(t, x) {
            Some(i) => {
                assert forall|j: int| 0 <= j < i + 1 implies #[trigger] s[j] != x by {
                    if j > 0 {
                        assert(t[j - 1] != x);
                        assert(t[j - 1] == s[j]);
                    }
                }
            },
            None => {
                assert forall|j: int| 0 <= j < s.len() implies #[trigger] s[j] != x by {
                    if j > 0 {
                        assert(t[j - 1] != x);
                        assert(t[j - 1] == s[j]);
                    }
                }
            },
        }
    }
}

/// A first occurrence of `x` determines `find_byte`.
pub proof fn lemma_find_byte_from_first(s: Seq<u8>, x: u8, i: int)
    requires
        0 <= i < s.len(),
        s[i] == x,
        forall|j: int| 0 <= j < i ==> s[j] != x,
    ensures
        find_byte(s, x) == Some(i),
    decreases s.len(),
{
    if s[0] != x {
        lemma_find_byte_from_first(s.drop_first(), x, i - 1);
    }
}

/// Find the first occurrence of byte `x` in a slice.
pub fn find_byte_at(s: &[u8], x: u8) -> (r: Option<usize>)
    ensures
        match r {
            Some(i) => i < s@.len() && find_byte(s@, x) == Some(i as int),
            None => find_byte(s@, x) is None,
        },
{
    let mut j: usize = 0;
    while j < s.len()
        invariant
            0 <= j <= s.len(),
            forall|k: int| 0 <= k < j ==> s@[k] != x,
        decreases s.len() - j,
    {
        if s[j] == x {
            proof {
                lemma_find_byte_from_first(s@, x, j as int);
            }
            return Some(j);
        }
        j += 1;
    }
    proof {
        lemma_find_byte_props(s@, x);
        if find_byte(s@, x) is Some {
            let i = find_byte(s@, x)->Some_0;
            assert(s@[i] == x);
            assert(false);
        }
    }
    None
}

/// The segments of `s` between occurrences of the separator, separators
/// excluded: the splitting that `str::split` performs.
pub open spec fn split_on(s: Seq<u8>, sep: u8) -> Seq<Seq<u8>>
    decreases s.len(),
    via split_on_decreases
{
    match find_byte(s, sep) {
        None => seq![s],
        Some(i) => seq![s.take(i)] + split_on(s.skip(i + 1), sep),
    }
}

#[via_fn]
proof fn split_on_decreases(s: Seq<u8>, sep: u8) {
    lemma_find_byte_props(s, sep);
}

/// Split a slice on a separator byte.
pub fn split(s: &[u8], sep: u8) -> (r: Vec<Vec<u8>>)
    ensures
        r@.map_values(|v: Vec<u8>| v@) == split_on(s@, sep),
{
    let ghost whole = split_on(s@, sep);
    let mut r: Vec<Vec<u8>> = Vec::new();
    proof {
        assert(s@.skip(0) =~= s@);
        assert(r@.map_values(|v: Vec<u8>| v@) + split_on(s@, sep) =~= split_on(s@, sep));
    }
    let mut start: usize = 0;
    let mut j: usize = 0;
    while j < s.len()
        invariant
            0 <= start <= j <= s.len(),
            whole == split_on(s@, sep),
            whole == r@.map_values(|v: Vec<u8>| v@) + split_on(s@.skip(start as int), sep),
            forall|k: int| start <= k < j ==> s@[k] != sep,
        decreases s.len() - j,
    {
        if s[j] == sep {
            let piece = sub_vec(s, start, j);
            proof {
                let tail = s@.skip(start as int);
                assert(forall|k: int| 0 <= k < j - start ==> tail[k] == s@[start + k]);
                lemma_find_byte_from_first(tail, sep, j - start);
                assert(tail.take(j - start) =~= s@.subrange(start as int, j as int));
                assert(tail.skip(j - start + 1) =~= s@.skip(j + 1));
                assert((r@.map_values(|v: Vec<u8>| v@)).push(piece@) =~= r@.push(piece).map_values(
                    |v: Vec<u8>| v@,
                ));
                assert(r@.map_values(|v: Vec<u8>| v@) + split_on(s@.skip(start as int), sep)
                    =~= r@.push(piece).map_values(|v: Vec<u8>| v@) + split_on(s@.skip(j + 1), sep));
            }
            r.push(piece);
            start = j + 1;
        }
        j += 1;
    }
    let piece = crate::bytes::sub_vec(s, start, s.len());
    proof {
        let tail = s@.skip(start as int);
        assert(forall|k: int| 0 <= k < tail.len() ==> tail[k] == s@[start + k]);
        lemma_find_byte_props(tail, sep);
        if find_byte(tail, sep) is Some {
            let i = find_byte(tail, sep)->Some_0;
            assert(tail[i] == sep);
            assert(false);
        }
        assert(tail =~= s@.subrange(start as int, s@.len() as int));
        assert((r@.map_values(|v: Vec<u8>| v@)).push(piece@) =~= r@.push(piece).map_values(
            |v: Vec<u8>| v@,
        ));
        assert(r@.map_values(|v: Vec<u8>| v@) + split_on(s@.skip(start as int), sep)
            =~= r@.push(piece).map_values(|v: Vec<u8>| v@));
    }
    r.push(piece);
    r
}

/// The bytes of a literal, as a vector.
pub fn lit_vec(s: &str) -> (r: Vec<u8>)
    ensures
        r@ == s.spec_bytes(),
{
    let b = s.as_bytes();
    let r = sub_vec(b, 0, b.len());
    proof {
        assert(r@ =~= s.spec_bytes());
    }
    r
}

/// Whether `p` is a prefix of `s`.
pub open spec fn starts_with(s: Seq<u8>, p: Seq<u8>) -> bool {
    p.len() <= s.len() && s.take(p.len() as int) == p
}

/// Test whether a slice begins with the given prefix.
pub fn starts_with_bytes(s: &[u8], p: &[u8]) -> (r: bool)
    ensures
        r == starts_with(s@, p@),
{
    if p.len() > s.len() {
        return false;
    }
    let mut i: usize = 0;
    while i < p.len()
        invariant
            0 <= i <= p.len() <= s.len(),
            forall|j: int| 0 <= j < i ==> s@[j] == p@[j],
        decreases p.len() - i,
    {
        if s[i] != p[i] {
            proof {
                assert(s@.take(p@.len() as int)[i as int] != p@[i as int]);
            }
            return false;
        }
        i += 1;
    }
    proof {
        assert(s@.take(p@.len() as int) =~= p@);
    }
    true
}

/// Whether a byte is ASCII whitespace.
pub open spec fn is_ws(b: u8) -> bool {
    b == 32 || 9 <= b <= 13
}

/// `s` with leading and trailing ASCII whitespace removed.
pub open spec fn trim(s: Seq<u8>) -> Seq<u8>
    decreases s.len(),
{
    if s.len() == 0 {
        s
    } else if is_ws(s[0]) {
        trim(s.drop_first())
    } else if is_ws(s.last()) {
        trim(s.drop_last())
    } else {
        s
    }
}

/// `trim` is the subrange between the first and last non-whitespace bytes.
pub proof fn lemma_trim_subrange(s: Seq<u8>, lo: int, hi: int)
    requires
        0 <= lo <= hi <= s.len(),
        forall|j: int| 0 <= j < lo ==> is_ws(s[j]),
        forall|j: int| hi <= j < s.len() ==> is_ws(s[j]),
        lo < hi ==> !is_ws(s[lo]) && !is_ws(s[hi - 1]),
        lo == hi ==> forall|j: int| 0 <= j < s.len() ==> is_ws(s[j]),
    ensures
        trim(s) == s.subrange(lo, hi),
    decreases s.len(),
{
    if s.len() == 0 {
        assert(trim(s) =~= s.subrange(lo, hi));
    } else if is_ws(s[0]) {
        if lo == hi && lo == 0 {
            lemma_trim_subrange(s.drop_first(), 0, 0);
            assert(s.drop_first().subrange(0, 0) =~= s.subrange(lo, hi));
        } else {
            lemma_trim_subrange(s.drop_first(), lo - 1, hi - 1);
            assert(s.drop_first().subrange(lo - 1, hi - 1) =~= s.subrange(lo, hi));
        }
    } else if is_ws(s.last()) {
        lemma_trim_subrange(s.drop_last(), lo, hi);
        assert(s.drop_last().subrange(lo, hi) =~= s.subrange(lo, hi));
    } else {
        assert(lo == 0 && hi == s.len());
        assert(trim(s) =~= s.subrange(lo, hi));
    }
}

/// Remove leading and trailing ASCII whitespace from a slice.
pub fn trim_bytes(s: &[u8]) -> (r: Vec<u8>)
    ensures
        r@ == trim(s@),
{
    let mut lo: usize = 0;
    while lo < s.len() && (s[lo] == 32 || (9 <= s[lo] && s[lo] <= 13))
        invariant
            0 <= lo <= s.len(),
            forall|j: int| 0 <= j < lo ==> is_ws(s@[j]),
        decreases s.len() - lo,
    {
        lo += 1;
    }
    if lo == s.len() {
        proof {
            lemma_trim_subrange(s@, lo as int, lo as int);
        }
        return crate::bytes::sub_vec(s, lo, lo);
    }
    let mut hi: usize = s.len();
    while hi > lo && (s[hi - 1] == 32 || (9 <= s[hi - 1] && s[hi - 1] <= 13))
        invariant
            lo <= hi <= s.len(),
            forall|j: int| hi <= j < s.len() ==> is_ws(s@[j]),
        decreases hi,
    {
        hi -= 1;
    }
    proof {
        lemma_trim_subrange(s@, lo as int, hi as int);
    }
    crate::bytes::sub_vec(s, lo, hi)
}

/// The canonical decimal digit string of `n`: no leading zeros, `"0"` for
/// zero.
pub open spec fn dec_digits(n: nat) -> Seq<u8>
    decreases n,
{
    if n < 10 {
        seq![(n + 48) as u8]
    } else {
        dec_digits(n / 10).push((n % 10 + 48) as u8)
    }
}

/// Render `n` as decimal digit bytes.
pub fn render_dec(n: u64) -> (r: Vec<u8>)
    ensures
        r@ == dec_digits(n as nat),
{
    let mut rev: Vec<u8> = Vec::new();
    let mut m: u64 = n;
    loop
        invariant_except_break
            dec_digits(n as nat) == dec_digits(m as nat) + rev@.reverse(),
        ensures
            dec_digits(n as nat) == rev@.reverse(),
        decreases m,
    {
        let d: u8 = (m % 10) as u8 + 48;
        let m2 = m / 10;
        proof {
            if m2 > 0 {
                assert(dec_digits(m as nat) == dec_digits(m2 as nat).push(d));
                assert(dec_digits(m2 as nat) + rev@.push(d).reverse() =~= dec_digits(m2 as nat).push(d) + rev@.reverse());
            } else {
                assert(dec_digits(m as nat) =~= seq![d]);
                assert(seq![d] + rev@.reverse() =~= rev@.push(d).reverse());
            }
        }
        rev.push(d);
        m = m2;
        if m == 0 {
            break;
        }
    }
    let mut r: Vec<u8> = Vec::new();
    let mut i: usize = rev.len();
    while i > 0
        invariant
            0 <= i <= rev.len(),
            dec_digits(n as nat) == rev@.reverse(),
            r@ =~= rev@.reverse().take(rev@.len() - i),
        decreases i,
    {
        i -= 1;
        r.push(rev[i]);
        proof {
            assert(r@ =~= rev@.reverse().take(rev@.len() - i));
        }
    }
    proof {
        assert(r@ =~= rev@.reverse());
    }
    r
}

} // verus!
