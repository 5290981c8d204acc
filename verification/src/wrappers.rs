//! The calls into outside crates that the library relies on: digests and
//! hex encoding for content addressing, HMAC-signed tokens for session
//! cookies, and random token material. Each function here wraps one
//! outside operation; Verus believes the stated contract and the bodies
//! are not verified.

use vstd::prelude::*;

verus! {

/// The SHA-256 digest of a byte sequence: a function of the input alone,
/// named here and computed only by the sha2 crate.
pub uninterp spec fn sha256_of(data: Seq<u8>) -> Seq<u8>;

/// Relies on sha2's `Sha256` digest: the result is `sha256_of` the input,
/// always 32 bytes, and depends on the input bytes alone.
#[verifier::external_body]
pub fn sha256(data: &[u8]) -> (r: Vec<u8>)
    ensures
        r@ == sha256_of(data@),
        r@.len() == 32,
{
    let mut hasher = <sha2::Sha256 as sha2::digest::Digest>::new();
    sha2::digest::Digest::update(&mut hasher, data);
    sha2::digest::Digest::finalize(hasher).to_vec()
}

/// One lowercase hexadecimal digit, as a byte.
pub open spec fn hex_digit(d: u8) -> u8 {
    if d < 10 {
        (48 + d) as u8
    } else {
        (87 + d) as u8
    }
}

/// Lowercase hexadecimal encoding: two digits for each input byte, high
/// nibble first.
pub open spec fn hex_of(s: Seq<u8>) -> Seq<u8> {
    Seq::new(
        s.len() * 2,
        |i: int|
            if i % 2 == 0 {
                hex_digit((s[i / 2] / 16) as u8)
            } else {
                hex_digit((s[i / 2] % 16) as u8)
            },
    )
}

/// Relies on hex::encode: lowercase hexadecimal, two digits per byte.
#[verifier::external_body]
pub fn hex_encode(data: &[u8]) -> (r: Vec<u8>)
    ensures
        r@ == hex_of(data@),
{
    hex::encode(data).into_bytes()
}

/// The UTF-8 bytes of the `id` and `access_level` claims that jwt's
/// verification with the given secret recovers from a token, or nothing
/// when the signature fails or a claim is missing. A function of the
/// secret and the token alone.
pub uninterp spec fn jwt_claims_of(secret: Seq<u8>, token: Seq<u8>) -> Option<(Seq<u8>, Seq<u8>)>;

/// Relies on jwt's `SignWithKey` over an HMAC-SHA-384 key from the hmac
/// crate: signing the claims map `{id, access_level}` and verifying the
/// token with the same secret recovers exactly those claims. HMAC accepts
/// keys of any length and serializing a map of strings cannot fail. The
/// claims must be ASCII so that their bytes survive the string round
/// trip unchanged.
#[verifier::external_body]
pub fn jwt_sign(secret: &[u8], id: &[u8], level: &[u8]) -> (r: Vec<u8>)
    requires
        forall|i: int| 0 <= i < id@.len() ==> id@[i] < 128,
        forall|i: int| 0 <= i < level@.len() ==> level@[i] < 128,
    ensures
        jwt_claims_of(secret@, r@) == Some((id@, level@)),
{
    let key: hmac::Hmac<sha2::Sha384> = <hmac::Hmac<sha2::Sha384> as hmac::Mac>::new_from_slice(
        secret,
    ).unwrap();
    let id_s = String::from_utf8_lossy(id).to_string();
    let level_s = String::from_utf8_lossy(level).to_string();
    let mut claims = std::collections::BTreeMap::new();
    claims.insert("id", id_s.as_str());
    claims.insert("access_level", level_s.as_str());
    jwt::SignWithKey::sign_with_key(claims, &key).unwrap().into_bytes()
}

/// Relies on jwt's `VerifyWithKey` over an HMAC-SHA-384 key: the token's
/// signature is checked with the secret and the embedded claims are
/// returned; any signature or decoding failure, and any missing claim,
/// yields nothing.
#[verifier::external_body]
pub fn jwt_verify(secret: &[u8], token: &[u8]) -> (r: Option<(Vec<u8>, Vec<u8>)>)
    ensures
        (r matches Some(p) ==> jwt_claims_of(secret@, token@) == Some((p.0@, p.1@))),
        (r is None ==> jwt_claims_of(secret@, token@) is None),
{
    let key: hmac::Hmac<sha2::Sha384> = <hmac::Hmac<sha2::Sha384> as hmac::Mac>::new_from_slice(
        secret,
    ).unwrap();
    let token_s = std::str::from_utf8(token).ok()?;
    let t: jwt::Token<jwt::Header, std::collections::BTreeMap<String, String>, _> =
        jwt::VerifyWithKey::verify_with_key(token_s, &key).ok()?;
    let id = t.claims().get("id")?.clone().into_bytes();
    let level = t.claims().get("access_level")?.clone().into_bytes();
    Some((id, level))
}

/// Relies on rand's thread-local generator with the `Alphanumeric`
/// distribution: `n` random alphanumeric bytes. The values depend on the
/// generator's state; only the length is promised.
#[verifier::external_body]
pub fn random_alnum(n: usize) -> (r: Vec<u8>)
    ensures
        r@.len() == n,
{
    rand::Rng::sample_iter(rand::thread_rng(), rand::distributions::Alphanumeric).take(n).collect()
}

/// Relies on base64's `STANDARD` engine: the padded encoding emits four
/// bytes for every three input bytes, all of them from the ASCII
/// alphabet of base64.
#[verifier::external_body]
pub fn base64_encode(data: &[u8]) -> (r: Vec<u8>)
    ensures
        r@.len() == 4 * ((data@.len() + 2) / 3),
        forall|i: int| 0 <= i < r@.len() ==> r@[i] < 128,
{
    base64::Engine::encode(&base64::engine::general_purpose::STANDARD, data).into_bytes()
}

/// Relies on `String::from_utf8_lossy`: the decoding of a byte sequence
/// with invalid sequences replaced, a function of the bytes alone.
pub uninterp spec fn lossy_of(data: Seq<u8>) -> Seq<char>;

/// Relies on `String::from_utf8_lossy` from std: decode bytes to text,
/// replacing invalid UTF-8 sequences; empty input stays empty.
#[verifier::external_body]
pub fn lossy_string(data: &[u8]) -> (r: String)
    ensures
        r@ == lossy_of(data@),
        data@.len() == 0 ==> r@.len() == 0,
{
    String::from_utf8_lossy(data).to_string()
}

} // verus!
