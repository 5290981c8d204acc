//! Sessions and access levels: the five-rank capability hierarchy, the
//! session record, and issuing and verifying the signed session token.

use vstd::prelude::*;
use vstd::string::StringSliceAdditionalSpecFns;

use crate::bytes::bytes_eq;
use crate::wrappers::{base64_encode, jwt_claims_of, jwt_sign, jwt_verify, random_alnum};

verus! {

/// A capability level. The order is the declaration order:
/// `Public < Read < ReadWrite < Owner < Admin`.
#[derive(Debug, Clone, Copy, PartialEq, Eq, Structural)]
pub enum AuthLevel {
    Public,
    Read,
    ReadWrite,
    Owner,
    Admin,
}

impl AuthLevel {
    /// The rank of a level in the capability order.
    pub open spec fn rank_spec(self) -> int {
        match self {
            AuthLevel::Public => 0,
            AuthLevel::Read => 1,
            AuthLevel::ReadWrite => 2,
            AuthLevel::Owner => 3,
            AuthLevel::Admin => 4,
        }
    }

    /// Compute the rank of a level.
    pub fn rank(&self) -> (r: u8)
        ensures
            r as int == self.rank_spec(),
    {
        match self {
            AuthLevel::Public => 0,
            AuthLevel::Read => 1,
            AuthLevel::ReadWrite => 2,
            AuthLevel::Owner => 3,
            AuthLevel::Admin => 4,
        }
    }

    /// Whether `self` grants no more than `other`.
    pub fn le(&self, other: &AuthLevel) -> (r: bool)
        ensures
            r == level_le(*self, *other),
    {
        self.rank() <= other.rank()
    }

    /// Whether `self` grants strictly less than `other`.
    pub fn lt(&self, other: &AuthLevel) -> (r: bool)
        ensures
            r == (level_le(*self, *other) && *self != *other),
    {
        self.rank() < other.rank()
    }

    /// The fixed wire token of a level.
    pub fn to_string(&self) -> (r: String)
        ensures
            r@ == level_name(*self),
    {
        match self {
            AuthLevel::Public => "Public".to_owned(),
            AuthLevel::Read => "Read".to_owned(),
            AuthLevel::ReadWrite => "ReadWrite".to_owned(),
            AuthLevel::Owner => "Owner".to_owned(),
            AuthLevel::Admin => "Admin".to_owned(),
        }
    }

    /// The level denoted by a token; unknown tokens mean `Public`.
    pub fn from_string(level: &str) -> (r: AuthLevel)
        ensures
            r == level_of_token(level.spec_bytes()),
    {
        AuthLevel::from_token(level.as_bytes())
    }

    /// The level denoted by a byte token; unknown tokens mean `Public`.
    pub fn from_token(level: &[u8]) -> (r: AuthLevel)
        ensures
            r == level_of_token(level@),
    {
        if bytes_eq(level, "Public".as_bytes()) {
            AuthLevel::Public
        } else if bytes_eq(level, "Read".as_bytes()) {
            AuthLevel::Read
        } else if bytes_eq(level, "ReadWrite".as_bytes()) {
            AuthLevel::ReadWrite
        } else if bytes_eq(level, "Owner".as_bytes()) {
            AuthLevel::Owner
        } else if bytes_eq(level, "Admin".as_bytes()) {
            AuthLevel::Admin
        } else {
            AuthLevel::Public
        }
    }
}

/// Rank order on levels.
pub open spec fn level_le(a: AuthLevel, b: AuthLevel) -> bool {
    a.rank_spec() <= b.rank_spec()
}

/// The wire token of a level, as text.
pub open spec fn level_name(l: AuthLevel) -> Seq<char> {
    match l {
        AuthLevel::Public => "Public"@,
        AuthLevel::Read => "Read"@,
        AuthLevel::ReadWrite => "ReadWrite"@,
        AuthLevel::Owner => "Owner"@,
        AuthLevel::Admin => "Admin"@,
    }
}

/// The wire token of a level, as bytes.
pub open spec fn level_token(l: AuthLevel) -> Seq<u8> {
    match l {
        AuthLevel::Public => "Public".spec_bytes(),
        AuthLevel::Read => "Read".spec_bytes(),
        AuthLevel::ReadWrite => "ReadWrite".spec_bytes(),
        AuthLevel::Owner => "Owner".spec_bytes(),
        AuthLevel::Admin => "Admin".spec_bytes(),
    }
}

/// The level a byte token denotes; every unknown token denotes `Public`.
pub open spec fn level_of_token(s: Seq<u8>) -> AuthLevel {
    if s == "Public".spec_bytes() {
        AuthLevel::Public
    } else if s == "Read".spec_bytes() {
        AuthLevel::Read
    } else if s == "ReadWrite".spec_bytes() {
        AuthLevel::ReadWrite
    } else if s == "Owner".spec_bytes() {
        AuthLevel::Owner
    } else if s == "Admin".spec_bytes() {
        AuthLevel::Admin
    } else {
        AuthLevel::Public
    }
}

impl PartialOrd for AuthLevel {
    /// Compare by rank.
    fn partial_cmp(&self, other: &AuthLevel) -> (r: Option<core::cmp::Ordering>) {
        let a = self.rank();
        let b = other.rank();
        if a < b {
            Some(core::cmp::Ordering::Less)
        } else if a == b {
            Some(core::cmp::Ordering::Equal)
        } else {
            Some(core::cmp::Ordering::Greater)
        }
    }
}

impl vstd::std_specs::cmp::PartialOrdSpecImpl for AuthLevel {
    open spec fn obeys_partial_cmp_spec() -> bool {
        true
    }

    open spec fn partial_cmp_spec(&self, other: &AuthLevel) -> Option<core::cmp::Ordering> {
        if self.rank_spec() < other.rank_spec() {
            Some(core::cmp::Ordering::Less)
        } else if self.rank_spec() == other.rank_spec() {
            Some(core::cmp::Ordering::Equal)
        } else {
            Some(core::cmp::Ordering::Greater)
        }
    }
}

/// The capability order is total and strict on the five levels:
/// `Public < Read < ReadWrite < Owner < Admin`, whatever numbers a wire
/// format may attach to them; comparison goes by rank alone.
pub proof fn lemma_level_order()
    ensures
        level_le(AuthLevel::Public, AuthLevel::Read),
        level_le(AuthLevel::Read, AuthLevel::ReadWrite),
        level_le(AuthLevel::ReadWrite, AuthLevel::Owner),
        level_le(AuthLevel::Owner, AuthLevel::Admin),
        forall|a: AuthLevel, b: AuthLevel| level_le(a, b) && level_le(b, a) ==> a == b,
        forall|a: AuthLevel, b: AuthLevel| #[trigger] level_le(a, b) || level_le(b, a),
        forall|a: AuthLevel, b: AuthLevel, c: AuthLevel|
            level_le(a, b) && #[trigger] level_le(b, c) ==> #[trigger] level_le(a, c),
{
    assert forall|a: AuthLevel, b: AuthLevel| level_le(a, b) && level_le(b, a) implies a == b by {
        if a.rank_spec() == b.rank_spec() {
            assert(a == b) by {
                match a {
                    AuthLevel::Public => assert(b == AuthLevel::Public),
                    AuthLevel::Read => assert(b == AuthLevel::Read),
                    AuthLevel::ReadWrite => assert(b == AuthLevel::ReadWrite),
                    AuthLevel::Owner => assert(b == AuthLevel::Owner),
                    AuthLevel::Admin => assert(b == AuthLevel::Admin),
                }
            }
        }
    }
}

/// The mathematical content of a session record.
pub ghost struct AuthContextV {
    pub access_key: Seq<u8>,
    pub access_level: AuthLevel,
    pub last_used: u64,
    pub secret_key: Seq<u8>,
}

/// A session record: an opaque access key that doubles as session and
/// owner id, the granted level, the last time the session was used, and
/// a per-session secret that the signing path does not read.
#[derive(Debug)]
pub struct AuthContext {
    pub access_key: Vec<u8>,
    pub access_level: AuthLevel,
    pub last_used: u64,
    pub secret_key: Vec<u8>,
}

impl View for AuthContext {
    type V = AuthContextV;

    open spec fn view(&self) -> AuthContextV {
        AuthContextV {
            access_key: self.access_key@,
            access_level: self.access_level,
            last_used: self.last_used,
            secret_key: self.secret_key@,
        }
    }
}

impl PartialEq for AuthContext {
    /// Whole-record equality: every field, the timestamp included.
    fn eq(&self, other: &AuthContext) -> (r: bool) {
        bytes_eq(self.access_key.as_slice(), other.access_key.as_slice())
            && self.access_level == other.access_level && self.last_used == other.last_used
            && bytes_eq(self.secret_key.as_slice(), other.secret_key.as_slice())
    }
}

impl vstd::std_specs::cmp::PartialEqSpecImpl for AuthContext {
    open spec fn obeys_eq_spec() -> bool {
        true
    }

    open spec fn eq_spec(&self, other: &AuthContext) -> bool {
        self@ == other@
    }
}

/// Whether every byte of a key is ASCII, as the signing path needs.
pub open spec fn ascii_key(s: Seq<u8>) -> bool {
    forall|i: int| 0 <= i < s.len() ==> s[i] < 128
}

impl AuthContext {
    /// An exact copy of the record.
    pub fn duplicate(&self) -> (r: AuthContext)
        ensures
            r@ == self@,
    {
        let r = AuthContext {
            access_key: crate::bytes::sub_vec(self.access_key.as_slice(), 0, self.access_key.len()),
            access_level: self.access_level,
            last_used: self.last_used,
            secret_key: crate::bytes::sub_vec(self.secret_key.as_slice(), 0, self.secret_key.len()),
        };
        proof {
            assert(r.access_key@ =~= self.access_key@);
            assert(r.secret_key@ =~= self.secret_key@);
        }
        r
    }

    /// A fresh session: a random access key and secret, `Public` level,
    /// and the given current time.
    pub fn random(now: u64) -> (r: AuthContext)
        ensures
            r@.access_level == AuthLevel::Public,
            r@.last_used == now,
            ascii_key(r@.access_key),
    {
        let raw_key = random_alnum(20);
        let access_key = base64_encode(raw_key.as_slice());
        let raw_secret = random_alnum(40);
        let secret_key = base64_encode(raw_secret.as_slice());
        AuthContext { access_key, access_level: AuthLevel::Public, last_used: now, secret_key }
    }

    /// Refresh the recency timestamp.
    pub fn update_last_used(&mut self, now: u64)
        ensures
            final(self)@ == (AuthContextV { last_used: now, ..old(self)@ }),
    {
        self.last_used = now;
    }

    /// Sign a compact token that embeds this session's access key and
    /// level, under the server-wide secret.
    pub fn as_jwt(&self, secret: &[u8]) -> (r: Vec<u8>)
        requires
            ascii_key(self@.access_key),
        ensures
            jwt_claims_of(secret@, r@) == Some(
                (self@.access_key, level_token(self@.access_level)),
            ),
    {
        let level = self.access_level.to_string();
        proof {
            lemma_level_token_ascii(self.access_level);
        }
        jwt_sign(secret, self.access_key.as_slice(), level.as_str().as_bytes())
    }

    /// Check a presented token and recover the embedded access key and
    /// level; an invalid signature or a missing claim yields neither.
    pub fn id_from_jwt(secret: &[u8], token_str: &[u8]) -> (r: (Option<Vec<u8>>, Option<
        AuthLevel,
    >))
        ensures
            match jwt_claims_of(secret@, token_str@) {
                Some(p) => (r.0 matches Some(k) && k@ == p.0) && (r.1 matches Some(l) && l
                    == level_of_token(p.1)),
                None => r.0 is None && r.1 is None,
            },
    {
        match jwt_verify(secret, token_str) {
            Some(p) => {
                let (k, l) = p;
                let level = AuthLevel::from_token(l.as_slice());
                (Some(k), Some(level))
            },
            None => (None, None),
        }
    }
}

/// Every level token is ASCII.
pub proof fn lemma_level_token_ascii(l: AuthLevel)
    ensures
        forall|i: int| 0 <= i < level_token(l).len() ==> level_token(l)[i] < 128,
{
    reveal_strlit("Public");
    reveal_strlit("Read");
    reveal_strlit("ReadWrite");
    reveal_strlit("Owner");
    reveal_strlit("Admin");
    broadcast use vstd::string::is_ascii_spec_bytes;

    match l {
        AuthLevel::Public => {
            assert(vstd::string::is_ascii("Public"));
        },
        AuthLevel::Read => {
            assert(vstd::string::is_ascii("Read"));
        },
        AuthLevel::ReadWrite => {
            assert(vstd::string::is_ascii("ReadWrite"));
        },
        AuthLevel::Owner => {
            assert(vstd::string::is_ascii("Owner"));
        },
        AuthLevel::Admin => {
            assert(vstd::string::is_ascii("Admin"));
        },
    }
}

} // verus!
