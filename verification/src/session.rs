//! The session token generator and the session information record: an
//! opaque 64-character random alphanumeric token, and the pairing of an
//! identity with a client descriptor.

use vstd::prelude::*;

use crate::text::ascii_string;
use crate::uuid::Uuid;

verus! {

/// A character of the 62-symbol token alphabet: `a`-`z`, `A`-`Z`, `0`-`9`.
pub open spec fn is_token_char(c: char) -> bool {
    ('a' <= c && c <= 'z') || ('A' <= c && c <= 'Z') || ('0' <= c && c <= '9')
}

/// A well-formed generated session token: exactly 64 characters, each
/// drawn from the 62-symbol alphanumeric alphabet.
pub open spec fn token_wf(s: Seq<char>) -> bool {
    &&& s.len() == 64
    &&& forall|i: int| 0 <= i < s.len() ==> is_token_char(#[trigger] s[i])
}

/// A byte of the token alphabet.
pub open spec fn is_token_byte(b: u8) -> bool {
    (97 <= b && b <= 122) || (65 <= b && b <= 90) || (48 <= b && b <= 57)
}

/// Relies on `rand::distributions::Alphanumeric`: sampling it yields one
/// uniformly drawn byte out of `a`-`z`, `A`-`Z`, `0`-`9`.
#[verifier::external_body]
fn random_token_byte() -> (b: u8)
    ensures
        is_token_byte(b),
{
    rand::Rng::sample(&mut rand::thread_rng(), rand::distributions::Alphanumeric)
}

/// An opaque session token, used verbatim as (part of) a store key.
///
/// A generated token is 64 random alphanumeric characters; a token can
/// also be reconstructed verbatim from an externally supplied string,
/// with no validation.
#[derive(Debug, Clone)]
pub struct Session {
    session: String,
}

impl View for Session {
    type V = Seq<char>;

    closed spec fn view(&self) -> Seq<char> {
        self.session@
    }
}

impl Session {
    /// Generates a fresh random token: 64 independently and uniformly
    /// sampled alphanumeric characters.
    pub fn new() -> (r: Self)
        ensures
            token_wf(r@),
    {
        let mut b: Vec<u8> = Vec::new();
        let mut i: usize = 0;
        while i < 64
            invariant
                b@.len() == i,
                i <= 64,
                forall|k: int| 0 <= k < i ==> is_token_byte(#[trigger] b@[k]),
            decreases 64 - i,
        {
            b.push(random_token_byte());
            i = i + 1;
        }
        let ghost bs = b@;
        let s = ascii_string(b);
        let r = Session { session: s };
        proof {
            assert forall|k: int| 0 <= k < 64 implies is_token_char(#[trigger] r@[k]) by {
                assert(r@[k] == bs[k] as char);
                assert(is_token_byte(bs[k]));
            }
        }
        r
    }

    /// Wraps an externally supplied string verbatim, with no validation.
    pub fn from_string(session: String) -> (r: Self)
        ensures
            r@ == session@,
    {
        Session { session }
    }

    /// The token's characters.
    pub fn session(&self) -> (r: &str)
        ensures
            r@ == self@,
    {
        self.session.as_str()
    }
}

impl From<String> for Session {
    /// Wraps an externally supplied string verbatim, with no validation.
    fn from(value: String) -> (r: Self) {
        Session { session: value }
    }
}

impl vstd::std_specs::convert::FromSpecImpl<String> for Session {
    closed spec fn obeys_from_spec() -> bool {
        true
    }

    closed spec fn from_spec(value: String) -> Self {
        Session { session: value }
    }
}

impl Default for Session {
    /// A freshly generated random token.
    fn default() -> (r: Self)
        ensures
            token_wf(r@),
    {
        Session::new()
    }
}

/// The information attached to a session at creation time: the identity
/// it belongs to and a client descriptor.
#[derive(Debug, Clone)]
pub struct SessionInfo {
    uuid: Uuid,
    user_agent: String,
}

impl SessionInfo {
    /// The identity held by the record, for use in contracts.
    pub closed spec fn uuid_spec(&self) -> Uuid {
        self.uuid
    }

    /// The client descriptor held by the record, for use in contracts.
    pub closed spec fn user_agent_spec(&self) -> Seq<char> {
        self.user_agent@
    }

    /// Pairs an identity with a client descriptor.
    pub fn new(uuid: Uuid, user_agent: String) -> (r: Self)
        ensures
            r.uuid_spec() == uuid,
            r.user_agent_spec() == user_agent@,
    {
        SessionInfo { uuid, user_agent }
    }

    /// The identity this session belongs to.
    pub fn uuid(&self) -> (r: &Uuid)
        ensures
            *r == self.uuid_spec(),
    {
        &self.uuid
    }

    /// The client descriptor recorded for this session.
    pub fn user_agent(&self) -> (r: &str)
        ensures
            r@ == self.user_agent_spec(),
    {
        self.user_agent.as_str()
    }
}

} // verus!
