//! The on-disk contract against the key-value store: composite keys of
//! the form `identity:token` (enabling identity-to-sessions enumeration
//! by prefix scan), and the multi-field record layout `{uuid,
//! user_agent}`. This scheme is externally visible and must stay stable
//! for persisted sessions to survive an upgrade.

use vstd::prelude::*;
use vstd::string::StrSliceExecFns;
use vstd::string::StringExecFns;

use crate::directory::{Error, SessionRecord};
use crate::session::{is_token_char, token_wf, Session};
use crate::text::{is_space, lemma_trim_id, trim, trim_spec};
use crate::uuid::Uuid;

verus! {

/// A string safe for use as the token half of a composite key: it holds
/// no key-delimiter character. Generated tokens always are; externally
/// supplied ones must be validated.
pub open spec fn key_safe(s: Seq<char>) -> bool {
    forall|i: int| 0 <= i < s.len() ==> s[i] != ':'
}

/// A generated token is key-safe as it stands: the alphanumeric alphabet
/// holds neither the key delimiter nor whitespace, so trimming leaves it
/// unchanged.
pub proof fn lemma_token_key_safe(s: Seq<char>)
    requires
        token_wf(s),
    ensures
        key_safe(s),
        trim_spec(s) == s,
{
    assert(forall|i: int| 0 <= i < s.len() ==> is_token_char(#[trigger] s[i]));
    assert(!is_space(s[0]) && !is_space(s[s.len() - 1]));
    lemma_trim_id(s);
}

/// Whether the trimmed token is key-safe, decided executably.
pub fn token_is_key_safe(token: &Session) -> (r: bool)
    ensures
        r == key_safe(trim_spec(token@)),
{
    let t = trim(token.session());
    let n = t.unicode_len();
    let mut i: usize = 0;
    while i < n
        invariant
            i <= n,
            n == t@.len(),
            t@ == trim_spec(token@),
            forall|k: int| 0 <= k < i ==> t@[k] != ':',
        decreases n - i,
    {
        if t.get_char(i) == ':' {
            return false;
        }
        i = i + 1;
    }
    true
}

/// The store key under which a session is written: the identity, the
/// delimiter `:`, then the token trimmed of surrounding whitespace.
pub fn session_key(identifier: &Uuid, token: &Session) -> (r: String)
    ensures
        r@ == identifier@ + seq![':'] + trim_spec(token@),
{
    let t = trim(token.session());
    let mut k = String::from_str(identifier.uuid.as_str());
    k.append(":");
    k.append(t);
    proof {
        reveal_strlit(":");
        assert(":"@ =~= seq![':']);
        assert(k@ =~= identifier@ + seq![':'] + trim_spec(token@));
    }
    k
}

/// The server-side glob with which all of one identity's session keys
/// are scanned: the identity, the delimiter, then a wildcard.
pub fn scan_pattern(identifier: &Uuid) -> (r: String)
    ensures
        r@ == identifier@ + seq![':'] + seq!['*'],
{
    let mut k = String::from_str(identifier.uuid.as_str());
    k.append(":*");
    proof {
        reveal_strlit(":*");
        assert(":*"@ =~= seq![':'] + seq!['*']);
        assert(k@ =~= identifier@ + seq![':'] + seq!['*']);
    }
    k
}

/// The token half of a composite key: everything after the last
/// delimiter, or nothing when the key holds no delimiter.
pub open spec fn token_of_key(s: Seq<char>) -> Option<Seq<char>>
    decreases s.len(),
{
    if s.len() == 0 {
        None
    } else if s.last() == ':' {
        Some(Seq::empty())
    } else {
        match token_of_key(s.drop_last()) {
            None => None,
            Some(t) => Some(t.push(s.last())),
        }
    }
}

/// A key built by `session_key` from a key-safe token parses back to
/// exactly that token, whatever the identity holds: the token half is
/// everything after the last delimiter, and a key-safe token contributes
/// no delimiter of its own.
pub proof fn lemma_key_round_trip(identity: Seq<char>, token: Seq<char>)
    requires
        key_safe(token),
    ensures
        token_of_key(identity + seq![':'] + token) == Some(token),
    decreases token.len(),
{
    let s = identity + seq![':'] + token;
    if token.len() == 0 {
        assert(s.last() == ':');
        assert(token_of_key(s) == Some(Seq::<char>::empty()));
        assert(Seq::<char>::empty() =~= token);
    } else {
        assert(s.last() == token.last());
        assert(s.last() != ':');
        assert(s.drop_last() =~= identity + seq![':'] + token.drop_last());
        assert(forall|i: int| 0 <= i < token.drop_last().len()
            ==> token.drop_last()[i] != ':');
        lemma_key_round_trip(identity, token.drop_last());
        assert(token.drop_last().push(token.last()) =~= token);
    }
}

proof fn lemma_token_of_key_split(s: Seq<char>, i: int)
    requires
        0 <= i < s.len(),
        s[i] == ':',
        forall|j: int| i < j < s.len() ==> s[j] != ':',
    ensures
        token_of_key(s) == Some(s.subrange(i + 1, s.len() as int)),
    decreases s.len(),
{
    if i == s.len() - 1 {
        assert(s.last() == ':');
        assert(s.subrange(i + 1, s.len() as int) =~= Seq::<char>::empty());
    } else {
        assert(s.last() != ':');
        let d = s.drop_last();
        assert(forall|j: int| i < j < d.len() ==> d[j] != ':');
        lemma_token_of_key_split(d, i);
        assert(d.subrange(i + 1, d.len() as int).push(s.last())
            =~= s.subrange(i + 1, s.len() as int));
    }
}

proof fn lemma_token_of_key_none(s: Seq<char>)
    requires
        forall|j: int| 0 <= j < s.len() ==> s[j] != ':',
    ensures
        token_of_key(s) is None,
    decreases s.len(),
{
    if s.len() > 0 {
        let d = s.drop_last();
        assert(forall|j: int| 0 <= j < d.len() ==> d[j] != ':');
        lemma_token_of_key_none(d);
    }
}

/// Recovers the session token from a scanned composite key, as
/// `token_of_key` describes; a key with no delimiter is not a session
/// key and yields nothing.
pub fn token_from_key(key: &str) -> (r: Option<String>)
    ensures
        r matches Some(t) ==> token_of_key(key@) == Some(t@),
        r is None ==> token_of_key(key@) is None,
{
    let n = key.unicode_len();
    let mut j: usize = n;
    while j > 0 && key.get_char(j - 1) != ':'
        invariant
            j <= n,
            n == key@.len(),
            forall|k: int| j <= k < n ==> key@[k] != ':',
        decreases j,
    {
        j = j - 1;
    }
    if j == 0 {
        proof {
            lemma_token_of_key_none(key@);
        }
        None
    } else {
        proof {
            lemma_token_of_key_split(key@, j - 1);
        }
        Some(String::from_str(key.substring_char(j, n)))
    }
}

/// The first value bound to `name` in a fetched field list, or nothing.
pub open spec fn lookup_field(fields: Seq<(String, String)>, name: Seq<char>) -> Option<Seq<char>>
    decreases fields.len(),
{
    if fields.len() == 0 {
        None
    } else if fields[0].0@ == name {
        Some(fields[0].1@)
    } else {
        lookup_field(fields.drop_first(), name)
    }
}

/// The name of the mandatory identity field of a stored record.
pub open spec fn identity_field() -> Seq<char> {
    seq!['u', 'u', 'i', 'd']
}

/// The name of the optional client-descriptor field of a stored record.
pub open spec fn descriptor_field() -> Seq<char> {
    seq!['u', 's', 'e', 'r', '_', 'a', 'g', 'e', 'n', 't']
}

/// The field list written for a session: the identity under the
/// mandatory field name, then, if present, the client descriptor under
/// its own — nothing else.
pub fn encode_record_fields(identifier: &Uuid, metadata: Option<&str>) -> (r: Vec<
    (String, String),
>)
    ensures
        r@.len() == if metadata is Some { 2int } else { 1int },
        r@[0].0@ == identity_field(),
        r@[0].1@ == identifier@,
        metadata matches Some(m) ==> r@[1].0@ == descriptor_field() && r@[1].1@ == m@,
{
    let mut out: Vec<(String, String)> = Vec::new();
    let name_id = String::from_str("uuid");
    proof {
        reveal_strlit("uuid");
        assert(name_id@ =~= identity_field());
    }
    out.push((name_id, String::from_str(identifier.uuid.as_str())));
    match metadata {
        Some(m) => {
            let name_meta = String::from_str("user_agent");
            proof {
                reveal_strlit("user_agent");
                assert(name_meta@ =~= descriptor_field());
            }
            out.push((name_meta, String::from_str(m)));
        }
        None => {}
    }
    out
}

fn find_field<'a>(fields: &'a Vec<(String, String)>, name: &String) -> (r: Option<&'a String>)
    ensures
        r matches Some(v) ==> lookup_field(fields@, name@) == Some(v@),
        r is None ==> lookup_field(fields@, name@) is None,
{
    let n = fields.len();
    let mut i: usize = 0;
    proof {
        assert(fields@.skip(0) =~= fields@);
    }
    while i < n
        invariant
            i <= n,
            n == fields@.len(),
            lookup_field(fields@, name@) == lookup_field(fields@.skip(i as int), name@),
        decreases n - i,
    {
        let pair = &fields[i];
        proof {
            assert(fields@.skip(i as int)[0] == fields@[i as int]);
            assert(fields@.skip(i as int).drop_first() =~= fields@.skip(i as int + 1));
        }
        if pair.0 == *name {
            return Some(&pair.1);
        }
        i = i + 1;
    }
    proof {
        assert(fields@.skip(n as int) =~= Seq::<(String, String)>::empty());
    }
    None
}

/// Interprets a fetched field list: an empty list means no record (not
/// an error); a non-empty list without the mandatory identity field is a
/// corrupt record, surfaced as `InvalidRecord` rather than guessed
/// around; otherwise the record is the identity together with the
/// descriptor field if one is bound.
pub fn parse_record_fields(fields: &Vec<(String, String)>) -> (r: Result<
    Option<SessionRecord>,
    Error,
>)
    ensures
        fields@.len() == 0 ==> r == Ok::<Option<SessionRecord>, Error>(None),
        fields@.len() > 0 && lookup_field(fields@, identity_field()) is None ==> r == Err::<
            Option<SessionRecord>,
            Error,
        >(Error::InvalidRecord),
        lookup_field(fields@, identity_field()) matches Some(idv) ==> (r matches Ok(o)
            && o matches Some(rec) && rec.identity@ == idv && rec.metadata.deep_view()
            == lookup_field(fields@, descriptor_field())),
{
    if fields.len() == 0 {
        return Ok(None);
    }
    let name_id = String::from_str("uuid");
    proof {
        reveal_strlit("uuid");
        assert(name_id@ =~= identity_field());
    }
    match find_field(fields, &name_id) {
        None => Err(Error::InvalidRecord),
        Some(idv) => {
            let name_meta = String::from_str("user_agent");
            proof {
                reveal_strlit("user_agent");
                assert(name_meta@ =~= descriptor_field());
            }
            let meta = match find_field(fields, &name_meta) {
                Some(m) => Some(m.clone()),
                None => None,
            };
            Ok(Some(SessionRecord { identity: Uuid { uuid: idv.clone() }, metadata: meta }))
        }
    }
}

/// Record round trip: the field list written for an identity and
/// descriptor parses back to exactly them — the identity under the
/// mandatory field, the descriptor present exactly when one was written.
pub proof fn lemma_record_round_trip(
    fields: Seq<(String, String)>,
    identity: Seq<char>,
    metadata: Option<Seq<char>>,
)
    requires
        fields.len() == if metadata is Some { 2int } else { 1int },
        fields[0].0@ == identity_field(),
        fields[0].1@ == identity,
        metadata matches Some(m) ==> fields[1].0@ == descriptor_field() && fields[1].1@ == m,
    ensures
        lookup_field(fields, identity_field()) == Some(identity),
        lookup_field(fields, descriptor_field()) == metadata,
{
    assert(identity_field().len() != descriptor_field().len());
    match metadata {
        Some(m) => {
            assert(fields.drop_first()[0] == fields[1]);
            assert(fields.drop_first().drop_first().len() == 0);
            assert(lookup_field(fields, descriptor_field())
                == lookup_field(fields.drop_first(), descriptor_field()));
            assert(lookup_field(fields.drop_first(), descriptor_field())
                == Some(fields[1].1@));
        }
        None => {
            assert(fields.drop_first().len() == 0);
        }
    }
}

} // verus!
