//! The session directory: create-session, get-by-token and
//! identity-to-sessions enumeration over a time-limited key-value store,
//! together with the directory's consistency and failure contract.
//!
//! The directory here runs against a verified in-memory store whose
//! time-to-live behaviour mirrors the external store's: it is the
//! reference model of the protocol, and doubles as a time-travelling
//! store for tests. A deployment against a network store follows the
//! same on-disk contract through the functions in `keys`.

use vstd::prelude::*;
use vstd::string::StringExecFns;

use crate::session::Session;
use crate::text::{trim, trim_spec};
use crate::uuid::Uuid;

verus! {

/// The directory's error taxonomy. `StoreUnavailable` covers connection,
/// transport and timeout failures; `InvalidTtl` a non-positive requested
/// lifetime; `InvalidRecord` a fetched record that violates the
/// mandatory-identity-field invariant. "No record" is not an error: it is
/// the `None` outcome of a lookup.
#[derive(Debug, Clone, Copy, PartialEq, Eq, Structural)]
pub enum Error {
    StoreUnavailable,
    InvalidTtl,
    InvalidRecord,
}

/// What a stored session record says, abstractly: the identity it
/// belongs to and the optional client descriptor.
pub ghost struct RecordView {
    pub identity: Seq<char>,
    pub metadata: Option<Seq<char>>,
}

/// One store entry, abstractly: the record plus the absolute time at
/// which the store expires it.
pub ghost struct StoredRecord {
    pub record: RecordView,
    pub expires_at: u64,
}

/// The tuple a reader recovers for a session token: the identity and the
/// optional metadata. The in-memory instance has no further relationship
/// to the stored copy.
#[derive(Debug, Clone)]
pub struct SessionRecord {
    pub identity: Uuid,
    pub metadata: Option<String>,
}

impl View for SessionRecord {
    type V = RecordView;

    open spec fn view(&self) -> RecordView {
        RecordView { identity: self.identity@, metadata: self.metadata.deep_view() }
    }
}

/// Whether `token` names a live (unexpired) session in store contents
/// `m` at time `now`. No entry means unknown or expired; the two are
/// indistinguishable by design.
pub open spec fn is_live(m: Map<Seq<char>, StoredRecord>, token: Seq<char>, now: u64) -> bool {
    m.contains_key(token) && m[token].expires_at > now
}

struct Entry {
    token: String,
    identity: String,
    metadata: Option<String>,
    expires_at: u64,
}

/// The session directory over its store. All state lives in the store:
/// a map from session token to stored record, plus the store's clock,
/// against which time-to-live expiry is judged.
pub struct Directory {
    clock: u64,
    entries: Vec<Entry>,
}

spec fn entry_view(e: Entry) -> StoredRecord {
    StoredRecord {
        record: RecordView { identity: e.identity@, metadata: e.metadata.deep_view() },
        expires_at: e.expires_at,
    }
}

spec fn entries_model(s: Seq<Entry>) -> Map<Seq<char>, StoredRecord>
    decreases s.len(),
{
    if s.len() == 0 {
        Map::empty()
    } else {
        entries_model(s.drop_last()).insert(s.last().token@, entry_view(s.last()))
    }
}

spec fn tokens_unique(s: Seq<Entry>) -> bool {
    forall|i: int, j: int| 0 <= i < j < s.len() ==> s[i].token@ != s[j].token@
}

proof fn lemma_model_contains(s: Seq<Entry>, t: Seq<char>)
    ensures
        entries_model(s).contains_key(t) <==> exists|i: int|
            0 <= i < s.len() && #[trigger] s[i].token@ == t,
    decreases s.len(),
{
    if s.len() > 0 {
        lemma_model_contains(s.drop_last(), t);
        if entries_model(s).contains_key(t) {
            if s.last().token@ == t {
                assert(s[s.len() - 1].token@ == t);
            } else {
                let i = choose|i: int| 0 <= i < s.drop_last().len()
                    && #[trigger] s.drop_last()[i].token@ == t;
                assert(s[i].token@ == t);
            }
        }
        if exists|i: int| 0 <= i < s.len() && #[trigger] s[i].token@ == t {
            let i = choose|i: int| 0 <= i < s.len() && #[trigger] s[i].token@ == t;
            if i < s.len() - 1 {
                assert(s.drop_last()[i].token@ == t);
            }
        }
    }
}

proof fn lemma_model_value(s: Seq<Entry>, i: int)
    requires
        0 <= i < s.len(),
        forall|j: int| i < j < s.len() ==> s[j].token@ != s[i].token@,
    ensures
        entries_model(s).contains_key(s[i].token@),
        entries_model(s)[s[i].token@] == entry_view(s[i]),
    decreases s.len(),
{
    if i == s.len() - 1 {
    } else {
        assert(s.last().token@ != s[i].token@);
        assert(forall|j: int| i < j < s.drop_last().len()
            ==> s.drop_last()[j].token@ != s.drop_last()[i].token@);
        lemma_model_value(s.drop_last(), i);
    }
}

proof fn lemma_model_update(s: Seq<Entry>, i: int, e: Entry)
    requires
        0 <= i < s.len(),
        s[i].token@ == e.token@,
        tokens_unique(s),
    ensures
        entries_model(s.update(i, e)) =~= entries_model(s).insert(e.token@, entry_view(e)),
    decreases s.len(),
{
    let s2 = s.update(i, e);
    if i == s.len() - 1 {
        assert(s2.drop_last() =~= s.drop_last());
        assert(s2.last() == e);
    } else {
        assert(s2.last() == s.last());
        assert(s2.drop_last() =~= s.drop_last().update(i, e));
        assert(forall|j: int, k: int| 0 <= j < k < s.drop_last().len()
            ==> s.drop_last()[j].token@ != s.drop_last()[k].token@);
        lemma_model_update(s.drop_last(), i, e);
        assert(s.last().token@ != e.token@);
        assert(entries_model(s2) =~= entries_model(s).insert(e.token@, entry_view(e)));
    }
}

fn find_index(entries: &Vec<Entry>, token: &String) -> (r: Option<usize>)
    ensures
        r matches Some(i) ==> i < entries@.len() && entries@[i as int].token@ == token@,
        r is None ==> forall|i: int| 0 <= i < entries@.len()
            ==> entries@[i].token@ != token@,
{
    let n = entries.len();
    let mut i: usize = 0;
    while i < n
        invariant
            i <= n,
            n == entries@.len(),
            forall|k: int| 0 <= k < i ==> entries@[k].token@ != token@,
        decreases n - i,
    {
        if entries[i].token == *token {
            return Some(i);
        }
        i = i + 1;
    }
    None
}

impl Directory {
    /// The store's contents: which record each session token names, and
    /// when it expires.
    pub closed spec fn view(self) -> Map<Seq<char>, StoredRecord> {
        entries_model(self.entries@)
    }

    /// The store's clock, in seconds.
    pub closed spec fn now(self) -> u64 {
        self.clock
    }

    /// The stored-representation invariant: exactly one store entry per
    /// session token.
    pub closed spec fn wf(self) -> bool {
        tokens_unique(self.entries@)
    }

    /// An empty directory at time zero.
    pub fn new() -> (r: Self)
        ensures
            r.wf(),
            r@ == Map::<Seq<char>, StoredRecord>::empty(),
            r.now() == 0,
    {
        Directory { clock: 0, entries: Vec::new() }
    }

    /// Writes the record for `token` (trimmed of surrounding whitespace),
    /// expiring `ttl_secs` from now, atomically with the field writes.
    /// Any prior record under the same token is overwritten in full — no
    /// merge. A zero lifetime is rejected as `InvalidTtl` with no write:
    /// passing it through would make the session permanent by accident.
    pub fn create_session(
        &mut self,
        token: &Session,
        identifier: &Uuid,
        metadata: Option<&str>,
        ttl_secs: u64,
    ) -> (r: Result<(), Error>)
        requires
            old(self).wf(),
            old(self).now() + ttl_secs <= u64::MAX,
        ensures
            final(self).wf(),
            final(self).now() == old(self).now(),
            ttl_secs == 0 ==> r == Err::<(), Error>(Error::InvalidTtl)
                && *final(self) == *old(self),
            ttl_secs > 0 ==> r == Ok::<(), Error>(()) && final(self)@ == old(self)@.insert(
                trim_spec(token@),
                StoredRecord {
                    record: RecordView {
                        identity: identifier@,
                        metadata: metadata.deep_view(),
                    },
                    expires_at: (old(self).now() + ttl_secs) as u64,
                },
            ),
    {
        if ttl_secs == 0 {
            return Err(Error::InvalidTtl);
        }
        let t = String::from_str(trim(token.session()));
        let e = Entry {
            token: t,
            identity: String::from_str(identifier.uuid.as_str()),
            metadata: match metadata {
                Some(m) => Some(String::from_str(m)),
                None => None,
            },
            expires_at: self.clock + ttl_secs,
        };
        let ghost ge = e;
        match find_index(&self.entries, &e.token) {
            Some(i) => {
                proof {
                    lemma_model_update(self.entries@, i as int, ge);
                }
                self.entries[i] = e;
            }
            None => {
                proof {
                    let s2 = self.entries@.push(ge);
                    assert(s2.drop_last() =~= self.entries@);
                    assert(forall|i: int, j: int| 0 <= i < j < s2.len()
                        ==> s2[i].token@ != s2[j].token@);
                }
                self.entries.push(e);
            }
        }
        assert(self@ =~= old(self)@.insert(trim_spec(token@), entry_view(ge)));
        Ok(())
    }

    /// Fetches the record for `token` (trimmed). Returns `None` when no
    /// live record exists — expired and never-created are
    /// indistinguishable, and neither is an error. Does not refresh or
    /// extend the record's lifetime.
    pub fn get_session(&self, token: &Session) -> (r: Result<Option<SessionRecord>, Error>)
        requires
            self.wf(),
        ensures
            is_live(self@, trim_spec(token@), self.now()) ==> (r matches Ok(o)
                && o matches Some(rec) && rec@ == self@[trim_spec(token@)].record),
            !is_live(self@, trim_spec(token@), self.now())
                ==> r == Ok::<Option<SessionRecord>, Error>(None),
    {
        let t = String::from_str(trim(token.session()));
        match find_index(&self.entries, &t) {
            None => {
                proof {
                    lemma_model_contains(self.entries@, t@);
                }
                Ok(None)
            }
            Some(i) => {
                proof {
                    lemma_model_value(self.entries@, i as int);
                }
                let e = &self.entries[i];
                if e.expires_at > self.clock {
                    let meta = match &e.metadata {
                        Some(m) => Some(m.clone()),
                        None => None,
                    };
                    Ok(Some(SessionRecord {
                        identity: Uuid { uuid: e.identity.clone() },
                        metadata: meta,
                    }))
                } else {
                    Ok(None)
                }
            }
        }
    }

    /// Enumerates the tokens of the live sessions that belong to
    /// `identifier`: every live token of that identity appears exactly
    /// once, in unspecified order, and no token of another identity or
    /// expired session appears.
    pub fn list_sessions_for_identity(&self, identifier: &Uuid) -> (r: Result<Vec<Session>, Error>)
        requires
            self.wf(),
        ensures
            r is Ok,
            r matches Ok(v) ==> forall|k: int| 0 <= k < v@.len()
                ==> is_live(self@, #[trigger] v@[k]@, self.now())
                    && self@[v@[k]@].record.identity == identifier@,
            r matches Ok(v) ==> forall|t: Seq<char>|
                is_live(self@, t, self.now()) && #[trigger] self@[t].record.identity
                    == identifier@ ==> exists|k: int| 0 <= k < v@.len() && #[trigger] v@[k]@ == t,
            r matches Ok(v) ==> forall|k1: int, k2: int| 0 <= k1 < k2 < v@.len()
                ==> v@[k1]@ != v@[k2]@,
    {
        let n = self.entries.len();
        let mut out: Vec<Session> = Vec::new();
        let mut i: usize = 0;
        while i < n
            invariant
                i <= n,
                n == self.entries@.len(),
                self.wf(),
                forall|k: int| 0 <= k < out@.len() ==> exists|j: int|
                    0 <= j < i && #[trigger] out@[k]@ == self.entries@[j].token@
                        && entry_matches(self.entries@[j], identifier@, self.now()),
                forall|j: int| 0 <= j < i && entry_matches(
                    #[trigger] self.entries@[j], identifier@, self.now(),
                ) ==> exists|k: int| 0 <= k < out@.len() && #[trigger] out@[k]@
                    == self.entries@[j].token@,
                forall|k1: int, k2: int| 0 <= k1 < k2 < out@.len()
                    ==> out@[k1]@ != out@[k2]@,
            decreases n - i,
        {
            let e = &self.entries[i];
            if e.expires_at > self.clock && e.identity == identifier.uuid {
                proof {
                    assert forall|k: int| 0 <= k < out@.len()
                        implies out@[k]@ != self.entries@[i as int].token@ by {
                        let j = choose|j: int| 0 <= j < i && #[trigger] out@[k]@
                            == self.entries@[j].token@
                            && entry_matches(self.entries@[j], identifier@, self.now());
                        assert(self.entries@[j].token@ != self.entries@[i as int].token@);
                    }
                }
                let ghost prev = out@;
                let fresh = Session::from_string(e.token.clone());
                out.push(fresh);
                proof {
                    assert(out@ == prev.push(fresh));
                    assert(out@[out@.len() - 1]@ == self.entries@[i as int].token@);
                    assert(entry_matches(self.entries@[i as int], identifier@, self.now()));
                    assert forall|j: int| 0 <= j <= i && entry_matches(
                        #[trigger] self.entries@[j], identifier@, self.now(),
                    ) implies exists|k: int| 0 <= k < out@.len() && #[trigger] out@[k]@
                        == self.entries@[j].token@ by {
                        if j < i {
                            let k = choose|k: int| 0 <= k < prev.len() && #[trigger] prev[k]@
                                == self.entries@[j].token@;
                            assert(out@[k]@ == self.entries@[j].token@);
                        } else {
                            assert(out@[out@.len() - 1]@ == self.entries@[j].token@);
                        }
                    }
                }
            }
            i = i + 1;
        }
        proof {
            lemma_list_post(self.entries@, out@, identifier@, self.clock);
        }
        Ok(out)
    }

    /// Moves the store's clock forward, as the passage of time (or a
    /// time-travel test) would: contents are untouched, and records whose
    /// expiry falls due simply stop being live.
    pub fn advance_clock(&mut self, secs: u64)
        requires
            old(self).wf(),
            old(self).now() + secs <= u64::MAX,
        ensures
            final(self).wf(),
            final(self)@ == old(self)@,
            final(self).now() == old(self).now() + secs,
    {
        self.clock = self.clock + secs;
    }
}

/// Round trip: `create_session` followed immediately by `get_session` on
/// the same token returns the created record. After a create, the store
/// contents are the old contents with the trimmed token bound to the new
/// record; this law says that binding is live and names exactly that
/// record, so `get_session`'s contract returns `Some` of it, identity and
/// metadata included.
pub proof fn lemma_create_then_get(
    m: Map<Seq<char>, StoredRecord>,
    token: Seq<char>,
    sr: StoredRecord,
    now: u64,
)
    requires
        sr.expires_at > now,
    ensures
        is_live(m.insert(token, sr), token, now),
        m.insert(token, sr)[token] == sr,
{
}

/// Idempotence of overwrite: two creations under the same token leave
/// only the second record visible — no merged or partial state, whatever
/// the store held before.
pub proof fn lemma_overwrite(
    m: Map<Seq<char>, StoredRecord>,
    token: Seq<char>,
    first: StoredRecord,
    second: StoredRecord,
)
    ensures
        m.insert(token, first).insert(token, second) =~= m.insert(token, second),
{
}

/// Expiry: once the clock reaches a record's expiry time, the session is
/// no longer live — whatever else the store holds — and `get_session`'s
/// contract returns `None` for its token.
pub proof fn lemma_expiry(
    m: Map<Seq<char>, StoredRecord>,
    token: Seq<char>,
    sr: StoredRecord,
    now: u64,
)
    requires
        sr.expires_at <= now,
    ensures
        !is_live(m.insert(token, sr), token, now),
{
}

/// Whether an entry is a live session of `identity` at time `now`.
spec fn entry_matches(e: Entry, identity: Seq<char>, now: u64) -> bool {
    e.expires_at > now && e.identity@ == identity
}

proof fn lemma_list_post(s: Seq<Entry>, ts: Seq<Session>, identity: Seq<char>, now: u64)
    requires
        tokens_unique(s),
        forall|k: int| 0 <= k < ts.len() ==> exists|j: int|
            0 <= j < s.len() && #[trigger] ts[k]@ == s[j].token@
                && entry_matches(s[j], identity, now),
        forall|j: int| 0 <= j < s.len() && entry_matches(#[trigger] s[j], identity, now)
            ==> exists|k: int| 0 <= k < ts.len() && #[trigger] ts[k]@ == s[j].token@,
    ensures
        forall|k: int| 0 <= k < ts.len() ==> is_live(entries_model(s), #[trigger] ts[k]@, now)
            && entries_model(s)[ts[k]@].record.identity == identity,
        forall|t: Seq<char>| is_live(entries_model(s), t, now)
            && #[trigger] entries_model(s)[t].record.identity == identity
            ==> exists|k: int| 0 <= k < ts.len() && #[trigger] ts[k]@ == t,
{
    assert forall|k: int| 0 <= k < ts.len() implies is_live(entries_model(s), #[trigger] ts[k]@, now)
        && entries_model(s)[ts[k]@].record.identity == identity by {
        let j = choose|j: int| 0 <= j < s.len() && #[trigger] ts[k]@ == s[j].token@
            && entry_matches(s[j], identity, now);
        assert(forall|l: int| j < l < s.len() ==> s[l].token@ != s[j].token@);
        lemma_model_value(s, j);
    }
    assert forall|t: Seq<char>| is_live(entries_model(s), t, now)
        && #[trigger] entries_model(s)[t].record.identity == identity
        implies exists|k: int| 0 <= k < ts.len() && #[trigger] ts[k]@ == t by {
        lemma_model_contains(s, t);
        let j = choose|j: int| 0 <= j < s.len() && #[trigger] s[j].token@ == t;
        assert(forall|l: int| j < l < s.len() ==> s[l].token@ != s[j].token@);
        lemma_model_value(s, j);
        assert(entry_matches(s[j], identity, now));
    }
}

} // verus!
