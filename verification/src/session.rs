//! Login sessions: the tokens browsers hold in their session cookie, and when each expires.

use vstd::prelude::*;

use crate::text::{char_from_ascii, push_char, str_eq};

verus! {

/// How long a session lasts, in nanoseconds: three days.
pub const SESSION_LIFETIME_NANOS: u128 = 259200000000000;

#[verifier::external_type_specification]
#[verifier::external_body]
pub struct ExInstant(std::time::Instant);

/// A reading of the monotonic clock (`Instant::now`). Nothing is claimed of it: it is the time.
#[verifier::external_body]
fn clock_reading() -> std::time::Instant {
    std::time::Instant::now()
}

/// Nanoseconds of the monotonic clock since `start` (`Instant::elapsed`, then
/// `Duration::as_nanos`); `elapsed` saturates at zero rather than going back. Nothing is claimed of
/// the value: it is the time.
#[verifier::external_body]
fn nanos_since(start: &std::time::Instant) -> u128 {
    start.elapsed().as_nanos()
}

/// Sixteen bytes from the operating system's random source (`getrandom::fill`), or None when it
/// has no randomness to offer. Nothing is claimed of the bytes: they are random.
#[verifier::external_body]
fn random_bytes() -> Option<[u8; 16]> {
    let mut buf = [0u8; 16];
    match getrandom::fill(&mut buf) {
        Ok(()) => Some(buf),
        Err(_) => None,
    }
}

/// A lowercase hexadecimal digit.
pub open spec fn hex_digit(d: int) -> char {
    if d < 10 {
        ((48 + d) as u32) as char
    } else {
        ((87 + d) as u32) as char
    }
}

/// Bytes as lowercase hexadecimal, two digits each (`format!("{byte:02x}")`).
pub open spec fn hex(bytes: Seq<u8>) -> Seq<char>
    decreases bytes.len(),
{
    if bytes.len() == 0 {
        seq![]
    } else {
        hex(bytes.drop_last()) + seq![
            hex_digit(bytes.last() as int / 16),
            hex_digit(bytes.last() as int % 16),
        ]
    }
}

fn hex_char(d: u8) -> (c: char)
    requires
        d < 16,
    ensures
        c == hex_digit(d as int),
{
    if d < 10 {
        char_from_ascii((48 + d) as u32)
    } else {
        char_from_ascii((87 + d) as u32)
    }
}

/// Bytes as lowercase hexadecimal, two digits each.
pub fn hex_string(bytes: &[u8]) -> (r: String)
    ensures
        r@ == hex(bytes@),
{
    let mut r = String::new();
    let mut i: usize = 0;
    while i < bytes.len()
        invariant
            i <= bytes.len(),
            r@ == hex(bytes@.take(i as int)),
        decreases bytes.len() - i,
    {
        let b = bytes[i];
        push_char(&mut r, hex_char(b / 16));
        push_char(&mut r, hex_char(b % 16));
        assert(bytes@.take(i + 1).drop_last() =~= bytes@.take(i as int));
        assert(r@ =~= hex(bytes@.take(i + 1)));
        i = i + 1;
    }
    assert(bytes@.take(bytes.len() as int) =~= bytes@);
    r
}

/// A fresh 128-bit random token, hex-encoded: 32 lowercase hexadecimal digits. None when the
/// operating system has no randomness to offer.
fn generate_token() -> (r: Option<String>)
    ensures
        r matches Some(t) ==> t@.len() == 32 && exists|b: Seq<u8>| b.len() == 16 && t@ == hex(b),
{
    let bytes = match random_bytes() {
        Some(bytes) => bytes,
        None => return None,
    };
    let r = hex_string(&bytes);
    proof {
        assert(bytes@.len() == 16);
        lemma_hex_len(bytes@);
    }
    Some(r)
}

proof fn lemma_hex_len(bytes: Seq<u8>)
    ensures
        hex(bytes).len() == 2 * bytes.len(),
    decreases bytes.len(),
{
    if bytes.len() > 0 {
        lemma_hex_len(bytes.drop_last());
    }
}

// ---------------------------------------------------------------------------------------------
// The store
// ---------------------------------------------------------------------------------------------

/// A list of (token, expiry) entries by their values.
pub open spec fn entries(s: Seq<(String, u128)>) -> Seq<(Seq<char>, u128)> {
    s.map_values(|e: (String, u128)| (e.0@, e.1))
}

/// When the session with this token expires: the latest entry for it wins.
pub open spec fn lookup(s: Seq<(Seq<char>, u128)>, token: Seq<char>) -> Option<u128>
    decreases s.len(),
{
    if s.len() == 0 {
        None
    } else if s.last().0 == token {
        Some(s.last().1)
    } else {
        lookup(s.drop_last(), token)
    }
}

/// The entries without those for `token`.
pub open spec fn without(s: Seq<(Seq<char>, u128)>, token: Seq<char>) -> Seq<(Seq<char>, u128)>
    decreases s.len(),
{
    if s.len() == 0 {
        seq![]
    } else if s.last().0 == token {
        without(s.drop_last(), token)
    } else {
        without(s.drop_last(), token).push(s.last())
    }
}

/// Only the entries for `token`.
pub open spec fn only(s: Seq<(Seq<char>, u128)>, token: Seq<char>) -> Seq<(Seq<char>, u128)>
    decreases s.len(),
{
    if s.len() == 0 {
        seq![]
    } else if s.last().0 == token {
        only(s.drop_last(), token).push(s.last())
    } else {
        only(s.drop_last(), token)
    }
}

proof fn lemma_without(s: Seq<(Seq<char>, u128)>, token: Seq<char>, t: Seq<char>)
    ensures
        lookup(without(s, token), t) == if t == token {
            None
        } else {
            lookup(s, t)
        },
    decreases s.len(),
{
    if s.len() > 0 {
        lemma_without(s.drop_last(), token, t);
        if s.last().0 != token {
            assert(without(s, token).drop_last() =~= without(s.drop_last(), token));
        }
    }
}

proof fn lemma_only(s: Seq<(Seq<char>, u128)>, token: Seq<char>, t: Seq<char>)
    ensures
        lookup(only(s, token), t) == if t == token {
            lookup(s, t)
        } else {
            None
        },
    decreases s.len(),
{
    if s.len() > 0 {
        lemma_only(s.drop_last(), token, t);
        if s.last().0 == token {
            assert(only(s, token).drop_last() =~= only(s.drop_last(), token));
        }
    }
}

/// No token occurs in two entries.
pub open spec fn distinct_tokens(s: Seq<(Seq<char>, u128)>) -> bool {
    forall|i: int, j: int| 0 <= i < j < s.len() ==> #[trigger] s[i].0 != #[trigger] s[j].0
}

/// Some entry is for `token`.
pub open spec fn has_token(s: Seq<(Seq<char>, u128)>, token: Seq<char>) -> bool {
    exists|i: int| 0 <= i < s.len() && #[trigger] s[i].0 == token
}

proof fn lemma_lookup_none(s: Seq<(Seq<char>, u128)>, token: Seq<char>)
    requires
        lookup(s, token) is None,
    ensures
        !has_token(s, token),
    decreases s.len(),
{
    if s.len() > 0 {
        lemma_lookup_none(s.drop_last(), token);
        assert forall|i: int| 0 <= i < s.len() implies #[trigger] s[i].0 != token by {
            if i < s.len() - 1 {
                assert(s.drop_last()[i] == s[i]);
            }
        }
    }
}

proof fn lemma_without_distinct(s: Seq<(Seq<char>, u128)>, token: Seq<char>)
    requires
        distinct_tokens(s),
    ensures
        distinct_tokens(without(s, token)),
        forall|t: Seq<char>| has_token(without(s, token), t) ==> has_token(s, t),
    decreases s.len(),
{
    if s.len() > 0 {
        let d = s.drop_last();
        assert(distinct_tokens(d)) by {
            assert forall|i: int, j: int| 0 <= i < j < d.len() implies #[trigger] d[i].0
                != #[trigger] d[j].0 by {
                assert(d[i] == s[i] && d[j] == s[j]);
            }
        }
        lemma_without_distinct(d, token);
        let w = without(d, token);
        assert forall|t: Seq<char>| has_token(without(s, token), t) implies has_token(s, t) by {
            let k = choose|k: int| 0 <= k < without(s, token).len() && #[trigger] without(
                s,
                token,
            )[k].0 == t;
            if s.last().0 != token && k == w.len() {
                assert(s[s.len() - 1].0 == t);
            } else {
                assert(w[k].0 == t);
                assert(has_token(w, t));
                assert(has_token(d, t));
                let i = choose|i: int| 0 <= i < d.len() && #[trigger] d[i].0 == t;
                assert(s[i] == d[i]);
                assert(s[i].0 == t);
            }
        }
        if s.last().0 != token {
            assert(!has_token(w, s.last().0)) by {
                if has_token(w, s.last().0) {
                    assert(has_token(d, s.last().0));
                    let i = choose|i: int| 0 <= i < d.len() && #[trigger] d[i].0 == s.last().0;
                    assert(s[i] == d[i]);
                    assert(s[i].0 != s[s.len() - 1].0);
                }
            }
            let ws = w.push(s.last());
            assert forall|i: int, j: int| 0 <= i < j < ws.len() implies #[trigger] ws[i].0
                != #[trigger] ws[j].0 by {
                if j == w.len() {
                    assert(ws[i] == w[i]);
                    if w[i].0 == s.last().0 {
                        assert(has_token(w, s.last().0));
                    }
                } else {
                    assert(ws[i] == w[i] && ws[j] == w[j]);
                }
            }
        }
    }
}

proof fn lemma_only_distinct(s: Seq<(Seq<char>, u128)>, token: Seq<char>)
    requires
        distinct_tokens(s),
    ensures
        distinct_tokens(only(s, token)),
        forall|t: Seq<char>| has_token(only(s, token), t) ==> has_token(s, t),
    decreases s.len(),
{
    if s.len() > 0 {
        let d = s.drop_last();
        assert(distinct_tokens(d)) by {
            assert forall|i: int, j: int| 0 <= i < j < d.len() implies #[trigger] d[i].0
                != #[trigger] d[j].0 by {
                assert(d[i] == s[i] && d[j] == s[j]);
            }
        }
        lemma_only_distinct(d, token);
        let w = only(d, token);
        assert forall|t: Seq<char>| has_token(only(s, token), t) implies has_token(s, t) by {
            let k = choose|k: int| 0 <= k < only(s, token).len() && #[trigger] only(s, token)[k].0
                == t;
            if s.last().0 == token && k == w.len() {
                assert(s[s.len() - 1].0 == t);
            } else {
                assert(w[k].0 == t);
                assert(has_token(w, t));
                assert(has_token(d, t));
                let i = choose|i: int| 0 <= i < d.len() && #[trigger] d[i].0 == t;
                assert(s[i] == d[i]);
                assert(s[i].0 == t);
            }
        }
        if s.last().0 == token {
            assert(!has_token(w, s.last().0)) by {
                if has_token(w, s.last().0) {
                    assert(has_token(d, s.last().0));
                    let i = choose|i: int| 0 <= i < d.len() && #[trigger] d[i].0 == s.last().0;
                    assert(s[i] == d[i]);
                    assert(s[i].0 != s[s.len() - 1].0);
                }
            }
            let ws = w.push(s.last());
            assert forall|i: int, j: int| 0 <= i < j < ws.len() implies #[trigger] ws[i].0
                != #[trigger] ws[j].0 by {
                if j == w.len() {
                    assert(ws[i] == w[i]);
                    if w[i].0 == s.last().0 {
                        assert(has_token(w, s.last().0));
                    }
                } else {
                    assert(ws[i] == w[i] && ws[j] == w[j]);
                }
            }
        }
    }
}

/// The set of live login sessions, keyed by the token each browser holds in its session cookie.
///
/// Sessions are held in memory and get reset if the server restarts.
pub struct SessionStore {
    /// token -> expiry, in nanoseconds of the monotonic clock since the store was made
    sessions: Vec<(String, u128)>,
    /// when the store was made; the clock that session times count from
    started: std::time::Instant,
}

impl Default for SessionStore {
    fn default() -> (r: Self)
        ensures
            forall|t: Seq<char>| #[trigger] r.expiry(t) is None,
    {
        SessionStore { sessions: Vec::new(), started: clock_reading() }
    }
}

impl SessionStore {
    /// The store's invariant: it holds at most one entry for a token.
    #[verifier::type_invariant]
    spec fn one_entry_per_token(self) -> bool {
        distinct_tokens(entries(self.sessions@))
    }

    /// When the session with this token expires, if the store holds one.
    pub closed spec fn expiry(self, token: Seq<char>) -> Option<u128> {
        lookup(entries(self.sessions@), token)
    }

    /// Is this token a live session at time `now`?
    pub open spec fn live(self, token: Seq<char>, now: u128) -> bool {
        self.expiry(token) matches Some(e) && now < e
    }

    /// When a session started at `now` expires.
    pub open spec fn expiry_from(now: u128) -> u128 {
        if now + SESSION_LIFETIME_NANOS <= u128::MAX {
            (now + SESSION_LIFETIME_NANOS) as u128
        } else {
            u128::MAX
        }
    }

    /// `after` is `before` with a session for `token` started at `now`.
    pub open spec fn created(before: SessionStore, after: SessionStore, token: Seq<char>, now: u128) -> bool {
        &&& after.expiry(token) == Some(SessionStore::expiry_from(now))
        &&& forall|t: Seq<char>| t != token ==> #[trigger] after.expiry(t) == before.expiry(t)
    }

    /// `after` is `before` with the session for `token` ended.
    pub open spec fn revoked(before: SessionStore, after: SessionStore, token: Seq<char>) -> bool {
        &&& after.expiry(token) is None
        &&& forall|t: Seq<char>| t != token ==> #[trigger] after.expiry(t) == before.expiry(t)
    }

    /// `after` is `before` with every session but the one for `token` ended.
    pub open spec fn kept_only(before: SessionStore, after: SessionStore, token: Seq<char>) -> bool {
        &&& after.expiry(token) == before.expiry(token)
        &&& forall|t: Seq<char>| t != token ==> (#[trigger] after.expiry(t)) is None
    }

    /// The entries without those for `token`.
    fn drop_token(&mut self, token: &str)
        ensures
            forall|t: Seq<char>|
                #[trigger] final(self).expiry(t) == if t == token@ {
                    None
                } else {
                    old(self).expiry(t)
                },
    {
        proof {
            use_type_invariant(&*self);
        }
        let ghost old_entries = entries(self.sessions@);
        let mut kept: Vec<(String, u128)> = Vec::new();
        let mut i: usize = 0;
        while i < self.sessions.len()
            invariant
                i <= self.sessions.len(),
                old_entries == entries(self.sessions@),
                entries(kept@) == without(old_entries.take(i as int), token@),
            decreases self.sessions.len() - i,
        {
            let ghost before = kept@;
            assert(old_entries.take(i + 1).drop_last() =~= old_entries.take(i as int));
            if !str_eq(self.sessions[i].0.as_str(), token) {
                kept.push((self.sessions[i].0.clone(), self.sessions[i].1));
                assert(entries(kept@) =~= entries(before).push(old_entries[i as int]));
            }
            i = i + 1;
        }
        assert(old_entries.take(self.sessions.len() as int) =~= old_entries);
        proof {
            lemma_without_distinct(old_entries, token@);
        }
        self.sessions = kept;
        proof {
            assert forall|t: Seq<char>| #[trigger] self.expiry(t) == if t == token@ {
                None
            } else {
                lookup(old_entries, t)
            } by {
                lemma_without(old_entries, token@, t);
            }
        }
    }

    /// Start a session with this token at time `now`, in nanoseconds since the store was made. It
    /// lasts [SESSION_LIFETIME_NANOS], or to the end of time when that would pass the clock's
    /// range.
    pub fn create_at(&mut self, token: String, now: u128)
        ensures
            SessionStore::created(*old(self), *final(self), token@, now),
    {
        self.drop_token(token.as_str());
        proof {
            use_type_invariant(&*self);
            assert(self.expiry(token@) is None);
        }
        let ghost mid = *self;
        let ghost before = entries(self.sessions@);
        let ghost tv = token@;
        let expires = now.saturating_add(SESSION_LIFETIME_NANOS);
        let mut sessions: Vec<(String, u128)> = Vec::new();
        std::mem::swap(&mut sessions, &mut self.sessions);
        sessions.push((token, expires));
        proof {
            assert(entries(sessions@) =~= before.push((tv, expires)));
            lemma_lookup_none(before, tv);
            let after = entries(sessions@);
            assert forall|i: int, j: int| 0 <= i < j < after.len() implies #[trigger] after[i].0
                != #[trigger] after[j].0 by {
                if j == before.len() {
                    assert(after[i] == before[i]);
                } else {
                    assert(after[i] == before[i] && after[j] == before[j]);
                }
            }
        }
        self.sessions = sessions;
        proof {
            assert(entries(self.sessions@) =~= before.push((tv, expires)));
            assert(entries(self.sessions@).drop_last() =~= before);
            assert(expires == SessionStore::expiry_from(now));
            assert(self.expiry(tv) == Some(expires));
            assert forall|t: Seq<char>| t != tv implies #[trigger] self.expiry(t) == old(self).expiry(t) by {
                assert(entries(self.sessions@).last().0 == tv);
                assert(mid.expiry(t) == old(self).expiry(t));
                assert(mid.expiry(t) == lookup(before, t));
            }
        }
    }

    /// Is this token a live login session at time `now`? An expired one is dropped.
    pub fn validate_at(&mut self, token: &str, now: u128) -> (r: bool)
        ensures
            r == old(self).live(token@, now),
            forall|t: Seq<char>|
                #[trigger] final(self).expiry(t) == if t == token@ && !r {
                    None
                } else {
                    old(self).expiry(t)
                },
    {
        let ghost old_entries = entries(self.sessions@);
        let mut i = self.sessions.len();
        assert(old_entries.take(i as int) =~= old_entries);
        while i > 0
            invariant
                i <= self.sessions.len(),
                self.sessions@ == old(self).sessions@,
                old_entries == entries(self.sessions@),
                lookup(old_entries, token@) == lookup(old_entries.take(i as int), token@),
            decreases i,
        {
            assert(old_entries.take(i as int).drop_last() =~= old_entries.take(i - 1));
            if str_eq(self.sessions[i - 1].0.as_str(), token) {
                let expires_at = self.sessions[i - 1].1;
                assert(old_entries.take(i as int).last() == (token@, expires_at));
                assert(lookup(old_entries, token@) == Some(expires_at));
                if now < expires_at {
                    return true;
                }
                self.drop_token(token);
                return false;
            }
            i = i - 1;
        }
        assert(old_entries.take(0) =~= Seq::<(Seq<char>, u128)>::empty());
        self.drop_token(token);
        false
    }

    /// End the session with this token, if any (logout).
    pub fn revoke(&mut self, token: &str)
        ensures
            SessionStore::revoked(*old(self), *final(self), token@),
    {
        self.drop_token(token);
    }

    /// End every session except the one with this token i.e., a password change
    pub fn revoke_all_except(&mut self, token: &str)
        ensures
            SessionStore::kept_only(*old(self), *final(self), token@),
    {
        proof {
            use_type_invariant(&*self);
        }
        let ghost old_entries = entries(self.sessions@);
        let mut kept: Vec<(String, u128)> = Vec::new();
        let mut i: usize = 0;
        while i < self.sessions.len()
            invariant
                i <= self.sessions.len(),
                old_entries == entries(self.sessions@),
                entries(kept@) == only(old_entries.take(i as int), token@),
            decreases self.sessions.len() - i,
        {
            let ghost before = kept@;
            assert(old_entries.take(i + 1).drop_last() =~= old_entries.take(i as int));
            if str_eq(self.sessions[i].0.as_str(), token) {
                kept.push((self.sessions[i].0.clone(), self.sessions[i].1));
                assert(entries(kept@) =~= entries(before).push(old_entries[i as int]));
            }
            i = i + 1;
        }
        assert(old_entries.take(self.sessions.len() as int) =~= old_entries);
        proof {
            lemma_only_distinct(old_entries, token@);
        }
        self.sessions = kept;
        proof {
            lemma_only(old_entries, token@, token@);
            assert forall|t: Seq<char>| t != token@ implies (#[trigger] self.expiry(t)) is None by {
                lemma_only(old_entries, token@, t);
            }
        }
    }

    /// Start a new session, returning its token: 32 lowercase hexadecimal digits. None, with
    /// the store unchanged, when the operating system has no randomness to offer.
    pub fn create(&mut self) -> (r: Option<String>)
        ensures
            r matches Some(t) ==> {
                &&& t@.len() == 32
                &&& exists|b: Seq<u8>| b.len() == 16 && t@ == hex(b)
                &&& exists|now: u128| SessionStore::created(*old(self), *final(self), t@, now)
            },
            r is None ==> *final(self) == *old(self),
    {
        let token = match generate_token() {
            Some(token) => token,
            None => return None,
        };
        let now = nanos_since(&self.started);
        self.create_at(token.clone(), now);
        Some(token)
    }

    /// Is this token a live login session? An expired session it names is forgotten. Whatever the
    /// clock read, the answer is what [SessionStore::validate_at] gives for it.
    pub fn validate(&mut self, token: &str) -> (r: bool)
        ensures
            r ==> old(self).expiry(token@) is Some,
            exists|now: u128|
                {
                    &&& r == old(self).live(token@, now)
                    &&& forall|t: Seq<char>|
                        #[trigger] final(self).expiry(t) == if t == token@ && !r {
                            None
                        } else {
                            old(self).expiry(t)
                        }
                },
    {
        let now = nanos_since(&self.started);
        self.validate_at(token, now)
    }
}

// ---------------------------------------------------------------------------------------------
// Laws
// ---------------------------------------------------------------------------------------------

/// A session is live from its creation until its lifetime has passed, whatever the store held
/// before: validating its token in that time succeeds.
pub proof fn lemma_created_session_is_live(
    before: SessionStore,
    after: SessionStore,
    token: Seq<char>,
    now: u128,
    later: u128,
)
    requires
        SessionStore::created(before, after, token, now),
        now <= later,
        later < now + SESSION_LIFETIME_NANOS,
        // At the very end of the clock's range a session that would outlast it ends there
        now + SESSION_LIFETIME_NANOS <= u128::MAX || later < u128::MAX,
    ensures
        after.live(token, later),
{
}

/// Once its lifetime has passed, a session is no longer live.
pub proof fn lemma_expired_session_is_not_live(
    before: SessionStore,
    after: SessionStore,
    token: Seq<char>,
    now: u128,
    later: u128,
)
    requires
        SessionStore::created(before, after, token, now),
        now + SESSION_LIFETIME_NANOS <= later,
    ensures
        !after.live(token, later),
{
}

/// A revoked session is never live again, and no other session is touched.
pub proof fn lemma_revoked_session_is_not_live(
    before: SessionStore,
    after: SessionStore,
    token: Seq<char>,
    other: Seq<char>,
    now: u128,
)
    requires
        SessionStore::revoked(before, after, token),
        other != token,
    ensures
        !after.live(token, now),
        after.live(other, now) == before.live(other, now),
{
}

/// Revoking every session but one keeps that one exactly as live as it was and ends the rest.
pub proof fn lemma_revoke_all_except_keeps_current(
    before: SessionStore,
    after: SessionStore,
    current: Seq<char>,
    other: Seq<char>,
    now: u128,
)
    requires
        SessionStore::kept_only(before, after, current),
        other != current,
    ensures
        after.live(current, now) == before.live(current, now),
        !after.live(other, now),
{
}

} // verus!
