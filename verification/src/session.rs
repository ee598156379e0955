//! Session lifetime management: issuing, validating, revoking and
//! sweeping opaque session tokens.
//!
//! A session maps a token to an identity reference and an expiry policy:
//! fixed (set once at creation, for "remember me") or sliding (pushed
//! forward on each access). Sessions are read through an in-memory cache
//! backed by a durable store; writes go to both tiers, a cache miss falls
//! through to the durable store, and the cache is never the sole source of
//! truth. A periodic sweep deletes expired entries from both tiers.

use vstd::prelude::*;

use crate::ids::{fresh_ulid, UserRecordId};

verus! {

/// Session lifetime, in seconds: thirty days, for both policies.
pub const SESSION_TTL_SECONDS: i64 = 30 * 24 * 60 * 60;

/// When a session stops being valid.
#[derive(Clone, Copy, PartialEq, Eq, Structural, Debug)]
pub enum SessionExpiry {
    /// Expires at the held instant, set once at creation and never moved
    /// by later accesses: the "remember me" policy.
    Fixed(i64),
    /// Expires at the held instant, which every validated access pushes
    /// forward by the lifetime: expiry on inactivity.
    Sliding(i64),
}

impl SessionExpiry {
    /// The instant (unix seconds) past which the session is expired.
    pub open spec fn expires_at(self) -> int {
        match self {
            SessionExpiry::Fixed(t) => t as int,
            SessionExpiry::Sliding(t) => t as int,
        }
    }

    /// The instant past which the session is expired.
    pub fn deadline(&self) -> (r: i64)
        ensures
            r as int == self.expires_at(),
    {
        match self {
            SessionExpiry::Fixed(t) => *t,
            SessionExpiry::Sliding(t) => *t,
        }
    }
}

/// One stored session: an opaque token, the identity it stands for, and
/// its expiry.
#[derive(Clone, Copy, PartialEq, Eq, Structural, Debug)]
pub struct Session {
    pub token: u128,
    pub user: UserRecordId,
    pub expiry: SessionExpiry,
}

/// No two records of the tier carry the same token.
pub open spec fn tokens_unique(s: Seq<Session>) -> bool {
    forall|i: int, j: int|
        #![trigger s[i], s[j]]
        0 <= i < j < s.len() ==> s[i].token != s[j].token
}

/// The token-to-record map a tier holds.
pub open spec fn sessions_map(s: Seq<Session>) -> Map<u128, Session>
    decreases s.len(),
{
    if s.len() == 0 {
        Map::empty()
    } else {
        sessions_map(s.drop_last()).insert(s.last().token, s.last())
    }
}

/// Appending a record inserts it into the tier's map.
proof fn lemma_sessions_map_push(s: Seq<Session>, e: Session)
    ensures
        sessions_map(s.push(e)) == sessions_map(s).insert(e.token, e),
{
    assert(s.push(e).drop_last() =~= s);
    assert(s.push(e).last() == e);
}

/// With unique tokens, the tier's map holds exactly the records of the
/// sequence, each under its token.
proof fn lemma_sessions_map_char(s: Seq<Session>)
    requires
        tokens_unique(s),
    ensures
        forall|t: u128|
            #[trigger] sessions_map(s).contains_key(t) <==> exists|i: int|
                0 <= i < s.len() && (#[trigger] s[i]).token == t,
        forall|i: int|
            0 <= i < s.len() ==> sessions_map(s).contains_key((#[trigger] s[i]).token)
                && sessions_map(s)[s[i].token] == s[i],
    decreases s.len(),
{
    if s.len() > 0 {
        let s0 = s.drop_last();
        let e = s.last();
        lemma_sessions_map_char(s0);
        assert forall|i: int| 0 <= i < s.len() implies sessions_map(s).contains_key(
            (#[trigger] s[i]).token,
        ) && sessions_map(s)[s[i].token] == s[i] by {
            if i < s.len() - 1 {
                assert(s0[i] == s[i]);
                assert(s[i].token != e.token);
            }
        }
        assert forall|t: u128| #[trigger] sessions_map(s).contains_key(t) implies exists|i: int|
            0 <= i < s.len() && (#[trigger] s[i]).token == t by {
            if t != e.token {
                assert(sessions_map(s0).contains_key(t));
                assert(exists|i: int| 0 <= i < s0.len() && (#[trigger] s0[i]).token == t);
                let i = choose|i: int| 0 <= i < s0.len() && (#[trigger] s0[i]).token == t;
                assert(s[i] == s0[i]);
            } else {
                assert(s[s.len() - 1] == e);
            }
        }
    }
}

/// Removing the record at one position deletes its token from the map.
proof fn lemma_sessions_map_remove(s: Seq<Session>, i: int)
    requires
        tokens_unique(s),
        0 <= i < s.len(),
    ensures
        tokens_unique(s.remove(i)),
        sessions_map(s.remove(i)) == sessions_map(s).remove(s[i].token),
    decreases s.len(),
{
    let s0 = s.drop_last();
    let e = s.last();
    lemma_sessions_map_char(s0);
    if i == s.len() - 1 {
        assert(s.remove(i) =~= s0);
        assert(!sessions_map(s0).contains_key(e.token));
        assert(sessions_map(s0) =~= sessions_map(s).remove(e.token));
    } else {
        lemma_sessions_map_remove(s0, i);
        assert(s.remove(i).drop_last() =~= s0.remove(i));
        assert(s.remove(i).last() == e);
        assert(s[i].token != e.token);
        assert(sessions_map(s.remove(i)) == sessions_map(s0.remove(i)).insert(e.token, e));
        assert(sessions_map(s0).remove(s[i].token).insert(e.token, e) =~= sessions_map(
            s0,
        ).insert(e.token, e).remove(s[i].token));
        assert(s0[i] == s[i]);
    }
}

/// Replacing the record at one position, token kept, re-points its token
/// in the map.
proof fn lemma_sessions_map_update(s: Seq<Session>, i: int, e: Session)
    requires
        tokens_unique(s),
        0 <= i < s.len(),
        e.token == s[i].token,
    ensures
        tokens_unique(s.update(i, e)),
        sessions_map(s.update(i, e)) == sessions_map(s).insert(e.token, e),
    decreases s.len(),
{
    let s0 = s.drop_last();
    let last = s.last();
    if i == s.len() - 1 {
        assert(s.update(i, e).drop_last() =~= s0);
        assert(s.update(i, e).last() == e);
        assert(sessions_map(s0).insert(e.token, e) =~= sessions_map(s0).insert(
            last.token,
            last,
        ).insert(e.token, e));
    } else {
        lemma_sessions_map_update(s0, i, e);
        assert(s.update(i, e).drop_last() =~= s0.update(i, e));
        assert(s.update(i, e).last() == last);
        assert(s[i] == s0[i]);
        assert(e.token != last.token);
        assert(sessions_map(s0).insert(e.token, e).insert(last.token, last) =~= sessions_map(
            s0,
        ).insert(last.token, last).insert(e.token, e));
    }
    assert forall|x: int, y: int|
        #![trigger s.update(i, e)[x], s.update(i, e)[y]]
        0 <= x < y < s.update(i, e).len() implies s.update(i, e)[x].token != s.update(
        i,
        e,
    )[y].token by {
        assert(s[x].token != s[y].token);
    }
}

/// Index of the record carrying the token, if one is held.
fn find_token(v: &Vec<Session>, token: u128) -> (r: Option<usize>)
    ensures
        r matches Some(i) ==> i < v@.len() && v@[i as int].token == token,
        r is None ==> forall|i: int| 0 <= i < v@.len() ==> (#[trigger] v@[i]).token != token,
{
    let n = v.len();
    for i in 0..n
        invariant
            n == v@.len(),
            forall|j: int| 0 <= j < i ==> (#[trigger] v@[j]).token != token,
    {
        if v[i].token == token {
            return Some(i);
        }
    }
    None
}

/// Deletes the record carrying the token from the tier, if one is held.
fn remove_token(v: &mut Vec<Session>, token: u128)
    requires
        tokens_unique(old(v)@),
    ensures
        tokens_unique(final(v)@),
        sessions_map(final(v)@) == sessions_map(old(v)@).remove(token),
        forall|e: Session|
            #[trigger] final(v)@.contains(e) <==> (old(v)@.contains(e) && e.token != token),
{
    let found = find_token(v, token);
    match found {
        Some(i) => {
            let ghost olds = v@;
            v.remove(i);
            proof {
                lemma_sessions_map_remove(olds, i as int);
                assert forall|e: Session| #[trigger]
                    v@.contains(e) implies (olds.contains(e) && e.token != token) by {
                    let j = choose|j: int| 0 <= j < v@.len() && v@[j] == e;
                    if j < i {
                        assert(olds[j] == e);
                    } else {
                        assert(olds[j + 1] == e);
                    }
                }
                assert forall|e: Session|
                    olds.contains(e) && e.token != token implies #[trigger] v@.contains(e) by {
                    let j = choose|j: int| 0 <= j < olds.len() && olds[j] == e;
                    if j < i {
                        assert(v@[j] == e);
                    } else {
                        assert(j != i);
                        assert(v@[j - 1] == e);
                    }
                }
            }
        },
        None => {
            proof {
                lemma_sessions_map_char(v@);
                assert(!sessions_map(v@).contains_key(token));
                assert(sessions_map(v@) =~= sessions_map(v@).remove(token));
                assert forall|e: Session|
                    #[trigger] v@.contains(e) implies e.token != token by {}
            }
        },
    }
}

/// Whether the record is still live at `now`.
pub open spec fn live_at(e: Session, now: i64) -> bool {
    e.expiry.expires_at() > now
}

/// A tier with unique tokens keeps them unique under filtering.
proof fn lemma_filter_tokens_unique(s: Seq<Session>, pred: spec_fn(Session) -> bool)
    requires
        tokens_unique(s),
    ensures
        tokens_unique(s.filter(pred)),
    decreases s.len(),
{
    reveal(Seq::filter);
    if s.len() > 0 {
        let s0 = s.drop_last();
        let e = s.last();
        assert forall|x: int, y: int|
            #![trigger s0[x], s0[y]]
            0 <= x < y < s0.len() implies s0[x].token != s0[y].token by {
            assert(s0[x] == s[x] && s0[y] == s[y]);
        }
        lemma_filter_tokens_unique(s0, pred);
        let f0 = s0.filter(pred);
        if pred(e) {
            let f = f0.push(e);
            assert forall|x: int, y: int|
                #![trigger f[x], f[y]]
                0 <= x < y < f.len() implies f[x].token != f[y].token by {
                if y == f.len() - 1 {
                    assert(f[x] == f0[x]);
                    assert(f0.contains(f0[x]));
                    s0.lemma_filter_contains_rev(pred, f0[x]);
                    let k = choose|k: int| 0 <= k < s0.len() && s0[k] == f0[x];
                    assert(s[k] == s0[k]);
                    assert(s[k].token != s[s.len() - 1].token);
                } else {
                    assert(f[x] == f0[x] && f[y] == f0[y]);
                }
            }
            assert(s.filter(pred) == f);
        }
    }
}

/// The records of the tier that are still live at `now`, in order.
fn retain_live(v: &Vec<Session>, now: i64) -> (r: Vec<Session>)
    ensures
        r@ == v@.filter(|e: Session| live_at(e, now)),
{
    let ghost pred = |e: Session| live_at(e, now);
    let mut kept: Vec<Session> = Vec::new();
    let n = v.len();
    #[verifier::loop_isolation(false)]
    for i in 0..n
        invariant
            kept@ == v@.take(i as int).filter(pred),
    {
        proof {
            crate::seqs::lemma_filter_push(v@.take(i as int), v@[i as int], pred);
            assert(v@.take(i as int).push(v@[i as int]) =~= v@.take(i + 1));
        }
        if v[i].expiry.deadline() > now {
            kept.push(v[i]);
        }
    }
    proof {
        assert(v@.take(n as int) =~= v@);
    }
    kept
}

/// The record after a validated access at `now`: a sliding expiry moves
/// thirty days past `now`; a fixed expiry, and all else, stays.
pub open spec fn refreshed(s: Session, now: i64) -> Session {
    match s.expiry {
        SessionExpiry::Sliding(_) => Session {
            token: s.token,
            user: s.user,
            expiry: SessionExpiry::Sliding((now + SESSION_TTL_SECONDS) as i64),
        },
        SessionExpiry::Fixed(_) => s,
    }
}

/// Law: a sliding session accessed at `now` stays live at every later
/// instant below the refreshed inactivity window, so repeated validation
/// below the window keeps succeeding.
pub proof fn lemma_sliding_stays_live(s: Session, now: i64, later: i64)
    requires
        s.expiry is Sliding,
        now + SESSION_TTL_SECONDS <= i64::MAX,
        later < now + SESSION_TTL_SECONDS,
    ensures
        live_at(refreshed(s, now), later),
{
}

/// Law: however often a fixed-expiry session is accessed, its record —
/// expiry included — never moves; it expires exactly at the instant set
/// at creation.
pub proof fn lemma_fixed_never_moves(s: Session, now: i64)
    requires
        s.expiry is Fixed,
    ensures
        refreshed(s, now) == s,
{
}

/// Law: a revoked token maps to nothing, so an immediately subsequent
/// validation finds the session absent.
pub proof fn lemma_revoked_token_absent(m: Map<u128, Session>, token: u128)
    ensures
        !m.remove(token).contains_key(token),
{
}

/// The expiry a fresh session gets: fixed thirty days out when remembered,
/// else sliding with the same initial deadline.
pub open spec fn new_expiry(remember: bool, now: i64) -> SessionExpiry {
    if remember {
        SessionExpiry::Fixed((now + SESSION_TTL_SECONDS) as i64)
    } else {
        SessionExpiry::Sliding((now + SESSION_TTL_SECONDS) as i64)
    }
}

/// Issues, persists, caches and expires session tokens.
pub struct SessionManager {
    cache: Vec<Session>,
    durable: Vec<Session>,
}

impl SessionManager {
    /// The sessions held, token to record. The durable tier is the source
    /// of truth; the cache is a performance overlay.
    pub closed spec fn sessions(self) -> Map<u128, Session> {
        sessions_map(self.durable@)
    }

    /// Well-formed: each tier keyed uniquely by token, and every cached
    /// record also held durably, unchanged.
    pub closed spec fn wf(self) -> bool {
        &&& tokens_unique(self.durable@)
        &&& tokens_unique(self.cache@)
        &&& forall|i: int|
            0 <= i < self.cache@.len() ==> self.durable@.contains(#[trigger] self.cache@[i])
    }

    /// An empty manager.
    pub fn new() -> (r: SessionManager)
        ensures
            r.wf(),
            r.sessions() == Map::<u128, Session>::empty(),
    {
        SessionManager { cache: Vec::new(), durable: Vec::new() }
    }

    /// Stores a session under the given token, in both tiers, unless the
    /// token is already taken: exactly then nothing changes and no token
    /// is issued. With `remember` the expiry is fixed, thirty days out;
    /// otherwise it slides on each access.
    pub fn create_with_token(
        &mut self,
        user: UserRecordId,
        remember: bool,
        now: i64,
        token: u128,
    ) -> (r: Option<u128>)
        requires
            old(self).wf(),
            now + SESSION_TTL_SECONDS <= i64::MAX,
        ensures
            final(self).wf(),
            old(self).sessions().contains_key(token) ==> (r is None && final(self).sessions()
                == old(self).sessions()),
            !old(self).sessions().contains_key(token) ==> (r == Some(token)
                && final(self).sessions() == old(self).sessions().insert(
                token,
                Session { token, user, expiry: new_expiry(remember, now) },
            )),
    {
        proof {
            lemma_sessions_map_char(self.durable@);
        }
        let hit = find_token(&self.durable, token);
        if hit.is_some() {
            return None;
        }
        let expiry = if remember {
            SessionExpiry::Fixed(now + SESSION_TTL_SECONDS)
        } else {
            SessionExpiry::Sliding(now + SESSION_TTL_SECONDS)
        };
        let s = Session { token, user, expiry };
        let ghost old_durable = self.durable@;
        let ghost old_cache = self.cache@;
        self.durable.push(s);
        self.cache.push(s);
        proof {
            lemma_sessions_map_push(old_durable, s);
            lemma_sessions_map_char(old_durable);
            assert(!sessions_map(old_durable).contains_key(token));
            assert forall|i: int|
                0 <= i < self.cache@.len() implies self.durable@.contains(
                #[trigger] self.cache@[i],
            ) by {
                if i < old_cache.len() {
                    assert(old_cache[i] == self.cache@[i]);
                    let j = choose|j: int| 0 <= j < old_durable.len() && old_durable[j]
                        == old_cache[i];
                    assert(self.durable@[j] == old_cache[i]);
                } else {
                    assert(self.durable@[old_durable.len() as int] == s);
                }
            }
        }
        Some(token)
    }

    /// Issues a new opaque token for the identity and stores the session
    /// in both tiers, as [`Self::create_with_token`] lays it out. In the
    /// negligible case that the drawn token collides with a live session,
    /// nothing is stored and no token is issued; the caller may retry.
    pub fn create(&mut self, user: UserRecordId, remember: bool, now: i64) -> (r: Option<u128>)
        requires
            old(self).wf(),
            now + SESSION_TTL_SECONDS <= i64::MAX,
        ensures
            final(self).wf(),
            r is None ==> final(self).sessions() == old(self).sessions(),
            r matches Some(t) ==> ({
                &&& !old(self).sessions().contains_key(t)
                &&& final(self).sessions() == old(self).sessions().insert(
                    t,
                    Session { token: t, user, expiry: new_expiry(remember, now) },
                )
            }),
    {
        let token = fresh_ulid();
        self.create_with_token(user, remember, now, token)
    }

    /// Looks the token up, through the cache first; a miss falls through
    /// to the durable store and fills the cache. An expired session is
    /// treated as absent and deleted from both tiers. A live sliding
    /// session has its expiry pushed thirty days past `now` in both
    /// tiers; a fixed expiry never moves, however often the session is
    /// accessed.
    pub fn validate(&mut self, token: u128, now: i64) -> (r: Option<UserRecordId>)
        requires
            old(self).wf(),
            now + SESSION_TTL_SECONDS <= i64::MAX,
        ensures
            final(self).wf(),
            !old(self).sessions().contains_key(token) ==> (r is None && final(self).sessions()
                == old(self).sessions()),
            old(self).sessions().contains_key(token) ==> ({
                let s = old(self).sessions()[token];
                &&& s.expiry.expires_at() <= now ==> (r is None && final(self).sessions() == old(
                    self,
                ).sessions().remove(token))
                &&& s.expiry.expires_at() > now ==> (r == Some(s.user) && final(self).sessions()
                    == old(self).sessions().insert(token, refreshed(s, now)))
            }),
    {
        proof {
            lemma_sessions_map_char(self.durable@);
        }
        let hit = match find_token(&self.cache, token) {
            Some(i) => {
                let c = self.cache[i];
                proof {
                    assert(self.durable@.contains(c));
                    let k = choose|k: int|
                        0 <= k < self.durable@.len() && self.durable@[k] == c;
                    assert(sessions_map(self.durable@)[c.token] == c);
                }
                Some(c)
            },
            None => {
                match find_token(&self.durable, token) {
                    Some(j) => {
                        let c = self.durable[j];
                        let ghost old_cache = self.cache@;
                        self.cache.push(c);
                        proof {
                            assert(sessions_map(self.durable@)[c.token] == c);
                            assert forall|x: int, y: int|
                                #![trigger self.cache@[x], self.cache@[y]]
                                0 <= x < y < self.cache@.len() implies self.cache@[x].token
                                != self.cache@[y].token by {
                                if y < old_cache.len() {
                                    assert(old_cache[x] == self.cache@[x]);
                                    assert(old_cache[y] == self.cache@[y]);
                                } else {
                                    assert(old_cache[x].token != token);
                                }
                            }
                            assert forall|i: int|
                                0 <= i < self.cache@.len() implies self.durable@.contains(
                                #[trigger] self.cache@[i],
                            ) by {
                                if i < old_cache.len() {
                                    assert(old_cache[i] == self.cache@[i]);
                                } else {
                                    assert(self.cache@[i] == self.durable@[j as int]);
                                }
                            }
                        }
                        Some(c)
                    },
                    None => None,
                }
            },
        };
        let s = match hit {
            Some(s) => s,
            None => {
                return None;
            },
        };
        let ghost state0 = *self;
        let deadline = s.expiry.deadline();
        if deadline <= now {
            remove_token(&mut self.cache, token);
            remove_token(&mut self.durable, token);
            proof {
                assert forall|i: int|
                    0 <= i < self.cache@.len() implies self.durable@.contains(
                    #[trigger] self.cache@[i],
                ) by {
                    assert(self.cache@.contains(self.cache@[i]));
                }
                assert(state0.sessions() == old(self).sessions());
            }
            None
        } else {
            let s2 = match s.expiry {
                SessionExpiry::Sliding(_) => Session {
                    token: s.token,
                    user: s.user,
                    expiry: SessionExpiry::Sliding(now + SESSION_TTL_SECONDS),
                },
                SessionExpiry::Fixed(_) => s,
            };
            let j = match find_token(&self.durable, token) {
                Some(j) => j,
                None => {
                    proof {
                        lemma_sessions_map_char(self.durable@);
                        assert(false);
                    }
                    return None;
                },
            };
            let ghost old_durable = self.durable@;
            self.durable[j] = s2;
            proof {
                lemma_sessions_map_update(old_durable, j as int, s2);
            }
            remove_token(&mut self.cache, token);
            let ghost mid_cache = self.cache@;
            self.cache.push(s2);
            proof {
                assert forall|x: int, y: int|
                    #![trigger self.cache@[x], self.cache@[y]]
                    0 <= x < y < self.cache@.len() implies self.cache@[x].token
                    != self.cache@[y].token by {
                    if y < mid_cache.len() {
                        assert(mid_cache[x] == self.cache@[x]);
                        assert(mid_cache[y] == self.cache@[y]);
                        assert(mid_cache.contains(mid_cache[x]));
                        assert(mid_cache.contains(mid_cache[y]));
                    } else {
                        assert(mid_cache[x] == self.cache@[x]);
                        assert(mid_cache.contains(mid_cache[x]));
                    }
                }
                assert forall|i: int|
                    0 <= i < self.cache@.len() implies self.durable@.contains(
                    #[trigger] self.cache@[i],
                ) by {
                    if i < mid_cache.len() {
                        let e = self.cache@[i];
                        assert(mid_cache.contains(e));
                        assert(state0.cache@.contains(e) && e.token != token);
                        let k = choose|k: int|
                            0 <= k < state0.cache@.len() && state0.cache@[k] == e;
                        assert(old_durable.contains(e));
                        let d = choose|d: int|
                            0 <= d < old_durable.len() && old_durable[d] == e;
                        assert(d != j);
                        assert(self.durable@[d] == e);
                    } else {
                        assert(self.cache@[i] == s2);
                        assert(self.durable@[j as int] == s2);
                    }
                }
            }
            Some(s.user)
        }
    }

    /// Deletes the session immediately, from both tiers: logout. A token
    /// that maps to nothing is already gone, and nothing changes.
    pub fn revoke(&mut self, token: u128)
        requires
            old(self).wf(),
        ensures
            final(self).wf(),
            final(self).sessions() == old(self).sessions().remove(token),
    {
        remove_token(&mut self.cache, token);
        remove_token(&mut self.durable, token);
        proof {
            assert forall|i: int|
                0 <= i < self.cache@.len() implies self.durable@.contains(
                #[trigger] self.cache@[i],
            ) by {
                assert(self.cache@.contains(self.cache@[i]));
            }
        }
    }

    /// Deletes every session past its expiry from the durable store, and
    /// from the cache with it, so that expired entries do not grow without
    /// bound and a durable deletion is reflected in the cache. Live
    /// sessions are untouched. Safe to run between ordinary reads and
    /// writes.
    pub fn sweep(&mut self, now: i64)
        requires
            old(self).wf(),
        ensures
            final(self).wf(),
            forall|t: u128|
                #[trigger] final(self).sessions().contains_key(t) <==> (old(
                    self,
                ).sessions().contains_key(t) && live_at(old(self).sessions()[t], now)),
            forall|t: u128|
                #[trigger] final(self).sessions().contains_key(t) ==> final(self).sessions()[t]
                    == old(self).sessions()[t],
    {
        let ghost pred = |e: Session| live_at(e, now);
        let ghost old_durable = self.durable@;
        let ghost old_cache = self.cache@;
        self.durable = retain_live(&self.durable, now);
        self.cache = retain_live(&self.cache, now);
        proof {
            lemma_filter_tokens_unique(old_durable, pred);
            lemma_filter_tokens_unique(old_cache, pred);
            lemma_sessions_map_char(old_durable);
            lemma_sessions_map_char(self.durable@);
            assert forall|i: int|
                0 <= i < self.cache@.len() implies self.durable@.contains(
                #[trigger] self.cache@[i],
            ) by {
                let e = self.cache@[i];
                old_cache.lemma_filter_pred(pred, i);
                assert(self.cache@.contains(e));
                old_cache.lemma_filter_contains_rev(pred, e);
                let k = choose|k: int| 0 <= k < old_cache.len() && old_cache[k] == e;
                assert(old_durable.contains(e));
                let d = choose|d: int| 0 <= d < old_durable.len() && old_durable[d] == e;
                old_durable.lemma_filter_contains(pred, d);
            }
            assert forall|t: u128| #[trigger]
                sessions_map(self.durable@).contains_key(t) implies (sessions_map(
                old_durable,
            ).contains_key(t) && live_at(sessions_map(old_durable)[t], now) && sessions_map(
                self.durable@,
            )[t] == sessions_map(old_durable)[t]) by {
                let i = choose|i: int|
                    0 <= i < self.durable@.len() && (#[trigger] self.durable@[i]).token == t;
                let e = self.durable@[i];
                old_durable.lemma_filter_pred(pred, i);
                assert(self.durable@.contains(e));
                old_durable.lemma_filter_contains_rev(pred, e);
                let k = choose|k: int| 0 <= k < old_durable.len() && old_durable[k] == e;
                assert(sessions_map(old_durable)[t] == e);
                assert(sessions_map(self.durable@)[t] == e);
            }
            assert forall|t: u128|
                sessions_map(old_durable).contains_key(t) && live_at(
                    sessions_map(old_durable)[t],
                    now,
                ) implies #[trigger] sessions_map(self.durable@).contains_key(t) by {
                let k = choose|k: int|
                    0 <= k < old_durable.len() && (#[trigger] old_durable[k]).token == t;
                assert(sessions_map(old_durable)[t] == old_durable[k]);
                old_durable.lemma_filter_contains(pred, k);
                let e = old_durable[k];
                assert(self.durable@.contains(e));
                let i = choose|i: int| 0 <= i < self.durable@.len() && self.durable@[i] == e;
            }
        }
    }
}

} // verus!
