//! Tokens that were used or revoked.
use vstd::prelude::*;
use crate::table;
use crate::table::Table;
use crate::text;

verus! {

/// Single-use tokens that were used, and the times before which the tokens of
/// a session or a user were revoked. Times are given by the caller: seconds
/// since the epoch, and milliseconds of a clock that only moves forward.
pub struct TokenStore {
    /// used ids, with the millisecond they may be forgotten at
    used: Table<i64>,
    /// session ids behind `jti:`, with the time their tokens are revoked before
    denied_jti: Table<i64>,
    /// users, with the time their tokens are revoked before
    denied_user: Table<i64>,
    /// how long a token can live, in seconds
    ttl: u32,
}

/// The key of a session id.
pub open spec fn jti_key(jti: Seq<char>) -> Seq<char> {
    "jti:"@ + jti
}

/// The time before which a revocation no longer matters: tokens from before it
/// have run out.
pub open spec fn floor(now: int, ttl: int) -> int {
    let f = now - ttl;
    if f < i64::MIN {
        i64::MIN as int
    } else {
        f
    }
}

/// Ids that are still remembered as used.
pub open spec fn live(used: Map<Seq<char>, i64>, now_ms: int) -> Map<Seq<char>, i64> {
    table::at_least(used, now_ms + 1)
}

/// Whether an id can be used, and the used ids after that.
pub open spec fn claimed(used: Map<Seq<char>, i64>, uid: Seq<char>, now_ms: int, ttl: int) -> (
    bool,
    Map<Seq<char>, i64>,
) {
    let l = live(used, now_ms);
    if l.contains_key(uid) {
        (false, l)
    } else {
        (true, l.insert(uid, (now_ms + ttl * 1000) as i64))
    }
}

/// The revocations after one more.
pub open spec fn denied(
    m: Map<Seq<char>, i64>,
    key: Seq<char>,
    at: i64,
    now: int,
    ttl: int,
) -> Map<Seq<char>, i64> {
    table::at_least(m, floor(now, ttl)).insert(key, at)
}

/// Whether a token issued at `iat` is revoked.
pub open spec fn is_denied(m: Map<Seq<char>, i64>, key: Seq<char>, iat: i64) -> bool {
    m.contains_key(key) && iat < m[key]
}

impl TokenStore {
    pub closed spec fn used_ids(&self) -> Map<Seq<char>, i64> {
        self.used@
    }

    pub closed spec fn denied_sessions(&self) -> Map<Seq<char>, i64> {
        self.denied_jti@
    }

    pub closed spec fn denied_users(&self) -> Map<Seq<char>, i64> {
        self.denied_user@
    }

    pub closed spec fn lifetime(&self) -> int {
        self.ttl as int
    }

    /// An empty store for tokens that live up to `ttl` seconds.
    pub fn with_ttl(ttl: u32) -> (r: Self)
        ensures
            r.lifetime() == ttl,
            r.used_ids() == Map::<Seq<char>, i64>::empty(),
            r.denied_sessions() == Map::<Seq<char>, i64>::empty(),
            r.denied_users() == Map::<Seq<char>, i64>::empty(),
    {
        TokenStore { used: Table::new(), denied_jti: Table::new(), denied_user: Table::new(), ttl }
    }

    /// Marks an id as used; false when it was already.
    pub fn claim(&mut self, uid: &str, now_ms: i64) -> (r: bool)
        requires
            0 <= now_ms <= i64::MAX - u32::MAX * 1000,
        ensures
            (r, final(self).used_ids()) == claimed(
                old(self).used_ids(),
                uid@,
                now_ms as int,
                old(self).lifetime(),
            ),
            final(self).denied_sessions() == old(self).denied_sessions(),
            final(self).denied_users() == old(self).denied_users(),
            final(self).lifetime() == old(self).lifetime(),
    {
        self.used.retain_at_least(now_ms + 1);
        if self.used.contains_key(uid) {
            return false;
        }
        self.used.insert(uid, now_ms + self.ttl as i64 * 1000);
        true
    }

    /// Revokes the tokens of a session that were issued before `at`.
    pub fn deny_jti(&mut self, jti: &str, at: i64, now: i64)
        ensures
            final(self).denied_sessions() == denied(
                old(self).denied_sessions(),
                jti_key(jti@),
                at,
                now as int,
                old(self).lifetime(),
            ),
            final(self).used_ids() == old(self).used_ids(),
            final(self).denied_users() == old(self).denied_users(),
            final(self).lifetime() == old(self).lifetime(),
    {
        let key = text::cat("jti:", jti);
        self.denied_jti.retain_at_least(revocation_floor(now, self.ttl));
        self.denied_jti.insert(key.as_str(), at);
    }

    /// Revokes the tokens of a user that were issued before `at`.
    pub fn deny_user(&mut self, user: &str, at: i64, now: i64)
        ensures
            final(self).denied_users() == denied(
                old(self).denied_users(),
                user@,
                at,
                now as int,
                old(self).lifetime(),
            ),
            final(self).used_ids() == old(self).used_ids(),
            final(self).denied_sessions() == old(self).denied_sessions(),
            final(self).lifetime() == old(self).lifetime(),
    {
        self.denied_user.retain_at_least(revocation_floor(now, self.ttl));
        self.denied_user.insert(user, at);
    }

    /// Whether a session's token issued at `iat` is revoked.
    pub fn is_jti_denied(&self, jti: &str, iat: i64) -> (r: bool)
        ensures
            r == is_denied(self.denied_sessions(), jti_key(jti@), iat),
    {
        let key = text::cat("jti:", jti);
        match self.denied_jti.get(key.as_str()) {
            Some(at) => iat < *at,
            None => false,
        }
    }

    /// Whether a user's token issued at `iat` is revoked.
    pub fn is_user_denied(&self, user: &str, iat: i64) -> (r: bool)
        ensures
            r == is_denied(self.denied_users(), user@, iat),
    {
        match self.denied_user.get(user) {
            Some(at) => iat < *at,
            None => false,
        }
    }
}

/// The time before which a revocation no longer matters.
pub fn revocation_floor(now: i64, ttl: u32) -> (r: i64)
    ensures
        r == floor(now as int, ttl as int),
{
    if now < i64::MIN + ttl as i64 {
        i64::MIN
    } else {
        now - ttl as i64
    }
}

/// An id that was used is refused for as long as its token lives.
pub proof fn law_used_once(
    used: Map<Seq<char>, i64>,
    uid: Seq<char>,
    first_ms: int,
    later_ms: int,
    ttl: int,
)
    requires
        0 <= first_ms <= later_ms < first_ms + ttl * 1000 <= i64::MAX,
        claimed(used, uid, first_ms, ttl).0,
    ensures
        !claimed(claimed(used, uid, first_ms, ttl).1, uid, later_ms, ttl).0,
{
    let m = claimed(used, uid, first_ms, ttl).1;
    assert(m.contains_key(uid));
    assert(m[uid] == first_ms + ttl * 1000);
    assert(live(m, later_ms).contains_key(uid));
}

/// A revocation holds for every token issued before it, and spares those issued
/// later.
pub proof fn law_revocation_holds(
    m: Map<Seq<char>, i64>,
    key: Seq<char>,
    at: i64,
    now: int,
    ttl: int,
    iat: i64,
)
    ensures
        is_denied(denied(m, key, at, now, ttl), key, iat) == (iat < at),
{
}

/// Forgetting old revocations revives no token that can still be alive: one
/// that was revoked, and issued within its lifetime, stays revoked.
pub proof fn law_forgetting_revives_nothing(
    m: Map<Seq<char>, i64>,
    key: Seq<char>,
    other: Seq<char>,
    at: i64,
    now: int,
    ttl: int,
    iat: i64,
)
    requires
        other != key,
        is_denied(m, other, iat),
        iat >= floor(now, ttl),
    ensures
        is_denied(denied(m, key, at, now, ttl), other, iat),
{
}

/// An id that was used can be used again once its time is over, and another one at
/// any time.
pub proof fn law_ids_come_free(
    used: Map<Seq<char>, i64>,
    uid: Seq<char>,
    other: Seq<char>,
    first_ms: int,
    later_ms: int,
    ttl: int,
)
    requires
        0 <= first_ms && 0 <= ttl && first_ms + ttl * 1000 <= i64::MAX,
        first_ms + ttl * 1000 <= later_ms,
        !used.contains_key(other),
        other != uid,
    ensures
        claimed(used, uid, first_ms, ttl).0 ==> claimed(
            claimed(used, uid, first_ms, ttl).1,
            uid,
            later_ms,
            ttl,
        ).0,
        claimed(used, other, first_ms, ttl).0,
        claimed(claimed(used, uid, first_ms, ttl).1, other, first_ms, ttl).0,
{
}

/// A revocation is kept as long as a token that it concerns can be alive, that is for
/// `ttl` seconds, and forgotten with the next one after that.
pub proof fn law_revocations_are_kept(
    m: Map<Seq<char>, i64>,
    key: Seq<char>,
    other: Seq<char>,
    at: i64,
    now: int,
    ttl: int,
)
    requires
        other != key,
        m.contains_key(other),
    ensures
        m[other] >= now - ttl ==> denied(m, key, at, now, ttl).contains_key(other) && denied(
            m,
            key,
            at,
            now,
            ttl,
        )[other] == m[other],
        m[other] < now - ttl ==> !denied(m, key, at, now, ttl).contains_key(other),
        denied(m, key, at, now, ttl).contains_key(key) && denied(m, key, at, now, ttl)[key] == at,
{
}

/// A token is revoked by what was noted for its key alone, and only if it was issued
/// before that.
pub proof fn law_what_is_revoked(m: Map<Seq<char>, i64>, key: Seq<char>, iat: i64, jti: Seq<char>)
    ensures
        !m.contains_key(key) ==> !is_denied(m, key, iat),
        m.contains_key(key) ==> (is_denied(m, key, iat) <==> iat < m[key]),
        jti_key(jti) == "jti:"@ + jti,
{
}

} // verus!
