//! What is decided for every request.
use vstd::prelude::*;
use crate::config::Config;
use crate::ids;
use crate::net;
use crate::net::Ip;
use crate::text;

verus! {

/// How a request from another origin is answered.
#[derive(Debug, Clone, Copy, PartialEq, Eq, Structural)]
pub enum Cors {
    /// it is a permitted inquiry: answered 204 with the permissions
    Preflight,
    /// it is served, and its origin is permitted to see the answer
    Allow,
    /// it is served without a permission
    Vary,
}

/// Whether an origin is permitted: the panel's own, one that is listed, any when
/// `*` is listed, or a private one where those are.
pub open spec fn origin_allowed(config: &Config, origin: Seq<char>, ip: Option<Ip>) -> bool {
    ||| origin == text::trim_end_of(config.remote@, '/')
    ||| text::texts(config.allowed_origins@).contains("*"@)
    ||| text::texts(config.allowed_origins@).contains(origin)
    ||| (config.allow_cors_private_network && net::private_origin(origin, ip))
}

/// Whether an origin is permitted. `ip` is the address that its host spells, if
/// it is one.
pub fn is_origin_allowed(config: &Config, origin: &str, ip: Option<Ip>) -> (r: bool)
    ensures
        r == origin_allowed(config, origin@, ip),
{
    let panel = config.panel_url();
    text::same(origin, panel.as_str()) || text::has_text(&config.allowed_origins, "*")
        || text::has_text(&config.allowed_origins, origin) || (config.allow_cors_private_network
        && net::is_private_origin(origin, ip))
}

/// Decides on a request by its origin, if it has one.
pub fn cors(config: &Config, origin: Option<&str>, ip: Option<Ip>, options: bool) -> (r: Cors)
    ensures
        r == (match origin {
            Some(o) => if origin_allowed(config, o@, ip) {
                if options {
                    Cors::Preflight
                } else {
                    Cors::Allow
                }
            } else {
                Cors::Vary
            },
            None => Cors::Vary,
        }),
{
    match origin {
        Some(o) => if is_origin_allowed(config, o, ip) {
            if options {
                Cors::Preflight
            } else {
                Cors::Allow
            }
        } else {
            Cors::Vary
        },
        None => Cors::Vary,
    }
}

/// The pieces of a path that are not empty.
pub open spec fn nonempty(v: Seq<Seq<char>>) -> Seq<Seq<char>>
    decreases v.len(),
{
    if v.len() == 0 {
        v
    } else if v.last().len() == 0 {
        nonempty(v.drop_last())
    } else {
        nonempty(v.drop_last()).push(v.last())
    }
}

/// Position of the first `t`; the length when there is none.
pub open spec fn index_of(v: Seq<Seq<char>>, t: Seq<char>) -> int
    decreases v.len(),
{
    if v.len() == 0 || v[0] == t {
        0
    } else {
        1 + index_of(v.skip(1), t)
    }
}

/// The server that a path is about: the identifier behind `servers`.
pub open spec fn server_of(path: Seq<char>) -> Option<u128> {
    let segs = nonempty(text::split_on(path, '/'));
    let at = index_of(segs, "servers"@);
    if at + 1 < segs.len() {
        ids::uuid_value(segs[at + 1])
    } else {
        None
    }
}

/// The server that a request is about; a path without one passes through.
pub fn server_in_path(path: &str) -> (r: Option<u128>)
    ensures
        r == server_of(path@),
{
    let pieces = text::split_str(path, '/');
    let ghost all = text::texts(pieces@);
    let mut segs: Vec<String> = Vec::new();
    let mut i: usize = 0;
    assert(text::texts(segs@) =~= Seq::empty());
    while i < pieces.len()
        invariant
            i <= pieces.len(),
            all == text::texts(pieces@),
            text::texts(segs@) == nonempty(all.take(i as int)),
        decreases pieces.len() - i,
    {
        let ghost before = text::texts(segs@);
        assert(all.take(i + 1).drop_last() =~= all.take(i as int));
        assert(all.take(i + 1).last() == pieces@[i as int]@);
        if !pieces[i].as_str().is_empty() {
            segs.push(pieces[i].clone());
            assert(text::texts(segs@) =~= before.push(pieces@[i as int]@));
        }
        i = i + 1;
    }
    assert(all.take(i as int) =~= all);
    let ghost v = text::texts(segs@);
    let mut j: usize = 0;
    assert(v.skip(0) =~= v);
    while j < segs.len() && !text::same(segs[j].as_str(), "servers")
        invariant
            j <= segs.len(),
            v == text::texts(segs@),
            index_of(v, "servers"@) == j + index_of(v.skip(j as int), "servers"@),
        decreases segs.len() - j,
    {
        assert(v.skip(j as int)[0] == v[j as int]);
        assert(v.skip(j as int).skip(1) =~= v.skip(j + 1));
        j = j + 1;
    }
    if j < segs.len() {
        assert(v.skip(j as int)[0] == v[j as int]);
        if j + 1 < segs.len() {
            assert(v[j + 1] == segs@[j + 1]@);
            return ids::parse_uuid(segs[j + 1].as_str());
        }
    }
    None
}

/// Counts events in windows of time. Times are milliseconds of a clock that
/// only moves forward.
#[derive(Debug, Clone)]
pub struct RateLimiter {
    window_start: u64,
    count: u32,
    limit: u32,
    window: u64,
}

/// What a limiter has counted.
pub struct RateView {
    /// when the window began
    pub start: u64,
    pub seen: u32,
    pub max: u32,
    pub length: u64,
}

/// A limiter after one more event: in the same window, or in a new one when
/// that has run out.
pub open spec fn counted(v: RateView, now: u64) -> RateView {
    if now - v.start > v.length {
        RateView { start: now, seen: 1, ..v }
    } else if v.seen == u32::MAX {
        v
    } else {
        RateView { seen: (v.seen + 1) as u32, ..v }
    }
}

/// How many of some events are allowed.
pub open spec fn allowed(v: RateView, times: Seq<u64>) -> nat
    decreases times.len(),
{
    if times.len() == 0 {
        0
    } else {
        let after = counted(v, times[0]);
        (if after.seen <= after.max {
            1nat
        } else {
            0nat
        }) + allowed(after, times.skip(1))
    }
}

impl View for RateLimiter {
    type V = RateView;

    closed spec fn view(&self) -> RateView {
        RateView {
            start: self.window_start,
            seen: self.count,
            max: self.limit,
            length: self.window,
        }
    }
}

impl RateLimiter {
    pub fn new(limit: u32, window: u64, now: u64) -> (r: Self)
        ensures
            r@ == (RateView { start: now, seen: 0, max: limit, length: window }),
    {
        RateLimiter { window_start: now, count: 0, limit, window }
    }

    /// Whether one more event is allowed; false when it is to be dropped. A
    /// window that has run out starts anew.
    pub fn allow(&mut self, now: u64) -> (r: bool)
        ensures
            final(self)@ == counted(old(self)@, now),
            r == (final(self)@.seen <= final(self)@.max),
    {
        if now > self.window_start && now - self.window_start > self.window {
            self.window_start = now;
            self.count = 0;
        }
        if self.count < u32::MAX {
            self.count = self.count + 1;
        }
        self.count <= self.limit
    }
}

/// Of the events of one window no more are allowed than the limit says.
pub proof fn law_a_window_is_limited(v: RateView, times: Seq<u64>)
    requires
        v.max < u32::MAX,
        forall|i: int| 0 <= i < times.len() ==> (#[trigger] times[i]) - v.start <= v.length,
    ensures
        allowed(v, times) + v.seen <= if v.seen <= v.max {
            v.max as int
        } else {
            v.seen as int
        },
    decreases times.len(),
{
    if times.len() > 0 {
        let after = counted(v, times[0]);
        assert forall|i: int| 0 <= i < times.skip(1).len() implies (#[trigger] times.skip(1)[i])
            - after.start <= after.length by {
            assert(times.skip(1)[i] == times[i + 1]);
        }
        law_a_window_is_limited(after, times.skip(1));
    }
}

/// Pages of the panel are permitted, listed ones, all where `*` is listed, and those of
/// private networks where that is configured; no others.
pub proof fn law_permitted_origins(config: &Config, origin: Seq<char>, ip: Option<Ip>, i: int)
    ensures
        origin_allowed(config, text::trim_end_of(config.remote@, '/'), ip),
        0 <= i < config.allowed_origins@.len() ==> origin_allowed(
            config,
            config.allowed_origins@[i]@,
            ip,
        ),
        0 <= i < config.allowed_origins@.len() && config.allowed_origins@[i]@ == "*"@
            ==> origin_allowed(config, origin, ip),
        config.allow_cors_private_network && net::private_origin(origin, ip) ==> origin_allowed(
            config,
            origin,
            ip,
        ),
        origin_allowed(config, origin, ip) ==> {
            ||| origin == text::trim_end_of(config.remote@, '/')
            ||| config.allow_cors_private_network && net::private_origin(origin, ip)
            ||| exists|j: int|
                0 <= j < config.allowed_origins@.len() && ((#[trigger] config.allowed_origins@[j])@
                    == origin || config.allowed_origins@[j]@ == "*"@)
        },
{
    let all = text::texts(config.allowed_origins@);
    if 0 <= i < all.len() {
        assert(all[i] == config.allowed_origins@[i]@);
    }
    if all.contains("*"@) {
        let j = choose|j: int| 0 <= j < all.len() && all[j] == "*"@;
        assert(config.allowed_origins@[j]@ == "*"@);
    }
    if all.contains(origin) {
        let j = choose|j: int| 0 <= j < all.len() && all[j] == origin;
        assert(config.allowed_origins@[j]@ == origin);
    }
}

proof fn lemma_nonempty_cat(a: Seq<Seq<char>>, b: Seq<Seq<char>>)
    ensures
        nonempty(a + b) == nonempty(a) + nonempty(b),
    decreases b.len(),
{
    if b.len() == 0 {
        assert(a + b =~= a);
        assert(nonempty(a) + nonempty(b) =~= nonempty(a));
    } else {
        lemma_nonempty_cat(a, b.drop_last());
        assert((a + b).drop_last() =~= a + b.drop_last());
        assert(nonempty(a + b) =~= nonempty(a) + nonempty(b));
    }
}

proof fn lemma_nonempty_one(s: Seq<char>)
    ensures
        s.len() > 0 ==> nonempty(seq![s]) == seq![s],
        s.len() == 0 ==> nonempty(seq![s]).len() == 0,
{
    assert(seq![s].drop_last() =~= Seq::empty());
    assert(nonempty(seq![s].drop_last()) =~= Seq::empty());
    if s.len() > 0 {
        assert(nonempty(seq![s]) =~= seq![s]);
    }
}

/// A path is about the server whose identifier stands behind `servers` in it.
pub proof fn law_paths_of_servers(first: Seq<char>, id: Seq<char>, rest: Seq<char>)
    requires
        forall|i: int| 0 <= i < first.len() ==> #[trigger] first[i] != '/',
        forall|i: int| 0 <= i < id.len() ==> #[trigger] id[i] != '/',
        first.len() > 0 && first != "servers"@,
        id.len() > 0,
    ensures
        server_of("/"@ + first + "/servers/"@ + id + "/"@ + rest) == ids::uuid_value(id),
        server_of("/"@ + first + "/servers/"@ + id) == ids::uuid_value(id),
        server_of(first) is None,
{
    reveal_strlit("/");
    reveal_strlit("/servers/");
    reveal_strlit("servers");
    let none = Seq::<char>::empty();
    let s = "servers"@;
    assert forall|i: int| 0 <= i < s.len() implies #[trigger] s[i] != '/' by {}
    text::law_split_on(none, '/', first);
    text::law_split_on(first, '/', first);
    text::law_split_on(s, '/', s);
    text::law_split_on(id, '/', id);
    lemma_nonempty_one(none);
    lemma_nonempty_one(first);
    lemma_nonempty_one(s);
    lemma_nonempty_one(id);
    // the pieces up to the identifier
    let p1 = none + seq!['/'] + first;
    let p2 = p1 + seq!['/'] + s;
    let p3 = p2 + seq!['/'] + id;
    text::law_split_cat(none, '/', first);
    text::law_split_cat(p1, '/', s);
    text::law_split_cat(p2, '/', id);
    let f = seq![none] + seq![first] + seq![s] + seq![id];
    assert(text::split_on(p3, '/') =~= f);
    lemma_nonempty_cat(seq![none] + seq![first] + seq![s], seq![id]);
    lemma_nonempty_cat(seq![none] + seq![first], seq![s]);
    lemma_nonempty_cat(seq![none], seq![first]);
    let front = seq![first, s, id];
    assert(nonempty(f) =~= front);
    assert("/"@ + first + "/servers/"@ + id =~= p3);
    lemma_found(front, first, s, id, Seq::empty());
    // and what follows
    let p4 = p3 + seq!['/'] + rest;
    text::law_split_cat(p3, '/', rest);
    let tail = nonempty(text::split_on(rest, '/'));
    lemma_nonempty_cat(f, text::split_on(rest, '/'));
    assert("/"@ + first + "/servers/"@ + id + "/"@ + rest =~= p4);
    lemma_found(front + tail, first, s, id, tail);
    assert(index_of(seq![first].skip(1), s) == 0);
    assert(index_of(seq![first], s) == 1);
}

proof fn lemma_found(
    segs: Seq<Seq<char>>,
    first: Seq<char>,
    s: Seq<char>,
    id: Seq<char>,
    tail: Seq<Seq<char>>,
)
    requires
        segs == seq![first, s, id] + tail,
        first != s,
    ensures
        index_of(segs, s) == 1,
        segs.len() > 2 && segs[2] == id,
{
    assert(segs[0] == first);
    assert(segs.skip(1)[0] == s);
    assert(index_of(segs.skip(1), s) == 0);
}

/// An event counts in the window in which it comes; once that has run out, it is the
/// first of a new one.
pub proof fn law_windows(v: RateView, now: u64)
    requires
        v.start <= now,
        v.seen < u32::MAX,
    ensures
        now - v.start <= v.length ==> counted(v, now).seen == v.seen + 1 && counted(v, now).start
            == v.start,
        now - v.start > v.length ==> counted(v, now).seen == 1 && counted(v, now).start == now,
        counted(v, now).max == v.max && counted(v, now).length == v.length,
        allowed(v, seq![now]) == (if counted(v, now).seen <= v.max {
            1nat
        } else {
            0nat
        }),
{
    assert(seq![now].skip(1) =~= Seq::<u64>::empty());
    assert(allowed(counted(v, now), seq![now].skip(1)) == 0);
}

} // verus!
