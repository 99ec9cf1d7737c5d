//! What clients say over a websocket, and what they are answered.
use vstd::prelude::*;
use crate::config::Config;
use crate::error::{AppError, AppResult};
use crate::ids;
use crate::json;
use crate::json::{Doc, Json};
use crate::jwt::claims;
use crate::jwt::claims::Claims;
use crate::jwt::store::TokenStore;
use crate::models::activity::{user_of, Activity};
use crate::router::middleware::{counted, RateLimiter, RateView};
use crate::server::events;
use crate::server::events::{Frame, ServerEvent};
use crate::server::server::{Server, ServerState};
use crate::text;

verus! {

/// How long a message of a client may be, in bytes.
pub const MESSAGE_LIMIT: usize = 32768;

/// A message to a client.
#[derive(Debug)]
pub struct WsMessage {
    pub event: String,
    pub args: Vec<String>,
}

/// A message of a client.
#[derive(Debug)]
pub struct InboundMessage {
    pub event: String,
    pub args: Vec<String>,
}

/// What is sent to a client.
#[derive(Debug)]
pub enum Reply {
    Message(WsMessage),
    Close { code: u16, reason: &'static str },
}

/// What a client asks for.
#[derive(Debug)]
pub enum WsAction {
    Start,
    Stop,
    Restart,
    Kill,
    Command(String),
}

/// A request of a client by its contents.
pub enum Asked {
    Start,
    Stop,
    Restart,
    Kill,
    Command(Seq<char>),
}

impl View for WsAction {
    type V = Asked;

    open spec fn view(&self) -> Asked {
        match self {
            WsAction::Start => Asked::Start,
            WsAction::Stop => Asked::Stop,
            WsAction::Restart => Asked::Restart,
            WsAction::Kill => Asked::Kill,
            WsAction::Command(c) => Asked::Command(c@),
        }
    }
}

pub open spec fn asked(a: Option<WsAction>) -> Option<Asked> {
    match a {
        Some(x) => Some(x@),
        None => None,
    }
}

/// What a client sees of a reply.
pub enum Seen {
    Message(Frame),
    Close(u16, Seq<char>),
}

impl View for WsMessage {
    type V = Frame;

    open spec fn view(&self) -> Frame {
        (self.event@, text::texts(self.args@))
    }
}

impl View for Reply {
    type V = Seen;

    open spec fn view(&self) -> Seen {
        match self {
            Reply::Message(m) => Seen::Message(m@),
            Reply::Close { code, reason } => Seen::Close(*code, reason@),
        }
    }
}

pub open spec fn seen(v: Seq<Reply>) -> Seq<Seen> {
    v.map_values(|r: Reply| r@)
}

pub open spec fn seen_frames(v: Seq<Frame>) -> Seq<Seen> {
    v.map_values(|f: Frame| Seen::Message(f))
}

/// An error with a token, as a client sees it.
pub open spec fn jwt_error(message: Seq<char>) -> Seen {
    Seen::Message(("jwt error"@, seq![message]))
}

/// Some texts as JSON literals.
pub open spec fn quoted_all(v: Seq<Seq<char>>) -> Seq<Seq<char>> {
    v.map_values(|s: Seq<char>| json::quoted(s))
}

/// A message as it is sent: the arguments are left out when there are none.
pub open spec fn envelope(f: Frame) -> Seq<char> {
    if f.1.len() == 0 {
        "{\"event\":"@ + json::quoted(f.0) + "}"@
    } else {
        "{\"event\":"@ + json::quoted(f.0) + ",\"args\":["@ + text::join(quoted_all(f.1), ","@)
            + "]}"@
    }
}

fn message(event: &str, arg: Option<String>) -> (r: WsMessage)
    ensures
        r@.0 == event@,
        r@.1 == (match arg {
            Some(a) => seq![a@],
            None => Seq::empty(),
        }),
{
    let mut args: Vec<String> = Vec::new();
    if let Some(a) = arg {
        let ghost shown = a@;
        args.push(a);
        assert(text::texts(args@) =~= seq![shown]);
    } else {
        assert(text::texts(args@) =~= Seq::empty());
    }
    WsMessage { event: event.to_owned(), args }
}

impl WsMessage {
    /// The message as it is sent.
    pub fn to_json(&self) -> (r: String)
        ensures
            r@ == envelope(self@),
    {
        let mut s = text::cat("{\"event\":", json::quote(self.event.as_str()).as_str());
        if self.args.len() == 0 {
            s.append("}");
            return s;
        }
        let mut parts: Vec<String> = Vec::new();
        let mut i: usize = 0;
        let ghost all = text::texts(self.args@);
        while i < self.args.len()
            invariant
                i <= self.args.len(),
                all == text::texts(self.args@),
                text::texts(parts@) =~= quoted_all(all).take(i as int),
            decreases self.args.len() - i,
        {
            let ghost before = parts@;
            let q = json::quote(self.args[i].as_str());
            let ghost shown = q@;
            parts.push(q);
            assert(text::texts(parts@) =~= text::texts(before).push(shown));
            i = i + 1;
        }
        assert(text::texts(parts@) =~= quoted_all(all));
        s.append(",\"args\":[");
        s.append(text::joined(parts.as_slice(), ",").as_str());
        s.append("]}");
        s
    }
}

// ---------------------------------------------------------------------------
// Origins
// ---------------------------------------------------------------------------
/// Whether a page may open a websocket.
pub open spec fn ws_origin(config: &Config, origin: Seq<char>) -> bool {
    ||| origin == text::trim_end_of(config.remote@, '/')
    ||| exists|i: int|
        0 <= i < config.allowed_origins@.len() && ((#[trigger] config.allowed_origins@[i])@ == "*"@
            || config.allowed_origins@[i]@ == origin)
    ||| config.allow_cors_private_network && "http://"@.is_prefix_of(origin)
}

/// Refuses a websocket that is opened by a page of neither the panel nor an
/// allowed origin, and one too many.
pub fn ws_route(config: &Config, origin: Option<&str>) -> (r: AppResult<()>)
    ensures
        match r {
            Ok(_) => origin matches Some(o) ==> ws_origin(config, o@),
            Err(e) => origin matches Some(o) && !ws_origin(config, o@)
                && crate::error::is_forbidden(e, "origin is not allowed"@),
        },
{
    let o = match origin {
        Some(o) => o,
        None => {
            return Ok(());
        },
    };
    let panel = config.panel_url();
    if text::same(o, panel.as_str()) {
        return Ok(());
    }
    let mut i: usize = 0;
    while i < config.allowed_origins.len()
        invariant
            i <= config.allowed_origins.len(),
            origin == Some(o),
            forall|j: int|
                0 <= j < i ==> (#[trigger] config.allowed_origins@[j])@ != "*"@
                    && config.allowed_origins@[j]@ != o@,
        decreases config.allowed_origins.len() - i,
    {
        let a = config.allowed_origins[i].as_str();
        if text::same(a, "*") || text::same(a, o) {
            assert(config.allowed_origins@[i as int]@ == a@);
            return Ok(());
        }
        i = i + 1;
    }
    if config.allow_cors_private_network && text::starts_with(o, "http://") {
        return Ok(());
    }
    Err(AppError::Forbidden("origin is not allowed".to_owned()))
}

/// The refusal of one websocket too many.
pub fn too_many() -> (r: AppError)
    ensures
        crate::error::is_bad_request(r, "Too many open websocket connections."@),
{
    AppError::BadRequest("Too many open websocket connections.".to_owned())
}

// ---------------------------------------------------------------------------
// Sessions
// ---------------------------------------------------------------------------
/// One client.
#[derive(Debug)]
pub struct Session {
    /// the token that the client showed last, and what it says
    authed: Option<(String, Claims)>,
    first_auth_done: bool,
    throttled_sent: bool,
    expired_sent: bool,
    rate: RateLimiter,
}

/// What comes before a message is looked at.
#[derive(Debug)]
pub enum Gate {
    Pass,
    Drop,
    /// drop it, and say so
    Tell(WsMessage),
}

/// What a session knows.
pub struct SessionView {
    pub token: Option<Seq<char>>,
    pub claims: Option<Claims>,
    pub subscribed: bool,
    pub throttled: bool,
    pub told_expired: bool,
}

impl Session {
    pub closed spec fn state(&self) -> SessionView {
        SessionView {
            token: match self.authed {
                Some(a) => Some(a.0@),
                None => None,
            },
            claims: match self.authed {
                Some(a) => Some(a.1),
                None => None,
            },
            subscribed: self.first_auth_done,
            throttled: self.throttled_sent,
            told_expired: self.expired_sent,
        }
    }

    pub closed spec fn limiter(&self) -> RateView {
        self.rate@
    }

    /// A client that has not said anything.
    pub fn new(now: u64) -> (r: Self)
        ensures
            r.state() == (SessionView {
                token: None,
                claims: None,
                subscribed: false,
                throttled: false,
                told_expired: false,
            }),
            r.limiter() == (RateView { start: now, seen: 0, max: 10, length: 200 }),
    {
        Session {
            authed: None,
            first_auth_done: false,
            throttled_sent: false,
            expired_sent: false,
            rate: RateLimiter::new(10, 200, now),
        }
    }

    /// Whether the client gets the events of the server.
    pub fn is_subscribed(&self) -> (r: bool)
        ensures
            r == self.state().subscribed,
    {
        self.first_auth_done
    }

    /// What a client is told of its token from time to time: once that it has
    /// expired, and before that, that it will within a minute.
    pub fn tick(&mut self, now: i64) -> (r: Option<WsMessage>)
        ensures
            final(self).limiter() == old(self).limiter(),
            match old(self).state().claims {
                None => r is None && final(self).state() == old(self).state(),
                Some(c) => if c.exp <= now {
                    &&& final(self).state() == (SessionView {
                        told_expired: true,
                        ..old(self).state()
                    })
                    &&& if old(self).state().told_expired {
                        r is None
                    } else {
                        r matches Some(m) && m@ == ("token expired"@, Seq::<Seq<char>>::empty())
                    }
                } else {
                    &&& final(self).state() == old(self).state()
                    &&& if c.exp - now <= 60 {
                        r matches Some(m) && m@ == ("token expiring"@, Seq::<Seq<char>>::empty())
                    } else {
                        r is None
                    }
                },
            },
    {
        let exp: i64 = match &self.authed {
            Some(a) => a.1.exp,
            None => {
                return None;
            },
        };
        if exp <= now {
            if self.expired_sent {
                return None;
            }
            self.expired_sent = true;
            return Some(message("token expired", None));
        }
        if exp as i128 - now as i128 <= 60 {
            return Some(message("token expiring", None));
        }
        None
    }

    /// Whether the client may get an event.
    pub open spec fn may_see(&self, event: &ServerEvent) -> bool {
        event.permission() matches Some(p) ==> (self.state().claims matches Some(c) && c.permits(p))
    }

    /// What the client gets of an event of the server.
    pub fn event(&self, event: &ServerEvent) -> (r: Option<WsMessage>)
        ensures
            match r {
                Some(m) => self.may_see(event) && m@ == event.frame(),
                None => !self.may_see(event),
            },
    {
        if let Some(p) = event.required_permission() {
            let allowed = match &self.authed {
                Some(a) => a.1.has_permission(p),
                None => false,
            };
            if !allowed {
                return None;
            }
        }
        Some(WsMessage { event: event.event_name().to_owned(), args: event.args() })
    }

    /// Whether a message that could be read is looked at: not when the client
    /// says too much. It is told so once, until a message passes again.
    pub fn gate(&mut self, now: u64) -> (r: Gate)
        ensures
            final(self).limiter() == counted(old(self).limiter(), now),
            final(self).state() == (SessionView {
                throttled: !(r is Pass),
                ..old(self).state()
            }),
            r is Pass == (final(self).limiter().seen <= final(self).limiter().max),
            !(r is Pass) && old(self).state().throttled ==> r is Drop,
            !(r is Pass) && !old(self).state().throttled ==> (r matches Gate::Tell(m) && m@ == (
                "throttled"@,
                seq!["global"@],
            )),
    {
        if self.rate.allow(now) {
            self.throttled_sent = false;
            return Gate::Pass;
        }
        if self.throttled_sent {
            return Gate::Drop;
        }
        self.throttled_sent = true;
        Gate::Tell(message("throttled", Some("global".to_owned())))
    }
}

// ---------------------------------------------------------------------------
// Messages of clients
// ---------------------------------------------------------------------------
/// What follows a message of a client.
#[derive(Debug)]
pub struct Outcome {
    pub replies: Vec<Reply>,
    /// the client gets the events of the server from now on
    pub subscribe: bool,
    pub action: Option<WsAction>,
    /// who asked for the action
    pub user: Option<String>,
}

/// Why a token is not one for the console of a server.
pub open spec fn auth_refusal(c: Claims, server: u128) -> Option<Seq<char>> {
    if claims::opt(c.scope) != Some("websocket"@) {
        Some("jwt: invalid scope"@)
    } else if !c.permits("websocket.connect"@) {
        Some("jwt: missing connect permission"@)
    } else if !(c.server_uuid matches Some(s) && ids::uuid_value(s@) == Some(server)) {
        Some("jwt: server uuid mismatch"@)
    } else {
        None
    }
}

/// What a client is greeted with.
pub open spec fn greeting(first: bool, server: &Server) -> Seq<Frame> {
    let hello: Seq<Frame> = seq![("auth success"@, Seq::<Seq<char>>::empty())];
    if first {
        let more = hello.push(events::status_frame(server.state.text()));
        if server.state == ServerState::Offline {
            more.push(("stats"@, seq![server.usage.json()]))
        } else {
            more
        }
    } else {
        hello
    }
}

fn one(reply: Reply) -> (r: Vec<Reply>)
    ensures
        seen(r@) == seq![reply@],
{
    let mut v: Vec<Reply> = Vec::new();
    let ghost shown = reply@;
    v.push(reply);
    assert(seen(v@) =~= seq![shown]);
    v
}

fn refused(text: String) -> (r: Outcome)
    ensures
        seen(r.replies@) == seq![jwt_error(text@)],
        !r.subscribe && r.action is None,
{
    Outcome {
        replies: one(Reply::Message(message("jwt error", Some(text)))),
        subscribe: false,
        action: None,
        user: None,
    }
}

/// What follows when a client shows a token, by what became of the token.
pub open spec fn greeted(
    before: SessionView,
    after: SessionView,
    token: Seq<char>,
    parsed: AppResult<Claims>,
    server: &Server,
    uuid: u128,
    r: Outcome,
) -> bool {
    &&& r.action is None
    &&& match parsed {
        Err(e) => {
            &&& after == before
            &&& seen(r.replies@) == seq![jwt_error(e.text())]
            &&& !r.subscribe
        },
        Ok(c) => match auth_refusal(c, uuid) {
            Some(m) => {
                &&& after == before
                &&& seen(r.replies@) == seq![jwt_error(m)]
                &&& !r.subscribe
            },
            None => if server.suspended {
                &&& after == before
                &&& seen(r.replies@) == seq![Seen::Close(4409, "server is suspended"@)]
                &&& !r.subscribe
            } else {
                &&& after == (SessionView {
                    token: Some(token),
                    claims: Some(c),
                    subscribed: true,
                    ..before
                })
                &&& seen(r.replies@) == seen_frames(greeting(!before.subscribed, server))
                &&& r.subscribe == !before.subscribed
            },
        },
    }
}

impl Session {
    /// What follows when a client shows a token, by what became of the token.
    pub fn authenticate(
        &mut self,
        token: String,
        parsed: AppResult<Claims>,
        server: &Server,
        uuid: u128,
    ) -> (r: Outcome)
        ensures
            final(self).limiter() == old(self).limiter(),
            greeted(old(self).state(), final(self).state(), token@, parsed, server, uuid, r),
    {
        let claims = match parsed {
            Ok(c) => c,
            Err(e) => {
                return refused(e.message());
            },
        };
        if !claims.has_scope("websocket") {
            return refused("jwt: invalid scope".to_owned());
        }
        if !claims.has_permission("websocket.connect") {
            return refused("jwt: missing connect permission".to_owned());
        }
        let bound = match claims.server_uuid() {
            Some(s) => match ids::parse_uuid(s) {
                Some(u) => u == uuid,
                None => false,
            },
            None => false,
        };
        if !bound {
            return refused("jwt: server uuid mismatch".to_owned());
        }
        if server.suspended {
            return Outcome {
                replies: one(Reply::Close { code: 4409, reason: "server is suspended" }),
                subscribe: false,
                action: None,
                user: None,
            };
        }
        self.authed = Some((token, claims));
        let hello = message("auth success", None);
        assert(hello@ == ("auth success"@, Seq::<Seq<char>>::empty()));
        let mut replies = one(Reply::Message(hello));
        assert(replies@.len() == 1) by {
            assert(seen(replies@).len() == 1);
        }
        assert(seen(replies@)[0] == replies@[0]@);
        let first = !self.first_auth_done;
        if first {
            self.first_auth_done = true;
            let status = message("status", Some(server.state.as_str().to_owned()));
            assert(status@ == events::status_frame(server.state.text()));
            replies.push(Reply::Message(status));
            if server.state == ServerState::Offline {
                let stats = message("stats", Some(server.usage.to_json()));
                assert(stats@ == ("stats"@, seq![server.usage.json()]));
                replies.push(Reply::Message(stats));
            }
        }
        assert(seen(replies@) =~= seen_frames(greeting(first, server)));
        Outcome { replies, subscribe: first, action: None, user: None }
    }
}

/// What a message of a client asks for, by what its token permits.
pub open spec fn requested(c: Claims, event: Seq<char>, args: Seq<Seq<char>>) -> Option<Asked> {
    let what = if args.len() > 0 {
        args[0]
    } else {
        ""@
    };
    if event == "set state"@ {
        if what == "start"@ && c.permits("control.start"@) {
            Some(Asked::Start)
        } else if what == "stop"@ && c.permits("control.stop"@) {
            Some(Asked::Stop)
        } else if what == "restart"@ && c.permits("control.restart"@) {
            Some(Asked::Restart)
        } else if what == "kill"@ && c.permits("control.stop"@) {
            Some(Asked::Kill)
        } else {
            None
        }
    } else if event == "send command"@ && c.permits("control.console"@) && text::join(
        args,
        ""@,
    ).len() > 0 {
        Some(Asked::Command(text::join(args, ""@)))
    } else {
        None
    }
}

/// What a client is answered right away.
pub open spec fn answered(event: Seq<char>, server: &Server) -> Seq<Frame> {
    if event == "send logs"@ {
        server.console@.lines.map_values(|l: Seq<char>| events::console_frame(l))
    } else if event == "send stats"@ {
        seq![("stats"@, seq![server.usage.json()])]
    } else {
        Seq::empty()
    }
}

/// The lines of the console as replies.
fn log_replies(server: &Server) -> (r: Vec<Reply>)
    ensures
        seen(r@) == seen_frames(
            server.console@.lines.map_values(|l: Seq<char>| events::console_frame(l)),
        ),
{
    let lines = server.recent_logs();
    let ghost all = text::texts(lines@);
    let ghost shown = |l: Seq<char>| events::console_frame(l);
    let mut out: Vec<Reply> = Vec::new();
    let mut i: usize = 0;
    while i < lines.len()
        invariant
            i <= lines.len(),
            all == text::texts(lines@),
            shown == (|l: Seq<char>| events::console_frame(l)),
            seen(out@) =~= seen_frames(all.map_values(shown)).take(i as int),
        decreases lines.len() - i,
    {
        let ghost before = out@;
        let m = message("console output", Some(lines[i].clone()));
        let ghost f = m@;
        out.push(Reply::Message(m));
        proof {
            assert(f == events::console_frame(all[i as int]));
            assert(seen(out@) =~= seen(before).push(Seen::Message(f)));
        }
        i = i + 1;
    }
    assert(seen(out@) =~= seen_frames(all.map_values(shown)));
    out
}

/// What follows a message of a client whose token was accepted again.
pub open spec fn followed(c: Claims, inbound: InboundMessage, server: &Server, r: Outcome) -> bool {
    &&& !r.subscribe
    &&& asked(r.action) == requested(c, inbound.event@, text::texts(inbound.args@))
    &&& user_of(r.user) == user_of(c.user_uuid)
    &&& seen(r.replies@) == seen_frames(answered(inbound.event@, server))
}

/// What follows a message of a client whose token was accepted again.
pub fn dispatch(claims: &Claims, inbound: &InboundMessage, server: &Server) -> (r: Outcome)
    ensures
        followed(*claims, *inbound, server, r),
{
    let event = inbound.event.as_str();
    let mut replies: Vec<Reply> = Vec::new();
    let mut action: Option<WsAction> = None;
    proof {
        reveal_strlit("set state");
        reveal_strlit("send command");
        reveal_strlit("send logs");
        reveal_strlit("send stats");
        assert("set state"@.len() == 9 && "send command"@.len() == 12 && "send logs"@.len() == 9
            && "send stats"@.len() == 10);
        assert("set state"@[2] == 't' && "send logs"@[2] == 'n');
        assert(seen(replies@) =~= seen_frames(Seq::<Frame>::empty()));
    }
    if text::same(event, "set state") {
        let what = if inbound.args.len() > 0 {
            assert(text::texts(inbound.args@)[0] == inbound.args@[0]@);
            inbound.args[0].as_str()
        } else {
            ""
        };
        proof {
            reveal_strlit("start");
            reveal_strlit("stop");
            reveal_strlit("restart");
            reveal_strlit("kill");
            assert("start"@.len() == 5 && "stop"@.len() == 4 && "restart"@.len() == 7
                && "kill"@.len() == 4);
            assert("stop"@[0] == 's' && "kill"@[0] == 'k');
        }
        if text::same(what, "start") {
            if claims.has_permission("control.start") {
                action = Some(WsAction::Start);
            }
        } else if text::same(what, "stop") {
            if claims.has_permission("control.stop") {
                action = Some(WsAction::Stop);
            }
        } else if text::same(what, "restart") {
            if claims.has_permission("control.restart") {
                action = Some(WsAction::Restart);
            }
        } else if text::same(what, "kill") {
            if claims.has_permission("control.stop") {
                action = Some(WsAction::Kill);
            }
        }
    } else if text::same(event, "send command") {
        if claims.has_permission("control.console") {
            let command = text::joined(inbound.args.as_slice(), "");
            if !command.as_str().is_empty() {
                action = Some(WsAction::Command(command));
            }
        }
    } else if text::same(event, "send logs") {
        replies = log_replies(server);
    } else if text::same(event, "send stats") {
        replies = one(Reply::Message(message("stats", Some(server.usage.to_json()))));
        assert(seen(replies@) =~= seen_frames(answered(event@, server)));
    }
    let user = match &claims.user_uuid {
        Some(u) => Some(u.clone()),
        None => None,
    };
    Outcome { replies, subscribe: false, action, user }
}

/// The token that a message stands under: the one it shows, or the one that
/// the session was opened with.
pub open spec fn shown(s: SessionView, inbound: InboundMessage) -> Option<Seq<char>> {
    if inbound.event@ == "auth"@ {
        let token = text::join(text::texts(inbound.args@), ""@);
        if token.len() > 0 {
            Some(token)
        } else {
            None
        }
    } else {
        s.token
    }
}

/// What follows a message of a client, by what became of its token.
pub open spec fn handled(
    before: SessionView,
    after: SessionView,
    token: Seq<char>,
    parsed: AppResult<Claims>,
    inbound: InboundMessage,
    server: &Server,
    uuid: u128,
    r: Outcome,
) -> bool {
    if inbound.event@ == "auth"@ {
        greeted(before, after, token, parsed, server, uuid, r)
    } else {
        after == before && (match parsed {
            Ok(c) => followed(c, inbound, server, r),
            Err(e) => r.action is None && !r.subscribe && seen(r.replies@) == seq![
                jwt_error(e.text()),
            ],
        })
    }
}

impl Session {
    /// What follows a message of a client. The token is validated anew for every
    /// message: what it says, and whether it was revoked meanwhile, is decided by
    /// `parse_token`.
    pub fn handle_inbound(
        &mut self,
        inbound: &InboundMessage,
        server: &Server,
        uuid: u128,
        secret: &[u8],
        tokens: &mut TokenStore,
        boot_time: i64,
        now_ms: i64,
    ) -> (r: Outcome)
        requires
            0 <= now_ms <= i64::MAX - u32::MAX * 1000,
        ensures
            final(self).limiter() == old(self).limiter(),
            final(tokens).denied_sessions() == old(tokens).denied_sessions(),
            final(tokens).denied_users() == old(tokens).denied_users(),
            final(tokens).lifetime() == old(tokens).lifetime(),
            shown(old(self).state(), *inbound) is None ==> {
                &&& seen(r.replies@) == seq![jwt_error("jwt: no jwt present"@)]
                &&& r.action is None
                &&& !r.subscribe
                &&& final(self).state() == old(self).state()
                &&& *final(tokens) == *old(tokens)
            },
            shown(old(self).state(), *inbound) is Some ==> exists|parsed: AppResult<Claims>|
                claims::judged(
                    shown(old(self).state(), *inbound)->0,
                    secret@,
                    *old(tokens),
                    *final(tokens),
                    boot_time,
                    now_ms,
                    parsed,
                ) && #[trigger] handled(
                    old(self).state(),
                    final(self).state(),
                    shown(old(self).state(), *inbound)->0,
                    parsed,
                    *inbound,
                    server,
                    uuid,
                    r,
                ),
    {
        if text::same(inbound.event.as_str(), "auth") {
            let token = text::joined(inbound.args.as_slice(), "");
            if token.as_str().is_empty() {
                return refused("jwt: no jwt present".to_owned());
            }
            let parsed = claims::parse_token(token.as_str(), secret, tokens, boot_time, now_ms);
            let ghost (t, p) = (token@, parsed);
            let r = self.authenticate(token, parsed, server, uuid);
            proof {
                let shown = shown(old(self).state(), *inbound);
                assert(shown == Some(t));
                assert(claims::judged(
                    shown->0,
                    secret@,
                    *old(tokens),
                    *final(tokens),
                    boot_time,
                    now_ms,
                    p,
                ));
                let (before, after) = (old(self).state(), final(self).state());
                assert(handled(before, after, shown->0, p, *inbound, server, uuid, r));
            }
            return r;
        }
        let token = match &self.authed {
            Some(a) => a.0.clone(),
            None => {
                return refused("jwt: no jwt present".to_owned());
            },
        };
        let parsed = claims::parse_token(token.as_str(), secret, tokens, boot_time, now_ms);
        let ghost (t, p) = (token@, parsed);
        let r = match parsed {
            Ok(c) => dispatch(&c, inbound, server),
            Err(e) => refused(e.message()),
        };
        proof {
            let shown = shown(old(self).state(), *inbound);
            assert(shown == Some(t));
            assert(claims::judged(
                shown->0,
                secret@,
                *old(tokens),
                *final(tokens),
                boot_time,
                now_ms,
                p,
            ));
            let (before, after) = (old(self).state(), final(self).state());
            assert(handled(before, after, shown->0, p, *inbound, server, uuid, r));
        }
        r
    }
}

impl WsAction {
    /// What is noted of a request.
    pub open spec fn event_text(&self) -> Seq<char> {
        match self {
            WsAction::Start => "server:power.start"@,
            WsAction::Stop => "server:power.stop"@,
            WsAction::Restart => "server:power.restart"@,
            WsAction::Kill => "server:power.kill"@,
            WsAction::Command(_) => "server:console.command"@,
        }
    }

    /// The note of what a client asked for.
    pub fn activity(&self, server: &str, user: Option<String>, timestamp: String) -> (r: Activity)
        ensures
            user_of(r.user) == user_of(user),
            r.server@ == server@,
            r.event@ == self.event_text(),
            r.ip@ == ""@,
            r.timestamp@ == timestamp@,
            match self {
                WsAction::Command(c) => json::doc(r.metadata) == Doc::Object(
                    seq![("command"@, Doc::Str(c@))],
                ),
                _ => r.metadata is Null,
            },
    {
        let event = match self {
            WsAction::Start => "server:power.start",
            WsAction::Stop => "server:power.stop",
            WsAction::Restart => "server:power.restart",
            WsAction::Kill => "server:power.kill",
            WsAction::Command(_) => "server:console.command",
        };
        let a = Activity::new(server, event, timestamp).with_user(user);
        match self {
            WsAction::Command(c) => {
                let mut m: Vec<(String, Json)> = Vec::new();
                m.push(("command".to_owned(), Json::Str(c.clone())));
                proof {
                    json::lemma_doc_object(m);
                    assert(json::members(m@) =~= seq![("command"@, Doc::Str(c@))]);
                }
                a.with_metadata(Json::Object(m))
            },
            _ => a,
        }
    }
}

/// A client gets its server started, stopped or sent a command only when its
/// token permits exactly that.
pub proof fn law_actions_need_permission(c: Claims, event: Seq<char>, args: Seq<Seq<char>>)
    ensures
        requested(c, event, args) matches Some(a) ==> c.permits(
            match a {
                Asked::Start => "control.start"@,
                Asked::Stop => "control.stop"@,
                Asked::Restart => "control.restart"@,
                Asked::Kill => "control.stop"@,
                Asked::Command(_) => "control.console"@,
            },
        ),
{
}

/// What a message asks for is done exactly if the permission for it is held.
pub proof fn law_permitted_actions_are_done(c: Claims, args: Seq<Seq<char>>)
    ensures
        requested(c, "set state"@, seq!["start"@]) == (if c.permits("control.start"@) {
            Some(Asked::Start)
        } else {
            None
        }),
        requested(c, "set state"@, seq!["stop"@]) == (if c.permits("control.stop"@) {
            Some(Asked::Stop)
        } else {
            None
        }),
        requested(c, "set state"@, seq!["restart"@]) == (if c.permits("control.restart"@) {
            Some(Asked::Restart)
        } else {
            None
        }),
        requested(c, "set state"@, seq!["kill"@]) == (if c.permits("control.stop"@) {
            Some(Asked::Kill)
        } else {
            None
        }),
        text::join(args, ""@).len() > 0 ==> requested(c, "send command"@, args) == (if c.permits(
            "control.console"@,
        ) {
            Some(Asked::Command(text::join(args, ""@)))
        } else {
            None
        }),
        requested(c, "send logs"@, args) is None,
        requested(c, "send stats"@, args) is None,
{
    reveal_strlit("set state");
    reveal_strlit("send command");
    reveal_strlit("send logs");
    reveal_strlit("send stats");
    reveal_strlit("start");
    reveal_strlit("stop");
    reveal_strlit("restart");
    reveal_strlit("kill");
    assert("send command"@.len() == 12 && "set state"@.len() == 9 && "send logs"@.len() == 9
        && "send stats"@.len() == 10);
    assert("send logs"@[2] != "set state"@[2]);
    assert("start"@.len() == 5 && "stop"@.len() == 4 && "restart"@.len() == 7 && "kill"@.len()
        == 4);
    assert("stop"@[0] != "kill"@[0]);
}

/// A token opens the console of a server exactly if its scope is the websocket, it
/// permits to connect, and it names the server.
pub proof fn law_who_may_connect(c: Claims, server: u128)
    ensures
        auth_refusal(c, server) is None <==> (c.scope matches Some(s) && s@ == "websocket"@)
            && c.permits("websocket.connect"@) && (c.server_uuid matches Some(u)
            && ids::uuid_value(u@) == Some(server)),
        auth_refusal(c, server) matches Some(m) ==> m == "jwt: invalid scope"@ || m
            == "jwt: missing connect permission"@ || m == "jwt: server uuid mismatch"@,
{
}

/// A client is greeted the first time with the state of the server as well, and with
/// its usage where that does not come by itself.
pub proof fn law_greetings(server: &Server)
    ensures
        greeting(false, server) == seq![("auth success"@, Seq::<Seq<char>>::empty())],
        greeting(true, server).len() == (if server.state == ServerState::Offline {
            3nat
        } else {
            2nat
        }),
        greeting(true, server)[0] == ("auth success"@, Seq::<Seq<char>>::empty()),
        greeting(true, server)[1] == ("status"@, seq![server.state.text()]),
        server.state == ServerState::Offline ==> greeting(true, server)[2] == (
            "stats"@,
            seq![server.usage.json()],
        ),
{
}

/// A good token opens the session, once; one for another server, or for a suspended
/// one, does not, and changes nothing.
pub proof fn law_sessions_are_opened(
    before: SessionView,
    after: SessionView,
    token: Seq<char>,
    parsed: AppResult<Claims>,
    server: &Server,
    uuid: u128,
    r: Outcome,
)
    requires
        greeted(before, after, token, parsed, server, uuid, r),
    ensures
        r.action is None,
        match parsed {
            Err(e) => after == before && !r.subscribe && r.replies@.len() == 1,
            Ok(c) => {
                &&& auth_refusal(c, uuid) is Some || server.suspended ==> after == before
                    && !r.subscribe && r.replies@.len() == 1
                &&& auth_refusal(c, uuid) is None && server.suspended ==> r.replies@[0]@
                    == Seen::Close(4409, "server is suspended"@)
                &&& auth_refusal(c, uuid) is None && !server.suspended ==> after.token == Some(
                    token,
                ) && after.claims == Some(c) && after.subscribed && (r.subscribe <==>
                !before.subscribed) && r.replies@.len() > 0 && r.replies@[0]@ == Seen::Message(
                    ("auth success"@, Seq::<Seq<char>>::empty()),
                )
            },
        },
{
    assert(seen(r.replies@).len() == r.replies@.len());
    if r.replies@.len() > 0 {
        assert(seen(r.replies@)[0] == r.replies@[0]@);
    }
    assert(forall|first: bool| #[trigger]
        seen_frames(greeting(first, server)).len() == greeting(first, server).len());
    assert(seen_frames(greeting(!before.subscribed, server))[0] == Seen::Message(
        greeting(!before.subscribed, server)[0],
    ));
}

/// A message under a token that is no longer good does nothing but tell so; otherwise
/// what it asks for is done in the name of the user of the token.
pub proof fn law_messages_are_followed(
    before: SessionView,
    after: SessionView,
    token: Seq<char>,
    parsed: AppResult<Claims>,
    inbound: InboundMessage,
    server: &Server,
    uuid: u128,
    r: Outcome,
)
    requires
        handled(before, after, token, parsed, inbound, server, uuid, r),
        inbound.event@ != "auth"@,
    ensures
        after == before,
        !r.subscribe,
        parsed is Err ==> r.action is None && r.replies@.len() == 1,
        parsed matches Ok(c) ==> asked(r.action) == requested(
            c,
            inbound.event@,
            text::texts(inbound.args@),
        ) && (match (r.user, c.user_uuid) {
            (Some(a), Some(b)) => a@ == b@,
            (None, None) => true,
            _ => false,
        }),
{
    assert(seen(r.replies@).len() == r.replies@.len());
}

/// Whoever asks for the log gets every line that is kept, in order.
pub proof fn law_logs_are_sent(server: &Server, i: int)
    requires
        0 <= i < server.console@.lines.len(),
    ensures
        answered("send logs"@, server).len() == server.console@.lines.len(),
        answered("send logs"@, server)[i] == ("console output"@, seq![server.console@.lines[i]]),
        answered("send stats"@, server) == seq![("stats"@, seq![server.usage.json()])],
{
    reveal_strlit("send logs");
    reveal_strlit("send stats");
    assert("send logs"@.len() != "send stats"@.len());
}

/// A message that shows a token is judged by that one, any other by the one that
/// opened the session.
pub proof fn law_which_token_counts(s: SessionView, inbound: InboundMessage)
    ensures
        inbound.event@ != "auth"@ ==> shown(s, inbound) == s.token,
        inbound.event@ == "auth"@ && inbound.args@.len() == 0 ==> shown(s, inbound) is None,
        inbound.event@ == "auth"@ && inbound.args@.len() == 1 && inbound.args@[0]@.len() > 0
            ==> shown(s, inbound) == Some(inbound.args@[0]@),
{
    if inbound.args@.len() == 1 {
        assert(text::texts(inbound.args@)[0] == inbound.args@[0]@);
    }
}

/// Events of an installation are for administrators, those of backups for whoever may
/// read them, all others for everyone.
pub proof fn law_who_sees_events(session: &Session, text: String, c: Claims)
    requires
        session.state().claims == Some(c),
    ensures
        session.may_see(&ServerEvent::ConsoleOutput(text)),
        session.may_see(&ServerEvent::Status(text)),
        session.may_see(&ServerEvent::DaemonMessage(text)),
        session.may_see(&ServerEvent::TransferStatus(text)),
        session.may_see(&ServerEvent::InstallOutput(text)) <==> c.permits(
            "admin.websocket.install"@,
        ),
        session.may_see(&ServerEvent::InstallStarted) <==> c.permits("admin.websocket.install"@),
        session.may_see(&ServerEvent::InstallCompleted) <==> c.permits("admin.websocket.install"@),
        session.may_see(&ServerEvent::BackupCompleted(text)) <==> c.permits("backup.read"@),
        session.may_see(&ServerEvent::BackupRestoreCompleted(text)) <==> c.permits("backup.read"@),
{
}

/// The panel's own pages may open a websocket, and those that are listed; any page if
/// `*` is listed.
pub proof fn law_pages_with_websockets(config: &Config, i: int, origin: Seq<char>)
    ensures
        ws_origin(config, text::trim_end_of(config.remote@, '/')),
        0 <= i < config.allowed_origins@.len() ==> ws_origin(config, config.allowed_origins@[i]@),
        0 <= i < config.allowed_origins@.len() && config.allowed_origins@[i]@ == "*"@ ==> ws_origin(
            config,
            origin,
        ),
        config.allowed_origins@.len() == 0 && origin != text::trim_end_of(config.remote@, '/')
            && !config.allow_cors_private_network ==> !ws_origin(config, origin),
{
}

/// Requests are noted by what was asked for.
pub proof fn law_requests_are_noted(command: String)
    ensures
        WsAction::Start.event_text() == "server:power.start"@,
        WsAction::Stop.event_text() == "server:power.stop"@,
        WsAction::Restart.event_text() == "server:power.restart"@,
        WsAction::Kill.event_text() == "server:power.kill"@,
        WsAction::Command(command).event_text() == "server:console.command"@,
{
}

/// A message is sent as an object with its name, and with its arguments where it has
/// any.
pub proof fn law_messages_are_objects(event: Seq<char>, a: Seq<char>, b: Seq<char>)
    ensures
        envelope((event, Seq::empty())) == "{\"event\":"@ + json::quoted(event) + "}"@,
        envelope((event, seq![a])) == "{\"event\":"@ + json::quoted(event) + ",\"args\":["@
            + json::quoted(a) + "]}"@,
        envelope((event, seq![a, b])) == "{\"event\":"@ + json::quoted(event) + ",\"args\":["@ + (
        json::quoted(a) + ","@ + json::quoted(b)) + "]}"@,
{
    let one = quoted_all(seq![a]);
    assert(one =~= seq![json::quoted(a)]);
    assert(text::join(one, ","@) == json::quoted(a));
    let two = quoted_all(seq![a, b]);
    assert(two =~= seq![json::quoted(a), json::quoted(b)]);
    assert(two.drop_last() =~= seq![json::quoted(a)]);
    assert(text::join(two.drop_last(), ","@) == json::quoted(a));
    assert(text::join(two, ","@) == json::quoted(a) + ","@ + json::quoted(b));
}

/// A token that is refused is answered with an error that says why.
pub proof fn law_refusals_are_told(
    before: SessionView,
    after: SessionView,
    token: Seq<char>,
    c: Claims,
    e: AppError,
    server: &Server,
    uuid: u128,
    r: Outcome,
)
    ensures
        greeted(before, after, token, Err(e), server, uuid, r) ==> r.replies@.len() == 1
            && r.replies@[0]@ == Seen::Message(("jwt error"@, seq![e.text()])),
        greeted(before, after, token, Ok(c), server, uuid, r) ==> (auth_refusal(
            c,
            uuid,
        ) matches Some(m) ==> r.replies@.len() == 1 && r.replies@[0]@ == Seen::Message(
            ("jwt error"@, seq![m]),
        )),
{
    assert(seen(r.replies@).len() == r.replies@.len());
    if r.replies@.len() > 0 {
        assert(seen(r.replies@)[0] == r.replies@[0]@);
    }
}

/// A token that comes in several arguments is put together from them.
pub proof fn law_tokens_in_pieces(s: SessionView, inbound: InboundMessage)
    requires
        inbound.event@ == "auth"@,
        inbound.args@.len() == 2,
        inbound.args@[0]@.len() > 0,
    ensures
        shown(s, inbound) == Some(inbound.args@[0]@ + inbound.args@[1]@),
{
    reveal_strlit("");
    let t = text::texts(inbound.args@);
    assert(t[0] == inbound.args@[0]@ && t[1] == inbound.args@[1]@);
    assert(t.drop_last() =~= seq![t[0]]);
    assert(text::join(t.drop_last(), ""@) == t[0]);
    assert(text::join(t, ""@) =~= t[0] + t[1]);
}

} // verus!
