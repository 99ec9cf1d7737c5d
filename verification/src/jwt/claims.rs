//! What a token says, and whether it is accepted.
use jsonwebtoken::{decode, encode, DecodingKey, EncodingKey, Header, Validation};
use serde_json::value::RawValue;
use serde_yaml::{Mapping, Value};
use vstd::prelude::*;
use crate::error::{AppError, AppResult};
use crate::json;
use crate::json::{Doc, Json};
use crate::jwt::store;
use crate::jwt::store::TokenStore;
use crate::numbers;
use crate::text;

verus! {

/// What a token says. Different purposes carry different claims:
/// a websocket its server, user and permissions; a download or upload its
/// server and an id that can be used once; a transfer its server as subject.
#[derive(Debug, Clone)]
pub struct Claims {
    pub sub: Option<String>,
    pub scope: Option<String>,
    pub permissions: Option<Vec<String>>,
    pub server_uuid: Option<String>,
    pub user_uuid: Option<String>,
    pub unique_id: Option<String>,
    pub jti: Option<String>,
    pub backup_uuid: Option<String>,
    pub file_path: Option<String>,
    pub iss: Option<String>,
    pub iat: Option<i64>,
    pub nbf: Option<i64>,
    pub exp: i64,
}

/// Why a token could not be decoded.
#[derive(Debug, Clone, Copy, PartialEq, Eq, Structural)]
pub enum JwtFault {
    Expired,
    Signature,
    Malformed,
    Issuer,
    Audience,
    Immature,
    Other,
}

/// One claim as it was decoded.
#[derive(Debug)]
pub enum ClaimValue {
    Null,
    Text(String),
    /// a list, with the elements that are text
    List(Vec<Option<String>>),
    /// a number, when it is an integer
    Number(Option<i64>),
    Other,
}

// ---------------------------------------------------------------------------
// Definitions
// ---------------------------------------------------------------------------
/// The view of text that may be absent.
pub open spec fn opt(s: Option<String>) -> Option<Seq<char>> {
    match s {
        Some(t) => Some(t@),
        None => None,
    }
}

/// The claim with this name.
pub open spec fn claim_of(m: Seq<(String, ClaimValue)>, k: Seq<char>) -> Option<ClaimValue>
    decreases m.len(),
{
    if m.len() == 0 {
        None
    } else if m[0].0@ == k {
        Some(m[0].1)
    } else {
        claim_of(m.skip(1), k)
    }
}

/// A claim that is text, or is absent.
pub open spec fn text_claim(c: Option<ClaimValue>, r: Option<String>) -> bool {
    match c {
        None => r is None,
        Some(ClaimValue::Null) => r is None,
        Some(ClaimValue::Text(s)) => r is Some && r->0@ == s@,
        Some(_) => false,
    }
}

/// A claim that is an integer, or is absent.
pub open spec fn number_claim(c: Option<ClaimValue>, r: Option<i64>) -> bool {
    match c {
        None => r is None,
        Some(ClaimValue::Null) => r is None,
        Some(ClaimValue::Number(Some(n))) => r == Some(n),
        Some(_) => false,
    }
}

/// A claim that is a list of texts, or is absent.
pub open spec fn list_claim(c: Option<ClaimValue>, r: Option<Vec<String>>) -> bool {
    match c {
        None => r is None,
        Some(ClaimValue::Null) => r is None,
        Some(ClaimValue::List(v)) => r is Some && r->0@.len() == v@.len() && forall|i: int|
            0 <= i < v@.len() ==> (#[trigger] v@[i]) is Some && r->0@[i]@ == v@[i]->0@,
        Some(_) => false,
    }
}

pub open spec fn is_text_or_absent(c: Option<ClaimValue>) -> bool {
    c is None || c->0 is Null || c->0 is Text
}

pub open spec fn is_number_or_absent(c: Option<ClaimValue>) -> bool {
    c is None || c->0 is Null || (c->0 matches ClaimValue::Number(n) && n is Some)
}

pub open spec fn is_list_or_absent(c: Option<ClaimValue>) -> bool {
    c is None || c->0 is Null || (c->0 matches ClaimValue::List(v) && forall|i: int|
        0 <= i < v@.len() ==> (#[trigger] v@[i]) is Some)
}

/// Every claim has its type, and there is an expiry.
pub open spec fn well_typed(m: Seq<(String, ClaimValue)>) -> bool {
    &&& is_text_or_absent(claim_of(m, "sub"@))
    &&& is_text_or_absent(claim_of(m, "scope"@))
    &&& is_list_or_absent(claim_of(m, "permissions"@))
    &&& is_text_or_absent(claim_of(m, "server_uuid"@))
    &&& is_text_or_absent(claim_of(m, "user_uuid"@))
    &&& is_text_or_absent(claim_of(m, "unique_id"@))
    &&& is_text_or_absent(claim_of(m, "jti"@))
    &&& is_text_or_absent(claim_of(m, "backup_uuid"@))
    &&& is_text_or_absent(claim_of(m, "file_path"@))
    &&& is_text_or_absent(claim_of(m, "iss"@))
    &&& is_number_or_absent(claim_of(m, "iat"@))
    &&& is_number_or_absent(claim_of(m, "nbf"@))
    &&& claim_of(m, "exp"@) matches Some(ClaimValue::Number(Some(_)))
}

/// `c` says what the decoded claims say.
pub open spec fn says(c: Claims, m: Seq<(String, ClaimValue)>) -> bool {
    &&& text_claim(claim_of(m, "sub"@), c.sub)
    &&& text_claim(claim_of(m, "scope"@), c.scope)
    &&& list_claim(claim_of(m, "permissions"@), c.permissions)
    &&& text_claim(claim_of(m, "server_uuid"@), c.server_uuid)
    &&& text_claim(claim_of(m, "user_uuid"@), c.user_uuid)
    &&& text_claim(claim_of(m, "unique_id"@), c.unique_id)
    &&& text_claim(claim_of(m, "jti"@), c.jti)
    &&& text_claim(claim_of(m, "backup_uuid"@), c.backup_uuid)
    &&& text_claim(claim_of(m, "file_path"@), c.file_path)
    &&& text_claim(claim_of(m, "iss"@), c.iss)
    &&& number_claim(claim_of(m, "iat"@), c.iat)
    &&& number_claim(claim_of(m, "nbf"@), c.nbf)
    &&& number_claim(claim_of(m, "exp"@), Some(c.exp))
}

/// The message for a token that could not be decoded.
pub open spec fn fault_text(f: JwtFault) -> Seq<char> {
    match f {
        JwtFault::Expired => "jwt expired"@,
        JwtFault::Signature => "jwt signature invalid"@,
        JwtFault::Malformed => "jwt malformed"@,
        JwtFault::Issuer => "jwt invalid issuer"@,
        JwtFault::Audience => "jwt invalid audience"@,
        JwtFault::Immature => "jwt not valid yet"@,
        JwtFault::Other => "jwt invalid"@,
    }
}

/// A permission is granted by its own name, or by `*` unless it is one for
/// administrators.
pub open spec fn grants(p: Seq<char>, perm: Seq<char>) -> bool {
    p == perm || (!"admin"@.is_prefix_of(perm) && p == "*"@)
}

impl Claims {
    pub open spec fn permits(&self, perm: Seq<char>) -> bool {
        match self.permissions {
            Some(v) => exists|i: int| 0 <= i < v@.len() && grants((#[trigger] v@[i])@, perm),
            None => false,
        }
    }

    /// A token that can be revoked: it names its server and user, and when it
    /// was issued.
    pub open spec fn revocable(&self) -> bool {
        self.iat is Some && self.server_uuid is Some && self.user_uuid is Some
    }

    /// A token whose time is over. A negative time of expiry is none.
    pub open spec fn expired(&self, now_ms: i64) -> bool {
        0 <= self.exp < now_ms as int / 1000
    }

    /// A token issued before the daemon started.
    pub open spec fn predates(&self, boot_time: i64) -> bool {
        self.revocable() && self.iat->0 < boot_time
    }

    /// A token whose session or user was revoked after it was issued.
    pub open spec fn revoked(
        &self,
        sessions: Map<Seq<char>, i64>,
        users: Map<Seq<char>, i64>,
    ) -> bool {
        self.revocable() && ((self.jti is Some && store::is_denied(
            sessions,
            store::jti_key(self.jti->0@),
            self.iat->0,
        )) || store::is_denied(users, self.user_uuid->0@, self.iat->0))
    }

    /// A token that can be used once: it has an id, and is not for a websocket.
    pub open spec fn single_use(&self) -> bool {
        self.unique_id is Some && opt(self.scope) != Some("websocket"@)
    }
}

// ---------------------------------------------------------------------------
// Executable operations
// ---------------------------------------------------------------------------
impl Claims {
    pub fn has_scope(&self, scope: &str) -> (r: bool)
        ensures
            r == (opt(self.scope) == Some(scope@)),
    {
        match &self.scope {
            Some(s) => text::same(s.as_str(), scope),
            None => false,
        }
    }

    pub fn has_permission(&self, perm: &str) -> (r: bool)
        ensures
            r == self.permits(perm@),
    {
        match &self.permissions {
            Some(v) => {
                let admin = text::starts_with(perm, "admin");
                let mut i: usize = 0;
                while i < v.len()
                    invariant
                        i <= v.len(),
                        admin == "admin"@.is_prefix_of(perm@),
                        self.permissions == Some(*v),
                        forall|k: int| 0 <= k < i ==> !grants((#[trigger] v@[k])@, perm@),
                    decreases v.len() - i,
                {
                    let p = v[i].as_str();
                    if text::same(p, perm) || (!admin && text::same(p, "*")) {
                        assert(self.permissions->0@[i as int] == v@[i as int]);
                        assert(grants(v@[i as int]@, perm@));
                        return true;
                    }
                    i = i + 1;
                }
                false
            },
            None => false,
        }
    }

    /// The server that the token is for.
    pub fn server_uuid(&self) -> (r: Option<&str>)
        ensures
            match r {
                Some(s) => opt(self.server_uuid) == Some(s@),
                None => self.server_uuid is None,
            },
    {
        match &self.server_uuid {
            Some(s) => Some(s.as_str()),
            None => None,
        }
    }
}

/// The message for a token that could not be decoded.
pub fn jwt_error_message(f: JwtFault) -> (r: String)
    ensures
        r@ == fault_text(f),
{
    match f {
        JwtFault::Expired => "jwt expired".to_owned(),
        JwtFault::Signature => "jwt signature invalid".to_owned(),
        JwtFault::Malformed => "jwt malformed".to_owned(),
        JwtFault::Issuer => "jwt invalid issuer".to_owned(),
        JwtFault::Audience => "jwt invalid audience".to_owned(),
        JwtFault::Immature => "jwt not valid yet".to_owned(),
        JwtFault::Other => "jwt invalid".to_owned(),
    }
}

/// Takes the claim with this name out of a list.
fn find_claim<'a>(m: &'a Vec<(String, ClaimValue)>, k: &str) -> (r: Option<&'a ClaimValue>)
    ensures
        match r {
            Some(v) => claim_of(m@, k@) == Some(*v),
            None => claim_of(m@, k@) is None,
        },
{
    let mut i: usize = 0;
    assert(m@.skip(0) =~= m@);
    while i < m.len()
        invariant
            i <= m.len(),
            claim_of(m@, k@) == claim_of(m@.skip(i as int), k@),
        decreases m.len() - i,
    {
        assert(m@.skip(i as int)[0] == m@[i as int]);
        assert(m@.skip(i as int).skip(1) =~= m@.skip(i + 1));
        if text::same(m[i].0.as_str(), k) {
            return Some(&m[i].1);
        }
        i = i + 1;
    }
    None
}

/// Reads a claim that is text, or is absent.
fn read_text(m: &Vec<(String, ClaimValue)>, k: &str) -> (r: Option<Option<String>>)
    ensures
        match r {
            Some(v) => text_claim(claim_of(m@, k@), v),
            None => !is_text_or_absent(claim_of(m@, k@)),
        },
{
    match find_claim(m, k) {
        None => Some(None),
        Some(ClaimValue::Null) => Some(None),
        Some(ClaimValue::Text(s)) => Some(Some(s.clone())),
        Some(_) => None,
    }
}

/// Reads a claim that is an integer, or is absent.
fn read_number(m: &Vec<(String, ClaimValue)>, k: &str) -> (r: Option<Option<i64>>)
    ensures
        match r {
            Some(v) => number_claim(claim_of(m@, k@), v),
            None => !is_number_or_absent(claim_of(m@, k@)),
        },
{
    match find_claim(m, k) {
        None => Some(None),
        Some(ClaimValue::Null) => Some(None),
        Some(ClaimValue::Number(Some(n))) => Some(Some(*n)),
        Some(_) => None,
    }
}

/// Reads a claim that is a list of texts, or is absent.
fn read_list(m: &Vec<(String, ClaimValue)>, k: &str) -> (r: Option<Option<Vec<String>>>)
    ensures
        match r {
            Some(v) => list_claim(claim_of(m@, k@), v),
            None => !is_list_or_absent(claim_of(m@, k@)),
        },
{
    match find_claim(m, k) {
        None => Some(None),
        Some(ClaimValue::Null) => Some(None),
        Some(ClaimValue::List(v)) => {
            let mut out: Vec<String> = Vec::new();
            let mut i: usize = 0;
            while i < v.len()
                invariant
                    i <= v.len(),
                    claim_of(m@, k@) == Some(ClaimValue::List(*v)),
                    out@.len() == i,
                    forall|j: int|
                        0 <= j < i ==> (#[trigger] v@[j]) is Some && out@[j]@ == v@[j]->0@,
                decreases v.len() - i,
            {
                match &v[i] {
                    Some(s) => {
                        out.push(s.clone());
                    },
                    None => {
                        assert(v@[i as int] is None);
                        return None;
                    },
                }
                i = i + 1;
            }
            Some(Some(out))
        },
        Some(_) => None,
    }
}

/// Reads the claims of a decoded token; none when one has a wrong type or the
/// expiry is missing.
pub fn read_claims(m: &Vec<(String, ClaimValue)>) -> (r: Option<Claims>)
    ensures
        match r {
            Some(c) => well_typed(m@) && says(c, m@),
            None => !well_typed(m@),
        },
{
    let exp = match read_number(m, "exp") {
        Some(Some(n)) => n,
        _ => {
            return None;
        },
    };
    Some(
        Claims {
            sub: read_text(m, "sub")?,
            scope: read_text(m, "scope")?,
            permissions: read_list(m, "permissions")?,
            server_uuid: read_text(m, "server_uuid")?,
            user_uuid: read_text(m, "user_uuid")?,
            unique_id: read_text(m, "unique_id")?,
            jti: read_text(m, "jti")?,
            backup_uuid: read_text(m, "backup_uuid")?,
            file_path: read_text(m, "file_path")?,
            iss: read_text(m, "iss")?,
            iat: read_number(m, "iat")?,
            nbf: read_number(m, "nbf")?,
            exp,
        },
    )
}

/// Decides on a token that was decoded, and marks it as used if it can be used
/// once.
pub fn accept_claims(
    decoded: Result<Vec<(String, ClaimValue)>, JwtFault>,
    tokens: &mut TokenStore,
    boot_time: i64,
    now_ms: i64,
) -> (r: AppResult<Claims>)
    requires
        0 <= now_ms <= i64::MAX - u32::MAX * 1000,
    ensures
        final(tokens).denied_sessions() == old(tokens).denied_sessions(),
        final(tokens).denied_users() == old(tokens).denied_users(),
        final(tokens).lifetime() == old(tokens).lifetime(),
        accepted(
            decoded,
            old(tokens).denied_sessions(),
            old(tokens).denied_users(),
            old(tokens).used_ids(),
            final(tokens).used_ids(),
            old(tokens).lifetime(),
            boot_time,
            now_ms,
            r,
        ),
{
    let list = match decoded {
        Ok(m) => m,
        Err(f) => {
            return Err(AppError::Unauthorized(jwt_error_message(f)));
        },
    };
    let claims = match read_claims(&list) {
        Some(c) => c,
        None => {
            return Err(AppError::Unauthorized(jwt_error_message(JwtFault::Other)));
        },
    };
    assert(says(claims, list@));
    if claims.exp >= 0 && claims.exp < now_ms / 1000 {
        return Err(AppError::Unauthorized(jwt_error_message(JwtFault::Expired)));
    }
    if let (Some(iat), Some(_s), Some(user)) = (
        &claims.iat,
        &claims.server_uuid,
        &claims.user_uuid,
    ) {
        if *iat < boot_time {
            return Err(
                AppError::Unauthorized("jwt created too far in past (denylist)".to_owned()),
            );
        }
        let session_denied = match &claims.jti {
            Some(jti) => tokens.is_jti_denied(jti.as_str(), *iat),
            None => false,
        };
        if session_denied || tokens.is_user_denied(user.as_str(), *iat) {
            return Err(AppError::Unauthorized("jwt token was revoked".to_owned()));
        }
    }
    if !claims.has_scope("websocket") {
        if let Some(id) = &claims.unique_id {
            if !tokens.claim(id.as_str(), now_ms) {
                return Err(AppError::Unauthorized("jwt token was revoked".to_owned()));
            }
        }
    }
    Ok(claims)
}

/// What becomes of a token: it is refused when it could not be decoded, says
/// something of a wrong type, predates the daemon, was revoked, or was used
/// already; otherwise it is accepted, and used if it can be used once.
pub open spec fn accepted(
    decoded: Result<Vec<(String, ClaimValue)>, JwtFault>,
    sessions: Map<Seq<char>, i64>,
    users: Map<Seq<char>, i64>,
    used: Map<Seq<char>, i64>,
    used_after: Map<Seq<char>, i64>,
    ttl: int,
    boot_time: i64,
    now_ms: i64,
    r: AppResult<Claims>,
) -> bool {
    match decoded {
        Err(f) => used_after == used && r is Err && crate::error::is_unauthorized(
            r->Err_0,
            fault_text(f),
        ),
        Ok(m) => if !well_typed(m@) {
            used_after == used && r is Err && crate::error::is_unauthorized(
                r->Err_0,
                "jwt invalid"@,
            )
        } else {
            exists|c: Claims| #[trigger] says(c, m@) && decided(
                c,
                sessions,
                users,
                used,
                used_after,
                ttl,
                boot_time,
                now_ms,
                r,
            )
        },
    }
}

/// What becomes of a token with these claims.
pub open spec fn decided(
    c: Claims,
    sessions: Map<Seq<char>, i64>,
    users: Map<Seq<char>, i64>,
    used: Map<Seq<char>, i64>,
    used_after: Map<Seq<char>, i64>,
    ttl: int,
    boot_time: i64,
    now_ms: i64,
    r: AppResult<Claims>,
) -> bool {
    if c.expired(now_ms) {
        used_after == used && r is Err && crate::error::is_unauthorized(
            r->Err_0,
            "jwt expired"@,
        )
    } else if c.predates(boot_time) {
        used_after == used && r is Err && crate::error::is_unauthorized(
            r->Err_0,
            "jwt created too far in past (denylist)"@,
        )
    } else if c.revoked(sessions, users) {
        used_after == used && r is Err && crate::error::is_unauthorized(
            r->Err_0,
            "jwt token was revoked"@,
        )
    } else if c.single_use() {
        let (fresh, after) = store::claimed(used, c.unique_id->0@, now_ms as int, ttl);
        used_after == after && (if fresh {
            r == Ok::<Claims, AppError>(c)
        } else {
            r is Err && crate::error::is_unauthorized(r->Err_0, "jwt token was revoked"@)
        })
    } else {
        used_after == used && r == Ok::<Claims, AppError>(c)
    }
}

/// A token that is accepted has not expired, was not issued before the daemon
/// started, and was not revoked; and it says what is handed on.
pub proof fn law_accepted_tokens_are_good(
    c: Claims,
    sessions: Map<Seq<char>, i64>,
    users: Map<Seq<char>, i64>,
    used: Map<Seq<char>, i64>,
    used_after: Map<Seq<char>, i64>,
    ttl: int,
    boot_time: i64,
    now_ms: i64,
    r: AppResult<Claims>,
)
    requires
        decided(c, sessions, users, used, used_after, ttl, boot_time, now_ms, r),
        r is Ok,
    ensures
        r->Ok_0 == c,
        !c.expired(now_ms) && !c.predates(boot_time) && !c.revoked(sessions, users),
{
}

/// A claim by its contents.
pub enum Claim {
    Null,
    Text(Seq<char>),
    List(Seq<Option<Seq<char>>>),
    Number(Option<i64>),
    Other,
}

impl View for ClaimValue {
    type V = Claim;

    open spec fn view(&self) -> Claim {
        match self {
            ClaimValue::Null => Claim::Null,
            ClaimValue::Text(s) => Claim::Text(s@),
            ClaimValue::List(v) => Claim::List(
                v@.map_values(
                    |o: Option<String>|
                        match o {
                            Some(s) => Some(s@),
                            None => None,
                        },
                ),
            ),
            ClaimValue::Number(n) => Claim::Number(*n),
            ClaimValue::Other => Claim::Other,
        }
    }
}

/// Claims by their names and contents.
pub open spec fn claims_view(m: Seq<(String, ClaimValue)>) -> Seq<(Seq<char>, Claim)> {
    m.map_values(|c: (String, ClaimValue)| (c.0@, c.1@))
}

/// What decoding a token with a secret gives, whatever the time
/// (`jsonwebtoken::decode` with HS256 as a mapping whose names are all different,
/// without any check of times, audiences or required claims): its claims, or the
/// text of the error.
pub uninterp spec fn decoded_token(token: Seq<char>, secret: Seq<u8>) -> Result<
    Seq<(Seq<char>, Claim)>,
    Seq<char>,
>;

/// The fault that an error text stands for.
pub open spec fn fault_in(message: Seq<char>) -> JwtFault {
    if message == "InvalidSignature"@ {
        JwtFault::Signature
    } else if message == "InvalidToken"@ {
        JwtFault::Malformed
    } else {
        JwtFault::Other
    }
}

/// What a token signed with a secret says, whatever the time.
pub open spec fn token_says(token: Seq<char>, secret: Seq<u8>) -> Result<
    Seq<(Seq<char>, Claim)>,
    JwtFault,
> {
    match decoded_token(token, secret) {
        Ok(m) => Ok(m),
        Err(e) => Err(fault_in(e)),
    }
}

/// Checks the signature of a token and decodes its claims (`jsonwebtoken::decode`,
/// with HS256, which `Validation::default` has). A token that repeats a name is
/// refused. No time is looked at, so the outcome depends on the token and the
/// secret alone.
#[verifier::external_body]
fn decode_token(token: &str, secret: &[u8]) -> (r: Result<Vec<(String, ClaimValue)>, String>)
    ensures
        decoded_token(token@, secret@) == (match r {
            Ok(m) => Ok(claims_view(m@)),
            Err(e) => Err(e@),
        }),
{
    let mut rules = Validation::default();
    (rules.validate_exp, rules.validate_aud) = (false, false);
    rules.required_spec_claims.clear();
    Ok(decode::<Mapping>(token, &DecodingKey::from_secret(secret), &rules)
        .map_err(|e| e.to_string())?
        .claims.into_iter().map(|(k, v)| (k.as_str().unwrap_or_default().into(), match v {
        Value::Null => ClaimValue::Null,
        Value::String(s) => ClaimValue::Text(s),
        Value::Sequence(a) => ClaimValue::List(a.iter().map(|x| x.as_str().map(String::from)).collect()),
        Value::Number(n) => ClaimValue::Number(n.as_i64()),
        _ => ClaimValue::Other,
    })).collect())
}

/// Decodes a token.
fn read_token(token: &str, secret: &[u8]) -> (r: Result<Vec<(String, ClaimValue)>, JwtFault>)
    ensures
        token_says(token@, secret@) == (match r {
            Ok(m) => Ok(claims_view(m@)),
            Err(f) => Err(f),
        }),
{
    match decode_token(token, secret) {
        Ok(m) => Ok(m),
        Err(e) => if text::same(e.as_str(), "InvalidSignature") {
            Err(JwtFault::Signature)
        } else if text::same(e.as_str(), "InvalidToken") {
            Err(JwtFault::Malformed)
        } else {
            Err(JwtFault::Other)
        },
    }
}

/// What becomes of a token, and of the store that remembers which were used.
pub open spec fn judged(
    token: Seq<char>,
    secret: Seq<u8>,
    before: TokenStore,
    after: TokenStore,
    boot_time: i64,
    now_ms: i64,
    r: AppResult<Claims>,
) -> bool {
    exists|decoded: Result<Vec<(String, ClaimValue)>, JwtFault>|
        token_says(token, secret) == (match decoded {
            Ok(m) => Ok(claims_view(m@)),
            Err(f) => Err(f),
        }) && #[trigger] accepted(
            decoded,
            before.denied_sessions(),
            before.denied_users(),
            before.used_ids(),
            after.used_ids(),
            before.lifetime(),
            boot_time,
            now_ms,
            r,
        )
}

/// Validates a token that the panel signed with the daemon's token: its
/// signature and expiry, that it does not predate the daemon and was not
/// revoked, and that it is not used twice where it can be used once.
pub fn parse_token(
    token: &str,
    secret: &[u8],
    tokens: &mut TokenStore,
    boot_time: i64,
    now_ms: i64,
) -> (r: AppResult<Claims>)
    requires
        0 <= now_ms <= i64::MAX - u32::MAX * 1000,
    ensures
        final(tokens).denied_sessions() == old(tokens).denied_sessions(),
        final(tokens).denied_users() == old(tokens).denied_users(),
        final(tokens).lifetime() == old(tokens).lifetime(),
        judged(token@, secret@, *old(tokens), *final(tokens), boot_time, now_ms, r),
{
    let decoded = read_token(token, secret);
    let ghost d = decoded;
    let r = accept_claims(decoded, tokens, boot_time, now_ms);
    assert(accepted(
        d,
        old(tokens).denied_sessions(),
        old(tokens).denied_users(),
        old(tokens).used_ids(),
        tokens.used_ids(),
        old(tokens).lifetime(),
        boot_time,
        now_ms,
        r,
    ));
    r
}

// ---------------------------------------------------------------------------
// Signing
// ---------------------------------------------------------------------------
/// What a token says under a name.
pub open spec fn named(m: Seq<(Seq<char>, Claim)>, k: Seq<char>) -> Option<Claim>
    decreases m.len(),
{
    if m.len() == 0 {
        None
    } else if m[0].0 == k {
        Some(m[0].1)
    } else {
        named(m.skip(1), k)
    }
}

/// The claim that a value is.
pub open spec fn claim_in(d: Doc) -> Claim {
    match d {
        Doc::Null => Claim::Null,
        Doc::Str(s) => Claim::Text(s),
        Doc::Array(a) => Claim::List(
            a.map_values(
                |x: Doc|
                    match x {
                        Doc::Str(s) => Some(s),
                        _ => None,
                    },
            ),
        ),
        Doc::Number(t) => Claim::Number(
            match numbers::parse_signed(t) {
                Some(n) => Some(n as i64),
                None => None,
            },
        ),
        _ => Claim::Other,
    }
}

/// The claims that the members of an object are.
pub open spec fn claims_in(m: Seq<(Seq<char>, Doc)>) -> Seq<(Seq<char>, Claim)> {
    m.map_values(|e: (Seq<char>, Doc)| (e.0, claim_in(e.1)))
}

/// A value that comes back from a token as it went in: nothing but text, lists of
/// text, integers and nothing at all.
pub open spec fn is_plain(d: Doc) -> bool {
    match d {
        Doc::Null | Doc::Str(_) => true,
        Doc::Array(a) => forall|i: int| 0 <= i < a.len() ==> (#[trigger] a[i]) is Str,
        Doc::Number(t) => numbers::parse_signed(t) matches Some(n) && t == numbers::decimal_int(n),
        _ => false,
    }
}

/// Claims that come back from a token as they went in: plain ones with different
/// names, of which the subject and the times are no lists.
pub open spec fn signable(m: Seq<(Seq<char>, Doc)>) -> bool {
    &&& forall|i: int| 0 <= i < m.len() ==> is_plain((#[trigger] m[i]).1)
    &&& forall|i: int|
        0 <= i < m.len() && (#[trigger] m[i]).1 is Array ==> m[i].0 != "sub"@ && m[i].0 != "exp"@
            && m[i].0 != "nbf"@
    &&& forall|i: int, j: int|
        0 <= i < j < m.len() ==> (#[trigger] m[i]).0 != (#[trigger] m[j]).0
}

/// A token says what was signed: under every name the same claim, or none.
pub open spec fn tells(told: Seq<(Seq<char>, Claim)>, m: Seq<(Seq<char>, Doc)>) -> bool {
    forall|k: Seq<char>| #[trigger] named(told, k) == named(claims_in(m), k)
}

proof fn lemma_named(m: Seq<(String, ClaimValue)>, k: Seq<char>)
    ensures
        named(claims_view(m), k) == (match claim_of(m, k) {
            Some(c) => Some(c@),
            None => None,
        }),
    decreases m.len(),
{
    if m.len() > 0 {
        assert(claims_view(m)[0] == (m[0].0@, m[0].1@));
        assert(claims_view(m).skip(1) =~= claims_view(m.skip(1)));
        lemma_named(m.skip(1), k);
    }
}

/// The claims read out of a token are, under every name, those that were signed.
pub proof fn law_signed_claims_are_read(
    m: Seq<(Seq<char>, Doc)>,
    read: Seq<(String, ClaimValue)>,
    k: Seq<char>,
)
    requires
        tells(claims_view(read), m),
    ensures
        named(claims_in(m), k) == (match claim_of(read, k) {
            Some(c) => Some(c@),
            None => None,
        }),
{
    lemma_named(read, k);
    assert(named(claims_view(read), k) == named(claims_in(m), k));
}

/// The token that claims as JSON text are signed to (`jsonwebtoken::encode` with
/// the default header, HS256), or the text of the error.
pub uninterp spec fn signed_claims(claims: Seq<char>, secret: Seq<u8>) -> Result<
    Seq<char>,
    Seq<char>,
>;

/// Signs claims in JSON text, as they stand (`jsonwebtoken::encode` of a
/// `serde_json::value::RawValue`, with the default header, HS256). The token depends
/// on the text and the secret alone. Claims that can come back from a token are
/// signed, and under the same secret the token says what was signed.
#[verifier::external_body]
fn encode_claims(claims: &str, secret: &[u8]) -> (r: Result<String, String>)
    ensures
        match r {
            Ok(t) => signed_claims(claims@, secret@) == Ok::<Seq<char>, Seq<char>>(t@) && forall|
                m: Seq<(Seq<char>, Doc)>,
            |
                #[trigger] signable(m) && claims@ == json::compact(Doc::Object(m)) ==> (
                decoded_token(t@, secret@) matches Ok(told) && tells(told, m)),
            Err(e) => signed_claims(claims@, secret@) == Err::<Seq<char>, Seq<char>>(e@) && forall|
                m: Seq<(Seq<char>, Doc)>,
            | #[trigger]
                signable(m) ==> claims@ != json::compact(Doc::Object(m)),
        },
{
    let raw = RawValue::from_string(claims.to_owned()).map_err(|e| e.to_string())?;
    encode(&Header::default(), &raw, &EncodingKey::from_secret(secret)).map_err(|e| e.to_string())
}

/// Signs claims with a secret. What cannot be signed is an error with its cause.
pub fn sign_token(claims: &Json, secret: &[u8]) -> (r: AppResult<String>)
    ensures
        match signed_claims(json::compact(json::doc(*claims)), secret@) {
            Ok(t) => r is Ok && r->Ok_0@ == t,
            Err(e) => r is Err && r->Err_0 is Internal && r->Err_0->Internal_0@
                == "jwt sign failed: "@ + e,
        },
        match json::doc(*claims) {
            Doc::Object(m) => signable(m) ==> r is Ok && (token_says(
                r->Ok_0@,
                secret@,
            ) matches Ok(told) && tells(told, m)),
            _ => true,
        },
{
    match encode_claims(claims.compact_text().as_str(), secret) {
        Ok(t) => Ok(t),
        Err(e) => Err(AppError::Internal(text::cat("jwt sign failed: ", e.as_str()))),
    }
}

/// A permission is held by its name, or by a `*` unless it is one of an administrator.
pub proof fn law_permissions(c: Claims, v: Vec<String>, perm: Seq<char>, i: int)
    requires
        c.permissions == Some(v),
    ensures
        0 <= i < v@.len() && v@[i]@ == perm ==> c.permits(perm),
        0 <= i < v@.len() && v@[i]@ == "*"@ && !("admin"@).is_prefix_of(perm) ==> c.permits(perm),
        c.permits(perm) ==> exists|j: int|
            0 <= j < v@.len() && ((#[trigger] v@[j])@ == perm || (v@[j]@ == "*"@ && !(
            "admin"@).is_prefix_of(perm))),
        v@.len() == 0 ==> !c.permits(perm),
        (Claims { permissions: None, ..c }).permits(perm) == false,
{
    if 0 <= i < v@.len() && grants(v@[i]@, perm) {
        match c.permissions {
            Some(w) => {
                assert(grants((w@[i])@, perm));
            },
            None => {},
        }
        assert(c.permits(perm));
    }
    if c.permits(perm) {
        let j = choose|j: int| 0 <= j < v@.len() && grants((#[trigger] v@[j])@, perm);
        assert(v@[j]@ == perm || (v@[j]@ == "*"@ && !("admin"@).is_prefix_of(perm)));
    }
}

/// A token runs out once a full second has gone by since its time, counted from the
/// epoch; it is too old if it was issued before the daemon started, where it says when,
/// for which server and for whom.
pub proof fn law_times_of_tokens(c: Claims, now_ms: i64, boot_time: i64)
    requires
        now_ms >= 0,
    ensures
        c.expired(now_ms) <==> c.exp >= 0 && (c.exp + 1) * 1000 <= now_ms,
        c.predates(boot_time) <==> c.server_uuid is Some && c.user_uuid is Some && (
        c.iat matches Some(t) && t < boot_time),
{
}

/// A token is revoked with its session or with its user, where that was after it was
/// issued.
pub proof fn law_revoked_tokens(c: Claims, sessions: Map<Seq<char>, i64>, users: Map<Seq<char>, i64>)
    requires
        c.iat is Some && c.server_uuid is Some && c.user_uuid is Some,
    ensures
        c.revoked(sessions, users) <==> {
            ||| users.contains_key(c.user_uuid->0@) && c.iat->0 < users[c.user_uuid->0@]
            ||| (c.jti matches Some(j) && sessions.contains_key("jti:"@ + j@) && c.iat->0
                < sessions["jti:"@ + j@])
        },
        !(Claims { iat: None, ..c }).revoked(sessions, users),
{
}

/// A token with an id that is not for a websocket is good for one request.
pub proof fn law_single_use(c: Claims)
    ensures
        c.unique_id is None ==> !c.single_use(),
        c.unique_id is Some && c.scope is None ==> c.single_use(),
        c.unique_id is Some ==> (c.scope matches Some(s) ==> (c.single_use() <==> s@
            != "websocket"@)),
{
}

/// A token that has not run out, is not too old and was not revoked is accepted,
/// unless it can be used once and was; and it is refused with the reason otherwise.
pub proof fn law_good_tokens_are_accepted(
    c: Claims,
    sessions: Map<Seq<char>, i64>,
    users: Map<Seq<char>, i64>,
    used: Map<Seq<char>, i64>,
    used_after: Map<Seq<char>, i64>,
    ttl: int,
    boot_time: i64,
    now_ms: i64,
    r: AppResult<Claims>,
)
    requires
        decided(c, sessions, users, used, used_after, ttl, boot_time, now_ms, r),
    ensures
        c.expired(now_ms) ==> (r matches Err(AppError::Unauthorized(m)) && m@ == "jwt expired"@),
        !c.expired(now_ms) && c.predates(boot_time) ==> (r matches Err(AppError::Unauthorized(m))
            && m@ == "jwt created too far in past (denylist)"@),
        !c.expired(now_ms) && !c.predates(boot_time) && c.revoked(sessions, users) ==> (
        r matches Err(AppError::Unauthorized(m)) && m@ == "jwt token was revoked"@),
        !c.expired(now_ms) && !c.predates(boot_time) && !c.revoked(sessions, users) ==> {
            &&& !c.single_use() ==> r == Ok::<Claims, AppError>(c) && used_after == used
            &&& c.single_use() && !used.contains_key(c.unique_id->0@) ==> r == Ok::<
                Claims,
                AppError,
            >(c) && used_after.contains_key(c.unique_id->0@)
            &&& c.single_use() && used.contains_key(c.unique_id->0@) && used[c.unique_id->0@]
                > now_ms ==> (r matches Err(AppError::Unauthorized(m)) && m@
                == "jwt token was revoked"@)
        },
{
}

/// Claims of a wrong type are refused, and so is a token without an expiry.
pub proof fn law_types_of_claims(m: Seq<(String, ClaimValue)>)
    requires
        well_typed(m),
    ensures
        claim_of(m, "exp"@) matches Some(ClaimValue::Number(Some(_))),
        claim_of(m, "scope"@) matches Some(v) ==> v is Text || v is Null,
        claim_of(m, "server_uuid"@) matches Some(v) ==> v is Text || v is Null,
        claim_of(m, "user_uuid"@) matches Some(v) ==> v is Text || v is Null,
        claim_of(m, "unique_id"@) matches Some(v) ==> v is Text || v is Null,
        claim_of(m, "jti"@) matches Some(v) ==> v is Text || v is Null,
        claim_of(m, "file_path"@) matches Some(v) ==> v is Text || v is Null,
        claim_of(m, "backup_uuid"@) matches Some(v) ==> v is Text || v is Null,
        claim_of(m, "sub"@) matches Some(v) ==> v is Text || v is Null,
        claim_of(m, "iss"@) matches Some(v) ==> v is Text || v is Null,
        claim_of(m, "iat"@) matches Some(v) ==> v is Null || (v matches ClaimValue::Number(n) && n
            is Some),
        claim_of(m, "nbf"@) matches Some(v) ==> v is Null || (v matches ClaimValue::Number(n) && n
            is Some),
        claim_of(m, "permissions"@) matches Some(v) ==> v is Null || v is List,
{
}

/// What a token says is read under the names of its claims.
pub proof fn law_claims_by_name(c: Claims, m: Seq<(String, ClaimValue)>, s: String, n: i64)
    requires
        says(c, m),
    ensures
        claim_of(m, "sub"@) == Some(ClaimValue::Text(s)) ==> (c.sub matches Some(t) && t@ == s@),
        claim_of(m, "scope"@) == Some(ClaimValue::Text(s)) ==> (c.scope matches Some(t) && t@
            == s@),
        claim_of(m, "server_uuid"@) == Some(ClaimValue::Text(s)) ==> (
        c.server_uuid matches Some(t) && t@ == s@),
        claim_of(m, "user_uuid"@) == Some(ClaimValue::Text(s)) ==> (c.user_uuid matches Some(t)
            && t@ == s@),
        claim_of(m, "unique_id"@) == Some(ClaimValue::Text(s)) ==> (c.unique_id matches Some(t)
            && t@ == s@),
        claim_of(m, "jti"@) == Some(ClaimValue::Text(s)) ==> (c.jti matches Some(t) && t@ == s@),
        claim_of(m, "backup_uuid"@) == Some(ClaimValue::Text(s)) ==> (
        c.backup_uuid matches Some(t) && t@ == s@),
        claim_of(m, "file_path"@) == Some(ClaimValue::Text(s)) ==> (c.file_path matches Some(t)
            && t@ == s@),
        claim_of(m, "iat"@) == Some(ClaimValue::Number(Some(n))) ==> c.iat == Some(n),
        claim_of(m, "nbf"@) == Some(ClaimValue::Number(Some(n))) ==> c.nbf == Some(n),
        claim_of(m, "exp"@) == Some(ClaimValue::Number(Some(n))) ==> c.exp == n,
        claim_of(m, "scope"@) is None ==> c.scope is None,
        claim_of(m, "permissions"@) is None ==> c.permissions is None,
        claim_of(m, "permissions"@) matches Some(ClaimValue::List(v)) ==> (
        c.permissions matches Some(w) && w@.len() == v@.len() && forall|i: int|
            0 <= i < v@.len() ==> (#[trigger] v@[i]) is Some && w@[i]@ == v@[i]->0@),
{
}

/// The claim under a name is the first that has it.
pub proof fn law_claim_of(m: Seq<(String, ClaimValue)>, k: Seq<char>, i: int)
    requires
        0 <= i < m.len(),
        m[i].0@ == k,
        forall|j: int| 0 <= j < i ==> (#[trigger] m[j]).0@ != k,
    ensures
        claim_of(m, k) == Some(m[i].1),
    decreases m.len(),
{
    if i > 0 {
        let rest = m.skip(1);
        assert(m[0].0@ != k);
        assert(rest[i - 1] == m[i]);
        assert forall|j: int| 0 <= j < i - 1 implies (#[trigger] rest[j]).0@ != k by {
            assert(rest[j] == m[j + 1]);
        }
        law_claim_of(rest, k, i - 1);
    }
}

/// The messages for tokens that cannot be decoded.
pub proof fn law_faults_are_told()
    ensures
        fault_text(JwtFault::Expired) == "jwt expired"@,
        fault_text(JwtFault::Signature) == "jwt signature invalid"@,
        fault_text(JwtFault::Malformed) == "jwt malformed"@,
        fault_text(JwtFault::Issuer) == "jwt invalid issuer"@,
        fault_text(JwtFault::Audience) == "jwt invalid audience"@,
        fault_text(JwtFault::Immature) == "jwt not valid yet"@,
        fault_text(JwtFault::Other) == "jwt invalid"@,
        fault_in("InvalidSignature"@) == JwtFault::Signature,
        fault_in("InvalidToken"@) == JwtFault::Malformed,
{
    reveal_strlit("InvalidSignature");
    reveal_strlit("InvalidToken");
    assert("InvalidSignature"@.len() != "InvalidToken"@.len());
}

/// A token that cannot be decoded is refused with the reason, one with claims of a
/// wrong type as invalid, and neither counts as used.
pub proof fn law_bad_tokens_are_refused(
    m: Vec<(String, ClaimValue)>,
    f: JwtFault,
    sessions: Map<Seq<char>, i64>,
    users: Map<Seq<char>, i64>,
    used: Map<Seq<char>, i64>,
    used_after: Map<Seq<char>, i64>,
    ttl: int,
    boot_time: i64,
    now_ms: i64,
    r: AppResult<Claims>,
)
    ensures
        accepted(Err(f), sessions, users, used, used_after, ttl, boot_time, now_ms, r)
            ==> used_after == used && (r matches Err(AppError::Unauthorized(t)) && t@ == fault_text(
            f,
        )),
        accepted(Ok(m), sessions, users, used, used_after, ttl, boot_time, now_ms, r)
            && !well_typed(m@) ==> used_after == used && (r matches Err(AppError::Unauthorized(t))
            && t@ == "jwt invalid"@),
        accepted(Ok(m), sessions, users, used, used_after, ttl, boot_time, now_ms, r) && r is Ok
            ==> well_typed(m@) && says(r->Ok_0, m@),
{
    if accepted(Ok(m), sessions, users, used, used_after, ttl, boot_time, now_ms, r) && r is Ok {
        let c = choose|c: Claims| #[trigger]
            says(c, m@) && decided(
                c,
                sessions,
                users,
                used,
                used_after,
                ttl,
                boot_time,
                now_ms,
                r,
            );
        assert(r->Ok_0 == c);
    }
}

/// A token says what decoding it says; one that is signed with another secret, or is no
/// token, says what is wrong with it.
pub proof fn law_what_tokens_say(token: Seq<char>, secret: Seq<u8>, m: Seq<(Seq<char>, Claim)>)
    ensures
        decoded_token(token, secret) == Ok::<Seq<(Seq<char>, Claim)>, Seq<char>>(m) ==> token_says(
            token,
            secret,
        ) == Ok::<Seq<(Seq<char>, Claim)>, JwtFault>(m),
        decoded_token(token, secret) == Err::<Seq<(Seq<char>, Claim)>, Seq<char>>(
            "InvalidSignature"@,
        ) ==> token_says(token, secret) == Err::<Seq<(Seq<char>, Claim)>, JwtFault>(
            JwtFault::Signature,
        ),
        decoded_token(token, secret) is Err ==> token_says(token, secret) is Err,
{
}

/// A claim may be missing or null; else it must have its type.
pub proof fn law_claims_may_be_missing(s: String, n: i64, v: Vec<Option<String>>)
    ensures
        is_text_or_absent(None) && is_text_or_absent(Some(ClaimValue::Null)) && is_text_or_absent(
            Some(ClaimValue::Text(s)),
        ),
        is_number_or_absent(None) && is_number_or_absent(Some(ClaimValue::Null))
            && is_number_or_absent(Some(ClaimValue::Number(Some(n)))),
        is_list_or_absent(None) && is_list_or_absent(Some(ClaimValue::Null)),
        (forall|i: int| 0 <= i < v@.len() ==> (#[trigger] v@[i]) is Some) ==> is_list_or_absent(
            Some(ClaimValue::List(v)),
        ),
        !is_text_or_absent(Some(ClaimValue::Other)) && !is_number_or_absent(
            Some(ClaimValue::Other),
        ) && !is_list_or_absent(Some(ClaimValue::Other)),
        !is_text_or_absent(Some(ClaimValue::Number(Some(n)))) && !is_number_or_absent(
            Some(ClaimValue::Text(s)),
        ) && !is_number_or_absent(Some(ClaimValue::Number(None))),
{
}

/// A token that says nothing but when it runs out is well typed.
pub proof fn law_expiry_is_enough(k: String, n: i64)
    requires
        k@ == "exp"@,
    ensures
        well_typed(seq![(k, ClaimValue::Number(Some(n)))]),
{
    let m = seq![(k, ClaimValue::Number(Some(n)))];
    assert(m.skip(1) =~= Seq::<(String, ClaimValue)>::empty());
    assert forall|x: Seq<char>| x != "exp"@ implies #[trigger] claim_of(m, x) is None by {
        assert(claim_of(m.skip(1), x) is None);
    }
    reveal_strlit("exp");
    reveal_strlit("sub");
    reveal_strlit("scope");
    reveal_strlit("permissions");
    reveal_strlit("server_uuid");
    reveal_strlit("user_uuid");
    reveal_strlit("unique_id");
    reveal_strlit("jti");
    reveal_strlit("backup_uuid");
    reveal_strlit("file_path");
    reveal_strlit("iss");
    reveal_strlit("iat");
    reveal_strlit("nbf");
    assert("exp"@.len() == 3 && "exp"@[0] == 'e');
    assert("sub"@[0] == 's' && "jti"@[0] == 'j' && "iss"@[0] == 'i' && "iat"@[0] == 'i' && "nbf"@[0]
        == 'n');
    assert("scope"@.len() == 5 && "permissions"@.len() == 11 && "server_uuid"@.len() == 11
        && "user_uuid"@.len() == 9 && "unique_id"@.len() == 9 && "backup_uuid"@.len() == 11
        && "file_path"@.len() == 9);
}

} // verus!
