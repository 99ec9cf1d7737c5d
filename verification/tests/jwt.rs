use roost::error::AppError;
use roost::jwt::claims::{
    accept_claims, jwt_error_message, parse_token, read_claims, sign_token, ClaimValue, JwtFault,
};
use roost::json::Json;
use roost::jwt::store::TokenStore;

const SECRET: &[u8] = b"daemon-secret";
const NOW: i64 = 1_700_000_000;
const NOW_MS: i64 = 1_700_000_000_000;

fn text(s: &str) -> Json {
    Json::Str(s.into())
}

fn number(n: i64) -> Json {
    Json::Number(n.to_string())
}

fn claims(list: Vec<(&str, Json)>) -> Json {
    Json::Object(list.into_iter().map(|(k, v)| (k.to_string(), v)).collect())
}

fn websocket(iat: i64, exp: i64) -> Json {
    claims(vec![
        ("user_uuid", text("user-1")),
        ("exp", number(exp)),
        ("iat", number(iat)),
        ("jti", text("session-1")),
        ("permissions", Json::Array(vec![text("websocket.connect")])),
        ("server_uuid", text("936da01f-9abd-4d9d-80c7-02af85c822a8")),
    ])
}

/// A token of the header `{"alg":"HS256","typ":"JWT"}` and this payload, in base64.
fn signed(payload: &str) -> String {
    let message = format!("eyJhbGciOiJIUzI1NiIsInR5cCI6IkpXVCJ9.{payload}");
    let key = jsonwebtoken::EncodingKey::from_secret(SECRET);
    let signature =
        jsonwebtoken::crypto::sign(message.as_bytes(), &key, jsonwebtoken::Algorithm::HS256);
    format!("{message}.{}", signature.unwrap())
}

fn refusal(r: Result<roost::jwt::claims::Claims, AppError>) -> String {
    match r {
        Err(AppError::Unauthorized(m)) => m,
        other => panic!("{other:?}"),
    }
}

#[test]
fn signed_tokens_say_what_was_signed() {
    let token = sign_token(&websocket(NOW, NOW + 60), SECRET).unwrap();
    let mut tokens = TokenStore::with_ttl(60);
    let c = parse_token(&token, SECRET, &mut tokens, NOW - 10, NOW_MS).unwrap();
    assert_eq!(c.jti.as_deref(), Some("session-1"));
    assert_eq!(c.server_uuid(), Some("936da01f-9abd-4d9d-80c7-02af85c822a8"));
    assert_eq!(c.iat, Some(NOW));
    assert_eq!(c.exp, NOW + 60);
    assert!(c.has_permission("websocket.connect"));
    assert!(!c.has_permission("control.start"));
}

#[test]
fn tokens_of_another_secret_are_refused() {
    let token = sign_token(&websocket(NOW, NOW + 60), b"other").unwrap();
    let mut tokens = TokenStore::with_ttl(60);
    let r = parse_token(&token, SECRET, &mut tokens, NOW - 10, NOW_MS);
    assert_eq!(refusal(r), "jwt signature invalid");
}

#[test]
fn texts_that_are_no_tokens_are_refused() {
    let mut tokens = TokenStore::with_ttl(60);
    let r = parse_token("not-a-token", SECRET, &mut tokens, 0, NOW_MS);
    assert_eq!(refusal(r), "jwt malformed");
}

#[test]
fn expired_tokens_are_refused() {
    let token = sign_token(&websocket(NOW - 100, NOW - 1), SECRET).unwrap();
    let mut tokens = TokenStore::with_ttl(60);
    let r = parse_token(&token, SECRET, &mut tokens, NOW - 200, NOW_MS);
    assert_eq!(refusal(r), "jwt expired");
    let token = sign_token(&websocket(NOW - 100, NOW), SECRET).unwrap();
    assert!(parse_token(&token, SECRET, &mut tokens, NOW - 200, NOW_MS).is_ok());
}

#[test]
fn tokens_from_before_the_start_are_refused() {
    let token = sign_token(&websocket(NOW - 100, NOW + 60), SECRET).unwrap();
    let mut tokens = TokenStore::with_ttl(60);
    let r = parse_token(&token, SECRET, &mut tokens, NOW - 50, NOW_MS);
    assert_eq!(refusal(r), "jwt created too far in past (denylist)");
}

#[test]
fn revoked_sessions_and_users_are_refused() {
    let token = sign_token(&websocket(NOW, NOW + 60), SECRET).unwrap();
    let mut tokens = TokenStore::with_ttl(60);
    tokens.deny_jti("session-1", NOW + 1, NOW);
    let r = parse_token(&token, SECRET, &mut tokens, NOW - 50, NOW_MS);
    assert_eq!(refusal(r), "jwt token was revoked");

    let mut tokens = TokenStore::with_ttl(60);
    tokens.deny_user("user-1", NOW + 1, NOW);
    let r = parse_token(&token, SECRET, &mut tokens, NOW - 50, NOW_MS);
    assert_eq!(refusal(r), "jwt token was revoked");
}

#[test]
fn download_tokens_are_used_once() {
    let list = claims(vec![
        ("exp", number(NOW + 60)),
        ("file_path", text("/a.txt")),
        ("server_uuid", text("936da01f-9abd-4d9d-80c7-02af85c822a8")),
        ("unique_id", text("once")),
    ]);
    let token = sign_token(&list, SECRET).unwrap();
    let mut tokens = TokenStore::with_ttl(60);
    let c = parse_token(&token, SECRET, &mut tokens, 0, NOW_MS).unwrap();
    assert_eq!(c.file_path.as_deref(), Some("/a.txt"));
    let r = parse_token(&token, SECRET, &mut tokens, 0, NOW_MS);
    assert_eq!(refusal(r), "jwt token was revoked");
}

#[test]
fn claims_of_a_wrong_type_are_refused() {
    let list = vec![("exp".to_string(), ClaimValue::Text("soon".into()))];
    assert!(read_claims(&list).is_none());
    let mut tokens = TokenStore::with_ttl(60);
    assert_eq!(refusal(accept_claims(Ok(list), &mut tokens, 0, NOW_MS)), "jwt invalid");
    let token = sign_token(&claims(vec![("exp", text("soon"))]), SECRET).unwrap();
    assert_eq!(refusal(parse_token(&token, SECRET, &mut tokens, 0, NOW_MS)), "jwt invalid");
}

#[test]
fn a_repeated_claim_is_refused() {
    let mut tokens = TokenStore::with_ttl(60);
    // {"exp":1700000060,"scope":"transfer"}
    let token = signed("eyJleHAiOjE3MDAwMDAwNjAsInNjb3BlIjoidHJhbnNmZXIifQ");
    let c = parse_token(&token, SECRET, &mut tokens, 0, NOW_MS).unwrap();
    assert!(c.has_scope("transfer"));
    // {"exp":1700000060,"scope":"websocket","scope":"transfer"}
    let token = signed("eyJleHAiOjE3MDAwMDAwNjAsInNjb3BlIjoid2Vic29ja2V0Iiwic2NvcGUiOiJ0cmFuc2ZlciJ9");
    assert_eq!(refusal(parse_token(&token, SECRET, &mut tokens, 0, NOW_MS)), "jwt invalid");
}

#[test]
fn all_kinds_of_claims_are_signed() {
    let list = claims(vec![
        ("zone", Json::Bool(true)),
        ("exp", number(NOW + 60)),
        ("nested", claims(vec![("a", number(-1))])),
        ("sub", Json::Null),
    ]);
    let token = sign_token(&list, SECRET).unwrap();
    let mut tokens = TokenStore::with_ttl(60);
    let c = parse_token(&token, SECRET, &mut tokens, 0, NOW_MS).unwrap();
    assert_eq!(c.exp, NOW + 60);
    assert!(c.sub.is_none());
}

#[test]
fn a_list_is_no_subject() {
    let list = claims(vec![("exp", number(NOW + 60)), ("sub", Json::Array(vec![text("a")]))]);
    let token = sign_token(&list, SECRET).unwrap();
    let mut tokens = TokenStore::with_ttl(60);
    assert_eq!(refusal(parse_token(&token, SECRET, &mut tokens, 0, NOW_MS)), "jwt invalid");
}

#[test]
fn claims_that_cannot_be_signed() {
    assert!(sign_token(&Json::Array(vec![]), SECRET).is_ok());
    match sign_token(&Json::Number("x".into()), SECRET) {
        Err(AppError::Internal(m)) => assert!(m.starts_with("jwt sign failed: expected value")),
        other => panic!("{other:?}"),
    }
}

#[test]
fn used_ids_are_forgotten_after_their_lifetime() {
    let mut tokens = TokenStore::with_ttl(60);
    assert!(tokens.claim("a", 1_000));
    assert!(!tokens.claim("a", 2_000));
    assert!(tokens.claim("b", 2_000));
    assert!(tokens.claim("a", 2_000_000));
}

#[test]
fn revocations_concern_tokens_issued_before_them() {
    let mut tokens = TokenStore::with_ttl(60);
    tokens.deny_user("u", 100, 100);
    assert!(tokens.is_user_denied("u", 99));
    assert!(!tokens.is_user_denied("u", 101));
    assert!(!tokens.is_user_denied("v", 99));
    tokens.deny_jti("s", 100, 100);
    assert!(tokens.is_jti_denied("s", 99));
    assert!(!tokens.is_jti_denied("t", 99));
}

#[test]
fn faults_and_their_messages() {
    assert_eq!(jwt_error_message(JwtFault::Expired), "jwt expired");
    assert_eq!(jwt_error_message(JwtFault::Signature), "jwt signature invalid");
    assert_eq!(jwt_error_message(JwtFault::Malformed), "jwt malformed");
    assert_eq!(jwt_error_message(JwtFault::Issuer), "jwt invalid issuer");
    assert_eq!(jwt_error_message(JwtFault::Audience), "jwt invalid audience");
    assert_eq!(jwt_error_message(JwtFault::Immature), "jwt not valid yet");
    assert_eq!(jwt_error_message(JwtFault::Other), "jwt invalid");
}
