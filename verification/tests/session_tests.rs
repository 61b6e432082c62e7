use tor_router::config::Settings;
use tor_router::session::{
    auth_outcome, check_session_at, claims_open_session, credentials_match, expiry_of,
    extract_session, generate_token, require_auth, session_claims, session_cookie, session_secret,
    token_at, AuthError, LAST_UTC_SECOND,
};

#[test]
fn session_token_from_cookie_header() {
    assert_eq!(extract_session("session=abc").as_deref(), Some("abc"));
    assert_eq!(extract_session("theme=dark;  session=tok.en ; x=1").as_deref(), Some("tok.en"));
    assert_eq!(extract_session("a=1; session=first; session=second").as_deref(), Some("first"));
    assert_eq!(extract_session("session=").as_deref(), Some(""));
}

#[test]
fn no_session_in_cookie_header() {
    assert_eq!(extract_session(""), None);
    assert_eq!(extract_session("a=1; b=2"), None);
    assert_eq!(extract_session("sessions=1"), None);
    assert_eq!(extract_session("xsession=1"), None);
}

#[test]
fn cookie_for_token() {
    assert_eq!(session_cookie("t0k"), "session=t0k; Path=/; HttpOnly; SameSite=Strict");
}

#[test]
fn login_checks_both_credentials() {
    let s = Settings::default();
    assert!(credentials_match(&s, "admin", "admin"));
    assert!(!credentials_match(&s, "admin", "x"));
    assert!(!credentials_match(&s, "root", "admin"));
}

#[test]
fn secret_is_hex_time_then_pid() {
    assert_eq!(session_secret(255, 16), "ff10");
    assert_eq!(session_secret(0, 0), "00");
    let nanos: u128 = 1_700_000_000_123_456_789;
    assert_eq!(session_secret(nanos, 4242), format!("{:x}{:x}", nanos, 4242u32));
}

#[test]
fn sessions_last_seven_days() {
    assert_eq!(expiry_of(1_700_000_000), Some(1_700_604_800));
    assert_eq!(expiry_of(LAST_UTC_SECOND - 604_800), Some(LAST_UTC_SECOND));
    assert_eq!(expiry_of(LAST_UTC_SECOND - 604_799), None);
    assert_eq!(expiry_of(i64::MAX), None);
}

#[test]
fn claims_text_of_admin_session() {
    assert_eq!(session_claims(1_700_604_800), "{\"sub\":\"admin\",\"exp\":1700604800}");
}

fn claims_of(token: &str, secret: &[u8]) -> serde_json::Map<String, serde_json::Value> {
    let mut validation = jsonwebtoken::Validation::default();
    validation.validate_exp = false;
    jsonwebtoken::decode::<serde_json::Map<String, serde_json::Value>>(
        token,
        &jsonwebtoken::DecodingKey::from_secret(secret),
        &validation,
    )
    .expect("a signed token")
    .claims
}

#[test]
fn token_carries_admin_claims() {
    let token = token_at(1_700_000_000, b"k3y").expect("a token");
    assert_eq!(token.split('.').count(), 3);
    let claims = claims_of(&token, b"k3y");
    assert_eq!(claims.get("sub").and_then(|v| v.as_str()), Some("admin"));
    assert_eq!(claims.get("exp").and_then(|v| v.as_u64()), Some(1_700_604_800));
    // The claims are written in this order.
    let body = token.split('.').nth(1).unwrap();
    let expected = jsonwebtoken::encode(
        &jsonwebtoken::Header::default(),
        &serde_json::value::RawValue::from_string(session_claims(1_700_604_800)).unwrap(),
        &jsonwebtoken::EncodingKey::from_secret(b"k3y"),
    )
    .unwrap();
    assert_eq!(Some(body), expected.split('.').nth(1));
    assert_eq!(token, expected);
}

#[test]
fn no_token_past_last_date() {
    assert_eq!(token_at(LAST_UTC_SECOND, b"k3y"), None);
}

#[test]
fn fresh_session_is_accepted() {
    let token = generate_token(b"secret").expect("a token");
    let cookie = format!("theme=dark; session={}", token);
    assert_eq!(require_auth(Some(&cookie), b"secret"), Ok(()));
}

#[test]
fn session_check_refusals() {
    let token = generate_token(b"secret").expect("a token");
    let cookie = format!("session={}", token);
    assert_eq!(require_auth(Some(&cookie), b"other"), Err(AuthError::InvalidSession));
    assert_eq!(require_auth(Some("session=garbage"), b"secret"), Err(AuthError::InvalidSession));
    assert_eq!(require_auth(Some("theme=dark"), b"secret"), Err(AuthError::NotAuthenticated));
    assert_eq!(require_auth(None, b"secret"), Err(AuthError::NotAuthenticated));
    // A token that expired long ago.
    let old = token_at(1_000_000, b"secret").expect("a token");
    assert_eq!(require_auth(Some(&format!("session={}", old)), b"secret"), Err(AuthError::InvalidSession));
}

#[test]
fn session_outcomes() {
    assert_eq!(auth_outcome(&None, true), Err(AuthError::NotAuthenticated));
    assert_eq!(auth_outcome(&Some("t".to_string()), true), Ok(()));
    assert_eq!(auth_outcome(&Some("t".to_string()), false), Err(AuthError::InvalidSession));
}

#[test]
fn login_cookie_reads_back() {
    let token = token_at(1_700_000_000, b"k3y").expect("a token");
    assert_eq!(extract_session(&session_cookie(&token)), Some(token.clone()));
    assert_eq!(extract_session(&format!("session={}", token)), Some(token));
}

#[test]
fn issued_token_accepted_until_expiry() {
    let token = token_at(1_700_000_000, b"k3y").expect("a token");
    let exp: u64 = 1_700_604_800;
    let sent = format!("session={}", token);
    let set = session_cookie(&token);
    assert_eq!(check_session_at(Some(&sent), b"k3y", 1_700_000_000), Ok(()));
    assert_eq!(check_session_at(Some(&set), b"k3y", exp), Ok(()));
    assert_eq!(check_session_at(Some(&sent), b"k3y", exp + 60), Ok(()));
    assert_eq!(check_session_at(Some(&sent), b"k3y", exp + 61), Err(AuthError::InvalidSession));
    assert_eq!(check_session_at(Some(&sent), b"other", 1_700_000_000), Err(AuthError::InvalidSession));
    assert_eq!(check_session_at(Some("a=b"), b"k3y", 0), Err(AuthError::NotAuthenticated));
    assert_eq!(check_session_at(None, b"k3y", 0), Err(AuthError::NotAuthenticated));
}

fn signed(claims: &str, secret: &[u8]) -> String {
    jsonwebtoken::encode(
        &jsonwebtoken::Header::default(),
        &serde_json::value::RawValue::from_string(claims.to_string()).unwrap(),
        &jsonwebtoken::EncodingKey::from_secret(secret),
    )
    .unwrap()
}

#[test]
fn signed_tokens_need_sub_and_whole_exp() {
    let cookie = |t: String| format!("session={}", t);
    let ok = signed("{\"sub\":\"x\",\"exp\":100}", b"s");
    assert_eq!(check_session_at(Some(&cookie(ok)), b"s", 100), Ok(()));
    let no_sub = signed("{\"exp\":100}", b"s");
    assert_eq!(check_session_at(Some(&cookie(no_sub)), b"s", 100), Err(AuthError::InvalidSession));
    let num_sub = signed("{\"sub\":1,\"exp\":100}", b"s");
    assert_eq!(check_session_at(Some(&cookie(num_sub)), b"s", 100), Err(AuthError::InvalidSession));
    let frac_exp = signed("{\"sub\":\"x\",\"exp\":100.5}", b"s");
    assert_eq!(check_session_at(Some(&cookie(frac_exp)), b"s", 100), Err(AuthError::InvalidSession));
    let neg_exp = signed("{\"sub\":\"x\",\"exp\":-1}", b"s");
    assert_eq!(check_session_at(Some(&cookie(neg_exp)), b"s", 0), Err(AuthError::InvalidSession));
    let no_exp = signed("{\"sub\":\"x\"}", b"s");
    assert_eq!(check_session_at(Some(&cookie(no_exp)), b"s", 0), Err(AuthError::InvalidSession));
}

#[test]
fn claims_and_leeway() {
    let c = Some((Some("admin".to_string()), Some(1000u64)));
    assert!(claims_open_session(&c, 0));
    assert!(claims_open_session(&c, 1060));
    assert!(!claims_open_session(&c, 1061));
    assert!(!claims_open_session(&Some((None, Some(1000))), 0));
    assert!(!claims_open_session(&Some((Some("a".to_string()), None)), 0));
    assert!(!claims_open_session(&None, 0));
    assert!(claims_open_session(&Some((Some("a".to_string()), Some(u64::MAX))), u64::MAX));
}
