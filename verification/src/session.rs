//! Panel sessions: the login check, the signed session token, the session
//! cookie and the check of a request's session.

use vstd::prelude::*;
use crate::config::Settings;
use crate::text::{
    cat, chars_of, copy_range, decimal, hex, is_ws, opt_view, string_from_chars, trim, trim_chars,
    trim_end, trim_start, u128_to_hex, u128_to_string,
};

verus! {

/// The secret that signs the session tokens of one run of the daemon: the
/// hexadecimal time of its start in nanoseconds, then its process id.
pub fn session_secret(nanos: u128, pid: u32) -> (r: String)
    ensures
        r@ == hex(nanos as nat) + hex(pid as nat),
{
    let a = u128_to_hex(nanos);
    let b = u128_to_hex(pid as u128);
    cat(a.as_str(), b.as_str())
}

/// How long a session lasts, in seconds: seven days.
pub const SESSION_LIFETIME_SECS: i64 = 604_800i64;

/// The last whole second a `chrono::DateTime<Utc>` can hold (the end of the
/// year 262142), in seconds since the epoch.
pub const LAST_UTC_SECOND: i64 = 8_210_266_876_799i64;

/// The expiry of a session opened at `now` (seconds since the epoch): a
/// session lifetime later, when that time can still be represented.
pub open spec fn session_expiry(now: i64) -> Option<i64> {
    if now + SESSION_LIFETIME_SECS <= LAST_UTC_SECOND {
        Some((now + SESSION_LIFETIME_SECS) as i64)
    } else {
        None
    }
}

/// The expiry of a session opened at `now`.
pub fn expiry_of(now: i64) -> (r: Option<i64>)
    ensures
        r == session_expiry(now),
{
    if now <= LAST_UTC_SECOND - SESSION_LIFETIME_SECS {
        Some(now + SESSION_LIFETIME_SECS)
    } else {
        None
    }
}

/// The claims of an administrator session expiring at `exp`, as JSON text.
pub open spec fn session_claims_text(exp: u64) -> Seq<char> {
    "{\"sub\":\"admin\",\"exp\":"@ + decimal(exp as nat) + "}"@
}

/// The claims of an administrator session expiring at `exp`.
pub fn session_claims(exp: u64) -> (r: String)
    ensures
        r@ == session_claims_text(exp),
{
    let n = u128_to_string(exp as u128);
    let a = cat("{\"sub\":\"admin\",\"exp\":", n.as_str());
    cat(a.as_str(), "}")
}

/// Whether `c` may stand in a JSON Web Token: a letter or digit of the
/// URL-safe base64 alphabet, `-`, `_`, or the `.` between the parts.
pub open spec fn is_jwt_char(c: char) -> bool {
    let u = c as u32;
    ||| 65 <= u <= 90
    ||| 97 <= u <= 122
    ||| 48 <= u <= 57
    ||| u == 45
    ||| u == 95
    ||| u == 46
}

/// Whether every character of `t` may stand in a JSON Web Token.
pub open spec fn jwt_text(t: Seq<char>) -> bool {
    forall|i: int| 0 <= i < t.len() ==> #[trigger] is_jwt_char(t[i])
}

/// The JSON Web Token that `jsonwebtoken::encode` makes with the default
/// header (HS256) of the claims written as the JSON text `claims`, signed
/// with the HMAC key `secret`.
pub uninterp spec fn hs256_token(claims: Seq<char>, secret: Seq<u8>) -> Seq<char>;

/// What `jsonwebtoken::decode` with `DecodingKey::from_secret(secret)` and
/// the default validation with its expiry check off gives back for `token`:
/// `None` when it refuses the token (a signature that is not HS256 under
/// the secret, or claims that are no JSON object with a numeric `exp`);
/// else the `sub` claim when it is a string, and the `exp` claim when it is
/// a whole number that fits a `u64`.
pub uninterp spec fn hs256_claims(token: Seq<char>, secret: Seq<u8>) -> Option<
    (Option<Seq<char>>, Option<u64>),
>;

/// Whether `token` carries a valid HS256 signature under `secret` and
/// claims that jsonwebtoken reads.
pub open spec fn hs256_verifies(token: Seq<char>, secret: Seq<u8>) -> bool {
    hs256_claims(token, secret) is Some
}

/// The claims a session's token carries, as values.
pub open spec fn claims_view(c: Option<(Option<String>, Option<u64>)>) -> Option<
    (Option<Seq<char>>, Option<u64>),
> {
    match c {
        Some((sub, exp)) => Some((opt_view(sub), exp)),
        None => None,
    }
}

/// `jsonwebtoken::encode` with the default header and
/// `EncodingKey::from_secret(secret)`, of the claims given as JSON text that
/// is written out verbatim (a `serde_json::value::RawValue`). A token it
/// returns is `hs256_token` of the text and the secret; like every token
/// `encode` makes, it is three URL-safe base64 parts joined by `.`.
/// `RawValue::from_string` refuses only text that is no valid JSON, and
/// `encode` with an HMAC key and the HS256 header cannot fail (the key
/// matches the algorithm, serializing a raw value and a header cannot fail,
/// HMAC signing cannot fail); so for the claims text of a session, which is
/// valid JSON, a token comes back, and `decode` with the same key reads
/// those claims back from it. For other texts, when none comes back is not
/// stated.
#[verifier::external_body]
fn encode_hs256(claims: &str, secret: &[u8]) -> (r: Option<String>)
    ensures
        r matches Some(t) ==> t@ == hs256_token(claims@, secret@) && jwt_text(t@),
        (exists|e: u64| #[trigger] session_claims_text(e) == claims@) ==> r is Some,
        forall|e: u64|
            #[trigger] session_claims_text(e) == claims@ ==> (r matches Some(t) ==> hs256_claims(
                t@,
                secret@,
            ) == Some((Some("admin"@), Some(e)))),
{
    let raw = serde_json::value::RawValue::from_string(claims.to_string()).ok()?;
    let key = jsonwebtoken::EncodingKey::from_secret(secret);
    jsonwebtoken::encode(&jsonwebtoken::Header::default(), &raw, &key).ok()
}

/// `jsonwebtoken::decode` of `token` with `DecodingKey::from_secret(secret)`
/// and the default validation (HS256, an `exp` claim required) with its
/// expiry check turned off, so that the clock is not read; the claims are
/// read as a JSON object, of which the `sub` string and the whole-number
/// `exp` are handed back. The result is `hs256_claims` of the token and the
/// secret.
#[verifier::external_body]
fn decode_hs256(token: &str, secret: &[u8]) -> (r: Option<(Option<String>, Option<u64>)>)
    ensures
        claims_view(r) == hs256_claims(token@, secret@),
{
    let key = jsonwebtoken::DecodingKey::from_secret(secret);
    let mut validation = jsonwebtoken::Validation::default();
    validation.validate_exp = false;
    let data = jsonwebtoken::decode::<serde_json::Map<String, serde_json::Value>>(token, &key, &validation).ok()?;
    let sub = data.claims.get("sub").and_then(|v| v.as_str()).map(|v| v.to_string());
    let exp = data.claims.get("exp").and_then(|v| v.as_u64());
    Some((sub, exp))
}

/// How far past its expiry a token is still accepted, in seconds (the
/// leeway of jsonwebtoken's default validation).
pub const CLOCK_LEEWAY_SECS: u64 = 60u64;

/// Whether the claims a token was read back with open a session at `now`
/// (seconds since the epoch): a string `sub`, and an `exp` that `now` has
/// not passed by more than the leeway.
pub open spec fn claims_accepted(c: Option<(Option<Seq<char>>, Option<u64>)>, now: u64) -> bool {
    match c {
        Some((Some(_), Some(exp))) => now <= exp + CLOCK_LEEWAY_SECS,
        _ => false,
    }
}

/// Whether the claims open a session at `now`.
pub fn claims_open_session(c: &Option<(Option<String>, Option<u64>)>, now: u64) -> (r: bool)
    ensures
        r == claims_accepted(claims_view(*c), now),
{
    match c {
        Some((Some(_), Some(exp))) => now <= CLOCK_LEEWAY_SECS || *exp >= now - CLOCK_LEEWAY_SECS,
        _ => false,
    }
}

/// The session check of a request whose `Cookie` header is `cookie`, at the
/// time `now`: unauthenticated without a session token; else granted
/// exactly when the token verifies under `secret` and its claims open a
/// session at `now`.
pub open spec fn session_check(cookie: Option<Seq<char>>, secret: Seq<u8>, now: u64) -> Result<(), AuthError> {
    match session_of_header(cookie) {
        None => Err(AuthError::NotAuthenticated),
        Some(t) => if claims_accepted(hs256_claims(t, secret), now) {
            Ok(())
        } else {
            Err(AuthError::InvalidSession)
        },
    }
}

/// The session token of a session opened at `now`, signed with `secret`:
/// none when its expiry cannot be represented; else the token of its
/// claims, which the session check accepts, under the same secret, at any
/// time up to its expiry.
pub fn token_at(now: i64, secret: &[u8]) -> (r: Option<String>)
    ensures
        session_expiry(now) is None ==> r is None,
        session_expiry(now) matches Some(exp) ==> (r matches Some(t) && t@ == hs256_token(
            session_claims_text(exp as u64),
            secret@,
        ) && hs256_claims(t@, secret@) == Some((Some("admin"@), Some(exp as u64))) && jwt_text(
            t@,
        ) && forall|later: u64|
            later <= exp as u64 ==> #[trigger] session_check(
                Some(cookie_text(t@)),
                secret@,
                later,
            ) == Ok::<(), AuthError>(()) && session_check(
                Some("session="@ + t@),
                secret@,
                later,
            ) == Ok::<(), AuthError>(())),
{
    match expiry_of(now) {
        None => None,
        Some(exp) => {
            let claims = session_claims(exp as u64);
            proof {
                assert(session_claims_text(exp as u64) == claims@);
            }
            let r = encode_hs256(claims.as_str(), secret);
            proof {
                let t = r->0@;
                assert forall|later: u64| later <= exp as u64 implies #[trigger] session_check(
                    Some(cookie_text(t)),
                    secret@,
                    later,
                ) == Ok::<(), AuthError>(()) && session_check(
                    Some("session="@ + t),
                    secret@,
                    later,
                ) == Ok::<(), AuthError>(()) by {
                    law_login_session_accepted(t, secret@, exp as u64, later);
                }
            }
            r
        },
    }
}

/// A session token for a session opened now by the system clock (whole
/// seconds since the epoch, zero before it), signed with `secret`: for the
/// clock's reading `now` (not stated), what `token_at` gives; none when the
/// reading lies beyond what an `i64` holds.
pub fn generate_token(secret: &[u8]) -> (r: Option<String>)
    ensures
        exists|now: i64|
            #![trigger session_expiry(now)]
            now >= 0 && match session_expiry(now) {
                None => r is None,
                Some(exp) => r matches Some(t) && t@ == hs256_token(
                    session_claims_text(exp as u64),
                    secret@,
                ) && hs256_claims(t@, secret@) == Some((Some("admin"@), Some(exp as u64)))
                    && jwt_text(t@),
            },
{
    let secs = crate::tor::whole_seconds(crate::tor::unix_nanos_now());
    if secs > 9_223_372_036_854_775_807u64 {
        proof {
            assert(session_expiry(i64::MAX) is None);
        }
        return None;
    }
    let now = secs as i64;
    let r = token_at(now, secret);
    proof {
        assert(now >= 0 && match session_expiry(now) {
            None => r is None,
            Some(exp) => r matches Some(t) && t@ == hs256_token(
                session_claims_text(exp as u64),
                secret@,
            ) && hs256_claims(t@, secret@) == Some((Some("admin"@), Some(exp as u64)))
                && jwt_text(t@),
        });
    }
    r
}

/// Why a request is refused a session.
#[derive(PartialEq, Eq, Structural, Debug)]
pub enum AuthError {
    /// It carries no session token.
    NotAuthenticated,
    /// Its session token is not accepted.
    InvalidSession,
}

/// The session token carried by a `Cookie` header, if any.
pub open spec fn session_of_header(cookie: Option<Seq<char>>) -> Option<Seq<char>> {
    match cookie {
        Some(c) => session_in(c),
        None => None,
    }
}

/// The outcome of a session check, given the session token found and
/// whether it was accepted.
pub open spec fn auth_result(session: Option<Seq<char>>, accepted: bool) -> Result<(), AuthError> {
    match session {
        None => Err(AuthError::NotAuthenticated),
        Some(_) => if accepted {
            Ok(())
        } else {
            Err(AuthError::InvalidSession)
        },
    }
}

/// The outcome of a session check.
pub fn auth_outcome(session: &Option<String>, accepted: bool) -> (r: Result<(), AuthError>)
    ensures
        r == auth_result(opt_view(*session), accepted),
{
    match session {
        None => Err(AuthError::NotAuthenticated),
        Some(_) => if accepted {
            Ok(())
        } else {
            Err(AuthError::InvalidSession)
        },
    }
}

/// The cookie header as a value.
pub open spec fn header_view(cookie: Option<&str>) -> Option<Seq<char>> {
    match cookie {
        Some(c) => Some(c@),
        None => None,
    }
}

/// The session check of a request whose `Cookie` header is `cookie` (none
/// when absent or not text), at the time `now`.
pub fn check_session_at(cookie: Option<&str>, secret: &[u8], now: u64) -> (r: Result<(), AuthError>)
    ensures
        r == session_check(header_view(cookie), secret@, now),
{
    let session = match cookie {
        Some(c) => extract_session(c),
        None => None,
    };
    let accepted = match &session {
        Some(t) => {
            let claims = decode_hs256(t.as_str(), secret);
            claims_open_session(&claims, now)
        },
        None => false,
    };
    auth_outcome(&session, accepted)
}

/// The session check of a request whose `Cookie` header is `cookie`, by the
/// system clock (whole seconds since the epoch, zero before it; its reading
/// is not stated): unauthenticated without a session token; granted only
/// when that token verifies under `secret` and carries an `exp` the clock
/// has not passed by more than the leeway; refused as an invalid session
/// otherwise.
pub fn require_auth(cookie: Option<&str>, secret: &[u8]) -> (r: Result<(), AuthError>)
    ensures
        exists|now: u64| r == #[trigger] session_check(header_view(cookie), secret@, now),
        session_of_header(header_view(cookie)) is None ==> r == Err::<(), AuthError>(
            AuthError::NotAuthenticated,
        ),
        r is Ok ==> (session_of_header(header_view(cookie)) matches Some(t) && hs256_verifies(
            t,
            secret@,
        )),
{
    let now = crate::tor::whole_seconds(crate::tor::unix_nanos_now());
    check_session_at(cookie, secret, now)
}

/// Whether a login with `user` and `pass` names the administrator.
pub fn credentials_match(settings: &Settings, user: &str, pass: &str) -> (r: bool)
    ensures
        r == (user@ == settings.admin_username@ && pass@ == settings.admin_password@),
{
    crate::text::str_eq(user, settings.admin_username.as_str()) && crate::text::str_eq(
        pass,
        settings.admin_password.as_str(),
    )
}

/// The `Set-Cookie` value that opens a session with `token`.
pub fn session_cookie(token: &str) -> (r: String)
    ensures
        r@ == cookie_text(token@),
{
    let a = cat("session=", token);
    cat(a.as_str(), "; Path=/; HttpOnly; SameSite=Strict")
}

/// The index of the first `c` in `s`, or its length when there is none.
pub open spec fn index_of(s: Seq<char>, c: char) -> int
    decreases s.len(),
{
    if s.len() == 0 {
        0
    } else if s[0] == c {
        0
    } else {
        1 + index_of(s.subrange(1, s.len() as int), c)
    }
}

/// The session token in one `;`-separated part of a cookie header: the
/// part, trimmed, must start with `session=`.
pub open spec fn session_in_part(part: Seq<char>) -> Option<Seq<char>> {
    let t = trim(part);
    if t.len() >= 8 && t.subrange(0, 8) == "session="@ {
        Some(t.subrange(8, t.len() as int))
    } else {
        None
    }
}

/// The session token of the first part of the cookie header `s` that
/// carries one.
pub open spec fn session_in(s: Seq<char>) -> Option<Seq<char>>
    decreases s.len(),
{
    let k = index_of(s, ';');
    match session_in_part(s.subrange(0, k)) {
        Some(t) => Some(t),
        None => if k >= s.len() || k < 0 {
            None
        } else {
            session_in(s.subrange(k + 1, s.len() as int))
        },
    }
}

proof fn lemma_index_of(s: Seq<char>, c: char)
    ensures
        0 <= index_of(s, c) <= s.len(),
        index_of(s, c) < s.len() ==> s[index_of(s, c)] == c,
        forall|i: int| 0 <= i < index_of(s, c) ==> s[i] != c,
    decreases s.len(),
{
    if s.len() > 0 && s[0] != c {
        let t = s.subrange(1, s.len() as int);
        lemma_index_of(t, c);
        assert forall|i: int| 0 <= i < index_of(s, c) implies s[i] != c by {
            if i > 0 {
                assert(s[i] == t[i - 1]);
            }
        }
    }
}

proof fn lemma_index_of_is(s: Seq<char>, c: char, k: int)
    requires
        0 <= k <= s.len(),
        k < s.len() ==> s[k] == c,
        forall|i: int| 0 <= i < k ==> s[i] != c,
    ensures
        index_of(s, c) == k,
    decreases s.len(),
{
    if s.len() > 0 && s[0] != c {
        let t = s.subrange(1, s.len() as int);
        lemma_index_of_is(t, c, k - 1);
    }
}

fn session_of_part(part: &Vec<char>) -> (r: Option<Vec<char>>)
    ensures
        match r {
            Some(t) => session_in_part(part@) == Some(t@),
            None => session_in_part(part@) is None,
        },
{
    let t = trim_chars(part);
    let prefix: Vec<char> = chars_of("session=");
    if t.len() >= 8 {
        let head = copy_range(&t, 0, 8);
        if crate::text::chars_eq(&head, &prefix) {
            return Some(copy_range(&t, 8, t.len()));
        }
    }
    None
}

/// The session token in a `Cookie` header: the value after `session=` in
/// its first `;`-separated part that starts with that, once trimmed.
pub fn extract_session(cookie: &str) -> (r: Option<String>)
    ensures
        match r {
            Some(t) => session_in(cookie@) == Some(t@),
            None => session_in(cookie@) is None,
        },
{
    let v = chars_of(cookie);
    let n = v.len();
    let mut start: usize = 0;
    proof {
        assert(v@.subrange(0, n as int) =~= v@);
    }
    loop
        invariant
            n == v.len(),
            v@ == cookie@,
            start <= n,
            session_in(v@) == session_in(v@.subrange(start as int, n as int)),
        decreases n - start,
    {
        let ghost rest = v@.subrange(start as int, n as int);
        let mut j = start;
        while j < n && v[j] != ';'
            invariant
                n == v.len(),
                start <= j <= n,
                forall|i: int| start <= i < j ==> v@[i] != ';',
            decreases n - j,
        {
            j = j + 1;
        }
        proof {
            assert forall|i: int| 0 <= i < j - start implies rest[i] != ';' by {
                assert(rest[i] == v@[start + i]);
            }
            lemma_index_of_is(rest, ';', j - start);
            assert(rest.subrange(0, j - start) =~= v@.subrange(start as int, j as int));
        }
        let part = copy_range(&v, start, j);
        match session_of_part(&part) {
            Some(t) => {
                return Some(string_from_chars(t.as_slice()));
            },
            None => {
                if j >= n {
                    return None;
                }
                proof {
                    assert(rest.subrange(j - start + 1, rest.len() as int) =~= v@.subrange(j + 1, n as int));
                }
                start = j + 1;
            },
        }
    }
}

/// The text of the cookie that opens a session with token `t`.
pub open spec fn cookie_text(t: Seq<char>) -> Seq<char> {
    "session="@ + t + "; Path=/; HttpOnly; SameSite=Strict"@
}

proof fn lemma_session_part(t: Seq<char>)
    requires
        t.len() > 0 ==> !is_ws(t.last()),
    ensures
        session_in_part("session="@ + t) == Some(t),
{
    reveal_strlit("session=");
    let s = "session="@ + t;
    assert(!is_ws(s[0]));
    assert(trim_start(s) == s);
    assert(!is_ws(s.last()));
    assert(trim_end(s) == s);
    assert(s.subrange(0, 8) =~= "session="@);
    assert(s.subrange(8, s.len() as int) =~= t);
}

/// What a login sets is what the session check reads back: for a token
/// without `;` that does not end in white space, both the cookie a login
/// sets and the `session=` pair a browser returns carry that token.
pub proof fn law_cookie_read_back(t: Seq<char>)
    requires
        forall|i: int| 0 <= i < t.len() ==> t[i] != ';',
        t.len() > 0 ==> !is_ws(t.last()),
    ensures
        session_in(cookie_text(t)) == Some(t),
        session_in("session="@ + t) == Some(t),
{
    reveal_strlit("session=");
    reveal_strlit("; Path=/; HttpOnly; SameSite=Strict");
    lemma_session_part(t);
    let pair = "session="@ + t;
    assert forall|i: int| 0 <= i < pair.len() implies pair[i] != ';' by {
        if i >= 8 {
            assert(pair[i] == t[i - 8]);
        }
    }
    lemma_index_of_is(pair, ';', pair.len() as int);
    assert(pair.subrange(0, pair.len() as int) =~= pair);
    let c = cookie_text(t);
    assert(c == pair + "; Path=/; HttpOnly; SameSite=Strict"@);
    assert forall|i: int| 0 <= i < pair.len() implies c[i] != ';' by {
        assert(c[i] == pair[i]);
    }
    assert(c[pair.len() as int] == ';');
    lemma_index_of_is(c, ';', pair.len() as int);
    assert(c.subrange(0, pair.len() as int) =~= pair);
}

/// A token a login issues opens sessions: a token that verifies under
/// `secret` with the administrator's claims expiring at `exp`, written in
/// token characters, is accepted by the session check under that secret at
/// any time up to `exp`, both in the cookie a login sets and in the
/// `session=` pair a browser returns.
pub proof fn law_login_session_accepted(t: Seq<char>, secret: Seq<u8>, exp: u64, now: u64)
    requires
        hs256_claims(t, secret) == Some((Some("admin"@), Some(exp))),
        jwt_text(t),
        now <= exp,
    ensures
        session_check(Some(cookie_text(t)), secret, now) == Ok::<(), AuthError>(()),
        session_check(Some("session="@ + t), secret, now) == Ok::<(), AuthError>(()),
{
    assert forall|i: int| 0 <= i < t.len() implies t[i] != ';' by {
        assert(is_jwt_char(t[i]));
    }
    if t.len() > 0 {
        assert(is_jwt_char(t[t.len() - 1]));
    }
    law_cookie_read_back(t);
}

} // verus!
