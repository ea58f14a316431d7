use vstd::prelude::*;
use argon2::PasswordHasher;
use argon2::PasswordVerifier;
use crate::text::chars_of;
use crate::text::string_from;
use crate::text::owned;
use crate::text::has_prefix;
use crate::text::slice_chars;
use crate::text::concat;
use crate::text::trim;
use crate::text::split_on;
use crate::text::find_char;
use crate::text::chars_eq;
use crate::text::trim_ws;
use crate::text::starts_with;
use crate::text::index_of;
use crate::text::split_char;
use crate::crypto::to_hex;
use crate::crypto::hex_lower;
use crate::crypto::lemma_hex_len;
use crate::cms::models::UserRole;

verus! {

// ───────────────────────── passwords ─────────────────────────

/// Why a password could not be hashed or checked.
#[derive(Debug, Clone, PartialEq, Eq)]
pub enum PasswordError {
    /// Hashing failed; the hasher's own words.
    Hash(String),
    /// The stored hash is no PHC string; the parser's own words.
    Parse(String),
}

impl PasswordError {
    /// `Hash: ...` or `Parse: ...`.
    pub fn message(&self) -> (r: String)
        ensures
            r@ == match self {
                PasswordError::Hash(m) => "Hash: "@ + m@,
                PasswordError::Parse(m) => "Parse: "@ + m@,
            },
    {
        match self {
            PasswordError::Hash(m) => string_from(&concat(&chars_of("Hash: "), &chars_of(m.as_str()))),
            PasswordError::Parse(m) => string_from(&concat(&chars_of("Parse: "), &chars_of(m.as_str()))),
        }
    }
}

/// What `PasswordHash::new` says of a PHC string: `None` when it parses,
/// else the error's text.
pub uninterp spec fn phc_parse_error(phc: Seq<char>) -> Option<Seq<char>>;

/// Whether Argon2, with the parameters and salt that a parsed PHC string
/// carries, accepts `password` for it.
pub uninterp spec fn argon2_accepts(password: Seq<char>, phc: Seq<char>) -> bool;

/// Calls `Argon2::default().hash_password` (a fresh random salt) and
/// renders the hash as a PHC string. Claimed: a hash it returns parses and
/// accepts the same password, as the crate's documentation shows. The hash
/// itself, which rests on the salt, and the error text are left unsaid.
#[verifier::external_body]
fn argon2_hash(password: &str) -> (r: Result<String, String>)
    ensures
        r matches Ok(h) ==> phc_parse_error(h@) is None && argon2_accepts(password@, h@),
{
    match argon2::Argon2::default().hash_password(password.as_bytes()) {
        Ok(h) => Ok(h.to_string()),
        Err(e) => Err(e.to_string()),
    }
}

/// Calls `PasswordHash::new(hash)` and, when it parses,
/// `Argon2::default().verify_password(password, &parsed).is_ok()`.
/// Claimed: the outcome is the named parse result and acceptance.
#[verifier::external_body]
fn argon2_verify(password: &str, hash: &str) -> (r: Result<bool, String>)
    ensures
        match r {
            Ok(b) => phc_parse_error(hash@) is None && b == argon2_accepts(password@, hash@),
            Err(m) => phc_parse_error(hash@) == Some(m@),
        },
{
    match argon2::PasswordHash::new(hash) {
        Ok(parsed) => Ok(argon2::Argon2::default().verify_password(password.as_bytes(), &parsed).is_ok()),
        Err(e) => Err(e.to_string()),
    }
}

/// What `verify_password` returns for a password and a stored hash.
pub open spec fn password_check(password: Seq<char>, hash: Seq<char>) -> Result<bool, Seq<char>> {
    match phc_parse_error(hash) {
        Some(m) => Err(m),
        None => Ok(argon2_accepts(password, hash)),
    }
}

/// What `hash_password` makes of the hasher's outcome: the PHC string as
/// it came, or the hasher's error text as a `PasswordError::Hash`.
pub fn hash_result(outcome: Result<String, String>) -> (r: Result<String, PasswordError>)
    ensures
        match outcome {
            Ok(h) => r matches Ok(k) && k@ == h@,
            Err(m) => r matches Err(PasswordError::Hash(k)) && k@ == m@,
        },
{
    match outcome {
        Ok(h) => Ok(h),
        Err(e) => Err(PasswordError::Hash(e)),
    }
}

/// Hashes a password with Argon2 and a random salt. A hash it returns is
/// one that `verify_password` accepts the same password for; a failure of
/// the hasher (its random salt, its memory, a password too long for it)
/// comes back as `PasswordError::Hash`.
pub fn hash_password(password: &str) -> (r: Result<String, PasswordError>)
    ensures
        r matches Ok(h) ==> password_check(password@, h@) == Ok::<bool, Seq<char>>(true),
        r is Err ==> r->Err_0 is Hash,
{
    hash_result(argon2_hash(password))
}

/// Checks a password against a stored PHC string.
pub fn verify_password(password: &str, hash: &str) -> (r: Result<bool, PasswordError>)
    ensures
        match r {
            Ok(b) => password_check(password@, hash@) == Ok::<bool, Seq<char>>(b),
            Err(PasswordError::Parse(m)) => password_check(password@, hash@) == Err::<bool, Seq<char>>(m@),
            Err(PasswordError::Hash(_)) => false,
        },
{
    match argon2_verify(password, hash) {
        Ok(b) => Ok(b),
        Err(m) => Err(PasswordError::Parse(m)),
    }
}

// ───────────────────────── sessions ─────────────────────────

/// Calls `rand::random::<[u8; 32]>()` (the thread-local generator).
/// Claimed: 32 bytes; which ones is chance.
#[verifier::external_body]
fn random_bytes32() -> (r: Vec<u8>)
    ensures
        r@.len() == 32,
{
    rand::random::<[u8; 32]>().to_vec()
}

/// A fresh session token: 32 random bytes in lower-case hex.
pub fn generate_session_token() -> (r: String)
    ensures
        r@.len() == 64,
        exists|b: Seq<u8>| b.len() == 32 && r@ == hex_lower(b),
{
    let b = random_bytes32();
    let t = to_hex(b.as_slice());
    proof {
        lemma_hex_len(b@);
    }
    t
}

// ───────────────────────── request authentication ─────────────────────────

/// A signed-in user of the review server.
#[derive(Debug, Clone)]
pub struct AuthUser {
    pub id: i64,
    pub username: String,
    pub role: UserRole,
}

/// The user that authenticated a request.
#[derive(Debug, Clone)]
pub struct AuthExtractor(pub AuthUser);

/// Why a request is not authenticated.
#[derive(Debug, Clone, Copy, PartialEq, Eq, Structural)]
pub enum AuthError {
    NoToken,
    InvalidToken,
    ExpiredToken,
    Internal,
}

impl AuthError {
    /// The HTTP status the refusal is answered with.
    pub fn status_code(&self) -> (r: u16)
        ensures
            r == (if *self == AuthError::Internal { 500u16 } else { 401u16 }),
    {
        match self {
            AuthError::Internal => 500,
            _ => 401,
        }
    }

    /// The error text of the answer.
    pub fn message(&self) -> (r: &'static str)
        ensures
            r@ == match *self {
                AuthError::NoToken => "Unauthorized"@,
                AuthError::InvalidToken => "Unauthorized"@,
                AuthError::ExpiredToken => "Session expired"@,
                AuthError::Internal => "Internal error"@,
            },
    {
        match self {
            AuthError::NoToken => "Unauthorized",
            AuthError::InvalidToken => "Unauthorized",
            AuthError::ExpiredToken => "Session expired",
            AuthError::Internal => "Internal error",
        }
    }
}

/// A request header as the server reads it.
#[derive(Debug, Clone, PartialEq, Eq)]
pub enum HeaderText {
    /// The request has no such header.
    Missing,
    /// The header holds bytes that are not visible ASCII.
    Unreadable,
    /// The header's text.
    Text(String),
}

/// A bearer token with its `Bearer ` prefix removed, if it has one.
pub open spec fn bearer_token(a: Seq<char>) -> Seq<char> {
    if starts_with(a, "Bearer "@) {
        a.skip(7)
    } else {
        a
    }
}

/// The session cookie among the `;`-separated `parts[i..]` of a cookie
/// header: the trimmed value of the first `pagan_cms_session=` pair.
pub open spec fn session_cookie_from(parts: Seq<Seq<char>>, i: int) -> Option<Seq<char>>
    decreases parts.len() - i,
{
    if i < 0 || i >= parts.len() {
        None
    } else {
        let p = trim_ws(parts[i]);
        match index_of(p, '=') {
            Some(e) => if trim_ws(p.take(e)) == "pagan_cms_session"@ {
                Some(trim_ws(p.skip(e + 1)))
            } else {
                session_cookie_from(parts, i + 1)
            },
            None => session_cookie_from(parts, i + 1),
        }
    }
}

/// The token a request carries: the `Authorization` header first, then
/// the session cookie.
pub open spec fn token_of(authorization: HeaderText, cookie: HeaderText) -> Result<Seq<char>, AuthError> {
    match authorization {
        HeaderText::Text(a) => Ok(bearer_token(a@)),
        HeaderText::Unreadable => Err(AuthError::InvalidToken),
        HeaderText::Missing => match cookie {
            HeaderText::Text(c) => match session_cookie_from(split_char(c@, ';'), 0) {
                Some(v) => Ok(v),
                None => Err(AuthError::NoToken),
            },
            HeaderText::Unreadable => Err(AuthError::InvalidToken),
            HeaderText::Missing => Err(AuthError::NoToken),
        },
    }
}

fn bearer_of(a: &String) -> (r: String)
    ensures
        r@ == bearer_token(a@),
{
    let c = chars_of(a.as_str());
    let prefix = chars_of("Bearer ");
    proof {
        reveal_strlit("Bearer ");
    }
    if has_prefix(&c, &prefix) {
        let rest = slice_chars(&c, 7, c.len());
        assert(rest@ =~= a@.skip(7));
        string_from(&rest)
    } else {
        owned(a.as_str())
    }
}

fn session_cookie(c: &String) -> (r: Option<String>)
    ensures
        match r {
            Some(v) => session_cookie_from(split_char(c@, ';'), 0) == Some(v@),
            None => session_cookie_from(split_char(c@, ';'), 0) is None,
        },
{
    let parts = split_on(&chars_of(c.as_str()), ';');
    let ghost ps = split_char(c@, ';');
    let key = chars_of("pagan_cms_session");
    let mut i: usize = 0;
    while i < parts.len()
        invariant
            i <= parts@.len(),
            ps == split_char(c@, ';'),
            parts@.len() == ps.len(),
            forall|k: int| 0 <= k < parts@.len() ==> #[trigger] parts@[k]@ == ps[k],
            key@ == "pagan_cms_session"@,
            session_cookie_from(ps, 0) == session_cookie_from(ps, i as int),
        decreases parts@.len() - i,
    {
        let p = trim(&parts[i]);
        assert(p@ == trim_ws(ps[i as int]));
        match find_char(&p, '=') {
            Some(e) => {
                let k = trim(&slice_chars(&p, 0, e));
                assert(p@.subrange(0, e as int) =~= p@.take(e as int));
                if chars_eq(&k, &key) {
                    let v = trim(&slice_chars(&p, e + 1, p.len()));
                    assert(p@.subrange(e + 1, p@.len() as int) =~= p@.skip(e + 1));
                    assert(k@ == trim_ws(p@.take(e as int)));
                    assert(session_cookie_from(ps, i as int) == Some(trim_ws(p@.skip(e + 1))));
                    return Some(string_from(&v));
                }
            },
            None => {},
        }
        i = i + 1;
    }
    None
}

/// Reads the session token of a request from its `Authorization` and
/// `Cookie` headers.
pub fn extract_token(authorization: &HeaderText, cookie: &HeaderText) -> (r: Result<String, AuthError>)
    ensures
        match r {
            Ok(t) => token_of(*authorization, *cookie) == Ok::<Seq<char>, AuthError>(t@),
            Err(e) => token_of(*authorization, *cookie) == Err::<Seq<char>, AuthError>(e),
        },
{
    match authorization {
        HeaderText::Text(a) => Ok(bearer_of(a)),
        HeaderText::Unreadable => Err(AuthError::InvalidToken),
        HeaderText::Missing => match cookie {
            HeaderText::Text(c) => match session_cookie(c) {
                Some(v) => Ok(v),
                None => Err(AuthError::NoToken),
            },
            HeaderText::Unreadable => Err(AuthError::InvalidToken),
            HeaderText::Missing => Err(AuthError::NoToken),
        },
    }
}

/// The user id a session lookup gives: a failed lookup is an internal
/// error, a missing session an expired one.
pub fn session_user(lookup: Result<Option<i64>, ()>) -> (r: Result<i64, AuthError>)
    ensures
        r == match lookup {
            Err(_) => Err(AuthError::Internal),
            Ok(None) => Err(AuthError::ExpiredToken),
            Ok(Some(id)) => Ok::<i64, AuthError>(id),
        },
{
    match lookup {
        Err(_) => Err(AuthError::Internal),
        Ok(None) => Err(AuthError::ExpiredToken),
        Ok(Some(id)) => Ok(id),
    }
}

/// The outcome of looking up the session's user: a failed lookup is an
/// internal error, a missing user an invalid token.
pub fn session_account(lookup: Result<Option<AuthUser>, ()>) -> (r: Result<AuthExtractor, AuthError>)
    ensures
        match lookup {
            Err(_) => r == Err::<AuthExtractor, AuthError>(AuthError::Internal),
            Ok(None) => r == Err::<AuthExtractor, AuthError>(AuthError::InvalidToken),
            Ok(Some(u)) => r matches Ok(x) && x.0 == u,
        },
{
    match lookup {
        Err(_) => Err(AuthError::Internal),
        Ok(None) => Err(AuthError::InvalidToken),
        Ok(Some(u)) => Ok(AuthExtractor(u)),
    }
}

} // verus!
