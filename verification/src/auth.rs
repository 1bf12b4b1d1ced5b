//! Administrators, credentials and sessions.
use vstd::prelude::*;
use crate::codec::{
    argon2_accepts, argon2_hash, base64_url, encode_base64_url, random_bytes, sha256,
    sha256_digest, verify_password,
};
use crate::error::{ApiError, bad_request};
use crate::git::option_view;
use crate::sites::{has_control, has_control_chars};
use crate::text::{chars_of, seq_eq, string_from, string_of, trim, trim_str, utf8_len, utf8_len_at_most};

verus! {

/// The name of the session cookie.
pub fn session_cookie_name() -> (r: &'static str)
    ensures
        r@ == "blank_session"@,
{
    "blank_session"
}

/// How long a session lasts, in days.
pub fn session_days() -> (r: i64)
    ensures
        r == 7,
{
    7
}

/// What the dashboard is told about setup and the current session.
#[derive(Debug, Clone)]
pub struct AuthStatus {
    pub setup_required: bool,
    pub authenticated: bool,
    pub identifier: Option<String>,
    pub csrf_token: Option<String>,
}

/// An identifier and a password, as a login or setup request carries them.
#[derive(Debug, Clone)]
pub struct Credentials {
    pub identifier: String,
    pub password: String,
}

/// An administrator, as the list of administrators shows them.
#[derive(Debug, Clone)]
pub struct Administrator {
    pub id: i64,
    pub identifier: String,
    pub created_at: String,
    pub is_current: bool,
}

/// A signed-in administrator's session.
#[derive(Debug, Clone)]
pub struct Session {
    pub administrator_id: i64,
    pub identifier: String,
    pub csrf_token: String,
}

/// An identifier is 3 to 254 bytes once trimmed and holds no control
/// character; a password is at least 12 bytes.
pub open spec fn identifier_accepted(identifier: Seq<char>) -> bool {
    let t = trim(identifier);
    3 <= utf8_len(t) <= 254 && !has_control(t)
}

pub fn validate_credentials(input: &Credentials) -> (res: Result<(), ApiError>)
    ensures
        res is Ok <==> identifier_accepted(input.identifier@) && utf8_len(input.password@) >= 12,
        res matches Err(e) ==> if !identifier_accepted(input.identifier@) {
            bad_request(e, "identifier must be between 3 and 254 characters"@)
        } else {
            bad_request(e, "password must be at least 12 characters"@)
        },
{
    let identifier = trim_str(input.identifier.as_str());
    if utf8_len_at_most(identifier.as_slice(), 2) || !utf8_len_at_most(identifier.as_slice(), 254)
        || has_control_chars(identifier.as_slice()) {
        return Err(ApiError::BadRequest(string_from("identifier must be between 3 and 254 characters")));
    }
    let password = chars_of(input.password.as_str());
    if utf8_len_at_most(password.as_slice(), 11) {
        return Err(ApiError::BadRequest(string_from("password must be at least 12 characters")));
    }
    Ok(())
}

/// The identifier a request names, trimmed.
pub fn normalized_identifier(identifier: &str) -> (r: String)
    ensures
        r@ == trim(identifier@),
{
    let t = trim_str(identifier);
    string_of(t.as_slice())
}

/// What a session token is stored as: the SHA-256 digest of its bytes.
pub open spec fn stored_token(token: Seq<char>) -> Seq<u8> {
    sha256(vstd::utf8::encode_utf8(token))
}

pub fn token_hash(token: &str) -> (r: Vec<u8>)
    ensures
        r@ == stored_token(token@),
        r@.len() == 32,
{
    sha256_digest(token.as_bytes())
}

/// A new session or CSRF token: 32 random bytes in unpadded URL-safe base64.
pub fn random_token() -> (r: String)
    ensures
        exists|bytes: Seq<u8>| bytes.len() == 32 && r@ == base64_url(bytes),
{
    let bytes = random_bytes();
    let r = encode_base64_url(bytes.as_slice());
    assert(bytes@.len() == 32 && r@ == base64_url(bytes@));
    r
}

/// A request that changes state must repeat the session's CSRF token in its
/// `x-csrf-token` header.
pub fn check_csrf(require_csrf: bool, header: Option<&str>, session: &Session) -> (res: Result<
    (),
    ApiError,
>)
    ensures
        res is Ok <==> !require_csrf || (header matches Some(h) && h@ == session.csrf_token@),
        res matches Err(e) ==> e == ApiError::Forbidden,
{
    if !require_csrf {
        return Ok(());
    }
    match header {
        Some(h) => {
            let a = chars_of(h);
            let b = chars_of(session.csrf_token.as_str());
            if seq_eq(a.as_slice(), b.as_slice()) {
                Ok(())
            } else {
                Err(ApiError::Forbidden)
            }
        },
        None => Err(ApiError::Forbidden),
    }
}

/// The status the dashboard gets: setup is required while there is no
/// administrator; a session makes the request authenticated.
pub fn auth_status(administrator_count: i64, session: Option<Session>) -> (r: AuthStatus)
    ensures
        r.setup_required == (administrator_count == 0),
        r.authenticated == session is Some,
        option_view(r.identifier) == match session {
            Some(s) => Some(s.identifier@),
            None => None,
        },
        option_view(r.csrf_token) == match session {
            Some(s) => Some(s.csrf_token@),
            None => None,
        },
{
    match session {
        Some(s) => AuthStatus {
            setup_required: administrator_count == 0,
            authenticated: true,
            identifier: Some(s.identifier),
            csrf_token: Some(s.csrf_token),
        },
        None => AuthStatus {
            setup_required: administrator_count == 0,
            authenticated: false,
            identifier: None,
            csrf_token: None,
        },
    }
}

/// The status after a successful setup or login.
pub fn signed_in_status(identifier: String, csrf_token: String) -> (r: AuthStatus)
    ensures
        !r.setup_required,
        r.authenticated,
        option_view(r.identifier) == Some(identifier@),
        option_view(r.csrf_token) == Some(csrf_token@),
{
    AuthStatus {
        setup_required: false,
        authenticated: true,
        identifier: Some(identifier),
        csrf_token: Some(csrf_token),
    }
}

/// Hashes a password for storage (Argon2 with a fresh random salt); `None`
/// only for a password longer than 0xFFFFFFFF bytes, which the hasher
/// refuses. Whatever the salt, the stored hash accepts the password it was
/// made from.
pub fn hash_password(password: &str) -> (r: Option<String>)
    ensures
        vstd::utf8::encode_utf8(password@).len() <= 0xFFFF_FFFF ==> r is Some,
        r matches Some(h) ==> argon2_accepts(h@, vstd::utf8::encode_utf8(password@)),
{
    argon2_hash(password.as_bytes())
}

/// Whether a login succeeds: an administrator with the identifier exists
/// and the stored hash accepts the password; any failure is answered alike.
pub fn authenticate(stored_hash: Option<&str>, password: &str) -> (res: Result<(), ApiError>)
    ensures
        res is Ok <==> (stored_hash matches Some(h) && argon2_accepts(
            h@,
            vstd::utf8::encode_utf8(password@),
        )),
        res matches Err(e) ==> e == ApiError::Unauthorized,
{
    match stored_hash {
        Some(h) => if verify_password(h, password.as_bytes()) {
            Ok(())
        } else {
            Err(ApiError::Unauthorized)
        },
        None => Err(ApiError::Unauthorized),
    }
}


} // verus!
