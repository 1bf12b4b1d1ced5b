//! Encodings, digests, message authentication, password hashing, token
//! signing and randomness, computed by the `base64`, `sha2`, `hmac`, `hex`,
//! `argon2`, `jsonwebtoken`, `rand` and `serde_json` crates. Each item
//! here is trusted: its contract states what the crate's documentation and
//! source promise, and nothing here is proved.
use vstd::prelude::*;
use base64::Engine;
use argon2::{PasswordHasher, PasswordVerifier};
use hmac::Mac;
use rand::RngCore;
use sha2::Digest;

verus! {

/// The padded standard base64 text (RFC 4648, `+` and `/`) of some bytes.
pub uninterp spec fn base64_standard(bytes: Seq<u8>) -> Seq<char>;

/// The unpadded URL-safe base64 text (RFC 4648, `-` and `_`) of some bytes.
pub uninterp spec fn base64_url(bytes: Seq<u8>) -> Seq<char>;

/// What unpadded URL-safe base64 text decodes to, when it is valid.
pub uninterp spec fn base64_url_decoded(text: Seq<u8>) -> Option<Seq<u8>>;

/// The SHA-256 digest of some bytes.
pub uninterp spec fn sha256(bytes: Seq<u8>) -> Seq<u8>;

/// The HMAC-SHA256 tag of a message under a key.
pub uninterp spec fn hmac_sha256(key: Seq<u8>, message: Seq<u8>) -> Seq<u8>;

/// A lower-case hexadecimal digit.
pub open spec fn json_hex_digit(d: int) -> char {
    if d < 10 {
        (48 + d) as char
    } else {
        (87 + d) as char
    }
}

/// How `serde_json` writes one character inside a string literal: `"` and
/// `\` behind a backslash; backspace, tab, line feed, form feed and carriage
/// return as `\b`, `\t`, `\n`, `\f`, `\r`; the other characters below
/// U+0020 as `\u00` and two lower-case hexadecimal digits; any other
/// character as it is.
pub open spec fn json_char(c: char) -> Seq<char> {
    if c == '"' {
        seq!['\\', '"']
    } else if c == '\\' {
        seq!['\\', '\\']
    } else if c == '\u{08}' {
        seq!['\\', 'b']
    } else if c == '\t' {
        seq!['\\', 't']
    } else if c == '\n' {
        seq!['\\', 'n']
    } else if c == '\u{0C}' {
        seq!['\\', 'f']
    } else if c == '\r' {
        seq!['\\', 'r']
    } else if (c as int) < 0x20 {
        seq!['\\', 'u', '0', '0', json_hex_digit(c as int / 16), json_hex_digit(c as int % 16)]
    } else {
        seq![c]
    }
}

/// The characters of a string, each written as `json_char` writes it.
pub open spec fn json_escaped(s: Seq<char>) -> Seq<char>
    decreases s.len(),
{
    if s.len() == 0 {
        Seq::empty()
    } else {
        json_escaped(s.drop_last()) + json_char(s.last())
    }
}

/// The JSON string literal of a string: its escaped characters in quotes.
pub open spec fn json_quote(s: Seq<char>) -> Seq<char> {
    seq!['"'] + json_escaped(s) + seq!['"']
}

/// `base64::engine::general_purpose::STANDARD.encode`. The contract names
/// the result; the crate computes it. The crate panics when the length of
/// the text overflows `usize`, which the bound on the input rules out.
#[verifier::external_body]
pub(crate) fn encode_base64_standard(bytes: &[u8]) -> (res: String)
    requires
        bytes@.len() <= usize::MAX / 2,
    ensures
        res@ == base64_standard(bytes@),
{
    base64::engine::general_purpose::STANDARD.encode(bytes)
}

/// `base64::engine::general_purpose::URL_SAFE_NO_PAD.encode`. The contract
/// names the result; the crate computes it. The crate panics when the length
/// of the text overflows `usize`, which the bound on the input rules out.
#[verifier::external_body]
pub(crate) fn encode_base64_url(bytes: &[u8]) -> (res: String)
    requires
        bytes@.len() <= usize::MAX / 2,
    ensures
        res@ == base64_url(bytes@),
{
    base64::engine::general_purpose::URL_SAFE_NO_PAD.encode(bytes)
}

/// `base64::engine::general_purpose::URL_SAFE_NO_PAD.decode`, with the error
/// turned into `None`. The contract names the result; the crate computes it.
#[verifier::external_body]
pub(crate) fn decode_base64_url(text: &[u8]) -> (res: Option<Vec<u8>>)
    ensures
        match res {
            Some(v) => base64_url_decoded(text@) == Some(v@),
            None => base64_url_decoded(text@) is None,
        },
{
    base64::engine::general_purpose::URL_SAFE_NO_PAD.decode(text).ok()
}

/// `sha2::Sha256::digest`: the digest, which the crate documents as 32
/// bytes long.
#[verifier::external_body]
pub(crate) fn sha256_digest(bytes: &[u8]) -> (res: Vec<u8>)
    ensures
        res@ == sha256(bytes@),
        res@.len() == 32,
{
    sha2::Sha256::digest(bytes).to_vec()
}

/// `hmac::Hmac::<Sha256>::new_from_slice`, `update` and `verify_slice`: whether
/// `tag` is the HMAC-SHA256 tag of `message` under `key`. `new_from_slice`
/// accepts keys of any length, and `verify_slice` compares in constant time
/// against the whole tag, refusing a tag of another length.
#[verifier::external_body]
pub(crate) fn verify_hmac_sha256(key: &[u8], message: &[u8], tag: &[u8]) -> (res: bool)
    ensures
        res == (tag@ == hmac_sha256(key@, message@)),
{
    match hmac::Hmac::<sha2::Sha256>::new_from_slice(key) {
        Ok(mut mac) => {
            mac.update(message);
            mac.verify_slice(tag).is_ok()
        },
        Err(_) => false,
    }
}

/// The value of a hexadecimal digit, upper or lower case.
pub open spec fn hex_value(b: u8) -> int {
    if 0x30 <= b <= 0x39 {
        b - 0x30
    } else if 0x61 <= b <= 0x66 {
        b - 0x61 + 10
    } else {
        b - 0x41 + 10
    }
}

pub open spec fn is_hex_byte(b: u8) -> bool {
    (0x30 <= b <= 0x39) || (0x61 <= b <= 0x66) || (0x41 <= b <= 0x46)
}

/// What `hex::decode` gives: for an even number of hexadecimal digits, one
/// byte for each pair, the first digit the high half.
pub open spec fn hex_decoded(s: Seq<u8>) -> Option<Seq<u8>> {
    if s.len() % 2 == 0 && forall|i: int| 0 <= i < s.len() ==> is_hex_byte(#[trigger] s[i]) {
        Some(Seq::new((s.len() / 2) as nat, |i: int| (hex_value(s[2 * i]) * 16 + hex_value(s[2 * i + 1])) as u8))
    } else {
        None
    }
}

/// `hex::decode`, with the error turned into `None`: the crate refuses an
/// odd length and any byte that is not a hexadecimal digit, and otherwise
/// turns each pair of digits into one byte.
#[verifier::external_body]
pub(crate) fn decode_hex(text: &[u8]) -> (res: Option<Vec<u8>>)
    ensures
        match res {
            Some(v) => hex_decoded(text@) == Some(v@),
            None => hex_decoded(text@) is None,
        },
{
    hex::decode(text).ok()
}

/// `rand::thread_rng().fill_bytes`: 32 random bytes. Nothing is said of
/// their values.
#[verifier::external_body]
pub(crate) fn random_bytes() -> (res: Vec<u8>)
    ensures
        res@.len() == 32,
{
    let mut bytes = [0_u8; 32];
    rand::thread_rng().fill_bytes(&mut bytes);
    bytes.to_vec()
}

/// `serde_json::to_string` on a string: its JSON literal, escaped as
/// `json_char` says (the escape table in `serde_json`'s serialiser).
/// Serialising a string into memory does not fail.
#[verifier::external_body]
pub(crate) fn json_string(s: &str) -> (res: String)
    ensures
        res@ == json_quote(s@),
{
    match serde_json::to_string(s) {
        Ok(text) => text,
        Err(_) => String::new(),
    }
}

/// `String::from_utf8`, with the error turned into `None`: a string exactly
/// when the bytes are valid UTF-8, holding the characters they encode.
#[verifier::external_body]
pub(crate) fn string_from_utf8(bytes: Vec<u8>) -> (res: Option<String>)
    ensures
        match res {
            Some(s) => vstd::utf8::valid_utf8(bytes@) && s@ == vstd::utf8::decode_utf8(bytes@),
            None => !vstd::utf8::valid_utf8(bytes@),
        },
{
    String::from_utf8(bytes).ok()
}

/// Whether an Argon2 password hash in PHC string form accepts a password:
/// the hash parses, and hashing the password with its salt and parameters
/// gives its output.
pub uninterp spec fn argon2_accepts(hash: Seq<char>, password: Seq<u8>) -> bool;

/// `argon2::PasswordHash::new` and `Argon2::default().verify_password`: true
/// when the hash parses and accepts the password, false otherwise. The
/// contract names the result; the crate computes it.
#[verifier::external_body]
pub(crate) fn verify_password(hash: &str, password: &[u8]) -> (res: bool)
    ensures
        res == argon2_accepts(hash@, password@),
{
    match argon2::PasswordHash::new(hash) {
        Ok(parsed) => argon2::Argon2::default().verify_password(password, &parsed).is_ok(),
        Err(_) => false,
    }
}

/// `Argon2::default().hash_password` with a salt that `SaltString::generate`
/// draws from the operating system, as a PHC string; `None` where the crate
/// refuses the password. With the default parameters and the generated
/// 16-byte salt, the crate refuses only a password longer than `MAX_PWD_LEN`
/// (`0xFFFFFFFF` bytes). The salt is random, so nothing is said of the text
/// but that the hash it holds accepts the password it was made from.
#[verifier::external_body]
pub(crate) fn argon2_hash(password: &[u8]) -> (res: Option<String>)
    ensures
        password@.len() <= 0xFFFF_FFFF ==> res is Some,
        res matches Some(h) ==> argon2_accepts(h@, password@),
{
    let salt = argon2::password_hash::SaltString::generate(&mut argon2::password_hash::rand_core::OsRng);
    match argon2::Argon2::default().hash_password(password, &salt) {
        Ok(hash) => Some(hash.to_string()),
        Err(_) => None,
    }
}

/// The RS256-signed JSON web token with the claims `iat`, `exp` and `iss`
/// (the app id as text) under the RSA private key in `pem`; `None` when
/// `pem` holds no usable RSA private key. PKCS#1 v1.5 signatures depend on
/// the key and the message alone.
pub uninterp spec fn github_app_jwt(app_id: i64, issued_at: i64, expires_at: i64, pem: Seq<char>) -> Option<Seq<char>>;

/// `jsonwebtoken::EncodingKey::from_rsa_pem` and `jsonwebtoken::encode` with
/// an RS256 header. A token it returns is the named one, and it returns none
/// where the key is unusable. The signer draws randomness from the system
/// for blinding, and it fails where the system gives none: that is not
/// stated.
#[verifier::external_body]
pub(crate) fn sign_app_jwt(app_id: i64, issued_at: i64, expires_at: i64, pem: &str) -> (res: Option<String>)
    ensures
        res matches Some(t) ==> github_app_jwt(app_id, issued_at, expires_at, pem@) == Some(t@),
        github_app_jwt(app_id, issued_at, expires_at, pem@) is None ==> res is None,
{
    let mut claims = serde_json::Map::new();
    claims.insert(String::from("iat"), serde_json::Value::from(issued_at));
    claims.insert(String::from("exp"), serde_json::Value::from(expires_at));
    claims.insert(String::from("iss"), serde_json::Value::from(app_id.to_string()));
    let key = match jsonwebtoken::EncodingKey::from_rsa_pem(pem.as_bytes()) {
        Ok(key) => key,
        Err(_) => return None,
    };
    let header = jsonwebtoken::Header::new(jsonwebtoken::Algorithm::RS256);
    jsonwebtoken::encode(&header, &claims, &key).ok()
}

} // verus!
