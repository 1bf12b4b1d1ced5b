use blank::auth::{authenticate, hash_password};
use blank::auth::{
    auth_status, check_csrf, normalized_identifier, random_token, session_cookie_name,
    session_days, signed_in_status, token_hash, validate_credentials, Credentials, Session,
};
use blank::error::ApiError;

#[test]
fn credentials_require_a_useful_identifier() {
    let input = Credentials {
        identifier: "ab".into(),
        password: "long-enough-password".into(),
    };
    assert!(matches!(
        validate_credentials(&input),
        Err(ApiError::BadRequest(_))
    ));
}

#[test]
fn credentials_require_a_long_password() {
    let input = Credentials {
        identifier: "admin".into(),
        password: "too-short".into(),
    };
    assert!(matches!(
        validate_credentials(&input),
        Err(ApiError::BadRequest(_))
    ));
}

#[test]
fn session_tokens_are_stored_as_fixed_size_hashes() {
    assert_eq!(token_hash("secret").len(), 32);
    assert_ne!(token_hash("secret"), b"secret");
}

#[test]
fn credentials_errors_name_the_failing_field() {
    let short_identifier = Credentials {
        identifier: "  a ".into(),
        password: "long-enough-password".into(),
    };
    assert_eq!(
        validate_credentials(&short_identifier),
        Err(ApiError::BadRequest(
            "identifier must be between 3 and 254 characters".into()
        ))
    );
    let short_password = Credentials {
        identifier: "admin".into(),
        password: "elevenchars".into(),
    };
    assert_eq!(
        validate_credentials(&short_password),
        Err(ApiError::BadRequest("password must be at least 12 characters".into()))
    );
    let good = Credentials {
        identifier: "admin".into(),
        password: "twelve-chars".into(),
    };
    assert_eq!(validate_credentials(&good), Ok(()));
}

#[test]
fn token_hash_is_sha256() {
    let expected = [
        0x2b, 0xb8, 0x0d, 0x53, 0x7b, 0x1d, 0xa3, 0xe3, 0x8b, 0xd3, 0x03, 0x61, 0xaa, 0x85, 0x56,
        0x86, 0xbd, 0xe0, 0xea, 0xcd, 0x71, 0x62, 0xfe, 0xf6, 0xa2, 0x5f, 0xe9, 0x7b, 0xf5, 0x27,
        0xa2, 0x5b,
    ];
    assert_eq!(token_hash("secret"), expected.to_vec());
    assert_ne!(token_hash("secret"), token_hash("other"));
}

#[test]
fn random_tokens_are_url_safe_and_fresh() {
    let a = random_token();
    let b = random_token();
    assert_eq!(a.len(), 43);
    assert!(a
        .chars()
        .all(|c| c.is_ascii_alphanumeric() || c == '-' || c == '_'));
    assert_ne!(a, b);
}

#[test]
fn csrf_is_checked_only_when_required() {
    let session = Session {
        administrator_id: 1,
        identifier: "admin".into(),
        csrf_token: "token".into(),
    };
    assert_eq!(check_csrf(false, None, &session), Ok(()));
    assert_eq!(check_csrf(true, Some("token"), &session), Ok(()));
    assert_eq!(check_csrf(true, Some("other"), &session), Err(ApiError::Forbidden));
    assert_eq!(check_csrf(true, None, &session), Err(ApiError::Forbidden));
}

#[test]
fn auth_status_reports_setup_and_session() {
    let status = auth_status(0, None);
    assert!(status.setup_required);
    assert!(!status.authenticated);
    assert_eq!(status.identifier, None);
    let session = Session {
        administrator_id: 1,
        identifier: "admin".into(),
        csrf_token: "token".into(),
    };
    let status = auth_status(2, Some(session));
    assert!(!status.setup_required);
    assert!(status.authenticated);
    assert_eq!(status.identifier.as_deref(), Some("admin"));
    assert_eq!(status.csrf_token.as_deref(), Some("token"));
    let signed_in = signed_in_status("admin".into(), "t".into());
    assert!(signed_in.authenticated && !signed_in.setup_required);
    assert_eq!(signed_in.csrf_token.as_deref(), Some("t"));
}

#[test]
fn session_settings_and_identifiers() {
    assert_eq!(session_cookie_name(), "blank_session");
    assert_eq!(session_days(), 7);
    assert_eq!(normalized_identifier("  admin \n"), "admin");
}

#[test]
fn a_stored_password_is_accepted_at_login() {
    let stored = hash_password("correct horse battery").unwrap();
    assert!(stored.starts_with("$argon2"));
    assert_eq!(authenticate(Some(&stored), "correct horse battery"), Ok(()));
    assert_eq!(
        authenticate(Some(&stored), "wrong password!"),
        Err(ApiError::Unauthorized)
    );
    assert_eq!(authenticate(None, "correct horse battery"), Err(ApiError::Unauthorized));
    assert_eq!(
        authenticate(Some("not a hash"), "correct horse battery"),
        Err(ApiError::Unauthorized)
    );
}
