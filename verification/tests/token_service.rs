use authcore::base64url::b64url_decode;
use authcore::token::{generate_token, validate_token, TokenError};

const SECRET: &[u8] = b"another-secret";

#[test]
fn issue_then_validate_returns_subject() {
    let id = "0a1b2c3d-0000-4000-8000-123456789abc";
    let token = generate_token(id, SECRET, 5000);
    let got = validate_token(&token, SECRET, 5001).expect("valid before expiry");
    assert_eq!(got, id);
}

#[test]
fn token_expires_at_ttl() {
    let id = "0a1b2c3d-0000-4000-8000-123456789abc";
    let token = generate_token(id, SECRET, 5000);
    assert_eq!(validate_token(&token, SECRET, 5000 + 86399), Ok(id.to_string()));
    assert_eq!(validate_token(&token, SECRET, 5000 + 86400), Err(TokenError::Expired));
    assert_eq!(validate_token(&token, SECRET, 5000 + 86401), Err(TokenError::Expired));
}

#[test]
fn tampered_token_is_rejected() {
    let id = "0a1b2c3d-0000-4000-8000-123456789abc";
    let token = generate_token(id, SECRET, 5000);
    let mut chars: Vec<char> = token.chars().collect();
    let last = *chars.last().unwrap();
    let n = chars.len();
    chars[n - 1] = if last == 'A' { 'B' } else { 'A' };
    let forged: String = chars.into_iter().collect();
    assert!(validate_token(&forged, SECRET, 5001).is_err());
}

#[test]
fn wrong_secret_is_rejected() {
    let id = "0a1b2c3d-0000-4000-8000-123456789abc";
    let token = generate_token(id, SECRET, 5000);
    assert_eq!(
        validate_token(&token, b"some-other-secret", 5001),
        Err(TokenError::BadSignature)
    );
}

#[test]
fn garbage_tokens_are_malformed() {
    assert_eq!(validate_token("", SECRET, 1), Err(TokenError::Malformed));
    assert_eq!(validate_token("abc", SECRET, 1), Err(TokenError::Malformed));
    assert_eq!(validate_token("a.b", SECRET, 1), Err(TokenError::Malformed));
    assert_eq!(validate_token("a.b.c", SECRET, 1), Err(TokenError::Malformed));
}

#[test]
fn token_claims_carry_the_fixed_issuer() {
    let id = "0a1b2c3d-0000-4000-8000-123456789abc";
    let token = generate_token(id, SECRET, 5000);
    let parts: Vec<&str> = token.split('.').collect();
    let claims = b64url_decode(parts[1]).expect("claims piece must decode");
    assert!(claims.starts_with("{\"sub\":\"0a1b2c3d-0000-4000-8000-123456789abc\","));
    assert!(claims.ends_with(",\"iss\":\"Amourithm\"}"));
    assert_eq!(claims, format!("{{\"sub\":\"{}\",\"exp\":91400,\"iat\":5000,\"iss\":\"Amourithm\"}}", id));
}

#[test]
fn token_has_jwt_shape() {
    let id = "0a1b2c3d-0000-4000-8000-123456789abc";
    let token = generate_token(id, SECRET, 5000);
    let parts: Vec<&str> = token.split('.').collect();
    assert_eq!(parts.len(), 3);
    // the header piece is the base64url encoding of the fixed JSON header
    assert_eq!(parts[0], "eyJ0eXAiOiJKV1QiLCJhbGciOiJIUzI1NiJ9");
    assert!(!parts[2].is_empty());
}
