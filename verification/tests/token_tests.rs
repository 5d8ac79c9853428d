//! Tokens: the claims text, issuance, verification, tampering, interop.

use db_web::claims_text::{build_claims_json, parse_claims_json};
use db_web::errors::AuthError;
use db_web::token::{generate_token, token_lifetime_secs, verify_token, Claims};

const SECRET: &str = "unit-test-secret";

fn sample_claims() -> Claims {
    Claims::with_times(7, "alice".to_string(), "admin".to_string(), 1_700_000_000)
}

#[test]
fn claims_with_times_sets_window() {
    let c = sample_claims();
    assert_eq!(c.user_id, 7);
    assert_eq!(c.username, "alice");
    assert_eq!(c.flag, "admin");
    assert_eq!(c.iat, 1_700_000_000);
    assert_eq!(c.exp, 1_700_000_900);
    assert_eq!(token_lifetime_secs(), 900);
}

#[test]
fn claims_with_times_saturates_at_end_of_time() {
    let c = Claims::with_times(1, "a".to_string(), "operator".to_string(), i64::MAX - 10);
    assert_eq!(c.exp, i64::MAX);
}

#[test]
fn claims_json_exact_text() {
    let c = sample_claims();
    let json = build_claims_json(c.user_id, &c.username, &c.flag, c.exp, c.iat);
    assert_eq!(
        json,
        "{\"user_id\":7,\"username\":\"alice\",\"flag\":\"admin\",\"exp\":1700000900,\"iat\":1700000000}"
    );
}

#[test]
fn claims_json_escapes_and_parses_back() {
    let name = "a\"b\\c\nd\u{1}e";
    let json = build_claims_json(42, name, "operator", -5, 0);
    assert_eq!(
        json,
        "{\"user_id\":42,\"username\":\"a\\\"b\\\\c\\u000ad\\u0001e\",\"flag\":\"operator\",\"exp\":-5,\"iat\":0}"
    );
    let parsed = parse_claims_json(&json).expect("canonical text parses");
    assert_eq!(parsed.0, 42);
    assert_eq!(parsed.1, name);
    assert_eq!(parsed.2, "operator");
    assert_eq!(parsed.3, -5);
    assert_eq!(parsed.4, 0);
}

#[test]
fn claims_json_roundtrip_plain() {
    let json = build_claims_json(0, "", "", i64::MIN, i64::MAX);
    let parsed = parse_claims_json(&json).expect("canonical text parses");
    assert_eq!(parsed.0, 0);
    assert_eq!(parsed.1, "");
    assert_eq!(parsed.2, "");
    assert_eq!(parsed.3, i64::MIN);
    assert_eq!(parsed.4, i64::MAX);
}

#[test]
fn claims_parser_rejects_non_canonical() {
    // Leading zero.
    assert!(parse_claims_json(
        "{\"user_id\":07,\"username\":\"a\",\"flag\":\"b\",\"exp\":1,\"iat\":1}"
    )
    .is_none());
    // Whitespace.
    assert!(parse_claims_json(
        "{\"user_id\": 7,\"username\":\"a\",\"flag\":\"b\",\"exp\":1,\"iat\":1}"
    )
    .is_none());
    // Reordered fields.
    assert!(parse_claims_json(
        "{\"username\":\"a\",\"user_id\":7,\"flag\":\"b\",\"exp\":1,\"iat\":1}"
    )
    .is_none());
    // Trailing content.
    assert!(parse_claims_json(
        "{\"user_id\":7,\"username\":\"a\",\"flag\":\"b\",\"exp\":1,\"iat\":1} "
    )
    .is_none());
    // Out-of-range id.
    assert!(parse_claims_json(
        "{\"user_id\":4294967296,\"username\":\"a\",\"flag\":\"b\",\"exp\":1,\"iat\":1}"
    )
    .is_none());
    // Negative zero.
    assert!(parse_claims_json(
        "{\"user_id\":7,\"username\":\"a\",\"flag\":\"b\",\"exp\":-0,\"iat\":1}"
    )
    .is_none());
    // Bare control character inside a string.
    assert!(parse_claims_json(
        "{\"user_id\":7,\"username\":\"a\nb\",\"flag\":\"b\",\"exp\":1,\"iat\":1}"
    )
    .is_none());
    // Uppercase hex in an escape (the writer emits lowercase).
    assert!(parse_claims_json(
        "{\"user_id\":7,\"username\":\"\\u000A\",\"flag\":\"b\",\"exp\":1,\"iat\":1}"
    )
    .is_none());
    assert!(parse_claims_json("").is_none());
}

#[test]
fn token_has_jwt_shape() {
    let tok = generate_token(&sample_claims(), SECRET);
    let parts: Vec<&str> = tok.split('.').collect();
    assert_eq!(parts.len(), 3);
    // The fixed header, as jsonwebtoken writes it.
    assert_eq!(parts[0], "eyJ0eXAiOiJKV1QiLCJhbGciOiJIUzI1NiJ9");
    // The payload is really base64url of the canonical claims text: the
    // encoder does not hand its input back unchanged.
    let payload =
        base64::Engine::decode(&base64::engine::general_purpose::URL_SAFE_NO_PAD, parts[1])
            .expect("payload is base64url");
    assert_eq!(
        String::from_utf8(payload).unwrap(),
        "{\"user_id\":7,\"username\":\"alice\",\"flag\":\"admin\",\"exp\":1700000900,\"iat\":1700000000}"
    );
    assert_ne!(parts[1], "{\"user_id\":7");
    assert!(!parts[2].is_empty());
}

#[test]
fn verify_accepts_fresh_token() {
    let c = sample_claims();
    let tok = generate_token(&c, SECRET);
    let got = verify_token(&tok, SECRET).expect("a just-issued token verifies");
    assert_eq!(got.user_id, 7);
    assert_eq!(got.username, "alice");
    assert_eq!(got.flag, "admin");
    assert_eq!(got.exp, 1_700_000_900);
    assert_eq!(got.iat, 1_700_000_000);
}

#[test]
fn verify_roundtrips_multibyte_names() {
    let c = Claims::with_times(3, "王商户\u{1F600}".to_string(), "important".to_string(), 1);
    let tok = generate_token(&c, SECRET);
    let got = verify_token(&tok, SECRET).expect("multibyte names round-trip");
    assert_eq!(got.username, "王商户\u{1F600}");
    assert_eq!(got.flag, "important");
}

#[test]
fn verify_rejects_wrong_secret() {
    let tok = generate_token(&sample_claims(), SECRET);
    assert_eq!(verify_token(&tok, "other-secret").unwrap_err(), AuthError::InvalidToken);
}

#[test]
fn verify_rejects_tampered_signature() {
    let tok = generate_token(&sample_claims(), SECRET);
    let dot = tok.rfind('.').unwrap();
    // Flip every byte of the signature in turn; each flip must be rejected.
    for k in dot + 1..tok.len() {
        let mut bytes = tok.clone().into_bytes();
        bytes[k] = if bytes[k] == b'A' { b'B' } else { b'A' };
        let forged = String::from_utf8(bytes).unwrap();
        if forged == tok {
            continue;
        }
        assert_eq!(verify_token(&forged, SECRET).unwrap_err(), AuthError::InvalidToken);
    }
}

#[test]
fn verify_rejects_tampered_payload() {
    let c = Claims::with_times(8, "bob".to_string(), "operator".to_string(), 1_700_000_000);
    let tok = generate_token(&c, SECRET);
    // Swap in the payload of a different (also well-formed) token.
    let admin_tok = generate_token(&sample_claims(), SECRET);
    let mine: Vec<&str> = tok.split('.').collect();
    let other: Vec<&str> = admin_tok.split('.').collect();
    let forged = format!("{}.{}.{}", mine[0], other[1], mine[2]);
    assert_eq!(verify_token(&forged, SECRET).unwrap_err(), AuthError::InvalidToken);
}

#[test]
fn verify_rejects_malformed_text() {
    assert_eq!(verify_token("", SECRET).unwrap_err(), AuthError::InvalidToken);
    assert_eq!(verify_token("abc", SECRET).unwrap_err(), AuthError::InvalidToken);
    assert_eq!(verify_token("a.b", SECRET).unwrap_err(), AuthError::InvalidToken);
    assert_eq!(verify_token("a.b.c", SECRET).unwrap_err(), AuthError::InvalidToken);
    assert_eq!(verify_token("...", SECRET).unwrap_err(), AuthError::InvalidToken);
}

#[test]
fn issued_token_decodes_with_jsonwebtoken() {
    // The issued token is a real HS256 JWT: jsonwebtoken itself accepts it
    // and reads the same claims back.
    let tok = generate_token(&sample_claims(), SECRET);
    let mut validation = jsonwebtoken::Validation::new(jsonwebtoken::Algorithm::HS256);
    validation.validate_exp = false;
    validation.required_spec_claims.clear();
    let data = jsonwebtoken::decode::<serde_json::Value>(
        &tok,
        &jsonwebtoken::DecodingKey::from_secret(SECRET.as_bytes()),
        &validation,
    )
    .expect("jsonwebtoken accepts the issued token");
    assert_eq!(data.claims.get("user_id").unwrap().as_u64().unwrap(), 7);
    assert_eq!(data.claims.get("username").unwrap().as_str().unwrap(), "alice");
    assert_eq!(data.claims.get("flag").unwrap().as_str().unwrap(), "admin");
    assert_eq!(data.claims.get("exp").unwrap().as_i64().unwrap(), 1_700_000_900);
    assert_eq!(data.claims.get("iat").unwrap().as_i64().unwrap(), 1_700_000_000);
}
