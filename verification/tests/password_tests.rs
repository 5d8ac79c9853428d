//! The credential verifier: hash-then-verify, and failing closed.

use db_web::password::{encrypt_password, verify_password};

#[test]
fn hash_then_verify_accepts() {
    let digest = encrypt_password("correct horse".to_string()).expect("hashing works");
    assert!(verify_password("correct horse".to_string(), &digest));
}

#[test]
fn mutated_password_is_rejected() {
    let digest = encrypt_password("correct horse".to_string()).expect("hashing works");
    assert!(!verify_password("correct horsf".to_string(), &digest));
    assert!(!verify_password("".to_string(), &digest));
}

#[test]
fn digest_is_not_the_password() {
    let digest = encrypt_password("pw".to_string()).expect("hashing works");
    assert_ne!(digest, "pw");
    assert!(digest.starts_with("$2"));
}

#[test]
fn malformed_digest_fails_closed() {
    // A digest bcrypt cannot parse counts as "not verified", never an error.
    assert!(!verify_password("pw".to_string(), &"not-a-digest".to_string()));
    assert!(!verify_password("pw".to_string(), &"".to_string()));
}
