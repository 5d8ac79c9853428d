//! The per-request guards and the login decisions.

use db_web::auth::{
    admin_gate, auth_client_from_header, bearer_token, client_of_claims,
    current_user_from_header, login_client, login_user, principal_of_claims,
    require_admin_from_header, CurrentUser,
};
use db_web::client::{Client, ClientType};
use db_web::errors::AuthError;
use db_web::password::encrypt_password;
use db_web::token::{generate_token, verify_token, Claims};
use db_web::user::{User, UserFlag};

const SECRET: &str = "unit-test-secret";
const NOW: i64 = 1_700_000_000;

fn bearer_header(flag: &str, id: u32, name: &str) -> String {
    let claims = Claims::with_times(id, name.to_string(), flag.to_string(), NOW);
    format!("Bearer {}", generate_token(&claims, SECRET))
}

#[test]
fn bearer_token_reads_the_shape() {
    assert_eq!(bearer_token("Bearer abc.def.ghi").unwrap(), "abc.def.ghi");
    assert_eq!(bearer_token("Bearer ").unwrap(), "");
    assert!(bearer_token("Token abc").is_none());
    assert!(bearer_token("Bearer").is_none());
    assert!(bearer_token("bearer abc").is_none());
    assert!(bearer_token("").is_none());
}

#[test]
fn missing_header_is_missing_token() {
    assert_eq!(
        current_user_from_header(None, NOW, SECRET).unwrap_err(),
        AuthError::MissingToken
    );
    let h = "Token xyz".to_string();
    assert_eq!(
        current_user_from_header(Some(&h), NOW, SECRET).unwrap_err(),
        AuthError::MissingToken
    );
}

#[test]
fn garbage_token_is_invalid() {
    let h = "Bearer not.a.token".to_string();
    assert_eq!(
        current_user_from_header(Some(&h), NOW, SECRET).unwrap_err(),
        AuthError::InvalidToken
    );
}

#[test]
fn token_under_another_secret_is_invalid() {
    let claims = Claims::with_times(9, "carol".to_string(), "operator".to_string(), NOW);
    let h = format!("Bearer {}", generate_token(&claims, "someone-elses-secret"));
    assert_eq!(
        current_user_from_header(Some(&h), NOW, SECRET).unwrap_err(),
        AuthError::InvalidToken
    );
}

#[test]
fn fresh_token_yields_user() {
    let h = bearer_header("operator", 9, "carol");
    let u = current_user_from_header(Some(&h), NOW + 10, SECRET).expect("fresh token passes");
    assert_eq!(u.id, 9);
    assert_eq!(u.username, "carol");
    assert!(matches!(u.flag, UserFlag::Operator));
}

#[test]
fn stale_token_is_expired() {
    let h = bearer_header("operator", 9, "carol");
    // One second past the 15-minute window.
    assert_eq!(
        current_user_from_header(Some(&h), NOW + 901, SECRET).unwrap_err(),
        AuthError::TokenExpired
    );
    // The last second of the window still passes.
    assert!(current_user_from_header(Some(&h), NOW + 900, SECRET).is_ok());
}

#[test]
fn expiry_check_sits_in_extraction_not_verification() {
    let claims = Claims::with_times(9, "carol".to_string(), "operator".to_string(), NOW);
    let tok = generate_token(&claims, SECRET);
    // Signature verification alone still accepts the stale token ...
    let got = verify_token(&tok, SECRET).expect("signature is fine");
    // ... and the principal step reports the expiry.
    assert_eq!(
        principal_of_claims(got, NOW + 10_000).unwrap_err(),
        AuthError::TokenExpired
    );
}

#[test]
fn admin_token_passes_admin_guard() {
    let h = bearer_header("admin", 1, "root");
    let a = require_admin_from_header(Some(&h), NOW, SECRET).expect("admin passes");
    assert_eq!(a.0.id, 1);
    assert_eq!(a.0.username, "root");
    assert!(matches!(a.0.flag, UserFlag::Admin));
}

#[test]
fn operator_token_fails_admin_guard() {
    let h = bearer_header("operator", 2, "carol");
    assert_eq!(
        require_admin_from_header(Some(&h), NOW, SECRET).unwrap_err(),
        AuthError::InsufficientRole
    );
}

#[test]
fn unknown_flag_fails_admin_guard() {
    let h = bearer_header("superuser", 3, "mallory");
    assert_eq!(
        require_admin_from_header(Some(&h), NOW, SECRET).unwrap_err(),
        AuthError::InsufficientRole
    );
}

#[test]
fn admin_gate_wraps_the_user() {
    let u = CurrentUser { id: 4, username: "root".to_string(), flag: UserFlag::Admin };
    let a = admin_gate(u).expect("admin passes the role guard");
    assert_eq!(a.0.id, 4);
    let o = CurrentUser { id: 5, username: "carol".to_string(), flag: UserFlag::Operator };
    assert_eq!(admin_gate(o).unwrap_err(), AuthError::InsufficientRole);
}

#[test]
fn client_token_yields_client() {
    let h = bearer_header("important", 21, "acme");
    let c = auth_client_from_header(Some(&h), NOW, SECRET).expect("client token passes");
    assert_eq!(c.0.id, 21);
    assert_eq!(c.0.username, "acme");
    assert!(matches!(c.0.ctype, ClientType::Important));
}

#[test]
fn client_guard_reports_same_failures() {
    assert_eq!(
        auth_client_from_header(None, NOW, SECRET).unwrap_err(),
        AuthError::MissingToken
    );
    let h = bearer_header("normal", 21, "acme");
    assert_eq!(
        auth_client_from_header(Some(&h), NOW + 99_999, SECRET).unwrap_err(),
        AuthError::TokenExpired
    );
}

#[test]
fn client_of_claims_reads_type_label() {
    let claims = Claims::with_times(21, "acme".to_string(), "abnormal".to_string(), NOW);
    let c = client_of_claims(claims, NOW).unwrap();
    assert!(matches!(c.ctype, ClientType::Abnormal));
}

fn stored_user(name: &str, password: &str, flag: UserFlag) -> User {
    User {
        id: 11,
        password: encrypt_password(password.to_string()).expect("hashing works"),
        name: name.to_string(),
        flag,
        description: None,
    }
}

#[test]
fn login_user_issues_verifiable_token() {
    let user = stored_user("dave", "hunter2", UserFlag::Admin);
    let (dto, token) =
        login_user(Some(user), "hunter2".to_string(), NOW, SECRET).expect("login works");
    assert_eq!(dto.id, 11);
    assert_eq!(dto.name, "dave");
    let claims = verify_token(&token, SECRET).expect("issued token verifies");
    assert_eq!(claims.user_id, 11);
    assert_eq!(claims.username, "dave");
    assert_eq!(claims.flag, "admin");
    assert_eq!(claims.iat, NOW);
    assert_eq!(claims.exp, NOW + 900);
}

#[test]
fn login_user_collapses_failure_messages() {
    let user = stored_user("dave", "hunter2", UserFlag::Operator);
    let wrong = login_user(Some(user), "letmein".to_string(), NOW, SECRET).unwrap_err();
    let missing = login_user(None, "hunter2".to_string(), NOW, SECRET).unwrap_err();
    // An unknown name and a wrong password read the same to the caller.
    assert_eq!(wrong.error, missing.error);
}

#[test]
fn login_client_issues_client_token() {
    let client = Client {
        id: 31,
        name: "Acme Ltd".to_string(),
        username: "acme".to_string(),
        password: encrypt_password("s3cret".to_string()).expect("hashing works"),
        ctype: ClientType::Normal,
        contactor: "Kim".to_string(),
        contactor_tel: "123".to_string(),
        email: "kim@acme.example".to_string(),
        description: None,
    };
    let (dto, token) =
        login_client(Some(client), "s3cret".to_string(), NOW, SECRET).expect("login works");
    assert_eq!(dto.username, "acme");
    let claims = verify_token(&token, SECRET).expect("issued token verifies");
    assert_eq!(claims.user_id, 31);
    assert_eq!(claims.username, "acme");
    assert_eq!(claims.flag, "normal");
}

#[test]
fn login_client_rejects_wrong_password() {
    let client = Client {
        id: 31,
        name: "Acme Ltd".to_string(),
        username: "acme".to_string(),
        password: encrypt_password("s3cret".to_string()).expect("hashing works"),
        ctype: ClientType::Normal,
        contactor: "Kim".to_string(),
        contactor_tel: "123".to_string(),
        email: "kim@acme.example".to_string(),
        description: None,
    };
    assert!(login_client(Some(client), "wrong".to_string(), NOW, SECRET).is_err());
    assert!(login_client(None, "s3cret".to_string(), NOW, SECRET).is_err());
}
