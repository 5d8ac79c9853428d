//! Labels, partial updates, caller-facing shapes, errors, page arithmetic.

use db_web::client::{Client, ClientDTO, ClientType, UpdateClient};
use db_web::errors::{AppError, AuthError, DataError};
use db_web::page::{default_page, default_page_size, page_bounds, total_pages};
use db_web::product::{Product, UpdateProduct};
use db_web::user::{UpdateUser, User, UserDTO, UserFlag};

#[test]
fn user_flag_labels_roundtrip() {
    assert!(matches!(UserFlag::from_label("operator"), UserFlag::Operator));
    assert!(matches!(UserFlag::from_label("admin"), UserFlag::Admin));
    assert!(matches!(UserFlag::from_label("root"), UserFlag::Unknown));
    assert!(matches!(UserFlag::from_label(""), UserFlag::Unknown));
    assert_eq!(UserFlag::Operator.label(), "operator");
    assert_eq!(UserFlag::Admin.label(), "admin");
    assert_eq!(UserFlag::Unknown.label(), "unknown");
}

#[test]
fn client_type_labels_roundtrip() {
    assert!(matches!(ClientType::from_label("abnormal"), ClientType::Abnormal));
    assert!(matches!(ClientType::from_label("normal"), ClientType::Normal));
    assert!(matches!(ClientType::from_label("important"), ClientType::Important));
    assert!(matches!(ClientType::from_label("vip"), ClientType::Unknown));
    assert_eq!(ClientType::Important.label(), "important");
}

fn stored_user() -> User {
    User {
        id: 5,
        password: "digest".to_string(),
        name: "dave".to_string(),
        flag: UserFlag::Operator,
        description: Some("old".to_string()),
    }
}

#[test]
fn user_update_keeps_absent_fields() {
    let upd = UpdateUser { id: 5, name: None, password: None, flag: None, description: None };
    let merged = upd.apply_to(&stored_user());
    assert_eq!(merged.name, "dave");
    assert_eq!(merged.password, "digest");
    assert!(matches!(merged.flag, UserFlag::Operator));
    assert_eq!(merged.description.as_deref(), Some("old"));
}

#[test]
fn user_update_replaces_named_fields() {
    let upd = UpdateUser {
        id: 5,
        name: Some("david".to_string()),
        password: Some("digest2".to_string()),
        flag: Some(UserFlag::Admin),
        description: Some("new".to_string()),
    };
    let merged = upd.apply_to(&stored_user());
    assert_eq!(merged.id, 5);
    assert_eq!(merged.name, "david");
    assert_eq!(merged.password, "digest2");
    assert!(matches!(merged.flag, UserFlag::Admin));
    assert_eq!(merged.description.as_deref(), Some("new"));
}

#[test]
fn user_dto_drops_the_digest() {
    let dto = UserDTO::from_user(stored_user());
    assert_eq!(dto.id, 5);
    assert_eq!(dto.name, "dave");
    assert_eq!(dto.description.as_deref(), Some("old"));
}

fn stored_client() -> Client {
    Client {
        id: 9,
        name: "Acme".to_string(),
        username: "acme".to_string(),
        password: "digest".to_string(),
        ctype: ClientType::Normal,
        contactor: "Kim".to_string(),
        contactor_tel: "123".to_string(),
        email: "a@b.example".to_string(),
        description: None,
    }
}

#[test]
fn client_update_never_touches_username_or_type() {
    let upd = UpdateClient {
        id: 9,
        name: Some("Acme Ltd".to_string()),
        password: None,
        ctype: Some(ClientType::Important),
        contactor: None,
        contactor_tel: Some("456".to_string()),
        email: None,
        description: Some("good payer".to_string()),
    };
    let merged = upd.apply_to(&stored_client());
    assert_eq!(merged.name, "Acme Ltd");
    assert_eq!(merged.username, "acme");
    // The classification changes only through its own endpoint.
    assert!(matches!(merged.ctype, ClientType::Normal));
    assert_eq!(merged.contactor, "Kim");
    assert_eq!(merged.contactor_tel, "456");
    assert_eq!(merged.description.as_deref(), Some("good payer"));
}

#[test]
fn client_dto_drops_id_and_digest() {
    let dto = ClientDTO::from_client(stored_client());
    assert_eq!(dto.name, "Acme");
    assert_eq!(dto.username, "acme");
    assert_eq!(dto.email, "a@b.example");
}

#[test]
fn product_update_merges() {
    let stored = Product {
        id: 3,
        name: "bolt".to_string(),
        size: "M4".to_string(),
        price: 120,
        max_amount: 1000,
        min_amount: 50,
    };
    let upd = UpdateProduct {
        id: 3,
        name: None,
        size: Some("M5".to_string()),
        price: Some(130),
        max_amount: None,
        min_amount: None,
    };
    let merged = upd.apply_to(&stored);
    assert_eq!(merged.name, "bolt");
    assert_eq!(merged.size, "M5");
    assert_eq!(merged.price, 130);
    assert_eq!(merged.max_amount, 1000);
}

#[test]
fn app_error_carries_the_message() {
    let e = AppError::new("boom");
    assert_eq!(e.error, "boom");
}

#[test]
fn auth_errors_map_to_statuses() {
    assert_eq!(AuthError::MissingToken.status_code(), 401);
    assert_eq!(AuthError::InvalidToken.status_code(), 401);
    assert_eq!(AuthError::TokenExpired.status_code(), 401);
    assert_eq!(AuthError::InsufficientRole.status_code(), 403);
}

#[test]
fn errors_flatten_to_the_envelope() {
    assert_eq!(AuthError::MissingToken.to_app_error().error, "missing authentication token");
    assert_eq!(AuthError::InvalidToken.to_app_error().error, "invalid token");
    assert_eq!(DataError::InsufficientStock.to_app_error().error, "insufficient stock");
    assert_eq!(DataError::RecordNotFound.to_app_error().error, "record not found");
    assert_eq!(
        DataError::TransactionFailed.to_app_error().error,
        "update failed, transaction did not complete"
    );
}

#[test]
fn page_defaults() {
    assert_eq!(default_page(), 1);
    assert_eq!(default_page_size(), 10);
}

#[test]
fn total_pages_is_the_ceiling() {
    assert_eq!(total_pages(0, 10), 0);
    assert_eq!(total_pages(1, 10), 1);
    assert_eq!(total_pages(10, 10), 1);
    assert_eq!(total_pages(11, 10), 2);
    assert_eq!(total_pages(25, 10), 3);
    assert_eq!(total_pages(30, 10), 3);
    assert_eq!(total_pages(31, 10), 4);
    assert_eq!(total_pages(7, 1), 7);
}

#[test]
fn page_bounds_cut_the_listing() {
    // 25 records, pages of 10: the third page holds records 20..25.
    assert_eq!(page_bounds(25, 3, 10), (20, 25));
    assert_eq!(page_bounds(25, 1, 10), (0, 10));
    assert_eq!(page_bounds(25, 2, 10), (10, 20));
    // Past the end: the empty cut.
    assert_eq!(page_bounds(25, 4, 10), (25, 25));
    assert_eq!(page_bounds(0, 1, 10), (0, 0));
}
