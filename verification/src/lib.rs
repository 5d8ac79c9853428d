//! Core of a small warehouse / order-management backend.
//!
//! The library holds everything that can be stated and checked as logic:
//! bearer-token issuance and verification, the per-request authentication
//! guards, password verification, the transactional inventory and order
//! operations over a modelled store, and the pagination arithmetic.
//! Network transport and the SQL store itself live outside the library and
//! hand plain values in and out.

pub mod auth;
pub mod claims_text;
pub mod client;
pub mod errors;
pub mod inventory;
pub mod order;
pub mod page;
pub mod password;
pub mod product;
pub mod repository;
pub mod text;
pub mod token;
pub mod user;
