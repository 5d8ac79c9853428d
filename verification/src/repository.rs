//! Repositories: the warehouses stock is kept in.

use vstd::prelude::*;

verus! {

/// A repository as persisted.
#[derive(Debug, Clone)]
pub struct Repository {
    pub id: u32,
    pub name: String,
    pub description: Option<String>,
}

/// A query for one repository by id.
#[derive(Debug, Clone, Copy)]
pub struct RepositoryQueryId {
    pub id: u32,
}

/// The fields of a repository to create.
#[derive(Debug, Clone)]
pub struct InsertRepository {
    pub name: String,
    pub description: Option<String>,
}

/// An update of a repository; both fields are written as given.
#[derive(Debug, Clone)]
pub struct UpdateRepository {
    pub id: u32,
    pub name: Option<String>,
    pub description: Option<String>,
}

/// A search for repositories whose name contains the given text.
#[derive(Debug, Clone)]
pub struct RepositoryNameQuery {
    pub name: String,
}

} // verus!
