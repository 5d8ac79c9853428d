//! Clients (the ordering parties) and their account data.

use vstd::prelude::*;
use crate::text::str_eq;

verus! {

/// How a client is classified. `Unknown` stands for any persisted label
/// that none of the other variants carries.
#[derive(Debug, Clone, Copy, PartialEq, Eq, Structural)]
pub enum ClientType {
    Unknown,
    Abnormal,
    Normal,
    Important,
}

/// The classification a persisted label denotes.
pub open spec fn spec_client_type_of_label(s: Seq<char>) -> ClientType {
    if s == "abnormal"@ {
        ClientType::Abnormal
    } else if s == "normal"@ {
        ClientType::Normal
    } else if s == "important"@ {
        ClientType::Important
    } else {
        ClientType::Unknown
    }
}

impl ClientType {
    /// The label this classification is persisted and claimed under.
    pub open spec fn spec_label(&self) -> Seq<char> {
        match self {
            ClientType::Abnormal => "abnormal"@,
            ClientType::Normal => "normal"@,
            ClientType::Important => "important"@,
            ClientType::Unknown => "unknown"@,
        }
    }

    /// Reads a classification from its persisted label; anything
    /// unrecognised is `Unknown`.
    pub fn from_label(s: &str) -> (r: Self)
        ensures
            r == spec_client_type_of_label(s@),
    {
        if str_eq(s, "abnormal") {
            ClientType::Abnormal
        } else if str_eq(s, "normal") {
            ClientType::Normal
        } else if str_eq(s, "important") {
            ClientType::Important
        } else {
            ClientType::Unknown
        }
    }

    /// Writes the classification as its label.
    pub fn label(&self) -> (r: String)
        ensures
            r@ == self.spec_label(),
    {
        match self {
            ClientType::Abnormal => "abnormal".to_owned(),
            ClientType::Normal => "normal".to_owned(),
            ClientType::Important => "important".to_owned(),
            ClientType::Unknown => "unknown".to_owned(),
        }
    }
}

/// A query for clients of one classification.
#[derive(Debug, Clone, Copy)]
pub struct ClientTypeQuery {
    pub ctype: ClientType,
}

/// A client as persisted.
#[derive(Debug, Clone)]
pub struct Client {
    pub id: u32,
    pub name: String,
    pub username: String,
    pub password: String,
    pub ctype: ClientType,
    pub contactor: String,
    pub contactor_tel: String,
    pub email: String,
    pub description: Option<String>,
}

/// A query for one client by id.
#[derive(Debug, Clone, Copy)]
pub struct ClientQueryId {
    pub id: u32,
}

/// A query for one page of a client's orders.
#[derive(Debug, Clone, Copy)]
pub struct ClientPageQueryId {
    pub id: u32,
    pub page_size: u64,
    pub page: u64,
}

/// The fields of a client to create.
#[derive(Debug, Clone)]
pub struct InsertClient {
    pub name: String,
    pub username: String,
    pub password: String,
    pub ctype: ClientType,
    pub contactor: String,
    pub contactor_tel: String,
    pub email: Option<String>,
    pub description: Option<String>,
}

/// A partial update of a client: absent fields keep their stored value.
#[derive(Debug, Clone)]
pub struct UpdateClient {
    pub id: u32,
    pub name: Option<String>,
    pub password: Option<String>,
    pub ctype: Option<ClientType>,
    pub contactor: Option<String>,
    pub contactor_tel: Option<String>,
    pub email: Option<String>,
    pub description: Option<String>,
}

impl UpdateClient {
    /// The stored row after this update: each named field replaces the stored
    /// one, absent fields keep it. The classification is not touched here;
    /// it changes only through its own endpoint. `password` must already be
    /// hashed by the caller.
    pub fn apply_to(&self, stored: &Client) -> (r: Client)
        ensures
            r.id == stored.id,
            r.username == stored.username,
            r.ctype == stored.ctype,
            r.name == (if self.name is Some { self.name->Some_0 } else { stored.name }),
            r.password == (if self.password is Some { self.password->Some_0 } else { stored.password }),
            r.contactor == (if self.contactor is Some { self.contactor->Some_0 } else { stored.contactor }),
            r.contactor_tel == (if self.contactor_tel is Some { self.contactor_tel->Some_0 } else { stored.contactor_tel }),
            r.email == (if self.email is Some { self.email->Some_0 } else { stored.email }),
            r.description == (if self.description is Some { self.description } else { stored.description }),
    {
        Client {
            id: stored.id,
            name: match &self.name {
                Some(v) => v.clone(),
                None => stored.name.clone(),
            },
            username: stored.username.clone(),
            password: match &self.password {
                Some(v) => v.clone(),
                None => stored.password.clone(),
            },
            ctype: stored.ctype,
            contactor: match &self.contactor {
                Some(v) => v.clone(),
                None => stored.contactor.clone(),
            },
            contactor_tel: match &self.contactor_tel {
                Some(v) => v.clone(),
                None => stored.contactor_tel.clone(),
            },
            email: match &self.email {
                Some(v) => v.clone(),
                None => stored.email.clone(),
            },
            description: match &self.description {
                Some(v) => Some(v.clone()),
                None => stored.description.clone(),
            },
        }
    }
}

/// A login request for a client account.
#[derive(Debug, Clone)]
pub struct LoginClient {
    pub username: String,
    pub password: String,
}

/// A client as shown to callers: everything but the id and the password hash.
#[derive(Debug, Clone)]
pub struct ClientDTO {
    pub name: String,
    pub username: String,
    pub ctype: ClientType,
    pub contactor: String,
    pub contactor_tel: String,
    pub email: String,
    pub description: Option<String>,
}

impl ClientDTO {
    /// Strips the id and the password hash off a persisted client.
    pub fn from_client(c: Client) -> (r: Self)
        ensures
            r.name == c.name,
            r.username == c.username,
            r.ctype == c.ctype,
            r.contactor == c.contactor,
            r.contactor_tel == c.contactor_tel,
            r.email == c.email,
            r.description == c.description,
    {
        ClientDTO {
            name: c.name,
            username: c.username,
            ctype: c.ctype,
            contactor: c.contactor,
            contactor_tel: c.contactor_tel,
            email: c.email,
            description: c.description,
        }
    }
}

/// A request to reclassify one client.
#[derive(Debug, Clone, Copy)]
pub struct ClientTypeModifyQuery {
    pub id: u32,
    pub ctype: ClientType,
}

} // verus!
