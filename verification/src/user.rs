//! Staff users and their role flag.

use vstd::prelude::*;
use crate::text::str_eq;

verus! {

/// The role of a staff user. `Unknown` stands for any persisted label that
/// is neither `operator` nor `admin`; it grants nothing.
#[derive(Debug, Clone, Copy, PartialEq, Eq, Structural)]
pub enum UserFlag {
    Unknown,
    Operator,
    Admin,
}

/// The role a persisted label denotes.
pub open spec fn spec_flag_of_label(s: Seq<char>) -> UserFlag {
    if s == "operator"@ {
        UserFlag::Operator
    } else if s == "admin"@ {
        UserFlag::Admin
    } else {
        UserFlag::Unknown
    }
}

impl UserFlag {
    /// The label this role is persisted and claimed under.
    pub open spec fn spec_label(&self) -> Seq<char> {
        match self {
            UserFlag::Operator => "operator"@,
            UserFlag::Admin => "admin"@,
            UserFlag::Unknown => "unknown"@,
        }
    }

    /// Reads a role from its persisted label; anything unrecognised is `Unknown`.
    pub fn from_label(s: &str) -> (r: Self)
        ensures
            r == spec_flag_of_label(s@),
    {
        if str_eq(s, "operator") {
            UserFlag::Operator
        } else if str_eq(s, "admin") {
            UserFlag::Admin
        } else {
            UserFlag::Unknown
        }
    }

    /// Writes the role as its label.
    pub fn label(&self) -> (r: String)
        ensures
            r@ == self.spec_label(),
    {
        match self {
            UserFlag::Operator => "operator".to_owned(),
            UserFlag::Admin => "admin".to_owned(),
            UserFlag::Unknown => "unknown".to_owned(),
        }
    }
}

/// A staff user as persisted.
#[derive(Debug, Clone)]
pub struct User {
    pub id: u32,
    pub password: String,
    pub name: String,
    pub flag: UserFlag,
    pub description: Option<String>,
}

/// A login request for a staff user.
#[derive(Debug, Clone)]
pub struct LoginUser {
    pub name: String,
    pub password: String,
}

/// A staff user as shown to callers: everything but the password hash.
#[derive(Debug, Clone)]
pub struct UserDTO {
    pub id: u32,
    pub name: String,
    pub flag: UserFlag,
    pub description: Option<String>,
}

impl UserDTO {
    /// Strips the password hash off a persisted user.
    pub fn from_user(user: User) -> (r: Self)
        ensures
            r.id == user.id,
            r.name == user.name,
            r.flag == user.flag,
            r.description == user.description,
    {
        UserDTO { id: user.id, name: user.name, flag: user.flag, description: user.description }
    }
}

/// The fields of a user to create.
#[derive(Debug, Clone)]
pub struct InsertUser {
    pub name: String,
    pub password: String,
    pub flag: UserFlag,
    pub description: Option<String>,
}

/// A partial update of a user: absent fields keep their stored value.
#[derive(Debug, Clone)]
pub struct UpdateUser {
    pub id: u32,
    pub name: Option<String>,
    pub password: Option<String>,
    pub flag: Option<UserFlag>,
    pub description: Option<String>,
}

impl UpdateUser {
    /// The stored row after this update: each named field replaces the stored
    /// one, absent fields keep it (the `COALESCE` semantics of the store write).
    /// `password` must already be hashed by the caller.
    pub fn apply_to(&self, stored: &User) -> (r: User)
        ensures
            r.id == stored.id,
            r.name == (if self.name is Some { self.name->Some_0 } else { stored.name }),
            r.password == (if self.password is Some { self.password->Some_0 } else { stored.password }),
            r.flag == (if self.flag is Some { self.flag->Some_0 } else { stored.flag }),
            r.description == (if self.description is Some { self.description } else { stored.description }),
    {
        User {
            id: stored.id,
            name: match &self.name {
                Some(n) => n.clone(),
                None => stored.name.clone(),
            },
            password: match &self.password {
                Some(p) => p.clone(),
                None => stored.password.clone(),
            },
            flag: match &self.flag {
                Some(f) => *f,
                None => stored.flag,
            },
            description: match &self.description {
                Some(d) => Some(d.clone()),
                None => stored.description.clone(),
            },
        }
    }
}

} // verus!
