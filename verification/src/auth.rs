//! The per-request authentication guard.
//!
//! A protected request names its bearer token in the authorization header.
//! The guard reads that header, verifies the token's signature
//! (`token::verify_token`),
//! compares its expiry against the current time, and builds the typed
//! principal — a staff user, an admin, or a client. Every failure
//! short-circuits before any store access: `MissingToken` for an absent or
//! malformed header, `InvalidToken` for a bad signature or format,
//! `TokenExpired` for a stale token, and `InsufficientRole` when an admin
//! guard meets a plain operator. The login decisions that issue tokens live
//! here too.

use vstd::prelude::*;
use crate::client::{Client, ClientDTO, ClientType, spec_client_type_of_label};
use crate::errors::{AppError, AuthError};
use crate::password::{bcrypt_digest_wf, bcrypt_matches, verify_password};
use crate::text::str_eq;
use crate::token::{Claims, ClaimsView, generate_token, spec_token, spec_token_lifetime,
    verify_token};
use crate::user::{User, UserDTO, UserFlag, spec_flag_of_label};

verus! {

/// The authenticated staff user of a request.
#[derive(Debug)]
pub struct CurrentUser {
    pub id: u32,
    pub username: String,
    pub flag: UserFlag,
}

impl Clone for CurrentUser {
    /// Cloning keeps every field.
    fn clone(&self) -> (r: Self)
        ensures
            r == self,
    {
        CurrentUser { id: self.id, username: self.username.clone(), flag: self.flag }
    }
}

/// The authenticated client of a request.
#[derive(Debug)]
pub struct AuthClientS {
    pub id: u32,
    pub username: String,
    pub ctype: ClientType,
}

impl Clone for AuthClientS {
    /// Cloning keeps every field.
    fn clone(&self) -> (r: Self)
        ensures
            r == self,
    {
        AuthClientS { id: self.id, username: self.username.clone(), ctype: self.ctype }
    }
}

/// The client guard result, wrapping the authenticated client.
#[derive(Debug)]
pub struct AuthClient(pub AuthClientS);

/// The admin guard result, wrapping the authenticated user.
#[derive(Debug)]
pub struct RequireAdmin(pub CurrentUser);

/// The token inside a `Bearer <token>` authorization value, if the value
/// has that shape.
pub open spec fn spec_bearer_token(h: Seq<char>) -> Option<Seq<char>> {
    if h.len() >= 7 && h.subrange(0, 7) == "Bearer "@ {
        Some(h.skip(7))
    } else {
        None
    }
}

/// Reads the token out of an authorization value of the shape
/// `Bearer <token>`.
pub fn bearer_token(header: &str) -> (r: Option<String>)
    ensures
        match spec_bearer_token(header@) {
            Some(t) => r matches Some(s) && s@ == t,
            None => r is None,
        },
{
    let n = header.unicode_len();
    if n < 7 {
        return None;
    }
    let prefix = header.substring_char(0, 7);
    if !str_eq(prefix, "Bearer ") {
        return None;
    }
    let rest = header.substring_char(7, n);
    proof {
        assert(rest@ =~= header@.skip(7));
    }
    Some(rest.to_owned())
}

/// Turns verified claims into the typed staff principal, enforcing expiry
/// at `now`: the claims are good while `now` has not passed `exp`.
pub fn principal_of_claims(c: Claims, now: i64) -> (r: Result<CurrentUser, AuthError>)
    ensures
        c.exp >= now ==> (r matches Ok(u) && u.id == c.user_id && u.username == c.username
            && u.flag == spec_flag_of_label(c.flag@)),
        c.exp < now ==> (r matches Err(e) && e == AuthError::TokenExpired),
{
    if c.exp < now {
        return Err(AuthError::TokenExpired);
    }
    Ok(CurrentUser { id: c.user_id, username: c.username, flag: UserFlag::from_label(c.flag.as_str()) })
}

/// Turns verified claims into the typed client principal, enforcing expiry
/// at `now`.
pub fn client_of_claims(c: Claims, now: i64) -> (r: Result<AuthClientS, AuthError>)
    ensures
        c.exp >= now ==> (r matches Ok(u) && u.id == c.user_id && u.username == c.username
            && u.ctype == spec_client_type_of_label(c.flag@)),
        c.exp < now ==> (r matches Err(e) && e == AuthError::TokenExpired),
{
    if c.exp < now {
        return Err(AuthError::TokenExpired);
    }
    Ok(AuthClientS {
        id: c.user_id,
        username: c.username,
        ctype: ClientType::from_label(c.flag.as_str()),
    })
}

/// The authorization value carries no bearer token at all.
pub open spec fn spec_no_bearer(header: Option<&String>) -> bool {
    match header {
        Some(h) => spec_bearer_token(h@) is None,
        None => true,
    }
}

/// The bearer token the authorization value carries.
pub open spec fn spec_header_token(header: Option<&String>) -> Seq<char> {
    match header {
        Some(h) => spec_bearer_token(h@)->Some_0,
        None => Seq::empty(),
    }
}

/// The staff-user guard: reads the bearer token out of the authorization
/// value, verifies it, enforces expiry at `now`, and builds the principal.
/// `MissingToken` without a bearer value; `InvalidToken` for anything but a
/// token this service signed; `TokenExpired` once `exp` has passed.
pub fn current_user_from_header(header: Option<&String>, now: i64, secret: &str) -> (r: Result<
    CurrentUser,
    AuthError,
>)
    ensures
        spec_no_bearer(header) ==> (r matches Err(e) && e == AuthError::MissingToken),
        !spec_no_bearer(header) ==> {
            let tok = spec_header_token(header);
            &&& (!(exists|c: ClaimsView| tok == spec_token(c, secret@)) ==> (r matches Err(e) && e
                == AuthError::InvalidToken))
            &&& forall|c: ClaimsView|
                tok == #[trigger] spec_token(c, secret@) ==> (if c.exp >= now {
                    r matches Ok(u) && u.id == c.user_id && u.username@ == c.username && u.flag
                        == spec_flag_of_label(c.flag)
                } else {
                    r matches Err(e) && e == AuthError::TokenExpired
                })
        },
{
    let h = match header {
        Some(h) => h,
        None => {
            return Err(AuthError::MissingToken);
        },
    };
    let tok = match bearer_token(h.as_str()) {
        Some(t) => t,
        None => {
            return Err(AuthError::MissingToken);
        },
    };
    let claims = match verify_token(tok.as_str(), secret) {
        Ok(c) => c,
        Err(_) => {
            return Err(AuthError::InvalidToken);
        },
    };
    principal_of_claims(claims, now)
}

/// The client guard: as the staff-user guard, but the role label of the
/// claims is read as a client type.
pub fn auth_client_from_header(header: Option<&String>, now: i64, secret: &str) -> (r: Result<
    AuthClient,
    AuthError,
>)
    ensures
        spec_no_bearer(header) ==> (r matches Err(e) && e == AuthError::MissingToken),
        !spec_no_bearer(header) ==> {
            let tok = spec_header_token(header);
            &&& (!(exists|c: ClaimsView| tok == spec_token(c, secret@)) ==> (r matches Err(e) && e
                == AuthError::InvalidToken))
            &&& forall|c: ClaimsView|
                tok == #[trigger] spec_token(c, secret@) ==> (if c.exp >= now {
                    r matches Ok(u) && u.0.id == c.user_id && u.0.username@ == c.username
                        && u.0.ctype == spec_client_type_of_label(c.flag)
                } else {
                    r matches Err(e) && e == AuthError::TokenExpired
                })
        },
{
    let h = match header {
        Some(h) => h,
        None => {
            return Err(AuthError::MissingToken);
        },
    };
    let tok = match bearer_token(h.as_str()) {
        Some(t) => t,
        None => {
            return Err(AuthError::MissingToken);
        },
    };
    let claims = match verify_token(tok.as_str(), secret) {
        Ok(c) => c,
        Err(_) => {
            return Err(AuthError::InvalidToken);
        },
    };
    match client_of_claims(claims, now) {
        Ok(c) => Ok(AuthClient(c)),
        Err(e) => Err(e),
    }
}

/// The role guard over an authenticated user: admins pass through untouched,
/// anyone else fails with `InsufficientRole`.
pub fn admin_gate(user: CurrentUser) -> (r: Result<RequireAdmin, AuthError>)
    ensures
        user.flag == UserFlag::Admin ==> (r matches Ok(a) && a.0 == user),
        user.flag != UserFlag::Admin ==> (r matches Err(e) && e == AuthError::InsufficientRole),
{
    match user.flag {
        UserFlag::Admin => Ok(RequireAdmin(user)),
        _ => Err(AuthError::InsufficientRole),
    }
}

/// The admin guard: the staff-user guard followed by the role guard. A valid,
/// unexpired token yields the admin principal exactly when its role claim
/// is the admin label, and `InsufficientRole` otherwise.
pub fn require_admin_from_header(header: Option<&String>, now: i64, secret: &str) -> (r: Result<
    RequireAdmin,
    AuthError,
>)
    ensures
        spec_no_bearer(header) ==> (r matches Err(e) && e == AuthError::MissingToken),
        !spec_no_bearer(header) ==> {
            let tok = spec_header_token(header);
            &&& (!(exists|c: ClaimsView| tok == spec_token(c, secret@)) ==> (r matches Err(e) && e
                == AuthError::InvalidToken))
            &&& forall|c: ClaimsView|
                tok == #[trigger] spec_token(c, secret@) ==> (if c.exp < now {
                    r matches Err(e) && e == AuthError::TokenExpired
                } else if spec_flag_of_label(c.flag) == UserFlag::Admin {
                    r matches Ok(a) && a.0.id == c.user_id && a.0.username@ == c.username && a.0.flag
                        == UserFlag::Admin
                } else {
                    r matches Err(e) && e == AuthError::InsufficientRole
                })
        },
{
    let user = match current_user_from_header(header, now, secret) {
        Ok(u) => u,
        Err(e) => {
            return Err(e);
        },
    };
    admin_gate(user)
}

/// The staff login decision: `found` is the user row looked up by name (or
/// nothing). The password is checked against the stored digest — an unknown
/// name and a wrong password fail alike, so names cannot be probed — and on
/// success a token is issued at `now` for the user's id, name and role
/// label, beside the user stripped of the digest. Success is owed whenever
/// the user exists and bcrypt accepts the password against the stored,
/// well-formed digest.
pub fn login_user(found: Option<User>, password: String, now: i64, secret: &str) -> (r: Result<
    (UserDTO, String),
    AppError,
>)
    ensures
        found is None ==> r is Err,
        (found matches Some(u) && !bcrypt_matches(password@, u.password@)) ==> r is Err,
        (found matches Some(u) && bcrypt_digest_wf(u.password@) && bcrypt_matches(
            password@,
            u.password@,
        )) ==> r is Ok,
        r matches Ok(p) ==> ({
            let u = found->Some_0;
            &&& found is Some
            &&& bcrypt_matches(password@, u.password@)
            &&& p.0.id == u.id
            &&& p.0.name == u.name
            &&& p.0.flag == u.flag
            &&& p.0.description == u.description
            &&& p.1@ == spec_token(
                ClaimsView {
                    user_id: u.id,
                    username: u.name@,
                    flag: u.flag.spec_label(),
                    exp: (if now <= i64::MAX - spec_token_lifetime() {
                        now + spec_token_lifetime()
                    } else {
                        i64::MAX as int
                    }) as i64,
                    iat: now,
                },
                secret@,
            )
        }),
{
    let user = match found {
        Some(u) => u,
        None => {
            // One message for an unknown name and a wrong password.
            return Err(AppError::new("invalid username or password"));
        },
    };
    if !verify_password(password, &user.password) {
        return Err(AppError::new("invalid username or password"));
    }
    let claims = Claims::with_times(user.id, user.name.clone(), user.flag.label(), now);
    let token = generate_token(&claims, secret);
    Ok((UserDTO::from_user(user), token))
}

/// The client login decision: as `login_user`, over the client table; the
/// token carries the client's username and client-type label. Success is
/// owed whenever the client exists and bcrypt accepts the password against
/// the stored, well-formed digest.
pub fn login_client(found: Option<Client>, password: String, now: i64, secret: &str) -> (r: Result<
    (ClientDTO, String),
    AppError,
>)
    ensures
        found is None ==> r is Err,
        (found matches Some(c) && !bcrypt_matches(password@, c.password@)) ==> r is Err,
        (found matches Some(c) && bcrypt_digest_wf(c.password@) && bcrypt_matches(
            password@,
            c.password@,
        )) ==> r is Ok,
        r matches Ok(p) ==> ({
            let c = found->Some_0;
            &&& found is Some
            &&& bcrypt_matches(password@, c.password@)
            &&& p.0.name == c.name
            &&& p.0.username == c.username
            &&& p.0.ctype == c.ctype
            &&& p.1@ == spec_token(
                ClaimsView {
                    user_id: c.id,
                    username: c.username@,
                    flag: c.ctype.spec_label(),
                    exp: (if now <= i64::MAX - spec_token_lifetime() {
                        now + spec_token_lifetime()
                    } else {
                        i64::MAX as int
                    }) as i64,
                    iat: now,
                },
                secret@,
            )
        }),
{
    let client = match found {
        Some(c) => c,
        None => {
            return Err(AppError::new("invalid username or password"));
        },
    };
    if !verify_password(password, &client.password) {
        return Err(AppError::new("invalid username or password"));
    }
    let claims = Claims::with_times(client.id, client.username.clone(), client.ctype.label(), now);
    let token = generate_token(&claims, secret);
    Ok((ClientDTO::from_client(client), token))
}

} // verus!
