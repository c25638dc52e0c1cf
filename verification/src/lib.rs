//! A verified request-handling runtime for a small web service.
//!
//! The crate models the core of the server: a request dispatcher that
//! matches routes and extracts typed parameters, an ordered middleware
//! chain with short-circuiting rejection, a startup-time service
//! container, a signed-token authentication service, and a bounded
//! worker pool that offloads blocking jobs away from the event loop.
//! Transport-level HTTP parsing, persistence, and process bootstrap are
//! left to the surrounding (unverified) program.

use vstd::prelude::*;

pub mod container;
pub mod dispatch;
pub mod forms;
pub mod middleware;
pub mod offload;
pub mod token;

verus! {

/// Access level carried by an authentication token and demanded by
/// protected routes. `Admin` satisfies every requirement; `User` only
/// satisfies `User`.
#[derive(Clone, Copy, Debug, PartialEq, Eq, Structural)]
pub enum Role {
    User,
    Admin,
}

impl Role {
    /// What it means for a role to satisfy a route's requirement.
    pub open spec fn satisfies_spec(self, required: Role) -> bool {
        self == Role::Admin || required == Role::User
    }

    /// Set-membership check used by the authorization middleware.
    pub fn satisfies(self, required: Role) -> (r: bool)
        ensures
            r == self.satisfies_spec(required),
    {
        match self {
            Role::Admin => true,
            Role::User => matches!(required, Role::User),
        }
    }
}

/// The error taxonomy of the runtime. Every rejected or failed request
/// is mapped to exactly one of these, and each maps to one status code.
#[derive(Clone, Copy, Debug, PartialEq, Eq, Structural)]
pub enum HttpError {
    /// Malformed or missing parameters or body.
    BadRequest,
    /// Missing or invalid token.
    Unauthorized,
    /// Valid token, insufficient role.
    Forbidden,
    /// Body exceeds the configured limit.
    PayloadTooLarge,
    /// No matching route.
    NotFound,
    /// Offload dispatch failure, container resolution failure, or an
    /// unexpected downstream failure.
    InternalError,
    /// Malformed compressed body.
    DecodeError,
}

impl HttpError {
    /// The status code each error is rendered as.
    pub open spec fn status_spec(self) -> u16 {
        match self {
            HttpError::BadRequest => 400,
            HttpError::Unauthorized => 401,
            HttpError::Forbidden => 403,
            HttpError::PayloadTooLarge => 413,
            HttpError::NotFound => 404,
            HttpError::InternalError => 500,
            HttpError::DecodeError => 400,
        }
    }

    /// Maps the error to its response status code.
    pub fn status(self) -> (s: u16)
        ensures
            s == self.status_spec(),
    {
        match self {
            HttpError::BadRequest => 400,
            HttpError::Unauthorized => 401,
            HttpError::Forbidden => 403,
            HttpError::PayloadTooLarge => 413,
            HttpError::NotFound => 404,
            HttpError::InternalError => 500,
            HttpError::DecodeError => 400,
        }
    }
}

} // verus!
