//! Permissions that guard endpoints, and the handlers that grant them.
use vstd::prelude::*;
use crate::error::InternalError;
use crate::identity::Identity;

verus! {

/// What a request to an endpoint must show before it is served.
#[derive(Debug, Clone, Copy, PartialEq, Eq)]
pub enum Permission {
    /// The client must be authenticated and hold the named permission.
    Check {
        /// The permission's ID, which authorization handlers are asked about.
        permission_id: &'static str,
        /// A name for the permission that people read.
        permission_display_name: &'static str,
        /// What the permission allows.
        permission_description: &'static str,
    },
    /// Any authenticated client may make the request.
    AllowAuthenticated,
    /// Any client may make the request, authenticated or not.
    AllowUnauthenticated,
}

/// An authorization handler's answer about a client and a permission.
#[derive(Debug, Clone, Copy, PartialEq, Eq, Structural)]
pub enum AuthorizationHandlerResult {
    /// The client holds the permission.
    Allow,
    /// The client does not hold the permission.
    Deny,
    /// This handler cannot tell; the next one is asked.
    Continue,
}

/// Decides whether a client holds a permission.
pub trait AuthorizationHandler: Send + Sync {
    /// Whether `outcome` is an answer this handler may give for `identity` and the
    /// permission `permission_id`. An implementation that states nothing admits every
    /// answer.
    open spec fn may_answer(&self, identity: Identity, permission_id: Seq<char>, outcome: Result<AuthorizationHandlerResult, InternalError>) -> bool {
        true
    }

    /// This handler's answer for `identity` and the permission `permission_id`, or an error
    /// where it could not tell.
    fn has_permission(&self, identity: &Identity, permission_id: &str) -> (outcome: Result<
        AuthorizationHandlerResult,
        InternalError,
    >)
        ensures
            self.may_answer(*identity, permission_id@, outcome),
    ;
}

} // verus!
