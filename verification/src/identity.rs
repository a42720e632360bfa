//! Client identities and the providers that find them in a request's authorization.
use vstd::prelude::*;
use crate::authorization_header::{AuthorizationHeader, AuthorizationHeaderView};
use crate::error::InternalError;

verus! {

/// Who a client is.
#[derive(Debug, Clone, PartialEq, Eq, Hash)]
pub enum Identity {
    /// An identity of a form that this library does not know.
    Custom(String),
    /// A public key.
    Key(String),
    /// A user ID.
    User(String),
}

/// Finds the client's identity in a request's authorization. Implementations decide
/// which kinds of header they accept.
pub trait IdentityProvider: Send + Sync {
    /// Whether `outcome` is an answer this provider may give for `authorization`. An
    /// implementation that states nothing admits every answer.
    open spec fn may_answer(&self, authorization: AuthorizationHeaderView, outcome: Result<Option<Identity>, InternalError>) -> bool {
        true
    }

    /// The identity that `authorization` proves, `Ok(None)` where this provider does not
    /// recognize it, or an error where it could not tell.
    fn get_identity(&self, authorization: &AuthorizationHeader) -> (outcome: Result<
        Option<Identity>,
        InternalError,
    >)
        ensures
            self.may_answer(authorization@, outcome),
    ;
}

} // verus!
