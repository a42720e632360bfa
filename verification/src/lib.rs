//! Request authorization for a REST API and the heartbeat pacemaker of a connection manager.

pub mod auth;
pub mod authorization;
pub mod authorization_header;
pub mod bearer_token;
pub mod error;
pub mod identity;
pub mod method;
pub mod pacemaker;
pub mod permission_map;
pub mod text;

pub use auth::{AuthorizationResult, authorize, get_identity};
pub use authorization::{AuthorizationHandler, AuthorizationHandlerResult, Permission};
pub use authorization_header::AuthorizationHeader;
pub use bearer_token::BearerToken;
pub use error::{InternalError, InvalidArgumentError};
pub use identity::{Identity, IdentityProvider};
pub use method::Method;
pub use pacemaker::{Pacemaker, ShutdownSignaler};
pub use permission_map::PermissionMap;
