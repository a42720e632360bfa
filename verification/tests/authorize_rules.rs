use std::sync::atomic::{AtomicUsize, Ordering};
use std::sync::Arc;

use splinter::auth::{authorize_by_identity, handler_step, identity_from_outcome, HandlerStep};
use splinter::{
    authorize, get_identity, AuthorizationHandler, AuthorizationHandlerResult,
    AuthorizationHeader, AuthorizationResult, BearerToken, Identity, IdentityProvider,
    InternalError, Method, Permission, PermissionMap,
};

/// Finds a user identity in `Bearer Biome:<user>` headers only.
struct BiomeUserProvider;

impl IdentityProvider for BiomeUserProvider {
    fn get_identity(
        &self,
        authorization: &AuthorizationHeader,
    ) -> Result<Option<Identity>, InternalError> {
        match authorization {
            AuthorizationHeader::Bearer(BearerToken::Biome(user)) => {
                Ok(Some(Identity::User(user.clone())))
            }
            _ => Ok(None),
        }
    }
}

/// Always finds the same key.
struct FixedKeyProvider(&'static str);

impl IdentityProvider for FixedKeyProvider {
    fn get_identity(
        &self,
        _authorization: &AuthorizationHeader,
    ) -> Result<Option<Identity>, InternalError> {
        Ok(Some(Identity::Key(self.0.to_string())))
    }
}

/// Counts how often it is asked and always continues.
struct CountingHandler(Arc<AtomicUsize>);

impl AuthorizationHandler for CountingHandler {
    fn has_permission(
        &self,
        _identity: &Identity,
        _permission_id: &str,
    ) -> Result<AuthorizationHandlerResult, InternalError> {
        self.0.fetch_add(1, Ordering::SeqCst);
        Ok(AuthorizationHandlerResult::Continue)
    }
}

/// Allows only the named permission for the user `alice`.
struct AliceHandler(&'static str);

impl AuthorizationHandler for AliceHandler {
    fn has_permission(
        &self,
        identity: &Identity,
        permission_id: &str,
    ) -> Result<AuthorizationHandlerResult, InternalError> {
        if *identity == Identity::User("alice".to_string()) && permission_id == self.0 {
            Ok(AuthorizationHandlerResult::Allow)
        } else {
            Ok(AuthorizationHandlerResult::Deny)
        }
    }
}

fn checked_map() -> PermissionMap {
    let mut map = PermissionMap::new();
    map.add_permission(
        Method::Post,
        "/circuits/{id}",
        Permission::Check {
            permission_id: "circuit.write",
            permission_display_name: "Circuit write",
            permission_description: "Allows changing circuits",
        },
    );
    map
}

#[test]
fn identity_comes_from_the_parsed_header() {
    assert_eq!(
        get_identity(Some("Bearer Biome:alice"), &[Box::new(BiomeUserProvider)]),
        Some(Identity::User("alice".to_string()))
    );
    assert_eq!(get_identity(Some("Bearer OAuth2:alice"), &[Box::new(BiomeUserProvider)]), None);
    assert_eq!(get_identity(None, &[Box::new(FixedKeyProvider("k"))]), None);
}

#[test]
fn first_identity_found_wins() {
    assert_eq!(
        get_identity(
            Some("x"),
            &[
                Box::new(BiomeUserProvider),
                Box::new(FixedKeyProvider("first")),
                Box::new(FixedKeyProvider("second")),
            ]
        ),
        Some(Identity::Key("first".to_string()))
    );
}

#[test]
fn handler_gets_identity_and_permission_id() {
    let map = checked_map();
    assert_eq!(
        authorize(
            &Method::Post,
            "/circuits/abc",
            Some("Bearer Biome:alice"),
            &map,
            &[Box::new(BiomeUserProvider)],
            &[Box::new(AliceHandler("circuit.write"))],
        ),
        AuthorizationResult::Authorized(Identity::User("alice".to_string()))
    );
    assert_eq!(
        authorize(
            &Method::Post,
            "/circuits/abc",
            Some("Bearer Biome:bob"),
            &map,
            &[Box::new(BiomeUserProvider)],
            &[Box::new(AliceHandler("circuit.write"))],
        ),
        AuthorizationResult::Unauthorized
    );
    assert_eq!(
        authorize(
            &Method::Post,
            "/circuits/abc",
            Some("Bearer Biome:alice"),
            &map,
            &[Box::new(BiomeUserProvider)],
            &[Box::new(AliceHandler("circuit.read"))],
        ),
        AuthorizationResult::Unauthorized
    );
}

#[test]
fn handlers_are_not_asked_without_identity() {
    let count = Arc::new(AtomicUsize::new(0));
    let result = authorize(
        &Method::Post,
        "/circuits/abc",
        None,
        &checked_map(),
        &[Box::new(FixedKeyProvider("k"))],
        &[Box::new(CountingHandler(count.clone()))],
    );
    assert_eq!(result, AuthorizationResult::Unauthorized);
    assert_eq!(count.load(Ordering::SeqCst), 0);
}

#[test]
fn handlers_after_a_decision_are_not_asked() {
    let count = Arc::new(AtomicUsize::new(0));
    let result = authorize(
        &Method::Post,
        "/circuits/abc",
        Some("Bearer Biome:alice"),
        &checked_map(),
        &[Box::new(BiomeUserProvider)],
        &[
            Box::new(CountingHandler(count.clone())),
            Box::new(AliceHandler("circuit.write")),
            Box::new(CountingHandler(count.clone())),
        ],
    );
    assert_eq!(result, AuthorizationResult::Authorized(Identity::User("alice".to_string())));
    assert_eq!(count.load(Ordering::SeqCst), 1);
}

#[test]
fn unknown_method_or_path_is_unknown_endpoint() {
    let map = checked_map();
    assert_eq!(
        authorize(&Method::Get, "/circuits/abc", None, &map, &[], &[]),
        AuthorizationResult::UnknownEndpoint
    );
    assert_eq!(
        authorize(&Method::Post, "/circuits", None, &map, &[], &[]),
        AuthorizationResult::UnknownEndpoint
    );
}

#[test]
fn outcome_steps() {
    assert_eq!(identity_from_outcome(Ok(None)), None);
    assert_eq!(
        identity_from_outcome(Ok(Some(Identity::Key("k".to_string())))),
        Some(Identity::Key("k".to_string()))
    );
    assert_eq!(identity_from_outcome(Err(InternalError::with_message("e".to_string()))), None);
    let alice = || Identity::User("alice".to_string());
    assert_eq!(
        handler_step(alice(), &Err(InternalError::with_message("e".to_string()))),
        HandlerStep::Continue(alice())
    );
    assert_eq!(
        handler_step(alice(), &Ok(AuthorizationHandlerResult::Continue)),
        HandlerStep::Continue(alice())
    );
    assert_eq!(
        handler_step(alice(), &Ok(AuthorizationHandlerResult::Deny)),
        HandlerStep::Decided(AuthorizationResult::Unauthorized)
    );
    assert_eq!(
        handler_step(alice(), &Ok(AuthorizationHandlerResult::Allow)),
        HandlerStep::Decided(AuthorizationResult::Authorized(alice()))
    );
}

#[test]
fn internal_error_keeps_its_message() {
    assert_eq!(InternalError::with_message("failed".to_string()).message(), "failed");
}

/// Always returns `Ok(None)`.
struct RejectingProvider;

impl IdentityProvider for RejectingProvider {
    fn get_identity(
        &self,
        _authorization: &AuthorizationHeader,
    ) -> Result<Option<Identity>, InternalError> {
        Ok(None)
    }
}

#[test]
fn credentials_endpoints_need_no_authorization() {
    for endpoint in [
        "/biome/register",
        "/biome/login",
        "/biome/token",
        "/oauth/login",
        "/oauth/callback",
    ] {
        assert_eq!(
            authorize_by_identity(endpoint, None, &[Box::new(RejectingProvider)]),
            AuthorizationResult::NoAuthorizationNecessary
        );
        assert_eq!(
            authorize_by_identity(endpoint, Some("auth"), &[Box::new(RejectingProvider)]),
            AuthorizationResult::NoAuthorizationNecessary
        );
    }
}

#[test]
fn other_endpoints_need_an_identity() {
    assert_eq!(
        authorize_by_identity("/biome/users", Some("auth"), &[Box::new(RejectingProvider)]),
        AuthorizationResult::Unauthorized
    );
    assert_eq!(
        authorize_by_identity("/biome/login/", Some("auth"), &[Box::new(FixedKeyProvider("k"))]),
        AuthorizationResult::Authorized(Identity::Key("k".to_string()))
    );
    assert_eq!(
        authorize_by_identity("/biome/users", None, &[Box::new(FixedKeyProvider("k"))]),
        AuthorizationResult::Unauthorized
    );
    assert_eq!(
        authorize_by_identity("/biome/users", Some("auth"), &[]),
        AuthorizationResult::Unauthorized
    );
}
