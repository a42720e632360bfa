use splinter::{
    authorize, AuthorizationHandler, AuthorizationHandlerResult, AuthorizationHeader,
    AuthorizationResult, Identity, IdentityProvider, InternalError, Method, Permission,
    PermissionMap,
};

/// Verifies that the `authorize` function returns `AuthorizationResult::Unauthorized` when no
/// identity providers are specified. Without any identity providers, there's no way to properly
/// authorize.
#[test]
fn authorize_no_identity_providers() {
    let permission_map = {
        let mut map = PermissionMap::new();
        map.add_permission(
            Method::Get,
            "/test/endpoint",
            Permission::AllowAuthenticated,
        );
        map
    };

    assert!(matches!(
        authorize(
            &Method::Get,
            "/test/endpoint",
            Some("auth"),
            &permission_map,
            &[],
            &[Box::new(AlwaysAllowAuthorizationHandler)],
        ),
        AuthorizationResult::Unauthorized
    ));
}

/// Verifies that the `authorize` function returns `AuthorizationResult::Unauthorized` when no
/// identity provider returns an identity for the auth header.
#[test]
fn authorize_no_matching_identity_provider() {
    let permission_map = {
        let mut map = PermissionMap::new();
        map.add_permission(
            Method::Get,
            "/test/endpoint",
            Permission::AllowAuthenticated,
        );
        map
    };

    assert!(matches!(
        authorize(
            &Method::Get,
            "/test/endpoint",
            Some("auth"),
            &permission_map,
            &[Box::new(AlwaysRejectIdentityProvider)],
            &[Box::new(AlwaysAllowAuthorizationHandler)],
        ),
        AuthorizationResult::Unauthorized
    ));
}

/// Verifies that the `authorize` function returns `AuthorizationResult::Unauthorized` when no
/// auth header is provided. By using an identity provider that always successfully gets an
/// identity, we verify that the failure is because of the missing header value.
#[test]
fn authorize_no_header_provided() {
    let permission_map = {
        let mut map = PermissionMap::new();
        map.add_permission(
            Method::Get,
            "/test/endpoint",
            Permission::AllowAuthenticated,
        );
        map
    };

    assert!(matches!(
        authorize(
            &Method::Get,
            "/test/endpoint",
            None,
            &permission_map,
            &[Box::new(AlwaysAcceptIdentityProvider)],
            &[Box::new(AlwaysAllowAuthorizationHandler)],
        ),
        AuthorizationResult::Unauthorized
    ));
}

/// Verifies that the `authorize` function returns `AuthorizationResult::UnknownEndpoint` when
/// a permission cannot be found for the request. This is accomplished by passing in an empty
/// permission map.
#[test]
fn authorize_unknown_endpoint() {
    assert!(matches!(
        authorize(
            &Method::Get,
            "/test/endpoint",
            None,
            &Default::default(),
            &[Box::new(AlwaysAcceptIdentityProvider)],
            &[Box::new(AlwaysAllowAuthorizationHandler)],
        ),
        AuthorizationResult::UnknownEndpoint
    ));
}

/// Verifies that the `authorization` function returns
/// `AuthorizationResult::NoAuthorizationNecessary` when the requested endpoint does not require
/// authorization, whether the header is set or not. By using an identity provider that always
/// returns `None`, we verify that authorization is being ignored.
#[test]
fn authorize_no_authorization_necessary() {
    {
        let mut permission_map = PermissionMap::new();
        permission_map.add_permission(
            Method::Get,
            "/test/endpoint",
            Permission::AllowUnauthenticated,
        );

        // Verify with header not set
        assert!(matches!(
            authorize(
                &Method::Get,
                "/test/endpoint",
                None,
                &permission_map,
                &[Box::new(AlwaysRejectIdentityProvider)],
                &[Box::new(AlwaysAllowAuthorizationHandler)],
            ),
            AuthorizationResult::NoAuthorizationNecessary
        ));

        // Verify with header set
        assert!(matches!(
            authorize(
                &Method::Get,
                "/test/endpoint",
                Some("auth"),
                &permission_map,
                &[Box::new(AlwaysRejectIdentityProvider)],
                &[Box::new(AlwaysAllowAuthorizationHandler)],
            ),
            AuthorizationResult::NoAuthorizationNecessary
        ));
    }
}

/// Verifies the simple case where `authorize` is called with a single identity provider that
/// successfully gets the client's identity. This test uses an endpoint with
/// `Permission::AllowAuthenticated` to ignore authorization handlers which are covered by other
/// tests.
#[test]
fn authorize_successful_one_identity_provider() {
    let expected_auth = "auth".parse().unwrap();
    let expected_identity = AlwaysAcceptIdentityProvider
        .get_identity(&expected_auth)
        .unwrap()
        .unwrap();

    let permission_map = {
        let mut map = PermissionMap::new();
        map.add_permission(
            Method::Get,
            "/test/endpoint",
            Permission::AllowAuthenticated,
        );
        map
    };

    assert!(matches!(
        authorize(
            &Method::Get,
            "/test/endpoint",
            Some("auth"),
            &permission_map,
            &[Box::new(AlwaysAcceptIdentityProvider)],
            &[Box::new(AlwaysAllowAuthorizationHandler)],
        ),
        AuthorizationResult::Authorized(identity) if identity == expected_identity
    ));
}

/// Verifies the case where `authorize` is called with multile identity providers and only one
/// successfully gets the client's identity. This test uses an endpoint with
/// `Permission::AllowAuthenticated` to ignore authorization handlers which are covered by other
/// tests.
#[test]
fn authorize_successful_multiple_identity_providers() {
    let expected_auth = "auth".parse().unwrap();
    let expected_identity = AlwaysAcceptIdentityProvider
        .get_identity(&expected_auth)
        .unwrap()
        .unwrap();

    let permission_map = {
        let mut map = PermissionMap::new();
        map.add_permission(
            Method::Get,
            "/test/endpoint",
            Permission::AllowAuthenticated,
        );
        map
    };

    assert!(matches!(
        authorize(
            &Method::Get,
            "/test/endpoint",
            Some("auth"),
            &permission_map,
            &[
                Box::new(AlwaysRejectIdentityProvider),
                Box::new(AlwaysAcceptIdentityProvider),
                Box::new(AlwaysRejectIdentityProvider),
            ],
            &[Box::new(AlwaysAllowAuthorizationHandler)],
        ),
        AuthorizationResult::Authorized(identity) if identity == expected_identity
    ));
}

/// Verifies the case where `authorize` is called with multiple identity provider and one errors
/// before another successfully gets the client's identity. This test uses an endpoint with
/// `Permission::AllowAuthenticated` to ignore authorization handlers which are covered by other
/// tests.
#[test]
fn authorize_successful_after_identity_provider_error() {
    let expected_auth = "auth".parse().unwrap();
    let expected_identity = AlwaysAcceptIdentityProvider
        .get_identity(&expected_auth)
        .unwrap()
        .unwrap();

    let permission_map = {
        let mut map = PermissionMap::new();
        map.add_permission(
            Method::Get,
            "/test/endpoint",
            Permission::AllowAuthenticated,
        );
        map
    };

    assert!(matches!(
        authorize(
            &Method::Get,
            "/test/endpoint",
            Some("auth"),
            &permission_map,
            &[
                Box::new(AlwaysErrIdentityProvider),
                Box::new(AlwaysAcceptIdentityProvider),
            ],
            &[Box::new(AlwaysAllowAuthorizationHandler)],
        ),
        AuthorizationResult::Authorized(identity) if identity == expected_identity
    ));
}

/// Verifies that the `authorize` function returns `AuthorizationResult::Unauthorized` when no
/// authorization handlers are specified, since this function should deny by default.
#[test]
fn authorize_no_authorization_handlers() {
    let permission_map = {
        let mut map = PermissionMap::new();
        map.add_permission(
            Method::Get,
            "/test/endpoint",
            Permission::Check {
                permission_id: "permission",
                permission_display_name: "",
                permission_description: "",
            },
        );
        map
    };

    assert!(matches!(
        authorize(
            &Method::Get,
            "/test/endpoint",
            Some("auth"),
            &permission_map,
            &[Box::new(AlwaysAcceptIdentityProvider)],
            &[],
        ),
        AuthorizationResult::Unauthorized
    ));
}

/// Verifies that the `authorize` function returns `AuthorizationResult::Unauthorized` when no
/// authorization handlers returns `Allow` or `Deny`. since this function should deny by
/// default (must get an explicit `Allow` from an authorization handler).
#[test]
fn authorize_no_allowing_authorization_handler() {
    let permission_map = {
        let mut map = PermissionMap::new();
        map.add_permission(
            Method::Get,
            "/test/endpoint",
            Permission::Check {
                permission_id: "permission",
                permission_display_name: "",
                permission_description: "",
            },
        );
        map
    };

    assert!(matches!(
        authorize(
            &Method::Get,
            "/test/endpoint",
            Some("auth"),
            &permission_map,
            &[Box::new(AlwaysAcceptIdentityProvider)],
            &[Box::new(AlwaysContinueAuthorizationHandler)],
        ),
        AuthorizationResult::Unauthorized
    ));
}

/// Verifies that the `authorize` function returns `AuthorizationResult::Unauthorized` when an
/// authorization handler returns `Deny`, even if an auth handler after it returns `Allow`.
#[test]
fn authorize_deny_before_allowing_authorization_handler() {
    let permission_map = {
        let mut map = PermissionMap::new();
        map.add_permission(
            Method::Get,
            "/test/endpoint",
            Permission::Check {
                permission_id: "permission",
                permission_display_name: "",
                permission_description: "",
            },
        );
        map
    };

    assert!(matches!(
        authorize(
            &Method::Get,
            "/test/endpoint",
            Some("auth"),
            &permission_map,
            &[Box::new(AlwaysAcceptIdentityProvider)],
            &[
                Box::new(AlwaysDenyAuthorizationHandler),
                Box::new(AlwaysAllowAuthorizationHandler),
            ],
        ),
        AuthorizationResult::Unauthorized
    ));
}

/// Verifies that the `authorize` function returns `AuthorizationResult::Authorized(identity)`
/// when an authorization handler returns `Allow`, even if an auth handler after it returns
/// `Deny`.
#[test]
fn authorize_allow_before_denying_authorization_handler() {
    let expected_auth = "auth".parse().unwrap();
    let expected_identity = AlwaysAcceptIdentityProvider
        .get_identity(&expected_auth)
        .unwrap()
        .unwrap();

    let permission_map = {
        let mut map = PermissionMap::new();
        map.add_permission(
            Method::Get,
            "/test/endpoint",
            Permission::Check {
                permission_id: "permission",
                permission_display_name: "",
                permission_description: "",
            },
        );
        map
    };

    assert!(matches!(
        authorize(
            &Method::Get,
            "/test/endpoint",
            Some("auth"),
            &permission_map,
            &[Box::new(AlwaysAcceptIdentityProvider)],
            &[
                Box::new(AlwaysAllowAuthorizationHandler),
                Box::new(AlwaysDenyAuthorizationHandler),
            ],
        ),
        AuthorizationResult::Authorized(identity) if identity == expected_identity
    ));
}

/// Verifies that the `authorize` function returns `AuthorizationResult::Authorized(identity)`
/// when an authorization handler returns `Allow` after another authorization handler returns
/// `Continue`.
#[test]
fn authorize_allow_after_continuing_authorization_handler() {
    let expected_auth = "auth".parse().unwrap();
    let expected_identity = AlwaysAcceptIdentityProvider
        .get_identity(&expected_auth)
        .unwrap()
        .unwrap();

    let permission_map = {
        let mut map = PermissionMap::new();
        map.add_permission(
            Method::Get,
            "/test/endpoint",
            Permission::Check {
                permission_id: "permission",
                permission_display_name: "",
                permission_description: "",
            },
        );
        map
    };

    assert!(matches!(
        authorize(
            &Method::Get,
            "/test/endpoint",
            Some("auth"),
            &permission_map,
            &[Box::new(AlwaysAcceptIdentityProvider)],
            &[
                Box::new(AlwaysContinueAuthorizationHandler),
                Box::new(AlwaysAllowAuthorizationHandler),
            ],
        ),
        AuthorizationResult::Authorized(identity) if identity == expected_identity
    ));
}

/// Verifies that the `authorize` function returns `AuthorizationResult::Authorized(identity)`
/// when an authorization handler returns `Allow` after another authorization handler returns
/// `Err(_)`.
#[test]
fn authorize_allow_after_err_authorization_handler() {
    let expected_auth = "auth".parse().unwrap();
    let expected_identity = AlwaysAcceptIdentityProvider
        .get_identity(&expected_auth)
        .unwrap()
        .unwrap();

    let permission_map = {
        let mut map = PermissionMap::new();
        map.add_permission(
            Method::Get,
            "/test/endpoint",
            Permission::Check {
                permission_id: "permission",
                permission_display_name: "",
                permission_description: "",
            },
        );
        map
    };

    assert!(matches!(
        authorize(
            &Method::Get,
            "/test/endpoint",
            Some("auth"),
            &permission_map,
            &[Box::new(AlwaysAcceptIdentityProvider)],
            &[
                Box::new(AlwaysErrAuthorizationHandler),
                Box::new(AlwaysAllowAuthorizationHandler),
            ],
        ),
        AuthorizationResult::Authorized(identity) if identity == expected_identity
    ));
}

/// An identity provider that always returns `Ok(Some(_))`
#[derive(Clone)]
struct AlwaysAcceptIdentityProvider;

impl IdentityProvider for AlwaysAcceptIdentityProvider {
    fn get_identity(
        &self,
        _authorization: &AuthorizationHeader,
    ) -> Result<Option<Identity>, InternalError> {
        Ok(Some(Identity::Custom("identity".into())))
    }
}

/// An identity provider that always returns `Ok(None)`
#[derive(Clone)]
struct AlwaysRejectIdentityProvider;

impl IdentityProvider for AlwaysRejectIdentityProvider {
    fn get_identity(
        &self,
        _authorization: &AuthorizationHeader,
    ) -> Result<Option<Identity>, InternalError> {
        Ok(None)
    }
}

/// An identity provider that always returns `Err(_)`
#[derive(Clone)]
struct AlwaysErrIdentityProvider;

impl IdentityProvider for AlwaysErrIdentityProvider {
    fn get_identity(
        &self,
        _authorization: &AuthorizationHeader,
    ) -> Result<Option<Identity>, InternalError> {
        Err(InternalError::with_message("failed".into()))
    }
}

/// An authorization handler that always returns `Ok(AuthorizationHandlerResult::Allow)`
#[derive(Clone)]
struct AlwaysAllowAuthorizationHandler;

impl AuthorizationHandler for AlwaysAllowAuthorizationHandler {
    fn has_permission(
        &self,
        _identity: &Identity,
        _permission_id: &str,
    ) -> Result<AuthorizationHandlerResult, InternalError> {
        Ok(AuthorizationHandlerResult::Allow)
    }
}

/// An authorization handler that always returns `Ok(AuthorizationHandlerResult::Deny)`
#[derive(Clone)]
struct AlwaysDenyAuthorizationHandler;

impl AuthorizationHandler for AlwaysDenyAuthorizationHandler {
    fn has_permission(
        &self,
        _identity: &Identity,
        _permission_id: &str,
    ) -> Result<AuthorizationHandlerResult, InternalError> {
        Ok(AuthorizationHandlerResult::Deny)
    }
}

/// An authorization handler that always returns `Ok(AuthorizationHandlerResult::Continue)`
#[derive(Clone)]
struct AlwaysContinueAuthorizationHandler;

impl AuthorizationHandler for AlwaysContinueAuthorizationHandler {
    fn has_permission(
        &self,
        _identity: &Identity,
        _permission_id: &str,
    ) -> Result<AuthorizationHandlerResult, InternalError> {
        Ok(AuthorizationHandlerResult::Continue)
    }
}

/// An authorization handler that always returns `Err(_)`
#[derive(Clone)]
struct AlwaysErrAuthorizationHandler;

impl AuthorizationHandler for AlwaysErrAuthorizationHandler {
    fn has_permission(
        &self,
        _identity: &Identity,
        _permission_id: &str,
    ) -> Result<AuthorizationHandlerResult, InternalError> {
        Err(InternalError::with_message("failed".into()))
    }
}
