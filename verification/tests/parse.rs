use splinter::{AuthorizationHeader, BearerToken};

/// Verfifies that the `AuthorizationHeader` enum is correctly parsed from strings
#[test]
fn parse_authorization_header() {
    assert!(matches!(
        "Bearer token".parse(),
        Ok(AuthorizationHeader::Bearer(token)) if token == "token".parse().unwrap()
    ));

    assert!(matches!(
        "Unknown token".parse(),
        Ok(AuthorizationHeader::Custom(auth_str)) if auth_str == "Unknown token"
    ));

    assert!(matches!(
        "test".parse(),
        Ok(AuthorizationHeader::Custom(auth_str)) if auth_str == "test"
    ));
}

/// Verfifies that the `BearerToken` enum is correctly parsed from strings
#[test]
fn parse_bearer_token() {
    assert!(matches!(
        "Biome:test".parse(),
        Ok(BearerToken::Biome(token)) if token == "test"
    ));

    assert!(matches!(
        "Cylinder:test".parse(),
        Ok(BearerToken::Cylinder(token)) if token == "test"
    ));

    assert!(matches!(
        "OAuth2:test".parse(),
        Ok(BearerToken::OAuth2(token)) if token == "test"
    ));

    assert!(matches!(
        "Unknown:test".parse(),
        Ok(BearerToken::Custom(token)) if token == "Unknown:test"
    ));

    assert!(matches!(
        "test".parse(),
        Ok(BearerToken::Custom(token)) if token == "test"
    ));
}

#[test]
fn bearer_header_carries_typed_token() {
    assert_eq!(
        AuthorizationHeader::parse_header("Bearer Biome:abc"),
        AuthorizationHeader::Bearer(BearerToken::Biome("abc".to_string()))
    );
    assert_eq!(
        AuthorizationHeader::parse_header("Bearer OAuth2:x:y"),
        AuthorizationHeader::Bearer(BearerToken::OAuth2("x:y".to_string()))
    );
}

#[test]
fn bearer_header_splits_at_first_space_only() {
    assert_eq!(
        AuthorizationHeader::parse_header("Bearer a b"),
        AuthorizationHeader::Bearer(BearerToken::Custom("a b".to_string()))
    );
    assert_eq!(
        AuthorizationHeader::parse_header("Bearer "),
        AuthorizationHeader::Bearer(BearerToken::Custom(String::new()))
    );
}

#[test]
fn scheme_is_case_sensitive_and_exact() {
    assert_eq!(
        AuthorizationHeader::parse_header("bearer token"),
        AuthorizationHeader::Custom("bearer token".to_string())
    );
    assert_eq!(
        AuthorizationHeader::parse_header(" Bearer token"),
        AuthorizationHeader::Custom(" Bearer token".to_string())
    );
    assert_eq!(
        AuthorizationHeader::parse_header(""),
        AuthorizationHeader::Custom(String::new())
    );
    assert_eq!(
        AuthorizationHeader::parse_header("Bearer"),
        AuthorizationHeader::Custom("Bearer".to_string())
    );
}

#[test]
fn token_kind_must_match_exactly() {
    assert_eq!(BearerToken::parse_token("biome:t"), BearerToken::Custom("biome:t".to_string()));
    assert_eq!(BearerToken::parse_token(":t"), BearerToken::Custom(":t".to_string()));
    assert_eq!(BearerToken::parse_token("Biome:"), BearerToken::Biome(String::new()));
    assert_eq!(BearerToken::parse_token("Cylinder:a:b"), BearerToken::Cylinder("a:b".to_string()));
    assert_eq!(BearerToken::parse_token("Biomes:t"), BearerToken::Custom("Biomes:t".to_string()));
}

#[test]
fn parsing_handles_non_ascii_text() {
    assert_eq!(
        AuthorizationHeader::parse_header("Bearer Biome:é✓"),
        AuthorizationHeader::Bearer(BearerToken::Biome("é✓".to_string()))
    );
    assert_eq!(
        AuthorizationHeader::parse_header("Ünknown token"),
        AuthorizationHeader::Custom("Ünknown token".to_string())
    );
}
