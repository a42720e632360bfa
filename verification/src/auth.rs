//! Authorization of REST API requests: the endpoint's permission, the client's identity,
//! and the authorization handlers' answers decide whether a request is served.
use vstd::prelude::*;
use crate::authorization::{AuthorizationHandler, AuthorizationHandlerResult, Permission};
use crate::authorization_header::{AuthorizationHeader, parse_authorization_header};
use crate::error::InternalError;
use crate::identity::{Identity, IdentityProvider};
use crate::method::Method;
use crate::permission_map::{PermissionMap, permission_for};
use crate::text::str_eq;

verus! {

/// The outcome of authorizing a request.
#[derive(Debug, Clone, PartialEq, Eq)]
pub enum AuthorizationResult {
    /// The client is who the identity says and may make the request.
    Authorized(Identity),
    /// The endpoint may be requested by anyone.
    NoAuthorizationNecessary,
    /// The client may not make the request.
    Unauthorized,
    /// No permission is registered for the request.
    UnknownEndpoint,
}

/// The text of the authorization header, where one was given.
pub open spec fn header_text(auth_header: Option<&str>) -> Option<Seq<char>> {
    match auth_header {
        Some(header) => Some(header@),
        None => None,
    }
}

/// What one identity provider's answer contributes: the identity it found; an error
/// counts as no identity.
pub open spec fn provided_identity(outcome: Result<Option<Identity>, InternalError>) -> Option<Identity> {
    match outcome {
        Ok(found) => found,
        Err(_) => None,
    }
}

/// The identity that the providers' answers, in the order they were given, yield: the
/// first one found.
pub open spec fn first_identity(outcomes: Seq<Result<Option<Identity>, InternalError>>) -> Option<Identity>
    decreases outcomes.len(),
{
    if outcomes.len() == 0 {
        None
    } else if provided_identity(outcomes[0]) is Some {
        provided_identity(outcomes[0])
    } else {
        first_identity(outcomes.drop_first())
    }
}

/// `outcomes` are the answers that count, in order, of `providers` for the header: there
/// are none without a header; with one, the `i`-th is an answer that the `i`-th provider's
/// own contract admits for the header that the text means; every answer but the last finds
/// no identity; and fewer answers than providers count only where the last one finds an
/// identity. Whether providers after that one are asked is not stated here.
pub open spec fn identity_search(
    header: Option<Seq<char>>,
    providers: Seq<Box<dyn IdentityProvider>>,
    outcomes: Seq<Result<Option<Identity>, InternalError>>,
) -> bool {
    match header {
        None => outcomes.len() == 0,
        Some(text) => {
            &&& outcomes.len() <= providers.len()
            &&& forall|i: int|
                0 <= i < outcomes.len() ==> #[trigger] providers[i].may_answer(
                    parse_authorization_header(text),
                    outcomes[i],
                )
            &&& forall|k: int| 0 <= k < outcomes.len() - 1 ==> provided_identity(#[trigger] outcomes[k]) is None
            &&& outcomes.len() < providers.len() ==> (outcomes.len() > 0 && provided_identity(
                outcomes.last(),
            ) is Some)
        },
    }
}

/// What one authorization handler's answer contributes: an error counts as `Continue`.
pub open spec fn effective_answer(outcome: Result<AuthorizationHandlerResult, InternalError>) -> AuthorizationHandlerResult {
    match outcome {
        Ok(answer) => answer,
        Err(_) => AuthorizationHandlerResult::Continue,
    }
}

/// What one handler's answer decides for `identity`: `Allow` authorizes it, `Deny`
/// refuses, and `Continue` or an error decides nothing, so the next handler is asked.
pub open spec fn handler_decision(identity: Identity, outcome: Result<AuthorizationHandlerResult, InternalError>) -> Option<AuthorizationResult> {
    match effective_answer(outcome) {
        AuthorizationHandlerResult::Allow => Some(AuthorizationResult::Authorized(identity)),
        AuthorizationHandlerResult::Deny => Some(AuthorizationResult::Unauthorized),
        AuthorizationHandlerResult::Continue => None,
    }
}

/// What the handlers' answers, in the order they were given, decide for `identity`: the
/// first answer that decides; where none does, the request is refused.
pub open spec fn handlers_decide(identity: Identity, outcomes: Seq<Result<AuthorizationHandlerResult, InternalError>>) -> AuthorizationResult
    decreases outcomes.len(),
{
    if outcomes.len() == 0 {
        AuthorizationResult::Unauthorized
    } else {
        match handler_decision(identity, outcomes[0]) {
            Some(result) => result,
            None => handlers_decide(identity, outcomes.drop_first()),
        }
    }
}

/// `outcomes` are the answers that count, in order, of `handlers` about `identity` and
/// `permission_id`: the `i`-th is an answer that the `i`-th handler's own contract admits;
/// every answer but the last decides nothing; and fewer answers than handlers count only
/// where the last one decides. Whether handlers after that one are asked is not stated
/// here.
pub open spec fn handler_consultation(
    handlers: Seq<Box<dyn AuthorizationHandler>>,
    identity: Identity,
    permission_id: Seq<char>,
    outcomes: Seq<Result<AuthorizationHandlerResult, InternalError>>,
) -> bool {
    &&& outcomes.len() <= handlers.len()
    &&& forall|i: int|
        0 <= i < outcomes.len() ==> #[trigger] handlers[i].may_answer(identity, permission_id, outcomes[i])
    &&& forall|k: int| 0 <= k < outcomes.len() - 1 ==> handler_decision(identity, #[trigger] outcomes[k]) is None
    &&& outcomes.len() < handlers.len() ==> (outcomes.len() > 0 && handler_decision(
        identity,
        outcomes.last(),
    ) is Some)
}

/// Whether a permission asks for the client's identity.
pub open spec fn requires_identity(permission: Permission) -> bool {
    match permission {
        Permission::AllowUnauthenticated => false,
        _ => true,
    }
}

/// What is asked for a request whose permission asks for an identity: the providers, for
/// the header; then, for a permission to check and an identity found, the handlers, about
/// that identity and the permission's ID; no handler otherwise.
pub open spec fn authorization_trace(
    permission: Permission,
    header: Option<Seq<char>>,
    providers: Seq<Box<dyn IdentityProvider>>,
    handlers: Seq<Box<dyn AuthorizationHandler>>,
    found: Seq<Result<Option<Identity>, InternalError>>,
    answers: Seq<Result<AuthorizationHandlerResult, InternalError>>,
) -> bool {
    &&& identity_search(header, providers, found)
    &&& match (first_identity(found), permission) {
        (Some(identity), Permission::Check { permission_id, .. }) => handler_consultation(
            handlers,
            identity,
            permission_id@,
            answers,
        ),
        _ => answers.len() == 0,
    }
}

/// The result for a request whose permission asks for an identity, given the providers'
/// and handlers' answers.
pub open spec fn authenticated_result(
    permission: Permission,
    found: Seq<Result<Option<Identity>, InternalError>>,
    answers: Seq<Result<AuthorizationHandlerResult, InternalError>>,
) -> AuthorizationResult {
    match first_identity(found) {
        None => AuthorizationResult::Unauthorized,
        Some(identity) => match permission {
            Permission::Check { .. } => handlers_decide(identity, answers),
            _ => AuthorizationResult::Authorized(identity),
        },
    }
}

/// The providers' first identity is the one of the first answer that finds one.
pub proof fn lemma_first_identity_wins(outcomes: Seq<Result<Option<Identity>, InternalError>>, k: int)
    requires
        0 <= k < outcomes.len(),
        provided_identity(outcomes[k]) is Some,
        forall|j: int| 0 <= j < k ==> provided_identity(outcomes[j]) is None,
    ensures
        first_identity(outcomes) == provided_identity(outcomes[k]),
    decreases k,
{
    if k > 0 {
        let rest = outcomes.drop_first();
        assert forall|j: int| 0 <= j < k - 1 implies provided_identity(rest[j]) is None by {
            assert(rest[j] == outcomes[j + 1]);
        }
        lemma_first_identity_wins(rest, k - 1);
    }
}

/// Where no provider finds an identity, there is none.
pub proof fn lemma_no_identity_found(outcomes: Seq<Result<Option<Identity>, InternalError>>)
    requires
        forall|j: int| 0 <= j < outcomes.len() ==> provided_identity(outcomes[j]) is None,
    ensures
        first_identity(outcomes) is None,
    decreases outcomes.len(),
{
    if outcomes.len() > 0 {
        let rest = outcomes.drop_first();
        assert forall|j: int| 0 <= j < rest.len() implies provided_identity(rest[j]) is None by {
            assert(rest[j] == outcomes[j + 1]);
        }
        lemma_no_identity_found(rest);
    }
}

/// The first handler whose answer decides, decides.
pub proof fn lemma_first_decisive_answer_wins(identity: Identity, outcomes: Seq<Result<AuthorizationHandlerResult, InternalError>>, k: int)
    requires
        0 <= k < outcomes.len(),
        handler_decision(identity, outcomes[k]) is Some,
        forall|j: int| 0 <= j < k ==> handler_decision(identity, outcomes[j]) is None,
    ensures
        handlers_decide(identity, outcomes) == handler_decision(identity, outcomes[k])->0,
    decreases k,
{
    if k > 0 {
        let rest = outcomes.drop_first();
        assert forall|j: int| 0 <= j < k - 1 implies handler_decision(identity, rest[j]) is None by {
            assert(rest[j] == outcomes[j + 1]);
        }
        lemma_first_decisive_answer_wins(identity, rest, k - 1);
    }
}

/// Where no handler allows or denies, the request is refused: authorization is denied by
/// default.
pub proof fn lemma_deny_by_default(identity: Identity, outcomes: Seq<Result<AuthorizationHandlerResult, InternalError>>)
    requires
        forall|j: int| 0 <= j < outcomes.len() ==> handler_decision(identity, outcomes[j]) is None,
    ensures
        handlers_decide(identity, outcomes) == AuthorizationResult::Unauthorized,
    decreases outcomes.len(),
{
    if outcomes.len() > 0 {
        let rest = outcomes.drop_first();
        assert forall|j: int| 0 <= j < rest.len() implies handler_decision(identity, rest[j]) is None by {
            assert(rest[j] == outcomes[j + 1]);
        }
        lemma_deny_by_default(identity, rest);
    }
}

/// The handlers either authorize the identity they were asked about or refuse.
pub proof fn lemma_handlers_authorize_or_refuse(identity: Identity, outcomes: Seq<Result<AuthorizationHandlerResult, InternalError>>)
    ensures
        handlers_decide(identity, outcomes) == AuthorizationResult::Authorized(identity)
            || handlers_decide(identity, outcomes) == AuthorizationResult::Unauthorized,
    decreases outcomes.len(),
{
    if outcomes.len() > 0 {
        lemma_handlers_authorize_or_refuse(identity, outcomes.drop_first());
    }
}

/// The identity that one provider's answer contributes.
pub fn identity_from_outcome(outcome: Result<Option<Identity>, InternalError>) -> (r: Option<Identity>)
    ensures
        r == provided_identity(outcome),
{
    match outcome {
        Ok(found) => found,
        Err(_) => None,
    }
}

/// Where the handlers stand after one answer: decided, or still to ask the next handler
/// about the identity, which is handed back.
#[derive(Debug, PartialEq, Eq)]
pub enum HandlerStep {
    /// The answer decided the request.
    Decided(AuthorizationResult),
    /// The answer decided nothing.
    Continue(Identity),
}

/// What one handler's answer about `identity` means for the request.
pub fn handler_step(identity: Identity, outcome: &Result<AuthorizationHandlerResult, InternalError>) -> (step: HandlerStep)
    ensures
        step == match handler_decision(identity, *outcome) {
            Some(result) => HandlerStep::Decided(result),
            None => HandlerStep::Continue(identity),
        },
{
    match outcome {
        Ok(AuthorizationHandlerResult::Allow) => HandlerStep::Decided(AuthorizationResult::Authorized(identity)),
        Ok(AuthorizationHandlerResult::Deny) => HandlerStep::Decided(AuthorizationResult::Unauthorized),
        Ok(AuthorizationHandlerResult::Continue) => HandlerStep::Continue(identity),
        Err(_) => HandlerStep::Continue(identity),
    }
}

/// Finds the client's identity: reads the authorization header, then asks the identity
/// providers in order and takes the first identity one of them finds. A provider's error
/// counts as no identity. Without a header there is no identity.
pub fn get_identity(auth_header: Option<&str>, identity_providers: &[Box<dyn IdentityProvider>]) -> (r: Option<Identity>)
    ensures
        exists|outcomes: Seq<Result<Option<Identity>, InternalError>>|
            #[trigger] identity_search(header_text(auth_header), identity_providers@, outcomes)
                && r == first_identity(outcomes),
        auth_header is None ==> r is None,
        identity_providers@.len() == 0 ==> r is None,
{
    let header = match auth_header {
        Some(header) => header,
        None => {
            assert(identity_search(header_text(auth_header), identity_providers@, Seq::empty()));
            return None;
        },
    };
    let authorization = AuthorizationHeader::parse_header(header);
    let ghost text = header@;
    let ghost mut outcomes: Seq<Result<Option<Identity>, InternalError>> = Seq::empty();
    let mut i: usize = 0;
    while i < identity_providers.len()
        invariant
            header_text(auth_header) == Some(text),
            authorization@ == parse_authorization_header(text),
            i <= identity_providers@.len(),
            outcomes.len() == i,
            forall|k: int|
                0 <= k < i ==> #[trigger] identity_providers@[k].may_answer(
                    parse_authorization_header(text),
                    outcomes[k],
                ),
            forall|k: int| 0 <= k < i ==> provided_identity(#[trigger] outcomes[k]) is None,
        decreases identity_providers@.len() - i,
    {
        let outcome = identity_providers[i].get_identity(&authorization);
        proof {
            outcomes = outcomes.push(outcome);
        }
        match identity_from_outcome(outcome) {
            Some(id) => {
                proof {
                    lemma_first_identity_wins(outcomes, i as int);
                    assert(identity_search(header_text(auth_header), identity_providers@, outcomes));
                }
                return Some(id);
            },
            None => {},
        }
        i = i + 1;
    }
    proof {
        lemma_no_identity_found(outcomes);
        assert(identity_search(header_text(auth_header), identity_providers@, outcomes));
    }
    None
}

/// Asks the authorization handlers in order whether `identity` holds `permission_id`; the
/// first whose answer decides, decides, and where none does the request is refused.
fn consult_handlers(identity: Identity, permission_id: &str, authorization_handlers: &[Box<dyn AuthorizationHandler>]) -> (r: AuthorizationResult)
    ensures
        exists|outcomes: Seq<Result<AuthorizationHandlerResult, InternalError>>|
            #[trigger] handler_consultation(authorization_handlers@, identity, permission_id@, outcomes)
                && r == handlers_decide(identity, outcomes),
{
    let ghost asked = identity;
    let ghost mut outcomes: Seq<Result<AuthorizationHandlerResult, InternalError>> = Seq::empty();
    let mut current = identity;
    let mut i: usize = 0;
    while i < authorization_handlers.len()
        invariant
            current == asked,
            asked == identity,
            i <= authorization_handlers@.len(),
            outcomes.len() == i,
            forall|k: int|
                0 <= k < i ==> #[trigger] authorization_handlers@[k].may_answer(
                    asked,
                    permission_id@,
                    outcomes[k],
                ),
            forall|k: int| 0 <= k < i ==> handler_decision(asked, #[trigger] outcomes[k]) is None,
        decreases authorization_handlers@.len() - i,
    {
        let outcome = authorization_handlers[i].has_permission(&current, permission_id);
        proof {
            outcomes = outcomes.push(outcome);
        }
        match handler_step(current, &outcome) {
            HandlerStep::Decided(result) => {
                proof {
                    assert(outcomes[i as int] == outcome);
                    assert(handler_decision(asked, outcome) == Some(result));
                    lemma_first_decisive_answer_wins(asked, outcomes, i as int);
                    assert(result == handlers_decide(asked, outcomes));
                    assert(handler_consultation(authorization_handlers@, asked, permission_id@, outcomes));
                }
                return result;
            },
            HandlerStep::Continue(id) => {
                assert(outcomes[i as int] == outcome);
                current = id;
            },
        }
        i = i + 1;
    }
    proof {
        lemma_deny_by_default(asked, outcomes);
        assert(handler_consultation(authorization_handlers@, asked, permission_id@, outcomes));
    }
    AuthorizationResult::Unauthorized
}

/// Decides whether a request may be served. The permission registered for the request
/// decides what is asked: an unknown request is refused as such; one that anyone may make
/// needs nothing; one that any authenticated client may make needs an identity; one guarded
/// by a permission also needs a handler to allow it.
pub fn authorize(
    method: &Method,
    endpoint: &str,
    auth_header: Option<&str>,
    permission_map: &PermissionMap,
    identity_providers: &[Box<dyn IdentityProvider>],
    authorization_handlers: &[Box<dyn AuthorizationHandler>],
) -> (r: AuthorizationResult)
    ensures
        match permission_for(permission_map@, *method, endpoint@) {
            None => r == AuthorizationResult::UnknownEndpoint,
            Some(permission) => if requires_identity(permission) {
                exists|
                    found: Seq<Result<Option<Identity>, InternalError>>,
                    answers: Seq<Result<AuthorizationHandlerResult, InternalError>>,
                |
                    #[trigger] authorization_trace(
                        permission,
                        header_text(auth_header),
                        identity_providers@,
                        authorization_handlers@,
                        found,
                        answers,
                    ) && r == authenticated_result(permission, found, answers)
            } else {
                r == AuthorizationResult::NoAuthorizationNecessary
            },
        },
        (r == AuthorizationResult::UnknownEndpoint) <==> permission_for(permission_map@, *method, endpoint@) is None,
        permission_for(permission_map@, *method, endpoint@) == Some(Permission::AllowUnauthenticated)
            ==> r == AuthorizationResult::NoAuthorizationNecessary,
        permission_for(permission_map@, *method, endpoint@) matches Some(p) && requires_identity(p)
            && (auth_header is None || identity_providers@.len() == 0) ==> r == AuthorizationResult::Unauthorized,
        permission_for(permission_map@, *method, endpoint@) matches Some(Permission::Check { .. })
            && authorization_handlers@.len() == 0 ==> r == AuthorizationResult::Unauthorized,
        r is Authorized ==> (permission_for(permission_map@, *method, endpoint@) matches Some(p)
            && requires_identity(p)),
{
    let ghost expected = permission_for(permission_map@, *method, endpoint@);
    let ghost header = header_text(auth_header);
    let permission = match permission_map.get_permission(method, endpoint) {
        Some(permission) => permission,
        None => return AuthorizationResult::UnknownEndpoint,
    };
    assert(expected == Some(*permission));
    let ghost no_answers = Seq::<Result<AuthorizationHandlerResult, InternalError>>::empty();
    match *permission {
        Permission::AllowUnauthenticated => AuthorizationResult::NoAuthorizationNecessary,
        Permission::AllowAuthenticated => {
            let identity = get_identity(auth_header, identity_providers);
            let ghost found = choose|found: Seq<Result<Option<Identity>, InternalError>>|
                #[trigger] identity_search(header, identity_providers@, found)
                    && identity == first_identity(found);
            let r = match identity {
                Some(identity) => AuthorizationResult::Authorized(identity),
                None => AuthorizationResult::Unauthorized,
            };
            assert(authorization_trace(*permission, header, identity_providers@, authorization_handlers@, found, no_answers)
                && r == authenticated_result(*permission, found, no_answers));
            r
        },
        Permission::Check { permission_id, .. } => {
            let identity = get_identity(auth_header, identity_providers);
            let ghost found = choose|found: Seq<Result<Option<Identity>, InternalError>>|
                #[trigger] identity_search(header, identity_providers@, found)
                    && identity == first_identity(found);
            match identity {
                Some(identity) => {
                    let r = consult_handlers(identity, permission_id, authorization_handlers);
                    let ghost answers = choose|answers: Seq<Result<AuthorizationHandlerResult, InternalError>>|
                        #[trigger] handler_consultation(authorization_handlers@, identity, permission_id@, answers)
                            && r == handlers_decide(identity, answers);
                    assert(authorization_trace(*permission, header, identity_providers@, authorization_handlers@, found, answers)
                        && r == authenticated_result(*permission, found, answers));
                    assert(authorization_handlers@.len() == 0 ==> answers.len() == 0);
                    proof {
                        lemma_handlers_authorize_or_refuse(identity, answers);
                    }
                    r
                },
                None => {
                    let r = AuthorizationResult::Unauthorized;
                    assert(authorization_trace(*permission, header, identity_providers@, authorization_handlers@, found, no_answers)
                        && r == authenticated_result(*permission, found, no_answers));
                    r
                },
            }
        },
    }
}

/// The endpoints through which clients obtain their credentials: Biome's registration,
/// login and token endpoints and the OAuth login and callback endpoints.
pub open spec fn is_credentials_endpoint(endpoint: Seq<char>) -> bool {
    ||| endpoint == "/biome/register"@
    ||| endpoint == "/biome/login"@
    ||| endpoint == "/biome/token"@
    ||| endpoint == "/oauth/login"@
    ||| endpoint == "/oauth/callback"@
}

/// Whether `endpoint` is one through which clients obtain their credentials.
pub fn is_credentials_endpoint_str(endpoint: &str) -> (r: bool)
    ensures
        r == is_credentials_endpoint(endpoint@),
        r == (endpoint@ == "/biome/register"@ || endpoint@ == "/biome/login"@ || endpoint@
            == "/biome/token"@ || endpoint@ == "/oauth/login"@ || endpoint@ == "/oauth/callback"@),
{
    str_eq(endpoint, "/biome/register") || str_eq(endpoint, "/biome/login") || str_eq(
        endpoint,
        "/biome/token",
    ) || str_eq(endpoint, "/oauth/login") || str_eq(endpoint, "/oauth/callback")
}

/// Decides whether a request may be served where no permissions are registered: the
/// endpoints that hand out credentials need nothing, and every other endpoint needs the
/// client's identity.
pub fn authorize_by_identity(
    endpoint: &str,
    auth_header: Option<&str>,
    identity_providers: &[Box<dyn IdentityProvider>],
) -> (r: AuthorizationResult)
    ensures
        is_credentials_endpoint(endpoint@) ==> r == AuthorizationResult::NoAuthorizationNecessary,
        !is_credentials_endpoint(endpoint@) ==> exists|found: Seq<Result<Option<Identity>, InternalError>>|
            #[trigger] identity_search(header_text(auth_header), identity_providers@, found)
                && r == match first_identity(found) {
                Some(identity) => AuthorizationResult::Authorized(identity),
                None => AuthorizationResult::Unauthorized,
            },
        !is_credentials_endpoint(endpoint@) && (auth_header is None || identity_providers@.len() == 0)
            ==> r == AuthorizationResult::Unauthorized,
        (r == AuthorizationResult::NoAuthorizationNecessary) <==> (endpoint@ == "/biome/register"@ || endpoint@ == "/biome/login"@ || endpoint@
            == "/biome/token"@ || endpoint@ == "/oauth/login"@ || endpoint@ == "/oauth/callback"@),
        !(endpoint@ == "/biome/register"@ || endpoint@ == "/biome/login"@ || endpoint@
            == "/biome/token"@ || endpoint@ == "/oauth/login"@ || endpoint@ == "/oauth/callback"@) && (auth_header is None || identity_providers@.len() == 0)
            ==> r == AuthorizationResult::Unauthorized,
        r != AuthorizationResult::UnknownEndpoint,
{
    if is_credentials_endpoint_str(endpoint) {
        return AuthorizationResult::NoAuthorizationNecessary;
    }
    let identity = get_identity(auth_header, identity_providers);
    let ghost found = choose|found: Seq<Result<Option<Identity>, InternalError>>|
        #[trigger] identity_search(header_text(auth_header), identity_providers@, found)
            && identity == first_identity(found);
    let r = match identity {
        Some(identity) => AuthorizationResult::Authorized(identity),
        None => AuthorizationResult::Unauthorized,
    };
    assert(identity_search(header_text(auth_header), identity_providers@, found));
    r
}

} // verus!
