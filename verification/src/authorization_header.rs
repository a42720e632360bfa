//! The value of an HTTP `Authorization` header.
use vstd::prelude::*;
use crate::bearer_token::{BearerToken, BearerTokenView, parse_bearer_token};
use crate::error::InvalidArgumentError;
use crate::text::{is_first_index, lemma_split_once_at, split_once, split_once_str, str_eq, to_owned_string};

verus! {

/// An `Authorization` header, told apart by its scheme: the text before its first space.
#[derive(Debug, Clone, PartialEq, Eq)]
pub enum AuthorizationHeader {
    /// `Bearer <token>`.
    Bearer(BearerToken),
    /// A header of any other scheme; it holds the whole text.
    Custom(String),
}

/// The abstract value of an [`AuthorizationHeader`].
pub enum AuthorizationHeaderView {
    Bearer(BearerTokenView),
    Custom(Seq<char>),
}

impl View for AuthorizationHeader {
    type V = AuthorizationHeaderView;

    open spec fn view(&self) -> AuthorizationHeaderView {
        match self {
            AuthorizationHeader::Bearer(t) => AuthorizationHeaderView::Bearer(t@),
            AuthorizationHeader::Custom(s) => AuthorizationHeaderView::Custom(s@),
        }
    }
}

/// What a header's text means: where the text before its first space is `Bearer`, a
/// bearer token read from the text after that space; any other text is a custom header
/// made of the whole text.
pub open spec fn parse_authorization_header(s: Seq<char>) -> AuthorizationHeaderView {
    match split_once(s, ' ') {
        Some((scheme, value)) => if scheme == "Bearer"@ {
            AuthorizationHeaderView::Bearer(parse_bearer_token(value))
        } else {
            AuthorizationHeaderView::Custom(s)
        },
        None => AuthorizationHeaderView::Custom(s),
    }
}

/// A header written as `Bearer`, a space and a token's text reads back as the bearer token
/// that the text means.
pub proof fn lemma_bearer_header_reads_back(token: Seq<char>)
    ensures
        parse_authorization_header("Bearer"@ + seq![' '] + token)
            == AuthorizationHeaderView::Bearer(parse_bearer_token(token)),
{
    reveal_strlit("Bearer");
    let s = "Bearer"@ + seq![' '] + token;
    assert(is_first_index(s, ' ', 6));
    lemma_split_once_at(s, ' ', 6);
    assert(s.take(6) =~= "Bearer"@);
    assert(s.skip(7) =~= token);
}

/// What a header means, told by its first characters: a text that starts with `Bearer`
/// and a space is the bearer token that the rest of the text means; every other text is a
/// custom header that holds the whole text, whatever its scheme.
pub proof fn lemma_header_meaning(s: Seq<char>)
    ensures
        parse_authorization_header(s) == (if s.len() >= 7 && s.take(7) == "Bearer "@ {
            AuthorizationHeaderView::Bearer(parse_bearer_token(s.skip(7)))
        } else {
            AuthorizationHeaderView::Custom(s)
        }),
{
    reveal_strlit("Bearer");
    reveal_strlit("Bearer ");
    if s.len() >= 7 && s.take(7) == "Bearer "@ {
        assert(s.take(7)[6] == "Bearer "@[6]);
        assert(s[6] == ' ');
        assert forall|j: int| 0 <= j < 6 implies s[j] != ' ' by {
            assert(s[j] == s.take(7)[j]);
            assert(s.take(7)[j] == "Bearer "@[j]);
        }
        assert(is_first_index(s, ' ', 6));
        lemma_split_once_at(s, ' ', 6);
        assert(s.take(6) =~= "Bearer"@) by {
            assert forall|j: int| 0 <= j < 6 implies s.take(6)[j] == "Bearer"@[j] by {
                assert(s.take(7)[j] == "Bearer "@[j]);
            }
        }
    } else {
        if exists|i: int| is_first_index(s, ' ', i) {
            let i = choose|i: int| is_first_index(s, ' ', i);
            lemma_split_once_at(s, ' ', i);
            if s.take(i) == "Bearer"@ {
                assert(s.take(i).len() == 6);
                assert(s.take(7) =~= "Bearer "@) by {
                    assert forall|j: int| 0 <= j < 6 implies s.take(7)[j] == "Bearer "@[j] by {
                        assert(s.take(i)[j] == s[j]);
                    }
                }
            }
        }
    }
}

impl AuthorizationHeader {
    /// Reads a header from its text; every text is a header.
    pub fn parse_header(s: &str) -> (header: AuthorizationHeader)
        ensures
            header@ == parse_authorization_header(s@),
            header@ == (if s@.len() >= 7 && s@.take(7) == "Bearer "@ {
                AuthorizationHeaderView::Bearer(parse_bearer_token(s@.skip(7)))
            } else {
                AuthorizationHeaderView::Custom(s@)
            }),
    {
        proof {
            lemma_header_meaning(s@);
        }
        match split_once_str(s, ' ') {
            Some((scheme, value)) => {
                if str_eq(scheme, "Bearer") {
                    AuthorizationHeader::Bearer(BearerToken::parse_token(value))
                } else {
                    AuthorizationHeader::Custom(to_owned_string(s))
                }
            },
            None => AuthorizationHeader::Custom(to_owned_string(s)),
        }
    }
}

impl std::str::FromStr for AuthorizationHeader {
    type Err = InvalidArgumentError;

    fn from_str(s: &str) -> (r: Result<AuthorizationHeader, InvalidArgumentError>)
        ensures
            r matches Ok(value) && value@ == parse_authorization_header(s@),
    {
        Ok(AuthorizationHeader::parse_header(s))
    }
}

} // verus!
