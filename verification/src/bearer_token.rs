//! Bearer tokens, as they follow the `Bearer` scheme in an `Authorization` header.
use vstd::prelude::*;
use crate::error::InvalidArgumentError;
use crate::text::{is_first_index, lemma_split_once_at, lemma_split_once_prefix, split_once, split_once_str, str_eq, to_owned_string};

verus! {

/// A bearer token, told apart by the prefix before its first `:`.
#[derive(Debug, Clone, PartialEq, Eq, Hash)]
pub enum BearerToken {
    /// A token issued by Biome (`Biome:<token>`).
    Biome(String),
    /// A JSON web token signed by a Cylinder key (`Cylinder:<token>`).
    Cylinder(String),
    /// Any token of a form that is not known; it holds the whole text.
    Custom(String),
    /// A token issued through OAuth 2 (`OAuth2:<token>`).
    OAuth2(String),
}

/// The abstract value of a [`BearerToken`]: its kind and its characters.
pub enum BearerTokenView {
    Biome(Seq<char>),
    Cylinder(Seq<char>),
    Custom(Seq<char>),
    OAuth2(Seq<char>),
}

impl View for BearerToken {
    type V = BearerTokenView;

    open spec fn view(&self) -> BearerTokenView {
        match self {
            BearerToken::Biome(t) => BearerTokenView::Biome(t@),
            BearerToken::Cylinder(t) => BearerTokenView::Cylinder(t@),
            BearerToken::Custom(t) => BearerTokenView::Custom(t@),
            BearerToken::OAuth2(t) => BearerTokenView::OAuth2(t@),
        }
    }
}

/// What a bearer token's text means: where the text before its first `:` is `Biome`,
/// `Cylinder` or `OAuth2`, the token of that kind is the text after the `:`; any other
/// text is a custom token made of the whole text.
pub open spec fn parse_bearer_token(s: Seq<char>) -> BearerTokenView {
    match split_once(s, ':') {
        Some((kind, token)) => if kind == "Biome"@ {
            BearerTokenView::Biome(token)
        } else if kind == "Cylinder"@ {
            BearerTokenView::Cylinder(token)
        } else if kind == "OAuth2"@ {
            BearerTokenView::OAuth2(token)
        } else {
            BearerTokenView::Custom(s)
        },
        None => BearerTokenView::Custom(s),
    }
}

/// A token written as a known kind (`Biome`, `Cylinder` or `OAuth2`), a `:` and any text
/// reads back as a token of that kind holding exactly that text, `:` included.
pub proof fn lemma_typed_token_reads_back(kind: Seq<char>, token: Seq<char>)
    requires
        kind == "Biome"@ || kind == "Cylinder"@ || kind == "OAuth2"@,
    ensures
        parse_bearer_token(kind + seq![':'] + token) == (if kind == "Biome"@ {
            BearerTokenView::Biome(token)
        } else if kind == "Cylinder"@ {
            BearerTokenView::Cylinder(token)
        } else {
            BearerTokenView::OAuth2(token)
        }),
{
    reveal_strlit("Biome");
    reveal_strlit("Cylinder");
    reveal_strlit("OAuth2");
    let s = kind + seq![':'] + token;
    let k = kind.len() as int;
    assert(forall|j: int| 0 <= j < k ==> kind[j] != ':');
    assert(is_first_index(s, ':', k));
    lemma_split_once_at(s, ':', k);
    assert(s.take(k) =~= kind);
    assert(s.skip(k + 1) =~= token);
}

/// What a token means, told by its first characters: a text that starts with `Biome:`,
/// `Cylinder:` or `OAuth2:` is a token of that kind holding the rest of the text; every
/// other text is a custom token that holds the whole text.
pub proof fn lemma_token_meaning(s: Seq<char>)
    ensures
        parse_bearer_token(s) == (if s.len() >= 6 && s.take(6) == "Biome:"@ {
            BearerTokenView::Biome(s.skip(6))
        } else if s.len() >= 9 && s.take(9) == "Cylinder:"@ {
            BearerTokenView::Cylinder(s.skip(9))
        } else if s.len() >= 7 && s.take(7) == "OAuth2:"@ {
            BearerTokenView::OAuth2(s.skip(7))
        } else {
            BearerTokenView::Custom(s)
        }),
{
    reveal_strlit("Biome");
    reveal_strlit("Cylinder");
    reveal_strlit("OAuth2");
    reveal_strlit("Biome:");
    reveal_strlit("Cylinder:");
    reveal_strlit("OAuth2:");
    assert("Biome"@.push(':') =~= "Biome:"@);
    assert("Cylinder"@.push(':') =~= "Cylinder:"@);
    assert("OAuth2"@.push(':') =~= "OAuth2:"@);
    assert(!"Biome"@.contains(':')) by {
        assert forall|j: int| 0 <= j < 5 implies "Biome"@[j] != ':' by {}
    }
    assert(!"Cylinder"@.contains(':')) by {
        assert forall|j: int| 0 <= j < 8 implies "Cylinder"@[j] != ':' by {}
    }
    assert(!"OAuth2"@.contains(':')) by {
        assert forall|j: int| 0 <= j < 6 implies "OAuth2"@[j] != ':' by {}
    }
    lemma_split_once_prefix(s, "Biome"@, ':');
    lemma_split_once_prefix(s, "Cylinder"@, ':');
    lemma_split_once_prefix(s, "OAuth2"@, ':');
}

impl BearerToken {
    /// Reads a bearer token from its text; every text is a token.
    pub fn parse_token(s: &str) -> (token: BearerToken)
        ensures
            token@ == parse_bearer_token(s@),
            token@ == (if s@.len() >= 6 && s@.take(6) == "Biome:"@ {
                BearerTokenView::Biome(s@.skip(6))
            } else if s@.len() >= 9 && s@.take(9) == "Cylinder:"@ {
                BearerTokenView::Cylinder(s@.skip(9))
            } else if s@.len() >= 7 && s@.take(7) == "OAuth2:"@ {
                BearerTokenView::OAuth2(s@.skip(7))
            } else {
                BearerTokenView::Custom(s@)
            }),
    {
        proof {
            lemma_token_meaning(s@);
        }
        match split_once_str(s, ':') {
            Some((kind, token)) => {
                if str_eq(kind, "Biome") {
                    BearerToken::Biome(to_owned_string(token))
                } else if str_eq(kind, "Cylinder") {
                    BearerToken::Cylinder(to_owned_string(token))
                } else if str_eq(kind, "OAuth2") {
                    BearerToken::OAuth2(to_owned_string(token))
                } else {
                    BearerToken::Custom(to_owned_string(s))
                }
            },
            None => BearerToken::Custom(to_owned_string(s)),
        }
    }
}

impl std::str::FromStr for BearerToken {
    type Err = InvalidArgumentError;

    fn from_str(s: &str) -> (r: Result<BearerToken, InvalidArgumentError>)
        ensures
            r matches Ok(value) && value@ == parse_bearer_token(s@),
    {
        Ok(BearerToken::parse_token(s))
    }
}

} // verus!
