//! Reading with a session or with a token for reading. Neither grants a change.

use crate::server::db::text_view;
use crate::server::errors::{refusal, AppError, ErrorView};
use crate::server::session::{digest, digest_of, has_token_shape, token_shape};
use crate::server::util::ct_eq;
use crate::text::{chars_of, starts_with, string_of, strip_prefix, trim, trimmed};
use vstd::prelude::*;
use vstd::string::*;

verus! {

/// How a token for reading begins, unlike the token of an agent.
pub const TOKEN_PREFIX: &'static str = "opk_";

/// The proof that a request may read.
#[derive(Debug)]
pub struct ReadAuth;

/// The token that an authorization header brings.
pub open spec fn borne(header: Option<Seq<char>>) -> Option<Seq<char>> {
    match header {
        Some(h) => if starts_with(h, "Bearer "@) {
            Some(trimmed(h.skip("Bearer "@.len() as int)))
        } else {
            None
        },
        None => None,
    }
}

/// The token that an authorization header brings.
pub fn bearer(header: Option<&str>) -> (r: Option<String>)
    ensures
        r is Some <==> borne(text_view(header)) is Some,
        r matches Some(t) ==> borne(text_view(header)) == Some(t@),
{
    match header {
        Some(h) => {
            let v = chars_of(h);
            match strip_prefix(v.as_slice(), "Bearer ") {
                Some(t) => Some(string_of(trim(t))),
                None => None,
            }
        },
        None => None,
    }
}

/// The shape of a token for reading: its prefix, and sixty-four characters of hexadecimal.
pub open spec fn read_token_shape(t: Seq<char>) -> bool {
    starts_with(t, "opk_"@) && token_shape(t.skip(4))
}

/// The digest by which a token for reading is looked up, where it has the shape of one.
pub fn api_token_key(token: &str) -> (r: Option<String>)
    ensures
        r is Some <==> read_token_shape(token@),
        r matches Some(k) ==> k@ == digest_of(token@),
{
    proof {
        reveal_strlit("opk_");
    }
    let v = chars_of(token);
    match strip_prefix(v.as_slice(), "opk_") {
        Some(rest) => {
            let s = string_of(rest);
            if has_token_shape(s.as_str()) {
                Some(digest(token))
            } else {
                None
            }
        },
        None => None,
    }
}

/// Whether a stored digest is that of the token with the digest `key`.
pub fn check_api_token(stored: Option<&str>, key: &str) -> (r: bool)
    ensures
        r == (text_view(stored) == Some(key@)),
{
    match stored {
        Some(s) => ct_eq(s, key),
        None => false,
    }
}

/// A request that reads: it needs a session or a token for reading that is known.
pub fn require_read(session: bool, token: bool) -> (r: Result<ReadAuth, AppError>)
    ensures
        refusal(r) == if session || token {
            None::<ErrorView>
        } else {
            Some(ErrorView::Unauthorized)
        },
{
    if session || token {
        Ok(ReadAuth)
    } else {
        Err(AppError::Unauthorized)
    }
}

/// No token is both one for reading and one of an agent or a session.
pub proof fn lemma_tokens_apart(t: Seq<char>)
    ensures
        !(read_token_shape(t) && token_shape(t)),
{
    reveal_strlit("opk_");
    if read_token_shape(t) && token_shape(t) {
        assert(t.len() == 68);
    }
}

} // verus!
