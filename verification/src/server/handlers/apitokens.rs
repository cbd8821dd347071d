//! Tokens for reading: an administrator makes them; each is shown once.

use crate::common::{clean_str, cleaned, short_name, valid_short_name};
use crate::server::apiauth::read_token_shape;
use crate::server::errors::{refusal, wrong, AppError, ErrorView};
use crate::server::session::{digest, digest_of, SessionAdmin};
use crate::server::util::gen_token_hex;
use crate::text::concat2;
use vstd::prelude::*;
use vstd::string::*;

verus! {

/// The most tokens.
pub const MAX_TOKENS: i64 = 50;

/// A new token.
#[derive(Debug)]
pub struct CreateReq {
    pub name: String,
}

/// A token as it is made: the token is shown, its digest is stored.
#[derive(Debug)]
pub struct NewToken {
    pub name: String,
    pub token: String,
    pub token_hash: String,
}

/// Why a token is not made, if it is not. `tokens` counts those that there are.
pub open spec fn token_refused(name: Seq<char>, tokens: i64) -> Option<ErrorView> {
    if !short_name(cleaned(name, 64)) {
        Some(wrong("名称需为 1~64 个可见字符"@))
    } else if tokens >= MAX_TOKENS {
        Some(wrong("API Token 数量已达上限"@))
    } else {
        None
    }
}

/// The token for reading that some hexadecimal gives, with its name.
pub fn token_with(hex: &str, name: String) -> (r: NewToken)
    ensures
        r.name@ == name@,
        r.token@ == "opk_"@ + hex@,
        r.token_hash@ == digest_of("opk_"@ + hex@),
{
    let token = concat2("opk_", hex);
    let token_hash = digest(token.as_str());
    NewToken { name, token, token_hash }
}

/// A new token. Where it is not refused, it fails only where the random source of the system does not
/// answer. What is made has the shape of a token for reading, and is known by its digest.
pub fn create(admin: &SessionAdmin, req: &CreateReq, tokens: i64) -> (r: Result<NewToken, AppError>)
    ensures
        admin@.role@ == "admin"@,
        token_refused(req.name@, tokens) matches Some(e) ==> refusal(r) == Some(e),
        token_refused(req.name@, tokens) is None ==> match r {
            Ok(t) => t.name@ == cleaned(req.name@, 64) && read_token_shape(t.token@)
                && t.token_hash@ == digest_of(t.token@),
            Err(e) => e@ == ErrorView::Internal,
        },
{
    proof {
        use_type_invariant(admin);
    }
    let name = clean_str(req.name.as_str(), 64);
    if !valid_short_name(name.as_str()) {
        return Err(AppError::bad("名称需为 1~64 个可见字符"));
    }
    if tokens >= MAX_TOKENS {
        return Err(AppError::bad("API Token 数量已达上限"));
    }
    match gen_token_hex() {
        Ok(hex) => {
            let t = token_with(hex.as_str(), name);
            proof {
                reveal_strlit("opk_");
                assert(t.token@.take(4) =~= "opk_"@);
                assert(t.token@.skip(4) =~= hex@);
            }
            Ok(t)
        },
        Err(_) => Err(AppError::Internal),
    }
}

} // verus!
