//! The page that shows the state of the nodes to everybody who knows its address.

use crate::common::{is_hex_digit, is_lower_hex, lemma_hex_bytes, lower_hex};
use crate::server::errors::{AppError, ErrorView};
use crate::server::handlers::settings::{status_address, status_url};
use crate::server::session::{token_shape, SessionAdmin};
use crate::server::util::{ct_eq, gen_token_hex};
use crate::text::{byte_count, chars_of, string_of};
use vstd::prelude::*;
use vstd::slice::slice_subrange;
use vstd::string::*;

verus! {

/// The key under which the address of the page is stored.
pub const SLUG_KEY: &'static str = "status_slug";

/// The shape of the secret part of the address: twenty-four characters of lower-case hexadecimal.
pub open spec fn slug_shape(s: Seq<char>) -> bool {
    s.len() == 24 && lower_hex(s)
}

/// Whether a text has the shape of the secret part of the address.
pub fn valid_slug(s: &str) -> (r: bool)
    ensures
        r == slug_shape(s@),
{
    if !is_lower_hex(s) {
        return false;
    }
    proof {
        lemma_hex_bytes(s@);
    }
    byte_count(s) == 24
}

/// The secret part that a token gives, which is how it begins, and the address of the page under it.
pub fn page_with(token: &str, public_url: &str) -> (r: (String, String))
    requires
        token_shape(token@),
    ensures
        r.0@ == token@.take(24),
        r.1@ == status_address(public_url@, token@.take(24)),
        slug_shape(r.0@),
{
    let v = chars_of(token);
    let s = slice_subrange(v.as_slice(), 0, 24);
    assert(s@ =~= token@.take(24));
    assert forall|i: int| 0 <= i < s@.len() implies is_hex_digit(#[trigger] s@[i]) by {
        assert(is_hex_digit(token@[i]));
    }
    let slug = string_of(s);
    let url = status_url(public_url, slug.as_str());
    (slug, url)
}

/// A page is the one that some token gives.
pub open spec fn is_page(p: (String, String), public_url: Seq<char>) -> bool {
    exists|t: Seq<char>|
        token_shape(t) && p.0@ == #[trigger] t.take(24) && p.1@ == status_address(
            public_url,
            t.take(24),
        )
}

/// The address of the page under a new secret, in the address under which users see the server now. It
/// fails only where the random source of the system does not answer.
pub fn enable(admin: &SessionAdmin, public_url: &str) -> (r: Result<(String, String), AppError>)
    ensures
        admin@.role@ == "admin"@,
        r matches Ok(p) ==> slug_shape(p.0@) && is_page(p, public_url@),
        r matches Err(e) ==> e@ == ErrorView::Internal,
{
    proof {
        use_type_invariant(admin);
    }
    match gen_token_hex() {
        Ok(token) => {
            let p = page_with(token.as_str(), public_url);
            assert(token_shape(token@) && p.0@ == token@.take(24));
            Ok(p)
        },
        Err(_) => Err(AppError::Internal),
    }
}

/// Whether a page is shown: `stored` is the secret of the page, empty where there is none.
pub fn slug_ok(stored: &str, slug: &str) -> (r: bool)
    ensures
        r == (slug_shape(slug@) && stored@ == slug@),
{
    if !valid_slug(slug) {
        return false;
    }
    !stored.is_empty() && ct_eq(stored, slug)
}

/// A page that was turned off is shown to nobody.
pub proof fn lemma_off_is_off(slug: Seq<char>)
    ensures
        !(slug_shape(slug) && ""@ == slug),
{
    reveal_strlit("");
}

} // verus!
