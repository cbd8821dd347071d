//! Settings as they are stored.

use crate::num::{clamp_i64, clamped_i64, parse_i64, parsed_i64};
use crate::text::chars_of;
use vstd::prelude::*;
use vstd::string::*;

verus! {

/// The value of a stored number: within its bounds, and the default where nothing is stored or what
/// is stored is no number.
pub open spec fn setting(stored: Option<Seq<char>>, default: i64, lo: i64, hi: i64) -> i64 {
    match stored {
        Some(s) => match parsed_i64(s) {
            Some(n) => clamped_i64(n, lo, hi),
            None => default,
        },
        None => default,
    }
}

/// The view of a text that may be missing.
pub open spec fn text_view(o: Option<&str>) -> Option<Seq<char>> {
    match o {
        Some(s) => Some(s@),
        None => None,
    }
}

/// The value of a stored number.
pub fn setting_i64(stored: Option<&str>, default: i64, lo: i64, hi: i64) -> (r: i64)
    requires
        lo <= hi,
    ensures
        r == setting(text_view(stored), default, lo, hi),
{
    match stored {
        Some(s) => {
            let v = chars_of(s);
            match parse_i64(v.as_slice()) {
                Some(n) => clamp_i64(n, lo, hi),
                None => default,
            }
        },
        None => default,
    }
}

/// Whatever is stored, a number whose default is within its bounds is within them.
pub proof fn lemma_setting_bounded(stored: Option<Seq<char>>, default: i64, lo: i64, hi: i64)
    requires
        lo <= default <= hi,
    ensures
        lo <= setting(stored, default, lo, hi) <= hi,
{
}

/// A number within the bounds that is stored is read back.
pub proof fn lemma_setting_roundtrip(n: i64, default: i64, lo: i64, hi: i64)
    requires
        lo <= n <= hi,
    ensures
        setting(Some(crate::num::decimal_int(n as int)), default, lo, hi) == n,
{
    crate::num::lemma_decimal_roundtrip(n as int);
}

} // verus!
