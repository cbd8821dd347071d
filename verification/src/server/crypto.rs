//! The outside functions that secrets go through: hashes, comparison without a trace in time,
//! and the random source of the system. What is stated of them here is not proved.

use crate::text::{chars_of, has_only_digits, only_digits, some_text};
use argon2::password_hash::{PasswordHash, PasswordHasher, PasswordVerifier, SaltString};
use argon2::Argon2;
use hmac::{Hmac, Mac};
use rand::RngCore;
use sha1::Sha1;
use sha2::{Digest, Sha256};
use subtle::ConstantTimeEq;
use vstd::prelude::*;
use vstd::slice::slice_subrange;

verus! {

/// The SHA-256 digest of some bytes.
pub uninterp spec fn sha256_of(data: Seq<u8>) -> Seq<u8>;

/// `Sha256::digest` of the crate `sha2`: a function of the bytes; thirty-two bytes long.
#[verifier::external_body]
pub(crate) fn sha256(data: &[u8]) -> (r: Vec<u8>)
    ensures
        r@ == sha256_of(data@),
        r@.len() == 32,
{
    Sha256::digest(data).to_vec()
}

/// The HMAC-SHA-1 code of a message under a key.
pub uninterp spec fn hmac_sha1_of(key: Seq<u8>, message: Seq<u8>) -> Seq<u8>;

/// `Hmac::<Sha1>` of the crates `hmac` and `sha1`, over one message: a function of the key and the
/// message; twenty bytes long. A key of any length is accepted.
#[verifier::external_body]
pub(crate) fn hmac_sha1(key: &[u8], message: &[u8]) -> (r: Option<Vec<u8>>)
    ensures
        r is Some,
        (r->0)@ == hmac_sha1_of(key@, message@),
        (r->0)@.len() == 20,
{
    let mut mac = Hmac::<Sha1>::new_from_slice(key).ok()?;
    mac.update(message);
    Some(mac.finalize().into_bytes().to_vec())
}

/// `ConstantTimeEq::ct_eq` of the crate `subtle` on slices: whether they are equal. That it takes
/// the same time wherever two slices of one length differ is not stated.
#[verifier::external_body]
pub(crate) fn bytes_equal(a: &[u8], b: &[u8]) -> (r: bool)
    ensures
        r == (a@ == b@),
{
    a.ct_eq(b).into()
}

/// The most bytes that are drawn at once.
pub const MAX_RANDOM: usize = 64;

/// `OsRng` of the crate `rand`: so many bytes of the random source of the system, or nothing where
/// it does not answer. Of the bytes nothing is stated.
#[verifier::external_body]
pub(crate) fn os_random(n: usize) -> (r: Option<Vec<u8>>)
    requires
        n <= MAX_RANDOM,
    ensures
        r matches Some(v) ==> v@.len() == n,
{
    let mut buf = vec![0u8; n];
    rand::rngs::OsRng.try_fill_bytes(&mut buf).ok().map(|()| buf)
}

/// What Argon2 makes of a password and a salt: the text to store, where it accepts them.
pub uninterp spec fn argon2_text(password: Seq<char>, salt: Seq<u8>) -> Option<Seq<char>>;

/// The stored text is one of Argon2 and stands for the password.
pub uninterp spec fn argon2_accepts(stored: Seq<char>, password: Seq<char>) -> bool;

/// The number of lanes that a stored text gives at `i` has nine digits or more. Argon2 takes none
/// above 16777215.
pub open spec fn many_lanes_at(stored: Seq<char>, i: int) -> bool {
    0 <= i && i + 11 <= stored.len() && stored[i] == 'p' && stored[i + 1] == '=' && only_digits(
        stored.subrange(i + 2, i + 11),
    )
}

/// A stored text gives more lanes than Argon2 takes, and more than it can count.
pub open spec fn many_lanes(stored: Seq<char>) -> bool {
    exists|i: int| many_lanes_at(stored, i)
}

/// Whether a stored text gives more lanes than Argon2 takes.
pub fn has_many_lanes(stored: &str) -> (r: bool)
    ensures
        r == many_lanes(stored@),
{
    let v = chars_of(stored);
    let mut i: usize = 0;
    while i < v.len()
        invariant
            i <= v@.len(),
            v@ == stored@,
            forall|j: int| 0 <= j < i ==> !many_lanes_at(stored@, j),
        decreases v@.len() - i,
    {
        if v.len() - i >= 11 && v[i] == 'p' && v[i + 1] == '=' {
            let digits = slice_subrange(v.as_slice(), i + 2, i + 11);
            if has_only_digits(digits) {
                assert(many_lanes_at(stored@, i as int));
                return true;
            }
        }
        assert(!many_lanes_at(stored@, i as int));
        i = i + 1;
    }
    false
}

/// The fewest bytes of a salt that can be written as a text.
pub const MIN_SALT: usize = 3;

/// `SaltString::encode_b64` and `Argon2::hash_password` of the crate `argon2` with its default
/// parameters: a function of the password and the salt; a text that it gives stands for the password
/// and gives one lane. A salt of fewer than three bytes is left out: it panics there.
#[verifier::external_body]
pub(crate) fn argon2_hash(password: &str, salt: &[u8]) -> (r: Option<String>)
    requires
        MIN_SALT <= salt@.len(),
    ensures
        some_text(r) == argon2_text(password@, salt@),
        r matches Some(h) ==> argon2_accepts(h@, password@) && !many_lanes(h@),
{
    let salt = SaltString::encode_b64(salt).ok()?;
    Argon2::default().hash_password(password.as_bytes(), &salt).ok().map(|h| h.to_string())
}

/// `PasswordHash::new` and `Argon2::verify_password` of the crate `argon2`: whether the stored text
/// stands for the password, a function of the two; false for a text that is none of Argon2. A text
/// that gives a number of lanes of nine digits is left out: counting their memory can overflow. The
/// memory that a text asks for is taken to be there, as with every allocation.
#[verifier::external_body]
pub(crate) fn argon2_verify(stored: &str, password: &str) -> (r: bool)
    requires
        !many_lanes(stored@),
    ensures
        r == argon2_accepts(stored@, password@),
{
    PasswordHash::new(stored).is_ok_and(|h| {
        Argon2::default().verify_password(password.as_bytes(), &h).is_ok()
    })
}

} // verus!
