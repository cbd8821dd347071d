//! The sessions of a user, and copies of the data.

use crate::server::errors::{refusal, wrong, AppError};
use crate::server::session::{has_token_shape, token_shape};
use crate::text::{
    byte_count_of, byte_len, chars_of, double_chars, doubled, lemma_doubled, same, string_of,
    undoubled,
};
use vstd::prelude::*;
use vstd::slice::slice_subrange;
use vstd::string::*;

verus! {

/// The length of the mark that is shown of a session, in bytes.
pub const MARK_BYTES: usize = 16;

/// The number of characters, from `i` on, that take so many bytes; nothing where none do.
pub open spec fn chars_for(s: Seq<char>, bytes: nat, i: int) -> Option<int>
    decreases s.len() + 1 - i,
{
    if i > s.len() {
        None
    } else if byte_len(s.take(i)) == bytes {
        Some(i)
    } else {
        chars_for(s, bytes, i + 1)
    }
}

/// The mark that is shown of a session: the beginning of its digest.
pub open spec fn mark_of(token_hash: Seq<char>) -> Seq<char> {
    match chars_for(token_hash, MARK_BYTES as nat, 0) {
        Some(i) => token_hash.take(i),
        None => ""@,
    }
}

/// What is shown of a session: a mark, and whether it is the one of the request.
pub fn session_item(token_hash: &str, own: &str) -> (r: (String, bool))
    ensures
        r.0@ == mark_of(token_hash@),
        r.1 == (token_hash@ == own@),
{
    let current = same(token_hash, own);
    let v = chars_of(token_hash);
    let n: usize = v.len();
    let mut i: usize = 0;
    while i <= n
        invariant
            v@ == token_hash@,
            n == v@.len(),
            i <= n + 1,
            chars_for(v@, MARK_BYTES as nat, 0) == chars_for(v@, MARK_BYTES as nat, i as int),
            current == (token_hash@ == own@),
        decreases n + 1 - i,
    {
        let head = slice_subrange(v.as_slice(), 0, i);
        assert(head@ =~= v@.take(i as int));
        if byte_count_of(head) == MARK_BYTES {
            return (string_of(head), current);
        }
        if i == n {
            assert(chars_for(v@, MARK_BYTES as nat, n + 1) is None);
            return ("".to_string(), current);
        }
        i = i + 1;
    }
    ("".to_string(), current)
}

/// Whether a text can name a session that is to be ended.
pub fn revoke_session(token_hash: &str) -> (r: Result<(), AppError>)
    ensures
        refusal(r) == if token_shape(token_hash@) {
            None
        } else {
            Some(wrong("标识非法"@))
        },
{
    if !has_token_shape(token_hash) {
        return Err(AppError::bad("标识非法"));
    }
    Ok(())
}

/// The command that copies all data into a file: the path as a string of SQL.
pub open spec fn copy_command(path: Seq<char>) -> Seq<char> {
    "VACUUM INTO '"@ + doubled(path, '\'') + "'"@
}

/// The command that copies all data into a file.
pub fn backup(path: &str) -> (r: String)
    ensures
        r@ == copy_command(path@),
{
    let v = chars_of(path);
    let mut s = "VACUUM INTO '".to_string();
    s.append(double_chars(v.as_slice(), '\'').as_str());
    s.append("'");
    s
}

/// Whatever a path holds, it stays one string of SQL: reading pairs of apostrophes as one gives it
/// back.
pub proof fn lemma_path_stays_one_string(path: Seq<char>)
    ensures
        ({
            let c = copy_command(path);
            let head = "VACUUM INTO '"@.len() as int;
            undoubled(c.subrange(head, c.len() - 1), '\'') == path
        }),
{
    lemma_doubled(path, '\'');
    reveal_strlit("'");
    let c = copy_command(path);
    let head = "VACUUM INTO '"@.len() as int;
    assert(c.subrange(head, c.len() - 1) =~= doubled(path, '\''));
}

} // verus!
