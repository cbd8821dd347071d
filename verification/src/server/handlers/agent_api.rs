//! What agents ask for before they report: a token for a key, and the programs.

use crate::server::errors::{refusal, AppError, ErrorView};
use crate::server::session::{digest, digest_of, has_token_shape, token_shape};
use crate::server::state::Artifact;
use crate::server::util::{ct_eq, gen_token_hex};
use crate::text::same;
use vstd::prelude::*;
use vstd::string::*;

verus! {

/// A key for registration.
#[derive(Debug)]
pub struct RegisterForm {
    pub key: String,
}

/// A key for registration as it is stored.
#[derive(Debug)]
pub struct KeyRow {
    pub id: i64,
    pub node_id: i64,
    pub key_hash: String,
    pub expires_at: i64,
    pub used_at: Option<i64>,
}

/// The digest by which a key for registration is looked up.
pub fn register_key(req: &RegisterForm) -> (r: Result<String, AppError>)
    ensures
        refusal(r) == if token_shape(req.key@) {
            None
        } else {
            Some(ErrorView::Forbidden)
        },
        r matches Ok(d) ==> d@ == digest_of(req.key@),
{
    if !has_token_shape(req.key.as_str()) {
        return Err(AppError::Forbidden);
    }
    Ok(digest(req.key.as_str()))
}

/// A key still counts: it is the one that was looked up, was not used, and its time is not over.
pub open spec fn key_counts(k: KeyRow, digest: Seq<char>, now: i64) -> bool {
    k.key_hash@ == digest && k.used_at is None && now <= k.expires_at
}

/// Whether an agent may register with the key that was looked up. Gives the text for the record where
/// it may not.
pub fn register(row: Option<&KeyRow>, digest: &str, now: i64) -> (r: Result<(i64, i64), &'static str>)
    ensures
        r is Ok <==> row is Some && key_counts(*row->0, digest@, now),
        r matches Ok(p) ==> p == ((row->0).id, (row->0).node_id),
        r matches Err(e) ==> e@ == if row is None {
            "密钥无效"@
        } else {
            "密钥过期或已用"@
        },
{
    match row {
        None => Err("密钥无效"),
        Some(k) => if !ct_eq(k.key_hash.as_str(), digest) || k.used_at.is_some() || k.expires_at
            < now {
            Err("密钥过期或已用")
        } else {
            Ok((k.id, k.node_id))
        },
    }
}

/// Whether this request was the one that used the key: of several at once, only one is. `rows` counts
/// the keys that it marked as used.
pub fn claimed(rows: u64) -> (r: Result<(), AppError>)
    ensures
        refusal(r) == if rows == 0 {
            Some(ErrorView::Forbidden)
        } else {
            None
        },
{
    if rows == 0 {
        Err(AppError::Forbidden)
    } else {
        Ok(())
    }
}

/// A key after it was used.
pub open spec fn used(k: KeyRow, now: i64) -> KeyRow {
    KeyRow { used_at: Some(now), ..k }
}

/// A key counts once: after it was used, nothing registers with it again.
pub proof fn lemma_key_counts_once(k: KeyRow, digest: Seq<char>, now: i64, later: i64)
    ensures
        !key_counts(used(k, now), digest, later),
{
}

/// What becomes of the token of an agent: its digest is stored, and the text is what the agent is
/// told.
pub fn token_reply(token: &str) -> (r: (String, String))
    ensures
        r.0@ == digest_of(token@),
        r.1@ == "token="@ + token@ + "\n"@,
{
    let mut s = "token=".to_string();
    s.append(token);
    s.append("\n");
    (digest(token), s)
}

/// A new token for an agent: its digest is stored, and the text is what the agent is told. It fails
/// only where the random source of the system does not answer.
pub fn issue_token() -> (r: Result<(String, String), AppError>)
    ensures
        r matches Ok(p) ==> exists|t: Seq<char>|
            token_shape(t) && p.0@ == #[trigger] digest_of(t) && p.1@ == "token="@ + t + "\n"@,
        r matches Err(e) ==> e@ == ErrorView::Internal,
{
    match gen_token_hex() {
        Ok(token) => {
            let p = token_reply(token.as_str());
            assert(token_shape(token@) && p.0@ == digest_of(token@));
            Ok(p)
        },
        Err(_) => Err(AppError::Internal),
    }
}

/// One line of the list of programs.
pub open spec fn manifest_line(a: Artifact) -> Seq<char> {
    a.target@ + " "@ + a.sha256@ + " /download/"@ + a.filename@ + "\n"@
}

/// The list of programs: for each machine the digest and the place of its program.
pub open spec fn manifest_text(v: Seq<Artifact>) -> Seq<char>
    decreases v.len(),
{
    if v.len() == 0 {
        Seq::empty()
    } else {
        manifest_text(v.drop_last()) + manifest_line(v.last())
    }
}

/// The list of programs.
pub fn manifest(artifacts: &[Artifact]) -> (r: String)
    ensures
        r@ == manifest_text(artifacts@),
{
    let mut body = String::new();
    let mut i: usize = 0;
    assert(artifacts@.take(0) =~= Seq::empty());
    while i < artifacts.len()
        invariant
            i <= artifacts@.len(),
            body@ == manifest_text(artifacts@.take(i as int)),
        decreases artifacts@.len() - i,
    {
        assert(artifacts@.take(i + 1).drop_last() =~= artifacts@.take(i as int));
        let a = &artifacts[i];
        let mut line = a.target.as_str().to_string();
        line.append(" ");
        line.append(a.sha256.as_str());
        line.append(" /download/");
        line.append(a.filename.as_str());
        line.append("\n");
        body.append(line.as_str());
        i = i + 1;
    }
    assert(artifacts@.take(i as int) =~= artifacts@);
    body
}

/// The position of the first program with a name.
pub open spec fn named(v: Seq<Artifact>, name: Seq<char>) -> int
    decreases v.len(),
{
    if v.len() == 0 || v[0].filename@ == name {
        0
    } else {
        1 + named(v.drop_first(), name)
    }
}

/// The position of the program that is asked for. Only the programs of the list are handed out: a name
/// that is not there leads to no file.
pub fn download(artifacts: &[Artifact], name: &str) -> (r: Result<usize, AppError>)
    ensures
        refusal(r) == if named(artifacts@, name@) < artifacts@.len() {
            None
        } else {
            Some(ErrorView::NotFound)
        },
        r matches Ok(i) ==> i == named(artifacts@, name@) && i < artifacts@.len()
            && artifacts@[i as int].filename@ == name@,
{
    let mut i: usize = 0;
    assert(artifacts@.skip(0) =~= artifacts@);
    while i < artifacts.len()
        invariant
            i <= artifacts@.len(),
            named(artifacts@, name@) == i + named(artifacts@.skip(i as int), name@),
        decreases artifacts@.len() - i,
    {
        assert(artifacts@.skip(i as int)[0] == artifacts@[i as int]);
        assert(artifacts@.skip(i as int).drop_first() =~= artifacts@.skip(i + 1));
        if same(artifacts[i].filename.as_str(), name) {
            return Ok(i);
        }
        i = i + 1;
    }
    Err(AppError::NotFound)
}

/// A sign of life, which tells nothing else.
pub fn healthz() -> (r: &'static str)
    ensures
        r@ == "ok"@,
{
    "ok"
}

} // verus!
