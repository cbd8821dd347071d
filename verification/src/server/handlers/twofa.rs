//! The second step of a login: how it is set up and turned off, and codes for recovery.

use crate::common::{is_hex_digit, is_lower_hex, lower_hex};
use crate::server::crypto::os_random;
use crate::server::errors::{refusal, wrong, AppError, ErrorView};
use crate::server::handlers::auth::{accepts, verify_password};
use crate::server::session::{digest, digest_of, token_shape, EndedSessions, SessionUser};
use crate::server::totp::{
    base32_encode, base32_of, code_accepted, provisioning_uri, uri_text, verify,
};
use crate::server::util::gen_token_hex;
use crate::text::{chars_of, string_of, trim, trimmed, views};
use vstd::prelude::*;
use vstd::slice::slice_subrange;
use vstd::string::*;

verus! {

/// A code.
#[derive(Debug)]
pub struct CodeReq {
    pub code: String,
}

/// A password and a code.
#[derive(Debug)]
pub struct DisableReq {
    pub password: String,
    pub code: String,
}

/// The number of codes for recovery.
pub const RECOVERY_CODES: usize = 10;

/// The shape of a code for recovery: ten characters of lower-case hexadecimal.
pub open spec fn recovery_shape(c: Seq<char>) -> bool {
    c.len() == 10 && lower_hex(c)
}

/// The digest by which a code for recovery is looked up, where it has the shape of one.
pub fn consume_recovery(code: &str) -> (r: Option<String>)
    ensures
        r is Some <==> recovery_shape(trimmed(code@)),
        r matches Some(d) ==> d@ == digest_of(trimmed(code@)),
{
    let v = chars_of(code);
    let c = trim(v.as_slice());
    if c.len() != 10 {
        return None;
    }
    let s = string_of(c);
    if !is_lower_hex(s.as_str()) {
        return None;
    }
    Some(digest(s.as_str()))
}

/// Whether a code for recovery counts: it was there, and no other request has used it. `marked` counts
/// the codes that this request marked as used; nothing where the store did not answer.
pub fn used_up(marked: Option<u64>) -> (r: bool)
    ensures
        r == (marked == Some(1u64)),
{
    match marked {
        Some(n) => n == 1,
        None => false,
    }
}

/// A secret for a user, and the address that brings it into an application.
pub fn setup_with(raw: &[u8], username: &str) -> (r: (String, String))
    ensures
        r.0@ == base32_of(raw@),
        r.1@ == uri_text(base32_of(raw@), username@, "Outpost"@),
{
    let secret = base32_encode(raw);
    let uri = provisioning_uri(secret.as_str(), username, "Outpost");
    (secret, uri)
}

/// A secret from random bytes, and the address that brings it into an application.
pub open spec fn is_fresh_secret(p: (String, String), username: Seq<char>) -> bool {
    exists|raw: Seq<u8>|
        raw.len() == 20 && p.0@ == #[trigger] base32_of(raw) && p.1@ == uri_text(
            base32_of(raw),
            username,
            "Outpost"@,
        )
}

/// A new secret for a user, and the address that brings it into an application. `enabled` says whether
/// the second step is on already.
pub fn setup(enabled: i64, username: &str) -> (r: Result<(String, String), AppError>)
    ensures
        enabled != 0 ==> refusal(r) == Some(
            wrong("两步验证已启用,请先停用再重新设置"@),
        ),
        enabled == 0 ==> match r {
            Ok(p) => is_fresh_secret(p, username@),
            Err(e) => e@ == ErrorView::Internal,
        },
{
    if enabled != 0 {
        return Err(AppError::bad("两步验证已启用,请先停用再重新设置"));
    }
    match os_random(20) {
        Some(raw) => {
            let p = setup_with(raw.as_slice(), username);
            assert(raw@.len() == 20 && p.0@ == base32_of(raw@));
            Ok(p)
        },
        None => Err(AppError::Internal),
    }
}

/// Why the second step is not turned on, if it is not.
pub open spec fn enable_refused(enabled: bool, has_secret: bool, code_ok: bool) -> Option<ErrorView> {
    if enabled {
        Some(wrong("两步验证已启用"@))
    } else if !has_secret || !code_ok {
        Some(wrong("验证码不正确,请重试"@))
    } else {
        None
    }
}

/// Whether the second step is turned on, with what the code came to.
pub fn decide_enable(enabled: bool, has_secret: bool, code_ok: bool) -> (r: Result<(), AppError>)
    ensures
        refusal(r) == enable_refused(enabled, has_secret, code_ok),
{
    if enabled {
        return Err(AppError::bad("两步验证已启用"));
    }
    if !has_secret || !code_ok {
        return Err(AppError::bad("验证码不正确,请重试"));
    }
    Ok(())
}

/// The code for recovery that a token gives: how it begins.
pub fn recovery_code(token: &str) -> (r: String)
    requires
        token_shape(token@),
    ensures
        r@ == token@.take(10),
        recovery_shape(r@),
{
    let v = chars_of(token);
    let c = slice_subrange(v.as_slice(), 0, 10);
    assert(c@ =~= token@.take(10));
    assert forall|i: int| 0 <= i < c@.len() implies is_hex_digit(#[trigger] c@[i]) by {
        assert(is_hex_digit(token@[i]));
    }
    string_of(c)
}

/// Every text is a code for recovery.
pub open spec fn all_recovery(v: Seq<Seq<char>>) -> bool {
    forall|i: int| 0 <= i < v.len() ==> recovery_shape(#[trigger] v[i])
}

/// The codes are the beginnings of tokens, one of each.
pub open spec fn begin_tokens(codes: Seq<Seq<char>>, tokens: Seq<Seq<char>>) -> bool {
    codes.len() == tokens.len() && forall|i: int|
        0 <= i < tokens.len() ==> token_shape(#[trigger] tokens[i]) && codes[i] == tokens[i].take(10)
}

/// The codes for recovery of an account: so many, each the beginning of a token of its own.
pub open spec fn are_recovery_codes(codes: Seq<Seq<char>>) -> bool {
    &&& codes.len() == RECOVERY_CODES
    &&& all_recovery(codes)
    &&& exists|tokens: Seq<Seq<char>>| begin_tokens(codes, tokens)
}

/// New codes for recovery, each the beginning of a token of its own. They are shown once; the server
/// keeps their digests.
pub fn recovery_codes() -> (r: Result<Vec<String>, AppError>)
    ensures
        r matches Ok(v) ==> are_recovery_codes(views(v@)),
        r matches Err(e) ==> e@ == ErrorView::Internal,
{
    let mut out: Vec<String> = Vec::new();
    let ghost mut tokens: Seq<Seq<char>> = Seq::empty();
    while out.len() < RECOVERY_CODES
        invariant
            out@.len() <= RECOVERY_CODES,
            all_recovery(views(out@)),
            begin_tokens(views(out@), tokens),
        decreases RECOVERY_CODES - out@.len(),
    {
        let token = match gen_token_hex() {
            Ok(t) => t,
            Err(_) => {
                return Err(AppError::Internal);
            },
        };
        let ghost before = views(out@);
        let s = recovery_code(token.as_str());
        out.push(s);
        proof {
            tokens = tokens.push(token@);
            assert(views(out@) =~= before.push(s@));
        }
    }
    Ok(out)
}

/// The second step is turned on: the codes for recovery that replace the old ones, and the sessions
/// that end.
#[derive(Debug)]
pub struct Enabled {
    pub codes: Vec<String>,
    pub ended: EndedSessions,
}

/// Turning on the second step for a user: only with a code of the secret that was set up. The other
/// sessions of the user end. Where it is not refused, it fails only where the random source of the
/// system does not answer.
pub fn enable(user: &SessionUser, secret: &str, enabled: i64, req: &CodeReq, now: i64) -> (r: Result<
    Enabled,
    AppError,
>)
    ensures
        ({
            let refused = enable_refused(
                enabled != 0,
                secret@.len() > 0,
                code_accepted(secret@, req.code@, now),
            );
            &&& refused matches Some(e) ==> refusal(r) == Some(e)
            &&& refused is None ==> match r {
                Ok(x) => {
                    &&& are_recovery_codes(views(x.codes@))
                    &&& x.ended.all_but_own(user.user_id, user.token_hash@)
                },
                Err(e) => e@ == ErrorView::Internal,
            }
        }),
{
    let code_ok = verify(secret, req.code.as_str(), now);
    match decide_enable(enabled != 0, !secret.is_empty(), code_ok) {
        Ok(()) => {},
        Err(e) => {
            return Err(e);
        },
    }
    match recovery_codes() {
        Ok(codes) => {
            let ended = EndedSessions::others(user.user_id, user.token_hash.as_str());
            Ok(Enabled { codes, ended })
        },
        Err(e) => Err(e),
    }
}

/// What turning off the second step comes to.
pub enum DisableOutcome {
    Refused { error: ErrorView },
    /// It has the shape of a code for recovery, which is looked up by this digest.
    Recovery { digest: Seq<char> },
    Done,
}

/// What turning off the second step comes to.
pub open spec fn disable_outcome(
    enabled: bool,
    password_ok: bool,
    code: Seq<char>,
    code_ok: bool,
) -> DisableOutcome {
    if !enabled {
        DisableOutcome::Refused { error: wrong("两步验证未启用"@) }
    } else if !password_ok {
        DisableOutcome::Refused { error: wrong("密码不正确"@) }
    } else if code_ok {
        DisableOutcome::Done
    } else if recovery_shape(trimmed(code)) {
        DisableOutcome::Recovery { digest: digest_of(trimmed(code)) }
    } else {
        DisableOutcome::Refused { error: wrong("验证码或恢复码不正确"@) }
    }
}

/// What to do about turning off the second step.
#[derive(Debug)]
pub enum DisableStep {
    Refused { error: AppError },
    /// Look up the code for recovery with this digest.
    Recovery { digest: String },
    /// Turn it off, and end these sessions.
    Done { ended: EndedSessions },
}

/// A step is what an outcome asks for, of a user.
pub open spec fn disable_step_of(s: DisableStep, o: DisableOutcome, user: SessionUser) -> bool {
    match o {
        DisableOutcome::Refused { error } => s matches DisableStep::Refused { error: e } && e@
            == error,
        DisableOutcome::Recovery { digest } => s matches DisableStep::Recovery { digest: d } && d@
            == digest,
        DisableOutcome::Done => s matches DisableStep::Done { ended } && ended.all_but_own(
            user.user_id,
            user.token_hash@,
        ),
    }
}

/// What to do about turning off the second step, with what the password and the code came to.
pub fn decide_disable(
    user: &SessionUser,
    enabled: bool,
    password_ok: bool,
    code: &str,
    code_ok: bool,
) -> (r: DisableStep)
    ensures
        disable_step_of(r, disable_outcome(enabled, password_ok, code@, code_ok), *user),
{
    if !enabled {
        return DisableStep::Refused { error: AppError::bad("两步验证未启用") };
    }
    if !password_ok {
        return DisableStep::Refused { error: AppError::bad("密码不正确") };
    }
    if code_ok {
        let ended = EndedSessions::others(user.user_id, user.token_hash.as_str());
        return DisableStep::Done { ended };
    }
    match consume_recovery(code) {
        Some(digest) => DisableStep::Recovery { digest },
        None => DisableStep::Refused { error: AppError::bad("验证码或恢复码不正确") },
    }
}

/// What to do about turning off the second step: it takes the password, and a code of the second step
/// or for recovery. The other sessions of the user end.
pub fn disable(
    user: &SessionUser,
    pass_hash: &str,
    secret: &str,
    enabled: i64,
    req: &DisableReq,
    now: i64,
) -> (r: DisableStep)
    ensures
        disable_step_of(
            r,
            disable_outcome(
                enabled != 0,
                accepts(pass_hash@, req.password@),
                req.code@,
                code_accepted(secret@, req.code@, now),
            ),
            *user,
        ),
{
    let password_ok = enabled != 0 && verify_password(pass_hash, req.password.as_str());
    let code_ok = password_ok && verify(secret, req.code.as_str(), now);
    decide_disable(user, enabled != 0, password_ok, req.code.as_str(), code_ok)
}

/// Whether the second step is turned off once the code for recovery was looked up. The other sessions
/// of the user end.
pub fn disable_recovery(user: &SessionUser, consumed: bool) -> (r: Result<EndedSessions, AppError>)
    ensures
        refusal(r) == if consumed {
            None
        } else {
            Some(wrong("验证码或恢复码不正确"@))
        },
        r matches Ok(e) ==> e.all_but_own(user.user_id, user.token_hash@),
{
    if consumed {
        Ok(EndedSessions::others(user.user_id, user.token_hash.as_str()))
    } else {
        Err(AppError::bad("验证码或恢复码不正确"))
    }
}

} // verus!
