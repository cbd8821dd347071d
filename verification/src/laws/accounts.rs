//! Accounts: who may have one, who is let in, and who may change what.

use crate::common::{cleaned, lower_hex, short_name};
use crate::ip::IpAddr;
use crate::server::errors::{status_code, told, wrong, ErrorView};
use crate::server::handlers::account::{chars_for, mark_of};
use crate::server::handlers::apitokens::token_refused;
use crate::server::handlers::auth::{
    account_refused, accepts, failed_answer, has_digit, has_letter, is_user_char, login_outcome,
    outcome, remembered_after, too_weak, user_name, Outcome, UserRow,
};
use crate::server::handlers::twofa::{
    disable_outcome, enable_refused, DisableOutcome,
};
use crate::server::handlers::users::{
    removal_refused, role_refused, user_refused, CreateUserReq,
};
use crate::server::ratelimit::{fails_of, recorded, Fails};
use crate::server::session::digest_of;
use crate::server::totp::code_accepted;
use crate::text::{byte_len, trimmed};
use vstd::prelude::*;
use vstd::string::*;

verus! {

// ---------------------------------------------------------------------------
// Names and passwords
// ---------------------------------------------------------------------------

/// An account may be made of a name of three to thirty-two letters, digits, dots, dashes and underscores,
/// and a password of ten to a hundred and twenty-eight characters with a letter and a digit among them;
/// of nothing else.
pub proof fn lemma_accounts_to_be_made(name: Seq<char>, password: Seq<char>)
    ensures
        account_refused(name, password) is None <==> {
            &&& 3 <= name.len() <= 32
            &&& forall|i: int|
                0 <= i < name.len() ==> crate::text::is_ascii_alnum(#[trigger] name[i]) || name[i]
                    == '_' || name[i] == '.' || name[i] == '-'
            &&& 10 <= password.len() <= 128
            &&& has_letter(password) && has_digit(password)
        },
        account_refused(name, password) matches Some(e) ==> status_code(e) == 400,
        too_weak(password) is None <==> 10 <= password.len() <= 128 && has_letter(password)
            && has_digit(password),
{
    if user_name(name) {
        assert forall|i: int| 0 <= i < name.len() implies crate::text::is_ascii_alnum(
            #[trigger] name[i],
        ) || name[i] == '_' || name[i] == '.' || name[i] == '-' by {
            assert(is_user_char(name[i]));
        }
    }
}

/// An administrator makes at most fifty accounts, each with one of the two roles.
pub proof fn lemma_users_to_be_made(q: CreateUserReq, users: i64)
    ensures
        user_refused(q, users) is None <==> account_refused(q.username@, q.password@) is None && (
        q.role@ == "admin"@ || q.role@ == "viewer"@) && users < 50,
        account_refused(q.username@, q.password@) is Some ==> user_refused(q, users)
            == account_refused(q.username@, q.password@),
{
}

/// A role may be given, but the last administrator keeps theirs. Anybody may be removed but oneself and
/// the last administrator.
pub proof fn lemma_roles_and_removals(id: i64, own: i64, role: Seq<char>, others: i64)
    ensures
        role_refused("admin"@, others) is None,
        role_refused("viewer"@, others) is None <==> others != 0,
        role != "admin"@ && role != "viewer"@ ==> role_refused(role, others) is Some,
        removal_refused(own, own, Some(role), others) is Some,
        id != own ==> (removal_refused(id, own, Some("admin"@), others) is None <==> others != 0),
        id != own && role != "admin"@ ==> removal_refused(id, own, Some(role), others) is None,
        id != own ==> removal_refused(id, own, None, others) == Some(ErrorView::NotFound),
{
    reveal_strlit("admin");
    reveal_strlit("viewer");
    assert("admin"@.len() == 5 && "viewer"@.len() == 6);
}

/// At most fifty tokens for reading are given out, each under a name that can be shown.
pub proof fn lemma_tokens_to_be_given(name: Seq<char>, tokens: i64)
    ensures
        token_refused(name, tokens) is None <==> short_name(cleaned(name, 64)) && tokens < 50,
{
}

// ---------------------------------------------------------------------------
// Logins
// ---------------------------------------------------------------------------

/// A user is let in with the password alone where no second step is set, and else with the code of the
/// second step as well. What is not that code but could be one for recovery is looked up.
pub proof fn lemma_who_is_let_in(password_ok: bool, second: bool, code: Seq<char>, code_ok: bool)
    ensures
        outcome(password_ok, second, code, code_ok) is WrongPassword <==> !password_ok,
        outcome(password_ok, second, code, code_ok) is Granted <==> password_ok && (!second || (
        code_ok && trimmed(code).len() > 0)),
        outcome(password_ok, second, code, code_ok) is CodeMissing <==> password_ok && second
            && trimmed(code).len() == 0,
        outcome(password_ok, second, code, code_ok) is Recovery <==> password_ok && second && !code_ok
            && trimmed(code).len() == 10 && lower_hex(trimmed(code)),
        outcome(password_ok, second, code, code_ok) matches Outcome::Recovery { digest } ==> digest
            == digest_of(trimmed(code)),
{
}

/// A known user is let in with their own password, and with their own second step where it is on.
pub proof fn lemma_own_password(u: UserRow, password: Seq<char>, code: Seq<char>, now: i64)
    ensures
        login_outcome(Some(u), password, code, now) is Granted <==> accepts(u.pass_hash@, password)
            && (u.totp_enabled == 0 || (code_accepted(u.totp_secret@, code, now) && trimmed(
            code,
        ).len() > 0)),
        login_outcome(None, password, code, now) is WrongPassword,
{
}

/// A failure counts one more, a login forgets the failures, and a missing code does neither. The fifth
/// failure in a row is told to wait, those before it what was wrong.
pub proof fn lemma_after_a_login(
    m: Map<(IpAddr, Seq<char>), Fails>,
    key: (IpAddr, Seq<char>),
    now: i64,
    digest: Seq<char>,
    message: Seq<char>,
)
    requires
        m.len() <= 4096,
        fails_of(m, key).count < u32::MAX,
    ensures
        remembered_after(m, key, now, Outcome::WrongPassword)[key].count == fails_of(m, key).count
            + 1,
        remembered_after(m, key, now, Outcome::WrongCode)[key].count == fails_of(m, key).count + 1,
        remembered_after(m, key, now, Outcome::WrongPassword) == recorded(m, key, now),
        !remembered_after(m, key, now, Outcome::Granted).contains_key(key),
        remembered_after(m, key, now, Outcome::CodeMissing) == m,
        remembered_after(m, key, now, Outcome::Recovery { digest }) == m,
        fails_of(m, key).count + 1 < 5 ==> failed_answer(m, key, now, message) == wrong(message),
        fails_of(m, key).count + 1 >= 5 ==> failed_answer(m, key, now, message)
            == ErrorView::TooManyRequests,
{
}

// ---------------------------------------------------------------------------
// The second step
// ---------------------------------------------------------------------------

/// The second step is turned on once, with a secret and a code of it; and off with the password and a
/// code, or one for recovery.
pub proof fn lemma_second_step(
    enabled: bool,
    has_secret: bool,
    password_ok: bool,
    code: Seq<char>,
    code_ok: bool,
)
    ensures
        enable_refused(enabled, has_secret, code_ok) is None <==> !enabled && has_secret && code_ok,
        disable_outcome(enabled, password_ok, code, code_ok) is Done <==> enabled && password_ok
            && code_ok,
        disable_outcome(enabled, password_ok, code, code_ok) is Recovery <==> enabled && password_ok
            && !code_ok && trimmed(code).len() == 10 && lower_hex(trimmed(code)),
        disable_outcome(enabled, password_ok, code, code_ok) matches DisableOutcome::Recovery {
            digest,
        } ==> digest == digest_of(trimmed(code)),
        disable_outcome(enabled, password_ok, code, code_ok) matches DisableOutcome::Refused {
            error,
        } ==> status_code(error) == 400,
{
}

// ---------------------------------------------------------------------------
// Sessions
// ---------------------------------------------------------------------------

/// A session is shown by the first sixteen characters of its digest.
pub proof fn lemma_mark_of_a_session(hash: Seq<char>)
    requires
        hash.len() >= 16,
        lower_hex(hash),
    ensures
        mark_of(hash) == hash.take(16),
{
    lemma_chars_for(hash, 0);
}

proof fn lemma_chars_for(s: Seq<char>, i: int)
    requires
        lower_hex(s),
        s.len() >= 16,
        0 <= i <= 16,
    ensures
        chars_for(s, 16, i) == Some(16int),
    decreases 16 - i,
{
    let t = s.take(i);
    if i > 0 {
        assert forall|k: int| 0 <= k < t.len() implies crate::common::is_hex_digit(
            #[trigger] t[k],
        ) by {
            assert(crate::common::is_hex_digit(s[k]));
        }
        crate::common::lemma_hex_bytes(t);
    } else {
        assert(t =~= Seq::empty());
        assert(byte_len(t) == 0);
    }
    if i < 16 {
        lemma_chars_for(s, i + 1);
    }
}

/// Each refusal is answered with its own status.
pub proof fn lemma_statuses(message: Seq<char>)
    ensures
        status_code(ErrorView::Unauthorized) == 401,
        status_code(ErrorView::Forbidden) == 403,
        status_code(ErrorView::NotFound) == 404,
        status_code(wrong(message)) == 400,
        status_code(ErrorView::TooManyRequests) == 429,
        status_code(ErrorView::Internal) == 500,
        told(wrong(message)) == message,
{
}

} // verus!
