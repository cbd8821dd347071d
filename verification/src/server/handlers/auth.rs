//! The first account, logins and passwords.

use crate::common::{clean_str, cleaned};
use crate::ip::IpAddr;
use crate::server::crypto::{
    argon2_accepts, argon2_hash, argon2_text, argon2_verify, has_many_lanes, many_lanes, os_random,
    MIN_SALT,
};
use crate::server::db::text_view;
use crate::server::errors::{refusal, told, wrong, AppError, ErrorView};
use crate::server::handlers::twofa::{consume_recovery, recovery_shape};
use crate::server::ratelimit::{
    failed_once_more, fails_of, lock_after, still_locked, Fails, LoginGuard,
};
use crate::server::session::{digest_of, EndedSessions, SessionUser};
use crate::server::totp::{code_accepted, verify};
use crate::text::{alphabetic, chars_of, is_alphabetic, is_ascii_alnum, is_digit, trim, trimmed};
use vstd::prelude::*;
use vstd::string::*;

verus! {

/// The first account.
#[derive(Debug)]
pub struct SetupReq {
    pub username: String,
    pub password: String,
}

/// A login.
#[derive(Debug)]
pub struct LoginReq {
    pub username: String,
    pub password: String,
    /// The code of the second step, or a code for recovery; empty where there is none.
    pub code: String,
}

/// A new password.
#[derive(Debug)]
pub struct PasswordReq {
    pub old_password: String,
    pub new_password: String,
}

// ---------------------------------------------------------------------------
// Names and passwords
// ---------------------------------------------------------------------------

/// A character of the name of a user.
#[verifier::allow_in_spec]
pub fn is_user_char(c: char) -> bool
    returns
        is_ascii_alnum(c) || c == '_' || c == '.' || c == '-',
{
    is_ascii_alnum(c) || c == '_' || c == '.' || c == '-'
}

/// The name of a user: 3 to 32 ASCII letters, digits and `_ . -`.
pub open spec fn user_name(u: Seq<char>) -> bool {
    3 <= u.len() <= 32 && forall|i: int| 0 <= i < u.len() ==> is_user_char(#[trigger] u[i])
}

/// Whether a text can be the name of a user.
pub fn valid_username(u: &str) -> (r: bool)
    ensures
        r == user_name(u@),
{
    let v = chars_of(u);
    if v.len() < 3 || v.len() > 32 {
        return false;
    }
    let mut i: usize = 0;
    while i < v.len()
        invariant
            v@ == u@,
            i <= v@.len(),
            forall|j: int| 0 <= j < i ==> is_user_char(#[trigger] u@[j]),
        decreases v@.len() - i,
    {
        if !is_user_char(v[i]) {
            assert(!is_user_char(u@[i as int]));
            return false;
        }
        i = i + 1;
    }
    true
}

/// A letter is among the characters.
pub open spec fn has_letter(p: Seq<char>) -> bool {
    exists|i: int| 0 <= i < p.len() && alphabetic(#[trigger] p[i])
}

/// A digit is among the characters.
pub open spec fn has_digit(p: Seq<char>) -> bool {
    exists|i: int| 0 <= i < p.len() && is_digit(#[trigger] p[i])
}

/// Why a password is too weak, if it is.
pub open spec fn too_weak(p: Seq<char>) -> Option<ErrorView> {
    if !(10 <= p.len() <= 128) {
        Some(wrong("密码长度需在 10~128 字符之间"@))
    } else if !(has_letter(p) && has_digit(p)) {
        Some(wrong("密码需同时包含字母和数字"@))
    } else {
        None
    }
}

fn count_classes(v: &[char]) -> (r: (bool, bool))
    ensures
        r.0 == has_letter(v@),
        r.1 == has_digit(v@),
{
    let mut letter = false;
    let mut digit = false;
    let mut i: usize = 0;
    while i < v.len()
        invariant
            i <= v@.len(),
            letter == exists|j: int| 0 <= j < i && alphabetic(#[trigger] v@[j]),
            digit == exists|j: int| 0 <= j < i && is_digit(#[trigger] v@[j]),
        decreases v@.len() - i,
    {
        if is_alphabetic(v[i]) {
            assert(alphabetic(v@[i as int]));
            letter = true;
        }
        if is_digit(v[i]) {
            assert(is_digit(v@[i as int]));
            digit = true;
        }
        i = i + 1;
    }
    (letter, digit)
}

/// Whether a password is strong enough: 10 to 128 characters, letters and digits among them.
pub fn check_password_strength(p: &str) -> (r: Result<(), AppError>)
    ensures
        refusal(r) == too_weak(p@),
{
    let v = chars_of(p);
    if v.len() < 10 || v.len() > 128 {
        return Err(AppError::bad("密码长度需在 10~128 字符之间"));
    }
    let (letter, digit) = count_classes(v.as_slice());
    if !(letter && digit) {
        return Err(AppError::bad("密码需同时包含字母和数字"));
    }
    Ok(())
}

/// How many random bytes go into what is stored of a password.
pub const SALT_BYTES: usize = 16;

/// A text is what Argon2 makes of a password with some salt.
pub open spec fn salted(h: Seq<char>, p: Seq<char>) -> bool {
    exists|salt: Seq<u8>|
        salt.len() == SALT_BYTES && #[trigger] argon2_text(p, salt) == Some(h)
}

/// A stored text stands for a password: Argon2 takes it for that password.
pub open spec fn accepts(stored: Seq<char>, p: Seq<char>) -> bool {
    !many_lanes(stored) && argon2_accepts(stored, p)
}

/// A text is what is stored of a password: Argon2 made it, and takes it for that password.
pub open spec fn stored_for(h: Seq<char>, p: Seq<char>) -> bool {
    salted(h, p) && accepts(h, p)
}

/// What Argon2 makes of a password and a salt. It fails only where Argon2 does.
pub fn hash_with(p: &str, salt: &[u8]) -> (r: Result<String, AppError>)
    requires
        MIN_SALT <= salt@.len(),
    ensures
        r is Ok <==> argon2_text(p@, salt@) is Some,
        r matches Ok(h) ==> argon2_text(p@, salt@) == Some(h@) && accepts(h@, p@),
        r matches Err(e) ==> e@ == ErrorView::Internal,
{
    match argon2_hash(p, salt) {
        Some(h) => Ok(h),
        None => Err(AppError::Internal),
    }
}

/// What is stored of a password: the text of Argon2 with a new random salt. It fails only where the
/// random source of the system or Argon2 does.
pub fn hash_password(p: &str) -> (r: Result<String, AppError>)
    ensures
        r matches Ok(h) ==> stored_for(h@, p@),
        r matches Err(e) ==> e@ == ErrorView::Internal,
{
    match os_random(SALT_BYTES) {
        Some(salt) => hash_with(p, salt.as_slice()),
        None => Err(AppError::Internal),
    }
}

/// Whether what is stored of a password stands for this one.
pub fn verify_password(stored: &str, p: &str) -> (r: bool)
    ensures
        r == accepts(stored@, p@),
{
    !has_many_lanes(stored) && argon2_verify(stored, p)
}

// ---------------------------------------------------------------------------
// Accounts
// ---------------------------------------------------------------------------

/// Why an account is not accepted, if it is not.
pub open spec fn account_refused(username: Seq<char>, password: Seq<char>) -> Option<ErrorView> {
    if !user_name(username) {
        Some(wrong("用户名需 3~32 位,仅限字母数字与 _.-"@))
    } else {
        too_weak(password)
    }
}

/// Whether an account is accepted.
pub fn check_account(username: &str, password: &str) -> (r: Result<(), AppError>)
    ensures
        refusal(r) == account_refused(username@, password@),
{
    if !valid_username(username) {
        return Err(AppError::bad("用户名需 3~32 位,仅限字母数字与 _.-"));
    }
    check_password_strength(password)
}

/// What is stored of the password of the first account, made at the console. An account that is not
/// accepted is refused, with what a user would be told.
pub fn create_admin(username: &str, password: &str) -> (r: Result<String, String>)
    ensures
        account_refused(username@, password@) matches Some(e) ==> r is Err && (r->Err_0)@ == told(e),
        account_refused(username@, password@) is None ==> match r {
            Ok(h) => stored_for(h@, password@),
            Err(e) => e@ == "argon2 哈希失败"@,
        },
{
    match check_account(username, password) {
        Ok(()) => {},
        Err(e) => {
            return Err(e.message());
        },
    }
    match hash_password(password) {
        Ok(h) => Ok(h),
        Err(_) => Err("argon2 哈希失败".to_string()),
    }
}

/// What is stored of the password of the first account. The same is asked of it as at the console.
pub fn setup(req: &SetupReq) -> (r: Result<String, AppError>)
    ensures
        account_refused(req.username@, req.password@) matches Some(e) ==> refusal(r) == Some(e),
        account_refused(req.username@, req.password@) is None ==> match r {
            Ok(h) => stored_for(h@, req.password@),
            Err(e) => e@ == ErrorView::Internal,
        },
{
    match check_account(req.username.as_str(), req.password.as_str()) {
        Ok(()) => {},
        Err(e) => {
            return Err(e);
        },
    }
    hash_password(req.password.as_str())
}

/// Whether the first account was made already. `users` counts the accounts that there are.
pub fn setup_done(users: i64) -> (r: bool)
    ensures
        r == (users > 0),
{
    users > 0
}

/// Whether the first account was stored: it is stored only where there is none. `rows` counts what was
/// stored.
pub fn setup_stored(rows: u64) -> (r: Result<(), AppError>)
    ensures
        refusal(r) == if rows == 0 {
            Some(ErrorView::Forbidden)
        } else {
            None
        },
{
    if rows == 0 {
        Err(AppError::Forbidden)
    } else {
        Ok(())
    }
}

/// What is stored of a new password of a user, all whose sessions end. `stored` is what is stored of
/// the old one; nothing where the account is gone.
pub fn change_password(user: &SessionUser, req: &PasswordReq, stored: Option<&str>) -> (r: Result<
    (String, EndedSessions),
    AppError,
>)
    ensures
        too_weak(req.new_password@) matches Some(e) ==> refusal(r) == Some(e),
        too_weak(req.new_password@) is None ==> match text_view(stored) {
            None => refusal(r) == Some(ErrorView::Unauthorized),
            Some(h) => if !accepts(h, req.old_password@) {
                refusal(r) == Some(wrong("原密码不正确"@))
            } else {
                match r {
                    Ok(n) => stored_for(n.0@, req.new_password@) && n.1.user_id == user.user_id
                        && n.1.kept is None,
                    Err(e) => e@ == ErrorView::Internal,
                }
            },
        },
{
    match check_password_strength(req.new_password.as_str()) {
        Ok(()) => {},
        Err(e) => {
            return Err(e);
        },
    }
    match stored {
        None => Err(AppError::Unauthorized),
        Some(h) => if !verify_password(h, req.old_password.as_str()) {
            Err(AppError::bad("原密码不正确"))
        } else {
            match hash_password(req.new_password.as_str()) {
                Ok(h) => Ok((h, EndedSessions { user_id: user.user_id, kept: None })),
                Err(e) => Err(e),
            }
        },
    }
}

// ---------------------------------------------------------------------------
// Logins
// ---------------------------------------------------------------------------

/// The name under which a login is counted.
pub fn login_name(guard: &LoginGuard, ip: IpAddr, req: &LoginReq, now: i64) -> (r: Result<
    String,
    AppError,
>)
    requires
        guard.wf(),
    ensures
        refusal(r) == if guard@.contains_key((ip, cleaned(req.username@, 64)))
            && guard@[(ip, cleaned(req.username@, 64))].until > now {
            Some(ErrorView::TooManyRequests)
        } else {
            None
        },
        r matches Ok(u) ==> u@ == cleaned(req.username@, 64),
{
    let uname = clean_str(req.username.as_str(), 64);
    if guard.is_locked(ip, uname.as_str(), now) {
        return Err(AppError::TooManyRequests);
    }
    Ok(uname)
}

/// An account as it is stored.
#[derive(Debug)]
pub struct UserRow {
    pub id: i64,
    pub pass_hash: String,
    pub totp_secret: String,
    pub totp_enabled: i64,
}

/// What a login comes to.
pub enum Outcome {
    /// No such account, or not its password.
    WrongPassword,
    /// The code of the second step is missing.
    CodeMissing,
    /// Neither the code of the second step nor one for recovery.
    WrongCode,
    /// It has the shape of a code for recovery, which is looked up by this digest.
    Recovery { digest: Seq<char> },
    /// The user is let in.
    Granted,
}

/// What a login comes to. `second` says whether the account asks for a second step.
pub open spec fn outcome(
    password_ok: bool,
    second: bool,
    code: Seq<char>,
    code_ok: bool,
) -> Outcome {
    if !password_ok {
        Outcome::WrongPassword
    } else if !second {
        Outcome::Granted
    } else if trimmed(code).len() == 0 {
        Outcome::CodeMissing
    } else if code_ok {
        Outcome::Granted
    } else if recovery_shape(trimmed(code)) {
        Outcome::Recovery { digest: digest_of(trimmed(code)) }
    } else {
        Outcome::WrongCode
    }
}

/// What is remembered of failed logins after one more.
pub open spec fn one_more(
    m: Map<(IpAddr, Seq<char>), Fails>,
    key: (IpAddr, Seq<char>),
    now: i64,
) -> Map<(IpAddr, Seq<char>), Fails> {
    still_locked(m, now).insert(
        key,
        failed_once_more(fails_of(still_locked(m, now), key), now),
    )
}

/// What a failed login is answered with: that there were too many, where it locks the client out.
pub open spec fn failed_answer(
    m: Map<(IpAddr, Seq<char>), Fails>,
    key: (IpAddr, Seq<char>),
    now: i64,
    message: Seq<char>,
) -> ErrorView {
    if lock_after(failed_once_more(fails_of(still_locked(m, now), key), now).count) is Some {
        ErrorView::TooManyRequests
    } else {
        wrong(message)
    }
}

/// What is remembered of failed logins after one with an outcome.
pub open spec fn remembered_after(
    m: Map<(IpAddr, Seq<char>), Fails>,
    key: (IpAddr, Seq<char>),
    now: i64,
    o: Outcome,
) -> Map<(IpAddr, Seq<char>), Fails> {
    match o {
        Outcome::WrongPassword => one_more(m, key, now),
        Outcome::WrongCode => one_more(m, key, now),
        Outcome::Granted => m.remove(key),
        _ => m,
    }
}

/// What to do about a login.
#[derive(Debug)]
pub enum LoginStep {
    /// Let the user in.
    Granted,
    /// Refuse it, and write this down; nothing is written where it is empty.
    Refused { error: AppError, action: &'static str },
    /// Look up the code for recovery with this digest.
    Recovery { digest: String },
}

/// A step is what an outcome asks for.
pub open spec fn step_of(
    s: LoginStep,
    m: Map<(IpAddr, Seq<char>), Fails>,
    key: (IpAddr, Seq<char>),
    now: i64,
    o: Outcome,
) -> bool {
    match o {
        Outcome::WrongPassword => s matches LoginStep::Refused { error, action } && error@
            == failed_answer(m, key, now, "用户名或密码错误"@) && action@ == "login_fail"@,
        Outcome::CodeMissing => s matches LoginStep::Refused { error, action } && error@ == wrong(
            "需要两步验证码"@,
        ) && action@ == ""@,
        Outcome::WrongCode => s matches LoginStep::Refused { error, action } && error@
            == failed_answer(m, key, now, "两步验证码不正确"@) && action@ == "login_2fa_fail"@,
        Outcome::Recovery { digest } => s matches LoginStep::Recovery { digest: d } && d@ == digest,
        Outcome::Granted => s is Granted,
    }
}

fn fail(guard: &mut LoginGuard, ip: IpAddr, uname: &str, now: i64, message: &str) -> (e: AppError)
    requires
        old(guard).wf(),
    ensures
        final(guard).wf(),
        final(guard)@ == one_more(old(guard)@, (ip, uname@), now),
        e@ == failed_answer(old(guard)@, (ip, uname@), now, message@),
{
    match guard.record_fail(ip, uname, now) {
        Some(_) => AppError::TooManyRequests,
        None => AppError::bad(message),
    }
}

/// What to do about a login, with what the password and the code came to. A missing code does not
/// count as a failure.
pub fn decide_login(
    guard: &mut LoginGuard,
    ip: IpAddr,
    uname: &str,
    password_ok: bool,
    second: bool,
    code: &str,
    code_ok: bool,
    now: i64,
) -> (r: LoginStep)
    requires
        old(guard).wf(),
    ensures
        final(guard).wf(),
        final(guard)@ == remembered_after(
            old(guard)@,
            (ip, uname@),
            now,
            outcome(password_ok, second, code@, code_ok),
        ),
        step_of(
            r,
            old(guard)@,
            (ip, uname@),
            now,
            outcome(password_ok, second, code@, code_ok),
        ),
{
    if !password_ok {
        let error = fail(guard, ip, uname, now, "用户名或密码错误");
        return LoginStep::Refused { error, action: "login_fail" };
    }
    if second {
        let v = chars_of(code);
        let c = trim(v.as_slice());
        if c.len() == 0 {
            return LoginStep::Refused { error: AppError::bad("需要两步验证码"), action: "" };
        }
        if !code_ok {
            return match consume_recovery(code) {
                Some(digest) => LoginStep::Recovery { digest },
                None => {
                    let error = fail(guard, ip, uname, now, "两步验证码不正确");
                    LoginStep::Refused { error, action: "login_2fa_fail" }
                },
            };
        }
    }
    guard.reset(ip, uname);
    LoginStep::Granted
}

/// What a login comes to, for an account as it is stored; nothing where there is none.
pub open spec fn login_outcome(
    row: Option<UserRow>,
    password: Seq<char>,
    code: Seq<char>,
    now: i64,
) -> Outcome {
    match row {
        Some(u) => outcome(
            accepts(u.pass_hash@, password),
            u.totp_enabled != 0,
            code,
            code_accepted(u.totp_secret@, code, now),
        ),
        None => Outcome::WrongPassword,
    }
}

/// What to do about a login. Where there is no such account, the password is held against
/// `dummy_hash`, so that it takes as long.
pub fn login(
    guard: &mut LoginGuard,
    ip: IpAddr,
    uname: &str,
    row: Option<UserRow>,
    dummy_hash: &str,
    req: &LoginReq,
    now: i64,
) -> (r: LoginStep)
    requires
        old(guard).wf(),
    ensures
        final(guard).wf(),
        final(guard)@ == remembered_after(
            old(guard)@,
            (ip, uname@),
            now,
            login_outcome(row, req.password@, req.code@, now),
        ),
        step_of(
            r,
            old(guard)@,
            (ip, uname@),
            now,
            login_outcome(row, req.password@, req.code@, now),
        ),
{
    match row {
        Some(u) => {
            let password_ok = verify_password(u.pass_hash.as_str(), req.password.as_str());
            let second = u.totp_enabled != 0;
            let code_ok = password_ok && second && verify(
                u.totp_secret.as_str(),
                req.code.as_str(),
                now,
            );
            decide_login(guard, ip, uname, password_ok, second, req.code.as_str(), code_ok, now)
        },
        None => {
            let _ = verify_password(dummy_hash, req.password.as_str());
            decide_login(guard, ip, uname, false, false, req.code.as_str(), false, now)
        },
    }
}

/// What to do about a login once its code for recovery was looked up: such a code counts once.
pub fn login_recovery(
    guard: &mut LoginGuard,
    ip: IpAddr,
    uname: &str,
    consumed: bool,
    now: i64,
) -> (r: LoginStep)
    requires
        old(guard).wf(),
    ensures
        final(guard).wf(),
        final(guard)@ == remembered_after(
            old(guard)@,
            (ip, uname@),
            now,
            if consumed {
                Outcome::Granted
            } else {
                Outcome::WrongCode
            },
        ),
        step_of(
            r,
            old(guard)@,
            (ip, uname@),
            now,
            if consumed {
                Outcome::Granted
            } else {
                Outcome::WrongCode
            },
        ),
{
    if consumed {
        guard.reset(ip, uname);
        LoginStep::Granted
    } else {
        let error = fail(guard, ip, uname, now, "两步验证码不正确");
        LoginStep::Refused { error, action: "login_2fa_fail" }
    }
}

/// Nobody is let in without the password, nor, where an account asks for a second step, without its
/// code: what a login comes to is then neither that the user is let in nor a code to look up.
pub proof fn lemma_no_way_round(row: Option<UserRow>, password: Seq<char>, code: Seq<char>, now: i64)
    ensures
        (row is None || !accepts((row->0).pass_hash@, password)) ==> login_outcome(
            row,
            password,
            code,
            now,
        ) is WrongPassword,
        row is Some && (row->0).totp_enabled != 0 && login_outcome(row, password, code, now)
            is Granted ==> code_accepted((row->0).totp_secret@, code, now),
{
}

/// What a failed login is answered with does not tell whether there is such an account.
pub proof fn lemma_accounts_do_not_show(
    row: UserRow,
    s1: LoginStep,
    s2: LoginStep,
    m: Map<(IpAddr, Seq<char>), Fails>,
    key: (IpAddr, Seq<char>),
    password: Seq<char>,
    code: Seq<char>,
    now: i64,
)
    requires
        !accepts(row.pass_hash@, password),
        step_of(s1, m, key, now, login_outcome(Some(row), password, code, now)),
        step_of(s2, m, key, now, login_outcome(None, password, code, now)),
    ensures
        s1 matches LoginStep::Refused { error: e1, action: a1 } && s2 matches LoginStep::Refused {
            error: e2,
            action: a2,
        } && e1@ == e2@ && a1@ == a2@,
{
}

/// What users are told of a login from an address that is new to them.
pub fn new_device_text(uname: &str, ip: &str) -> (r: String)
    ensures
        r@ == "🔑 新设备登录:用户 "@ + uname@ + " 首次从 IP "@ + ip@ + " 登录 Outpost 面板"@,
{
    let mut s = "🔑 新设备登录:用户 ".to_string();
    s.append(uname);
    s.append(" 首次从 IP ");
    s.append(ip);
    s.append(" 登录 Outpost 面板");
    s
}

/// What users are told of a login that succeeded: something where the address is new to the account.
/// `seen` counts the sessions of the account from the address.
pub fn new_device_notice(seen: i64, uname: &str, ip: &str) -> (r: Option<String>)
    ensures
        r is Some <==> seen == 0,
        r matches Some(t) ==> t@ == "🔑 新设备登录:用户 "@ + uname@ + " 首次从 IP "@ + ip@
            + " 登录 Outpost 面板"@,
{
    if seen == 0 {
        Some(new_device_text(uname, ip))
    } else {
        None
    }
}

} // verus!
