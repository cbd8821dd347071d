//! Sessions of users. The server keeps a digest of each token; the token itself travels in a cookie
//! that scripts cannot read and other sites cannot send.

use crate::common::{clean_str, cleaned, hex_of, is_lower_hex, lemma_hex_bytes, lower_hex};
use crate::num::{decimal_int, nearest_i64, sat_add, show_i64};
use crate::server::config::{session_cookie, Config};
use crate::server::crypto::sha256_of;
use crate::server::db::text_view;
use crate::server::errors::{refusal, AppError, ErrorView};
use crate::server::util::{cookie_in, cookie_value, ct_eq, gen_token_hex, sha256_hex};
use crate::text::{byte_count, pieces, same};
use vstd::prelude::*;
use vstd::string::*;
use vstd::utf8::encode_utf8;

verus! {

/// A user with a session.
#[derive(Debug)]
pub struct SessionUser {
    pub user_id: i64,
    pub username: String,
    /// The digest of the token of the session.
    pub token_hash: String,
    /// `admin` or `viewer`.
    pub role: String,
}

impl Clone for SessionUser {
    fn clone(&self) -> (r: Self)
        ensures
            r.user_id == self.user_id,
            r.username@ == self.username@,
            r.token_hash@ == self.token_hash@,
            r.role@ == self.role@,
    {
        SessionUser {
            user_id: self.user_id,
            username: self.username.clone(),
            token_hash: self.token_hash.clone(),
            role: self.role.clone(),
        }
    }
}

impl SessionUser {
    /// Whether the user may change things.
    pub fn is_admin(&self) -> (r: bool)
        ensures
            r == (self.role@ == "admin"@),
    {
        same(self.role.as_str(), "admin")
    }
}

/// A user with a session who may change things. Every change but one to the own account takes one, and
/// only [`require_admin`] makes one.
#[derive(Debug)]
pub struct SessionAdmin(SessionUser);

impl View for SessionAdmin {
    type V = SessionUser;

    closed spec fn view(&self) -> SessionUser {
        self.0
    }
}

impl Clone for SessionAdmin {
    fn clone(&self) -> (r: Self)
        ensures
            r@.user_id == self@.user_id,
            r@.username@ == self@.username@,
            r@.token_hash@ == self@.token_hash@,
            r@.role@ == self@.role@,
    {
        proof {
            use_type_invariant(self);
        }
        SessionAdmin(self.0.clone())
    }
}

impl SessionAdmin {
    /// The role is that of an administrator.
    #[verifier::type_invariant]
    pub open spec fn may_change(self) -> bool {
        self@.role@ == "admin"@
    }

    /// The user.
    pub fn user(&self) -> (r: &SessionUser)
        ensures
            *r == self@,
            r.role@ == "admin"@,
    {
        proof {
            use_type_invariant(self);
        }
        &self.0
    }
}

/// The sessions that end with a change: those of one user, all of them or all but one.
#[derive(Debug)]
pub struct EndedSessions {
    pub user_id: i64,
    /// The digest of the token of the session that goes on.
    pub kept: Option<String>,
}

impl EndedSessions {
    /// A session ends: it is one of the user, and not the one that goes on.
    pub open spec fn covers(self, session_user: i64, token_hash: Seq<char>) -> bool {
        session_user == self.user_id && (self.kept matches Some(k) ==> token_hash != k@)
    }

    /// All sessions of the user end but the one of the request that makes the change.
    pub open spec fn all_but_own(self, user_id: i64, own: Seq<char>) -> bool {
        self.user_id == user_id && (self.kept matches Some(k) && k@ == own)
    }

    /// All sessions of a user but one.
    pub fn others(user_id: i64, own: &str) -> (r: Self)
        ensures
            r.all_but_own(user_id, own@),
    {
        EndedSessions { user_id, kept: Some(own.to_string()) }
    }

    /// Whether a session ends.
    pub fn ends(&self, session_user: i64, token_hash: &str) -> (r: bool)
        ensures
            r == self.covers(session_user, token_hash@),
    {
        if session_user != self.user_id {
            return false;
        }
        match &self.kept {
            Some(k) => !same(token_hash, k.as_str()),
            None => true,
        }
    }
}

/// The session that makes a change to its own account goes on, and nobody else is thrown out; every
/// other session of the account ends.
pub proof fn lemma_other_sessions_end(e: EndedSessions, user_id: i64, own: Seq<char>)
    requires
        e.all_but_own(user_id, own),
    ensures
        !e.covers(user_id, own),
        forall|u: i64, h: Seq<char>| #[trigger] e.covers(u, h) <==> u == user_id && h != own,
{
}

/// The digest of a text in hexadecimal, which is what the server keeps of it.
pub open spec fn digest_of(text: Seq<char>) -> Seq<char> {
    hex_of(sha256_of(encode_utf8(text)))
}

/// The digest of a text in hexadecimal.
pub fn digest(text: &str) -> (r: String)
    ensures
        r@ == digest_of(text@),
        r@.len() == 64,
        lower_hex(r@),
{
    sha256_hex(text.as_bytes())
}

/// The shape of a token: sixty-four characters of lower-case hexadecimal.
pub open spec fn token_shape(t: Seq<char>) -> bool {
    t.len() == 64 && lower_hex(t)
}

/// Whether a text has the shape of a token.
pub fn has_token_shape(t: &str) -> (r: bool)
    ensures
        r == token_shape(t@),
{
    if !is_lower_hex(t) {
        return false;
    }
    proof {
        lemma_hex_bytes(t@);
    }
    byte_count(t) == 64
}

/// The token that a cookie header brings, where it has the shape of one.
pub open spec fn brought_token(header: Option<Seq<char>>, name: Seq<char>) -> Option<Seq<char>> {
    match header {
        Some(h) => match cookie_in(pieces(h, ';'), name) {
            Some(t) => if token_shape(t) {
                Some(t)
            } else {
                None
            },
            None => None,
        },
        None => None,
    }
}

/// The digest of the token that a cookie header brings, by which its session is looked up.
pub fn session_key(header: Option<&str>, cfg: &Config) -> (r: Option<String>)
    ensures
        r is Some <==> brought_token(text_view(header), session_cookie(*cfg)) is Some,
        r matches Some(k) ==> k@ == digest_of(
            brought_token(text_view(header), session_cookie(*cfg))->0,
        ),
{
    match header {
        Some(h) => match cookie_value(h, cfg.cookie_name()) {
            Some(t) => if has_token_shape(t.as_str()) {
                Some(digest(t.as_str()))
            } else {
                None
            },
            None => None,
        },
        None => None,
    }
}

/// A stored session with its user.
#[derive(Debug)]
pub struct SessionRow {
    pub token_hash: String,
    pub expires_at: i64,
    pub user_id: i64,
    pub username: String,
    pub role: String,
}

/// What a stored session is worth.
#[derive(Debug)]
pub enum Standing {
    /// It stands for this user.
    Valid(SessionUser),
    /// Its time is over; it is to be deleted.
    Expired,
    /// It is not the one that was asked for.
    Unknown,
}

/// What a stored session is worth at the time `now`, for a request that brought the token with the
/// digest `key`.
pub fn try_session(row: SessionRow, key: &str, now: i64) -> (r: Standing)
    ensures
        r is Unknown <==> row.token_hash@ != key@,
        r is Expired <==> row.token_hash@ == key@ && row.expires_at < now,
        r matches Standing::Valid(u) ==> u.user_id == row.user_id && u.username@ == row.username@
            && u.role@ == row.role@ && u.token_hash@ == key@,
{
    if !ct_eq(row.token_hash.as_str(), key) {
        return Standing::Unknown;
    }
    if row.expires_at < now {
        return Standing::Expired;
    }
    Standing::Valid(
        SessionUser {
            user_id: row.user_id,
            username: row.username,
            token_hash: key.to_string(),
            role: row.role,
        },
    )
}

/// A request that needs a user.
pub fn require_user(user: Option<SessionUser>) -> (r: Result<SessionUser, AppError>)
    ensures
        refusal(r) == match user {
            Some(_) => None::<ErrorView>,
            None => Some(ErrorView::Unauthorized),
        },
        r matches Ok(u) ==> user == Some(u),
{
    match user {
        Some(u) => Ok(u),
        None => Err(AppError::Unauthorized),
    }
}

/// A request that needs a user who may change things.
pub fn require_admin(user: Option<SessionUser>) -> (r: Result<SessionAdmin, AppError>)
    ensures
        refusal(r) == match user {
            Some(u) => if u.role@ == "admin"@ {
                None::<ErrorView>
            } else {
                Some(ErrorView::Forbidden)
            },
            None => Some(ErrorView::Unauthorized),
        },
        r matches Ok(a) ==> user == Some(a@),
{
    match user {
        Some(u) => if u.is_admin() {
            Ok(SessionAdmin(u))
        } else {
            Err(AppError::Forbidden)
        },
        None => Err(AppError::Unauthorized),
    }
}

/// The cookie of a session.
pub open spec fn cookie_text(cfg: Config, value: Seq<char>, max_age: int) -> Seq<char> {
    session_cookie(cfg) + "="@ + value + "; Path=/; HttpOnly; SameSite=Strict; Max-Age="@
        + decimal_int(max_age) + if cfg.security.cookie_secure {
        "; Secure"@
    } else {
        ""@
    }
}

/// The cookie of a session.
pub fn build_cookie(cfg: &Config, value: &str, max_age: i64) -> (r: String)
    ensures
        r@ == cookie_text(*cfg, value@, max_age as int),
{
    let mut s = cfg.cookie_name().to_string();
    s.append("=");
    s.append(value);
    s.append("; Path=/; HttpOnly; SameSite=Strict; Max-Age=");
    s.append(show_i64(max_age).as_str());
    if cfg.security.cookie_secure {
        s.append("; Secure");
    } else {
        s.append("");
    }
    s
}

/// The cookie that ends a session in the browser.
pub fn clear_cookie(cfg: &Config) -> (r: String)
    ensures
        r@ == cookie_text(*cfg, ""@, 0),
{
    build_cookie(cfg, "", 0)
}

/// A new session: what is stored of it, and the cookie.
#[derive(Debug)]
pub struct NewSession {
    pub token_hash: String,
    pub expires_at: i64,
    pub user_agent: String,
    pub cookie: String,
}

/// How long a session lasts, in seconds.
pub open spec fn ttl(cfg: Config) -> int {
    cfg.security.session_ttl_hours * 3600
}

/// A session with a given token: the server keeps its digest, the cookie brings it back.
pub open spec fn is_session_of(
    s: NewSession,
    token: Seq<char>,
    cfg: Config,
    user_agent: Seq<char>,
    now: i64,
) -> bool {
    &&& s.token_hash@ == digest_of(token)
    &&& s.expires_at == nearest_i64(now + ttl(cfg))
    &&& s.user_agent@ == cleaned(user_agent, 200)
    &&& s.cookie@ == cookie_text(cfg, token, ttl(cfg))
}

/// The session with a given token.
pub fn session_with(token: &str, cfg: &Config, user_agent: &str, now: i64) -> (r: NewSession)
    ensures
        is_session_of(r, token@, *cfg, user_agent@, now),
{
    let ttl: i64 = cfg.security.session_ttl_hours as i64 * 3600;
    NewSession {
        token_hash: digest(token),
        expires_at: sat_add(now, ttl),
        user_agent: clean_str(user_agent, 200),
        cookie: build_cookie(cfg, token, ttl),
    }
}

/// A session with some token of the right shape.
pub open spec fn is_new_session(s: NewSession, cfg: Config, user_agent: Seq<char>, now: i64) -> bool {
    exists|t: Seq<char>|
        token_shape(t) && #[trigger] is_session_of(s, t, cfg, user_agent, now)
}

/// A session with a new random token; it fails only where the random source of the system does not
/// answer.
pub fn create_session(cfg: &Config, user_agent: &str, now: i64) -> (r: Result<NewSession, AppError>)
    ensures
        r matches Ok(s) ==> is_new_session(s, *cfg, user_agent@, now),
        r matches Err(e) ==> e@ == ErrorView::Internal,
{
    match gen_token_hex() {
        Ok(token) => {
            let s = session_with(token.as_str(), cfg, user_agent, now);
            assert(token_shape(token@));
            assert(is_session_of(s, token@, *cfg, user_agent@, now));
            Ok(s)
        },
        Err(_) => Err(AppError::Internal),
    }
}

} // verus!
