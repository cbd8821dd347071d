//! Accounts: administrators make them, change what they may do, and remove them. One administrator
//! always remains.

use crate::server::errors::{refusal, wrong, AppError, ErrorView};
use crate::server::handlers::auth::{account_refused, check_account, hash_password, stored_for};
use crate::server::session::{EndedSessions, SessionAdmin};
use crate::text::same;
use vstd::prelude::*;
use vstd::string::*;

verus! {

/// The most accounts.
pub const MAX_USERS: i64 = 50;

/// A new account.
#[derive(Debug)]
pub struct CreateUserReq {
    pub username: String,
    pub password: String,
    pub role: String,
}

/// A new role.
#[derive(Debug)]
pub struct RoleReq {
    pub role: String,
}

/// The roles.
pub open spec fn known_role(r: Seq<char>) -> bool {
    r == "admin"@ || r == "viewer"@
}

/// Whether a text is a role.
pub fn valid_role(r: &str) -> (b: bool)
    ensures
        b == known_role(r@),
{
    same(r, "admin") || same(r, "viewer")
}

/// Why an account is not made, if it is not. `users` counts the accounts that there are.
pub open spec fn user_refused(q: CreateUserReq, users: i64) -> Option<ErrorView> {
    if account_refused(q.username@, q.password@) is Some {
        account_refused(q.username@, q.password@)
    } else if !known_role(q.role@) {
        Some(wrong("角色需为 admin 或 viewer"@))
    } else if users >= MAX_USERS {
        Some(wrong("账号数量已达上限"@))
    } else {
        None
    }
}

/// What is stored of the password of a new account.
pub fn create(admin: &SessionAdmin, req: &CreateUserReq, users: i64) -> (r: Result<String, AppError>)
    ensures
        admin@.role@ == "admin"@,
        user_refused(*req, users) matches Some(e) ==> refusal(r) == Some(e),
        user_refused(*req, users) is None ==> match r {
            Ok(h) => stored_for(h@, req.password@),
            Err(e) => e@ == ErrorView::Internal,
        },
{
    proof {
        use_type_invariant(admin);
    }
    match check_account(req.username.as_str(), req.password.as_str()) {
        Ok(()) => {},
        Err(e) => {
            return Err(e);
        },
    }
    if !valid_role(req.role.as_str()) {
        return Err(AppError::bad("角色需为 admin 或 viewer"));
    }
    if users >= MAX_USERS {
        return Err(AppError::bad("账号数量已达上限"));
    }
    hash_password(req.password.as_str())
}

/// Why a role is not changed, if it is not. `other_admins` counts the other administrators.
pub open spec fn role_refused(role: Seq<char>, other_admins: i64) -> Option<ErrorView> {
    if !known_role(role) {
        Some(wrong("角色需为 admin 或 viewer"@))
    } else if role == "viewer"@ && other_admins == 0 {
        Some(wrong("至少保留一个管理员账号"@))
    } else {
        None
    }
}

/// Whether the role of the account `id` is changed: the last administrator stays one. The other
/// sessions of the account end.
pub fn set_role(admin: &SessionAdmin, id: i64, req: &RoleReq, other_admins: i64) -> (r: Result<
    EndedSessions,
    AppError,
>)
    ensures
        admin@.role@ == "admin"@,
        refusal(r) == role_refused(req.role@, other_admins),
        r matches Ok(e) ==> e.all_but_own(id, admin@.token_hash@),
{
    proof {
        use_type_invariant(admin);
    }
    if !valid_role(req.role.as_str()) {
        return Err(AppError::bad("角色需为 admin 或 viewer"));
    }
    if same(req.role.as_str(), "viewer") && other_admins == 0 {
        return Err(AppError::bad("至少保留一个管理员账号"));
    }
    Ok(EndedSessions::others(id, admin.user().token_hash.as_str()))
}

/// Why an account is not removed, if it is not. `role` is the role of the account, which may be gone;
/// `other_admins` counts the other administrators.
pub open spec fn removal_refused(
    id: i64,
    own: i64,
    role: Option<Seq<char>>,
    other_admins: i64,
) -> Option<ErrorView> {
    if id == own {
        Some(wrong("不能删除自己的账号"@))
    } else {
        match role {
            None => Some(ErrorView::NotFound),
            Some(r) => if r == "admin"@ && other_admins == 0 {
                Some(wrong("至少保留一个管理员账号"@))
            } else {
                None
            },
        }
    }
}

/// Whether an account is removed: nobody removes the own account, and the last administrator stays.
pub fn delete(admin: &SessionAdmin, id: i64, role: Option<&str>, other_admins: i64) -> (r: Result<
    (),
    AppError,
>)
    ensures
        admin@.role@ == "admin"@,
        refusal(r) == removal_refused(
            id,
            admin@.user_id,
            crate::server::db::text_view(role),
            other_admins,
        ),
{
    proof {
        use_type_invariant(admin);
    }
    if id == admin.user().user_id {
        return Err(AppError::bad("不能删除自己的账号"));
    }
    match role {
        None => Err(AppError::NotFound),
        Some(role) => if same(role, "admin") && other_admins == 0 {
            Err(AppError::bad("至少保留一个管理员账号"))
        } else {
            Ok(())
        },
    }
}

// ---------------------------------------------------------------------------
// One administrator always remains
// ---------------------------------------------------------------------------

/// An account: its number and its role.
pub type Account = (i64, Seq<char>);

/// The administrators other than one account.
pub open spec fn admin_beside(id: i64) -> spec_fn(Account) -> bool {
    |u: Account| u.1 == "admin"@ && u.0 != id
}

/// The accounts other than one.
pub open spec fn beside(id: i64) -> spec_fn(Account) -> bool {
    |u: Account| u.0 != id
}

/// How many administrators there are beside one account.
pub open spec fn admins_beside(users: Seq<Account>, id: i64) -> nat {
    users.filter(admin_beside(id)).len()
}

/// There is an administrator.
pub open spec fn has_admin(users: Seq<Account>) -> bool {
    exists|i: int| 0 <= i < users.len() && (#[trigger] users[i]).1 == "admin"@
}

/// The accounts after one got a role.
pub open spec fn with_role(users: Seq<Account>, id: i64, role: Seq<char>) -> Seq<Account> {
    users.map_values(
        |u: Account|
            if u.0 == id {
                (id, role)
            } else {
                u
            },
    )
}

/// The accounts after one was removed.
pub open spec fn without(users: Seq<Account>, id: i64) -> Seq<Account> {
    users.filter(beside(id))
}

proof fn lemma_other_admin(users: Seq<Account>, id: i64)
    requires
        admins_beside(users, id) > 0,
    ensures
        exists|i: int|
            0 <= i < users.len() && (#[trigger] users[i]).1 == "admin"@ && users[i].0 != id,
{
    let p = admin_beside(id);
    let f = users.filter(p);
    assert(f.contains(f[0]));
    users.lemma_filter_contains_rev(p, f[0]);
    users.lemma_filter_pred(p, 0);
    let i = choose|i: int| 0 <= i < users.len() && users[i] == f[0];
    assert(users[i].1 == "admin"@ && users[i].0 != id);
}

/// Neither a change of roles nor a removal that is accepted leaves the server without an
/// administrator.
pub proof fn lemma_admin_remains(
    users: Seq<Account>,
    id: i64,
    own: i64,
    role: Seq<char>,
    other_admins: i64,
)
    requires
        has_admin(users),
        other_admins == admins_beside(users, id),
        forall|i: int, j: int|
            #![trigger users[i], users[j]]
            0 <= i < users.len() && 0 <= j < users.len() && users[i].0 == users[j].0 ==> i == j,
    ensures
        role_refused(role, other_admins) is None ==> has_admin(with_role(users, id, role)),
        forall|i: int|
            0 <= i < users.len() && (#[trigger] users[i]).0 == id && removal_refused(
                id,
                own,
                Some(users[i].1),
                other_admins,
            ) is None ==> has_admin(without(users, id)),
{
    let a = choose|i: int| 0 <= i < users.len() && (#[trigger] users[i]).1 == "admin"@;
    if role_refused(role, other_admins) is None {
        let w = with_role(users, id, role);
        if role == "admin"@ {
            assert(w[a].1 == "admin"@);
        } else {
            lemma_other_admin(users, id);
            let k = choose|i: int|
                0 <= i < users.len() && (#[trigger] users[i]).1 == "admin"@ && users[i].0 != id;
            assert(w[k].1 == "admin"@);
        }
    }
    assert forall|i: int|
        0 <= i < users.len() && (#[trigger] users[i]).0 == id && removal_refused(
            id,
            own,
            Some(users[i].1),
            other_admins,
        ) is None implies has_admin(without(users, id)) by {
        let k = if users[i].1 == "admin"@ {
            lemma_other_admin(users, id);
            choose|k: int|
                0 <= k < users.len() && (#[trigger] users[k]).1 == "admin"@ && users[k].0 != id
        } else {
            a
        };
        let p = beside(id);
        assert(users[k].0 != id) by {
            if users[k].0 == id {
                assert(users[k].0 == users[i].0);
            }
        }
        assert(p(users[k]));
        users.lemma_filter_contains(p, k);
        let w = without(users, id);
        let x = choose|x: int| 0 <= x < w.len() && w[x] == users[k];
        assert(w[x].1 == "admin"@);
    }
}

} // verus!
