//! Nodes: how they are named, installed, shown, grouped and put in order.

use crate::common::{clean_str, cleaned, short_name, valid_short_name};
use crate::num::{
    clamp_i64, clamped_i64, decimal, larger, max_i64, nearest_i64, sat_add, sat_mul, sat_sub,
    show_u64,
};
use crate::server::errors::{refusal, wrong, AppError, ErrorView};
use crate::server::session::{digest, digest_of, token_shape, SessionAdmin};
use crate::server::state::{pending, PendingUpgrades, UPGRADE_RESEND_SECS};
use crate::server::traffic::{current_period_start, period_start, valid_reset_day};
use crate::server::util::gen_token_hex;
use crate::text::{chars_of, drop_trailing, same, string_of, strip_end};
use vstd::prelude::*;
use vstd::string::*;

verus! {

/// For how long a key for registration counts, in seconds.
pub const REGISTER_KEY_TTL_SECS: i64 = 1800;

/// A new node.
#[derive(Debug)]
pub struct CreateNodeReq {
    pub name: String,
    pub grp: String,
    /// Whether its traffic is counted anew each month.
    pub traffic_reset_enabled: bool,
    /// The day of the month on which it is.
    pub traffic_reset_day: i64,
}

/// What is changed of a node.
#[derive(Debug)]
pub struct RenameReq {
    pub name: String,
    pub grp: String,
    pub note: String,
    pub traffic_reset_enabled: bool,
    pub traffic_reset_day: i64,
}

/// How far back a history goes.
#[derive(Debug)]
pub struct HistoryQuery {
    /// In seconds.
    pub secs: i64,
}

/// One thing that is done to many nodes.
#[derive(Debug)]
pub struct BatchReq {
    /// `delete`, `revoke`, `set_group` or `upgrade`.
    pub action: String,
    pub ids: Vec<i64>,
    pub grp: String,
}

/// A new order of the nodes.
#[derive(Debug)]
pub struct ReorderReq {
    /// All nodes, in the order in which they are shown.
    pub ids: Vec<i64>,
}

/// The day on which traffic is counted anew where a request does not say.
pub fn default_reset_day() -> (r: i64)
    ensures
        r == 1,
{
    1
}

// ---------------------------------------------------------------------------
// Names
// ---------------------------------------------------------------------------

/// The name of a node as it is stored; nothing is left of some names.
pub fn validate_node_name(name: &str) -> (r: Result<String, AppError>)
    ensures
        refusal(r) == if short_name(cleaned(name@, 64)) {
            None::<ErrorView>
        } else {
            Some(wrong("节点名需为 1~64 个可见字符"@))
        },
        r matches Ok(n) ==> n@ == cleaned(name@, 64),
{
    let n = clean_str(name, 64);
    if !valid_short_name(n.as_str()) {
        return Err(AppError::bad("节点名需为 1~64 个可见字符"));
    }
    Ok(n)
}

/// A node as it is stored.
#[derive(Debug)]
pub struct NodeFields {
    pub name: String,
    pub grp: String,
    pub note: String,
    pub traffic_reset_enabled: i64,
    pub traffic_reset_day: i64,
    /// The beginning of the period for which traffic is counted; 0 where it is counted for ever.
    pub traffic_period_start: i64,
}

/// Why a node is not stored, if it is not.
pub open spec fn node_refused(name: Seq<char>, reset: bool, day: i64) -> Option<ErrorView> {
    if !short_name(cleaned(name, 64)) {
        Some(wrong("节点名需为 1~64 个可见字符"@))
    } else if reset && !(1 <= day <= 28) {
        Some(wrong("每月清零日需在 1~28 之间"@))
    } else {
        None
    }
}

/// The beginning of the period for which traffic is counted.
pub open spec fn counted_from(reset: bool, day: i64, now: i64) -> int {
    if reset {
        period_start(now, day)
    } else {
        0
    }
}

/// A node as it is stored.
pub open spec fn fields_of(
    f: NodeFields,
    name: Seq<char>,
    grp: Seq<char>,
    note: Seq<char>,
    reset: bool,
    day: i64,
    now: i64,
) -> bool {
    &&& f.name@ == cleaned(name, 64)
    &&& f.grp@ == cleaned(grp, 32)
    &&& f.note@ == cleaned(note, 200)
    &&& f.traffic_reset_enabled == if reset {
        1i64
    } else {
        0
    }
    &&& f.traffic_reset_day == day
    &&& f.traffic_period_start == counted_from(reset, day, now)
}

fn node_fields(
    name: &str,
    grp: &str,
    note: &str,
    reset: bool,
    day: i64,
    now: i64,
) -> (r: Result<NodeFields, AppError>)
    requires
        reset ==> i64::MIN <= period_start(now, day),
    ensures
        refusal(r) == node_refused(name@, reset, day),
        r matches Ok(f) ==> fields_of(f, name@, grp@, note@, reset, day, now),
{
    let name = match validate_node_name(name) {
        Ok(n) => n,
        Err(e) => {
            return Err(e);
        },
    };
    if reset && !valid_reset_day(day) {
        return Err(AppError::bad("每月清零日需在 1~28 之间"));
    }
    let start: i64 = if reset {
        current_period_start(now, day)
    } else {
        0
    };
    Ok(
        NodeFields {
            name,
            grp: clean_str(grp, 32),
            note: clean_str(note, 200),
            traffic_reset_enabled: if reset {
                1
            } else {
                0
            },
            traffic_reset_day: day,
            traffic_period_start: start,
        },
    )
}

/// A new node as it is stored. The time must be one of which the period can be told.
pub fn create(admin: &SessionAdmin, req: &CreateNodeReq, now: i64) -> (r: Result<NodeFields, AppError>)
    requires
        req.traffic_reset_enabled ==> i64::MIN <= period_start(now, req.traffic_reset_day),
    ensures
        admin@.role@ == "admin"@,
        refusal(r) == node_refused(
            req.name@,
            req.traffic_reset_enabled,
            req.traffic_reset_day,
        ),
        r matches Ok(f) ==> fields_of(
            f,
            req.name@,
            req.grp@,
            ""@,
            req.traffic_reset_enabled,
            req.traffic_reset_day,
            now,
        ),
{
    proof {
        use_type_invariant(admin);
    }
    node_fields(
        req.name.as_str(),
        req.grp.as_str(),
        "",
        req.traffic_reset_enabled,
        req.traffic_reset_day,
        now,
    )
}

/// A node as it is stored after a change. What was counted so far stays: only the beginning of the
/// period is set. The time must be one of which the period can be told.
pub fn rename(admin: &SessionAdmin, req: &RenameReq, now: i64) -> (r: Result<NodeFields, AppError>)
    requires
        req.traffic_reset_enabled ==> i64::MIN <= period_start(now, req.traffic_reset_day),
    ensures
        admin@.role@ == "admin"@,
        refusal(r) == node_refused(
            req.name@,
            req.traffic_reset_enabled,
            req.traffic_reset_day,
        ),
        r matches Ok(f) ==> fields_of(
            f,
            req.name@,
            req.grp@,
            req.note@,
            req.traffic_reset_enabled,
            req.traffic_reset_day,
            now,
        ),
{
    proof {
        use_type_invariant(admin);
    }
    node_fields(
        req.name.as_str(),
        req.grp.as_str(),
        req.note.as_str(),
        req.traffic_reset_enabled,
        req.traffic_reset_day,
        now,
    )
}

/// A change of a stored node: how many rows it met.
pub fn changed_one(rows: u64) -> (r: Result<(), AppError>)
    ensures
        refusal(r) == if rows == 0 {
            Some(ErrorView::NotFound)
        } else {
            None::<ErrorView>
        },
{
    if rows == 0 {
        Err(AppError::NotFound)
    } else {
        Ok(())
    }
}

// ---------------------------------------------------------------------------
// Installation
// ---------------------------------------------------------------------------

/// The certificate of the authority is checked by its fingerprint before anything else is fetched.
pub open spec fn pinned(mode: Seq<char>, fingerprint: Option<Seq<char>>) -> Option<Seq<char>> {
    if mode == "pinned_ca"@ {
        fingerprint
    } else {
        None
    }
}

/// The command that installs an agent.
pub open spec fn install_command(
    public_url: Seq<char>,
    mode: Seq<char>,
    fingerprint: Option<Seq<char>>,
    key: Seq<char>,
) -> Seq<char> {
    let url = strip_end(public_url, '/');
    match pinned(mode, fingerprint) {
        Some(fpr) => "sh -c 'set -eu; U=\""@ + url + "\"; F=\""@ + fpr
            + "\"; D=\"$(mktemp -d)\"; cd \"$D\"; curl -fsSk \"$U/ca.pem\" -o ca.pem; echo \"$F  ca.pem\" | sha256sum -c - >/dev/null; curl -fsS --cacert ca.pem \"$U/install.sh\" -o install.sh; OP_KEY=\""@
            + key + "\" sh install.sh --server \"$U\" --ca \"$D/ca.pem\"'"@,
        None => "sh -c 'set -eu; U=\""@ + url
            + "\"; D=\"$(mktemp -d)\"; cd \"$D\"; curl -fsS \"$U/install.sh\" -o install.sh; OP_KEY=\""@
            + key + "\" sh install.sh --server \"$U\"'"@,
    }
}

/// The command that brings a new version of an agent.
pub open spec fn update_command(
    public_url: Seq<char>,
    mode: Seq<char>,
    fingerprint: Option<Seq<char>>,
) -> Seq<char> {
    let url = strip_end(public_url, '/');
    match pinned(mode, fingerprint) {
        Some(fpr) => "sh -c 'set -eu; U=\""@ + url + "\"; F=\""@ + fpr
            + "\"; D=\"$(mktemp -d)\"; cd \"$D\"; curl -fsSk \"$U/ca.pem\" -o ca.pem; echo \"$F  ca.pem\" | sha256sum -c - >/dev/null; curl -fsS --cacert ca.pem \"$U/upgrade.sh\" -o upgrade.sh; sh upgrade.sh --server \"$U\" --ca \"$D/ca.pem\"'"@,
        None => "sh -c 'set -eu; U=\""@ + url
            + "\"; D=\"$(mktemp -d)\"; cd \"$D\"; curl -fsS \"$U/upgrade.sh\" -o upgrade.sh; sh upgrade.sh --server \"$U\"'"@,
    }
}

/// The view of a fingerprint that may be missing.
pub open spec fn fingerprint_view(o: Option<&String>) -> Option<Seq<char>> {
    match o {
        Some(s) => Some(s@),
        None => None,
    }
}

/// The command that installs an agent with a key for registration.
pub fn render_install_command(
    public_url: &str,
    mode: &str,
    fingerprint: Option<&String>,
    key: &str,
) -> (r: String)
    ensures
        r@ == install_command(public_url@, mode@, fingerprint_view(fingerprint), key@),
{
    let v = chars_of(public_url);
    let url = string_of(drop_trailing(v.as_slice(), '/'));
    let mut s = "sh -c 'set -eu; U=\"".to_string();
    s.append(url.as_str());
    if same(mode, "pinned_ca") {
        if let Some(fpr) = fingerprint {
            s.append("\"; F=\"");
            s.append(fpr.as_str());
            s.append(
                "\"; D=\"$(mktemp -d)\"; cd \"$D\"; curl -fsSk \"$U/ca.pem\" -o ca.pem; echo \"$F  ca.pem\" | sha256sum -c - >/dev/null; curl -fsS --cacert ca.pem \"$U/install.sh\" -o install.sh; OP_KEY=\"",
            );
            s.append(key);
            s.append("\" sh install.sh --server \"$U\" --ca \"$D/ca.pem\"'");
            return s;
        }
    }
    s.append(
        "\"; D=\"$(mktemp -d)\"; cd \"$D\"; curl -fsS \"$U/install.sh\" -o install.sh; OP_KEY=\"",
    );
    s.append(key);
    s.append("\" sh install.sh --server \"$U\"'");
    s
}

/// The command that brings a new version of an agent.
pub fn upgrade_command(public_url: &str, mode: &str, fingerprint: Option<&String>) -> (r: String)
    ensures
        r@ == update_command(public_url@, mode@, fingerprint_view(fingerprint)),
{
    let v = chars_of(public_url);
    let url = string_of(drop_trailing(v.as_slice(), '/'));
    let mut s = "sh -c 'set -eu; U=\"".to_string();
    s.append(url.as_str());
    if same(mode, "pinned_ca") {
        if let Some(fpr) = fingerprint {
            s.append("\"; F=\"");
            s.append(fpr.as_str());
            s.append(
                "\"; D=\"$(mktemp -d)\"; cd \"$D\"; curl -fsSk \"$U/ca.pem\" -o ca.pem; echo \"$F  ca.pem\" | sha256sum -c - >/dev/null; curl -fsS --cacert ca.pem \"$U/upgrade.sh\" -o upgrade.sh; sh upgrade.sh --server \"$U\" --ca \"$D/ca.pem\"'",
            );
            return s;
        }
    }
    s.append(
        "\"; D=\"$(mktemp -d)\"; cd \"$D\"; curl -fsS \"$U/upgrade.sh\" -o upgrade.sh; sh upgrade.sh --server \"$U\"'",
    );
    s
}

/// A key for registration: it is shown once; the server keeps its digest.
#[derive(Debug)]
pub struct RegisterKey {
    pub key: String,
    pub key_hash: String,
    pub expires_at: i64,
}

/// The key for registration that a token is.
pub fn register_key_with(token: String, now: i64) -> (r: RegisterKey)
    ensures
        r.key@ == token@,
        r.key_hash@ == digest_of(token@),
        r.expires_at == nearest_i64(now + REGISTER_KEY_TTL_SECS),
{
    let key_hash = digest(token.as_str());
    RegisterKey { key: token, key_hash, expires_at: sat_add(now, REGISTER_KEY_TTL_SECS) }
}

/// A new key for registration. It fails only where the random source of the system does not answer.
pub fn issue_register_key(now: i64) -> (r: Result<RegisterKey, AppError>)
    ensures
        r matches Ok(k) ==> token_shape(k.key@) && k.key_hash@ == digest_of(k.key@) && k.expires_at
            == nearest_i64(now + REGISTER_KEY_TTL_SECS),
        r matches Err(e) ==> e@ == ErrorView::Internal,
{
    match gen_token_hex() {
        Ok(token) => Ok(register_key_with(token, now)),
        Err(_) => Err(AppError::Internal),
    }
}

// ---------------------------------------------------------------------------
// What is shown
// ---------------------------------------------------------------------------

/// A node counts as connected while its last report is not older than three intervals, and not older
/// than ten seconds where they are short.
pub open spec fn online(last_seen: Option<i64>, interval: i64, now: i64) -> bool {
    last_seen is Some && nearest_i64(now - last_seen->0) <= larger(nearest_i64(3 * interval), 10)
}

/// Whether a node counts as connected.
pub fn is_online(last_seen: Option<i64>, interval: i64, now: i64) -> (r: bool)
    ensures
        r == online(last_seen, interval, now),
{
    match last_seen {
        Some(ls) => {
            let triple: i64 = sat_mul(3, interval);
            sat_sub(now, ls) <= max_i64(triple, 10)
        },
        None => false,
    }
}

/// What is stored of a node, as far as more than the row itself is shown of it.
#[derive(Debug, Clone, Copy, PartialEq, Eq, Structural)]
pub struct NodeRow {
    pub id: i64,
    pub last_seen: Option<i64>,
    pub revoked: i64,
    pub has_token: bool,
    pub traffic_reset_enabled: i64,
}

/// What is shown of a node beside its row.
#[derive(Debug, Clone, Copy, PartialEq, Eq, Structural)]
pub struct NodeSummary {
    pub online: bool,
    pub alerting: bool,
    pub revoked: bool,
    pub registered: bool,
    pub traffic_reset_enabled: bool,
    /// The position of its latest report.
    pub latest: Option<usize>,
}

/// The position of the last report of a node.
pub open spec fn last_report(nodes: Seq<i64>, id: i64) -> Option<usize>
    decreases nodes.len(),
{
    if nodes.len() == 0 {
        None
    } else if nodes.last() == id {
        Some((nodes.len() - 1) as usize)
    } else {
        last_report(nodes.drop_last(), id)
    }
}

/// What is shown of a node.
pub open spec fn summary_of(
    r: NodeRow,
    firing: Seq<i64>,
    latest: Seq<i64>,
    interval: i64,
    now: i64,
) -> NodeSummary {
    NodeSummary {
        online: online(r.last_seen, interval, now),
        alerting: firing.contains(r.id),
        revoked: r.revoked != 0,
        registered: r.has_token,
        traffic_reset_enabled: r.traffic_reset_enabled != 0,
        latest: last_report(latest, r.id),
    }
}

fn is_listed(ids: &[i64], id: i64) -> (r: bool)
    ensures
        r == ids@.contains(id),
{
    let mut i: usize = 0;
    while i < ids.len()
        invariant
            i <= ids@.len(),
            forall|j: int| 0 <= j < i ==> ids@[j] != id,
        decreases ids@.len() - i,
    {
        if ids[i] == id {
            return true;
        }
        i = i + 1;
    }
    false
}

fn find_last(ids: &[i64], id: i64) -> (r: Option<usize>)
    ensures
        r == last_report(ids@, id),
{
    let mut i: usize = ids.len();
    assert(ids@.take(i as int) =~= ids@);
    while i > 0
        invariant
            i <= ids@.len(),
            last_report(ids@, id) == last_report(ids@.take(i as int), id),
        decreases i,
    {
        assert(ids@.take(i as int).drop_last() =~= ids@.take(i - 1));
        if ids[i - 1] == id {
            return Some(i - 1);
        }
        i = i - 1;
    }
    None
}

/// What is shown of the nodes. `firing` are the nodes with an alert that lasts, `latest` the nodes of
/// the latest reports.
pub fn node_summary(
    rows: &[NodeRow],
    firing: &[i64],
    latest: &[i64],
    interval: i64,
    now: i64,
) -> (r: Vec<NodeSummary>)
    ensures
        r@ == rows@.map_values(
            |row: NodeRow| summary_of(row, firing@, latest@, interval, now),
        ),
{
    let mut out: Vec<NodeSummary> = Vec::new();
    let mut i: usize = 0;
    while i < rows.len()
        invariant
            i <= rows@.len(),
            out@ == rows@.take(i as int).map_values(
                |row: NodeRow| summary_of(row, firing@, latest@, interval, now),
            ),
        decreases rows@.len() - i,
    {
        let row = rows[i];
        let s = NodeSummary {
            online: is_online(row.last_seen, interval, now),
            alerting: is_listed(firing, row.id),
            revoked: row.revoked != 0,
            registered: row.has_token,
            traffic_reset_enabled: row.traffic_reset_enabled != 0,
            latest: find_last(latest, row.id),
        };
        out.push(s);
        i = i + 1;
        assert(out@ =~= rows@.take(i as int).map_values(
            |row: NodeRow| summary_of(row, firing@, latest@, interval, now),
        ));
    }
    assert(rows@.take(i as int) =~= rows@);
    out
}

/// How a history is cut: from when on, in steps of how many seconds, and whether from the hourly
/// figures, whose finest step is an hour.
#[derive(Debug, Clone, Copy, PartialEq, Eq, Structural)]
pub struct HistoryPlan {
    pub since: i64,
    pub step: i64,
    pub hourly: bool,
    /// The step of the query.
    pub bucket: i64,
}

/// How a history of so many seconds is cut into about `points` pieces: between five minutes and 366
/// days, and from the hourly figures where it goes back more than two days.
pub open spec fn history_cut(secs: i64, points: int, now: i64) -> HistoryPlan {
    let s = clamped_i64(secs, 300, 31_622_400);
    let step = larger((s as int / points) as i64, 1);
    HistoryPlan {
        since: nearest_i64(now - s),
        step,
        hourly: s > 172_800,
        bucket: if s > 172_800 {
            larger(step, 3600)
        } else {
            step
        },
    }
}

fn cut_history(secs: i64, points: i64, now: i64) -> (r: HistoryPlan)
    requires
        points > 0,
    ensures
        r == history_cut(secs, points as int, now),
{
    let s: i64 = clamp_i64(secs, 300, 31_622_400);
    let step: i64 = max_i64(s / points, 1);
    let hourly = s > 172_800;
    HistoryPlan {
        since: sat_sub(now, s),
        step,
        hourly,
        bucket: if hourly {
            max_i64(step, 3600)
        } else {
            step
        },
    }
}

/// How the history of a node is cut.
pub fn history(q: &HistoryQuery, now: i64) -> (r: HistoryPlan)
    ensures
        r == history_cut(q.secs, 360, now),
{
    cut_history(q.secs, 360, now)
}

/// How the common history of all nodes is cut.
pub fn overview_trend(q: &HistoryQuery, now: i64) -> (r: HistoryPlan)
    ensures
        r == history_cut(q.secs, 240, now),
{
    cut_history(q.secs, 240, now)
}

/// Whatever is asked for, a history has no more pieces than twice as many as it is meant to have, and
/// its steps are not empty.
pub proof fn lemma_history_bounded(secs: i64, points: int, now: i64)
    requires
        0 < points <= 360,
    ensures
        history_cut(secs, points, now).step >= 1,
        history_cut(secs, points, now).bucket >= history_cut(secs, points, now).step,
        history_cut(secs, points, now).hourly ==> history_cut(secs, points, now).bucket >= 3600,
        clamped_i64(secs, 300, 31_622_400) < 2 * points * history_cut(secs, points, now).bucket,
{
    let s = clamped_i64(secs, 300, 31_622_400) as int;
    let q = s / points;
    let h = history_cut(secs, points, now);
    vstd::arithmetic::div_mod::lemma_fundamental_div_mod(s, points);
    assert(0 <= q <= s) by (nonlinear_arith)
        requires
            q == s / points,
            points > 0,
            s >= 0,
    ;
    assert(s < points * (q + 1)) by (nonlinear_arith)
        requires
            s == points * q + s % points,
            0 <= s % points < points,
    ;
    assert(points * (q + 1) <= 2 * points * h.step) by (nonlinear_arith)
        requires
            q + 1 <= 2 * h.step,
            points > 0,
    ;
    assert(2 * points * h.step <= 2 * points * h.bucket) by (nonlinear_arith)
        requires
            h.step <= h.bucket,
            points > 0,
    ;
}

// ---------------------------------------------------------------------------
// Many nodes at once
// ---------------------------------------------------------------------------

/// What is done to many nodes.
#[derive(Debug)]
pub enum BatchAction {
    Delete,
    Revoke,
    SetGroup { grp: String },
    Upgrade,
}

/// Why nothing is done to many nodes, if nothing is.
pub open spec fn batch_refused(action: Seq<char>, n: int) -> Option<ErrorView> {
    if n == 0 || n > 100 {
        Some(wrong("批量操作数量需为 1~100"@))
    } else if action != "delete"@ && action != "revoke"@ && action != "set_group"@ && action
        != "upgrade"@ {
        Some(wrong("不支持的批量操作"@))
    } else {
        None
    }
}

/// What is done to many nodes.
pub fn batch(admin: &SessionAdmin, req: &BatchReq) -> (r: Result<BatchAction, AppError>)
    ensures
        admin@.role@ == "admin"@,
        refusal(r) == batch_refused(req.action@, req.ids@.len() as int),
        r matches Ok(a) ==> match a {
            BatchAction::Delete => req.action@ == "delete"@,
            BatchAction::Revoke => req.action@ == "revoke"@,
            BatchAction::SetGroup { grp } => req.action@ == "set_group"@ && grp@ == cleaned(
                req.grp@,
                32,
            ),
            BatchAction::Upgrade => req.action@ == "upgrade"@,
        },
{
    proof {
        use_type_invariant(admin);
    }
    if req.ids.len() == 0 || req.ids.len() > 100 {
        return Err(AppError::bad("批量操作数量需为 1~100"));
    }
    if same(req.action.as_str(), "delete") {
        Ok(BatchAction::Delete)
    } else if same(req.action.as_str(), "revoke") {
        Ok(BatchAction::Revoke)
    } else if same(req.action.as_str(), "set_group") {
        Ok(BatchAction::SetGroup { grp: clean_str(req.grp.as_str(), 32) })
    } else if same(req.action.as_str(), "upgrade") {
        Ok(BatchAction::Upgrade)
    } else {
        Err(AppError::bad("不支持的批量操作"))
    }
}

/// How many of some changes met exactly one row.
pub open spec fn met_one(rows: Seq<u64>) -> nat
    decreases rows.len(),
{
    if rows.len() == 0 {
        0
    } else {
        met_one(rows.drop_last()) + if rows.last() == 1 {
            1nat
        } else {
            0
        }
    }
}

/// How many of some changes met exactly one row.
pub fn affected(rows: &[u64]) -> (r: u64)
    ensures
        r == met_one(rows@),
{
    let mut n: u64 = 0;
    let mut i: usize = 0;
    let len: usize = rows.len();
    assert(rows@.take(0) =~= Seq::empty());
    while i < len
        invariant
            len == rows@.len(),
            i <= len,
            n == met_one(rows@.take(i as int)),
            n <= i,
        decreases len - i,
    {
        assert(rows@.take(i + 1).drop_last() =~= rows@.take(i as int));
        if rows[i] == 1 {
            n = n + 1;
        }
        i = i + 1;
    }
    assert(rows@.take(i as int) =~= rows@);
    n
}

/// The agents that could not be told to replace themselves, in their order.
pub open spec fn untold(ids: Seq<i64>, told: Seq<bool>) -> Seq<i64>
    decreases ids.len(),
{
    if ids.len() == 0 {
        Seq::empty()
    } else {
        let u = untold(ids.drop_last(), told.drop_last());
        if told.last() {
            u
        } else {
            u.push(ids.last())
        }
    }
}

/// Who is remembered to be told later.
pub open spec fn remembered_untold(m: Map<i64, i64>, queue: Seq<i64>, now: i64) -> Map<i64, i64>
    decreases queue.len(),
{
    if queue.len() == 0 {
        m
    } else {
        pending(remembered_untold(m, queue.drop_last(), now), now).insert(
            queue.last(),
            nearest_i64(now + UPGRADE_RESEND_SECS),
        )
    }
}

/// Agents are told to replace themselves: `told` says which of them had a connection. Gives how many
/// were told, and the others, who are told when they come back soon.
pub fn batch_upgrade(
    ids: &[i64],
    told: &[bool],
    waiting: &mut PendingUpgrades,
    now: i64,
) -> (r: (u64, Vec<i64>))
    requires
        ids@.len() == told@.len(),
        old(waiting).wf(),
    ensures
        final(waiting).wf(),
        r.1@ == untold(ids@, told@),
        r.0 + r.1@.len() == ids@.len(),
        final(waiting)@ == remembered_untold(old(waiting)@, r.1@, now),
{
    let mut n: u64 = 0;
    let mut queue: Vec<i64> = Vec::new();
    let mut i: usize = 0;
    let len: usize = ids.len();
    let ghost m = waiting@;
    assert(ids@.take(0) =~= Seq::empty());
    while i < len
        invariant
            len == ids@.len(),
            len == told@.len(),
            i <= len,
            waiting.wf(),
            queue@ == untold(ids@.take(i as int), told@.take(i as int)),
            n + queue@.len() == i,
            waiting@ == remembered_untold(m, queue@, now),
        decreases len - i,
    {
        assert(ids@.take(i + 1).drop_last() =~= ids@.take(i as int));
        assert(told@.take(i + 1).drop_last() =~= told@.take(i as int));
        if told[i] {
            n = n + 1;
        } else {
            let ghost q = queue@;
            waiting.remember(ids[i], now);
            queue.push(ids[i]);
            assert(queue@.drop_last() =~= q);
        }
        i = i + 1;
    }
    assert(ids@.take(i as int) =~= ids@);
    assert(told@.take(i as int) =~= told@);
    (n, queue)
}

/// The record of what was done to many nodes.
pub open spec fn batch_text(action: Seq<char>, n: nat, affected: nat, queued: Option<nat>) -> Seq<
    char,
> {
    action + " x"@ + decimal(n) + " affected="@ + decimal(affected) + match queued {
        Some(q) => " queued="@ + decimal(q),
        None => Seq::empty(),
    }
}

/// The record of what was done to many nodes.
pub fn batch_detail(action: &str, n: usize, affected: u64, queued: Option<usize>) -> (r: String)
    ensures
        r@ == batch_text(
            action@,
            n as nat,
            affected as nat,
            match queued {
                Some(q) => Some(q as nat),
                None => None,
            },
        ),
{
    let mut s = action.to_string();
    s.append(" x");
    s.append(show_u64(n as u64).as_str());
    s.append(" affected=");
    s.append(show_u64(affected).as_str());
    match queued {
        Some(q) => {
            s.append(" queued=");
            s.append(show_u64(q as u64).as_str());
            assert(s@ =~= action@ + " x"@ + decimal(n as nat) + " affected="@ + decimal(
                affected as nat,
            ) + (" queued="@ + decimal(q as nat)));
        },
        None => {
            assert(s@ =~= s@ + Seq::<char>::empty());
        },
    }
    s
}

/// The places of the nodes in a new order: each node with its place.
pub fn reorder(admin: &SessionAdmin, req: &ReorderReq) -> (r: Result<Vec<(i64, i64)>, AppError>)
    ensures
        admin@.role@ == "admin"@,
        refusal(r) == if 1 <= req.ids@.len() <= 500 {
            None::<ErrorView>
        } else {
            Some(wrong("排序数量需为 1~500"@))
        },
        r matches Ok(v) ==> v@ == Seq::new(req.ids@.len(), |i: int| (req.ids@[i], i as i64)),
{
    proof {
        use_type_invariant(admin);
    }
    if req.ids.len() == 0 || req.ids.len() > 500 {
        return Err(AppError::bad("排序数量需为 1~500"));
    }
    let mut out: Vec<(i64, i64)> = Vec::new();
    let mut i: usize = 0;
    while i < req.ids.len()
        invariant
            req.ids@.len() <= 500,
            i <= req.ids@.len(),
            out@ == Seq::new(i as nat, |j: int| (req.ids@[j], j as i64)),
        decreases req.ids@.len() - i,
    {
        out.push((req.ids[i], i as i64));
        i = i + 1;
        assert(out@ =~= Seq::new(i as nat, |j: int| (req.ids@[j], j as i64)));
    }
    Ok(out)
}

} // verus!
