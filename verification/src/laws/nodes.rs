//! Nodes: what is shown of them, what is done to many, and what their agents may send.

use crate::laws::dataout::{lemma_add_line, one_line, whole};
use crate::laws::notify::lemma_in_between;
use crate::laws::sampling::lemma_words_come_back;
use crate::num::{decimal};
use crate::server::errors::{status_code, ErrorView};
use crate::server::handlers::agent_api::{
    key_counts, manifest_line, manifest_text, named, KeyRow,
};
use crate::server::handlers::nodes::{
    batch_refused, batch_text, counted_from, history_cut, install_command, last_report, met_one,
    node_refused, online, remembered_untold, summary_of, untold, NodeRow,
    REGISTER_KEY_TTL_SECS,
};
use crate::server::handlers::pages::{asset_type, page_answer, Page};
use crate::server::handlers::settings::status_address;
use crate::server::handlers::ws_agent::{
    available, conn_answer, paid, points_weight, Budget, ConnAction, ConnEvent,
};
use crate::server::handlers::ws_ui::{channel_refused, ui_action, UiAction, UiEvent};
use crate::server::state::{pending, Artifact};
use crate::text::{
    contains, ends_with, is_space, is_word, joined, lines, pieces, starts_with, strip_end, words,
};
use crate::server::handlers::nodes::update_command;
use crate::server::handlers::ws_agent::sent_cost;
use vstd::prelude::*;
use vstd::string::*;

verus! {

// ---------------------------------------------------------------------------
// What is shown
// ---------------------------------------------------------------------------

/// A node is connected where it was seen within three intervals, or within ten seconds where that is
/// more; one that was never seen is not.
pub proof fn lemma_connected(seen: i64, interval: i64, now: i64)
    requires
        0 <= seen <= now,
        0 <= interval <= 1_000_000,
    ensures
        online(Some(seen), interval, now) <==> now - seen <= 3 * interval || now - seen <= 10,
        !online(None, interval, now),
{
}

/// The latest report of a node is the last that is its own.
pub proof fn lemma_latest_report(nodes: Seq<i64>, id: i64, k: int)
    requires
        nodes.len() <= usize::MAX,
    ensures
        last_report(nodes, id) is None <==> !nodes.contains(id),
        0 <= k < nodes.len() && nodes[k] == id && (forall|i: int|
            k < i < nodes.len() ==> #[trigger] nodes[i] != id) ==> last_report(nodes, id) == Some(
            k as usize,
        ),
    decreases nodes.len(),
{
    if nodes.len() > 0 {
        let t = nodes.drop_last();
        lemma_latest_report(t, id, k);
        if nodes.last() == id {
            assert(nodes[nodes.len() - 1] == id);
        } else {
            if nodes.contains(id) {
                let i = choose|i: int| 0 <= i < nodes.len() && nodes[i] == id;
                assert(t[i] == id);
            }
            if t.contains(id) {
                let i = choose|i: int| 0 <= i < t.len() && t[i] == id;
                assert(nodes[i] == id);
            }
            if 0 <= k && forall|i: int| k < i < nodes.len() ==> #[trigger] nodes[i] != id {
                assert forall|i: int| k < i < t.len() implies #[trigger] t[i] != id by {
                    assert(t[i] == nodes[i]);
                }
            }
        }
    }
}

/// Beside a node is shown whether it is connected, whether a rule is broken on it, whether it was revoked
/// and whether it ever registered, each from its own source.
pub proof fn lemma_summary(
    r: NodeRow,
    firing: Seq<i64>,
    latest: Seq<i64>,
    interval: i64,
    now: i64,
)
    ensures
        ({
            let s = summary_of(r, firing, latest, interval, now);
            &&& s.online <==> online(r.last_seen, interval, now)
            &&& s.alerting <==> firing.contains(r.id)
            &&& s.revoked <==> r.revoked != 0
            &&& s.registered <==> r.has_token
            &&& s.traffic_reset_enabled <==> r.traffic_reset_enabled != 0
            &&& s.latest is Some <==> latest.contains(r.id)
        }),
{
    lemma_latest_is_some(latest, r.id);
}

proof fn lemma_latest_is_some(nodes: Seq<i64>, id: i64)
    ensures
        last_report(nodes, id) is Some <==> nodes.contains(id),
    decreases nodes.len(),
{
    if nodes.len() > 0 {
        let t = nodes.drop_last();
        lemma_latest_is_some(t, id);
        if nodes.last() == id {
            assert(nodes[nodes.len() - 1] == id);
        } else {
            if nodes.contains(id) {
                let i = choose|i: int| 0 <= i < nodes.len() && nodes[i] == id;
                assert(t[i] == id);
            }
            if t.contains(id) {
                let i = choose|i: int| 0 <= i < t.len() && t[i] == id;
                assert(nodes[i] == id);
            }
        }
    }
}

/// A history goes back as far as was asked for, between five minutes and a year, in steps of which there
/// are as many as points; beyond two days the hours that were put together are taken.
pub proof fn lemma_history(secs: i64, points: int, now: i64)
    requires
        300 <= secs <= 366 * 86_400,
        0 < points <= 300,
        0 <= now,
    ensures
        ({
            let h = history_cut(secs, points, now);
            &&& h.since + secs == now
            &&& h.step == secs as int / points
            &&& h.hourly <==> secs > 2 * 86_400
            &&& !h.hourly ==> h.bucket == h.step
            &&& h.hourly && h.step >= 3600 ==> h.bucket == h.step
            &&& h.hourly && h.step < 3600 ==> h.bucket == 3600
        }),
{
    assert(1 <= secs as int / points <= secs) by (nonlinear_arith)
        requires
            300 <= secs,
            0 < points <= 300,
    ;
}

/// A node is refused only for its name or the day on which it is to start over, and without starting over
/// nothing is counted from any day.
pub proof fn lemma_new_node(name: Seq<char>, reset: bool, day: i64, now: i64)
    ensures
        node_refused(name, reset, day) is None <==> crate::common::short_name(
            crate::common::cleaned(name, 64),
        ) && (reset ==> 1 <= day <= 28),
        !reset ==> counted_from(reset, day, now) == 0,
        reset ==> counted_from(reset, day, now) == crate::server::traffic::period_start(now, day),
        REGISTER_KEY_TTL_SECS == 30 * 60,
{
}

// ---------------------------------------------------------------------------
// Commands
// ---------------------------------------------------------------------------

/// The command that installs an agent names the server, without a slash at its end, and the key, and where
/// the server's certificate is pinned its fingerprint.
#[verifier::rlimit(40)]
pub proof fn lemma_install_command(
    url: Seq<char>,
    mode: Seq<char>,
    fingerprint: Option<Seq<char>>,
    key: Seq<char>,
)
    ensures
        ({
            let c = install_command(url, mode, fingerprint, key);
            &&& contains(c, "U=\""@ + strip_end(url, '/') + "\";"@)
            &&& contains(c, "OP_KEY=\""@ + key + "\" sh install.sh --server \"$U\""@)
            &&& mode == "pinned_ca"@ ==> (fingerprint matches Some(f) ==> contains(
                c,
                " F=\""@ + f + "\";"@,
            ))
        }),
{
    let u = strip_end(url, '/');
    let c = install_command(url, mode, fingerprint, key);
    reveal_strlit("sh -c 'set -eu; U=\"");
    reveal_strlit("sh -c 'set -eu; ");
    reveal_strlit("U=\"");
    reveal_strlit("\";");
    reveal_strlit("OP_KEY=\"");
    assert("sh -c 'set -eu; U=\""@ =~= "sh -c 'set -eu; "@ + "U=\""@);
    let h = "sh -c 'set -eu; "@;
    match crate::server::handlers::nodes::pinned(mode, fingerprint) {
        Some(f) => {
            reveal_strlit("\"; F=\"");
            reveal_strlit(" F=\"");
            reveal_strlit(
                "\"; D=\"$(mktemp -d)\"; cd \"$D\"; curl -fsSk \"$U/ca.pem\" -o ca.pem; echo \"$F  ca.pem\" | sha256sum -c - >/dev/null; curl -fsS --cacert ca.pem \"$U/install.sh\" -o install.sh; OP_KEY=\"",
            );
            reveal_strlit(
                " D=\"$(mktemp -d)\"; cd \"$D\"; curl -fsSk \"$U/ca.pem\" -o ca.pem; echo \"$F  ca.pem\" | sha256sum -c - >/dev/null; curl -fsS --cacert ca.pem \"$U/install.sh\" -o install.sh; ",
            );
            reveal_strlit("\" sh install.sh --server \"$U\" --ca \"$D/ca.pem\"'");
            reveal_strlit("\" sh install.sh --server \"$U\"");
            reveal_strlit(" --ca \"$D/ca.pem\"'");
            let m =
                " D=\"$(mktemp -d)\"; cd \"$D\"; curl -fsSk \"$U/ca.pem\" -o ca.pem; echo \"$F  ca.pem\" | sha256sum -c - >/dev/null; curl -fsS --cacert ca.pem \"$U/install.sh\" -o install.sh; "@;
            let e = " --ca \"$D/ca.pem\"'"@;
            let g = " F=\""@ + f + "\";"@;
            let k = "OP_KEY=\""@ + key + "\" sh install.sh --server \"$U\""@;
            let n = "U=\""@ + u + "\";"@;
            assert(c =~= h + n + g + m + k + e);
            lemma_in_between(h, n, g + m + k + e);
            assert(h + n + (g + m + k + e) =~= c);
            lemma_in_between(h + n, g, m + k + e);
            assert(h + n + g + (m + k + e) =~= c);
            lemma_in_between(h + n + g + m, k, e);
        },
        None => {
            reveal_strlit(
                "\"; D=\"$(mktemp -d)\"; cd \"$D\"; curl -fsS \"$U/install.sh\" -o install.sh; OP_KEY=\"",
            );
            reveal_strlit(
                " D=\"$(mktemp -d)\"; cd \"$D\"; curl -fsS \"$U/install.sh\" -o install.sh; ",
            );
            reveal_strlit("\" sh install.sh --server \"$U\"'");
            reveal_strlit("\" sh install.sh --server \"$U\"");
            reveal_strlit("'");
            let m =
                " D=\"$(mktemp -d)\"; cd \"$D\"; curl -fsS \"$U/install.sh\" -o install.sh; "@;
            let e = "'"@;
            let k = "OP_KEY=\""@ + key + "\" sh install.sh --server \"$U\""@;
            let n = "U=\""@ + u + "\";"@;
            assert(c =~= h + n + m + k + e);
            lemma_in_between(h, n, m + k + e);
            assert(h + n + (m + k + e) =~= c);
            lemma_in_between(h + n + m, k, e);
        },
    }
}

/// The programs on offer are listed one to a line: the kind of machine, the digest, and where it is found.
pub proof fn lemma_programs_on_offer(v: Seq<Artifact>, i: int)
    requires
        0 <= i < v.len(),
        forall|j: int|
            0 <= j < v.len() ==> is_word((#[trigger] v[j]).target@) && is_word(v[j].sha256@)
                && is_word(v[j].filename@),
    ensures
        lines(manifest_text(v)).len() == v.len(),
        words(lines(manifest_text(v))[i]) == seq![
            v[i].target@,
            v[i].sha256@,
            "/download/"@ + v[i].filename@,
        ],
        whole(manifest_text(v)),
    decreases v.len(),
{
    lemma_manifest(v);
    lemma_manifest_words(v[i]);
}

spec fn manifest_words(a: Artifact) -> Seq<Seq<char>> {
    seq![a.target@, a.sha256@, "/download/"@ + a.filename@]
}

proof fn lemma_manifest_words(a: Artifact)
    requires
        is_word(a.target@),
        is_word(a.sha256@),
        is_word(a.filename@),
    ensures
        manifest_line(a) == joined(manifest_words(a), ' ').push('\n'),
        words(joined(manifest_words(a), ' ')) == manifest_words(a),
        one_line(joined(manifest_words(a), ' ')),
{
    reveal_strlit("/download/");
    reveal_strlit(" ");
    reveal_strlit(" /download/");
    reveal_strlit("\n");
    let w = manifest_words(a);
    let f = "/download/"@ + a.filename@;
    assert(is_word(f)) by {
        assert forall|j: int| 0 <= j < f.len() implies !is_space(#[trigger] f[j]) by {
            if j >= 10 {
                assert(f[j] == a.filename@[j - 10]);
            }
        }
    }
    assert forall|j: int| 0 <= j < w.len() implies is_word(#[trigger] w[j]) by {}
    lemma_words_come_back(w);
    reveal_with_fuel(joined, 4);
    let j = joined(w, ' ');
    assert(w.drop_last() =~= seq![a.target@, a.sha256@]);
    assert(w.drop_last().drop_last() =~= seq![a.target@]);
    assert(j =~= a.target@.push(' ') + a.sha256@.push(' ') + f);
    assert(manifest_line(a) =~= j.push('\n'));
    assert forall|i: int| 0 <= i < j.len() implies #[trigger] j[i] != '\n' && j[i] != '\r' by {
        let (t, s) = (a.target@, a.sha256@);
        if i < t.len() {
            assert(j[i] == t[i]);
            assert(!is_space(t[i]));
        } else if t.len() < i < t.len() + 1 + s.len() {
            assert(j[i] == s[i - t.len() - 1]);
            assert(!is_space(s[i - t.len() - 1]));
        } else if i > t.len() + 1 + s.len() {
            assert(j[i] == f[i - t.len() - s.len() - 2]);
            assert(!is_space(f[i - t.len() - s.len() - 2]));
        }
        assert(is_space('\n') && is_space('\r'));
    }
}

proof fn lemma_manifest(v: Seq<Artifact>)
    requires
        forall|j: int|
            0 <= j < v.len() ==> is_word((#[trigger] v[j]).target@) && is_word(v[j].sha256@)
                && is_word(v[j].filename@),
    ensures
        whole(manifest_text(v)),
        lines(manifest_text(v)).len() == v.len(),
        forall|j: int|
            0 <= j < v.len() ==> #[trigger] lines(manifest_text(v))[j] == joined(
                manifest_words(v[j]),
                ' ',
            ),
    decreases v.len(),
{
    let s = manifest_text(v);
    if v.len() == 0 {
        assert(pieces(s, '\n').len() == 1);
        assert(lines(s) =~= Seq::empty());
    } else {
        let t = v.drop_last();
        assert forall|j: int| 0 <= j < t.len() implies is_word((#[trigger] t[j]).target@) && is_word(
            t[j].sha256@,
        ) && is_word(t[j].filename@) by {
            assert(t[j] == v[j]);
        }
        lemma_manifest(t);
        let a = v[v.len() - 1];
        lemma_manifest_words(a);
        lemma_add_line(manifest_text(t), joined(manifest_words(a), ' '));
        let ls = lines(s);
        assert(ls == lines(manifest_text(t)).push(joined(manifest_words(a), ' ')));
        assert forall|j: int| 0 <= j < v.len() implies #[trigger] ls[j] == joined(
            manifest_words(v[j]),
            ' ',
        ) by {
            if j < t.len() {
                assert(ls[j] == lines(manifest_text(t))[j]);
                assert(t[j] == v[j]);
            }
        }
    }
}

/// A program is found under its file name, the first of that name.
pub proof fn lemma_program_by_name(v: Seq<Artifact>, name: Seq<char>, k: int)
    requires
        0 <= k < v.len(),
        v[k].filename@ == name,
        forall|i: int| 0 <= i < k ==> (#[trigger] v[i]).filename@ != name,
    ensures
        named(v, name) == k,
    decreases k,
{
    if k > 0 {
        assert(v[0].filename@ != name);
        let t = v.drop_first();
        assert forall|i: int| 0 <= i < k - 1 implies (#[trigger] t[i]).filename@ != name by {
            assert(t[i] == v[i + 1]);
        }
        lemma_program_by_name(t, name, k - 1);
    }
}

/// A key for registration counts until it is used and as long as it has not expired, to the second.
pub proof fn lemma_key_counts_until(k: KeyRow, at: i64)
    requires
        k.used_at is None,
    ensures
        key_counts(k, k.key_hash@, at) <==> at <= k.expires_at,
        forall|d: Seq<char>| d != k.key_hash@ ==> !#[trigger] key_counts(k, d, at),
{
}

// ---------------------------------------------------------------------------
// Many at once
// ---------------------------------------------------------------------------

/// From one to a hundred nodes may be deleted, revoked, grouped or upgraded at once.
pub proof fn lemma_batch(action: Seq<char>, n: int)
    ensures
        batch_refused(action, n) is None <==> n != 0 && n <= 100 && (action == "delete"@ || action
            == "revoke"@ || action == "set_group"@ || action == "upgrade"@),
        batch_refused(action, n) matches Some(e) ==> status_code(e) == 400,
{
}

/// What is counted are the changes that met a node.
pub proof fn lemma_nodes_met(rows: Seq<u64>)
    ensures
        met_one(rows) == rows.filter(|r: u64| r == 1).len(),
    decreases rows.len(),
{
    reveal(Seq::filter);
    if rows.len() > 0 {
        lemma_nodes_met(rows.drop_last());
    }
}

/// Those that could not be told are exactly those to tell later, in their order.
pub proof fn lemma_untold(ids: Seq<i64>, told: Seq<bool>, id: i64)
    requires
        ids.len() == told.len(),
    ensures
        untold(ids, told).contains(id) <==> exists|i: int|
            0 <= i < ids.len() && #[trigger] ids[i] == id && !told[i],
        untold(ids, told).len() == told.filter(|t: bool| !t).len(),
    decreases ids.len(),
{
    reveal(Seq::filter);
    if ids.len() > 0 {
        let (a, b) = (ids.drop_last(), told.drop_last());
        lemma_untold(a, b, id);
        let (u, v) = (untold(a, b), untold(ids, told));
        if v.contains(id) {
            let k = choose|k: int| 0 <= k < v.len() && v[k] == id;
            if k < u.len() {
                assert(u[k] == id);
                assert(u.contains(id));
                let i = choose|i: int| 0 <= i < a.len() && #[trigger] a[i] == id && !b[i];
                assert(ids[i] == id && !told[i]);
            } else {
                assert(ids[ids.len() - 1] == id && !told[ids.len() - 1]);
            }
        }
        if exists|i: int| 0 <= i < ids.len() && #[trigger] ids[i] == id && !told[i] {
            let i = choose|i: int| 0 <= i < ids.len() && #[trigger] ids[i] == id && !told[i];
            if i < a.len() {
                assert(a[i] == id && !b[i]);
                assert(u.contains(id));
                let k = choose|k: int| 0 <= k < u.len() && u[k] == id;
                assert(v[k] == id);
            } else {
                assert(v[u.len() as int] == id);
            }
        }
    }
}

/// Each of those is remembered for half a minute.
pub proof fn lemma_told_later(m: Map<i64, i64>, queue: Seq<i64>, now: i64, id: i64)
    requires
        0 <= now < i64::MAX - 30,
        queue.contains(id),
    ensures
        remembered_untold(m, queue, now).contains_key(id),
        remembered_untold(m, queue, now)[id] == now + 30,
        pending(remembered_untold(m, queue, now), (now + 29) as i64).contains_key(id),
        !pending(remembered_untold(m, queue, now), (now + 30) as i64).contains_key(id),
    decreases queue.len(),
{
    let t = queue.drop_last();
    if queue.last() != id {
        let i = choose|i: int| 0 <= i < queue.len() && queue[i] == id;
        assert(t[i] == id);
        lemma_told_later(m, t, now, id);
    }
}

/// What is noted of a batch names what was done, to how many, and how many it met.
pub proof fn lemma_batch_note(action: Seq<char>, n: nat, met: nat, queued: nat)
    ensures
        starts_with(batch_text(action, n, met, None), action + " x"@ + decimal(n)),
        ends_with(batch_text(action, n, met, None), " affected="@ + decimal(met)),
        ends_with(batch_text(action, n, met, Some(queued)), " queued="@ + decimal(queued)),
{
    let (s, t) = (batch_text(action, n, met, None), batch_text(action, n, met, Some(queued)));
    let a = action + " x"@ + decimal(n);
    assert(s.take(a.len() as int) =~= a);
    let b = " affected="@ + decimal(met);
    assert(s.skip(s.len() - b.len()) =~= b);
    let c = " queued="@ + decimal(queued);
    assert(t.skip(t.len() - c.len()) =~= c);
}

// ---------------------------------------------------------------------------
// What agents may send
// ---------------------------------------------------------------------------

/// An agent may send a hundred and twenty messages at once and eight more each second.
pub proof fn lemma_messages(b: Budget, cost: nat, now: u64)
    requires
        b.tokens <= 120 * 1_000_000_000,
        b.last <= now,
    ensures
        b.tokens + 8 * (now - b.last) <= 120_000_000_000 ==> available(b, now) == b.tokens + 8 * (now
            - b.last),
        b.tokens + 8 * (now - b.last) > 120_000_000_000 ==> available(b, now) == 120_000_000_000,
        paid(b, cost as int, now).1 <==> available(b, now) >= cost * 1_000_000_000,
        paid(b, cost as int, now).1 ==> paid(b, cost as int, now).0.tokens + cost * 1_000_000_000
            == available(b, now),
        !paid(b, cost as int, now).1 ==> paid(b, cost as int, now).0.tokens == available(b, now),
        paid(b, cost as int, now).0.last == now,
{
}

/// Ten old reports cost as much as one message, and a part of ten as much as ten.
pub proof fn lemma_cost_of_old_reports(n: int)
    requires
        n >= 0,
    ensures
        points_weight(n) >= 1,
        10 * points_weight(n) >= n,
        n > 0 ==> 10 * (points_weight(n) - 1) < n,
{
}

/// An agent that says nothing for two minutes is disconnected, and one that is asked stays until then. Its
/// messages are handled as long as it may send them.
pub proof fn lemma_connection(silent: u64, cost: usize, secs: u32, b: Budget, now: u64, r: ConnAction)
    ensures
        conn_answer(ConnEvent::Tick { silent }, b, now, r) ==> (r is Disconnect <==> silent
            > 120_000_000_000),
        conn_answer(ConnEvent::Message { cost }, b, now, r) ==> (r is Handle <==> available(b, now)
            >= cost * 1_000_000_000),
        conn_answer(ConnEvent::Closed, b, now, r) ==> r is Disconnect,
        conn_answer(ConnEvent::Control, b, now, r) ==> r is Ignore,
        conn_answer(ConnEvent::Interval { secs }, b, now, r) ==> r == ConnAction::Send(
            crate::metrics::ServerToAgent::UpdateConfig { report_interval_secs: secs },
        ),
{
}

// ---------------------------------------------------------------------------
// Pages
// ---------------------------------------------------------------------------

/// Without a session no page is shown but the one for logins, the one that sets up a fresh service, and
/// the public one where it is on. With one, every page is but those two.
pub proof fn lemma_pages(page: Page, session: bool, fresh: bool, public: bool)
    ensures
        page_answer(page, session, fresh, public) is Show <==> match page {
            Page::Login => !session,
            Page::Setup => fresh,
            Page::Status => public,
            _ => session,
        },
        page_answer(page, session, fresh, public) is NotFound <==> page is Status && !public,
        page_answer(page, session, fresh, public) is ToIndex <==> page is Login && session,
{
}

/// A file is handed out under the type of its ending.
pub proof fn lemma_types_of_files(name: Seq<char>)
    ensures
        asset_type(name) matches Some(t) ==> {
            &&& ends_with(name, ".css"@) <==> t == "text/css; charset=utf-8"@
            &&& ends_with(name, ".js"@) <==> t == "text/javascript; charset=utf-8"@
            &&& ends_with(name, ".svg"@) <==> t == "image/svg+xml"@
        },
{
    reveal_strlit(".css");
    reveal_strlit(".js");
    reveal_strlit(".svg");
    reveal_strlit("text/css; charset=utf-8");
    reveal_strlit("text/javascript; charset=utf-8");
    reveal_strlit("image/svg+xml");
    assert("text/css; charset=utf-8"@.len() == 23 && "image/svg+xml"@.len() == 13);
    assert("text/javascript; charset=utf-8"@.len() == 30);
    lemma_ending(name);
}

proof fn lemma_ending(name: Seq<char>)
    ensures
        name == "app.css"@ || name == "favicon.svg"@ ==> !ends_with(name, ".js"@),
        name == "app.css"@ ==> ends_with(name, ".css"@) && !ends_with(name, ".svg"@),
        name == "favicon.svg"@ ==> ends_with(name, ".svg"@) && !ends_with(name, ".css"@),
        name == "app.js"@ || name == "chart.js"@ || name == "dashboard.js"@ || name == "node.js"@
            || name == "settings.js"@ || name == "alerts.js"@ || name == "compare.js"@ || name
            == "status.js"@ || name == "auth.js"@ ==> ends_with(name, ".js"@) && !ends_with(
            name,
            ".css"@,
        ) && !ends_with(name, ".svg"@),
{
    reveal_strlit("app.css");
    reveal_strlit("favicon.svg");
    reveal_strlit("app.js");
    reveal_strlit("chart.js");
    reveal_strlit("dashboard.js");
    reveal_strlit("node.js");
    reveal_strlit("settings.js");
    reveal_strlit("alerts.js");
    reveal_strlit("compare.js");
    reveal_strlit("status.js");
    reveal_strlit("auth.js");
    reveal_strlit(".css");
    reveal_strlit(".js");
    reveal_strlit(".svg");
    let n = name.len() as int;
    if n >= 4 {
        assert(name.skip(n - 4)[3] == name[n - 1]);
        assert(name.skip(n - 4)[0] == name[n - 4]);
        assert(name.skip(n - 3)[2] == name[n - 1]);
        assert(name.skip(n - 3)[0] == name[n - 3]);
        assert(name.skip(n - 3)[1] == name[n - 2]);
    }
    if name == "app.css"@ {
        assert(name.skip(3) =~= ".css"@);
    }
    if name == "favicon.svg"@ {
        assert(name.skip(7) =~= ".svg"@);
    }
    if n >= 3 && name[n - 3] == '.' && name[n - 2] == 'j' && name[n - 1] == 's' {
        assert(name.skip(n - 3) =~= ".js"@);
    }
}

/// The address of the public page is that of the service and the page's own part, however the first
/// ends.
pub proof fn lemma_public_address(url: Seq<char>, slug: Seq<char>)
    requires
        url.len() > 0,
        url.last() != '/',
    ensures
        status_address(url, slug) == url + "/status/"@ + slug,
        status_address(url + seq!['/'], slug) == url + "/status/"@ + slug,
{
    assert(strip_end(url, '/') == url);
    let s = url + seq!['/'];
    assert(s.last() == '/');
    assert(s.drop_last() =~= url);
    assert(strip_end(s, '/') == url);
}

/// The channel of a page needs a session and an allowed site.
pub proof fn lemma_channel(session: bool, o: Seq<char>, sites: Seq<Seq<char>>)
    ensures
        channel_refused(session, Some(o), sites) is None <==> session && sites.contains(o),
        !session ==> channel_refused(session, Some(o), sites) == Some(ErrorView::Unauthorized),
        ui_action(UiEvent::Report) == UiAction::Forward,
        ui_action(UiEvent::Tick) == UiAction::Ping,
        ui_action(UiEvent::Lagged) == UiAction::Ignore,
        ui_action(UiEvent::Incoming) == UiAction::Ignore,
        ui_action(UiEvent::Ended) == UiAction::Close,
        ui_action(UiEvent::Closed) == UiAction::Close,
{
}

/// The command that brings a new version names the server, and where its certificate is pinned the
/// fingerprint, and asks for no key.
#[verifier::rlimit(40)]
pub proof fn lemma_update_command(url: Seq<char>, mode: Seq<char>, fingerprint: Option<Seq<char>>)
    ensures
        ({
            let c = update_command(url, mode, fingerprint);
            &&& contains(c, "U=\""@ + strip_end(url, '/') + "\";"@)
            &&& contains(c, "sh upgrade.sh --server \"$U\""@)
            &&& mode == "pinned_ca"@ ==> (fingerprint matches Some(f) ==> contains(
                c,
                " F=\""@ + f + "\";"@,
            ))
        }),
{
    let u = strip_end(url, '/');
    let c = update_command(url, mode, fingerprint);
    reveal_strlit("sh -c 'set -eu; U=\"");
    reveal_strlit("sh -c 'set -eu; ");
    reveal_strlit("U=\"");
    reveal_strlit("\";");
    reveal_strlit("sh upgrade.sh --server \"$U\"");
    assert("sh -c 'set -eu; U=\""@ =~= "sh -c 'set -eu; "@ + "U=\""@);
    let h = "sh -c 'set -eu; "@;
    let k = "sh upgrade.sh --server \"$U\""@;
    let n = "U=\""@ + u + "\";"@;
    match crate::server::handlers::nodes::pinned(mode, fingerprint) {
        Some(f) => {
            reveal_strlit("\"; F=\"");
            reveal_strlit(" F=\"");
            reveal_strlit(
                "\"; D=\"$(mktemp -d)\"; cd \"$D\"; curl -fsSk \"$U/ca.pem\" -o ca.pem; echo \"$F  ca.pem\" | sha256sum -c - >/dev/null; curl -fsS --cacert ca.pem \"$U/upgrade.sh\" -o upgrade.sh; sh upgrade.sh --server \"$U\" --ca \"$D/ca.pem\"'",
            );
            reveal_strlit(
                " D=\"$(mktemp -d)\"; cd \"$D\"; curl -fsSk \"$U/ca.pem\" -o ca.pem; echo \"$F  ca.pem\" | sha256sum -c - >/dev/null; curl -fsS --cacert ca.pem \"$U/upgrade.sh\" -o upgrade.sh; ",
            );
            reveal_strlit(" --ca \"$D/ca.pem\"'");
            let m =
                " D=\"$(mktemp -d)\"; cd \"$D\"; curl -fsSk \"$U/ca.pem\" -o ca.pem; echo \"$F  ca.pem\" | sha256sum -c - >/dev/null; curl -fsS --cacert ca.pem \"$U/upgrade.sh\" -o upgrade.sh; "@;
            let e = " --ca \"$D/ca.pem\"'"@;
            let g = " F=\""@ + f + "\";"@;
            assert(c =~= h + n + g + m + k + e);
            lemma_in_between(h, n, g + m + k + e);
            assert(h + n + (g + m + k + e) =~= c);
            lemma_in_between(h + n, g, m + k + e);
            assert(h + n + g + (m + k + e) =~= c);
            lemma_in_between(h + n + g + m, k, e);
        },
        None => {
            reveal_strlit(
                "\"; D=\"$(mktemp -d)\"; cd \"$D\"; curl -fsS \"$U/upgrade.sh\" -o upgrade.sh; sh upgrade.sh --server \"$U\"'",
            );
            reveal_strlit(
                " D=\"$(mktemp -d)\"; cd \"$D\"; curl -fsS \"$U/upgrade.sh\" -o upgrade.sh; ",
            );
            reveal_strlit("'");
            let m =
                " D=\"$(mktemp -d)\"; cd \"$D\"; curl -fsS \"$U/upgrade.sh\" -o upgrade.sh; "@;
            let e = "'"@;
            assert(c =~= h + n + m + k + e);
            lemma_in_between(h, n, m + k + e);
            assert(h + n + (m + k + e) =~= c);
            lemma_in_between(h + n + m, k, e);
        },
    }
}

/// A history of less than five minutes goes back five minutes, and one of more than a year a year.
pub proof fn lemma_history_limits(secs: i64, points: int, now: i64)
    requires
        0 <= now,
    ensures
        secs < 300 ==> history_cut(secs, points, now).since + 300 == now,
        secs > 366 * 86_400 ==> history_cut(secs, points, now).since + 366 * 86_400 == now,
{
}

/// A message costs what it weighs, and one that cannot be read as much as one; nothing else costs.
pub proof fn lemma_what_costs(cost: usize, silent: u64, secs: u32)
    ensures
        sent_cost(ConnEvent::Message { cost }) == Some(cost as nat),
        sent_cost(ConnEvent::Malformed) == Some(1nat),
        sent_cost(ConnEvent::Binary) == Some(1nat),
        sent_cost(ConnEvent::Tick { silent }) is None,
        sent_cost(ConnEvent::Interval { secs }) is None,
        sent_cost(ConnEvent::Upgrade) is None,
        sent_cost(ConnEvent::Control) is None,
        sent_cost(ConnEvent::Closed) is None,
{
}

} // verus!
