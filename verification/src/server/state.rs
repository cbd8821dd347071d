//! What the server knows while it runs: under which addresses users see it, which programs it hands
//! to agents, and which agents are to be told to replace themselves.

use crate::num::{nearest_i64, sat_add};
use crate::server::config::{origin, origin_of};
use crate::table::{retained, Filter, Table};
use crate::text::views;
use vstd::prelude::*;
use vstd::string::*;

verus! {

/// The addresses under which users see the server. They can be changed while it runs.
#[derive(Debug, Clone)]
pub struct NetCfg {
    pub public_url: String,
    pub extra_origins: Vec<String>,
}

/// A program for agents.
#[derive(Debug, Clone)]
pub struct Artifact {
    /// The kind of machine that it is for.
    pub target: String,
    pub filename: String,
    /// Its SHA-256 digest, in hexadecimal.
    pub sha256: String,
}

/// The origins of some addresses.
pub open spec fn origins(v: Seq<Seq<char>>) -> Seq<Seq<char>> {
    v.map_values(|u: Seq<char>| origin(u))
}

/// The origins from which requests may come: that of the address of the server first, then those of
/// its further addresses.
pub open spec fn allowed(n: NetCfg) -> Seq<Seq<char>> {
    seq![origin(n.public_url@)] + origins(views(n.extra_origins@))
}

impl NetCfg {
    /// The origin of the address of the server.
    pub fn public_origin(&self) -> (r: String)
        ensures
            r@ == origin(self.public_url@),
    {
        origin_of(self.public_url.as_str())
    }

    /// The origins from which requests may come.
    pub fn allowed_origins(&self) -> (r: Vec<String>)
        ensures
            views(r@) == allowed(*self),
    {
        let mut out: Vec<String> = Vec::new();
        out.push(self.public_origin());
        let v = &self.extra_origins;
        let ghost all = views(v@);
        let mut i: usize = 0;
        while i < v.len()
            invariant
                v == &self.extra_origins,
                all == views(v@),
                i <= v@.len(),
                views(out@) == seq![origin(self.public_url@)] + origins(all.take(i as int)),
            decreases v@.len() - i,
        {
            let o = origin_of(v[i].as_str());
            let ghost before = views(out@);
            out.push(o);
            assert(views(out@) =~= before.push(o@));
            assert(origins(all.take(i + 1)) =~= origins(all.take(i as int)).push(o@));
            assert(views(out@) =~= seq![origin(self.public_url@)] + origins(all.take(i + 1)));
            i = i + 1;
        }
        assert(all.take(i as int) =~= all);
        out
    }
}

/// For how long an agent that could not be told to replace itself is told when it comes back, in
/// seconds.
pub const UPGRADE_RESEND_SECS: i64 = 30;

/// The agents that are told to replace themselves when they come back, and until when.
pub struct PendingUpgrades {
    until: Table<i64, i64>,
}

impl View for PendingUpgrades {
    type V = Map<i64, i64>;

    closed spec fn view(&self) -> Map<i64, i64> {
        self.until@
    }
}

/// The agents whose time is not over.
pub open spec fn pending(m: Map<i64, i64>, now: i64) -> Map<i64, i64> {
    retained(m, |node: i64, until: i64| until > now)
}

struct NotOver {
    now: i64,
}

impl Filter<i64, i64> for NotOver {
    closed spec fn keeps(&self, node: i64, until: i64) -> bool {
        until > self.now
    }

    fn keep(&self, node: &i64, until: &i64) -> (r: bool) {
        *until > self.now
    }
}

impl PendingUpgrades {
    pub closed spec fn wf(&self) -> bool {
        self.until.wf()
    }

    /// No agent is to be told.
    pub fn new() -> (r: Self)
        ensures
            r.wf(),
            r@ == Map::<i64, i64>::empty(),
    {
        PendingUpgrades { until: Table::new() }
    }

    /// Remembers an agent that could not be told, and forgets those whose time is over.
    pub fn remember(&mut self, node_id: i64, now: i64)
        requires
            old(self).wf(),
        ensures
            final(self).wf(),
            final(self)@ == pending(old(self)@, now).insert(
                node_id,
                nearest_i64(now + UPGRADE_RESEND_SECS),
            ),
    {
        let ghost m = self@;
        let f = NotOver { now };
        self.until.retain(&f);
        assert(self.until@ =~= pending(m, now));
        self.until.insert(node_id, sat_add(now, UPGRADE_RESEND_SECS));
    }

    /// An agent comes back: whether it is to be told now. It is told once.
    pub fn claim(&mut self, node_id: i64, now: i64) -> (r: bool)
        requires
            old(self).wf(),
        ensures
            final(self).wf(),
            final(self)@ == old(self)@.remove(node_id),
            r == pending(old(self)@, now).contains_key(node_id),
    {
        match self.until.remove(&node_id) {
            Some(until) => until > now,
            None => false,
        }
    }
}

/// An agent that could not be told is told when it comes back within the time, and not a second time.
pub proof fn lemma_told_once(m: Map<i64, i64>, node_id: i64, now: i64, back: i64)
    requires
        now + UPGRADE_RESEND_SECS <= i64::MAX,
        now <= back,
    ensures
        ({
            let asked = pending(m, now).insert(node_id, nearest_i64(now + UPGRADE_RESEND_SECS));
            &&& pending(asked, back).contains_key(node_id) <==> back < now + UPGRADE_RESEND_SECS
            &&& !pending(asked.remove(node_id), back).contains_key(node_id)
        }),
{
}

} // verus!
