//! Alerts: which rules a report breaks, when a breach becomes an alert and when it ends, and
//! who is told.

use crate::json::{json_quoted, json_string};
use crate::measure::Measure;
use crate::metrics::{Metrics, MetricsView};
use crate::num::{
    decimal_int, larger, max_i64, nearest_i64, parse_i64, parsed_i64, sat_double, sat_sub, show_i64,
};
use crate::table::{retained, Filter, Table};
use crate::text::{
    chars_of, contains, has_only_digits, has_substring, is_ascii_alnum, is_digit, only_digits, same,
    split_once, starts_with, strip_prefix, take_before, views,
};
use vstd::prelude::*;
use vstd::slice::slice_subrange;
use vstd::string::*;
use vstd::utf8::encode_utf8;

verus! {

/// For how long the same text is not sent to the same channel again, in seconds.
pub const NOTIFY_DEDUP_SECS: i64 = 60;

/// From how many remembered messages on the old ones are forgotten.
pub const NOTIFY_MEMORY: usize = 4096;

/// For how long a message is remembered once there are many, in seconds.
pub const NOTIFY_MEMORY_SECS: i64 = 3600;

/// The interval between two looks for silent nodes, in seconds.
pub const OFFLINE_PATROL_SECS: u64 = 30;

/// For how long a silent node has to stay silent before an alert, in seconds.
pub const OFFLINE_CONFIRM_SECS: i64 = 30;

/// How long after a recovery a node counts as unsteady, in seconds.
pub const FLAP_WINDOW_SECS: i64 = 600;

/// For how long an unsteady node has to stay silent before the next alert, in seconds.
pub const FLAP_REFIRE_SECS: i64 = 300;

/// The shortest silence that counts, in seconds.
pub const OFFLINE_MIN_GRACE: i64 = 60;

/// The shortest span over which a rate of change is taken, in seconds.
pub const ROC_MIN_WINDOW: i64 = 30;

// ---------------------------------------------------------------------------
// What may be configured
// ---------------------------------------------------------------------------

/// The metrics that a rule can watch.
pub open spec fn known_metric(m: Seq<char>) -> bool {
    m == "cpu_pct"@ || m == "mem_pct"@ || m == "disk_pct"@ || m == "swap_pct"@ || m == "load1"@
        || m == "cpu_temp"@ || m == "tcp_conns"@ || m == "inode_pct"@ || m == "services_down"@ || m
        == "offline"@
}

/// Whether `m` is a metric that a rule can watch.
pub fn valid_metric(m: &str) -> (r: bool)
    ensures
        r == known_metric(m@),
{
    same(m, "cpu_pct") || same(m, "mem_pct") || same(m, "disk_pct") || same(m, "swap_pct") || same(
        m,
        "load1",
    ) || same(m, "cpu_temp") || same(m, "tcp_conns") || same(m, "inode_pct") || same(
        m,
        "services_down",
    ) || same(m, "offline")
}

/// The ways of comparing a value with a threshold.
pub open spec fn known_comparator(c: Seq<char>) -> bool {
    c == "gt"@ || c == "lt"@ || c == "gte"@ || c == "lte"@ || c == "roc"@
}

/// Whether `c` is a way of comparing a value with a threshold.
pub fn valid_comparator(c: &str) -> (r: bool)
    ensures
        r == known_comparator(c@),
{
    same(c, "gt") || same(c, "lt") || same(c, "gte") || same(c, "lte") || same(c, "roc")
}

/// The metrics whose past values can be told, so that a rate of change makes sense.
pub open spec fn known_roc_metric(m: Seq<char>) -> bool {
    m == "cpu_pct"@ || m == "mem_pct"@ || m == "disk_pct"@ || m == "swap_pct"@ || m == "load1"@
}

/// Whether a rate of change can be taken of `m`.
pub fn valid_roc_metric(m: &str) -> (r: bool)
    ensures
        r == known_roc_metric(m@),
{
    same(m, "cpu_pct") || same(m, "mem_pct") || same(m, "disk_pct") || same(m, "swap_pct") || same(
        m,
        "load1",
    )
}

/// The kinds of channels.
pub open spec fn known_channel_kind(k: Seq<char>) -> bool {
    k == "webhook"@ || k == "telegram"@ || k == "bark"@ || k == "smtp"@
}

/// Whether `k` is a kind of channel.
pub fn valid_channel_kind(k: &str) -> (r: bool)
    ensures
        r == known_channel_kind(k@),
{
    same(k, "webhook") || same(k, "telegram") || same(k, "bark") || same(k, "smtp")
}

/// The severities.
pub open spec fn known_severity(s: Seq<char>) -> bool {
    s == "info"@ || s == "warning"@ || s == "critical"@
}

/// Whether `s` is a severity.
pub fn valid_severity(s: &str) -> (r: bool)
    ensures
        r == known_severity(s@),
{
    same(s, "info") || same(s, "warning") || same(s, "critical")
}

/// The place of a severity: `info` below `warning` below `critical`. What is not known counts as
/// `warning`.
pub open spec fn severity_rank(s: Seq<char>) -> u8 {
    if s == "info"@ {
        0
    } else if s == "critical"@ {
        2
    } else {
        1
    }
}

/// The place of a severity.
pub fn sev_rank(s: &str) -> (r: u8)
    ensures
        r == severity_rank(s@),
{
    if same(s, "info") {
        0
    } else if same(s, "critical") {
        2
    } else {
        1
    }
}

/// A character of a Telegram token's second part.
#[verifier::allow_in_spec]
pub fn is_token_char(c: char) -> bool
    returns
        is_ascii_alnum(c) || c == '_' || c == '-',
{
    is_ascii_alnum(c) || c == '_' || c == '-'
}

/// A character of the name of a Telegram channel.
#[verifier::allow_in_spec]
pub fn is_channel_char(c: char) -> bool
    returns
        is_ascii_alnum(c) || c == '_',
{
    is_ascii_alnum(c) || c == '_'
}

/// Digits, a colon, and at least twenty letters, digits, underscores or hyphens; at most 128
/// characters in all.
pub open spec fn telegram_token(t: Seq<char>) -> bool {
    &&& t.len() <= 128
    &&& t.contains(':')
    &&& crate::text::before(t, ':').len() > 0
    &&& only_digits(crate::text::before(t, ':'))
    &&& crate::text::after(t, ':').len() >= 20
    &&& forall|i: int|
        0 <= i < crate::text::after(t, ':').len() ==> is_token_char(
            #[trigger] crate::text::after(t, ':')[i],
        )
}

/// Whether `t` has the form of the token of a Telegram bot.
pub fn valid_telegram_token(t: &str) -> (r: bool)
    ensures
        r == telegram_token(t@),
{
    let v = chars_of(t);
    if v.len() > 128 {
        return false;
    }
    match split_once(v.as_slice(), ':') {
        Some((a, b)) => {
            if a.len() == 0 || !has_only_digits(a) || b.len() < 20 {
                return false;
            }
            let mut i: usize = 0;
            while i < b.len()
                invariant
                    i <= b@.len(),
                    b@ == crate::text::after(t@, ':'),
                    forall|j: int|
                        0 <= j < i ==> is_token_char(#[trigger] crate::text::after(t@, ':')[j]),
                decreases b@.len() - i,
            {
                if !is_token_char(b[i]) {
                    assert(!is_token_char(crate::text::after(t@, ':')[i as int]));
                    return false;
                }
                i = i + 1;
            }
            true
        },
        None => false,
    }
}

/// The name of a channel: `@` and at least three letters, digits or underscores.
pub open spec fn chat_name(s: Seq<char>) -> bool {
    s.len() >= 4 && s[0] == '@' && forall|i: int|
        1 <= i < s.len() ==> is_channel_char(#[trigger] s[i])
}

/// The number of a chat: digits, which a minus sign may precede.
pub open spec fn chat_number(s: Seq<char>) -> bool {
    if s.len() > 0 && s[0] == '-' {
        s.len() > 1 && only_digits(s.skip(1))
    } else {
        s.len() > 0 && only_digits(s)
    }
}

/// The target of a Telegram message: a number or a name, of at most 40 characters.
pub open spec fn chat_id(s: Seq<char>) -> bool {
    s.len() <= 40 && (chat_name(s) || chat_number(s))
}

/// Whether `s` has the form of the target of a Telegram message.
pub fn valid_chat_id(s: &str) -> (r: bool)
    ensures
        r == chat_id(s@),
{
    let v = chars_of(s);
    let n: usize = v.len();
    if n == 0 || n > 40 {
        return false;
    }
    if v[0] == '@' {
        if n < 4 {
            assert(!is_digit(s@[0]));
            return false;
        }
        let mut i: usize = 1;
        while i < n
            invariant
                1 <= i <= n,
                n == v@.len(),
                v@ == s@,
                s@[0] == '@',
                forall|j: int| 1 <= j < i ==> is_channel_char(#[trigger] s@[j]),
            decreases n - i,
        {
            if !is_channel_char(v[i]) {
                assert(!is_channel_char(s@[i as int]));
                assert(!is_digit(s@[0]));
                return false;
            }
            i = i + 1;
        }
        return true;
    }
    if v[0] == '-' {
        let body = slice_subrange(v.as_slice(), 1, n);
        assert(body@ =~= s@.skip(1));
        return body.len() > 0 && has_only_digits(body);
    }
    has_only_digits(v.as_slice())
}

// ---------------------------------------------------------------------------
// From breach to alert and back
// ---------------------------------------------------------------------------

/// Where one rule stands with one node.
#[derive(Debug, Clone, Copy, PartialEq, Eq, Structural)]
pub struct Breach {
    /// Since when the rule is broken without a break.
    pub since: Option<i64>,
    /// An alert stands.
    pub firing: bool,
    /// The stored event of the alert that stands.
    pub event_id: Option<i64>,
    /// When the node last came back; only rules that watch for silence keep it.
    pub recovered_at: Option<i64>,
}

/// What follows from one look at a rule and a node.
#[derive(Debug, Clone, Copy, PartialEq, Eq, Structural)]
pub enum Step {
    /// Nothing.
    Stay,
    /// An alert begins.
    Fire,
    /// The alert with this event ends.
    Resolve { event: i64 },
}

/// A rule that has seen nothing of a node.
pub open spec fn idle() -> Breach {
    Breach { since: None, firing: false, event_id: None, recovered_at: None }
}

/// The node came back less than [`FLAP_WINDOW_SECS`] seconds before `now`.
pub open spec fn unsteady(recovered_at: Option<i64>, now: i64) -> bool {
    match recovered_at {
        Some(r) => nearest_i64(now - r) < FLAP_WINDOW_SECS,
        None => false,
    }
}

/// For how long a breach has to last before it becomes an alert.
pub open spec fn fire_after(
    offline: bool,
    base: i64,
    recovered_at: Option<i64>,
    now: i64,
) -> i64 {
    if offline && unsteady(recovered_at, now) {
        larger(base, FLAP_REFIRE_SECS)
    } else {
        base
    }
}

/// For how long a breach of a rule on `metric` has to last before it becomes an alert: `base`
/// seconds, and at least [`FLAP_REFIRE_SECS`] where a node falls silent again soon after it
/// came back.
pub fn offline_fire_debounce(metric: &str, base: i64, recovered_at: Option<i64>, now: i64) -> (r:
    i64)
    ensures
        r == fire_after(metric@ == "offline"@, base, recovered_at, now),
{
    let recent = match recovered_at {
        Some(t) => sat_sub(now, t) < FLAP_WINDOW_SECS,
        None => false,
    };
    if same(metric, "offline") && recent {
        max_i64(base, FLAP_REFIRE_SECS)
    } else {
        base
    }
}

/// Where a rule stands after a look at a node, and what follows.
pub open spec fn advanced(
    b: Breach,
    offline: bool,
    breaching: bool,
    debounce: i64,
    now: i64,
) -> (Breach, Step) {
    if breaching {
        let since = match b.since {
            Some(t) => t,
            None => now,
        };
        let fires = !b.firing && nearest_i64(now - since) >= fire_after(
            offline,
            debounce,
            b.recovered_at,
            now,
        );
        (
            Breach { since: Some(since), firing: b.firing || fires, ..b },
            if fires {
                Step::Fire
            } else {
                Step::Stay
            },
        )
    } else {
        (
            Breach {
                since: None,
                firing: false,
                event_id: None,
                recovered_at: if b.firing && offline {
                    Some(now)
                } else {
                    b.recovered_at
                },
            },
            if b.firing {
                match b.event_id {
                    Some(e) => Step::Resolve { event: e },
                    None => Step::Stay,
                }
            } else {
                Step::Stay
            },
        )
    }
}

/// What a rule and a node still have to be remembered for: an alert, a breach, or a recent
/// recovery.
pub open spec fn remembered(b: Breach, now: i64) -> bool {
    b.firing || b.since is Some || unsteady(b.recovered_at, now)
}

/// What `m` holds for a rule and a node.
pub open spec fn standing(m: Map<(i64, i64), Breach>, key: (i64, i64)) -> Breach {
    if m.contains_key(key) {
        m[key]
    } else {
        idle()
    }
}

/// What stays of `m` when everything that need not be remembered is dropped.
pub open spec fn pruned(m: Map<(i64, i64), Breach>, now: i64) -> Map<(i64, i64), Breach> {
    retained(m, |k: (i64, i64), b: Breach| remembered(b, now))
}

/// What stays of `m` without a rule.
pub open spec fn without_rule(m: Map<(i64, i64), Breach>, rule_id: i64) -> Map<(i64, i64), Breach> {
    retained(m, |k: (i64, i64), b: Breach| k.0 != rule_id)
}

/// What stays of `m` without a node.
pub open spec fn without_node(m: Map<(i64, i64), Breach>, node_id: i64) -> Map<(i64, i64), Breach> {
    retained(m, |k: (i64, i64), b: Breach| k.1 != node_id)
}

/// Where every rule stands with every node.
pub struct AlertRuntime {
    states: Table<(i64, i64), Breach>,
}

impl View for AlertRuntime {
    type V = Map<(i64, i64), Breach>;

    closed spec fn view(&self) -> Map<(i64, i64), Breach> {
        self.states@
    }
}

impl AlertRuntime {
    /// No rule and node stand twice.
    pub closed spec fn wf(&self) -> bool {
        self.states.wf()
    }

    /// Nothing is known of any rule and node.
    pub fn new() -> (r: Self)
        ensures
            r.wf(),
            r@ == Map::<(i64, i64), Breach>::empty(),
    {
        AlertRuntime { states: Table::new() }
    }

    fn standing_of(&self, key: &(i64, i64)) -> (b: Breach)
        requires
            self.wf(),
        ensures
            b == standing(self@, *key),
    {
        match self.states.get(key) {
            Some(b) => *b,
            None => Breach { since: None, firing: false, event_id: None, recovered_at: None },
        }
    }

    /// Takes one look at a rule and a node into account. `Fire` is given at most once per breach,
    /// so that no event is stored twice.
    pub fn transition(
        &mut self,
        rule: &RuleLite,
        node_id: i64,
        breaching: bool,
        debounce: i64,
        now: i64,
    ) -> (s: Step)
        requires
            old(self).wf(),
        ensures
            final(self).wf(),
            s == advanced(
                standing(old(self)@, (rule.id, node_id)),
                rule.metric@ == "offline"@,
                breaching,
                debounce,
                now,
            ).1,
            final(self)@ == old(self)@.insert(
                (rule.id, node_id),
                advanced(
                    standing(old(self)@, (rule.id, node_id)),
                    rule.metric@ == "offline"@,
                    breaching,
                    debounce,
                    now,
                ).0,
            ),
    {
        let key = (rule.id, node_id);
        let mut b = self.standing_of(&key);
        let mut step = Step::Stay;
        if breaching {
            let since: i64 = match b.since {
                Some(t) => t,
                None => now,
            };
            b.since = Some(since);
            let elapsed: i64 = sat_sub(now, since);
            let need: i64 = offline_fire_debounce(
                rule.metric.as_str(),
                debounce,
                b.recovered_at,
                now,
            );
            if !b.firing && elapsed >= need {
                b.firing = true;
                step = Step::Fire;
            }
        } else {
            if b.firing {
                if let Some(e) = b.event_id {
                    step = Step::Resolve { event: e };
                }
                b.firing = false;
                if same(rule.metric.as_str(), "offline") {
                    b.recovered_at = Some(now);
                }
            }
            b.since = None;
            b.event_id = None;
        }
        self.states.insert(key, b);
        step
    }

    /// Ties a stored event to the alert that it belongs to. False where the alert has ended
    /// meanwhile (or has an event already): the event is then to be closed at once.
    pub fn attach_event(&mut self, rule_id: i64, node_id: i64, event: i64) -> (still_firing: bool)
        requires
            old(self).wf(),
        ensures
            final(self).wf(),
            still_firing == (standing(old(self)@, (rule_id, node_id)).firing && standing(
                old(self)@,
                (rule_id, node_id),
            ).event_id is None),
            final(self)@ == old(self)@.insert(
                (rule_id, node_id),
                if still_firing {
                    Breach {
                        event_id: Some(event),
                        ..standing(old(self)@, (rule_id, node_id))
                    }
                } else {
                    standing(old(self)@, (rule_id, node_id))
                },
            ),
    {
        let key = (rule_id, node_id);
        let mut b = self.standing_of(&key);
        let still = b.firing && b.event_id.is_none();
        if still {
            b.event_id = Some(event);
        }
        self.states.insert(key, b);
        still
    }

    /// Drops what need not be remembered any longer.
    pub fn prune_runtime(&mut self, now: i64)
        requires
            old(self).wf(),
        ensures
            final(self).wf(),
            final(self)@ == pruned(old(self)@, now),
    {
        let ghost m = self@;
        self.states.retain(&StillRemembered { now });
        assert(self@ =~= pruned(m, now));
    }

    /// Drops everything about a rule.
    pub fn forget_rule(&mut self, rule_id: i64)
        requires
            old(self).wf(),
        ensures
            final(self).wf(),
            final(self)@ == without_rule(old(self)@, rule_id),
    {
        let ghost m = self@;
        self.states.retain(&OtherRule { rule_id });
        assert(self@ =~= without_rule(m, rule_id));
    }

    /// Drops everything about a node.
    pub fn forget_node(&mut self, node_id: i64)
        requires
            old(self).wf(),
        ensures
            final(self).wf(),
            final(self)@ == without_node(old(self)@, node_id),
    {
        let ghost m = self@;
        self.states.retain(&OtherNode { node_id });
        assert(self@ =~= without_node(m, node_id));
    }
}

struct StillRemembered {
    now: i64,
}

impl Filter<(i64, i64), Breach> for StillRemembered {
    closed spec fn keeps(&self, k: (i64, i64), b: Breach) -> bool {
        remembered(b, self.now)
    }

    fn keep(&self, k: &(i64, i64), b: &Breach) -> (r: bool) {
        b.firing || b.since.is_some() || (match b.recovered_at {
            Some(t) => sat_sub(self.now, t) < FLAP_WINDOW_SECS,
            None => false,
        })
    }
}

struct OtherRule {
    rule_id: i64,
}

impl Filter<(i64, i64), Breach> for OtherRule {
    closed spec fn keeps(&self, k: (i64, i64), b: Breach) -> bool {
        k.0 != self.rule_id
    }

    fn keep(&self, k: &(i64, i64), b: &Breach) -> (r: bool) {
        k.0 != self.rule_id
    }
}

struct OtherNode {
    node_id: i64,
}

impl Filter<(i64, i64), Breach> for OtherNode {
    closed spec fn keeps(&self, k: (i64, i64), b: Breach) -> bool {
        k.1 != self.node_id
    }

    fn keep(&self, k: &(i64, i64), b: &Breach) -> (r: bool) {
        k.1 != self.node_id
    }
}

/// A rule as the engine uses it.
#[derive(Debug)]
pub struct RuleLite {
    pub id: i64,
    pub name: String,
    pub metric: String,
    pub comparator: String,
    pub threshold: Measure,
    pub duration_secs: i64,
    pub severity: String,
    pub roc_window_secs: i64,
    /// The one node that the rule is about; every node where there is none.
    pub node_id: Option<i64>,
}

// ---------------------------------------------------------------------------
// Laws of the alerts
// ---------------------------------------------------------------------------

/// One look at a rule and a node.
pub struct Look {
    pub breaching: bool,
    pub debounce: i64,
    pub now: i64,
}

/// Where a rule stands after a series of looks.
pub open spec fn after_looks(b: Breach, offline: bool, looks: Seq<Look>) -> Breach
    decreases looks.len(),
{
    if looks.len() == 0 {
        b
    } else {
        let l = looks.last();
        advanced(
            after_looks(b, offline, looks.drop_last()),
            offline,
            l.breaching,
            l.debounce,
            l.now,
        ).0
    }
}

/// What follows from the look number `i` of a series.
pub open spec fn step_at(b: Breach, offline: bool, looks: Seq<Look>, i: int) -> Step {
    advanced(
        after_looks(b, offline, looks.take(i)),
        offline,
        looks[i].breaching,
        looks[i].debounce,
        looks[i].now,
    ).1
}

proof fn lemma_take_step(b: Breach, offline: bool, looks: Seq<Look>, i: int)
    requires
        0 <= i < looks.len(),
    ensures
        after_looks(b, offline, looks.take(i + 1)) == advanced(
            after_looks(b, offline, looks.take(i)),
            offline,
            looks[i].breaching,
            looks[i].debounce,
            looks[i].now,
        ).0,
{
    assert(looks.take(i + 1).drop_last() =~= looks.take(i));
    assert(looks.take(i + 1).last() == looks[i]);
}

proof fn lemma_firing_stays(b: Breach, offline: bool, looks: Seq<Look>, i: int)
    requires
        b.firing,
        forall|k: int| 0 <= k < looks.len() ==> (#[trigger] looks[k]).breaching,
        0 <= i <= looks.len(),
    ensures
        after_looks(b, offline, looks.take(i)).firing,
    decreases i,
{
    if i > 0 {
        lemma_firing_stays(b, offline, looks, i - 1);
        lemma_take_step(b, offline, looks, i - 1);
        assert(looks[i - 1].breaching);
    } else {
        assert(looks.take(0) =~= Seq::<Look>::empty());
    }
}

/// An alert that stands is not given again for as long as the breach lasts, and it stands until
/// the first look that finds no breach.
pub proof fn lemma_fires_once(b: Breach, offline: bool, looks: Seq<Look>)
    requires
        b.firing,
        forall|k: int| 0 <= k < looks.len() ==> (#[trigger] looks[k]).breaching,
    ensures
        after_looks(b, offline, looks).firing,
        forall|i: int| 0 <= i < looks.len() ==> #[trigger] step_at(b, offline, looks, i) == Step::Stay,
{
    assert forall|i: int| 0 <= i < looks.len() implies #[trigger] step_at(b, offline, looks, i)
        == Step::Stay by {
        lemma_firing_stays(b, offline, looks, i);
        assert(looks[i].breaching);
    }
    lemma_firing_stays(b, offline, looks, looks.len() as int);
    assert(looks.take(looks.len() as int) =~= looks);
}

/// A look that finds no breach ends the alert, and closes its event where it has one.
pub proof fn lemma_recovery_resolves(b: Breach, offline: bool, debounce: i64, now: i64)
    ensures
        !advanced(b, offline, false, debounce, now).0.firing,
        advanced(b, offline, false, debounce, now).0.since is None,
        b.firing && b.event_id is Some ==> advanced(b, offline, false, debounce, now).1
            == (Step::Resolve { event: b.event_id->0 }),
        !b.firing ==> advanced(b, offline, false, debounce, now).1 == Step::Stay,
{
}

proof fn lemma_since_kept(offline: bool, looks: Seq<Look>, b: Breach, i: int)
    requires
        b.since is None,
        forall|k: int| 0 <= k < looks.len() ==> (#[trigger] looks[k]).breaching,
        0 < i <= looks.len(),
    ensures
        after_looks(b, offline, looks.take(i)).since == Some(looks[0].now),
        after_looks(b, offline, looks.take(i)).recovered_at == b.recovered_at,
    decreases i,
{
    lemma_take_step(b, offline, looks, i - 1);
    assert(looks[i - 1].breaching);
    if i > 1 {
        lemma_since_kept(offline, looks, b, i - 1);
    } else {
        assert(looks.take(0) =~= Seq::<Look>::empty());
    }
}

/// No alert without a breach that has lasted: where the look number `i` of an unbroken breach
/// gives one, at least the asked time has passed since the first look; and where a node fell
/// silent again soon after it came back, at least [`FLAP_REFIRE_SECS`].
pub proof fn lemma_fire_needs_time(b: Breach, offline: bool, looks: Seq<Look>, i: int)
    requires
        b.since is None,
        forall|k: int| 0 <= k < looks.len() ==> (#[trigger] looks[k]).breaching,
        0 <= i < looks.len(),
        step_at(b, offline, looks, i) == Step::Fire,
    ensures
        nearest_i64(looks[i].now - looks[0].now) >= looks[i].debounce,
        offline && unsteady(b.recovered_at, looks[i].now) ==> nearest_i64(
            looks[i].now - looks[0].now,
        ) >= FLAP_REFIRE_SECS,
{
    assert(looks[i].breaching);
    if i > 0 {
        lemma_since_kept(offline, looks, b, i);
    } else {
        assert(looks.take(0) =~= Seq::<Look>::empty());
    }
}

/// A breach that lasts long enough does become an alert.
pub proof fn lemma_lasting_breach_fires(b: Breach, offline: bool, looks: Seq<Look>)
    requires
        b.since is None,
        !b.firing,
        looks.len() > 0,
        forall|k: int| 0 <= k < looks.len() ==> (#[trigger] looks[k]).breaching,
        nearest_i64(looks.last().now - looks[0].now) >= fire_after(
            offline,
            looks.last().debounce,
            b.recovered_at,
            looks.last().now,
        ),
    ensures
        after_looks(b, offline, looks).firing,
{
    let n = looks.len() - 1;
    assert(looks.take(n) =~= looks.drop_last());
    assert(looks[n].breaching);
    if n > 0 {
        lemma_since_kept(offline, looks, b, n);
    } else {
        assert(looks.drop_last() =~= Seq::<Look>::empty());
    }
}

/// Where the unbroken breach that the look number `i` belongs to began.
pub open spec fn run_start(looks: Seq<Look>, i: int) -> int
    decreases i,
{
    if i > 0 && looks[i - 1].breaching {
        run_start(looks, i - 1)
    } else {
        i
    }
}

/// An alert began at one of the looks from `from` up to `to`, on a rule that had seen nothing before
/// the series.
pub open spec fn fired_between(offline: bool, looks: Seq<Look>, from: int, to: int) -> bool {
    exists|j: int| from <= j < to && #[trigger] step_at(idle(), offline, looks, j) == Step::Fire
}

/// The alert stands before the look number `i`: it began in the breach that still lasts.
pub open spec fn stands_before(offline: bool, looks: Seq<Look>, i: int) -> bool {
    i > 0 && looks[i - 1].breaching && fired_between(offline, looks, run_start(looks, i - 1), i)
}

/// When an alert of a rule that watches for silence last ended, before the look number `i`.
pub open spec fn last_recovery(offline: bool, looks: Seq<Look>, i: int) -> Option<i64>
    decreases i,
{
    if i <= 0 || !offline {
        None
    } else if !looks[i - 1].breaching && stands_before(offline, looks, i - 1) {
        Some(looks[i - 1].now)
    } else {
        last_recovery(offline, looks, i - 1)
    }
}

proof fn lemma_run_start(looks: Seq<Look>, i: int)
    requires
        0 <= i,
    ensures
        0 <= run_start(looks, i) <= i,
    decreases i,
{
    if i > 0 && looks[i - 1].breaching {
        lemma_run_start(looks, i - 1);
    }
}

proof fn lemma_series(offline: bool, looks: Seq<Look>, i: int)
    requires
        0 <= i <= looks.len(),
    ensures
        ({
            let b = after_looks(idle(), offline, looks.take(i));
            &&& b.since == if i > 0 && looks[i - 1].breaching {
                Some(looks[run_start(looks, i - 1)].now)
            } else {
                None
            }
            &&& b.firing == stands_before(offline, looks, i)
            &&& b.recovered_at == last_recovery(offline, looks, i)
        }),
    decreases i,
{
    if i == 0 {
        assert(looks.take(0) =~= Seq::<Look>::empty());
    } else {
        let k = i - 1;
        lemma_series(offline, looks, k);
        lemma_take_step(idle(), offline, looks, k);
        lemma_run_start(looks, k);
        let s = run_start(looks, k);
        let step = step_at(idle(), offline, looks, k);
        if looks[k].breaching {
            if k > 0 && looks[k - 1].breaching {
                assert(s == run_start(looks, k - 1));
                if stands_before(offline, looks, k) {
                    let j = choose|j: int|
                        s <= j < k && #[trigger] step_at(idle(), offline, looks, j) == Step::Fire;
                    assert(step_at(idle(), offline, looks, j) == Step::Fire);
                    assert(fired_between(offline, looks, s, i));
                }
            }
            if step == Step::Fire {
                assert(fired_between(offline, looks, s, i));
            }
            if fired_between(offline, looks, s, i) && step != Step::Fire {
                let j = choose|j: int|
                    s <= j < i && #[trigger] step_at(idle(), offline, looks, j) == Step::Fire;
                assert(j < k);
                assert(fired_between(offline, looks, s, k));
            }
        }
    }
}

/// When alerts begin, over a whole series of looks at a rule and a node of which nothing was known: at
/// a look, exactly where it finds a breach, no alert began yet in this unbroken breach, and the breach
/// has lasted its time since its first look. What that time is depends on when an alert of the rule
/// last ended.
pub proof fn lemma_when_alerts_begin(offline: bool, looks: Seq<Look>, i: int)
    requires
        0 <= i < looks.len(),
        forall|j: int, k: int|
            #![trigger looks[j], looks[k]]
            0 <= j <= k < looks.len() ==> looks[j].now <= looks[k].now,
    ensures
        ({
            let s = run_start(looks, i);
            step_at(idle(), offline, looks, i) == Step::Fire <==> {
                &&& looks[i].breaching
                &&& !fired_between(offline, looks, s, i)
                &&& looks[i].now - looks[s].now >= fire_after(
                    offline,
                    looks[i].debounce,
                    last_recovery(offline, looks, i),
                    looks[i].now,
                )
            }
        }),
{
    lemma_series(offline, looks, i);
    lemma_run_start(looks, i);
    assert(looks[run_start(looks, i)].now <= looks[i].now);
    if i == 0 || !looks[i - 1].breaching {
        assert(run_start(looks, i) == i);
        assert(!fired_between(offline, looks, i, i));
    }
}

/// What the runtime holds after a series of looks at one rule and one node.
pub open spec fn runtime_after(
    m: Map<(i64, i64), Breach>,
    key: (i64, i64),
    offline: bool,
    looks: Seq<Look>,
) -> Map<(i64, i64), Breach>
    decreases looks.len(),
{
    if looks.len() == 0 {
        m
    } else {
        let l = looks.last();
        let before = runtime_after(m, key, offline, looks.drop_last());
        before.insert(
            key,
            advanced(standing(before, key), offline, l.breaching, l.debounce, l.now).0,
        )
    }
}

/// What a series of looks comes to does not depend on other rules and nodes, and leaves them as they
/// are.
pub proof fn lemma_series_of_one(
    m: Map<(i64, i64), Breach>,
    key: (i64, i64),
    offline: bool,
    looks: Seq<Look>,
)
    ensures
        standing(runtime_after(m, key, offline, looks), key) == after_looks(
            standing(m, key),
            offline,
            looks,
        ),
        forall|other: (i64, i64)|
            other != key ==> #[trigger] standing(runtime_after(m, key, offline, looks), other)
                == standing(m, other),
    decreases looks.len(),
{
    if looks.len() > 0 {
        lemma_series_of_one(m, key, offline, looks.drop_last());
        let before = runtime_after(m, key, offline, looks.drop_last());
        assert forall|other: (i64, i64)| other != key implies #[trigger] standing(
            runtime_after(m, key, offline, looks),
            other,
        ) == standing(m, other) by {
            assert(standing(before, other) == standing(m, other));
        }
    }
}

/// Whether an event is tied to an alert changes nothing of when alerts begin and end.
pub proof fn lemma_events_do_not_decide(b: Breach, event_id: Option<i64>, offline: bool, l: Look)
    ensures
        ({
            let x = advanced(b, offline, l.breaching, l.debounce, l.now);
            let y = advanced(Breach { event_id, ..b }, offline, l.breaching, l.debounce, l.now);
            &&& x.1 == Step::Fire <==> y.1 == Step::Fire
            &&& x.0.since == y.0.since
            &&& x.0.firing == y.0.firing
            &&& x.0.recovered_at == y.0.recovered_at
        }),
{
}

/// What is dropped would not have been missed: from then on, a rule and a node that were dropped
/// get the same answers as before.
pub proof fn lemma_prune_is_invisible(b: Breach, offline: bool, at: i64, l: Look)
    requires
        !remembered(b, at),
        b.event_id is None,
        at <= l.now,
    ensures
        advanced(b, offline, l.breaching, l.debounce, l.now).1 == advanced(
            idle(),
            offline,
            l.breaching,
            l.debounce,
            l.now,
        ).1,
        advanced(b, offline, l.breaching, l.debounce, l.now).0.firing == advanced(
            idle(),
            offline,
            l.breaching,
            l.debounce,
            l.now,
        ).0.firing,
        advanced(b, offline, l.breaching, l.debounce, l.now).0.since == advanced(
            idle(),
            offline,
            l.breaching,
            l.debounce,
            l.now,
        ).0.since,
{
}

/// A rule holds an event only while its alert stands: every look keeps this.
pub proof fn lemma_event_only_while_firing(b: Breach, offline: bool, l: Look)
    requires
        b.event_id is Some ==> b.firing,
    ensures
        ({
            let c = advanced(b, offline, l.breaching, l.debounce, l.now).0;
            c.event_id is Some ==> c.firing
        }),
{
}

// ---------------------------------------------------------------------------
// What a report says of a metric
// ---------------------------------------------------------------------------

/// The quotients and conversions of a report, in floating point. The lists run parallel to the
/// mount points of the report.
#[derive(Debug)]
pub struct Shares {
    /// Used of all memory, in percent; 0 where there is none.
    pub mem: Measure,
    /// Used of all swap, in percent; 0 where there is none.
    pub swap: Measure,
    /// Used of the main disk, in percent.
    pub main_disk: Measure,
    /// Used of each mount point, in percent.
    pub disks: Vec<Measure>,
    /// Used inodes of each mount point, in percent.
    pub inodes: Vec<Measure>,
    /// The number of TCP connections, where the report has it.
    pub tcp_conns: Measure,
    /// The number of services that are down.
    pub services_down: Measure,
}

/// The largest of the shares whose total is not 0, if any.
pub open spec fn largest_share(totals: Seq<u64>, shares: Seq<Measure>) -> Option<Measure>
    decreases totals.len(),
{
    if totals.len() == 0 {
        None
    } else {
        let rest = largest_share(totals.drop_last(), shares.drop_last());
        if totals.last() > 0 {
            match rest {
                Some(a) => Some(a.greater(shares.last())),
                None => Some(shares.last()),
            }
        } else {
            rest
        }
    }
}

/// The sizes of the mount points of a report.
pub open spec fn disk_totals(v: MetricsView) -> Seq<u64> {
    Seq::new(v.disks.len(), |i: int| v.disks[i].total)
}

/// The numbers of inodes of the mount points of a report.
pub open spec fn inode_totals(v: MetricsView) -> Seq<u64> {
    Seq::new(v.disks.len(), |i: int| v.disks[i].inodes_total)
}

/// What a report says of the metric `name`.
pub open spec fn metric_reading(
    name: Seq<char>,
    v: MetricsView,
    disk_total: i64,
    p: Shares,
) -> Option<Measure> {
    if name == "cpu_pct"@ {
        Some(v.cpu_pct)
    } else if name == "mem_pct"@ {
        Some(p.mem)
    } else if name == "disk_pct"@ {
        match largest_share(disk_totals(v), p.disks@) {
            Some(x) => Some(x),
            None => if disk_total > 0 {
                Some(p.main_disk)
            } else {
                None
            },
        }
    } else if name == "swap_pct"@ {
        Some(p.swap)
    } else if name == "load1"@ {
        Some(v.load1)
    } else if name == "cpu_temp"@ {
        v.cpu_temp_c
    } else if name == "tcp_conns"@ {
        if v.tcp_conns is Some {
            Some(p.tcp_conns)
        } else {
            None
        }
    } else if name == "inode_pct"@ {
        largest_share(inode_totals(v), p.inodes@)
    } else if name == "services_down"@ {
        Some(p.services_down)
    } else {
        None
    }
}

fn largest(totals: &[u64], shares: &[Measure]) -> (r: Option<Measure>)
    requires
        totals@.len() == shares@.len(),
    ensures
        r == largest_share(totals@, shares@),
{
    let mut best: Option<Measure> = None;
    let mut i: usize = 0;
    while i < totals.len()
        invariant
            totals@.len() == shares@.len(),
            i <= totals@.len(),
            best == largest_share(totals@.take(i as int), shares@.take(i as int)),
        decreases totals@.len() - i,
    {
        assert(totals@.take(i + 1).drop_last() =~= totals@.take(i as int));
        assert(shares@.take(i + 1).drop_last() =~= shares@.take(i as int));
        if totals[i] > 0 {
            best = match best {
                Some(a) => Some(a.max(shares[i])),
                None => Some(shares[i]),
            };
        }
        i = i + 1;
    }
    assert(totals@.take(i as int) =~= totals@);
    assert(shares@.take(i as int) =~= shares@);
    best
}

/// What the report `m` says of the metric `name`: `None` where it says nothing of it. The use of
/// the disks is that of the fullest mount point; `disk_total` is the size of the main disk,
/// which stands in for a report without mount points.
pub fn metric_value(name: &str, m: &Metrics, disk_total: i64, p: &Shares) -> (r: Option<Measure>)
    requires
        p.disks@.len() == m.disks@.len(),
        p.inodes@.len() == m.disks@.len(),
    ensures
        r == metric_reading(name@, m@, disk_total, *p),
{
    if same(name, "cpu_pct") {
        Some(m.cpu_pct)
    } else if same(name, "mem_pct") {
        Some(p.mem)
    } else if same(name, "disk_pct") {
        let mut totals: Vec<u64> = Vec::new();
        let mut i: usize = 0;
        while i < m.disks.len()
            invariant
                i <= m.disks@.len(),
                totals@ == disk_totals(m@).take(i as int),
            decreases m.disks@.len() - i,
        {
            totals.push(m.disks[i].total);
            i = i + 1;
            assert(totals@ =~= disk_totals(m@).take(i as int));
        }
        assert(totals@ =~= disk_totals(m@));
        match largest(totals.as_slice(), p.disks.as_slice()) {
            Some(x) => Some(x),
            None => if disk_total > 0 {
                Some(p.main_disk)
            } else {
                None
            },
        }
    } else if same(name, "swap_pct") {
        Some(p.swap)
    } else if same(name, "load1") {
        Some(m.load1)
    } else if same(name, "cpu_temp") {
        m.cpu_temp_c
    } else if same(name, "tcp_conns") {
        if m.tcp_conns.is_some() {
            Some(p.tcp_conns)
        } else {
            None
        }
    } else if same(name, "inode_pct") {
        let mut totals: Vec<u64> = Vec::new();
        let mut i: usize = 0;
        while i < m.disks.len()
            invariant
                i <= m.disks@.len(),
                totals@ == inode_totals(m@).take(i as int),
            decreases m.disks@.len() - i,
        {
            totals.push(m.disks[i].inodes_total);
            i = i + 1;
            assert(totals@ =~= inode_totals(m@).take(i as int));
        }
        assert(totals@ =~= inode_totals(m@));
        largest(totals.as_slice(), p.inodes.as_slice())
    } else if same(name, "services_down") {
        Some(p.services_down)
    } else {
        None
    }
}

/// The number of services in `s` that are down.
pub open spec fn down_count(s: Seq<crate::metrics::ServiceView>) -> nat
    decreases s.len(),
{
    if s.len() == 0 {
        0
    } else {
        down_count(s.drop_last()) + if s.last().active {
            0nat
        } else {
            1nat
        }
    }
}

/// The number of services that a report shows as down.
pub fn services_down(m: &Metrics) -> (n: usize)
    ensures
        n == down_count(m@.services),
{
    let mut n: usize = 0;
    let mut i: usize = 0;
    let ghost s = m@.services;
    assert(s.take(0) =~= Seq::empty());
    while i < m.services.len()
        invariant
            s == views(m.services@),
            i <= m.services@.len(),
            n <= i,
            n == down_count(s.take(i as int)),
        decreases m.services@.len() - i,
    {
        assert(s.take(i + 1).drop_last() =~= s.take(i as int));
        assert(s[i as int] == m.services@[i as int]@);
        if !m.services[i].active {
            n = n + 1;
        }
        i = i + 1;
    }
    assert(s.take(i as int) =~= s);
    n
}

/// A stored report, reduced to what rates of change can be taken of.
#[derive(Debug, Clone, Copy)]
pub struct CoreRow {
    pub cpu_pct: Measure,
    pub load1: Measure,
    /// Used of all memory, in percent; 0 where there is none.
    pub mem_pct: Measure,
    /// Used of the main disk, in percent; 0 where there is none.
    pub disk_pct: Measure,
    /// Used of all swap, in percent; 0 where there is none.
    pub swap_pct: Measure,
}

/// What a stored report says of the metric `name`.
pub open spec fn core_reading(name: Seq<char>, row: CoreRow) -> Option<Measure> {
    if name == "cpu_pct"@ {
        Some(row.cpu_pct)
    } else if name == "mem_pct"@ {
        Some(row.mem_pct)
    } else if name == "disk_pct"@ {
        Some(row.disk_pct)
    } else if name == "swap_pct"@ {
        Some(row.swap_pct)
    } else if name == "load1"@ {
        Some(row.load1)
    } else {
        None
    }
}

/// What a stored report says of the metric `name`.
pub fn past_core_value(name: &str, row: &CoreRow) -> (r: Option<Measure>)
    ensures
        r == core_reading(name@, *row),
{
    if same(name, "cpu_pct") {
        Some(row.cpu_pct)
    } else if same(name, "mem_pct") {
        Some(row.mem_pct)
    } else if same(name, "disk_pct") {
        Some(row.disk_pct)
    } else if same(name, "swap_pct") {
        Some(row.swap_pct)
    } else if same(name, "load1") {
        Some(row.load1)
    } else {
        None
    }
}

/// Exactly the metrics that a rate of change may be configured for can be told of the past.
pub proof fn lemma_roc_metrics_have_a_past(name: Seq<char>, row: CoreRow)
    ensures
        known_roc_metric(name) <==> core_reading(name, row) is Some,
{
}

// ---------------------------------------------------------------------------
// Which rules a report breaks
// ---------------------------------------------------------------------------

/// The rule is about the node.
pub open spec fn applies(rule: RuleLite, node_id: i64) -> bool {
    rule.node_id is None || rule.node_id == Some(node_id)
}

/// Whether the rule is about the node.
pub fn rule_applies(rule: &RuleLite, node_id: i64) -> (r: bool)
    ensures
        r == applies(*rule, node_id),
{
    match rule.node_id {
        None => true,
        Some(n) => n == node_id,
    }
}

/// The rule is about the node, and about its reports or about its silence.
pub open spec fn watched(rule: RuleLite, node_id: i64, silence: bool) -> bool {
    (rule.metric@ == "offline"@) == silence && applies(rule, node_id)
}

/// The positions before `n` of the rules that are about the node.
pub open spec fn watched_upto(rules: Seq<RuleLite>, node_id: i64, silence: bool, n: int) -> Seq<
    usize,
>
    decreases n,
{
    if n <= 0 {
        Seq::empty()
    } else {
        let rest = watched_upto(rules, node_id, silence, n - 1);
        if watched(rules[n - 1], node_id, silence) {
            rest.push((n - 1) as usize)
        } else {
            rest
        }
    }
}

/// The positions of the rules that are about the reports of a node or, with `silence`, about its
/// silence.
pub fn rules_for(rules: &[RuleLite], node_id: i64, silence: bool) -> (r: Vec<usize>)
    ensures
        r@ == watched_upto(rules@, node_id, silence, rules@.len() as int),
        forall|k: int|
            0 <= k < r@.len() ==> #[trigger] r@[k] < rules@.len() && watched(
                rules@[r@[k] as int],
                node_id,
                silence,
            ),
{
    let mut out: Vec<usize> = Vec::new();
    let mut i: usize = 0;
    while i < rules.len()
        invariant
            i <= rules@.len(),
            out@ == watched_upto(rules@, node_id, silence, i as int),
            forall|k: int|
                0 <= k < out@.len() ==> #[trigger] out@[k] < i && watched(
                    rules@[out@[k] as int],
                    node_id,
                    silence,
                ),
        decreases rules@.len() - i,
    {
        let offline = same(rules[i].metric.as_str(), "offline");
        if offline == silence && rule_applies(&rules[i], node_id) {
            out.push(i);
        }
        i = i + 1;
    }
    out
}

/// The span over which a rate of change is taken.
pub open spec fn roc_window(rule: RuleLite) -> i64 {
    larger(rule.roc_window_secs, ROC_MIN_WINDOW)
}

/// Whether a rule is judged by an earlier figure: it watches a rate of change.
pub fn needs_past(rule: &RuleLite) -> (r: bool)
    ensures
        r <==> rule.comparator@ == "roc"@,
{
    same(rule.comparator.as_str(), "roc")
}

/// The times between which the past value lies that a rate of change is taken from: one span
/// ago, and no more than two.
pub fn roc_bounds(rule: &RuleLite, now: i64) -> (r: (i64, i64))
    ensures
        r.0 == nearest_i64(now - roc_window(*rule)),
        r.1 == nearest_i64(now - nearest_i64(2 * roc_window(*rule))),
        0 <= now && 30 <= rule.roc_window_secs <= 86_400 ==> r.0 + rule.roc_window_secs == now && r.1
            + 2 * rule.roc_window_secs == now,
{
    let window: i64 = max_i64(rule.roc_window_secs, ROC_MIN_WINDOW);
    (sat_sub(now, window), sat_sub(now, sat_double(window)))
}

/// Whether a rule is broken, and the value to report: with a rate of change, the change; it is
/// not broken where nothing is known of the past.
pub open spec fn judged(
    comparator: Seq<char>,
    threshold: Measure,
    value: Measure,
    change: Option<Measure>,
) -> (bool, Measure) {
    if comparator == "roc"@ {
        match change {
            Some(d) => (threshold.at_most(d.unsigned()), d),
            None => (false, Measure { bits: 0 }),
        }
    } else if comparator == "gt"@ {
        (threshold.below(value), value)
    } else if comparator == "lt"@ {
        (value.below(threshold), value)
    } else if comparator == "gte"@ {
        (threshold.at_most(value), value)
    } else if comparator == "lte"@ {
        (value.at_most(threshold), value)
    } else {
        (false, value)
    }
}

/// Whether `value` breaks the rule, and the value to report. `change` is the difference to the
/// past value, where one is known.
pub fn judge(rule: &RuleLite, value: Measure, change: Option<Measure>) -> (r: (bool, Measure))
    ensures
        r == judged(rule.comparator@, rule.threshold, value, change),
{
    let c = rule.comparator.as_str();
    if same(c, "roc") {
        match change {
            Some(d) => (rule.threshold.le(d.abs()), d),
            None => (false, Measure { bits: 0 }),
        }
    } else if same(c, "gt") {
        (rule.threshold.lt(value), value)
    } else if same(c, "lt") {
        (value.lt(rule.threshold), value)
    } else if same(c, "gte") {
        (rule.threshold.le(value), value)
    } else if same(c, "lte") {
        (value.le(rule.threshold), value)
    } else {
        (false, value)
    }
}

/// The silence of a node, in seconds: as long as can be where it was never heard.
pub open spec fn silence_secs(last_seen: Option<i64>, now: i64) -> i64 {
    match last_seen {
        Some(ls) => nearest_i64(now - ls),
        None => i64::MAX,
    }
}

/// Whether the silence of a node breaks a rule, and the silence in seconds as it is reported (at
/// most what 32 bits hold).
pub fn judge_silence(rule: &RuleLite, last_seen: Option<i64>, now: i64) -> (r: (bool, i64))
    ensures
        r.0 == (silence_secs(last_seen, now) > larger(rule.duration_secs, OFFLINE_MIN_GRACE)),
        r.1 == if silence_secs(last_seen, now) <= u32::MAX {
            silence_secs(last_seen, now)
        } else {
            u32::MAX as i64
        },
        last_seen matches Some(t) && 0 <= t && 0 <= now ==> (r.0 <==> now - (last_seen->0) > 60 && now
            - (last_seen->0) > rule.duration_secs),
        last_seen is None && rule.duration_secs < i64::MAX ==> r.0,
{
    let grace: i64 = max_i64(rule.duration_secs, OFFLINE_MIN_GRACE);
    let secs: i64 = match last_seen {
        Some(ls) => sat_sub(now, ls),
        None => i64::MAX,
    };
    let shown: i64 = if secs <= u32::MAX as i64 {
        secs
    } else {
        u32::MAX as i64
    };
    (secs > grace, shown)
}

/// What a report, or its absence, means for one rule and one node.
#[derive(Debug, Clone, Copy, PartialEq, Eq, Structural)]
pub struct Turn {
    /// The position of the rule.
    pub rule: usize,
    pub node_id: i64,
    pub step: Step,
    /// The value to report.
    pub value: Measure,
}

/// The turns with one more, where something follows from it.
pub open spec fn with_turn(turns: Seq<Turn>, t: Turn) -> Seq<Turn> {
    if t.step == Step::Stay {
        turns
    } else {
        turns.push(t)
    }
}

/// Where the rules stand, and what follows, after the first `n` of them looked at a report of a node.
pub open spec fn after_report(
    m: Map<(i64, i64), Breach>,
    rules: Seq<RuleLite>,
    n: int,
    node_id: i64,
    reading: spec_fn(Seq<char>) -> Option<Measure>,
    changes: Seq<Option<Measure>>,
    now: i64,
) -> (Map<(i64, i64), Breach>, Seq<Turn>)
    decreases n,
{
    if n <= 0 {
        (m, Seq::empty())
    } else {
        let (m1, turns) = after_report(m, rules, n - 1, node_id, reading, changes, now);
        let r = rules[n - 1];
        match reading(r.metric@) {
            Some(value) => if watched(r, node_id, false) {
                let (breaching, reported) = judged(r.comparator@, r.threshold, value, changes[n - 1]);
                let (b, step) = advanced(
                    standing(m1, (r.id, node_id)),
                    false,
                    breaching,
                    r.duration_secs,
                    now,
                );
                (
                    m1.insert((r.id, node_id), b),
                    with_turn(
                        turns,
                        Turn { rule: (n - 1) as usize, node_id, step, value: reported },
                    ),
                )
            } else {
                (m1, turns)
            },
            None => (m1, turns),
        }
    }
}

/// What a report says of each metric.
pub open spec fn readings(v: MetricsView, disk_total: i64, p: Shares) -> spec_fn(
    Seq<char>,
) -> Option<Measure> {
    |name: Seq<char>| metric_reading(name, v, disk_total, p)
}

/// Where the rules stand, and what follows, after the first `n` of them looked at how long a node has
/// been silent. `value` is the value to report.
pub open spec fn after_silence(
    m: Map<(i64, i64), Breach>,
    rules: Seq<RuleLite>,
    n: int,
    node_id: i64,
    last_seen: Option<i64>,
    value: Measure,
    now: i64,
) -> (Map<(i64, i64), Breach>, Seq<Turn>)
    decreases n,
{
    if n <= 0 {
        (m, Seq::empty())
    } else {
        let (m1, turns) = after_silence(m, rules, n - 1, node_id, last_seen, value, now);
        let r = rules[n - 1];
        if watched(r, node_id, true) {
            let (b, step) = advanced(
                standing(m1, (r.id, node_id)),
                true,
                silence_secs(last_seen, now) > larger(r.duration_secs, OFFLINE_MIN_GRACE),
                OFFLINE_CONFIRM_SECS,
                now,
            );
            (
                m1.insert((r.id, node_id), b),
                with_turn(turns, Turn { rule: (n - 1) as usize, node_id, step, value }),
            )
        } else {
            (m1, turns)
        }
    }
}

impl AlertRuntime {
    /// Holds a report of a node against all rules that watch reports. `p` are the shares of the report,
    /// `changes` the difference to the past value for each rule, where one is known.
    pub fn on_metrics(
        &mut self,
        rules: &[RuleLite],
        node_id: i64,
        m: &Metrics,
        disk_total: i64,
        p: &Shares,
        changes: &[Option<Measure>],
        now: i64,
    ) -> (r: Vec<Turn>)
        requires
            old(self).wf(),
            rules@.len() == changes@.len(),
            p.disks@.len() == m.disks@.len(),
            p.inodes@.len() == m.disks@.len(),
        ensures
            final(self).wf(),
            (final(self)@, r@) == after_report(
                old(self)@,
                rules@,
                rules@.len() as int,
                node_id,
                readings(m@, disk_total, *p),
                changes@,
                now,
            ),
    {
        let mut turns: Vec<Turn> = Vec::new();
        let ghost start = self@;
        let ghost reading = readings(m@, disk_total, *p);
        let mut i: usize = 0;
        while i < rules.len()
            invariant
                self.wf(),
                reading == readings(m@, disk_total, *p),
                rules@.len() == changes@.len(),
                p.disks@.len() == m.disks@.len(),
                p.inodes@.len() == m.disks@.len(),
                i <= rules@.len(),
                (self@, turns@) == after_report(
                    start,
                    rules@,
                    i as int,
                    node_id,
                    reading,
                    changes@,
                    now,
                ),
            decreases rules@.len() - i,
        {
            let rule = &rules[i];
            if !same(rule.metric.as_str(), "offline") && rule_applies(rule, node_id) {
                if let Some(value) = metric_value(rule.metric.as_str(), m, disk_total, p) {
                    let (breaching, reported) = judge(rule, value, changes[i]);
                    let step = self.transition(rule, node_id, breaching, rule.duration_secs, now);
                    match step {
                        Step::Stay => {},
                        _ => {
                            turns.push(Turn { rule: i, node_id, step, value: reported });
                        },
                    }
                }
            }
            i = i + 1;
        }
        turns
    }

    /// Holds the silence of a node against all rules that watch for it. `value` is the silence in
    /// seconds, to be reported.
    pub fn on_silence(
        &mut self,
        rules: &[RuleLite],
        node_id: i64,
        last_seen: Option<i64>,
        value: Measure,
        now: i64,
    ) -> (r: Vec<Turn>)
        requires
            old(self).wf(),
        ensures
            final(self).wf(),
            (final(self)@, r@) == after_silence(
                old(self)@,
                rules@,
                rules@.len() as int,
                node_id,
                last_seen,
                value,
                now,
            ),
    {
        let mut turns: Vec<Turn> = Vec::new();
        let ghost start = self@;
        let mut i: usize = 0;
        while i < rules.len()
            invariant
                self.wf(),
                i <= rules@.len(),
                (self@, turns@) == after_silence(
                    start,
                    rules@,
                    i as int,
                    node_id,
                    last_seen,
                    value,
                    now,
                ),
            decreases rules@.len() - i,
        {
            let rule = &rules[i];
            if same(rule.metric.as_str(), "offline") && rule_applies(rule, node_id) {
                let (breaching, secs): (bool, i64) = judge_silence(rule, last_seen, now);
                let step = self.transition(rule, node_id, breaching, OFFLINE_CONFIRM_SECS, now);
                match step {
                    Step::Stay => {},
                    _ => {
                        turns.push(Turn { rule: i, node_id, step, value });
                    },
                }
            }
            i = i + 1;
        }
        turns
    }
}

/// A window of time in which alerts are not sent.
#[derive(Debug, Clone, Copy)]
pub struct Silence {
    pub start_ts: i64,
    pub end_ts: i64,
    /// The node that it is for; every node where there is none.
    pub node_id: Option<i64>,
    /// The rule that it is for; every rule where there is none.
    pub rule_id: Option<i64>,
}

/// The window covers the node and the rule at the time `now`.
pub open spec fn covers(s: Silence, node_id: i64, rule_id: i64, now: i64) -> bool {
    s.start_ts <= now < s.end_ts && (s.node_id is None || s.node_id == Some(node_id)) && (
    s.rule_id is None || s.rule_id == Some(rule_id))
}

/// Whether some window covers the node and the rule at the time `now`.
pub fn is_silenced(silences: &[Silence], node_id: i64, rule_id: i64, now: i64) -> (r: bool)
    ensures
        r == exists|i: int|
            0 <= i < silences@.len() && covers(#[trigger] silences@[i], node_id, rule_id, now),
{
    let mut i: usize = 0;
    while i < silences.len()
        invariant
            i <= silences@.len(),
            forall|j: int|
                0 <= j < i ==> !covers(#[trigger] silences@[j], node_id, rule_id, now),
        decreases silences@.len() - i,
    {
        let s = silences[i];
        let node = match s.node_id {
            None => true,
            Some(n) => n == node_id,
        };
        let rule = match s.rule_id {
            None => true,
            Some(n) => n == rule_id,
        };
        if s.start_ts <= now && now < s.end_ts && node && rule {
            assert(covers(silences@[i as int], node_id, rule_id, now));
            return true;
        }
        i = i + 1;
    }
    false
}

// ---------------------------------------------------------------------------
// What is said
// ---------------------------------------------------------------------------

/// What a metric is called.
pub open spec fn label_of(m: Seq<char>) -> Seq<char> {
    if m == "cpu_pct"@ {
        "CPU 使用率"@
    } else if m == "mem_pct"@ {
        "内存使用率"@
    } else if m == "disk_pct"@ {
        "磁盘使用率"@
    } else if m == "swap_pct"@ {
        "Swap 使用率"@
    } else if m == "load1"@ {
        "1 分钟负载"@
    } else if m == "cpu_temp"@ {
        "CPU 温度(℃)"@
    } else if m == "tcp_conns"@ {
        "TCP 连接数"@
    } else if m == "inode_pct"@ {
        "inode 使用率"@
    } else if m == "services_down"@ {
        "异常服务数"@
    } else if m == "offline"@ {
        "在线状态"@
    } else {
        "指标"@
    }
}

/// What a metric is called.
pub fn metric_label(m: &str) -> (r: &'static str)
    ensures
        r@ == label_of(m@),
{
    if same(m, "cpu_pct") {
        "CPU 使用率"
    } else if same(m, "mem_pct") {
        "内存使用率"
    } else if same(m, "disk_pct") {
        "磁盘使用率"
    } else if same(m, "swap_pct") {
        "Swap 使用率"
    } else if same(m, "load1") {
        "1 分钟负载"
    } else if same(m, "cpu_temp") {
        "CPU 温度(℃)"
    } else if same(m, "tcp_conns") {
        "TCP 连接数"
    } else if same(m, "inode_pct") {
        "inode 使用率"
    } else if same(m, "services_down") {
        "异常服务数"
    } else if same(m, "offline") {
        "在线状态"
    } else {
        "指标"
    }
}

/// The numbers of a message, written with one decimal.
#[derive(Debug)]
pub struct ValueTexts {
    /// The value.
    pub value: String,
    /// The value, with a sign in any case.
    pub signed: String,
    /// The threshold of the rule.
    pub threshold: String,
}

/// A span of time as a message gives it.
pub open spec fn span_text(w: i64) -> Seq<char> {
    if w < 60 {
        decimal_int(w as int) + " 秒"@
    } else {
        decimal_int(w as int / 60) + " 分钟"@
    }
}

/// What a message says of an alert that begins (`firing`) or ends.
pub open spec fn message(rule: RuleLite, t: ValueTexts, firing: bool) -> Seq<char> {
    let name = rule.name@ + ")"@;
    let label = label_of(rule.metric@);
    if rule.metric@ == "offline"@ {
        if firing {
            "节点离线(规则:"@ + name
        } else {
            "节点恢复在线(规则:"@ + name
        }
    } else if rule.comparator@ == "roc"@ {
        if firing {
            label + " 在 "@ + span_text(roc_window(rule)) + " 内变化 "@ + t.signed@ + "(阈值 ±"@
                + t.threshold@ + ";规则:"@ + name
        } else {
            label + " 变化已恢复平稳(规则:"@ + name
        }
    } else if firing {
        label + " "@ + t.value@ + (if rule.comparator@ == "lt"@ || rule.comparator@ == "lte"@ {
            " 低于阈值 "@
        } else {
            " 高于阈值 "@
        }) + t.threshold@ + "(规则:"@ + name
    } else {
        label + " 已恢复:"@ + t.value@ + "(规则:"@ + name
    }
}

fn show_span(w: i64) -> (r: String)
    ensures
        r@ == span_text(w),
{
    if w < 60 {
        let mut s = show_i64(w);
        s.append(" 秒");
        s
    } else {
        let mut s = show_i64(w / 60);
        s.append(" 分钟");
        s
    }
}

/// The message about an alert that begins (`firing`) or ends.
pub fn format_message(rule: &RuleLite, t: &ValueTexts, firing: bool) -> (r: String)
    ensures
        r@ == message(*rule, *t, firing),
{
    let label = metric_label(rule.metric.as_str());
    let mut s: String;
    if same(rule.metric.as_str(), "offline") {
        s = (if firing {
            "节点离线(规则:"
        } else {
            "节点恢复在线(规则:"
        }).to_string();
    } else if same(rule.comparator.as_str(), "roc") {
        s = label.to_string();
        if firing {
            let span = show_span(max_i64(rule.roc_window_secs, ROC_MIN_WINDOW));
            s.append(" 在 ");
            s.append(span.as_str());
            s.append(" 内变化 ");
            s.append(t.signed.as_str());
            s.append("(阈值 ±");
            s.append(t.threshold.as_str());
            s.append(";规则:");
        } else {
            s.append(" 变化已恢复平稳(规则:");
        }
    } else {
        s = label.to_string();
        if firing {
            let low = same(rule.comparator.as_str(), "lt") || same(rule.comparator.as_str(), "lte");
            s.append(" ");
            s.append(t.value.as_str());
            s.append(
                if low {
                    " 低于阈值 "
                } else {
                    " 高于阈值 "
                },
            );
            s.append(t.threshold.as_str());
            s.append("(规则:");
        } else {
            s.append(" 已恢复:");
            s.append(t.value.as_str());
            s.append("(规则:");
        }
    }
    let ghost body = s@;
    s.append(rule.name.as_str());
    s.append(")");
    assert(s@ =~= body + (rule.name@ + ")"@));
    s
}

/// The text that the channels get about an alert that begins (`firing`) or ends.
pub fn alert_text(node_name: &str, body: &str, firing: bool) -> (r: String)
    ensures
        r@ == (if firing {
            "🔴 [告警] 节点 "@
        } else {
            "🟢 [恢复] 节点 "@
        }) + node_name@ + " · "@ + body@,
        crate::text::ends_with(r@, node_name@ + " · "@ + body@),
{
    let mut s = (if firing {
        "🔴 [告警] 节点 "
    } else {
        "🟢 [恢复] 节点 "
    }).to_string();
    s.append(node_name);
    s.append(" · ");
    s.append(body);
    proof {
        let e = node_name@ + " · "@ + body@;
        assert(s@.skip(s@.len() - e.len()) =~= e);
    }
    s
}

/// The text that the channels get about an alert that still stands.
pub fn renotify_text(node_name: &str, body: &str) -> (r: String)
    ensures
        r@ == "🔴 [持续告警] 节点 "@ + node_name@ + " · "@ + body@,
        crate::text::ends_with(r@, node_name@ + " · "@ + body@),
{
    let mut s = "🔴 [持续告警] 节点 ".to_string();
    s.append(node_name);
    s.append(" · ");
    s.append(body);
    proof {
        let e = node_name@ + " · "@ + body@;
        assert(s@.skip(s@.len() - e.len()) =~= e);
    }
    s
}

/// The time up to which an alert must have been told last to be told again; `None` where alerts
/// are not told again.
pub fn renotify_cutoff(secs: i64, now: i64) -> (r: Option<i64>)
    ensures
        r == if secs <= 0 {
            None::<i64>
        } else {
            Some(nearest_i64(now - secs))
        },
        0 < secs && 0 <= now ==> (r matches Some(at) && at + secs == now),
{
    if secs <= 0 {
        None
    } else {
        Some(sat_sub(now, secs))
    }
}

// ---------------------------------------------------------------------------
// Who is told, and how
// ---------------------------------------------------------------------------

/// The FNV-1a hash of some bytes.
pub open spec fn fnv(b: Seq<u8>) -> u64
    decreases b.len(),
{
    if b.len() == 0 {
        0xcbf2_9ce4_8422_2325
    } else {
        (fnv(b.drop_last()) ^ (b.last() as u64)).wrapping_mul(0x100_0000_01b3)
    }
}

/// A short stand-in for a text, by which repetitions are found.
pub fn text_hash(s: &str) -> (h: u64)
    ensures
        h == fnv(encode_utf8(s@)),
{
    let b = s.as_bytes();
    let mut h: u64 = 0xcbf2_9ce4_8422_2325;
    let mut i: usize = 0;
    assert(b@.take(0) =~= Seq::<u8>::empty());
    while i < b.len()
        invariant
            i <= b@.len(),
            h == fnv(b@.take(i as int)),
        decreases b@.len() - i,
    {
        assert(b@.take(i + 1).drop_last() =~= b@.take(i as int));
        h = (h ^ (b[i] as u64)).wrapping_mul(0x100_0000_01b3);
        i = i + 1;
    }
    assert(b@.take(i as int) =~= b@);
    h
}

/// A channel that messages go to.
#[derive(Debug)]
pub struct Channel {
    pub id: i64,
    pub kind: String,
    pub url: String,
    pub extra: String,
    /// The lowest severity that the channel is for.
    pub min_severity: String,
}

/// What was sent to which channel, and when last.
pub struct NotifyThrottle {
    sent: Table<(i64, u64), i64>,
}

impl View for NotifyThrottle {
    type V = Map<(i64, u64), i64>;

    closed spec fn view(&self) -> Map<(i64, u64), i64> {
        self.sent@
    }
}

/// What is remembered at the time `now`: everything, or the last hour where there is much.
pub open spec fn fresh(m: Map<(i64, u64), i64>, now: i64) -> Map<(i64, u64), i64> {
    if m.len() > NOTIFY_MEMORY {
        retained(m, |k: (i64, u64), t: i64| nearest_i64(now - t) < NOTIFY_MEMORY_SECS)
    } else {
        m
    }
}

/// The text was sent to the channel so recently that it is not sent again.
pub open spec fn repeated_soon(m: Map<(i64, u64), i64>, key: (i64, u64), now: i64) -> bool {
    m.contains_key(key) && nearest_i64(now - m[key]) < NOTIFY_DEDUP_SECS
}

/// What is remembered after a message was weighed, and whether it is sent.
pub open spec fn admitted(m: Map<(i64, u64), i64>, key: (i64, u64), now: i64) -> (
    Map<(i64, u64), i64>,
    bool,
) {
    let f = fresh(m, now);
    if repeated_soon(f, key, now) {
        (f, false)
    } else {
        (f.insert(key, now), true)
    }
}

struct Recent {
    now: i64,
}

impl Filter<(i64, u64), i64> for Recent {
    closed spec fn keeps(&self, k: (i64, u64), t: i64) -> bool {
        nearest_i64(self.now - t) < NOTIFY_MEMORY_SECS
    }

    fn keep(&self, k: &(i64, u64), t: &i64) -> (r: bool) {
        sat_sub(self.now, *t) < NOTIFY_MEMORY_SECS
    }
}

/// The channels before position `n` that a text of the severity `rank` goes to, and what is
/// remembered then.
pub open spec fn planned(
    m: Map<(i64, u64), i64>,
    channels: Seq<Channel>,
    rank: u8,
    hash: u64,
    now: i64,
    n: int,
) -> (Map<(i64, u64), i64>, Seq<usize>)
    decreases n,
{
    if n <= 0 {
        (m, Seq::empty())
    } else {
        let (m1, chosen) = planned(m, channels, rank, hash, now, n - 1);
        let ch = channels[n - 1];
        if severity_rank(ch.min_severity@) > rank {
            (m1, chosen)
        } else {
            let (m2, sent) = admitted(m1, (ch.id, hash), now);
            (
                m2,
                if sent {
                    chosen.push((n - 1) as usize)
                } else {
                    chosen
                },
            )
        }
    }
}

impl NotifyThrottle {
    /// No channel and text stand twice.
    pub closed spec fn wf(&self) -> bool {
        self.sent.wf()
    }

    /// Nothing was sent.
    pub fn new() -> (r: Self)
        ensures
            r.wf(),
            r@ == Map::<(i64, u64), i64>::empty(),
    {
        NotifyThrottle { sent: Table::new() }
    }

    /// Whether a text with the given hash is sent to a channel: not where it was sent there less
    /// than a minute ago.
    pub fn weigh(&mut self, channel: i64, hash: u64, now: i64) -> (sent: bool)
        requires
            old(self).wf(),
        ensures
            final(self).wf(),
            sent == admitted(old(self)@, (channel, hash), now).1,
            final(self)@ == admitted(old(self)@, (channel, hash), now).0,
    {
        let ghost m = self@;
        if self.sent.len() > NOTIFY_MEMORY {
            self.sent.retain(&Recent { now });
            assert(self@ =~= fresh(m, now));
        }
        let key = (channel, hash);
        let soon = match self.sent.get(&key) {
            Some(t) => sat_sub(now, *t) < NOTIFY_DEDUP_SECS,
            None => false,
        };
        if soon {
            false
        } else {
            self.sent.insert(key, now);
            true
        }
    }

    /// The positions of the channels that a text of the given severity goes to: those that are
    /// for that severity and did not just get the same text.
    pub fn notify_all(
        &mut self,
        channels: &[Channel],
        text: &str,
        severity: &str,
        now: i64,
    ) -> (r: Vec<usize>)
        requires
            old(self).wf(),
        ensures
            final(self).wf(),
            (final(self)@, r@) == planned(
                old(self)@,
                channels@,
                severity_rank(severity@),
                fnv(encode_utf8(text@)),
                now,
                channels@.len() as int,
            ),
            forall|k: int| 0 <= k < r@.len() ==> #[trigger] r@[k] < channels@.len(),
    {
        let rank: u8 = sev_rank(severity);
        let hash: u64 = text_hash(text);
        let mut out: Vec<usize> = Vec::new();
        let mut i: usize = 0;
        let ghost m = self@;
        while i < channels.len()
            invariant
                self.wf(),
                i <= channels@.len(),
                (self@, out@) == planned(m, channels@, rank, hash, now, i as int),
                forall|k: int| 0 <= k < out@.len() ==> #[trigger] out@[k] < i,
            decreases channels@.len() - i,
        {
            if sev_rank(channels[i].min_severity.as_str()) <= rank {
                if self.weigh(channels[i].id, hash, now) {
                    out.push(i);
                }
            }
            i = i + 1;
        }
        out
    }
}

/// A text that was just sent to a channel is not sent there again within the minute, however
/// much is remembered.
pub proof fn lemma_no_repetition(m: Map<(i64, u64), i64>, key: (i64, u64), now: i64, later: i64)
    requires
        0 <= now <= later < now + NOTIFY_DEDUP_SECS,
        admitted(m, key, now).1,
    ensures
        !admitted(admitted(m, key, now).0, key, later).1,
{
}

/// The host (and port) in the address of a webhook, or nothing where it is no `https` address.
pub open spec fn webhook_host(url: Seq<char>) -> Seq<char> {
    if starts_with(url, "https://"@) {
        crate::text::before(url.skip("https://"@.len() as int), '/')
    } else {
        ""@
    }
}

/// The body of a message to a webhook, in the form that its host asks for.
pub open spec fn payload_for(url: Seq<char>, text: Seq<char>) -> Seq<char> {
    let host = webhook_host(url);
    if contains(host, "feishu"@) || contains(host, "larksuite"@) {
        "{\"content\":{\"text\":"@ + json_quoted(text) + "},\"msg_type\":\"text\"}"@
    } else if contains(host, "dingtalk"@) || contains(host, "qyapi.weixin"@) {
        "{\"msgtype\":\"text\",\"text\":{\"content\":"@ + json_quoted(text) + "}}"@
    } else {
        "{\"text\":"@ + json_quoted(text) + "}"@
    }
}

fn wrap(head: &str, body: &str, tail: &str) -> (r: String)
    ensures
        r@ == head@ + body@ + tail@,
{
    let mut s = head.to_string();
    s.append(body);
    s.append(tail);
    s
}

/// The body of a message to a webhook.
pub fn webhook_payload(url: &str, text: &str) -> (r: String)
    ensures
        r@ == payload_for(url@, text@),
{
    let v = chars_of(url);
    let empty: Vec<char> = Vec::new();
    proof {
        reveal_strlit("");
    }
    assert(empty@ =~= ""@);
    let host = match strip_prefix(v.as_slice(), "https://") {
        Some(rest) => take_before(rest, '/'),
        None => empty.as_slice(),
    };
    let quoted = json_string(text);
    if has_substring(host, "feishu") || has_substring(host, "larksuite") {
        wrap("{\"content\":{\"text\":", quoted.as_str(), "},\"msg_type\":\"text\"}")
    } else if has_substring(host, "dingtalk") || has_substring(host, "qyapi.weixin") {
        wrap("{\"msgtype\":\"text\",\"text\":{\"content\":", quoted.as_str(), "}}")
    } else {
        wrap("{\"text\":", quoted.as_str(), "}")
    }
}

/// How a text is handed to a channel.
#[derive(Debug)]
pub enum Delivery {
    /// A `POST` of a JSON body.
    Post { url: String, body: String },
    /// A mail, by the settings of the channel.
    Mail,
}

/// The view of a [`Delivery`].
pub enum DeliveryView {
    Post { url: Seq<char>, body: Seq<char> },
    Mail,
}

impl View for Delivery {
    type V = DeliveryView;

    open spec fn view(&self) -> DeliveryView {
        match *self {
            Delivery::Post { url, body } => DeliveryView::Post { url: url@, body: body@ },
            Delivery::Mail => DeliveryView::Mail,
        }
    }
}

/// The target of a Telegram message in JSON: a number where it is one, a string otherwise.
pub open spec fn chat_json(extra: Seq<char>) -> Seq<char> {
    if extra.len() > 0 && extra[0] == '@' {
        json_quoted(extra)
    } else {
        match parsed_i64(extra) {
            Some(n) => decimal_int(n as int),
            None => json_quoted(extra),
        }
    }
}

/// How a text is handed to a channel of a kind, or why it is not.
pub open spec fn delivery_of(
    kind: Seq<char>,
    url: Seq<char>,
    extra: Seq<char>,
    text: Seq<char>,
) -> Result<DeliveryView, Seq<char>> {
    if kind == "webhook"@ {
        Ok(DeliveryView::Post { url, body: payload_for(url, text) })
    } else if kind == "telegram"@ {
        if telegram_token(url) {
            Ok(
                DeliveryView::Post {
                    url: "https://api.telegram.org/bot"@ + url + "/sendMessage"@,
                    body: "{\"chat_id\":"@ + chat_json(extra) + ",\"text\":"@ + json_quoted(text)
                        + "}"@,
                },
            )
        } else {
            Err("Telegram token 形态非法"@)
        }
    } else if kind == "bark"@ {
        Ok(
            DeliveryView::Post {
                url,
                body: "{\"body\":"@ + json_quoted(text) + ",\"title\":\"Outpost\"}"@,
            },
        )
    } else if kind == "smtp"@ {
        Ok(DeliveryView::Mail)
    } else {
        Err("未知渠道类型"@)
    }
}

fn show_chat(extra: &str) -> (r: String)
    ensures
        r@ == chat_json(extra@),
{
    let v = chars_of(extra);
    if v.len() > 0 && v[0] == '@' {
        return json_string(extra);
    }
    match parse_i64(v.as_slice()) {
        Some(n) => show_i64(n),
        None => json_string(extra),
    }
}

/// How a text is handed to a channel, or why it is not.
pub fn send_one(kind: &str, url: &str, extra: &str, text: &str) -> (r: Result<
    Delivery,
    &'static str,
>)
    ensures
        r is Ok <==> delivery_of(kind@, url@, extra@, text@) is Ok,
        r matches Ok(d) ==> delivery_of(kind@, url@, extra@, text@) == Ok::<
            DeliveryView,
            Seq<char>,
        >(d@),
        r matches Err(e) ==> delivery_of(kind@, url@, extra@, text@) == Err::<
            DeliveryView,
            Seq<char>,
        >(e@),
{
    if same(kind, "webhook") {
        Ok(Delivery::Post { url: url.to_string(), body: webhook_payload(url, text) })
    } else if same(kind, "telegram") {
        if !valid_telegram_token(url) {
            return Err("Telegram token 形态非法");
        }
        let endpoint = wrap("https://api.telegram.org/bot", url, "/sendMessage");
        let chat = show_chat(extra);
        let quoted = json_string(text);
        let mut body = wrap("{\"chat_id\":", chat.as_str(), ",\"text\":");
        body.append(quoted.as_str());
        body.append("}");
        Ok(Delivery::Post { url: endpoint, body })
    } else if same(kind, "bark") {
        let quoted = json_string(text);
        Ok(
            Delivery::Post {
                url: url.to_string(),
                body: wrap("{\"body\":", quoted.as_str(), ",\"title\":\"Outpost\"}"),
            },
        )
    } else if same(kind, "smtp") {
        Ok(Delivery::Mail)
    } else {
        Err("未知渠道类型")
    }
}

/// Whether the answer to a message says that it was taken: a status from 200 to 299.
pub fn delivered(status: u16) -> (r: bool)
    ensures
        r == (200 <= status < 300),
{
    200 <= status && status < 300
}

} // verus!
