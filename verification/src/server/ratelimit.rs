//! How often a client may ask, and for how long it is turned away after failed logins. Kept in
//! memory.

use crate::ip::IpAddr;
use crate::num::{nearest_i64, sat_add};
use crate::table::{retained, Filter, Key, Table};
use crate::text::same;
use vstd::arithmetic::power2::{lemma2_to64, pow2};
use vstd::prelude::*;

verus! {

/// The kinds of requests, each with a limit of its own.
#[derive(Debug, Clone, Copy, PartialEq, Eq, Structural)]
pub enum Class {
    /// Logins and the first setup: ten a minute.
    Login,
    /// Registrations of agents: twelve a minute.
    Register,
    /// Everything else: 240 a minute.
    Api,
    /// New WebSocket connections: thirty a minute.
    Ws,
}

impl View for IpAddr {
    type V = IpAddr;

    open spec fn view(&self) -> IpAddr {
        *self
    }
}

impl View for Class {
    type V = Class;

    open spec fn view(&self) -> Class {
        *self
    }
}

impl Key for (IpAddr, Class) {
    fn same(&self, other: &Self) -> (b: bool) {
        self.0 == other.0 && self.1 == other.1
    }
}

impl Key for (IpAddr, String) {
    fn same(&self, other: &Self) -> (b: bool) {
        self.0 == other.0 && same(self.1.as_str(), other.1.as_str())
    }
}

/// The most clients that are remembered.
pub const MAX_ENTRIES: usize = 10_000;

/// For how long an idle client is remembered once there are many, in nanoseconds.
pub const IDLE_NANOS: u64 = 600_000_000_000;

/// One request, in the unit that allowances are counted in: so many nanoseconds make a minute.
pub const TOKEN: u64 = 60_000_000_000;

/// The number of requests a minute, which is also the most in one burst.
pub open spec fn capacity(c: Class) -> u64 {
    match c {
        Class::Login => 10,
        Class::Register => 12,
        Class::Api => 240,
        Class::Ws => 30,
    }
}

impl Class {
    /// The number of requests a minute, which is also the most in one burst.
    pub fn params(self) -> (r: u64)
        ensures
            r == capacity(self),
    {
        match self {
            Class::Login => 10,
            Class::Register => 12,
            Class::Api => 240,
            Class::Ws => 30,
        }
    }
}

/// What a client may still ask for, and when that was worked out.
#[derive(Debug, Clone, Copy, PartialEq, Eq, Structural)]
pub struct Bucket {
    pub tokens: u64,
    pub last: u64,
}

/// The time that passed, in nanoseconds; nothing where the clock seems to go back.
pub open spec fn since(last: u64, now: u64) -> int {
    if now >= last {
        now - last
    } else {
        0
    }
}

/// What a client may ask for at the time `now`: `cap` requests a minute were added, up to `cap`.
pub open spec fn refilled(b: Bucket, cap: u64, now: u64) -> int {
    if b.tokens + cap * since(b.last, now) <= cap * TOKEN {
        b.tokens + cap * since(b.last, now)
    } else {
        cap * TOKEN
    }
}

/// What is left after a request at the time `now`, and whether it is let through.
pub open spec fn spent(b: Bucket, cap: u64, now: u64) -> (Bucket, bool) {
    let t = refilled(b, cap, now);
    if t >= TOKEN {
        (Bucket { tokens: (t - TOKEN) as u64, last: now }, true)
    } else {
        (Bucket { tokens: t as u64, last: now }, false)
    }
}

/// The clients that are remembered at the time `now`: where there are too many, only those that
/// asked in the last ten minutes, or none.
pub open spec fn remembered(m: Map<(IpAddr, Class), Bucket>, now: u64) -> Map<
    (IpAddr, Class),
    Bucket,
> {
    if m.len() > MAX_ENTRIES {
        let r = retained(m, |k: (IpAddr, Class), b: Bucket| since(b.last, now) < IDLE_NANOS);
        if r.len() > MAX_ENTRIES {
            Map::empty()
        } else {
            r
        }
    } else {
        m
    }
}

/// The allowance of a client; a full one where nothing is remembered.
pub open spec fn allowance(m: Map<(IpAddr, Class), Bucket>, key: (IpAddr, Class), now: u64) -> Bucket {
    if m.contains_key(key) {
        m[key]
    } else {
        Bucket { tokens: (capacity(key.1) * TOKEN) as u64, last: now }
    }
}

/// No client has a larger allowance than it can have.
pub open spec fn within_capacity(m: Map<(IpAddr, Class), Bucket>) -> bool {
    forall|k: (IpAddr, Class)| #[trigger]
        m.contains_key(k) ==> m[k].tokens <= capacity(k.1) * TOKEN
}

struct AskedLately {
    now: u64,
}

impl Filter<(IpAddr, Class), Bucket> for AskedLately {
    closed spec fn keeps(&self, k: (IpAddr, Class), b: Bucket) -> bool {
        since(b.last, self.now) < IDLE_NANOS
    }

    fn keep(&self, k: &(IpAddr, Class), b: &Bucket) -> (r: bool) {
        self.now.saturating_sub(b.last) < IDLE_NANOS
    }
}

/// Limits how often a client may ask.
pub struct RateLimiter {
    buckets: Table<(IpAddr, Class), Bucket>,
}

impl View for RateLimiter {
    type V = Map<(IpAddr, Class), Bucket>;

    closed spec fn view(&self) -> Map<(IpAddr, Class), Bucket> {
        self.buckets@
    }
}

impl RateLimiter {
    /// No client stands twice, and none has a larger allowance than it can have.
    pub closed spec fn wf(&self) -> bool {
        self.buckets.wf() && within_capacity(self.buckets@)
    }

    /// Nobody has asked.
    pub fn new() -> (r: Self)
        ensures
            r.wf(),
            r@ == Map::<(IpAddr, Class), Bucket>::empty(),
    {
        RateLimiter { buckets: Table::new() }
    }

    /// Whether a request is let through. `now` is the time in nanoseconds of a clock that does
    /// not go back.
    pub fn check(&mut self, ip: IpAddr, class: Class, now: u64) -> (ok: bool)
        requires
            old(self).wf(),
        ensures
            final(self).wf(),
            ok == spent(
                allowance(remembered(old(self)@, now), (ip, class), now),
                capacity(class),
                now,
            ).1,
            final(self)@ == remembered(old(self)@, now).insert(
                (ip, class),
                spent(
                    allowance(remembered(old(self)@, now), (ip, class), now),
                    capacity(class),
                    now,
                ).0,
            ),
    {
        let ghost m = self@;
        if self.buckets.len() > MAX_ENTRIES {
            self.buckets.retain(&AskedLately { now });
            proof {
                assert(self@ =~= retained(
                    m,
                    |k: (IpAddr, Class), b: Bucket| since(b.last, now) < IDLE_NANOS,
                ));
            }
            if self.buckets.len() > MAX_ENTRIES {
                self.buckets.clear();
            }
        }
        assert(self@ =~= remembered(m, now));
        let cap: u64 = class.params();
        let key = (ip, class);
        let b: Bucket = match self.buckets.get(&key) {
            Some(b) => *b,
            None => Bucket { tokens: cap * TOKEN, last: now },
        };
        assert(b == allowance(remembered(m, now), (ip, class), now));
        assert(b.tokens <= cap * TOKEN);
        let dt: u64 = now.saturating_sub(b.last);
        let full: u128 = (cap * TOKEN) as u128;
        assert((cap as u128) * (dt as u128) <= 240 * u64::MAX) by (nonlinear_arith)
            requires
                cap <= 240,
                dt <= u64::MAX,
        ;
        let sum: u128 = (b.tokens as u128) + (cap as u128) * (dt as u128);
        let t: u64 = if sum <= full {
            sum as u64
        } else {
            full as u64
        };
        assert(t == refilled(b, cap, now));
        let ok = t >= TOKEN;
        let left: u64 = if ok {
            t - TOKEN
        } else {
            t
        };
        self.buckets.insert(key, Bucket { tokens: left, last: now });
        ok
    }
}

/// What is left after requests at the given times, and how many were let through.
pub open spec fn run_of(b: Bucket, cap: u64, times: Seq<u64>) -> (Bucket, nat)
    decreases times.len(),
{
    if times.len() == 0 {
        (b, 0)
    } else {
        let (c, n) = run_of(b, cap, times.drop_last());
        let (d, ok) = spent(c, cap, times.last());
        (
            d,
            n + if ok {
                1nat
            } else {
                0nat
            },
        )
    }
}

/// However a client asks, no more than a full burst and `cap` requests a minute get through: of
/// the requests at the given times, at most `cap` and those that were added meanwhile.
pub proof fn lemma_rate_bound(b: Bucket, cap: u64, times: Seq<u64>)
    requires
        b.tokens <= cap * TOKEN,
        1 <= cap <= 240,
        forall|i: int, j: int|
            #![trigger times[i], times[j]]
            0 <= i <= j < times.len() ==> times[i] <= times[j],
        times.len() > 0 ==> b.last <= times[0],
    ensures
        run_of(b, cap, times).0.tokens <= cap * TOKEN,
        times.len() == 0 ==> run_of(b, cap, times).0.last == b.last,
        times.len() > 0 ==> run_of(b, cap, times).0.last == times.last(),
        run_of(b, cap, times).1 * TOKEN + run_of(b, cap, times).0.tokens <= cap * TOKEN + cap * (
        run_of(b, cap, times).0.last - b.last),
    decreases times.len(),
{
    if times.len() > 0 {
        let t = times.drop_last();
        assert forall|i: int, j: int|
            #![trigger t[i], t[j]]
            0 <= i <= j < t.len() implies t[i] <= t[j] by {
            assert(times[i] <= times[j]);
        }
        if t.len() > 0 {
            assert(t[0] == times[0]);
        }
        lemma_rate_bound(b, cap, t);
        let (c, n) = run_of(b, cap, t);
        let now = times.last();
        if t.len() > 0 {
            assert(times[times.len() - 2] <= times[times.len() - 1]);
        }
        let r = refilled(c, cap, now);
        assert(cap * (c.last - b.last) + cap * (now - c.last) == cap * (now - b.last))
            by (nonlinear_arith);
        assert(r <= c.tokens + cap * (now - c.last));
        assert(0 <= cap * (now - c.last)) by (nonlinear_arith)
            requires
                now >= c.last,
                cap >= 1,
        ;
        let (d, ok) = spent(c, cap, now);
        let m = run_of(b, cap, times).1;
        assert(m * TOKEN == n * TOKEN + if ok {
            TOKEN as int
        } else {
            0
        }) by (nonlinear_arith)
            requires
                m == n + if ok {
                    1int
                } else {
                    0int
                },
        ;
    }
}

/// A client that asks for the first time is let through, whatever others did.
pub proof fn lemma_first_request_passes(m: Map<(IpAddr, Class), Bucket>, key: (IpAddr, Class), now: u64)
    requires
        !m.contains_key(key),
    ensures
        spent(allowance(m, key, now), capacity(key.1), now).1,
{
}

// ---------------------------------------------------------------------------
// Failed logins
// ---------------------------------------------------------------------------

/// The most clients and accounts that are remembered before those that are not locked are
/// dropped.
pub const GUARD_MAX: usize = 4096;

/// The number of failed logins after which a client is locked out.
pub const GUARD_FAILS: u32 = 5;

/// The longest lock, in seconds.
pub const GUARD_LONGEST: i64 = 3600;

/// The failed logins of a client with an account, and the time up to which it is locked out.
#[derive(Debug, Clone, Copy, PartialEq, Eq, Structural)]
pub struct Fails {
    pub count: u32,
    pub until: i64,
}

/// For how long a client is locked out at its failure number `count`: not at all before the
/// fifth, then for thirty seconds, twice as long each time, up to an hour.
pub open spec fn lock_after(count: u32) -> Option<i64> {
    if count < GUARD_FAILS {
        None
    } else {
        let n = if count - GUARD_FAILS <= 7 {
            (count - GUARD_FAILS) as nat
        } else {
            7
        };
        if 30 * pow2(n) <= GUARD_LONGEST {
            Some((30 * pow2(n)) as i64)
        } else {
            Some(GUARD_LONGEST)
        }
    }
}

fn lock_secs(count: u32) -> (r: Option<i64>)
    ensures
        r == lock_after(count),
{
    proof {
        lemma2_to64();
    }
    if count < GUARD_FAILS {
        return None;
    }
    let n: u32 = count - GUARD_FAILS;
    let secs: i64 = if n == 0 {
        30
    } else if n == 1 {
        60
    } else if n == 2 {
        120
    } else if n == 3 {
        240
    } else if n == 4 {
        480
    } else if n == 5 {
        960
    } else if n == 6 {
        1920
    } else {
        GUARD_LONGEST
    };
    Some(secs)
}

/// What is remembered of a client and an account.
pub open spec fn fails_of(m: Map<(IpAddr, Seq<char>), Fails>, key: (IpAddr, Seq<char>)) -> Fails {
    if m.contains_key(key) {
        m[key]
    } else {
        Fails { count: 0, until: 0 }
    }
}

/// What is remembered after one more failed login.
pub open spec fn failed_once_more(f: Fails, now: i64) -> Fails {
    let count = if f.count < u32::MAX {
        (f.count + 1) as u32
    } else {
        u32::MAX
    };
    Fails {
        count,
        until: match lock_after(count) {
            Some(s) => nearest_i64(now + s),
            None => f.until,
        },
    }
}

/// What is remembered at the time `now`: where there is too much, only what is locked.
pub open spec fn still_locked(m: Map<(IpAddr, Seq<char>), Fails>, now: i64) -> Map<
    (IpAddr, Seq<char>),
    Fails,
> {
    if m.len() > GUARD_MAX {
        retained(m, |k: (IpAddr, Seq<char>), f: Fails| f.until > now)
    } else {
        m
    }
}

/// What is remembered after a failed login of a client with an account.
pub open spec fn recorded(
    m: Map<(IpAddr, Seq<char>), Fails>,
    key: (IpAddr, Seq<char>),
    now: i64,
) -> Map<(IpAddr, Seq<char>), Fails> {
    still_locked(m, now).insert(key, failed_once_more(fails_of(still_locked(m, now), key), now))
}

/// A client is locked out of an account.
pub open spec fn locked_out(
    m: Map<(IpAddr, Seq<char>), Fails>,
    key: (IpAddr, Seq<char>),
    now: i64,
) -> bool {
    m.contains_key(key) && m[key].until > now
}

struct LockedAt {
    now: i64,
}

impl Filter<(IpAddr, String), Fails> for LockedAt {
    closed spec fn keeps(&self, k: (IpAddr, Seq<char>), f: Fails) -> bool {
        f.until > self.now
    }

    fn keep(&self, k: &(IpAddr, String), f: &Fails) -> (r: bool) {
        f.until > self.now
    }
}

/// Locks out clients that fail to log in. A client locks out itself and nobody else: it is known
/// by its address and the account it tried.
pub struct LoginGuard {
    fails: Table<(IpAddr, String), Fails>,
}

impl View for LoginGuard {
    type V = Map<(IpAddr, Seq<char>), Fails>;

    closed spec fn view(&self) -> Map<(IpAddr, Seq<char>), Fails> {
        self.fails@
    }
}

impl LoginGuard {
    /// No client and account stand twice.
    pub closed spec fn wf(&self) -> bool {
        self.fails.wf()
    }

    /// Nobody has failed.
    pub fn new() -> (r: Self)
        ensures
            r.wf(),
            r@ == Map::<(IpAddr, Seq<char>), Fails>::empty(),
    {
        LoginGuard { fails: Table::new() }
    }

    /// Whether the client is locked out of the account.
    pub fn is_locked(&self, ip: IpAddr, username: &str, now: i64) -> (r: bool)
        requires
            self.wf(),
        ensures
            r == locked_out(self@, (ip, username@), now),
    {
        let key = (ip, username.to_string());
        match self.fails.get(&key) {
            Some(f) => f.until > now,
            None => false,
        }
    }

    /// Notes a failed login; gives the length of the lock where there is one now.
    pub fn record_fail(&mut self, ip: IpAddr, username: &str, now: i64) -> (r: Option<i64>)
        requires
            old(self).wf(),
        ensures
            final(self).wf(),
            final(self)@ == recorded(old(self)@, (ip, username@), now),
            r == lock_after(recorded(old(self)@, (ip, username@), now)[(ip, username@)].count),
    {
        let ghost m = self@;
        if self.fails.len() > GUARD_MAX {
            self.fails.retain(&LockedAt { now });
        }
        assert(self@ =~= still_locked(m, now));
        let key = (ip, username.to_string());
        let mut f: Fails = match self.fails.get(&key) {
            Some(f) => *f,
            None => Fails { count: 0, until: 0 },
        };
        f.count = f.count.saturating_add(1);
        let lock = lock_secs(f.count);
        if let Some(s) = lock {
            f.until = sat_add(now, s);
        }
        self.fails.insert(key, f);
        lock
    }

    /// Forgets the failed logins of a client with an account.
    pub fn reset(&mut self, ip: IpAddr, username: &str)
        requires
            old(self).wf(),
        ensures
            final(self).wf(),
            final(self)@ == old(self)@.remove((ip, username@)),
    {
        let key = (ip, username.to_string());
        let _ = self.fails.remove(&key);
    }
}

/// A lock lasts at least thirty seconds and at most an hour, and the next failure never shortens
/// it.
pub proof fn lemma_lock_grows(count: u32)
    requires
        GUARD_FAILS <= count < u32::MAX,
    ensures
        lock_after(count) is Some,
        lock_after((count + 1) as u32) is Some,
        30 <= lock_after(count)->0 <= lock_after((count + 1) as u32)->0 <= GUARD_LONGEST,
{
    lemma2_to64();
}

/// What was failed `n` times in a row at the time `now`, from scratch.
pub open spec fn failed_times(n: nat, now: i64) -> Fails
    decreases n,
{
    if n == 0 {
        Fails { count: 0, until: 0 }
    } else {
        failed_once_more(failed_times((n - 1) as nat, now), now)
    }
}

proof fn lemma_failed_count(n: nat, now: i64)
    requires
        n <= 5,
    ensures
        failed_times(n, now).count == n,
        n < 5 ==> failed_times(n, now).until == 0,
    decreases n,
{
    if n > 0 {
        lemma_failed_count((n - 1) as nat, now);
    }
}

/// Four failed logins lock nobody out; the fifth locks out for thirty seconds.
pub proof fn lemma_fifth_failure_locks(now: i64)
    requires
        0 <= now < i64::MAX - 30,
    ensures
        forall|n: nat| n < 5 ==> (#[trigger] failed_times(n, now)).until <= now,
        failed_times(5, now).until == now + 30,
{
    lemma2_to64();
    assert forall|n: nat| n < 5 implies (#[trigger] failed_times(n, now)).until <= now by {
        lemma_failed_count(n, now);
    }
    lemma_failed_count(4, now);
    lemma_failed_count(5, now);
}

/// A failed login locks out nobody but the client and account that failed.
pub proof fn lemma_others_stay(
    m: Map<(IpAddr, Seq<char>), Fails>,
    key: (IpAddr, Seq<char>),
    other: (IpAddr, Seq<char>),
    now: i64,
)
    requires
        key != other,
    ensures
        ({
            let after = recorded(m, key, now);
            locked_out(after, other, now) <==> locked_out(m, other, now)
        }),
{
}

/// What a guard remembers that was new, after failed logins of one client with one account at the given
/// times.
pub open spec fn after_fails(key: (IpAddr, Seq<char>), times: Seq<i64>) -> Map<
    (IpAddr, Seq<char>),
    Fails,
>
    decreases times.len(),
{
    if times.len() == 0 {
        Map::empty()
    } else {
        recorded(after_fails(key, times.drop_last()), key, times.last())
    }
}

/// For how long so many failed logins lock out.
pub open spec fn lock_of(n: nat) -> int {
    let doubled = 30 * pow2(
        if n - GUARD_FAILS <= 7 {
            (n - GUARD_FAILS) as nat
        } else {
            7
        },
    );
    if doubled <= GUARD_LONGEST {
        doubled as int
    } else {
        GUARD_LONGEST as int
    }
}

proof fn lemma_after_fails(key: (IpAddr, Seq<char>), times: Seq<i64>)
    ensures
        ({
            let m = after_fails(key, times);
            let n = times.len();
            &&& m.dom() =~= if n == 0 {
                Set::<(IpAddr, Seq<char>)>::empty()
            } else {
                set![key]
            }
            &&& n > 0 ==> m[key].count == if n <= u32::MAX {
                n as int
            } else {
                u32::MAX as int
            }
            &&& 0 < n < GUARD_FAILS ==> m[key].until == 0
            &&& n >= GUARD_FAILS ==> m[key].until == nearest_i64(times.last() + lock_of(n))
        }),
    decreases times.len(),
{
    lemma2_to64();
    if times.len() > 0 {
        lemma_after_fails(key, times.drop_last());
        let m = after_fails(key, times.drop_last());
        assert(m.dom().len() <= 1);
        assert(still_locked(m, times.last()) == m);
    }
}

/// What failed logins of one client with one account lead to on a new guard. The first four lock
/// nobody out. From the fifth on, each locks the client out of the account for thirty seconds, twice as
/// long for each further one, up to an hour: exactly until that time is over, counted from the last
/// failure. Nobody else is locked out, of no account. At the end of time, where a lock cannot be told
/// from one second more, only the last second is left out.
pub proof fn lemma_locks_by_failures(key: (IpAddr, Seq<char>), times: Seq<i64>)
    requires
        times.len() > 0,
        forall|i: int| 0 <= i < times.len() ==> 0 <= #[trigger] times[i],
    ensures
        ({
            let m = after_fails(key, times);
            let n = times.len();
            let end = times.last() + lock_of(n);
            &&& lock_after(m[key].count) == if n < GUARD_FAILS {
                None
            } else {
                Some(lock_of(n) as i64)
            }
            &&& n < GUARD_FAILS ==> forall|t: i64| 0 <= t ==> !#[trigger] locked_out(m, key, t)
            &&& n >= GUARD_FAILS ==> forall|t: i64|
                0 <= t && (t < i64::MAX || end <= i64::MAX) ==> (#[trigger] locked_out(m, key, t)
                    <==> t < end)
            &&& forall|other: (IpAddr, Seq<char>), t: i64|
                other != key ==> !#[trigger] locked_out(m, other, t)
        }),
{
    lemma2_to64();
    lemma_after_fails(key, times);
    assert(0 <= times[times.len() - 1]);
}

} // verus!
