//! The texts under `/proc`, `/sys` and `/etc`. What cannot be read counts as absent or as 0;
//! nothing here fails as a whole.

use crate::measure::Measure;
use crate::num::{parse_i64, parse_u64, parse_upto, parsed_i64, parsed_u64, parsed_upto};
use crate::text::{
    after, before, byte_count_of, byte_len, chars_of, contains, drop_leading, drop_trailing, find,
    first_index, has_only_digits, has_prefix, is_ascii_lower, is_digit, is_str, last_index,
    lemma_first_index, lemma_last_index, lemma_pieces_nonempty, lemma_pieces_of_two,
    lemma_words_without_cr, lines, pieces, rfind, split, split_lines, split_once, split_words,
    starts_with, string_of, strip_end, strip_prefix, strip_start, take_before, trim, trimmed, views,
    without_cr, words,
};
use vstd::prelude::*;
use vstd::slice::slice_subrange;
use vstd::string::*;

verus! {

/// `n`, or the largest number of 64 bits.
pub open spec fn sat(n: nat) -> u64 {
    if n <= u64::MAX {
        n as u64
    } else {
        u64::MAX
    }
}

/// `n`, or the largest number of 32 bits.
pub open spec fn sat32(n: nat) -> u32 {
    if n <= u32::MAX {
        n as u32
    } else {
        u32::MAX
    }
}

/// `a * k`, or the largest number of 64 bits.
pub fn sat_times(a: u64, k: u64) -> (r: u64)
    ensures
        r == sat((a as nat) * (k as nat)),
{
    match a.checked_mul(k) {
        Some(x) => x,
        None => u64::MAX,
    }
}

/// The number that `s` stands for, or 0.
pub open spec fn number_or_0(s: Seq<char>) -> u64 {
    match parsed_u64(s) {
        Some(n) => n,
        None => 0,
    }
}

/// The number that the word `i` stands for; 0 where there is none.
pub open spec fn word_number(w: Seq<Seq<char>>, i: int) -> u64 {
    if i < w.len() {
        number_or_0(w[i])
    } else {
        0
    }
}

fn number_at(w: &[&[char]], i: usize) -> (r: u64)
    ensures
        r == word_number(views(w@), i as int),
{
    if i < w.len() {
        match parse_u64(w[i]) {
            Some(n) => n,
            None => 0,
        }
    } else {
        0
    }
}

/// `s` without its first `n` items.
pub open spec fn past<A>(s: Seq<A>, n: int) -> Seq<A> {
    if n <= s.len() {
        s.skip(n)
    } else {
        Seq::empty()
    }
}

// ---------------------------------------------------------------------------
// Processors
// ---------------------------------------------------------------------------

/// What a processor has done so far, in ticks.
#[derive(Debug, Clone, Copy, PartialEq, Eq, Structural)]
pub struct CpuTimes {
    pub idle: u64,
    pub total: u64,
}

/// The first eight words stand for numbers.
pub open spec fn eight_numbers(w: Seq<Seq<char>>) -> bool {
    w.len() >= 8 && forall|i: int| 0 <= i < 8 ==> parsed_u64(#[trigger] w[i]) is Some
}

/// The sum of the numbers that the first `n` words stand for.
pub open spec fn sum_of(w: Seq<Seq<char>>, n: int) -> nat
    decreases n,
{
    if n <= 0 {
        0
    } else {
        sum_of(w, n - 1) + number_or_0(w[n - 1]) as nat
    }
}

/// The times that the words behind the name of a processor give: user, nice, system, idle,
/// iowait, irq, softirq and steal. Idle and iowait are the idle time.
pub open spec fn times_of(w: Seq<Seq<char>>) -> Option<CpuTimes> {
    if eight_numbers(w) {
        Some(
            CpuTimes {
                idle: sat(number_or_0(w[3]) as nat + number_or_0(w[4]) as nat),
                total: sat(sum_of(w, 8)),
            },
        )
    } else {
        None
    }
}

fn read_times(w: &[&[char]], from: usize) -> (r: Option<CpuTimes>)
    ensures
        r == times_of(past(views(w@), from as int)),
{
    let ghost f = past(views(w@), from as int);
    let n: usize = w.len();
    if from > n || n - from < 8 {
        return None;
    }
    let mut total: u64 = 0;
    let mut idle: u64 = 0;
    let mut i: usize = 0;
    while i < 8
        invariant
            f == past(views(w@), from as int),
            i <= 8,
            n == w@.len(),
            from + 8 <= n,
            f.len() >= 8,
            total == sat(sum_of(f, i as int)),
            i <= 3 ==> idle == 0,
            i == 4 ==> idle == number_or_0(f[3]),
            i > 4 ==> idle == sat(number_or_0(f[3]) as nat + number_or_0(f[4]) as nat),
            forall|j: int| 0 <= j < i ==> parsed_u64(#[trigger] f[j]) is Some,
        decreases 8 - i,
    {
        assert(f[i as int] == w@[from + i]@);
        match parse_u64(w[from + i]) {
            Some(v) => {
                total = total.saturating_add(v);
                if i == 3 || i == 4 {
                    idle = idle.saturating_add(v);
                }
            },
            None => {
                assert(parsed_u64(f[i as int]) is None);
                return None;
            },
        }
        i = i + 1;
    }
    Some(CpuTimes { idle, total })
}

/// The first line that begins with `p`.
pub open spec fn first_with(ls: Seq<Seq<char>>, p: Seq<char>) -> Option<Seq<char>>
    decreases ls.len(),
{
    if ls.len() == 0 {
        None
    } else if starts_with(ls[0], p) {
        Some(ls[0])
    } else {
        first_with(ls.drop_first(), p)
    }
}

fn find_with<'a>(ls: &[&'a [char]], p: &str) -> (r: Option<&'a [char]>)
    ensures
        r is Some <==> first_with(views(ls@), p@) is Some,
        r matches Some(l) ==> first_with(views(ls@), p@) == Some(l@),
{
    let ghost all = views(ls@);
    let mut i: usize = 0;
    assert(all.skip(0) =~= all);
    while i < ls.len()
        invariant
            all == views(ls@),
            i <= ls@.len(),
            first_with(all, p@) == first_with(all.skip(i as int), p@),
        decreases ls@.len() - i,
    {
        assert(all.skip(i as int)[0] == ls@[i as int]@);
        assert(all.skip(i as int).drop_first() =~= all.skip(i + 1));
        if has_prefix(ls[i], p) {
            return Some(ls[i]);
        }
        i = i + 1;
    }
    assert(all.skip(i as int) =~= Seq::empty());
    None
}

/// The times of all processors together, as `/proc/stat` has them.
pub open spec fn cpu_total(s: Seq<char>) -> Option<CpuTimes> {
    match first_with(lines(s), "cpu "@) {
        Some(l) => times_of(past(words(l), 1)),
        None => None,
    }
}

/// Reads the times of all processors together off `/proc/stat`.
pub fn parse_cpu_total(stat: &str) -> (r: Option<CpuTimes>)
    ensures
        r == cpu_total(stat@),
{
    let v = chars_of(stat);
    let ls = split_lines(v.as_slice());
    match find_with(ls.as_slice(), "cpu ") {
        Some(l) => {
            let w = split_words(l);
            read_times(w.as_slice(), 1)
        },
        None => None,
    }
}

/// A line of `/proc/stat` about a single processor.
pub open spec fn core_line(l: Seq<char>) -> bool {
    starts_with(l, "cpu"@) && l.len() > "cpu"@.len() && is_digit(l["cpu"@.len() as int])
}

/// The times that the lines `ls` give for single processors, in order.
pub open spec fn core_times(ls: Seq<Seq<char>>) -> Seq<CpuTimes>
    decreases ls.len(),
{
    if ls.len() == 0 {
        Seq::empty()
    } else {
        let rest = core_times(ls.drop_last());
        let l = ls.last();
        if core_line(l) {
            match times_of(past(words(l.skip("cpu"@.len() as int)), 1)) {
                Some(t) => rest.push(t),
                None => rest,
            }
        } else {
            rest
        }
    }
}

/// Reads the times of the single processors off `/proc/stat`.
pub fn parse_cpu_per_core(stat: &str) -> (r: Vec<CpuTimes>)
    ensures
        r@ == core_times(lines(stat@)),
{
    let v = chars_of(stat);
    let ls = split_lines(v.as_slice());
    let ghost all = lines(stat@);
    let mut out: Vec<CpuTimes> = Vec::new();
    let mut i: usize = 0;
    assert(all.take(0) =~= Seq::empty());
    while i < ls.len()
        invariant
            all == views(ls@),
            i <= ls@.len(),
            out@ == core_times(all.take(i as int)),
        decreases ls@.len() - i,
    {
        assert(all.take(i + 1).drop_last() =~= all.take(i as int));
        assert(all.take(i + 1).last() == ls@[i as int]@);
        match strip_prefix(ls[i], "cpu") {
            Some(rest) => {
                if rest.len() > 0 && is_digit(rest[0]) {
                    let w = split_words(rest);
                    match read_times(w.as_slice(), 1) {
                        Some(t) => {
                            out.push(t);
                        },
                        None => {},
                    }
                }
            },
            None => {},
        }
        i = i + 1;
    }
    assert(all.take(i as int) =~= all);
    out
}

/// What passed between two readings: the idle and all ticks. `None` where no tick passed (or the
/// counters were set back).
pub fn cpu_deltas(prev: CpuTimes, cur: CpuTimes) -> (r: Option<(u64, u64)>)
    ensures
        r is Some <==> cur.total > prev.total,
        r matches Some(d) ==> d.1 == cur.total - prev.total && d.0 == if cur.idle >= prev.idle {
            cur.idle - prev.idle
        } else {
            0
        },
{
    let total: u64 = cur.total.saturating_sub(prev.total);
    let idle: u64 = cur.idle.saturating_sub(prev.idle);
    if total == 0 {
        None
    } else {
        Some((idle, total))
    }
}

/// The shortest time over which a rate is taken, in nanoseconds.
pub const MIN_RATE_NANOS: u64 = 200_000_000;

/// What a counter grew by in `elapsed` nanoseconds, from which its rate is taken. `None`, which is a
/// rate of zero, where the time is too short or the counter was set back.
pub fn rate_delta(prev: u64, cur: u64, elapsed: u64) -> (r: Option<u64>)
    ensures
        r is Some <==> elapsed >= MIN_RATE_NANOS && cur >= prev,
        r matches Some(d) ==> d == cur - prev,
{
    if elapsed < MIN_RATE_NANOS || cur < prev {
        None
    } else {
        Some(cur - prev)
    }
}

// ---------------------------------------------------------------------------
// Memory
// ---------------------------------------------------------------------------

/// The memory, in bytes.
#[derive(Debug, Clone, Copy, PartialEq, Eq, Structural)]
pub struct MemInfo {
    pub total: u64,
    pub available: u64,
    pub swap_total: u64,
    pub swap_used: u64,
}

/// The number of bytes that a line of `/proc/meminfo` gives in units of 1024.
pub open spec fn kib(w: Seq<Seq<char>>) -> u64 {
    sat((word_number(w, 1) as nat) * 1024)
}

/// What the last of the lines with the name `key` gives; 0 where there is none.
pub open spec fn mem_value(ls: Seq<Seq<char>>, key: Seq<char>) -> u64
    decreases ls.len(),
{
    if ls.len() == 0 {
        0
    } else {
        let w = words(ls.last());
        if w.len() > 0 && w[0] == key {
            kib(w)
        } else {
            mem_value(ls.drop_last(), key)
        }
    }
}

/// The memory as the lines of `/proc/meminfo` give it. An old kernel does not tell what is
/// available: free memory, buffers and caches stand in for it.
pub open spec fn mem_info(ls: Seq<Seq<char>>) -> MemInfo {
    let total = mem_value(ls, "MemTotal:"@);
    let told = mem_value(ls, "MemAvailable:"@);
    let avail = if told == 0 {
        sat(
            mem_value(ls, "MemFree:"@) as nat + mem_value(ls, "Buffers:"@) as nat + mem_value(
                ls,
                "Cached:"@,
            ) as nat,
        )
    } else {
        told
    };
    let swap = mem_value(ls, "SwapTotal:"@);
    let swap_free = mem_value(ls, "SwapFree:"@);
    MemInfo {
        total,
        available: if avail <= total {
            avail
        } else {
            total
        },
        swap_total: swap,
        swap_used: if swap >= swap_free {
            (swap - swap_free) as u64
        } else {
            0
        },
    }
}

proof fn lemma_mem_keys()
    ensures
        "MemTotal:"@ != "MemAvailable:"@,
        "MemTotal:"@ != "MemFree:"@,
        "MemTotal:"@ != "Buffers:"@,
        "MemTotal:"@ != "Cached:"@,
        "MemTotal:"@ != "SwapTotal:"@,
        "MemTotal:"@ != "SwapFree:"@,
        "MemAvailable:"@ != "MemFree:"@,
        "MemAvailable:"@ != "Buffers:"@,
        "MemAvailable:"@ != "Cached:"@,
        "MemAvailable:"@ != "SwapTotal:"@,
        "MemAvailable:"@ != "SwapFree:"@,
        "MemFree:"@ != "Buffers:"@,
        "MemFree:"@ != "Cached:"@,
        "MemFree:"@ != "SwapTotal:"@,
        "MemFree:"@ != "SwapFree:"@,
        "Buffers:"@ != "Cached:"@,
        "Buffers:"@ != "SwapTotal:"@,
        "Buffers:"@ != "SwapFree:"@,
        "Cached:"@ != "SwapTotal:"@,
        "Cached:"@ != "SwapFree:"@,
        "SwapTotal:"@ != "SwapFree:"@,
{
    reveal_strlit("MemTotal:");
    reveal_strlit("MemAvailable:");
    reveal_strlit("MemFree:");
    reveal_strlit("Buffers:");
    reveal_strlit("Cached:");
    reveal_strlit("SwapTotal:");
    reveal_strlit("SwapFree:");
    assert("MemTotal:"@[3] == 'T' && "MemAvailable:"@[3] == 'A' && "MemFree:"@[3] == 'F');
    assert("Buffers:"@[3] == 'f' && "Cached:"@[3] == 'h' && "SwapTotal:"@[3] == 'p');
    assert("SwapFree:"@[3] == 'p' && "SwapTotal:"@[4] == 'T' && "SwapFree:"@[4] == 'F');
}

/// Reads the memory off `/proc/meminfo`.
pub fn parse_meminfo(s: &str) -> (r: MemInfo)
    ensures
        r == mem_info(lines(s@)),
{
    let v = chars_of(s);
    let ls = split_lines(v.as_slice());
    let ghost all = lines(s@);
    let mut total: u64 = 0;
    let mut avail: u64 = 0;
    let mut free: u64 = 0;
    let mut buffers: u64 = 0;
    let mut cached: u64 = 0;
    let mut swap_total: u64 = 0;
    let mut swap_free: u64 = 0;
    let mut i: usize = 0;
    assert(all.take(0) =~= Seq::empty());
    while i < ls.len()
        invariant
            all == lines(s@),
            all == views(ls@),
            i <= ls@.len(),
            total == mem_value(all.take(i as int), "MemTotal:"@),
            avail == mem_value(all.take(i as int), "MemAvailable:"@),
            free == mem_value(all.take(i as int), "MemFree:"@),
            buffers == mem_value(all.take(i as int), "Buffers:"@),
            cached == mem_value(all.take(i as int), "Cached:"@),
            swap_total == mem_value(all.take(i as int), "SwapTotal:"@),
            swap_free == mem_value(all.take(i as int), "SwapFree:"@),
        decreases ls@.len() - i,
    {
        proof {
            lemma_mem_keys();
            assert(all.take(i + 1).drop_last() =~= all.take(i as int));
            assert(all.take(i + 1).last() == ls@[i as int]@);
        }
        let w = split_words(ls[i]);
        if w.len() > 0 {
            let key = w[0];
            assert(views(w@)[0] == key@);
            let bytes: u64 = sat_times(number_at(w.as_slice(), 1), 1024);
            if is_str(key, "MemTotal:") {
                total = bytes;
            } else if is_str(key, "MemAvailable:") {
                avail = bytes;
            } else if is_str(key, "MemFree:") {
                free = bytes;
            } else if is_str(key, "Buffers:") {
                buffers = bytes;
            } else if is_str(key, "Cached:") {
                cached = bytes;
            } else if is_str(key, "SwapTotal:") {
                swap_total = bytes;
            } else if is_str(key, "SwapFree:") {
                swap_free = bytes;
            }
        }
        i = i + 1;
    }
    assert(all.take(i as int) =~= all);
    if avail == 0 {
        avail = free.saturating_add(buffers).saturating_add(cached);
    }
    MemInfo {
        total,
        available: if avail <= total {
            avail
        } else {
            total
        },
        swap_total,
        swap_used: swap_total.saturating_sub(swap_free),
    }
}

// ---------------------------------------------------------------------------
// Load and uptime
// ---------------------------------------------------------------------------

/// The number of processes in the fourth word of `/proc/loadavg`, behind its slash; 0 where it
/// is not told.
pub open spec fn load_procs(w: Seq<Seq<char>>) -> u32 {
    if w.len() > 3 {
        let p = pieces(w[3], '/');
        if p.len() > 1 {
            match parsed_upto(p[1], u32::MAX as nat) {
                Some(n) => n as u32,
                None => 0,
            }
        } else {
            0
        }
    } else {
        0
    }
}

/// What `/proc/loadavg` holds: the three averages as they are written, and the number of
/// processes.
#[derive(Debug)]
pub struct LoadFields {
    pub load1: String,
    pub load5: String,
    pub load15: String,
    pub procs: u32,
}

/// Cuts `/proc/loadavg` into its fields; `None` where an average is missing.
pub fn parse_loadavg(s: &str) -> (r: Option<LoadFields>)
    ensures
        r is Some <==> words(s@).len() >= 3,
        r matches Some(f) ==> f.load1@ == words(s@)[0] && f.load5@ == words(s@)[1] && f.load15@
            == words(s@)[2] && f.procs == load_procs(words(s@)),
{
    let v = chars_of(s);
    let w = split_words(v.as_slice());
    let ghost ws = words(s@);
    if w.len() < 3 {
        return None;
    }
    let mut procs: u32 = 0;
    if w.len() > 3 {
        assert(ws[3] == w@[3]@);
        let p = split(w[3], '/');
        if p.len() > 1 {
            assert(views(p@)[1] == p@[1]@);
            match parse_upto(p[1], u32::MAX as u64) {
                Some(n) => {
                    procs = n as u32;
                },
                None => {},
            }
        }
    }
    assert(ws[0] == w@[0]@ && ws[1] == w@[1]@ && ws[2] == w@[2]@);
    Some(
        LoadFields {
            load1: string_of(w[0]),
            load5: string_of(w[1]),
            load15: string_of(w[2]),
            procs,
        },
    )
}

/// `v`, or 0 where it is below.
pub open spec fn not_negative(v: Measure) -> Measure {
    v.greater(Measure { bits: 0 })
}

/// The three averages once they are read as numbers: `None` where one of them is no number, and
/// none of them below 0.
pub fn checked_loads(l1: Measure, l5: Measure, l15: Measure) -> (r: Option<
    (Measure, Measure, Measure),
>)
    ensures
        r == if l1.finite() && l5.finite() && l15.finite() {
            Some((not_negative(l1), not_negative(l5), not_negative(l15)))
        } else {
            None::<(Measure, Measure, Measure)>
        },
{
    if !l1.is_finite() || !l5.is_finite() || !l15.is_finite() {
        return None;
    }
    let zero = Measure { bits: 0 };
    Some((l1.max(zero), l5.max(zero), l15.max(zero)))
}

/// The whole seconds in the first word of `/proc/uptime`; 0 where it is not told.
pub open spec fn uptime_secs(s: Seq<char>) -> u64 {
    if words(s).len() > 0 {
        number_or_0(before(words(s)[0], '.'))
    } else {
        0
    }
}

/// Reads the uptime, in seconds, off `/proc/uptime`.
pub fn parse_uptime(s: &str) -> (r: u64)
    ensures
        r == uptime_secs(s@),
{
    let v = chars_of(s);
    let w = split_words(v.as_slice());
    if w.len() == 0 {
        return 0;
    }
    assert(words(s@)[0] == w@[0]@);
    match parse_u64(take_before(w[0], '.')) {
        Some(n) => n,
        None => 0,
    }
}

// ---------------------------------------------------------------------------
// Networks
// ---------------------------------------------------------------------------

/// The most interfaces that are read.
pub const MAX_NETDEV: usize = 32;

/// What a line of `/proc/net/dev` says: the name of the interface, and the bytes received and
/// sent. `None` for a line that is not about an interface of interest.
pub open spec fn netdev_line(l: Seq<char>) -> Option<(Seq<char>, u64, u64)> {
    let name = trimmed(before(l, ':'));
    let w = words(after(l, ':'));
    if !l.contains(':') || name.len() == 0 || name == "lo"@ || byte_len(name) > 32 {
        None
    } else {
        Some((name, word_number(w, 0), word_number(w, 8)))
    }
}

/// The interfaces that the lines `ls` are about: the first [`MAX_NETDEV`] of them.
pub open spec fn netdev_lines(ls: Seq<Seq<char>>) -> Seq<(Seq<char>, u64, u64)>
    decreases ls.len(),
{
    if ls.len() == 0 {
        Seq::empty()
    } else {
        let rest = netdev_lines(ls.drop_last());
        if rest.len() >= MAX_NETDEV {
            rest
        } else {
            match netdev_line(ls.last()) {
                Some(e) => rest.push(e),
                None => rest,
            }
        }
    }
}

fn read_netdev_line(l: &[char]) -> (r: Option<(String, u64, u64)>)
    ensures
        r is Some <==> netdev_line(l@) is Some,
        r matches Some(e) ==> netdev_line(l@) == Some(e@),
{
    match split_once(l, ':') {
        None => None,
        Some((head, rest)) => {
            let name = trim(head);
            if name.len() == 0 || is_str(name, "lo") || byte_count_of(name) > 32 {
                return None;
            }
            let w = split_words(rest);
            Some((string_of(name), number_at(w.as_slice(), 0), number_at(w.as_slice(), 8)))
        },
    }
}

proof fn lemma_netdev_full(ls: Seq<Seq<char>>, n: int)
    requires
        0 <= n <= ls.len(),
        netdev_lines(ls.take(n)).len() >= MAX_NETDEV,
    ensures
        netdev_lines(ls) == netdev_lines(ls.take(n)),
    decreases ls.len() - n,
{
    if n < ls.len() {
        assert(ls.take(n + 1).drop_last() =~= ls.take(n));
        lemma_netdev_full(ls, n + 1);
    } else {
        assert(ls.take(n) =~= ls);
    }
}

/// Reads the interfaces off `/proc/net/dev`, without the loopback: name, bytes received, bytes
/// sent.
pub fn parse_netdev(s: &str) -> (r: Vec<(String, u64, u64)>)
    ensures
        views(r@) == netdev_lines(past(lines(s@), 2)),
{
    let v = chars_of(s);
    let ls = split_lines(v.as_slice());
    let ghost all = past(lines(s@), 2);
    let mut out: Vec<(String, u64, u64)> = Vec::new();
    if ls.len() <= 2 {
        assert(all =~= Seq::empty());
        assert(views(out@) =~= Seq::empty());
        return out;
    }
    let mut i: usize = 2;
    assert(all.take(0) =~= Seq::empty());
    assert(views(out@) =~= netdev_lines(all.take(0)));
    while i < ls.len()
        invariant
            lines(s@) == views(ls@),
            all == past(lines(s@), 2),
            2 <= i <= ls@.len(),
            views(out@) == netdev_lines(all.take(i - 2)),
            out@.len() < MAX_NETDEV,
        decreases ls@.len() - i,
    {
        let ghost prev = views(out@);
        assert(all.take(i - 1).drop_last() =~= all.take(i - 2));
        assert(all.take(i - 1).last() == ls@[i as int]@);
        match read_netdev_line(ls[i]) {
            Some(e) => {
                let ghost ev = e@;
                out.push(e);
                assert(views(out@) =~= prev.push(ev));
                if out.len() >= MAX_NETDEV {
                    proof {
                        lemma_netdev_full(all, i - 1);
                    }
                    return out;
                }
            },
            None => {},
        }
        i = i + 1;
    }
    assert(all.take(i - 2) =~= all);
    out
}

/// The number of the lines `ls` with a colon in them.
pub open spec fn colon_lines(ls: Seq<Seq<char>>) -> nat
    decreases ls.len(),
{
    if ls.len() == 0 {
        0
    } else {
        colon_lines(ls.drop_last()) + if ls.last().contains(':') {
            1nat
        } else {
            0nat
        }
    }
}

/// Counts the connections in `/proc/net/tcp`: the lines behind the first that hold a colon.
pub fn parse_tcp_count(s: &str) -> (r: u32)
    ensures
        r == sat32(colon_lines(past(lines(s@), 1))),
{
    let v = chars_of(s);
    let ls = split_lines(v.as_slice());
    let ghost all = past(lines(s@), 1);
    let mut n: u32 = 0;
    if ls.len() == 0 {
        assert(all =~= Seq::empty());
        return 0;
    }
    let mut i: usize = 1;
    assert(all.take(0) =~= Seq::empty());
    while i < ls.len()
        invariant
            lines(s@) == views(ls@),
            all == past(lines(s@), 1),
            1 <= i <= ls@.len(),
            n == sat32(colon_lines(all.take(i - 1))),
        decreases ls@.len() - i,
    {
        assert(all.take(i as int).drop_last() =~= all.take(i - 1));
        assert(all.take(i as int).last() == ls@[i as int]@);
        if find(ls[i], ':').is_some() {
            n = n.saturating_add(1);
        }
        i = i + 1;
    }
    assert(all.take(i - 1) =~= all);
    n
}

/// The number of the lines `ls` whose fourth word is `code`.
pub open spec fn state_lines(ls: Seq<Seq<char>>, code: Seq<char>) -> nat
    decreases ls.len(),
{
    if ls.len() == 0 {
        0
    } else {
        let w = words(ls.last());
        state_lines(ls.drop_last(), code) + if w.len() > 3 && w[3] == code {
            1nat
        } else {
            0nat
        }
    }
}

/// Counts the connections in `/proc/net/tcp` that are established (state `01`), that listen
/// (`0A`) and that wait (`06`).
pub fn parse_tcp_states(s: &str) -> (r: (u32, u32, u32))
    ensures
        r.0 == sat32(state_lines(past(lines(s@), 1), "01"@)),
        r.1 == sat32(state_lines(past(lines(s@), 1), "0A"@)),
        r.2 == sat32(state_lines(past(lines(s@), 1), "06"@)),
{
    let v = chars_of(s);
    let ls = split_lines(v.as_slice());
    let ghost all = past(lines(s@), 1);
    let mut estab: u32 = 0;
    let mut listen: u32 = 0;
    let mut tw: u32 = 0;
    if ls.len() == 0 {
        assert(all =~= Seq::empty());
        return (0, 0, 0);
    }
    let mut i: usize = 1;
    assert(all.take(0) =~= Seq::empty());
    while i < ls.len()
        invariant
            lines(s@) == views(ls@),
            all == past(lines(s@), 1),
            1 <= i <= ls@.len(),
            estab == sat32(state_lines(all.take(i - 1), "01"@)),
            listen == sat32(state_lines(all.take(i - 1), "0A"@)),
            tw == sat32(state_lines(all.take(i - 1), "06"@)),
        decreases ls@.len() - i,
    {
        proof {
            reveal_strlit("01");
            reveal_strlit("0A");
            reveal_strlit("06");
            assert("01"@[1] == '1' && "0A"@[1] == 'A' && "06"@[1] == '6');
            assert(all.take(i as int).drop_last() =~= all.take(i - 1));
            assert(all.take(i as int).last() == ls@[i as int]@);
        }
        let w = split_words(ls[i]);
        if w.len() > 3 {
            assert(views(w@)[3] == w@[3]@);
            if is_str(w[3], "01") {
                estab = estab.saturating_add(1);
            } else if is_str(w[3], "0A") {
                listen = listen.saturating_add(1);
            } else if is_str(w[3], "06") {
                tw = tw.saturating_add(1);
            }
        }
        i = i + 1;
    }
    assert(all.take(i - 1) =~= all);
    (estab, listen, tw)
}

// ---------------------------------------------------------------------------
// Disks
// ---------------------------------------------------------------------------

/// `s` is not empty and holds ASCII lower-case letters alone.
pub open spec fn letters(s: Seq<char>) -> bool {
    s.len() > 0 && forall|i: int| 0 <= i < s.len() ==> is_ascii_lower(#[trigger] s[i])
}

/// A character of the number of an NVMe disk and name space.
#[verifier::allow_in_spec]
pub fn is_nvme_char(c: char) -> bool
    returns
        is_digit(c) || c == 'n',
{
    is_digit(c) || c == 'n'
}

/// `s` holds digits and the letter `n` alone, and at least one `n`.
pub open spec fn nvme_number(s: Seq<char>) -> bool {
    s.contains('n') && forall|i: int| 0 <= i < s.len() ==> is_nvme_char(#[trigger] s[i])
}

/// The name of a whole disk, not of a partition: `sd`, `vd`, `xvd` or `hd` and letters, `nvme`
/// with a disk and a name space, or `mmcblk` and digits; at most 24 characters.
pub open spec fn physical_disk(name: Seq<char>) -> bool {
    name.len() <= 24 && if starts_with(name, "sd"@) {
        letters(name.skip("sd"@.len() as int))
    } else if starts_with(name, "vd"@) {
        letters(name.skip("vd"@.len() as int))
    } else if starts_with(name, "xvd"@) {
        letters(name.skip("xvd"@.len() as int))
    } else if starts_with(name, "hd"@) {
        letters(name.skip("hd"@.len() as int))
    } else if starts_with(name, "nvme"@) {
        nvme_number(name.skip("nvme"@.len() as int))
    } else if starts_with(name, "mmcblk"@) {
        crate::num::all_digits(name.skip("mmcblk"@.len() as int))
    } else {
        false
    }
}

fn are_letters(s: &[char]) -> (r: bool)
    ensures
        r == letters(s@),
{
    let mut i: usize = 0;
    while i < s.len()
        invariant
            i <= s@.len(),
            forall|j: int| 0 <= j < i ==> is_ascii_lower(#[trigger] s@[j]),
        decreases s@.len() - i,
    {
        if !is_ascii_lower(s[i]) {
            assert(!is_ascii_lower(s@[i as int]));
            return false;
        }
        i = i + 1;
    }
    s.len() > 0
}

fn is_nvme_number(s: &[char]) -> (r: bool)
    ensures
        r == nvme_number(s@),
{
    let mut i: usize = 0;
    while i < s.len()
        invariant
            i <= s@.len(),
            forall|j: int| 0 <= j < i ==> is_nvme_char(#[trigger] s@[j]),
        decreases s@.len() - i,
    {
        if !is_nvme_char(s[i]) {
            assert(!is_nvme_char(s@[i as int]));
            return false;
        }
        i = i + 1;
    }
    find(s, 'n').is_some()
}

fn is_disk(v: &[char]) -> (r: bool)
    ensures
        r == physical_disk(v@),
{
    if v.len() > 24 {
        return false;
    }
    if let Some(rest) = strip_prefix(v, "sd") {
        return are_letters(rest);
    }
    if let Some(rest) = strip_prefix(v, "vd") {
        return are_letters(rest);
    }
    if let Some(rest) = strip_prefix(v, "xvd") {
        return are_letters(rest);
    }
    if let Some(rest) = strip_prefix(v, "hd") {
        return are_letters(rest);
    }
    if let Some(rest) = strip_prefix(v, "nvme") {
        return is_nvme_number(rest);
    }
    if let Some(rest) = strip_prefix(v, "mmcblk") {
        return rest.len() > 0 && has_only_digits(rest);
    }
    false
}

/// Whether `name` is that of a whole disk, not of a partition.
pub fn is_physical_disk(name: &str) -> (r: bool)
    ensures
        r == physical_disk(name@),
{
    let v = chars_of(name);
    is_disk(v.as_slice())
}

/// What all disks together have read and written.
#[derive(Debug, Clone, Copy, PartialEq, Eq, Structural)]
pub struct DiskStats {
    pub read_bytes: u64,
    pub write_bytes: u64,
    pub read_ops: u64,
    pub write_ops: u64,
}

/// A line of `/proc/diskstats` about a whole disk, with every field that counts.
pub open spec fn disk_line(w: Seq<Seq<char>>) -> bool {
    w.len() > 9 && physical_disk(w[2])
}

/// The sum of the field `k` over the lines about whole disks.
pub open spec fn disk_sum(ls: Seq<Seq<char>>, k: int) -> nat
    decreases ls.len(),
{
    if ls.len() == 0 {
        0
    } else {
        let w = words(ls.last());
        disk_sum(ls.drop_last(), k) + if disk_line(w) {
            word_number(w, k) as nat
        } else {
            0nat
        }
    }
}

/// What the lines of `/proc/diskstats` add up to: operations as they are counted, sectors of 512
/// bytes.
pub open spec fn disk_stats(ls: Seq<Seq<char>>) -> DiskStats {
    DiskStats {
        read_bytes: sat(512 * disk_sum(ls, 5)),
        write_bytes: sat(512 * disk_sum(ls, 9)),
        read_ops: sat(disk_sum(ls, 3)),
        write_ops: sat(disk_sum(ls, 7)),
    }
}

/// Adds up what the whole disks in `/proc/diskstats` have read and written.
pub fn parse_diskstats(s: &str) -> (r: DiskStats)
    ensures
        r == disk_stats(lines(s@)),
{
    let v = chars_of(s);
    let ls = split_lines(v.as_slice());
    let ghost all = lines(s@);
    let mut d = DiskStats { read_bytes: 0, write_bytes: 0, read_ops: 0, write_ops: 0 };
    let mut i: usize = 0;
    assert(all.take(0) =~= Seq::empty());
    while i < ls.len()
        invariant
            all == lines(s@),
            all == views(ls@),
            i <= ls@.len(),
            d == disk_stats(all.take(i as int)),
        decreases ls@.len() - i,
    {
        assert(all.take(i + 1).drop_last() =~= all.take(i as int));
        assert(all.take(i + 1).last() == ls@[i as int]@);
        let w = split_words(ls[i]);
        if w.len() > 9 {
            assert(views(w@)[2] == w@[2]@);
            if is_disk(w[2]) {
                let rc: u64 = number_at(w.as_slice(), 3);
                let sr: u64 = number_at(w.as_slice(), 5);
                let wc: u64 = number_at(w.as_slice(), 7);
                let sw: u64 = number_at(w.as_slice(), 9);
                d.read_bytes = d.read_bytes.saturating_add(sat_times(sr, 512));
                d.write_bytes = d.write_bytes.saturating_add(sat_times(sw, 512));
                d.read_ops = d.read_ops.saturating_add(rc);
                d.write_ops = d.write_ops.saturating_add(wc);
            }
        }
        i = i + 1;
    }
    assert(all.take(i as int) =~= all);
    d
}

proof fn lemma_disk_sum_of_two(a: Seq<Seq<char>>, b: Seq<Seq<char>>, k: int)
    ensures
        disk_sum(a + b, k) == disk_sum(a, k) + disk_sum(b, k),
    decreases b.len(),
{
    if b.len() == 0 {
        assert(a + b =~= a);
    } else {
        lemma_disk_sum_of_two(a, b.drop_last(), k);
        assert((a + b).drop_last() =~= a + b.drop_last());
        assert((a + b).last() == b.last());
    }
}

proof fn lemma_disk_sum_joined(a: Seq<char>, b: Seq<char>, k: int)
    ensures
        disk_sum(lines(a.push('\n') + b), k) == disk_sum(lines(a), k) + disk_sum(lines(b), k),
{
    let s = a.push('\n') + b;
    lemma_pieces_of_two(a, b, '\n');
    lemma_pieces_nonempty(a, '\n');
    lemma_pieces_nonempty(b, '\n');
    let p = pieces(a, '\n');
    let q = pieces(b, '\n');
    let rest = p.last();
    let ended = Seq::new((p.len() - 1) as nat, |i: int| without_cr(p[i]));
    let head = ended.push(without_cr(rest));
    assert((p + q).last() == q.last());
    assert(lines(s) =~= head + lines(b));
    lemma_disk_sum_of_two(head, lines(b), k);
    assert(head.drop_last() =~= ended);
    lemma_words_without_cr(rest);
    if rest.len() > 0 {
        assert(lines(a).drop_last() =~= ended);
    } else {
        assert(words(rest).len() == 0);
        assert(lines(a) =~= ended);
    }
}

/// What two readings of disks add up to.
pub open spec fn added_stats(x: DiskStats, y: DiskStats) -> DiskStats {
    DiskStats {
        read_bytes: sat((x.read_bytes + y.read_bytes) as nat),
        write_bytes: sat((x.write_bytes + y.write_bytes) as nat),
        read_ops: sat((x.read_ops + y.read_ops) as nat),
        write_ops: sat((x.write_ops + y.write_ops) as nat),
    }
}

/// Two texts with a line feed between them give what each gives, added up to the largest number of 64
/// bits.
pub proof fn lemma_disks_add_up(a: Seq<char>, b: Seq<char>)
    ensures
        disk_stats(lines(a.push('\n') + b)) == added_stats(
            disk_stats(lines(a)),
            disk_stats(lines(b)),
        ),
{
    lemma_disk_sum_joined(a, b, 3);
    lemma_disk_sum_joined(a, b, 5);
    lemma_disk_sum_joined(a, b, 7);
    lemma_disk_sum_joined(a, b, 9);
}

/// The most mount points that are read.
pub const MAX_MOUNTS: usize = 16;

/// The longest path of a mount point that is read, in bytes.
pub const MAX_MOUNT_PATH: usize = 128;

/// The file systems that are measured: local ones, which answer at once.
pub open spec fn local_fs(fs: Seq<char>) -> bool {
    fs == "ext2"@ || fs == "ext3"@ || fs == "ext4"@ || fs == "xfs"@ || fs == "btrfs"@ || fs
        == "f2fs"@ || fs == "vfat"@ || fs == "exfat"@ || fs == "zfs"@
}

fn is_local_fs(fs: &[char]) -> (r: bool)
    ensures
        r == local_fs(fs@),
{
    is_str(fs, "ext2") || is_str(fs, "ext3") || is_str(fs, "ext4") || is_str(fs, "xfs") || is_str(
        fs,
        "btrfs",
    ) || is_str(fs, "f2fs") || is_str(fs, "vfat") || is_str(fs, "exfat") || is_str(fs, "zfs")
}

/// A mount: the device, the path, and the file system.
pub type MountView = (Seq<char>, Seq<char>, Seq<char>);

/// A line of `/proc/mounts` about a file system that is measured.
pub open spec fn mount_line(w: Seq<Seq<char>>) -> bool {
    w.len() >= 3 && local_fs(w[2]) && byte_len(w[1]) <= MAX_MOUNT_PATH
}

/// The position of the mount of the device `dev`, or the number of mounts.
pub open spec fn mount_index(m: Seq<MountView>, dev: Seq<char>) -> int
    decreases m.len(),
{
    if m.len() == 0 || m[0].0 == dev {
        0
    } else {
        1 + mount_index(m.drop_first(), dev)
    }
}

/// The mounts after one more line: of two paths of one device the shorter stays.
pub open spec fn mounts_with(m: Seq<MountView>, w: Seq<Seq<char>>) -> Seq<MountView> {
    if m.len() >= MAX_MOUNTS || !mount_line(w) {
        m
    } else {
        let k = mount_index(m, w[0]);
        if k < m.len() {
            if byte_len(w[1]) < byte_len(m[k].1) {
                m.update(k, (m[k].0, w[1], m[k].2))
            } else {
                m
            }
        } else {
            m.push((w[0], w[1], w[2]))
        }
    }
}

/// The mounts that the lines `ls` are about, up to [`MAX_MOUNTS`].
pub open spec fn mounts_of(ls: Seq<Seq<char>>) -> Seq<MountView>
    decreases ls.len(),
{
    if ls.len() == 0 {
        Seq::empty()
    } else {
        mounts_with(mounts_of(ls.drop_last()), words(ls.last()))
    }
}

proof fn lemma_mount_index(m: Seq<MountView>, dev: Seq<char>)
    ensures
        0 <= mount_index(m, dev) <= m.len(),
        mount_index(m, dev) < m.len() ==> m[mount_index(m, dev)].0 == dev,
        forall|j: int| 0 <= j < mount_index(m, dev) ==> (#[trigger] m[j]).0 != dev,
    decreases m.len(),
{
    if m.len() > 0 && m[0].0 != dev {
        lemma_mount_index(m.drop_first(), dev);
        assert forall|j: int| 0 <= j < mount_index(m, dev) implies (#[trigger] m[j]).0 != dev by {
            if j > 0 {
                assert(m.drop_first()[j - 1] == m[j]);
            }
        }
    }
}

proof fn lemma_mounts_full(ls: Seq<Seq<char>>, n: int)
    requires
        0 <= n <= ls.len(),
        mounts_of(ls.take(n)).len() >= MAX_MOUNTS,
    ensures
        mounts_of(ls) == mounts_of(ls.take(n)),
    decreases ls.len() - n,
{
    if n < ls.len() {
        assert(ls.take(n + 1).drop_last() =~= ls.take(n));
        lemma_mounts_full(ls, n + 1);
    } else {
        assert(ls.take(n) =~= ls);
    }
}

/// No device stands twice among the mounts, there are no more than [`MAX_MOUNTS`], every one is
/// of a file system that is measured, and none of its paths is too long.
pub proof fn lemma_mounts(ls: Seq<Seq<char>>)
    ensures
        mounts_of(ls).len() <= MAX_MOUNTS,
        forall|i: int, j: int|
            #![trigger mounts_of(ls)[i], mounts_of(ls)[j]]
            0 <= i < j < mounts_of(ls).len() ==> mounts_of(ls)[i].0 != mounts_of(ls)[j].0,
        forall|i: int|
            0 <= i < mounts_of(ls).len() ==> local_fs((#[trigger] mounts_of(ls)[i]).2) && byte_len(
                mounts_of(ls)[i].1,
            ) <= MAX_MOUNT_PATH,
    decreases ls.len(),
{
    if ls.len() > 0 {
        lemma_mounts(ls.drop_last());
        let m = mounts_of(ls.drop_last());
        let w = words(ls.last());
        if w.len() >= 3 {
            lemma_mount_index(m, w[0]);
        }
    }
}

/// Of the paths of a device that come before the list is full, the shortest stays.
pub proof fn lemma_shortest_mount(ls: Seq<Seq<char>>, i: int)
    requires
        0 <= i < ls.len(),
        mount_line(words(ls[i])),
        mounts_of(ls.take(i)).len() < MAX_MOUNTS,
    ensures
        mount_index(mounts_of(ls), words(ls[i])[0]) < mounts_of(ls).len(),
        byte_len(mounts_of(ls)[mount_index(mounts_of(ls), words(ls[i])[0])].1) <= byte_len(
            words(ls[i])[1],
        ),
    decreases ls.len(),
{
    let t = ls.drop_last();
    let dev = words(ls[i])[0];
    let m = mounts_of(t);
    let w = words(ls.last());
    let r = mounts_of(ls);
    if w.len() >= 3 {
        lemma_mount_index(m, w[0]);
    }
    lemma_mount_index(m, dev);
    lemma_mount_index(r, dev);
    lemma_mounts(ls);
    if i == ls.len() - 1 {
        assert(ls.take(i) =~= t);
        let k = mount_index(m, dev);
        if k < m.len() {
            assert(r[k].0 == dev);
        } else {
            assert(r[m.len() as int].0 == dev);
        }
    } else {
        assert(t.take(i) =~= ls.take(i));
        assert(t[i] == ls[i]);
        lemma_shortest_mount(t, i);
        let k = mount_index(m, dev);
        assert(r[k].0 == dev);
        assert(byte_len(r[k].1) <= byte_len(m[k].1));
    }
    let a = mount_index(r, dev);
    assert(a < r.len()) by {
        if a == r.len() {
            assert(false);
        }
    }
}

/// Reads the mounts of local file systems off `/proc/mounts`: device, path, file system. Of a
/// device with several mounts the one with the shortest path is kept.
pub fn parse_mounts(s: &str) -> (r: Vec<(String, String, String)>)
    ensures
        views(r@) == mounts_of(lines(s@)),
{
    let v = chars_of(s);
    let ls = split_lines(v.as_slice());
    let ghost all = lines(s@);
    let mut out: Vec<(String, String, String)> = Vec::new();
    let mut i: usize = 0;
    assert(all.take(0) =~= Seq::empty());
    assert(views(out@) =~= mounts_of(all.take(0)));
    while i < ls.len()
        invariant
            all == lines(s@),
            all == views(ls@),
            i <= ls@.len(),
            views(out@) == mounts_of(all.take(i as int)),
            out@.len() < MAX_MOUNTS,
        decreases ls@.len() - i,
    {
        let ghost prev = views(out@);
        assert(all.take(i + 1).drop_last() =~= all.take(i as int));
        assert(all.take(i + 1).last() == ls@[i as int]@);
        let w = split_words(ls[i]);
        let ghost ws = words(all[i as int]);
        if w.len() >= 3 && is_local_fs(w[2]) && byte_count_of(w[1]) <= MAX_MOUNT_PATH {
            assert(ws[0] == w@[0]@ && ws[1] == w@[1]@ && ws[2] == w@[2]@);
            proof {
                lemma_mount_index(prev, ws[0]);
            }
            let mut k: usize = 0;
            while k < out.len() && !is_str(w[0], out[k].0.as_str())
                invariant
                    k <= out@.len(),
                    views(out@) == prev,
                    w@.len() >= 3,
                    ws[0] == w@[0]@,
                    forall|j: int| 0 <= j < k ==> (#[trigger] prev[j]).0 != ws[0],
                decreases out@.len() - k,
            {
                assert(prev[k as int].0 == out@[k as int].0@);
                k = k + 1;
            }
            if k < out.len() {
                assert(prev[k as int] == out@[k as int]@);
                assert(mount_index(prev, ws[0]) == k);
                if byte_count_of(w[1]) < crate::text::byte_count(out[k].1.as_str()) {
                    let path = string_of(w[1]);
                    out[k].1 = path;
                    assert(views(out@) =~= prev.update(
                        k as int,
                        (prev[k as int].0, ws[1], prev[k as int].2),
                    ));
                }
            } else {
                assert(mount_index(prev, ws[0]) == prev.len());
                out.push((string_of(w[0]), string_of(w[1]), string_of(w[2])));
                assert(views(out@) =~= prev.push((ws[0], ws[1], ws[2])));
                if out.len() >= MAX_MOUNTS {
                    proof {
                        lemma_mounts_full(all, i + 1);
                    }
                    return out;
                }
            }
        }
        i = i + 1;
    }
    assert(all.take(i as int) =~= all);
    out
}

// ---------------------------------------------------------------------------
// Temperature, processes, the name of the system
// ---------------------------------------------------------------------------

/// The temperature in thousandths of a degree that `s` gives, where it lies from -40 to 150
/// degrees.
pub open spec fn millidegrees(s: Seq<char>) -> Option<i64> {
    match parsed_i64(trimmed(s)) {
        Some(v) => if -40_000 <= v <= 150_000 {
            Some(v)
        } else {
            None
        },
        None => None,
    }
}

/// Reads a temperature, in thousandths of a degree.
pub fn parse_thermal_millideg(s: &str) -> (r: Option<i64>)
    ensures
        r == millidegrees(s@),
{
    let v = chars_of(s);
    match parse_i64(trim(v.as_slice())) {
        Some(t) => if -40_000 <= t && t <= 150_000 {
            Some(t)
        } else {
            None
        },
        None => None,
    }
}

/// What follows the name of the process in `/proc/[pid]/stat`: the name stands in brackets and
/// may hold brackets itself, so it ends at the last one, behind which one (ASCII) character
/// follows.
pub open spec fn stat_tail(s: Seq<char>) -> Option<Seq<char>> {
    let i = last_index(s, ')');
    if i >= 0 && i + 1 < s.len() && s[i + 1] <= '\u{7f}' {
        Some(s.skip(i + 2))
    } else {
        None
    }
}

/// The ticks that a process used and the pages that it holds, as `/proc/[pid]/stat` gives them.
pub open spec fn pid_stat(s: Seq<char>) -> Option<(u64, u64)> {
    match stat_tail(s) {
        Some(t) => {
            let w = words(t);
            if w.len() > 21 && parsed_u64(w[11]) is Some && parsed_u64(w[12]) is Some && parsed_u64(
                w[21],
            ) is Some {
                Some(
                    (
                        sat(parsed_u64(w[11])->0 as nat + parsed_u64(w[12])->0 as nat),
                        parsed_u64(w[21])->0,
                    ),
                )
            } else {
                None
            }
        },
        None => None,
    }
}

/// Reads the ticks that a process used and the pages that it holds off `/proc/[pid]/stat`.
pub fn parse_pid_stat(s: &str) -> (r: Option<(u64, u64)>)
    ensures
        r == pid_stat(s@),
{
    let v = chars_of(s);
    let n: usize = v.len();
    match rfind(v.as_slice(), ')') {
        None => None,
        Some(i) => {
            if i >= n - 1 || v[i + 1] > '\u{7f}' {
                return None;
            }
            let rest = slice_subrange(v.as_slice(), i + 2, n);
            assert(rest@ =~= s@.skip(i + 2));
            let w = split_words(rest);
            if w.len() <= 21 {
                return None;
            }
            let ghost ws = words(rest@);
            assert(ws[11] == w@[11]@ && ws[12] == w@[12]@ && ws[21] == w@[21]@);
            match (parse_u64(w[11]), parse_u64(w[12]), parse_u64(w[21])) {
                (Some(u), Some(k), Some(p)) => Some((u.saturating_add(k), p)),
                _ => None,
            }
        },
    }
}

/// The name of the process in `/proc/[pid]/stat`: what stands between the first opening and the
/// last closing bracket.
pub open spec fn pid_comm(s: Seq<char>) -> Option<Seq<char>> {
    let l = first_index(s, '(');
    let r = last_index(s, ')');
    if l < s.len() && r > l {
        Some(s.subrange(l + 1, r))
    } else {
        None
    }
}

/// Reads the name of the process off `/proc/[pid]/stat`.
pub fn parse_pid_comm(s: &str) -> (r: Option<String>)
    ensures
        r is Some <==> pid_comm(s@) is Some,
        r matches Some(c) ==> pid_comm(s@) == Some(c@),
{
    let v = chars_of(s);
    proof {
        lemma_first_index(s@, '(');
        lemma_last_index(s@, ')');
    }
    match (find(v.as_slice(), '('), rfind(v.as_slice(), ')')) {
        (Some(l), Some(r)) => if r > l {
            Some(string_of(slice_subrange(v.as_slice(), l + 1, r)))
        } else {
            None
        },
        _ => None,
    }
}

/// The name that a line of `/etc/os-release` gives to the system, if it does.
pub open spec fn pretty_line(l: Seq<char>) -> Option<Seq<char>> {
    if starts_with(l, "PRETTY_NAME="@) {
        let v = strip_end(strip_start(trimmed(l.skip("PRETTY_NAME="@.len() as int)), '"'), '"');
        if v.len() > 0 {
            Some(v)
        } else {
            None
        }
    } else {
        None
    }
}

/// The first name that the lines `ls` give to the system.
pub open spec fn pretty_name(ls: Seq<Seq<char>>) -> Option<Seq<char>>
    decreases ls.len(),
{
    if ls.len() == 0 {
        None
    } else if pretty_line(ls[0]) is Some {
        pretty_line(ls[0])
    } else {
        pretty_name(ls.drop_first())
    }
}

/// Reads the name of the system off `/etc/os-release`.
pub fn parse_os_release(s: &str) -> (r: Option<String>)
    ensures
        r is Some <==> pretty_name(lines(s@)) is Some,
        r matches Some(n) ==> pretty_name(lines(s@)) == Some(n@),
{
    let v = chars_of(s);
    let ls = split_lines(v.as_slice());
    let ghost all = lines(s@);
    let mut i: usize = 0;
    assert(all.skip(0) =~= all);
    while i < ls.len()
        invariant
            all == lines(s@),
            all == views(ls@),
            i <= ls@.len(),
            pretty_name(all) == pretty_name(all.skip(i as int)),
        decreases ls@.len() - i,
    {
        assert(all.skip(i as int)[0] == ls@[i as int]@);
        assert(all.skip(i as int).drop_first() =~= all.skip(i + 1));
        if let Some(rest) = strip_prefix(ls[i], "PRETTY_NAME=") {
            let name = drop_trailing(drop_leading(trim(rest), '"'), '"');
            if name.len() > 0 {
                return Some(string_of(name));
            }
        }
        i = i + 1;
    }
    assert(all.skip(i as int) =~= Seq::empty());
    None
}

} // verus!
