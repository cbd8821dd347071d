//! Samples of a machine: what the texts of the kernel say.

use crate::agent::collect::{
    any_zone_temp, conns_of, cpu_temp, cpu_zone_temp, distinct_names, host_of, is_process,
    merged, net_delta, opt_text, pages_sum, pid_of, pid_ticks, process_count,     read_cores, read_cpu, read_disks, read_mem, readable, row_index, sampled,
    service_states, snapshot_of, state_of, ticks_sum, top_ticks, tops_of, usage_of, usages,
    watch_now, watch_sum, zone_of_cpu, zone_temp, HostReadings, MountStat, NetRow, PidView,
    Readings, SamplerView, Zone,
};
use crate::agent::parsers::{
    colon_lines, core_line, core_times, cpu_total, disk_stats, first_with, kib,
    mem_info, mem_value, millidegrees, netdev_line, netdev_lines, number_or_0, past,
    physical_disk, pid_comm, pid_stat, pretty_line, pretty_name, sat, state_lines, sum_of,
    times_of, uptime_secs, CpuTimes,
};
use crate::metrics::{ContainerView, TopView};
use crate::num::{decimal, lemma_decimal, lemma_decimal_roundtrip, decimal_int, parsed_u64};
use crate::ranking::{larger_place, Placed};
use crate::text::{
    after, before, first_index, is_space, is_word, joined, last_index, lemma_first_index,
    lemma_last_index, lines, starts_with, trimmed, word_scan, words,
};
use crate::agent::collect::{net_deltas, read_nets};
use crate::ranking::{lemma_ordered, ordered};
use vstd::prelude::*;
use vstd::string::*;

verus! {

// ---------------------------------------------------------------------------
// Words and numbers
// ---------------------------------------------------------------------------

proof fn lemma_scan_word(t: Seq<char>, w: Seq<char>)
    requires
        forall|j: int| 0 <= j < w.len() ==> !is_space(#[trigger] w[j]),
    ensures
        word_scan(t + w) == (word_scan(t).0, word_scan(t).1 + w),
    decreases w.len(),
{
    if w.len() == 0 {
        assert(t + w =~= t);
        assert(word_scan(t).1 + w =~= word_scan(t).1);
    } else {
        lemma_scan_word(t, w.drop_last());
        assert((t + w).drop_last() =~= t + w.drop_last());
        assert(!is_space(w[w.len() - 1]));
        assert(word_scan(t).1 + w =~= (word_scan(t).1 + w.drop_last()).push(w.last()));
    }
}

proof fn lemma_scan_joined(ws: Seq<Seq<char>>)
    requires
        ws.len() > 0,
        forall|i: int| 0 <= i < ws.len() ==> is_word(#[trigger] ws[i]),
    ensures
        word_scan(joined(ws, ' ')) == (ws.drop_last(), ws.last()),
    decreases ws.len(),
{
    let w = ws.last();
    assert(is_word(ws[ws.len() - 1]));
    if ws.len() == 1 {
        lemma_scan_word(Seq::empty(), w);
        assert(Seq::<char>::empty() + w =~= w);
        assert(ws.drop_last() =~= Seq::empty());
    } else {
        let p = ws.drop_last();
        assert forall|i: int| 0 <= i < p.len() implies is_word(#[trigger] p[i]) by {
            assert(p[i] == ws[i]);
        }
        lemma_scan_joined(p);
        assert(is_word(p[p.len() - 1]));
        let t = joined(p, ' ').push(' ');
        assert(t.drop_last() =~= joined(p, ' '));
        assert(p.drop_last().push(p.last()) =~= p);
        lemma_scan_word(t, w);
        assert(Seq::<char>::empty() + w =~= w);
    }
}

/// Words with spaces between them are read back as they were.
pub proof fn lemma_words_come_back(ws: Seq<Seq<char>>)
    requires
        forall|i: int| 0 <= i < ws.len() ==> is_word(#[trigger] ws[i]),
    ensures
        words(joined(ws, ' ')) == ws,
{
    if ws.len() > 0 {
        lemma_scan_joined(ws);
        assert(is_word(ws[ws.len() - 1]));
        assert(ws.drop_last().push(ws.last()) =~= ws);
    } else {
        assert(words(joined(ws, ' ')) =~= ws);
    }
}

/// A number in decimal is read as that number.
pub proof fn lemma_number(n: u64)
    ensures
        parsed_u64(decimal(n as nat)) == Some(n),
        number_or_0(decimal(n as nat)) == n,
        is_word(decimal(n as nat)),
{
    lemma_decimal_roundtrip(n as int);
    lemma_decimal(n as nat);
}

// ---------------------------------------------------------------------------
// Processors
// ---------------------------------------------------------------------------

/// Of the eight times of a processor, all count as time that passed, and the fourth and fifth as idle;
/// what follows them counts for nothing.
pub proof fn lemma_times(w: Seq<Seq<char>>, n: Seq<u64>)
    requires
        w.len() >= 8,
        n.len() == 8,
        forall|i: int| 0 <= i < 8 ==> #[trigger] w[i] == decimal(n[i] as nat),
    ensures
        times_of(w) matches Some(t) && t.idle == sat((n[3] + n[4]) as nat) && t.total == sat(
            (n[0] + n[1] + n[2] + n[3] + n[4] + n[5] + n[6] + n[7]) as nat,
        ),
{
    assert forall|i: int| 0 <= i < 8 implies parsed_u64(#[trigger] w[i]) == Some(n[i]) by {
        lemma_number(n[i]);
    }
    reveal_with_fuel(sum_of, 9);
    assert(w[0] == decimal(n[0] as nat) && w[1] == decimal(n[1] as nat));
    assert(number_or_0(w[0]) == n[0] && number_or_0(w[1]) == n[1] && number_or_0(w[2]) == n[2]);
    assert(number_or_0(w[3]) == n[3] && number_or_0(w[4]) == n[4] && number_or_0(w[5]) == n[5]);
    assert(number_or_0(w[6]) == n[6] && number_or_0(w[7]) == n[7]);
}

/// A processor is never idle for longer than the time that passed.
pub proof fn lemma_idle_at_most_total(w: Seq<Seq<char>>)
    ensures
        times_of(w) matches Some(t) ==> t.idle <= t.total,
{
    reveal_with_fuel(sum_of, 9);
}

proof fn lemma_first_with(ls: Seq<Seq<char>>, p: Seq<char>, k: int)
    requires
        0 <= k < ls.len(),
        starts_with(ls[k], p),
        forall|i: int| 0 <= i < k ==> !starts_with(#[trigger] ls[i], p),
    ensures
        first_with(ls, p) == Some(ls[k]),
    decreases k,
{
    if k > 0 {
        assert(!starts_with(ls[0], p));
        let t = ls.drop_first();
        assert forall|i: int| 0 <= i < k - 1 implies !starts_with(#[trigger] t[i], p) by {
            assert(t[i] == ls[i + 1]);
        }
        lemma_first_with(t, p, k - 1);
    }
}

/// The time of all processors together stands on the first line that says so, behind its first word,
/// whatever the other lines hold.
pub proof fn lemma_line_of_all(s: Seq<char>, k: int)
    requires
        0 <= k < lines(s).len(),
        starts_with(lines(s)[k], "cpu "@),
        forall|i: int| 0 <= i < k ==> !starts_with(#[trigger] lines(s)[i], "cpu "@),
        words(lines(s)[k]).len() > 0,
    ensures
        cpu_total(s) == times_of(words(lines(s)[k]).skip(1)),
{
    lemma_first_with(lines(s), "cpu "@, k);
}

/// The times of single processors stand each on its own line, in the order of the lines: those of two
/// texts are those of the one and then those of the other.
pub proof fn lemma_lines_of_cores(a: Seq<Seq<char>>, b: Seq<Seq<char>>, l: Seq<char>)
    ensures
        core_times(a + b) == core_times(a) + core_times(b),
        !core_line(l) ==> core_times(seq![l]) == Seq::<CpuTimes>::empty(),
        core_line(l) && words(l.skip(3)).len() > 0 ==> core_times(seq![l]) == match times_of(
            words(l.skip(3)).skip(1),
        ) {
            Some(t) => seq![t],
            None => Seq::<CpuTimes>::empty(),
        },
    decreases b.len(),
{
    reveal_strlit("cpu");
    assert(seq![l].drop_last() =~= Seq::empty());
    assert(core_times(Seq::<Seq<char>>::empty()) =~= Seq::empty());
    if core_line(l) && words(l.skip(3)).len() > 0 {
        match times_of(words(l.skip(3)).skip(1)) {
            Some(t) => {
                assert(Seq::<CpuTimes>::empty().push(t) =~= seq![t]);
            },
            None => {},
        }
    }
    if b.len() == 0 {
        assert(a + b =~= a);
        assert(core_times(a) + core_times(b) =~= core_times(a));
    } else {
        lemma_lines_of_cores(a, b.drop_last(), l);
        assert((a + b).drop_last() =~= a + b.drop_last());
        assert(core_times(a + b) =~= core_times(a) + core_times(b));
    }
}

// ---------------------------------------------------------------------------
// Memory
// ---------------------------------------------------------------------------

/// The name of a line: its first word.
pub open spec fn named(l: Seq<char>, key: Seq<char>) -> bool {
    words(l).len() > 0 && words(l)[0] == key
}

proof fn lemma_mem_value_last(ls: Seq<Seq<char>>, key: Seq<char>, k: int)
    requires
        0 <= k < ls.len(),
        named(ls[k], key),
        forall|i: int| k < i < ls.len() ==> !named(#[trigger] ls[i], key),
    ensures
        mem_value(ls, key) == kib(words(ls[k])),
    decreases ls.len(),
{
    if k < ls.len() - 1 {
        let t = ls.drop_last();
        assert(!named(ls[ls.len() - 1], key));
        assert forall|i: int| k < i < t.len() implies !named(#[trigger] t[i], key) by {
            assert(t[i] == ls[i]);
        }
        lemma_mem_value_last(t, key, k);
    }
}

proof fn lemma_mem_value_none(ls: Seq<Seq<char>>, key: Seq<char>)
    requires
        forall|i: int| 0 <= i < ls.len() ==> !named(#[trigger] ls[i], key),
    ensures
        mem_value(ls, key) == 0,
    decreases ls.len(),
{
    if ls.len() > 0 {
        let t = ls.drop_last();
        assert(!named(ls[ls.len() - 1], key));
        assert forall|i: int| 0 <= i < t.len() implies !named(#[trigger] t[i], key) by {
            assert(t[i] == ls[i]);
        }
        lemma_mem_value_none(t, key);
    }
}

/// What a name stands for is the number on the last line of that name, in units of 1024 bytes, and 0
/// where there is no such line.
pub proof fn lemma_memory_by_name(ls: Seq<Seq<char>>, key: Seq<char>, k: int, n: u64)
    ensures
        0 <= k < ls.len() && named(ls[k], key) && words(ls[k]).len() > 1 && words(ls[k])[1]
            == decimal(n as nat) && (forall|i: int| k < i < ls.len() ==> !named(#[trigger] ls[i], key))
            && n * 1024 <= u64::MAX ==> mem_value(ls, key) == n * 1024,
        (forall|i: int| 0 <= i < ls.len() ==> !named(#[trigger] ls[i], key)) ==> mem_value(ls, key)
            == 0,
{
    lemma_number(n);
    if 0 <= k < ls.len() && named(ls[k], key) && (forall|i: int|
        k < i < ls.len() ==> !named(#[trigger] ls[i], key)) {
        lemma_mem_value_last(ls, key, k);
    }
    if forall|i: int| 0 <= i < ls.len() ==> !named(#[trigger] ls[i], key) {
        lemma_mem_value_none(ls, key);
    }
}

/// The total is what `MemTotal` says. What is available is what `MemAvailable` says, where it says
/// anything, and free memory, buffers and caches together where it does not; never more than the
/// total. Used swap is what `SwapFree` leaves of `SwapTotal`.
pub proof fn lemma_memory(ls: Seq<Seq<char>>)
    ensures
        ({
            let m = mem_info(ls);
            let told = mem_value(ls, "MemAvailable:"@);
            let parts = mem_value(ls, "MemFree:"@) + mem_value(ls, "Buffers:"@) + mem_value(
                ls,
                "Cached:"@,
            );
            &&& m.total == mem_value(ls, "MemTotal:"@)
            &&& m.available <= m.total
            &&& 0 < told <= m.total ==> m.available == told
            &&& told > m.total ==> m.available == m.total
            &&& told == 0 && parts <= m.total ==> m.available == parts
            &&& told == 0 && parts > m.total ==> m.available == m.total
            &&& m.swap_total == mem_value(ls, "SwapTotal:"@)
            &&& m.swap_used <= m.swap_total
            &&& mem_value(ls, "SwapFree:"@) <= m.swap_total ==> m.swap_used + mem_value(
                ls,
                "SwapFree:"@,
            ) == m.swap_total
        }),
{
}

proof fn lemma_mem_value_without(ls: Seq<Seq<char>>, key: Seq<char>, k: int)
    requires
        0 <= k < ls.len(),
        !named(ls[k], key),
    ensures
        mem_value(ls.remove(k), key) == mem_value(ls, key),
    decreases ls.len(),
{
    if k == ls.len() - 1 {
        assert(ls.remove(k) =~= ls.drop_last());
    } else {
        lemma_mem_value_without(ls.drop_last(), key, k);
        assert(ls.remove(k).drop_last() =~= ls.drop_last().remove(k));
        assert(ls.remove(k).last() == ls.last());
    }
}

/// Where the text tells an available memory other than 0 and not above the total, the available memory
/// is exactly that number times 1024.
pub proof fn lemma_available(ls: Seq<Seq<char>>, k: int, n: u64)
    requires
        0 <= k < ls.len(),
        named(ls[k], "MemAvailable:"@),
        forall|i: int| k < i < ls.len() ==> !named(#[trigger] ls[i], "MemAvailable:"@),
        words(ls[k]).len() > 1,
        words(ls[k])[1] == decimal(n as nat),
        0 < n * 1024 <= mem_info(ls).total,
    ensures
        mem_info(ls).available == n * 1024,
{
    lemma_memory_by_name(ls, "MemAvailable:"@, k, n);
    lemma_memory(ls);
}

/// Where the kernel tells what is available, no line but those named `MemTotal` and `MemAvailable` has
/// a say in it: any other can be taken away. Of swap only its own two lines have a say.
pub proof fn lemma_available_as_told(ls: Seq<Seq<char>>, k: int)
    requires
        0 <= k < ls.len(),
    ensures
        mem_value(ls, "MemAvailable:"@) != 0 && !named(ls[k], "MemTotal:"@) && !named(
            ls[k],
            "MemAvailable:"@,
        ) ==> mem_info(ls.remove(k)).available == mem_info(ls).available,
        !named(ls[k], "MemTotal:"@) ==> mem_info(ls.remove(k)).total == mem_info(ls).total,
        !named(ls[k], "SwapTotal:"@) && !named(ls[k], "SwapFree:"@) ==> mem_info(
            ls.remove(k),
        ).swap_used == mem_info(ls).swap_used && mem_info(ls.remove(k)).swap_total == mem_info(
            ls,
        ).swap_total,
{
    if !named(ls[k], "MemTotal:"@) {
        lemma_mem_value_without(ls, "MemTotal:"@, k);
    }
    if !named(ls[k], "MemAvailable:"@) {
        lemma_mem_value_without(ls, "MemAvailable:"@, k);
    }
    if !named(ls[k], "SwapTotal:"@) {
        lemma_mem_value_without(ls, "SwapTotal:"@, k);
    }
    if !named(ls[k], "SwapFree:"@) {
        lemma_mem_value_without(ls, "SwapFree:"@, k);
    }
}

// ---------------------------------------------------------------------------
// Networks, connections, disks
// ---------------------------------------------------------------------------

/// The line of an interface gives its name, what it received as the first number behind the colon and
/// what it sent as the ninth. The interface of the machine with itself is left out.
pub proof fn lemma_interface(name: Seq<char>, n: Seq<u64>, rest: Seq<Seq<char>>)
    requires
        is_word(name),
        !name.contains(':'),
        crate::text::byte_len(name) <= 32,
        name != "lo"@,
        n.len() == 9,
        forall|i: int| 0 <= i < rest.len() ==> is_word(#[trigger] rest[i]),
        trimmed(name) == name,
    ensures
        ({
            let ws = n.map_values(|x: u64| decimal(x as nat)) + rest;
            netdev_line(name + seq![':'] + joined(ws, ' ')) == Some((name, n[0], n[8]))
        }),
{
    let ws = n.map_values(|x: u64| decimal(x as nat)) + rest;
    let l = name + seq![':'] + joined(ws, ' ');
    assert forall|i: int| 0 <= i < ws.len() implies is_word(#[trigger] ws[i]) by {
        if i < 9 {
            lemma_number(n[i]);
        } else {
            assert(ws[i] == rest[i - 9]);
        }
    }
    lemma_words_come_back(ws);
    lemma_first_index(l, ':');
    assert(l[name.len() as int] == ':');
    assert(l.contains(':'));
    let k = first_index(l, ':');
    assert(k == name.len()) by {
        if k < name.len() {
            assert(name[k] == l[k]);
            assert(name.contains(':'));
        }
    }
    assert(before(l, ':') =~= name);
    assert(after(l, ':') =~= joined(ws, ' '));
    assert(ws[0] == decimal(n[0] as nat) && ws[8] == decimal(n[8] as nat));
    lemma_number(n[0]);
    lemma_number(n[8]);
}

/// Interfaces stand in the order of their lines, and each line that is none is passed over, as long as
/// the limit is not reached.
pub proof fn lemma_interfaces(a: Seq<Seq<char>>, l: Seq<char>)
    ensures
        netdev_lines(a).len() < 32 ==> netdev_lines(a.push(l)) == match netdev_line(l) {
            Some(e) => netdev_lines(a).push(e),
            None => netdev_lines(a),
        },
        netdev_lines(a).len() >= 32 ==> netdev_lines(a.push(l)) == netdev_lines(a),
{
    assert(a.push(l).drop_last() =~= a);
}

/// The connections of a machine are the lines of both tables that hold one; those in a state are the
/// lines whose fourth word is its code.
pub proof fn lemma_connections(ls: Seq<Seq<char>>, code: Seq<char>)
    ensures
        colon_lines(ls) == ls.filter(|l: Seq<char>| l.contains(':')).len(),
        state_lines(ls, code) == ls.filter(
            |l: Seq<char>| words(l).len() > 3 && words(l)[3] == code,
        ).len(),
    decreases ls.len(),
{
    reveal(Seq::filter);
    if ls.len() > 0 {
        lemma_connections(ls.drop_last(), code);
    }
}

/// Both tables of connections count, and a table that cannot be read counts for nothing; where neither
/// can be read, nothing is said. The order of the two does not matter.
pub proof fn lemma_both_tables(a: Option<Seq<char>>, b: Option<Seq<char>>, code: Seq<char>)
    ensures
        conns_of(a, b) is None <==> a is None && b is None,
        conns_of(a, b) == conns_of(b, a),
        conns_of(a, None) is Some && conns_of(None, b) is Some && (conns_of(a, None)->0)
            + (conns_of(None, b)->0) <= u32::MAX ==> conns_of(a, b) == Some(
            (conns_of(a, None)->0 + conns_of(None, b)->0) as u32,
        ),
        state_of(a, b, code) is None <==> a is None && b is None,
        state_of(a, b, code) == state_of(b, a, code),
        a matches Some(s) && colon_lines(past(lines(s), 1)) <= u32::MAX ==> conns_of(a, None)
            == Some(colon_lines(past(lines(a->0), 1)) as u32),
        a matches Some(s) && state_lines(past(lines(s), 1), code) <= u32::MAX ==> state_of(
            a,
            None,
            code,
        ) == Some(state_lines(past(lines(a->0), 1), code) as u32),
{
}

/// What a sample says of connections is what the tables say: the states by their codes.
pub proof fn lemma_sampled_connections(v: SamplerView, r: Readings)
    ensures
        ({
            let s = snapshot_of(v, r);
            let (a, b) = (opt_text(r.tcp), opt_text(r.tcp6));
            &&& s.tcp_conns == conns_of(a, b)
            &&& s.tcp_estab == state_of(a, b, seq!['0', '1'])
            &&& s.tcp_listen == state_of(a, b, seq!['0', 'A'])
            &&& s.tcp_time_wait == state_of(a, b, seq!['0', '6'])
        }),
{
    reveal_strlit("01");
    reveal_strlit("0A");
    reveal_strlit("06");
    assert("01"@ =~= seq!['0', '1']);
    assert("0A"@ =~= seq!['0', 'A']);
    assert("06"@ =~= seq!['0', '6']);
}

/// The line of a whole disk gives the reads as its fourth word and the writes as its eighth, and the
/// sectors of 512 bytes behind each as the sixth and the tenth. Any other line gives nothing.
pub proof fn lemma_disk_line(l: Seq<char>, reads: u64, read: u64, writes: u64, written: u64)
    requires
        words(l).len() > 9,
        words(l)[3] == decimal(reads as nat),
        words(l)[5] == decimal(read as nat),
        words(l)[7] == decimal(writes as nat),
        words(l)[9] == decimal(written as nat),
        read * 512 <= u64::MAX,
        written * 512 <= u64::MAX,
    ensures
        ({
            let d = disk_stats(seq![l]);
            if physical_disk(words(l)[2]) {
                &&& d.read_ops == reads
                &&& d.write_ops == writes
                &&& d.read_bytes == 512 * read
                &&& d.write_bytes == 512 * written
            } else {
                d.read_ops == 0 && d.write_ops == 0 && d.read_bytes == 0 && d.write_bytes == 0
            }
        }),
{
    lemma_number(reads);
    lemma_number(read);
    lemma_number(writes);
    lemma_number(written);
    reveal_with_fuel(crate::agent::parsers::disk_sum, 2);
    assert(seq![l].drop_last() =~= Seq::empty());
}

/// The use of a file system is what its free blocks leave of all its blocks, and its inodes likewise; one
/// without blocks is none.
pub proof fn lemma_file_system(m: MountStat)
    requires
        m.stat is Some,
        (m.stat->0).blocks * (m.stat->0).frsize <= u64::MAX,
        (m.stat->0).bfree <= (m.stat->0).blocks,
        (m.stat->0).ffree <= (m.stat->0).files,
    ensures
        ({
            let s = m.stat->0;
            &&& usage_of(m) is None <==> s.blocks == 0 || s.frsize == 0
            &&& usage_of(m) matches Some(d) ==> {
                &&& d.mount == m.mount@
                &&& d.fs == m.fs@
                &&& d.total == s.blocks * s.frsize
                &&& d.used + s.bfree * s.frsize == d.total
                &&& d.inodes_total == s.files
                &&& d.inodes_used + s.ffree == d.inodes_total
            }
        }),
{
    let s = m.stat->0;
    assert(s.bfree * s.frsize <= s.blocks * s.frsize) by (nonlinear_arith)
        requires
            s.bfree <= s.blocks,
            0 <= s.frsize,
    ;
    assert(0 <= s.bfree * s.frsize) by (nonlinear_arith)
        requires
            0 <= s.bfree,
            0 <= s.frsize,
    ;
    assert(s.blocks * s.frsize == 0 <==> s.blocks == 0 || s.frsize == 0) by (nonlinear_arith)
        requires
            0 <= s.blocks,
            0 <= s.frsize,
    ;
}

/// File systems are reported in their order, up to sixteen.
pub proof fn lemma_file_systems(ms: Seq<MountStat>, n: int)
    requires
        0 < n <= ms.len(),
    ensures
        usages(ms, n).len() <= 16,
        usages(ms, n - 1).len() < 16 ==> usages(ms, n) == match usage_of(
            ms[n - 1],
        ) {
            Some(d) => usages(ms, n - 1).push(d),
            None => usages(ms, n - 1),
        },
    decreases n,
{
    if n > 1 {
        lemma_file_systems(ms, n - 1);
    } else {
        assert(usages(ms, 0).len() == 0);
    }
}

/// The time since the start of a machine is the whole seconds before the point of the first number,
/// whatever follows.
pub proof fn lemma_uptime(n: u64, fraction: Seq<char>, rest: Seq<Seq<char>>)
    requires
        forall|j: int| 0 <= j < fraction.len() ==> !is_space(#[trigger] fraction[j]),
        forall|i: int| 0 <= i < rest.len() ==> is_word(#[trigger] rest[i]),
    ensures
        uptime_secs(joined(seq![decimal(n as nat) + seq!['.'] + fraction] + rest, ' ')) == n,
{
    lemma_number(n);
    let d = decimal(n as nat);
    lemma_decimal(n as nat);
    let s = d + seq!['.'] + fraction;
    assert forall|j: int| 0 <= j < s.len() implies !is_space(#[trigger] s[j]) by {
        if j < d.len() {
            assert(s[j] == d[j]);
        } else if j > d.len() {
            assert(s[j] == fraction[j - d.len() - 1]);
        }
    }
    let w = seq![s] + rest;
    assert forall|i: int| 0 <= i < w.len() implies is_word(#[trigger] w[i]) by {
        if i > 0 {
            assert(w[i] == rest[i - 1]);
        }
    }
    lemma_words_come_back(w);
    assert(w[0] == s);
    lemma_first_index(s, '.');
    assert(s[d.len() as int] == '.');
    let k = first_index(s, '.');
    assert(k == d.len()) by {
        if k < d.len() {
            assert(s[k] == d[k]);
            assert(crate::text::is_digit(d[k]));
        }
    }
    assert(before(s, '.') =~= d);
}

/// A temperature is what the sensor says, where a sensor can say it.
pub proof fn lemma_temperature(n: int)
    requires
        i64::MIN <= n <= i64::MAX,
        trimmed(decimal_int(n)) == decimal_int(n),
    ensures
        millidegrees(decimal_int(n)) == if -40_000 <= n && n <= 150_000 {
            Some(n as i64)
        } else {
            None
        },
{
    lemma_decimal_roundtrip(n);
}

/// The temperature of a machine is that of some sensor that says one: of the first that belongs to the
/// processor, and of the first of all where none does.
pub proof fn lemma_sensor(zs: Seq<Zone>, k: int)
    requires
        0 <= k < zs.len(),
        zone_temp(zs[k]) is Some,
    ensures
        zone_of_cpu(zs[k]) && (forall|i: int|
            0 <= i < k ==> !(zone_of_cpu(#[trigger] zs[i]) && zone_temp(zs[i]) is Some)) ==> cpu_temp(zs)
            == zone_temp(zs[k]),
        (forall|i: int| 0 <= i < k ==> zone_temp(#[trigger] zs[i]) is None) && (forall|i: int|
            0 <= i < zs.len() ==> !(zone_of_cpu(#[trigger] zs[i]) && zone_temp(zs[i]) is Some))
            ==> cpu_temp(zs) == zone_temp(zs[k]),
{
    lemma_cpu_zone(zs, k, zs.len() as int);
    lemma_any_zone(zs, k, zs.len() as int);
}

proof fn lemma_cpu_zone(zs: Seq<Zone>, k: int, n: int)
    requires
        0 <= k < zs.len(),
        0 <= n <= zs.len(),
        zone_temp(zs[k]) is Some,
    ensures
        zone_of_cpu(zs[k]) && (forall|i: int|
            0 <= i < k ==> !(zone_of_cpu(#[trigger] zs[i]) && zone_temp(zs[i]) is Some)) ==> cpu_zone_temp(
            zs,
            n,
        ) == if k < n {
            zone_temp(zs[k])
        } else {
            None
        },
        (forall|i: int|
            0 <= i < zs.len() ==> !(zone_of_cpu(#[trigger] zs[i]) && zone_temp(zs[i]) is Some))
            ==> cpu_zone_temp(zs, n) is None,
    decreases n,
{
    if n > 0 {
        lemma_cpu_zone(zs, k, n - 1);
        let z = zs[n - 1];
        assert(zone_of_cpu(zs[n - 1]) || !zone_of_cpu(z));
    }
}

proof fn lemma_any_zone(zs: Seq<Zone>, k: int, n: int)
    requires
        0 <= k < zs.len(),
        0 <= n <= zs.len(),
        zone_temp(zs[k]) is Some,
    ensures
        (forall|i: int| 0 <= i < k ==> zone_temp(#[trigger] zs[i]) is None) ==> any_zone_temp(zs, n)
            == if k < n {
            zone_temp(zs[k])
        } else {
            None
        },
    decreases n,
{
    if n > 0 {
        lemma_any_zone(zs, k, n - 1);
        let z = zs[n - 1];
        assert(zone_temp(zs[n - 1]) == zone_temp(z));
    }
}

// ---------------------------------------------------------------------------
// Processes
// ---------------------------------------------------------------------------

/// The name of a process stands between the first opening and the last closing bracket, whatever it
/// holds; brackets and spaces in it do no harm.
pub proof fn lemma_process_name(head: Seq<char>, name: Seq<char>, tail: Seq<char>)
    requires
        !head.contains('('),
        !tail.contains(')'),
    ensures
        pid_comm(head + seq!['('] + name + seq![')'] + tail) == Some(name),
{
    let s = head + seq!['('] + name + seq![')'] + tail;
    lemma_first_index(s, '(');
    lemma_last_index(s, ')');
    let (l, r) = (first_index(s, '('), last_index(s, ')'));
    let e = head.len() + 1 + name.len();
    assert(s[head.len() as int] == '(');
    assert(s[e as int] == ')');
    assert(l == head.len()) by {
        if l < head.len() {
            assert(s[l] == head[l]);
        }
    }
    assert(r == e) by {
        if r > e {
            assert(s[r] == tail[r - e - 1]);
        }
    }
    assert(s.subrange(l + 1, r) =~= name);
}

/// What a process has used of the processors is what it used itself and what the kernel used for it, and
/// its memory is the pages it holds: the numbers by their places behind the name.
pub proof fn lemma_process_numbers(
    head: Seq<char>,
    tail: Seq<char>,
    user: u64,
    system: u64,
    pages: u64,
)
    requires
        !tail.contains(')'),
        words(tail).len() > 21,
        words(tail)[11] == decimal(user as nat),
        words(tail)[12] == decimal(system as nat),
        words(tail)[21] == decimal(pages as nat),
        user + system <= u64::MAX,
    ensures
        pid_stat(head + seq![')', ' '] + tail) == Some(((user + system) as u64, pages)),
{
    let s = head + seq![')', ' '] + tail;
    lemma_last_index(s, ')');
    let r = last_index(s, ')');
    assert(s[head.len() as int] == ')');
    assert(s[(head.len() + 1) as int] == ' ');
    assert(r == head.len()) by {
        if r > head.len() {
            if r > head.len() + 1 {
                assert(s[r] == tail[r - head.len() - 2]);
            }
        }
    }
    assert(s.skip(r + 2) =~= tail);
    lemma_number(user);
    lemma_number(system);
    lemma_number(pages);
}

/// A watched name stands for all processes of that name, each once: what two lists of processes give
/// is what both together give, and a process of another name gives nothing.
pub proof fn lemma_watched_add_up(a: Seq<PidView>, b: Seq<PidView>, name: Seq<char>, p: PidView)
    ensures
        ticks_sum(a + b, name) == ticks_sum(a, name) + ticks_sum(b, name),
        pages_sum(a + b, name) == pages_sum(a, name) + pages_sum(b, name),
        process_count(a + b, name) == process_count(a, name) + process_count(b, name),
        process_count(a, name) == a.filter(|x: PidView| is_process(x, name)).len(),
        is_process(p, name) ==> pid_comm(p.stat) == Some(name),
        is_process(p, name) ==> ticks_sum(seq![p], name) == (pid_stat(p.stat)->0).0 && pages_sum(
            seq![p],
            name,
        ) == (pid_stat(p.stat)->0).1,
        !is_process(p, name) ==> ticks_sum(seq![p], name) == 0 && pages_sum(seq![p], name) == 0,
        pages_sum(a, name) * 4096 <= u64::MAX ==> watch_sum(a, name).rss == pages_sum(a, name) * 4096,
        ticks_sum(a, name) <= u64::MAX ==> watch_sum(a, name).jiffies == ticks_sum(a, name),
        process_count(a, name) <= u32::MAX ==> watch_sum(a, name).count == process_count(a, name),
        watch_sum(a, name).name == name,
    decreases a.len() + b.len(),
{
    reveal_with_fuel(ticks_sum, 2);
    reveal_with_fuel(pages_sum, 2);
    assert(seq![p].drop_last() =~= Seq::empty());
    lemma_process_count(a, name);
    if b.len() == 0 {
        assert(a + b =~= a);
    } else {
        lemma_watched_add_up(a, b.drop_last(), name, p);
        assert((a + b).drop_last() =~= a + b.drop_last());
        assert((a + b).last() == b.last());
    }
}

proof fn lemma_process_count(a: Seq<PidView>, name: Seq<char>)
    ensures
        process_count(a, name) == a.filter(|x: PidView| is_process(x, name)).len(),
    decreases a.len(),
{
    reveal(Seq::filter);
    if a.len() > 0 {
        lemma_process_count(a.drop_last(), name);
    }
}

/// Names that are watched twice are watched once, and none is lost.
pub proof fn lemma_names_once(names: Seq<Seq<char>>)
    ensures
        distinct_names(names).no_duplicates(),
        forall|n: Seq<char>| #[trigger] distinct_names(names).contains(n) <==> names.contains(n),
    decreases names.len(),
{
    if names.len() > 0 {
        let t = names.drop_last();
        lemma_names_once(t);
        let d = distinct_names(t);
        let e = distinct_names(names);
        let x = names.last();
        assert forall|n: Seq<char>| #[trigger] e.contains(n) implies names.contains(n) by {
            let j = choose|j: int| 0 <= j < e.len() && e[j] == n;
            if j < d.len() {
                assert(d[j] == n);
                assert(d.contains(n));
                let i = choose|i: int| 0 <= i < t.len() && t[i] == n;
                assert(names[i] == n);
            } else {
                assert(names[names.len() - 1] == n);
            }
        }
        assert forall|n: Seq<char>| #[trigger] names.contains(n) implies e.contains(n) by {
            let i = choose|i: int| 0 <= i < names.len() && names[i] == n;
            if i < t.len() {
                assert(t[i] == n);
                assert(t.contains(n));
                assert(d.contains(n));
                let j = choose|j: int| 0 <= j < d.len() && d[j] == n;
                assert(e[j] == n);
            } else {
                if d.contains(n) {
                    let j = choose|j: int| 0 <= j < d.len() && d[j] == n;
                    assert(e[j] == n);
                } else {
                    assert(e[e.len() - 1] == n);
                }
            }
        }
        assert forall|i: int, j: int| 0 <= i < j < e.len() implies e[i] != e[j] by {
            if j == d.len() {
                assert(d[i] == e[i]);
                assert(d.contains(e[i]));
            } else {
                assert(d[i] == e[i] && d[j] == e[j]);
            }
        }
    }
}

/// What a process used since the last sample is what its counter grew by; one that was not there then has
/// used nothing yet.
pub proof fn lemma_growth_of_a_process(p: PidView, earlier: Map<u32, u64>, ticks: u64, pages: u64)
    requires
        pid_stat(p.stat) == Some((ticks, pages)),
        pages * 4096 <= u64::MAX,
    ensures
        top_ticks(p, earlier).rss == pages * 4096,
        Some(top_ticks(p, earlier).name) == pid_comm(p.stat) || pid_comm(p.stat) is None,
        !earlier.contains_key(pid_of(p)) ==> top_ticks(p, earlier).ticks == 0,
        earlier.contains_key(pid_of(p)) && earlier[pid_of(p)] <= ticks ==> top_ticks(
            p,
            earlier,
        ).ticks + earlier[pid_of(p)] == ticks,
{
}

/// The processes of one list after those of another: each that can be read gives one entry, in order.
pub proof fn lemma_processes_in_order(a: Seq<PidView>, b: Seq<PidView>, earlier: Map<u32, u64>)
    ensures
        tops_of(a + b, earlier) == tops_of(a, earlier) + tops_of(b, earlier),
        tops_of(a, earlier).len() == a.filter(|x: PidView| readable(x)).len(),
    decreases b.len(),
{
    lemma_tops_count(a, earlier);
    if b.len() == 0 {
        assert(a + b =~= a);
        assert(tops_of(a, earlier) + tops_of(b, earlier) =~= tops_of(a, earlier));
    } else {
        lemma_processes_in_order(a, b.drop_last(), earlier);
        assert((a + b).drop_last() =~= a + b.drop_last());
        assert(tops_of(a + b, earlier) =~= tops_of(a, earlier) + tops_of(b, earlier));
    }
}

proof fn lemma_tops_count(a: Seq<PidView>, earlier: Map<u32, u64>)
    ensures
        tops_of(a, earlier).len() == a.filter(|x: PidView| readable(x)).len(),
    decreases a.len(),
{
    reveal(Seq::filter);
    if a.len() > 0 {
        lemma_tops_count(a.drop_last(), earlier);
    }
}

/// What is remembered of the processes is the counter of each, by its number.
pub proof fn lemma_counters_remembered(pids: Seq<PidView>, k: int)
    requires
        0 <= k < pids.len(),
        readable(pids[k]),
        forall|i: int|
            k < i < pids.len() && readable(#[trigger] pids[i]) ==> pid_of(pids[i]) != pid_of(pids[k]),
    ensures
        pid_ticks(pids).contains_key(pid_of(pids[k])),
        pid_ticks(pids)[pid_of(pids[k])] == (pid_stat(pids[k].stat)->0).0,
    decreases pids.len(),
{
    if k < pids.len() - 1 {
        let t = pids.drop_last();
        assert forall|i: int| k < i < t.len() && readable(#[trigger] t[i]) implies pid_of(t[i])
            != pid_of(t[k]) by {
            assert(t[i] == pids[i]);
        }
        lemma_counters_remembered(t, k);
        if readable(pids[pids.len() - 1]) {
            assert(pid_of(pids[pids.len() - 1]) != pid_of(pids[k]));
        }
    }
}

/// A busier process comes first; of two that are equally busy, the one that holds more memory. A busier
/// container comes first.
pub proof fn lemma_busier_first(a: TopView, b: TopView, x: ContainerView, y: ContainerView)
    requires
        a.cpu_pct.finite(),
        b.cpu_pct.finite(),
        x.cpu_pct.finite(),
        y.cpu_pct.finite(),
    ensures
        larger_place(a.place(), b.place()) <==> (a.cpu_pct.scaled() > b.cpu_pct.scaled() || (
        a.cpu_pct.scaled() == b.cpu_pct.scaled() && a.rss > b.rss)),
        larger_place(x.place(), y.place()) <==> x.cpu_pct.scaled() > y.cpu_pct.scaled(),
{
    crate::measure::lemma_rank_orders(a.cpu_pct, b.cpu_pct);
    crate::measure::lemma_rank_orders(b.cpu_pct, a.cpu_pct);
    crate::measure::lemma_rank_orders(x.cpu_pct, y.cpu_pct);
    crate::measure::lemma_rank_orders(y.cpu_pct, x.cpu_pct);
}

// ---------------------------------------------------------------------------
// Two samples
// ---------------------------------------------------------------------------

proof fn lemma_row_index(rows: Seq<NetRow>, name: Seq<char>)
    ensures
        0 <= row_index(rows, name) <= rows.len(),
        row_index(rows, name) < rows.len() ==> rows[row_index(rows, name)].0 == name,
        forall|i: int| 0 <= i < row_index(rows, name) ==> (#[trigger] rows[i]).0 != name,
    decreases rows.len(),
{
    if rows.len() > 0 && rows[0].0 != name {
        let t = rows.drop_first();
        lemma_row_index(t, name);
        assert forall|i: int| 0 <= i < row_index(rows, name) implies (#[trigger] rows[i]).0
            != name by {
            if i > 0 {
                assert(rows[i] == t[i - 1]);
            }
        }
    }
}

/// No name stands twice.
pub open spec fn names_differ(rows: Seq<NetRow>) -> bool {
    forall|i: int, j: int|
        #![trigger rows[i], rows[j]]
        0 <= i < j < rows.len() ==> rows[i].0 != rows[j].0
}

/// Of lines about one interface the last counts, and every interface is kept.
pub proof fn lemma_one_line_each(rows: Seq<NetRow>, k: int)
    requires
        0 <= k < rows.len(),
        forall|i: int| k < i < rows.len() ==> (#[trigger] rows[i]).0 != rows[k].0,
    ensures
        names_differ(merged(rows)),
        merged(rows).contains(rows[k]),
    decreases rows.len(),
{
    lemma_merged_differ(rows);
    let n = rows.len() - 1;
    let t = rows.drop_last();
    let rest = merged(t);
    lemma_row_index(rest, rows[n].0);
    let j = row_index(rest, rows[n].0);
    if k == n {
        if j < rest.len() {
            assert(merged(rows)[j] == rows[n]);
        } else {
            assert(merged(rows)[rest.len() as int] == rows[n]);
        }
    } else {
        assert forall|i: int| k < i < t.len() implies (#[trigger] t[i]).0 != t[k].0 by {
            assert(t[i] == rows[i]);
        }
        lemma_one_line_each(t, k);
        assert(rows[n].0 != rows[k].0);
        let x = choose|x: int| 0 <= x < rest.len() && rest[x] == rows[k];
        assert(merged(rows)[x] == rows[k]);
    }
}

proof fn lemma_merged_differ(rows: Seq<NetRow>)
    ensures
        names_differ(merged(rows)),
    decreases rows.len(),
{
    if rows.len() > 0 {
        let rest = merged(rows.drop_last());
        lemma_merged_differ(rows.drop_last());
        lemma_row_index(rest, rows.last().0);
    }
}

/// What an interface received and sent is held against its own counters of the last sample; one that was
/// not there then has neither received nor sent anything yet.
pub proof fn lemma_interface_grows(row: NetRow, earlier: Seq<NetRow>, k: int)
    requires
        names_differ(earlier),
    ensures
        net_delta(row, earlier).name == row.0,
        net_delta(row, earlier).rx == row.1,
        net_delta(row, earlier).tx == row.2,
        0 <= k < earlier.len() && earlier[k].0 == row.0 ==> net_delta(row, earlier).prev_rx
            == earlier[k].1 && net_delta(row, earlier).prev_tx == earlier[k].2,
        (forall|i: int| 0 <= i < earlier.len() ==> (#[trigger] earlier[i]).0 != row.0)
            ==> net_delta(row, earlier).prev_rx == row.1 && net_delta(row, earlier).prev_tx == row.2,
{
    lemma_row_index(earlier, row.0);
    let j = row_index(earlier, row.0);
    if 0 <= k < earlier.len() && earlier[k].0 == row.0 {
        if j < k {
            assert(earlier[j].0 != earlier[k].0);
        } else if k < j {
            assert(earlier[k].0 != row.0);
        }
    }
}

/// The second of two samples counts from the first: the time between them, what the processors did in
/// it, and the disks before and after. Sampling keeps what was set.
pub proof fn lemma_two_samples(v: SamplerView, r1: Readings, r2: Readings)
    requires
        read_cpu(r1) is Some,
        read_cpu(r2) is Some,
        r1.at <= r2.at,
    ensures
        ({
            let w = sampled(v, r1);
            let (a, b) = (read_cpu(r1)->0, read_cpu(r2)->0);
            let s = snapshot_of(w, r2);
            &&& w.watch == v.watch
            &&& w.watch_services == v.watch_services
            &&& w.docker_stats == v.docker_stats
            &&& s.rates matches Some(x) && {
                &&& x.elapsed == r2.at - r1.at
                &&& a.total < b.total && a.idle <= b.idle ==> x.cpu == Some(
                    ((b.idle - a.idle) as u64, (b.total - a.total) as u64),
                )
                &&& a.total <= b.total ==> x.total_ticks == b.total - a.total
                &&& x.disk_before == read_disks(r1)
                &&& x.disk_now == read_disks(r2)
                &&& a.total >= b.total ==> x.cpu is None
            }
            &&& a.total <= b.total ==> s.top_ticks == b.total - a.total
        }),
{
}

/// The processors of two samples are compared one by one, and only where there are as many as before.
pub proof fn lemma_two_samples_of_cores(v: SamplerView, r1: Readings, r2: Readings, i: int)
    requires
        read_cpu(r1) is Some,
        read_cpu(r2) is Some,
        0 <= i < read_cores(r2).len(),
    ensures
        ({
            let x = snapshot_of(sampled(v, r1), r2).rates->0;
            let (a, b) = (read_cores(r1), read_cores(r2));
            &&& a.len() == b.len() ==> x.cores.len() == b.len()
            &&& a.len() == b.len() && a[i].total < b[i].total && a[i].idle <= b[i].idle
                ==> x.cores[i] == Some(
                ((b[i].idle - a[i].idle) as u64, (b[i].total - a[i].total) as u64),
            )
            &&& a.len() != b.len() ==> x.cores.len() == 0
        }),
{
}

/// Used memory is what is not available, and the time since the start is that of the reading.
pub proof fn lemma_sampled_memory(v: SamplerView, r: Readings)
    ensures
        snapshot_of(v, r).mem == read_mem(r),
        snapshot_of(v, r).mem_used + snapshot_of(v, r).mem.available == snapshot_of(v, r).mem.total,
        r.uptime matches Some(s) ==> snapshot_of(v, r).uptime_secs == uptime_secs(s@),
        r.meminfo matches Some(s) ==> read_mem(r) == mem_info(lines(s@)),
{
}

/// What a watched process used since the last sample is what its counters grew by; one that was not
/// watched then has used nothing yet.
pub proof fn lemma_watched_grows(v: SamplerView, r1: Readings, r2: Readings, i: int)
    requires
        read_cpu(r1) is Some,
        read_cpu(r2) is Some,
        0 <= i < watch_now(v, r2).len(),
    ensures
        ({
            let w = sampled(v, r1);
            let x = snapshot_of(w, r2).rates->0;
            let (a, b) = (watch_now(v, r1)[i], watch_now(v, r2)[i]);
            &&& x.procs.len() == watch_now(v, r2).len()
            &&& x.procs[i].name == b.name
            &&& x.procs[i].running <==> b.count > 0
            &&& x.procs[i].count == b.count
            &&& x.procs[i].rss == b.rss
            &&& a.jiffies <= b.jiffies ==> x.procs[i].ticks == b.jiffies - a.jiffies
        }),
{
    let w = sampled(v, r1);
    let names = distinct_names(v.watch);
    lemma_names_once(v.watch);
    let (a, b) = (watch_now(v, r1), watch_now(v, r2));
    assert(a.len() == b.len() == names.len());
    assert(a[i].name == names[i] && b[i].name == names[i]);
    let t = crate::agent::collect::watch_ticks(a);
    assert forall|j: int| 0 <= j < i implies (#[trigger] t[j]).0 != b[i].name by {
        assert(t[j].0 == names[j]);
    }
    assert(t[i].0 == b[i].name);
    lemma_ticks_before(t, b[i], i);
}

proof fn lemma_ticks_before(
    t: Seq<(Seq<char>, u64)>,
    w: crate::agent::collect::WatchView,
    k: int,
)
    requires
        0 <= k < t.len(),
        t[k].0 == w.name,
        forall|j: int| 0 <= j < k ==> (#[trigger] t[j]).0 != w.name,
    ensures
        crate::agent::collect::ticks_before(t, w) == t[k].1,
    decreases k,
{
    if k > 0 {
        assert(t[0].0 != w.name);
        let u = t.drop_first();
        assert forall|j: int| 0 <= j < k - 1 implies (#[trigger] u[j]).0 != w.name by {
            assert(u[j] == t[j + 1]);
        }
        lemma_ticks_before(u, w, k - 1);
    }
}

// ---------------------------------------------------------------------------
// Services and the machine itself
// ---------------------------------------------------------------------------

/// Each watched service is reported under its own name, active exactly where its line of the answer says
/// so; without an answer none is.
pub proof fn lemma_services(names: Seq<Seq<char>>, out: Option<Seq<u8>>, i: int)
    requires
        0 <= i < names.len(),
    ensures
        service_states(names, out).len() == names.len(),
        service_states(names, out)[i].name == names[i],
        out is None ==> !service_states(names, out)[i].active,
        out matches Some(b) ==> (service_states(names, out)[i].active <==> i < lines(
            crate::text::lossy_text(b),
        ).len() && trimmed(lines(crate::text::lossy_text(b))[i]) == "active"@),
{
}

/// What a machine is, each part from its own source.
pub proof fn lemma_machine(h: HostReadings)
    ensures
        h.hostname matches Some(s) ==> host_of(h).hostname == trimmed(s@),
        h.kernel matches Some(s) ==> host_of(h).kernel == trimmed(s@),
        host_of(h).arch == h.arch@,
        host_of(h).agent_version == h.agent_version@,
        h.cores matches Some(n) && n <= u32::MAX ==> host_of(h).cores == h.cores->0,
        h.meminfo matches Some(s) ==> host_of(h).mem_total == mem_info(lines(s@)).total,
        h.os_release matches Some(s) && pretty_name(lines(s@)) is Some ==> host_of(h).os
            == pretty_name(lines((h.os_release->0)@))->0,
        h.os_release is None ==> host_of(h).os == "Linux"@,
{
}

/// The name of a system is what the first line that gives one says, without its quotation marks.
pub proof fn lemma_system_name(name: Seq<char>, q: Seq<char>)
    requires
        name.len() > 0,
        name[0] != '"',
        name.last() != '"',
        q == seq!['"'] + name + seq!['"'],
        trimmed(q) == q,
    ensures
        pretty_line("PRETTY_NAME="@ + q) == Some(name),
{
    let l = "PRETTY_NAME="@ + q;
    let n = "PRETTY_NAME="@.len() as int;
    assert(l.skip(n) =~= q);
    assert(l.take(n) =~= "PRETTY_NAME="@);
    lemma_stripped(name);
}

proof fn lemma_stripped(name: Seq<char>)
    requires
        name.len() > 0,
        name[0] != '"',
        name.last() != '"',
    ensures
        crate::text::strip_end(crate::text::strip_start(seq!['"'] + name + seq!['"'], '"'), '"')
            == name,
{
    let q = seq!['"'] + name + seq!['"'];
    let a = name + seq!['"'];
    assert(q[0] == '"');
    assert(q.drop_first() =~= a);
    assert(a[0] == name[0]);
    assert(crate::text::strip_start(a, '"') == a);
    assert(a.last() == '"');
    assert(a.drop_last() =~= name);
    assert(crate::text::strip_end(name, '"') == name);
}

/// Of up to sixteen interfaces each is told, held against its own counters of the last sample.
pub proof fn lemma_two_samples_of_interfaces(v: SamplerView, r1: Readings, r2: Readings, i: int)
    requires
        read_cpu(r1) is Some,
        read_cpu(r2) is Some,
        0 <= i < read_nets(r2).len() <= 16,
    ensures
        ({
            let x = snapshot_of(sampled(v, r1), r2).rates->0;
            &&& x.nets.len() == read_nets(r2).len()
            &&& x.nets.contains(net_delta(read_nets(r2)[i], read_nets(r1)))
        }),
{
    let a = net_deltas(read_nets(r2), read_nets(r1));
    let x = snapshot_of(sampled(v, r1), r2).rates->0;
    lemma_ordered(a);
    let o = ordered(a);
    assert(x.nets == o);
    let d = net_delta(read_nets(r2)[i], read_nets(r1));
    assert(a[i] == d);
    a.to_multiset_ensures();
    o.to_multiset_ensures();
    assert(a.contains(d));
    assert(a.to_multiset().contains(d));
    assert(o.to_multiset().contains(d));
}

/// Of more interfaces the sixteen are told that have moved the most bytes.
pub proof fn lemma_busiest_interfaces(v: SamplerView, r1: Readings, r2: Readings, i: int, j: int)
    requires
        read_cpu(r1) is Some,
        read_cpu(r2) is Some,
        0 <= i < j < read_nets(r2).len(),
        i < 16,
    ensures
        ({
            let x = snapshot_of(sampled(v, r1), r2).rates->0;
            let o = ordered(net_deltas(read_nets(r2), read_nets(r1)));
            &&& read_nets(r2).len() > 16 ==> x.nets.len() == 16
            &&& x.nets[i] == o[i]
            &&& o[i].rx + o[i].tx <= u64::MAX && o[j].rx + o[j].tx <= u64::MAX ==> o[i].rx + o[i].tx
                >= o[j].rx + o[j].tx
        }),
{
    let a = net_deltas(read_nets(r2), read_nets(r1));
    lemma_ordered(a);
    let o = ordered(a);
    assert(!larger_place(o[j].place(), o[i].place()));
}

/// A disk of the newer kind is named by two numbers with an n between them, and a part of one by a third
/// behind a p; a card by one number.
pub proof fn lemma_names_of_newer_disks(a: char, b: char, rest: Seq<char>)
    requires
        crate::text::is_digit(a),
        crate::text::is_digit(b),
    ensures
        physical_disk("nvme"@ + seq![a, 'n', b]),
        !physical_disk("nvme"@ + seq![a, 'n', b, 'p'] + rest),
        physical_disk("mmcblk"@ + seq![a]),
        !physical_disk("mmcblk"@ + seq![a, 'p'] + rest),
{
    reveal_strlit("sd");
    reveal_strlit("vd");
    reveal_strlit("xvd");
    reveal_strlit("hd");
    reveal_strlit("nvme");
    reveal_strlit("mmcblk");
    let s = "nvme"@ + seq![a, 'n', b];
    let t = "nvme"@ + seq![a, 'n', b, 'p'] + rest;
    let u = "mmcblk"@ + seq![a];
    let w = "mmcblk"@ + seq![a, 'p'] + rest;
    lemma_first_letter(s);
    lemma_first_letter(t);
    lemma_first_letter(u);
    lemma_first_letter(w);
    assert(s.take(4) =~= "nvme"@ && t.take(4) =~= "nvme"@);
    assert(u.take(6) =~= "mmcblk"@ && w.take(6) =~= "mmcblk"@);
    assert(s.skip(4) =~= seq![a, 'n', b]);
    assert(s.skip(4)[1] == 'n');
    assert(t.skip(4)[3] == 'p');
    assert(u.skip(6) =~= seq![a]);
    assert(w.skip(6)[1] == 'p');
    assert(!crate::agent::parsers::is_nvme_char('p'));
    assert(!crate::text::is_digit('p'));
}

proof fn lemma_first_letter(s: Seq<char>)
    requires
        s.len() > 0,
        s[0] == 'n' || s[0] == 'm',
    ensures
        !starts_with(s, "sd"@),
        !starts_with(s, "vd"@),
        !starts_with(s, "xvd"@),
        !starts_with(s, "hd"@),
        s[0] == 'm' ==> !starts_with(s, "nvme"@),
{
    reveal_strlit("sd");
    reveal_strlit("vd");
    reveal_strlit("xvd");
    reveal_strlit("hd");
    reveal_strlit("nvme");
    if starts_with(s, "sd"@) || starts_with(s, "vd"@) || starts_with(s, "hd"@) {
        assert(s.take(2)[0] == s[0]);
    }
    if starts_with(s, "xvd"@) {
        assert(s.take(3)[0] == s[0]);
    }
    if starts_with(s, "nvme"@) {
        assert(s.take(4)[0] == s[0]);
    }
}

/// The line of a single processor begins with its number; that of all together, and any other line, does
/// not.
pub proof fn lemma_line_of_a_core(d: char, rest: Seq<char>)
    requires
        crate::text::is_digit(d),
    ensures
        core_line("cpu"@ + seq![d] + rest),
        !core_line("cpu "@ + rest),
        !core_line("intr"@ + rest),
{
    reveal_strlit("cpu");
    reveal_strlit("cpu ");
    reveal_strlit("intr");
    let (a, b, c) = ("cpu"@ + seq![d] + rest, "cpu "@ + rest, "intr"@ + rest);
    assert(a.take(3) =~= "cpu"@);
    assert(a[3] == d && b[3] == ' ');
    assert(!crate::text::is_digit(' '));
    if starts_with(c, "cpu"@) {
        assert(c.take(3)[0] == c[0]);
    }
}

/// An interface whose name is too long is passed over, and so are the two lines that head the list.
pub proof fn lemma_lines_without_an_interface(name: Seq<char>, rest: Seq<char>, r: Readings)
    requires
        !name.contains(':'),
        trimmed(name) == name,
    ensures
        crate::text::byte_len(name) > 32 ==> netdev_line(name + seq![':'] + rest) is None,
        netdev_line(name) is None,
        r.netdev matches Some(s) ==> (lines(s@).len() >= 2 ==> read_nets(r) == merged(
            netdev_lines(lines(s@).skip(2)),
        )),
        r.netdev is None ==> read_nets(r).len() == 0,
{
    let l = name + seq![':'] + rest;
    lemma_first_index(l, ':');
    assert(l[name.len() as int] == ':');
    assert(l.contains(':'));
    assert(first_index(l, ':') == name.len()) by {
        let k = first_index(l, ':');
        if k < name.len() {
            assert(name[k] == l[k]);
        }
    }
    assert(before(l, ':') =~= name);
}

/// The processes of a sample are held against those of the one before it, also where that could not read
/// the processors; and what it did not read of the machine it still knows from the one before.
pub proof fn lemma_two_samples_of_processes(v: SamplerView, r1: Readings, r2: Readings)
    ensures
        snapshot_of(sampled(v, r1), r2).tops == tops_of(
            crate::text::views(r2.pids@),
            pid_ticks(crate::text::views(r1.pids@)),
        ),
        read_cpu(r1) is None ==> sampled(v, r1).prev == v.prev,
        read_cpu(r2) is None || v.prev is None ==> snapshot_of(v, r2).rates is None,
{
}

} // verus!
