//! The agent: its configuration, what it keeps and sends, and what it tells of containers.

use crate::agent::config::{
    config_fault, process_names, report_url, unit_names, without_prefixes, AgentConfig,
};
use crate::agent::docker::{
    body_of, chars_in_bytes, container_name, first_end, headers_end, length_line,
    reported, success_line, success_status, usage_from, ContainerCounters,
};
use crate::agent::session::{
    answer_of, chunks, doubled, interval_within, kept, wait_of, SessionAction, SessionEvent,
};
use crate::agent::startup::{start_of, StartView};
use crate::metrics::{ContainerView, ServerToAgent};
use crate::num::{decimal, lemma_decimal, lemma_decimal_roundtrip, parsed_upto};
use crate::ranking::{lemma_ordered, ordered, Placed};
use crate::text::{
    after, before, byte_len, first_index, is_space, lemma_first_index, starts_with, strip_end,
    strip_start, trim_end, trim_start, views,
};
use crate::agent::docker::{announced, container_id, first_length, read_state};
use crate::agent::session::agent_token;
use vstd::prelude::*;
use vstd::string::*;

verus! {

// ---------------------------------------------------------------------------
// Configuration
// ---------------------------------------------------------------------------

/// A configuration is accepted exactly where its server is reached over an encrypted connection, a token
/// is told, the interval is from a second to an hour, and at most twelve processes and twenty services
/// are watched, each under a possible name.
pub proof fn lemma_accepted_configuration(c: AgentConfig)
    ensures
        config_fault(c) is None <==> {
            &&& starts_with(c.server@, "https://"@)
            &&& byte_len(c.server@) <= 512
            &&& c.token_file@.len() > 0
            &&& 1 <= c.report_interval_secs <= 60 * 60
            &&& c.watch_processes@.len() <= 12
            &&& forall|i: int|
                0 <= i < c.watch_processes@.len() ==> (#[trigger] c.watch_processes@[i])@.len() > 0
                    && byte_len(c.watch_processes@[i]@) <= 32
            &&& c.watch_services@.len() <= 20
            &&& forall|i: int|
                0 <= i < c.watch_services@.len() ==> crate::agent::config::unit_name(
                    (#[trigger] c.watch_services@[i])@,
                )
        },
{
    let (p, s) = (views(c.watch_processes@), views(c.watch_services@));
    if process_names(p) {
        assert forall|i: int| 0 <= i < c.watch_processes@.len() implies (
        #[trigger] c.watch_processes@[i])@.len() > 0 && byte_len(c.watch_processes@[i]@) <= 32 by {
            assert(crate::agent::config::process_name(p[i]));
        }
    }
    if unit_names(s) {
        assert forall|i: int|
            0 <= i < c.watch_services@.len() implies crate::agent::config::unit_name(
            (#[trigger] c.watch_services@[i])@,
        ) by {
            assert(crate::agent::config::unit_name(s[i]));
        }
    }
}

/// Reports go to the server that is set, over an encrypted channel, whether or not its address ends with
/// a slash.
pub proof fn lemma_where_reports_go(host: Seq<char>)
    requires
        host.len() > 0,
        host.last() != '/',
        !starts_with(host, "https://"@),
    ensures
        report_url("https://"@ + host) == "wss://"@ + host + "/ws/agent"@,
        report_url("https://"@ + host + seq!['/']) == "wss://"@ + host + "/ws/agent"@,
{
    reveal_strlit("https://");
    let p = "https://"@;
    let s = p + host;
    assert(s.last() == host.last());
    assert(strip_end(s, '/') == s);
    let t = s + seq!['/'];
    assert(t.last() == '/');
    assert(t.drop_last() =~= s);
    assert(strip_end(t, '/') == s);
    assert(s.take(8) =~= p);
    assert(s.skip(8) =~= host);
    assert(without_prefixes(host, p) == host);
    assert(without_prefixes(s, p) == host);
}

/// Without an argument the agent runs with its usual configuration, and with one that names another, with
/// that; the last one named counts.
pub proof fn lemma_arguments(usual: Seq<char>, a: Seq<char>, b: Seq<char>)
    ensures
        start_of(Seq::empty(), usual) == (StartView::Run { config: usual }),
        start_of(seq!["--config"@, a], usual) == (StartView::Run { config: a }),
        start_of(seq!["--config"@, a, "--config"@, b], usual) == (StartView::Run { config: b }),
        start_of(seq!["--version"@], usual) == StartView::Version,
        start_of(seq!["--config"@], usual) is Refused,
{
    reveal_strlit("--config");
    reveal_strlit("--version");
    reveal_strlit("-V");
    assert("--config"@.len() == 8 && "--version"@.len() == 9 && "-V"@.len() == 2);
    let e = Seq::<Seq<char>>::empty();
    assert(seq!["--config"@, a].skip(2) =~= e);
    assert(seq!["--config"@, a, "--config"@, b].skip(2) =~= seq!["--config"@, b]);
    assert(seq!["--config"@, b].skip(2) =~= e);
    assert(start_of(e, a) == (StartView::Run { config: a }));
    assert(start_of(e, b) == (StartView::Run { config: b }));
    assert(start_of(seq!["--config"@, b], a) == (StartView::Run { config: b }));
}

// ---------------------------------------------------------------------------
// What is kept and sent
// ---------------------------------------------------------------------------

/// Up to a thousand reports are kept while they cannot be sent. One more takes the place of the oldest,
/// and all others stay, in their order.
pub proof fn lemma_what_is_kept<A>(buf: Seq<A>, m: A)
    requires
        buf.len() <= 1000,
    ensures
        buf.len() < 1000 ==> kept(buf, m) == buf + seq![m],
        buf.len() == 1000 ==> kept(buf, m) == buf.skip(1) + seq![m],
{
    assert(buf.push(m) =~= buf + seq![m]);
    if buf.len() == 1000 {
        assert(buf.drop_first().push(m) =~= buf.skip(1) + seq![m]);
    }
}

/// What was kept is sent in parts of a hundred and twenty, but for the last.
pub proof fn lemma_parts<A>(buf: Seq<A>)
    requires
        buf.len() > 0,
    ensures
        chunks(buf).len() > 0,
        buf.len() > 120 ==> chunks(buf)[0] == buf.take(120) && chunks(buf).drop_first() == chunks(
            buf.skip(120),
        ),
        buf.len() <= 120 ==> chunks(buf) == seq![buf],
{
    let c = chunks(buf);
    if buf.len() > 120 {
        assert(c.drop_first() =~= chunks(buf.skip(120)));
    } else {
        assert(buf.skip(buf.len() as int) =~= Seq::empty());
        assert(chunks(buf.skip(buf.len() as int)) =~= Seq::empty());
        assert(c =~= seq![buf]);
    }
}

/// After each failure the agent waits twice as long as before, up to about a minute, and never less than
/// the seconds that it means to wait, nor four tenths of a second more.
pub proof fn lemma_waiting(b: u64, now: i64)
    requires
        b <= 64,
    ensures
        b <= 32 ==> doubled(b) == 2 * b,
        b > 32 ==> doubled(b) == 64,
        b * 1000 <= wait_of(b, now) < b * 1000 + 400,
{
}

/// The server may set the interval, between a second and an hour, and ask for an upgrade. A stop closes,
/// a tick reports, and a report that could not be sent is kept.
pub proof fn lemma_answers(interval: u32, wanted: u32)
    ensures
        1 <= wanted <= 3600 ==> interval_within(wanted) == wanted,
        interval_within(0) == 1,
        wanted > 3600 ==> interval_within(wanted) == 3600,
        answer_of(
            SessionEvent::Downlink(ServerToAgent::UpdateConfig { report_interval_secs: wanted }),
            interval,
        ) == if interval_within(wanted) == interval {
            SessionAction::GoOn
        } else {
            SessionAction::SetInterval { secs: interval_within(wanted) }
        },
        answer_of(SessionEvent::Downlink(ServerToAgent::Upgrade), interval) == SessionAction::Upgrade,
        answer_of(SessionEvent::Stop, interval) == SessionAction::CloseAndEnd,
        answer_of(SessionEvent::Tick, interval) == SessionAction::Report,
        answer_of(SessionEvent::SendFailed, interval) == SessionAction::KeepAndFail,
        answer_of(SessionEvent::Gone, interval) == SessionAction::Fail,
        answer_of(SessionEvent::Close, interval) == SessionAction::End,
{
}

// ---------------------------------------------------------------------------
// Containers
// ---------------------------------------------------------------------------

/// The processor time of a container is held against that of the machine, both since the sample before;
/// caches do not count as used memory.
pub proof fn lemma_use_of_a_container(c: ContainerCounters)
    ensures
        c.mem_cache <= c.mem_usage ==> usage_from(c).mem_used + c.mem_cache == c.mem_usage,
        c.mem_cache > c.mem_usage ==> usage_from(c).mem_used == 0,
        usage_from(c).mem_limit == c.mem_limit,
        usage_from(c).cpu is Some <==> c.cpu > c.cpu_before && c.system > c.system_before,
        usage_from(c).cpu matches Some((own, all, cpus)) ==> {
            &&& own + c.cpu_before == c.cpu
            &&& all + c.system_before == c.system
            &&& c.online_cpus > 0 ==> cpus == c.online_cpus
            &&& c.online_cpus == 0 && c.listed_cpus > 0 ==> cpus == c.listed_cpus
            &&& cpus >= 1
        },
{
}

/// A container is called by its first name without the slash before it, and by the beginning of its
/// number where it has none.
pub proof fn lemma_name_of_a_container(name: Seq<char>, more: Seq<Seq<char>>, id: Seq<char>)
    requires
        name.len() > 0,
        name[0] != '/',
    ensures
        container_name(seq![seq!['/'] + name] + more, id) == name,
        container_name(seq![name] + more, id) == name,
        (forall|i: int| 0 <= i < id.len() ==> (#[trigger] id[i]) <= '\u{7f}') ==> container_name(
            Seq::empty(),
            id,
        ) == if id.len() >= 12 {
            id.take(12)
        } else {
            id
        },
{
    let a = seq!['/'] + name;
    assert(a[0] == '/');
    assert(a.drop_first() =~= name);
    assert(strip_start(name, '/') == name);
    assert(strip_start(a, '/') == name);
    assert((seq![a] + more)[0] == a);
    assert((seq![name] + more)[0] == name);
    if forall|i: int| 0 <= i < id.len() ==> (#[trigger] id[i]) <= '\u{7f}' {
        lemma_short(id, 12);
        if id.len() == 12 {
            assert(id.take(12) =~= id);
        }
    }
}

proof fn lemma_short(id: Seq<char>, n: int)
    requires
        n >= 0,
        forall|i: int| 0 <= i < id.len() ==> (#[trigger] id[i]) <= '\u{7f}',
    ensures
        chars_in_bytes(id, n) == if id.len() >= n {
            n
        } else {
            -1
        },
    decreases id.len(),
{
    if n > 0 && id.len() > 0 {
        assert(id[0] <= '\u{7f}');
        let t = id.drop_first();
        assert forall|i: int| 0 <= i < t.len() implies (#[trigger] t[i]) <= '\u{7f}' by {
            assert(t[i] == id[i + 1]);
        }
        lemma_short(t, n - 1);
    }
}

/// Up to thirty containers are reported; of more, those that no other is busier than, the busiest first.
pub proof fn lemma_busiest_containers(list: Seq<ContainerView>, i: int, j: int)
    ensures
        list.len() <= 30 ==> reported(list) == list,
        list.len() > 30 ==> reported(list).len() == 30,
        list.len() > 30 && 0 <= i < j < 30 ==> reported(list)[i].cpu_pct.rank() >= reported(
            list,
        )[j].cpu_pct.rank(),
        list.len() > 30 && 0 <= i < 30 <= j < list.len() ==> reported(list)[i].cpu_pct.rank()
            >= ordered(list)[j].cpu_pct.rank(),
        ordered(list).to_multiset() == list.to_multiset(),
{
    lemma_ordered(list);
    let o = ordered(list);
    if list.len() > 30 {
        assert(reported(list) == o.take(30));
        if 0 <= i < j < list.len() {
            assert(!crate::ranking::larger_place(o[j].place(), o[i].place()));
        }
    }
}

/// The length that a line of an answer announces is the number behind its colon.
pub proof fn lemma_announced_length(n: usize)
    ensures
        length_line("Content-Length: "@ + decimal(n as nat)) == Some(n as nat),
        length_line("content-length:"@ + decimal(n as nat)) == Some(n as nat),
{
    lemma_decimal_roundtrip(n as int);
    lemma_decimal(n as nat);
    reveal_strlit("Content-Length: ");
    reveal_strlit("content-length:");
    reveal_strlit("content-length");
    let d = decimal(n as nat);
    assert(d.len() > 0 && crate::text::is_digit(d[0]) && crate::text::is_digit(d.last()));
    assert(!is_space(d[0]) && !is_space(d.last()));
    assert(trim_start(d) == d && trim_end(d) == d);
    let sd = seq![' '] + d;
    assert(sd[0] == ' ' && sd.drop_first() =~= d);
    assert(trim_start(sd) == d);
    let (a, b) = ("Content-Length: "@ + d, "content-length:"@ + d);
    assert(a[14] == ':' && b[14] == ':');
    assert(a.contains(':') && b.contains(':'));
    lemma_first_index(a, ':');
    lemma_first_index(b, ':');
    assert(first_index(a, ':') == 14);
    assert(first_index(b, ':') == 14);
    let (p, q) = (before(a, ':'), before(b, ':'));
    assert(p =~= a.take(14));
    assert(q =~= "content-length"@);
    assert(after(a, ':') =~= sd);
    assert(after(b, ':') =~= d);
    assert(p[0] == 'C' && p.last() == 'h' && q[0] == 'c' && q.last() == 'h');
    assert(!is_space('C') && !is_space('c') && !is_space('h'));
    assert(trim_start(p) == p && trim_end(p) == p);
    assert(trim_start(q) == q && trim_end(q) == q);
    assert(parsed_upto(d, usize::MAX as nat) == Some(n as nat));
}

/// An answer is a success where its status is from 200 to 299.
pub proof fn lemma_success(n: nat)
    requires
        100 <= n <= 999,
    ensures
        success_status(decimal(n)) <==> 200 <= n < 300,
{
    lemma_decimal_roundtrip(n as int);
    lemma_decimal(n);
    reveal_with_fuel(decimal, 4);
    assert(decimal(n).len() == 3);
}

/// The body of an answer is all that stands behind the first empty line.
pub proof fn lemma_body_of_an_answer(head: Seq<u8>, body: Seq<u8>)
    requires
        headers_end(head, head.len() as int),
        forall|i: int| 0 <= i < head.len() ==> !headers_end(head, i),
        success_line(head + body),
    ensures
        body_of(head + body) == Some(body),
{
    let s = head + body;
    let n = head.len() as int;
    assert forall|i: int| 0 <= i < n implies !headers_end(s, i) by {
        if headers_end(s, i) {
            assert(head[i - 4] == s[i - 4] && head[i - 3] == s[i - 3]);
            assert(head[i - 2] == s[i - 2] && head[i - 1] == s[i - 1]);
            assert(headers_end(head, i));
        }
    }
    assert(s[n - 4] == head[n - 4] && s[n - 3] == head[n - 3]);
    assert(s[n - 2] == head[n - 2] && s[n - 1] == head[n - 1]);
    assert(first_end(s, n));
    let k = choose|i: int| first_end(s, i);
    assert(first_end(s, k));
    assert(k == n) by {
        if k < n {
            assert(!headers_end(s, k));
        } else if n < k {
            assert(!headers_end(s, n));
        }
    }
    assert(s.skip(n) =~= body);
}

/// The token of an agent is sixty-four digits to the base sixteen.
pub proof fn lemma_token(s: Seq<char>)
    ensures
        agent_token(s) ==> s.len() == 64,
        agent_token(s) <==> s.len() == 64 && forall|i: int|
            0 <= i < s.len() ==> crate::text::is_digit(#[trigger] s[i]) || ('a' <= s[i] && s[i] <= 'f'),
{
    if agent_token(s) {
        assert forall|i: int| 0 <= i < s.len() implies crate::text::is_digit(#[trigger] s[i]) || (
        'a' <= s[i] && s[i] <= 'f') by {
            assert(crate::common::is_hex_digit(s[i]));
        }
    }
}

/// The length of the body is the first that a line announces.
pub proof fn lemma_first_length(ls: Seq<Seq<char>>, k: int)
    requires
        0 <= k < ls.len(),
        length_line(ls[k]) is Some,
        forall|i: int| 0 <= i < k ==> length_line(#[trigger] ls[i]) is None,
    ensures
        first_length(ls) == length_line(ls[k]),
    decreases k,
{
    if k > 0 {
        assert(length_line(ls[0]) is None);
        let t = ls.drop_first();
        assert forall|i: int| 0 <= i < k - 1 implies length_line(#[trigger] t[i]) is None by {
            assert(t[i] == ls[i + 1]);
        }
        lemma_first_length(t, k - 1);
    }
}

/// An answer is complete where as much of its body has come as was announced; more than four mebibytes
/// are not read.
pub proof fn lemma_when_an_answer_is_complete(buf: Seq<u8>, i: int)
    requires
        first_end(buf, i),
    ensures
        buf.len() > 4 * 1024 * 1024 ==> read_state(buf) is TooLong,
        buf.len() <= 4 * 1024 * 1024 && announced(buf, i) is Some ==> (read_state(buf) is Complete
            <==> buf.len() >= i + announced(buf, i)->0),
        buf.len() <= 4 * 1024 * 1024 && announced(buf, i) is None ==> read_state(buf) is More,
{
    assert(headers_end(buf, i));
    assert forall|j: int| #[trigger] headers_end(buf, j) && first_end(buf, j) implies j == i by {
        if j < i {
            assert(!headers_end(buf, j));
        } else if i < j {
            assert(!headers_end(buf, i));
        }
    }
}

/// The number of a container is made of letters and digits.
pub proof fn lemma_number_of_a_container(id: Seq<char>)
    ensures
        container_id(id) <==> 1 <= id.len() <= 128 && forall|i: int|
            0 <= i < id.len() ==> crate::text::is_ascii_alnum(#[trigger] id[i]),
{
}

/// The name of a service has one to sixty-four characters.
pub proof fn lemma_names_of_services(s: Seq<char>)
    ensures
        crate::agent::config::unit_name(s) <==> 1 <= s.len() <= 64 && forall|i: int|
            0 <= i < s.len() ==> crate::agent::config::is_unit_char(#[trigger] s[i]),
{
}

} // verus!
