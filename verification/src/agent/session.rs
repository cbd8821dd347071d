//! A connection to the server: the token, the answers to what happens on it, what is kept while
//! there is none, and how long to wait for the next.

use crate::common::{is_lower_hex, lower_hex};
use crate::metrics::{first_items, Metrics, ServerToAgent};
use crate::text::{chars_of, string_of, trim, trimmed};
use std::collections::VecDeque;
use vstd::prelude::*;

verus! {

/// The most samples that are kept while there is no connection.
pub const MAX_BUFFER: usize = 1000;

/// The most samples in one message about the past.
pub const BACKFILL_CHUNK: usize = 120;

/// The longest wait between two attempts, in seconds.
pub const MAX_BACKOFF: u64 = 64;

/// The token of an agent: sixty-four lower-case hexadecimal digits.
pub open spec fn agent_token(s: Seq<char>) -> bool {
    s.len() == 64 && lower_hex(s)
}

/// Reads the token off the text of its file.
pub fn read_token(raw: &str) -> (r: Result<String, &'static str>)
    ensures
        r is Ok <==> agent_token(trimmed(raw@)),
        r matches Ok(t) ==> t@ == trimmed(raw@),
        r matches Err(e) ==> e@ == "token 格式非法(需 64 位小写 hex)"@,
{
    let v = chars_of(raw);
    let t = trim(v.as_slice());
    let tok = string_of(t);
    if t.len() != 64 || !is_lower_hex(tok.as_str()) {
        return Err("token 格式非法(需 64 位小写 hex)");
    }
    Ok(tok)
}

// ---------------------------------------------------------------------------
// Samples without a connection
// ---------------------------------------------------------------------------

/// What is kept after one more sample: the oldest goes where there is no room.
pub open spec fn kept<A>(buf: Seq<A>, m: A) -> Seq<A> {
    if buf.len() >= MAX_BUFFER {
        buf.drop_first().push(m)
    } else {
        buf.push(m)
    }
}

/// Keeps a sample; the oldest goes where there is no room.
pub fn push_buffered(buf: &mut VecDeque<Metrics>, m: Metrics)
    ensures
        final(buf)@ == kept(old(buf)@, m),
{
    if buf.len() >= MAX_BUFFER {
        let _ = buf.pop_front();
    }
    buf.push_back(m);
}

/// The number of samples in the next message about the past.
pub fn chunk_len(buf: &VecDeque<Metrics>) -> (n: usize)
    ensures
        n == first_items(buf@, BACKFILL_CHUNK as int).len(),
{
    if buf.len() <= BACKFILL_CHUNK {
        buf.len()
    } else {
        BACKFILL_CHUNK
    }
}

/// Drops the samples of a message that was sent.
pub fn drop_sent(buf: &mut VecDeque<Metrics>, n: usize)
    requires
        n <= old(buf)@.len(),
    ensures
        final(buf)@ == old(buf)@.skip(n as int),
{
    let ghost all = buf@;
    let mut i: usize = 0;
    assert(all.skip(0) =~= all);
    while i < n
        invariant
            i <= n <= all.len(),
            buf@ == all.skip(i as int),
        decreases n - i,
    {
        let _ = buf.pop_front();
        i = i + 1;
        assert(buf@ =~= all.skip(i as int));
    }
}

/// The messages about the past that a buffer is sent in.
pub open spec fn chunks<A>(buf: Seq<A>) -> Seq<Seq<A>>
    decreases buf.len(),
{
    if buf.len() == 0 {
        Seq::empty()
    } else {
        seq![first_items(buf, BACKFILL_CHUNK as int)] + chunks(
            buf.skip(first_items(buf, BACKFILL_CHUNK as int).len() as int),
        )
    }
}

/// The messages, one behind the other.
pub open spec fn unchunked<A>(c: Seq<Seq<A>>) -> Seq<A>
    decreases c.len(),
{
    if c.len() == 0 {
        Seq::empty()
    } else {
        c[0] + unchunked(c.drop_first())
    }
}

/// Every sample that was kept is sent once and in order, in messages of bounded size.
pub proof fn lemma_chunks<A>(buf: Seq<A>)
    ensures
        unchunked(chunks(buf)) == buf,
        forall|i: int|
            0 <= i < chunks(buf).len() ==> 1 <= (#[trigger] chunks(buf)[i]).len() <= BACKFILL_CHUNK,
    decreases buf.len(),
{
    if buf.len() > 0 {
        let head = first_items(buf, BACKFILL_CHUNK as int);
        let rest = buf.skip(head.len() as int);
        lemma_chunks(rest);
        let c = chunks(buf);
        assert(c.drop_first() =~= chunks(rest));
        assert(c[0] == head);
        assert(head + rest =~= buf);
        assert forall|i: int| 0 <= i < c.len() implies 1 <= (#[trigger] c[i]).len()
            <= BACKFILL_CHUNK by {
            if i > 0 {
                assert(c[i] == chunks(rest)[i - 1]);
            }
        }
    }
}

/// No more samples are kept than there is room for, and the newest is always among them.
pub proof fn lemma_kept<A>(buf: Seq<A>, m: A)
    requires
        buf.len() <= MAX_BUFFER,
    ensures
        kept(buf, m).len() <= MAX_BUFFER,
        kept(buf, m).last() == m,
{
}

// ---------------------------------------------------------------------------
// The next attempt
// ---------------------------------------------------------------------------

/// The wait after a wait of `b` seconds.
pub open spec fn doubled(b: u64) -> u64 {
    if 2 * b <= MAX_BACKOFF {
        (2 * b) as u64
    } else {
        MAX_BACKOFF
    }
}

/// The wait, in seconds, after a wait of `b` seconds: twice as long, up to a limit.
pub fn next_backoff(b: u64) -> (r: u64)
    ensures
        r == doubled(b),
{
    if b <= MAX_BACKOFF / 2 {
        2 * b
    } else {
        MAX_BACKOFF
    }
}

/// The wait is never shorter than a second nor longer than the limit.
pub proof fn lemma_backoff(b: u64)
    requires
        1 <= b <= MAX_BACKOFF,
    ensures
        1 <= doubled(b) <= MAX_BACKOFF,
        b <= doubled(b),
{
}

/// The wait in milliseconds: `b` seconds and a little more, by the clock.
pub open spec fn wait_of(b: u64, now: i64) -> u64 {
    let ms = b * 1000 + if now >= 0 {
        now as int % 400
    } else {
        0
    };
    if ms <= u64::MAX {
        ms as u64
    } else {
        u64::MAX
    }
}

/// The wait before the next attempt, in milliseconds.
pub fn wait_millis(b: u64, now: i64) -> (r: u64)
    ensures
        r == wait_of(b, now),
{
    let jitter: u64 = if now >= 0 {
        now as u64 % 400
    } else {
        0
    };
    let secs: u64 = crate::agent::parsers::sat_times(b, 1000);
    secs.saturating_add(jitter)
}

/// The wait after a connection ended: it starts over where the server closed it in order.
pub fn backoff_after(b: u64, in_order: bool) -> (r: u64)
    ensures
        r == if in_order {
            1
        } else {
            b
        },
{
    if in_order {
        1
    } else {
        b
    }
}

// ---------------------------------------------------------------------------
// A connection
// ---------------------------------------------------------------------------

/// Something that happens on a connection.
#[derive(Debug)]
pub enum SessionEvent {
    /// The agent is to stop.
    Stop,
    /// It is time for a report.
    Tick,
    /// A report could not be sent.
    SendFailed,
    /// The connection is gone.
    Gone,
    /// A message came that could be understood.
    Downlink(ServerToAgent),
    /// A message came that could not be understood.
    Unknown,
    /// The server closes the connection.
    Close,
    /// Something that needs no answer.
    Other,
}

/// The answer to something that happens on a connection.
#[derive(Debug, Clone, Copy, PartialEq, Eq, Structural)]
pub enum SessionAction {
    /// Close the connection; the session ends in order.
    CloseAndEnd,
    /// Take a sample and send it.
    Report,
    /// Keep the report for later; the session fails.
    KeepAndFail,
    /// The session fails.
    Fail,
    /// Report at this interval, in seconds, from now on.
    SetInterval { secs: u32 },
    /// Ask the host's own upgrade service to upgrade the agent.
    Upgrade,
    /// Note it and go on.
    Note,
    /// The session ends in order.
    End,
    /// Go on.
    GoOn,
}

/// An interval between reports that an agent accepts: one second to one hour.
pub open spec fn interval_within(secs: u32) -> u32 {
    if secs < 1 {
        1
    } else if secs > 3600 {
        3600
    } else {
        secs
    }
}

/// The answer to an event, where the interval between reports is `interval` seconds.
pub open spec fn answer_of(e: SessionEvent, interval: u32) -> SessionAction {
    match e {
        SessionEvent::Stop => SessionAction::CloseAndEnd,
        SessionEvent::Tick => SessionAction::Report,
        SessionEvent::SendFailed => SessionAction::KeepAndFail,
        SessionEvent::Gone => SessionAction::Fail,
        SessionEvent::Downlink(ServerToAgent::UpdateConfig { report_interval_secs }) => {
            if interval_within(report_interval_secs) != interval {
                SessionAction::SetInterval { secs: interval_within(report_interval_secs) }
            } else {
                SessionAction::GoOn
            }
        },
        SessionEvent::Downlink(ServerToAgent::Upgrade) => SessionAction::Upgrade,
        SessionEvent::Unknown => SessionAction::Note,
        SessionEvent::Close => SessionAction::End,
        SessionEvent::Other => SessionAction::GoOn,
    }
}

/// The answer to something that happens on a connection.
pub fn session(e: &SessionEvent, interval: u32) -> (r: SessionAction)
    ensures
        r == answer_of(*e, interval),
{
    match e {
        SessionEvent::Stop => SessionAction::CloseAndEnd,
        SessionEvent::Tick => SessionAction::Report,
        SessionEvent::SendFailed => SessionAction::KeepAndFail,
        SessionEvent::Gone => SessionAction::Fail,
        SessionEvent::Downlink(ServerToAgent::UpdateConfig { report_interval_secs }) => {
            let n: u32 = *report_interval_secs;
            let secs: u32 = if n < 1 {
                1
            } else if n > 3600 {
                3600
            } else {
                n
            };
            if secs != interval {
                SessionAction::SetInterval { secs }
            } else {
                SessionAction::GoOn
            }
        },
        SessionEvent::Downlink(ServerToAgent::Upgrade) => SessionAction::Upgrade,
        SessionEvent::Unknown => SessionAction::Note,
        SessionEvent::Close => SessionAction::End,
        SessionEvent::Other => SessionAction::GoOn,
    }
}

/// Whatever the server sends, the interval between reports stays between one second and one
/// hour.
pub proof fn lemma_interval_bounded(e: SessionEvent, interval: u32)
    ensures
        answer_of(e, interval) matches SessionAction::SetInterval { secs } ==> 1 <= secs <= 3600,
{
}

} // verus!
