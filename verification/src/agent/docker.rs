//! Containers: the answers of the Docker daemon on its local socket. Only `GET` requests are
//! made.

use crate::common::MAX_CONTAINERS;
use crate::metrics::{first_items, ContainerStat, ContainerView};
use crate::num::{parse_upto, parsed_upto};
use crate::ranking::{lemma_ordered_views, ordered, put_in_order, Placed, Ranked};
use crate::text::{
    after, ascii_upper, before, chars_of, drop_leading, is_ascii_alnum, lines, split_lines,
    split_once, split_words, string_of, strip_start, to_ascii_upper, trim, trimmed, utf8_text,
    views, words,
};
use vstd::prelude::*;
use vstd::slice::slice_subrange;
use vstd::string::*;
use vstd::utf8::{decode_utf8, valid_utf8};

verus! {

/// The longest answer that is read, in bytes.
pub const MAX_RESPONSE_BYTES: usize = 4_194_304;

/// The request for a path.
pub fn get_request(path: &str) -> (r: String)
    ensures
        r@ == "GET "@ + path@
            + " HTTP/1.1\r\nHost: localhost\r\nAccept: application/json\r\nConnection: close\r\n\r\n"@,
{
    crate::text::concat3(
        "GET ",
        path,
        " HTTP/1.1\r\nHost: localhost\r\nAccept: application/json\r\nConnection: close\r\n\r\n",
    )
}

/// The headers end at `i`: an empty line stands before it.
pub open spec fn headers_end(buf: Seq<u8>, i: int) -> bool {
    4 <= i <= buf.len() && buf[i - 4] == 13 && buf[i - 3] == 10 && buf[i - 2] == 13 && buf[i - 1]
        == 10
}

/// Where the body of an answer begins: behind the first empty line.
pub fn header_body_split(buf: &[u8]) -> (r: Option<usize>)
    ensures
        r is None <==> forall|i: int| !headers_end(buf@, i),
        r matches Some(k) ==> headers_end(buf@, k as int) && forall|i: int|
            0 <= i < k ==> !headers_end(buf@, i),
{
    let n: usize = buf.len();
    let mut k: usize = 4;
    while k <= n
        invariant
            n == buf@.len(),
            4 <= k,
            k <= n + 1 || k == 4,
            forall|i: int| 0 <= i < k ==> !headers_end(buf@, i),
        decreases n + 1 - k,
    {
        if buf[k - 4] == 13 && buf[k - 3] == 10 && buf[k - 2] == 13 && buf[k - 1] == 10 {
            assert(headers_end(buf@, k as int));
            return Some(k);
        }
        assert(!headers_end(buf@, k as int));
        if k == n {
            return None;
        }
        k = k + 1;
    }
    None
}

/// `a` and `b` are equal but for the case of ASCII letters.
pub open spec fn same_letters(a: Seq<char>, b: Seq<char>) -> bool {
    a.len() == b.len() && forall|i: int|
        0 <= i < a.len() ==> ascii_upper(#[trigger] a[i]) == ascii_upper(b[i])
}

fn are_same_letters(a: &[char], b: &str) -> (r: bool)
    ensures
        r == same_letters(a@, b@),
{
    let w = chars_of(b);
    if a.len() != w.len() {
        return false;
    }
    let mut i: usize = 0;
    while i < a.len()
        invariant
            a@.len() == w@.len(),
            w@ == b@,
            i <= a@.len(),
            forall|j: int| 0 <= j < i ==> ascii_upper(#[trigger] a@[j]) == ascii_upper(b@[j]),
        decreases a@.len() - i,
    {
        if to_ascii_upper(a[i]) != to_ascii_upper(w[i]) {
            assert(ascii_upper(a@[i as int]) != ascii_upper(b@[i as int]));
            return false;
        }
        i = i + 1;
    }
    true
}

/// The length that a header line gives, if it does.
pub open spec fn length_line(l: Seq<char>) -> Option<nat> {
    if l.contains(':') && same_letters(trimmed(before(l, ':')), "content-length"@) {
        parsed_upto(trimmed(after(l, ':')), usize::MAX as nat)
    } else {
        None
    }
}

/// The first length that the lines give.
pub open spec fn first_length(ls: Seq<Seq<char>>) -> Option<nat>
    decreases ls.len(),
{
    if ls.len() == 0 {
        None
    } else if length_line(ls[0]) is Some {
        length_line(ls[0])
    } else {
        first_length(ls.drop_first())
    }
}

/// The length of the body that the headers of an answer announce.
pub open spec fn announced(buf: Seq<u8>, body_start: int) -> Option<nat> {
    if body_start <= buf.len() && valid_utf8(buf.take(body_start)) {
        first_length(lines(decode_utf8(buf.take(body_start))))
    } else {
        None
    }
}

/// The length of the body that the headers of an answer announce, where they do.
pub fn content_length(buf: &[u8], body_start: usize) -> (r: Option<usize>)
    ensures
        r is Some <==> announced(buf@, body_start as int) is Some,
        r matches Some(n) ==> announced(buf@, body_start as int) == Some(n as nat),
{
    if body_start > buf.len() {
        return None;
    }
    let head = slice_subrange(buf, 0, body_start);
    assert(head@ =~= buf@.take(body_start as int));
    match utf8_text(head) {
        None => None,
        Some(text) => {
            let v = chars_of(text);
            let ls = split_lines(v.as_slice());
            let ghost all = lines(text@);
            let mut i: usize = 0;
            assert(all.skip(0) =~= all);
            while i < ls.len()
                invariant
                    all == views(ls@),
                    i <= ls@.len(),
                    announced(buf@, body_start as int) == first_length(all.skip(i as int)),
                decreases ls@.len() - i,
            {
                assert(all.skip(i as int)[0] == ls@[i as int]@);
                assert(all.skip(i as int).drop_first() =~= all.skip(i + 1));
                if let Some((k, val)) = split_once(ls[i], ':') {
                    if are_same_letters(trim(k), "content-length") {
                        if let Some(n) = parse_upto(trim(val), usize::MAX as u64) {
                            return Some(n as usize);
                        }
                    }
                }
                i = i + 1;
            }
            assert(all.skip(i as int) =~= Seq::empty());
            None
        },
    }
}

/// The position of the first line feed, or 0 where there is none.
pub open spec fn first_line_end(buf: Seq<u8>) -> int {
    if buf.contains(10) {
        buf.index_of_first(10)->0
    } else {
        0
    }
}

/// A word is a status in the two hundreds.
pub open spec fn success_status(w: Seq<char>) -> bool {
    w.len() == 3 && (parsed_upto(w, 999) matches Some(n) && 200 <= n <= 299)
}

/// The first line of an answer gives as its second word a status in the two hundreds.
pub open spec fn success_line(buf: Seq<u8>) -> bool {
    let l = buf.take(first_line_end(buf));
    valid_utf8(l) && ({
        let w = words(decode_utf8(l));
        w.len() > 1 && success_status(w[1])
    })
}

/// Whether the first line of an answer gives a status in the two hundreds.
pub fn status_ok(buf: &[u8]) -> (r: bool)
    ensures
        r == success_line(buf@),
{
    let mut end: usize = 0;
    let mut i: usize = 0;
    let mut found = false;
    while i < buf.len() && !found
        invariant
            i <= buf@.len(),
            !found ==> forall|j: int| 0 <= j < i ==> buf@[j] != 10,
            found ==> end < buf@.len() && buf@[end as int] == 10 && forall|j: int|
                0 <= j < end ==> buf@[j] != 10,
            !found ==> end == 0,
        decreases buf@.len() - i,
    {
        if buf[i] == 10 {
            found = true;
            end = i;
        }
        i = i + 1;
    }
    proof {
        buf@.index_of_first_ensures(10);
        if found {
            assert(buf@.contains(10));
        } else {
            assert(!buf@.contains(10));
        }
        assert(end == first_line_end(buf@));
    }
    let l = slice_subrange(buf, 0, end);
    assert(l@ =~= buf@.take(first_line_end(buf@)));
    match utf8_text(l) {
        Some(t) => {
            let v = chars_of(t);
            let w = split_words(v.as_slice());
            if w.len() < 2 {
                return false;
            }
            assert(words(t@)[1] == w@[1]@);
            match parse_upto(w[1], 999) {
                Some(n) => w[1].len() == 3 && 200 <= n && n <= 299,
                None => false,
            }
        },
        None => false,
    }
}

/// What to do after a part of an answer was read.
#[derive(Debug, Clone, Copy, PartialEq, Eq, Structural)]
pub enum ReadState {
    /// Read on.
    More,
    /// The answer is complete.
    Complete,
    /// The answer is too long.
    TooLong,
}

/// The body of the answer is there as far as the headers announce it.
pub open spec fn body_complete(buf: Seq<u8>) -> bool {
    exists|i: int|
        #![trigger headers_end(buf, i)]
        first_end(buf, i) && (announced(buf, i) matches Some(n) && buf.len() >= i + n)
}

/// The headers end at `i` and nowhere before.
pub open spec fn first_end(buf: Seq<u8>, i: int) -> bool {
    headers_end(buf, i) && forall|j: int| 0 <= j < i ==> !headers_end(buf, j)
}

/// What to do after `buf` was read.
pub open spec fn read_state(buf: Seq<u8>) -> ReadState {
    if buf.len() > MAX_RESPONSE_BYTES {
        ReadState::TooLong
    } else if body_complete(buf) {
        ReadState::Complete
    } else {
        ReadState::More
    }
}

/// What to do after `buf` was read.
pub fn after_read(buf: &[u8]) -> (r: ReadState)
    ensures
        r == read_state(buf@),
{
    if buf.len() > MAX_RESPONSE_BYTES {
        return ReadState::TooLong;
    }
    if let Some(k) = header_body_split(buf) {
        assert(first_end(buf@, k as int));
        if let Some(n) = content_length(buf, k) {
            if buf.len() - k >= n {
                return ReadState::Complete;
            }
        }
        assert forall|i: int| first_end(buf@, i) implies i == k by {
            assert(headers_end(buf@, k as int));
        }
    }
    ReadState::More
}

/// The body of an answer with a status in the two hundreds.
pub open spec fn body_of(buf: Seq<u8>) -> Option<Seq<u8>> {
    if success_line(buf) && (exists|i: int| first_end(buf, i)) {
        Some(buf.skip(choose|i: int| first_end(buf, i)))
    } else {
        None
    }
}

/// The body of an answer, where its status is in the two hundreds.
pub fn response_body(buf: &[u8]) -> (r: Option<Vec<u8>>)
    ensures
        r is Some <==> body_of(buf@) is Some,
        r matches Some(b) ==> body_of(buf@) == Some(b@),
{
    if !status_ok(buf) {
        return None;
    }
    match header_body_split(buf) {
        None => {
            assert forall|i: int| !first_end(buf@, i) by {}
            None
        },
        Some(k) => {
            assert(first_end(buf@, k as int));
            assert forall|i: int| first_end(buf@, i) implies i == k by {
                assert(headers_end(buf@, k as int));
            }
            let body = slice_subrange(buf, k, buf.len());
            assert(body@ =~= buf@.skip(k as int));
            let mut out: Vec<u8> = Vec::new();
            out.extend_from_slice(body);
            assert(out@ =~= body@);
            Some(out)
        },
    }
}

/// The identifier of a container: one to 128 ASCII letters and digits.
pub open spec fn container_id(s: Seq<char>) -> bool {
    1 <= s.len() <= 128 && forall|i: int| 0 <= i < s.len() ==> is_ascii_alnum(#[trigger] s[i])
}

/// Whether `id` can be the identifier of a container.
pub fn valid_container_id(id: &str) -> (r: bool)
    ensures
        r == container_id(id@),
{
    let v = chars_of(id);
    if v.len() == 0 || v.len() > 128 {
        return false;
    }
    let mut i: usize = 0;
    while i < v.len()
        invariant
            i <= v@.len(),
            v@ == id@,
            forall|j: int| 0 <= j < i ==> is_ascii_alnum(#[trigger] id@[j]),
        decreases v@.len() - i,
    {
        if !is_ascii_alnum(v[i]) {
            assert(!is_ascii_alnum(id@[i as int]));
            return false;
        }
        i = i + 1;
    }
    true
}

/// The path of the numbers of a container; none where its identifier is not one.
pub fn stats_path(id: &str) -> (r: Option<String>)
    ensures
        r is Some <==> container_id(id@),
        r matches Some(p) ==> p@ == "/containers/"@ + id@ + "/stats?stream=false"@,
{
    if valid_container_id(id) {
        Some(crate::text::concat3("/containers/", id, "/stats?stream=false"))
    } else {
        None
    }
}

/// The counters of a container, as the daemon gives them: now, and at the previous reading.
#[derive(Debug, Clone, Copy)]
pub struct ContainerCounters {
    pub cpu: u64,
    pub cpu_before: u64,
    pub system: u64,
    pub system_before: u64,
    /// The number of processors, or 0.
    pub online_cpus: u64,
    /// The number of processors that are listed one by one.
    pub listed_cpus: u64,
    pub mem_usage: u64,
    pub mem_cache: u64,
    pub mem_limit: u64,
}

/// What a container uses.
#[derive(Debug, Clone, Copy)]
pub struct ContainerUsage {
    /// Its own ticks, those of the system, and the number of processors; none where no tick
    /// passed.
    pub cpu: Option<(u64, u64, u64)>,
    pub mem_used: u64,
    pub mem_limit: u64,
}

/// What a container with these counters uses.
pub open spec fn usage_from(c: ContainerCounters) -> ContainerUsage {
    let cpus = if c.online_cpus > 0 {
        c.online_cpus
    } else if c.listed_cpus > 1 {
        c.listed_cpus
    } else {
        1
    };
    ContainerUsage {
        cpu: if c.system > c.system_before && c.cpu > c.cpu_before {
            Some(((c.cpu - c.cpu_before) as u64, (c.system - c.system_before) as u64, cpus))
        } else {
            None
        },
        mem_used: if c.mem_usage >= c.mem_cache {
            (c.mem_usage - c.mem_cache) as u64
        } else {
            0
        },
        mem_limit: c.mem_limit,
    }
}

/// What a container with these counters uses.
pub fn stats_for(c: &ContainerCounters) -> (r: ContainerUsage)
    ensures
        r == usage_from(*c),
{
    let cpu_delta: u64 = c.cpu.saturating_sub(c.cpu_before);
    let sys_delta: u64 = c.system.saturating_sub(c.system_before);
    let online: u64 = if c.online_cpus > 0 {
        c.online_cpus
    } else if c.listed_cpus > 1 {
        c.listed_cpus
    } else {
        1
    };
    let cpu: Option<(u64, u64, u64)> = if sys_delta > 0 && cpu_delta > 0 {
        Some((cpu_delta, sys_delta, online))
    } else {
        None
    };
    ContainerUsage {
        cpu,
        mem_used: c.mem_usage.saturating_sub(c.mem_cache),
        mem_limit: c.mem_limit,
    }
}

/// The number of bytes that `c` takes in UTF-8.
#[verifier::allow_in_spec]
pub fn char_width(c: char) -> usize
    returns
        (if c <= '\u{7f}' {
            1usize
        } else if c <= '\u{7ff}' {
            2usize
        } else if c <= '\u{ffff}' {
            3usize
        } else {
            4usize
        }),
{
    if c <= '\u{7f}' {
        1
    } else if c <= '\u{7ff}' {
        2
    } else if c <= '\u{ffff}' {
        3
    } else {
        4
    }
}

/// The number of characters in the first `n` bytes of `s`; -1 where `s` is shorter, or `n` falls
/// inside a character.
pub open spec fn chars_in_bytes(s: Seq<char>, n: int) -> int
    decreases s.len(),
{
    if n == 0 {
        0
    } else if n < 0 || s.len() == 0 {
        -1
    } else {
        let k = chars_in_bytes(s.drop_first(), n - char_width(s[0]));
        if k < 0 {
            -1
        } else {
            k + 1
        }
    }
}

/// The short form of an identifier: its first twelve bytes, or all of it.
pub open spec fn short_id(id: Seq<char>) -> Seq<char> {
    let k = chars_in_bytes(id, 12);
    if 0 <= k <= id.len() {
        id.take(k)
    } else {
        id
    }
}

fn shorten(id: &[char]) -> (r: &[char])
    ensures
        r@ == short_id(id@),
{
    let mut left: usize = 12;
    let mut i: usize = 0;
    assert(id@.skip(0) =~= id@);
    while left > 0
        invariant
            left <= 12,
            i <= id@.len(),
            chars_in_bytes(id@, 12) == (if chars_in_bytes(id@.skip(i as int), left as int) < 0 {
                -1
            } else {
                chars_in_bytes(id@.skip(i as int), left as int) + i
            }),
        decreases left,
    {
        if i >= id.len() {
            assert(chars_in_bytes(id@, 12) == -1);
            return id;
        }
        let w: usize = char_width(id[i]);
        assert(id@.skip(i as int)[0] == id@[i as int]);
        assert(id@.skip(i as int).drop_first() =~= id@.skip(i + 1));
        if w > left {
            assert(chars_in_bytes(id@.skip(i + 1), left - w) == -1);
            assert(chars_in_bytes(id@, 12) == -1);
            return id;
        }
        left = left - w;
        i = i + 1;
    }
    let r = slice_subrange(id, 0, i);
    assert(r@ =~= id@.take(i as int));
    r
}

/// What a container is called: its first name without leading slashes, or the short form of its
/// identifier.
pub open spec fn container_name(names: Seq<Seq<char>>, id: Seq<char>) -> Seq<char> {
    if names.len() > 0 && strip_start(names[0], '/').len() > 0 {
        strip_start(names[0], '/')
    } else {
        short_id(id)
    }
}

/// What a container is called.
pub fn name_container(names: &[String], id: &str) -> (r: String)
    ensures
        r@ == container_name(views(names@), id@),
{
    if names.len() > 0 {
        assert(views(names@)[0] == names@[0]@);
        let v = chars_of(names[0].as_str());
        let n = drop_leading(v.as_slice(), '/');
        if n.len() > 0 {
            return string_of(n);
        }
    }
    let v = chars_of(id);
    string_of(shorten(v.as_slice()))
}

impl Placed for ContainerView {
    open spec fn place(&self) -> (int, int) {
        (self.cpu_pct.rank(), 0)
    }
}

impl Placed for ContainerStat {
    open spec fn place(&self) -> (int, int) {
        (self.cpu_pct.rank(), 0)
    }
}

impl Ranked for ContainerStat {
    fn outranks(&self, other: &Self) -> (b: bool) {
        self.cpu_pct.rank_above(other.cpu_pct)
    }
}

/// The containers that are reported: all of them, or the busiest [`MAX_CONTAINERS`] where there
/// are more.
pub open spec fn reported(list: Seq<ContainerView>) -> Seq<ContainerView> {
    if list.len() <= MAX_CONTAINERS {
        list
    } else {
        first_items(ordered(list), MAX_CONTAINERS as int)
    }
}

/// The containers that are reported. `listed` is how many the daemon named, nothing where it gave no
/// list; `list` holds those whose figures could be read. Where one step failed, none is reported.
pub fn scan_containers(listed: Option<usize>, list: Vec<ContainerStat>) -> (r: Vec<ContainerStat>)
    ensures
        views(r@) == if listed == Some(list@.len() as usize) {
            reported(views(list@))
        } else {
            Seq::empty()
        },
{
    let complete = match listed {
        Some(n) => n == list.len(),
        None => false,
    };
    if !complete {
        let none: Vec<ContainerStat> = Vec::new();
        assert(views(none@) =~= Seq::empty());
        return none;
    }
    if list.len() <= MAX_CONTAINERS {
        return list;
    }
    proof {
        lemma_ordered_views(list@);
        crate::ranking::lemma_ordered(list@);
    }
    let mut v = put_in_order(list);
    let ghost all = views(v@);
    v.truncate(MAX_CONTAINERS);
    assert(views(v@) =~= first_items(all, MAX_CONTAINERS as int));
    v
}

} // verus!
