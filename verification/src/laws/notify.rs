//! Messages: what they say, which channels they go to, and what is sent there.

use crate::json::{json_escaped, json_quoted, lemma_json_injective};
use crate::num::{decimal, decimal_int, lemma_decimal, lemma_decimal_roundtrip};
use crate::server::alerts::{
    admitted, chat_id, chat_json, delivery_of, fresh, label_of, message, payload_for, planned,
    repeated_soon, roc_window, severity_rank, span_text, telegram_token, webhook_host, Channel,
    DeliveryView, RuleLite, ValueTexts,
};
use crate::ip::public_ip;
use crate::server::notify::{
    bad_path, first_allowed, host_port, https_parts, port_number, post_text,
};
use crate::text::{
    after, before, byte_len, contains, ends_with, first_index, last_index, lemma_first_index,
    lemma_last_index, occurs_at, starts_with,
};
use crate::server::notify::post_refused;
use vstd::prelude::*;
use vstd::string::*;

verus! {

// ---------------------------------------------------------------------------
// Parts of texts
// ---------------------------------------------------------------------------

/// What stands between two texts stands in the whole.
pub proof fn lemma_in_between(a: Seq<char>, p: Seq<char>, b: Seq<char>)
    ensures
        contains(a + p + b, p),
{
    let s = a + p + b;
    assert(s.subrange(a.len() as int, (a.len() + p.len()) as int) =~= p);
    assert(occurs_at(s, p, a.len() as int));
}

proof fn lemma_same_frame(a: Seq<char>, p: Seq<char>, q: Seq<char>, b: Seq<char>)
    requires
        a + p + b == a + q + b,
    ensures
        p == q,
{
    let (s, t) = (a + p + b, a + q + b);
    assert(s.len() == t.len());
    assert forall|i: int| 0 <= i < p.len() implies p[i] == q[i] by {
        assert(s[a.len() + i] == p[i]);
        assert(t[a.len() + i] == q[i]);
    }
    assert(p =~= q);
}

proof fn lemma_quoted_injective(a: Seq<char>, b: Seq<char>)
    requires
        json_quoted(a) == json_quoted(b),
    ensures
        a == b,
{
    lemma_same_frame(seq!['"'], json_escaped(a), json_escaped(b), seq!['"']);
    lemma_json_injective(a, b);
}

// ---------------------------------------------------------------------------
// Bodies
// ---------------------------------------------------------------------------

/// Whatever the address of a webhook, its body holds the quoted text of the message.
pub proof fn lemma_body_holds_the_text(url: Seq<char>, text: Seq<char>)
    ensures
        contains(payload_for(url, text), json_quoted(text)),
{
    let q = json_quoted(text);
    lemma_in_between("{\"content\":{\"text\":"@, q, "},\"msg_type\":\"text\"}"@);
    lemma_in_between("{\"msgtype\":\"text\",\"text\":{\"content\":"@, q, "}}"@);
    lemma_in_between("{\"text\":"@, q, "}"@);
}

/// At one address two different texts give two different bodies.
pub proof fn lemma_bodies_differ(url: Seq<char>, a: Seq<char>, b: Seq<char>)
    requires
        a != b,
    ensures
        payload_for(url, a) != payload_for(url, b),
{
    if payload_for(url, a) == payload_for(url, b) {
        let host = webhook_host(url);
        let (p, q) = (json_quoted(a), json_quoted(b));
        if contains(host, "feishu"@) || contains(host, "larksuite"@) {
            lemma_same_frame("{\"content\":{\"text\":"@, p, q, "},\"msg_type\":\"text\"}"@);
        } else if contains(host, "dingtalk"@) || contains(host, "qyapi.weixin"@) {
            lemma_same_frame("{\"msgtype\":\"text\",\"text\":{\"content\":"@, p, q, "}}"@);
        } else {
            lemma_same_frame("{\"text\":"@, p, q, "}"@);
        }
        lemma_quoted_injective(a, b);
    }
}

/// The body of a webhook has the form that the service at the host reads, and the host alone decides
/// which.
pub proof fn lemma_form_by_host(url: Seq<char>, other: Seq<char>, text: Seq<char>)
    ensures
        webhook_host(url) == webhook_host(other) ==> payload_for(url, text) == payload_for(
            other,
            text,
        ),
        contains(webhook_host(url), "feishu"@) || contains(webhook_host(url), "larksuite"@)
            ==> starts_with(payload_for(url, text), "{\"content\":{\"text\":"@) && ends_with(
            payload_for(url, text),
            ",\"msg_type\":\"text\"}"@,
        ),
        !contains(webhook_host(url), "feishu"@) && !contains(webhook_host(url), "larksuite"@) && (
        contains(webhook_host(url), "dingtalk"@) || contains(webhook_host(url), "qyapi.weixin"@))
            ==> starts_with(
            payload_for(url, text),
            "{\"msgtype\":\"text\",\"text\":{\"content\":"@,
        ),
{
    let (a, q, b) = (
        "{\"content\":{\"text\":"@,
        json_quoted(text),
        "},\"msg_type\":\"text\"}"@,
    );
    let s = a + q + b;
    assert(s.take(a.len() as int) =~= a);
    reveal_strlit("},\"msg_type\":\"text\"}");
    reveal_strlit(",\"msg_type\":\"text\"}");
    let e = ",\"msg_type\":\"text\"}"@;
    assert(b =~= seq!['}'] + e);
    assert(s.skip(s.len() - e.len()) =~= e);
    let c = "{\"msgtype\":\"text\",\"text\":{\"content\":"@;
    assert((c + q + "}}"@).take(c.len() as int) =~= c);
}

/// The host of a webhook is what stands between the scheme and the first slash behind it.
pub proof fn lemma_webhook_host(host: Seq<char>, path: Seq<char>)
    requires
        !host.contains('/'),
    ensures
        webhook_host("https://"@ + host + seq!['/'] + path) == host,
        webhook_host("https://"@ + host) == host,
{
    let p = "https://"@;
    let u = p + host + seq!['/'] + path;
    assert(u.take(p.len() as int) =~= p);
    let r = u.skip(p.len() as int);
    assert(r =~= host + seq!['/'] + path);
    lemma_first_index(r, '/');
    assert(r[host.len() as int] == '/');
    let k = first_index(r, '/');
    assert(k == host.len()) by {
        if k < host.len() {
            assert(host[k] == r[k]);
        }
    }
    assert(before(r, '/') =~= host);
    let v = p + host;
    assert(v.take(p.len() as int) =~= p);
    assert(v.skip(p.len() as int) =~= host);
    lemma_first_index(host, '/');
    assert(before(host, '/') =~= host);
}

/// What is sent to a channel goes to the channel's own address, or for Telegram to the bot of its token,
/// and holds the quoted text; a message to Telegram holds the chat as well. Mail is sent otherwise.
pub proof fn lemma_deliveries(kind: Seq<char>, url: Seq<char>, extra: Seq<char>, text: Seq<char>)
    ensures
        delivery_of(kind, url, extra, text) is Ok <==> kind == "webhook"@ || kind == "bark"@ || kind
            == "smtp"@ || (kind == "telegram"@ && telegram_token(url)),
        delivery_of(kind, url, extra, text) matches Ok(d) ==> match d {
            DeliveryView::Post { url: u, body } => {
                &&& kind != "smtp"@
                &&& contains(body, json_quoted(text))
                &&& contains(u, url)
                &&& kind != "telegram"@ ==> u == url
                &&& kind == "telegram"@ ==> starts_with(u, "https://api.telegram.org/bot"@)
                    && ends_with(u, url + "/sendMessage"@) && contains(body, chat_json(extra))
            },
            DeliveryView::Mail => kind == "smtp"@,
        },
{
    reveal_strlit("webhook");
    reveal_strlit("telegram");
    reveal_strlit("bark");
    reveal_strlit("smtp");
    assert("webhook"@.len() == 7 && "telegram"@.len() == 8 && "bark"@.len() == 4);
    assert("smtp"@.len() == 4 && "bark"@[0] == 'b' && "smtp"@[0] == 's');
    lemma_body_holds_the_text(url, text);
    let q = json_quoted(text);
    let c = chat_json(extra);
    lemma_in_between("{\"chat_id\":"@ + c + ",\"text\":"@, q, "}"@);
    lemma_in_between("{\"chat_id\":"@, c, ",\"text\":"@ + q + "}"@);
    assert("{\"chat_id\":"@ + c + (",\"text\":"@ + q + "}"@) =~= "{\"chat_id\":"@ + c + ",\"text\":"@
        + q + "}"@);
    lemma_in_between("{\"body\":"@, q, ",\"title\":\"Outpost\"}"@);
    let h = "https://api.telegram.org/bot"@;
    let t = "/sendMessage"@;
    lemma_in_between(h, url, t);
    assert((h + url + t).take(h.len() as int) =~= h);
    let e = url + t;
    assert((h + url + t).skip((h + url + t).len() - e.len()) =~= e);
    lemma_in_between(Seq::empty(), url, Seq::empty());
    assert(Seq::<char>::empty() + url + Seq::<char>::empty() =~= url);
}

/// Messages to one channel with different texts differ.
pub proof fn lemma_deliveries_differ(
    kind: Seq<char>,
    url: Seq<char>,
    extra: Seq<char>,
    a: Seq<char>,
    b: Seq<char>,
)
    requires
        a != b,
        kind != "smtp"@,
        delivery_of(kind, url, extra, a) is Ok,
    ensures
        delivery_of(kind, url, extra, a) != delivery_of(kind, url, extra, b),
{
    lemma_bodies_differ(url, a, b);
    if delivery_of(kind, url, extra, a) == delivery_of(kind, url, extra, b) {
        let (p, q) = (json_quoted(a), json_quoted(b));
        if kind == "telegram"@ {
            lemma_same_frame("{\"chat_id\":"@ + chat_json(extra) + ",\"text\":"@, p, q, "}"@);
        } else if kind == "bark"@ {
            lemma_same_frame("{\"body\":"@, p, q, ",\"title\":\"Outpost\"}"@);
        }
        if kind != "webhook"@ {
            lemma_quoted_injective(a, b);
        }
    }
}

/// A chat that is a number is sent as that number, and one that is a name as its quoted name.
pub proof fn lemma_chat(n: i64, name: Seq<char>)
    requires
        name.len() > 0,
        name[0] == '@',
    ensures
        chat_json(decimal_int(n as int)) == decimal_int(n as int),
        chat_json(name) == json_quoted(name),
{
    lemma_decimal_roundtrip(n as int);
    let d = decimal_int(n as int);
    lemma_decimal(if n >= 0 {
        n as nat
    } else {
        (-n) as nat
    });
    assert(d.len() > 0 ==> d[0] != '@') by {
        if n >= 0 {
            assert(d.len() > 0);
            assert(crate::text::is_digit(d[0]));
        }
    }
}

/// The token of a Telegram bot is a number, a colon and at least twenty characters of a key.
pub proof fn lemma_telegram_token(id: Seq<char>, key: Seq<char>)
    requires
        id.len() > 0,
        crate::text::only_digits(id),
        forall|i: int| 0 <= i < key.len() ==> crate::server::alerts::is_token_char(#[trigger] key[i]),
    ensures
        telegram_token(id + seq![':'] + key) <==> key.len() >= 20 && id.len() + key.len() < 128,
{
    let t = id + seq![':'] + key;
    lemma_first_index(t, ':');
    assert(t[id.len() as int] == ':');
    assert(t.contains(':'));
    let k = first_index(t, ':');
    assert(k == id.len()) by {
        if k < id.len() {
            assert(t[k] == id[k]);
            assert(crate::text::is_digit(id[k]));
        }
    }
    assert(before(t, ':') =~= id);
    assert(after(t, ':') =~= key);
}

/// A chat may be named by a name of at least three letters.
pub proof fn lemma_chat_forms(name: Seq<char>)
    requires
        name.len() <= 39,
        forall|i: int|
            0 <= i < name.len() ==> crate::server::alerts::is_channel_char(#[trigger] name[i]),
    ensures
        chat_id(seq!['@'] + name) <==> name.len() >= 3,
        !chat_id(Seq::empty()),
{
    let s = seq!['@'] + name;
    assert forall|i: int| 1 <= i < s.len() implies crate::server::alerts::is_channel_char(
        #[trigger] s[i],
    ) by {
        assert(s[i] == name[i - 1]);
    }
    assert(!crate::text::is_digit(s[0]));
}

// ---------------------------------------------------------------------------
// Which channels
// ---------------------------------------------------------------------------

proof fn lemma_fresh(m: Map<(i64, u64), i64>, now: i64, key: (i64, u64))
    ensures
        repeated_soon(fresh(m, now), key, now) == repeated_soon(m, key, now),
        fresh(m, now).contains_key(key) ==> m.contains_key(key) && fresh(m, now)[key] == m[key],
{
}

/// A channel gets a message the first time, and again once a minute has gone by since it last got it. In
/// between it does not. What other channels got, or which other messages, does not matter.
pub proof fn lemma_once_a_minute(m: Map<(i64, u64), i64>, key: (i64, u64), now: i64)
    requires
        m.contains_key(key) ==> 0 <= m[key] && 0 <= now,
    ensures
        !m.contains_key(key) ==> admitted(m, key, now).1,
        m.contains_key(key) ==> (admitted(m, key, now).1 <==> now - m[key] >= 60),
        admitted(m, key, now).1 ==> admitted(m, key, now).0.contains_key(key) && admitted(
            m,
            key,
            now,
        ).0[key] == now,
        !admitted(m, key, now).1 ==> admitted(m, key, now).0.contains_key(key) && admitted(
            m,
            key,
            now,
        ).0[key] == m[key],
{
    lemma_fresh(m, now, key);
}

proof fn lemma_planned_others(
    m: Map<(i64, u64), i64>,
    channels: Seq<Channel>,
    rank: u8,
    hash: u64,
    now: i64,
    n: int,
    key: (i64, u64),
)
    requires
        0 <= n <= channels.len(),
        forall|j: int| 0 <= j < n ==> (#[trigger] channels[j]).id != key.0 || key.1 != hash,
    ensures
        repeated_soon(planned(m, channels, rank, hash, now, n).0, key, now) == repeated_soon(
            m,
            key,
            now,
        ),
    decreases n,
{
    if n > 0 {
        lemma_planned_others(m, channels, rank, hash, now, n - 1, key);
        let m1 = planned(m, channels, rank, hash, now, n - 1).0;
        lemma_fresh(m1, now, key);
        let ch = channels[n - 1];
        assert((ch.id, hash) != key);
    }
}

proof fn lemma_planned_bounds(
    m: Map<(i64, u64), i64>,
    channels: Seq<Channel>,
    rank: u8,
    hash: u64,
    now: i64,
    n: int,
)
    requires
        0 <= n <= channels.len() <= usize::MAX,
    ensures
        ({
            let r = planned(m, channels, rank, hash, now, n).1;
            &&& forall|k: int| 0 <= k < r.len() ==> (#[trigger] r[k]) < n
            &&& forall|j: int, k: int| 0 <= j < k < r.len() ==> (#[trigger] r[j]) < (#[trigger] r[k])
        }),
    decreases n,
{
    if n > 0 {
        lemma_planned_bounds(m, channels, rank, hash, now, n - 1);
        let p = planned(m, channels, rank, hash, now, n - 1).1;
        let r = planned(m, channels, rank, hash, now, n).1;
        assert(r =~= p || r =~= p.push((n - 1) as usize));
        assert forall|k: int| 0 <= k < r.len() implies (#[trigger] r[k]) < n by {
            if k < p.len() {
                assert(r[k] == p[k]);
            }
        }
        assert forall|j: int, k: int| 0 <= j < k < r.len() implies (#[trigger] r[j]) < (
        #[trigger] r[k]) by {
            assert(r[j] == p[j]);
            if k < p.len() {
                assert(r[k] == p[k]);
            }
        }
    }
}

/// A message goes to exactly those channels that are for its severity and that did not get it within the
/// last minute, each once and in their order.
pub proof fn lemma_channels(
    m: Map<(i64, u64), i64>,
    channels: Seq<Channel>,
    rank: u8,
    hash: u64,
    now: i64,
    n: int,
    i: int,
)
    requires
        0 <= i < n <= channels.len() <= usize::MAX,
        0 <= now,
        m.contains_key((channels[i].id, hash)) ==> 0 <= m[(channels[i].id, hash)],
        forall|j: int, k: int|
            #![trigger channels[j], channels[k]]
            0 <= j < k < channels.len() ==> channels[j].id != channels[k].id,
    ensures
        ({
            let r = planned(m, channels, rank, hash, now, n).1;
            let key = (channels[i].id, hash);
            &&& r.contains(i as usize) <==> severity_rank(channels[i].min_severity@) <= rank && !(
            m.contains_key(key) && now - m[key] < 60)
            &&& forall|j: int, k: int| 0 <= j < k < r.len() ==> (#[trigger] r[j]) < (#[trigger] r[k])
        }),
    decreases n,
{
    lemma_planned_bounds(m, channels, rank, hash, now, n);
    let r = planned(m, channels, rank, hash, now, n).1;
    let before_n = planned(m, channels, rank, hash, now, n - 1).1;
    if i < n - 1 {
        lemma_channels(m, channels, rank, hash, now, n - 1, i);
        if before_n.contains(i as usize) {
            let k = choose|k: int| 0 <= k < before_n.len() && before_n[k] == i as usize;
            assert(r[k] == i as usize);
        }
        if r.contains(i as usize) {
            let k = choose|k: int| 0 <= k < r.len() && r[k] == i as usize;
            assert(k < before_n.len());
            assert(before_n[k] == i as usize);
        }
    } else {
        let key = (channels[i].id, hash);
        assert forall|j: int| 0 <= j < n - 1 implies (#[trigger] channels[j]).id != key.0 || key.1
            != hash by {
            assert(channels[j].id != channels[i].id);
        }
        lemma_planned_others(m, channels, rank, hash, now, n - 1, key);
        lemma_planned_bounds(m, channels, rank, hash, now, n - 1);
        let m1 = planned(m, channels, rank, hash, now, n - 1).0;
        lemma_fresh(m1, now, key);
        if r.len() > before_n.len() {
            assert(r[before_n.len() as int] == i as usize);
        } else {
            assert(r =~= before_n);
        }
    }
}

// ---------------------------------------------------------------------------
// What a message says
// ---------------------------------------------------------------------------

/// A message names the rule. One about a broken bound tells the value and the bound and on which side of
/// it the value lies, one about a change tells the change, its bound and the span.
#[verifier::rlimit(30)]
pub proof fn lemma_message_tells(rule: RuleLite, t: ValueTexts)
    ensures
        forall|firing: bool|
            ends_with(#[trigger] message(rule, t, firing), rule.name@ + ")"@),
        rule.metric@ != "offline"@ && rule.comparator@ != "roc"@ ==> {
            &&& contains(message(rule, t, true), t.value@)
            &&& contains(message(rule, t, true), t.threshold@)
            &&& contains(message(rule, t, false), t.value@)
            &&& starts_with(message(rule, t, true), label_of(rule.metric@))
            &&& starts_with(message(rule, t, false), label_of(rule.metric@))
            &&& rule.comparator@ == "lt"@ || rule.comparator@ == "lte"@ ==> contains(
                message(rule, t, true),
                " 低于阈值 "@ + t.threshold@,
            )
            &&& rule.comparator@ != "lt"@ && rule.comparator@ != "lte"@ ==> contains(
                message(rule, t, true),
                " 高于阈值 "@ + t.threshold@,
            )
        },
        rule.metric@ != "offline"@ && rule.comparator@ == "roc"@ ==> {
            &&& contains(message(rule, t, true), t.signed@)
            &&& contains(message(rule, t, true), "±"@ + t.threshold@)
            &&& contains(message(rule, t, true), span_text(roc_window(rule)))
            &&& starts_with(message(rule, t, true), label_of(rule.metric@))
        },
{
    let name = rule.name@ + ")"@;
    let label = label_of(rule.metric@);
    assert forall|firing: bool| ends_with(#[trigger] message(rule, t, firing), name) by {
        let s = message(rule, t, firing);
        assert(s.skip(s.len() - name.len()) =~= name);
    }
    if rule.metric@ != "offline"@ {
        assert(message(rule, t, true).take(label.len() as int) =~= label);
        assert(message(rule, t, false).take(label.len() as int) =~= label);
    }
    if rule.metric@ != "offline"@ && rule.comparator@ != "roc"@ {
        let side = if rule.comparator@ == "lt"@ || rule.comparator@ == "lte"@ {
            " 低于阈值 "@
        } else {
            " 高于阈值 "@
        };
        let s = message(rule, t, true);
        let e = "(规则:"@ + name;
        lemma_in_between(label + " "@, t.value@, side + t.threshold@ + e);
        assert(label + " "@ + t.value@ + (side + t.threshold@ + e) =~= s);
        lemma_in_between(label + " "@ + t.value@ + side, t.threshold@, e);
        assert(label + " "@ + t.value@ + side + t.threshold@ + e =~= s);
        lemma_in_between(label + " "@ + t.value@, side + t.threshold@, e);
        assert(label + " "@ + t.value@ + (side + t.threshold@) + e =~= s);
        lemma_in_between(label + " 已恢复:"@, t.value@, e);
        assert(label + " 已恢复:"@ + t.value@ + e =~= message(rule, t, false));
    }
    if rule.metric@ != "offline"@ && rule.comparator@ == "roc"@ {
        let s = message(rule, t, true);
        let span = span_text(roc_window(rule));
        let e = ";规则:"@ + name;
        let a = label + " 在 "@;
        let b = " 内变化 "@;
        reveal_strlit("(阈值 ±");
        reveal_strlit("±");
        reveal_strlit("(阈值 ");
        let c = "(阈值 ±"@;
        assert(c =~= "(阈值 "@ + "±"@);
        lemma_in_between(a, span, b + t.signed@ + c + t.threshold@ + e);
        assert(a + span + (b + t.signed@ + c + t.threshold@ + e) =~= s);
        lemma_in_between(a + span + b, t.signed@, c + t.threshold@ + e);
        assert(a + span + b + t.signed@ + (c + t.threshold@ + e) =~= s);
        lemma_in_between(a + span + b + t.signed@ + "(阈值 "@, "±"@ + t.threshold@, e);
        assert(a + span + b + t.signed@ + "(阈值 "@ + ("±"@ + t.threshold@) + e =~= s);
    }
}

/// A span is told in seconds below a minute, and else in whole minutes.
pub proof fn lemma_span(w: i64, minutes: int)
    ensures
        0 <= w < 60 ==> starts_with(span_text(w), decimal_int(w as int)),
        minutes >= 1 && 60 * minutes <= w < 60 * minutes + 60 ==> starts_with(
            span_text(w),
            decimal_int(minutes),
        ),
        0 <= w < 60 ==> ends_with(span_text(w), "秒"@),
        w >= 60 ==> ends_with(span_text(w), "分钟"@),
{
    reveal_strlit(" 秒");
    reveal_strlit("秒");
    reveal_strlit(" 分钟");
    reveal_strlit("分钟");
    let s = span_text(w);
    if w < 60 {
        assert(s.take(decimal_int(w as int).len() as int) =~= decimal_int(w as int));
        assert(s.skip(s.len() - 1) =~= "秒"@);
    } else {
        let d = decimal_int(w as int / 60);
        assert(s.take(d.len() as int) =~= d);
        assert(s.skip(s.len() - 2) =~= "分钟"@);
        if 60 * minutes <= w < 60 * minutes + 60 {
            assert(w as int / 60 == minutes);
        }
    }
}

/// What is measured is named in its label: a share as such, and each thing by its name.
pub proof fn lemma_labels()
    ensures
        label_of("cpu_pct"@) == "CPU "@ + "使用率"@,
        label_of("mem_pct"@) == "内存"@ + "使用率"@,
        label_of("disk_pct"@) == "磁盘"@ + "使用率"@,
        label_of("swap_pct"@) == "Swap "@ + "使用率"@,
        label_of("inode_pct"@) == "inode "@ + "使用率"@,
        starts_with(label_of("cpu_temp"@), "CPU 温度"@),
        starts_with(label_of("tcp_conns"@), "TCP"@),
        ends_with(label_of("load1"@), "负载"@),
        ends_with(label_of("services_down"@), "服务数"@),
        starts_with(label_of("offline"@), "在线"@),
{
    crate::laws::alerts::lemma_metric_names();
    reveal_strlit("CPU 使用率");
    reveal_strlit("CPU ");
    reveal_strlit("使用率");
    assert("CPU 使用率"@ =~= "CPU "@ + "使用率"@);
    reveal_strlit("内存使用率");
    reveal_strlit("内存");
    assert("内存使用率"@ =~= "内存"@ + "使用率"@);
    reveal_strlit("磁盘使用率");
    reveal_strlit("磁盘");
    assert("磁盘使用率"@ =~= "磁盘"@ + "使用率"@);
    reveal_strlit("Swap 使用率");
    reveal_strlit("Swap ");
    assert("Swap 使用率"@ =~= "Swap "@ + "使用率"@);
    reveal_strlit("inode 使用率");
    reveal_strlit("inode ");
    assert("inode 使用率"@ =~= "inode "@ + "使用率"@);
    reveal_strlit("CPU 温度(℃)");
    reveal_strlit("CPU 温度");
    assert("CPU 温度(℃)"@.take(6) =~= "CPU 温度"@);
    reveal_strlit("TCP 连接数");
    reveal_strlit("TCP");
    assert("TCP 连接数"@.take(3) =~= "TCP"@);
    reveal_strlit("1 分钟负载");
    reveal_strlit("负载");
    assert("1 分钟负载"@.skip(4) =~= "负载"@);
    reveal_strlit("异常服务数");
    reveal_strlit("服务数");
    assert("异常服务数"@.skip(2) =~= "服务数"@);
    reveal_strlit("在线状态");
    reveal_strlit("在线");
    assert("在线状态"@.take(2) =~= "在线"@);
}

// ---------------------------------------------------------------------------
// Requests
// ---------------------------------------------------------------------------

/// A host with the port behind it, where one is given.
pub open spec fn authority(host: Seq<char>, port: Option<u16>) -> Seq<char> {
    match port {
        Some(p) => host + seq![':'] + decimal(p as nat),
        None => host,
    }
}

proof fn lemma_authority(host: Seq<char>, port: Option<u16>)
    requires
        host.len() > 0,
        !host.contains('/'),
        !host.contains(':'),
        !host.contains('@'),
        host[0] != '[',
    ensures
        !authority(host, port).contains('/'),
        !authority(host, port).contains('@'),
        host_port(authority(host, port)) == Ok::<(Seq<char>, u16), Seq<char>>(
            (
                host,
                match port {
                    Some(p) => p,
                    None => 443,
                },
            ),
        ),
{
    let auth = authority(host, port);
    assert(auth[0] == host[0]);
    match port {
        Some(p) => {
            let d = decimal(p as nat);
            lemma_decimal_roundtrip(p as int);
            lemma_decimal(p as nat);
            assert forall|i: int| 0 <= i < d.len() implies crate::text::is_digit(
                #[trigger] d[i],
            ) by {}
            assert forall|i: int| 0 <= i < auth.len() implies auth[i] != '/' && auth[i] != '@' by {
                if i < host.len() {
                    assert(auth[i] == host[i]);
                } else if i > host.len() {
                    assert(auth[i] == d[i - host.len() - 1]);
                }
            }
            assert(auth[host.len() as int] == ':');
            assert(auth.contains(':'));
            lemma_last_index(auth, ':');
            let e = last_index(auth, ':');
            assert(e == host.len()) by {
                if e > host.len() {
                    assert(auth[e] == d[e - host.len() - 1]);
                }
            }
            assert(auth.skip(e + 1) =~= d);
            assert(auth.take(e) =~= host);
            assert(port_number(d) == Some(p));
        },
        None => {},
    }
}

/// An address is taken apart into what it was put together from: a host, a port where one is given and
/// 443 where none is, and the path.
#[verifier::rlimit(30)]
pub proof fn lemma_address_parts(host: Seq<char>, port: Option<u16>, path: Seq<char>)
    requires
        host.len() > 0,
        byte_len(host) <= 255,
        !host.contains('/'),
        !host.contains(':'),
        !host.contains('@'),
        host[0] != '[',
        path.len() == 0 || path[0] == '/',
        !bad_path(path),
        byte_len("https://"@ + authority(host, port) + path) <= 2048,
    ensures
        https_parts("https://"@ + authority(host, port) + path) == Ok::<
            (Seq<char>, u16, Seq<char>),
            Seq<char>,
        >(
            (
                host,
                match port {
                    Some(p) => p,
                    None => 443,
                },
                if path.len() > 0 {
                    path
                } else {
                    seq!['/']
                },
            ),
        ),
{
    let auth = authority(host, port);
    lemma_authority(host, port);
    let p = "https://"@;
    let u = p + auth + path;
    assert(u.take(p.len() as int) =~= p);
    let r = u.skip(p.len() as int);
    assert(r =~= auth + path);
    lemma_first_index(r, '/');
    let k = first_index(r, '/');
    assert(r.len() > 0);
    if path.len() > 0 {
        assert(r[auth.len() as int] == '/');
        assert(r.contains('/'));
        assert(k == auth.len()) by {
            if k < auth.len() {
                assert(r[k] == auth[k]);
            }
        }
        assert(r.skip(k) =~= path);
        assert(before(r, '/') =~= auth);
    } else {
        assert(r =~= auth);
        assert(before(r, '/') =~= auth);
        reveal_strlit("/");
        assert("/"@ =~= seq!['/']);
        assert(!bad_path("/"@));
    }
    assert(crate::server::notify::authority_of(r) == auth);
    assert(!auth.contains('@'));
    assert(!bad_path(crate::server::notify::path_of(r)));
    assert(starts_with(u, p));
}

/// Of the addresses of a host the first that is public is taken, and the first of all where private ones
/// are allowed.
pub proof fn lemma_first_public(addrs: Seq<crate::ip::IpAddr>, k: int)
    requires
        0 <= k < addrs.len(),
        public_ip(addrs[k]),
        forall|i: int| 0 <= i < k ==> !public_ip(#[trigger] addrs[i]),
    ensures
        first_allowed(addrs, false) == k,
        first_allowed(addrs, true) == 0,
    decreases k,
{
    if k > 0 {
        assert(!public_ip(addrs[0]));
        let t = addrs.drop_first();
        assert forall|i: int| 0 <= i < k - 1 implies !public_ip(#[trigger] t[i]) by {
            assert(t[i] == addrs[i + 1]);
        }
        lemma_first_public(t, k - 1);
    }
}

/// A request names the path and the host, tells the length of its body in bytes, and ends with the body
/// behind an empty line.
pub proof fn lemma_request(host: Seq<char>, path: Seq<char>, body: Seq<char>)
    ensures
        starts_with(post_text(host, path, body), "POST "@ + path + " HTTP/1.1\r\n"@),
        contains(post_text(host, path, body), "\r\nHost: "@ + host + "\r\n"@),
        contains(
            post_text(host, path, body),
            "\r\nContent-Length: "@ + decimal(byte_len(body)) + "\r\n"@,
        ),
        ends_with(post_text(host, path, body), "\r\n\r\n"@ + body),
{
    let s = post_text(host, path, body);
    let n = decimal(byte_len(body));
    reveal_strlit("POST ");
    reveal_strlit(" HTTP/1.1\r\nHost: ");
    reveal_strlit(" HTTP/1.1\r\n");
    reveal_strlit("\r\nHost: ");
    reveal_strlit(" HTTP/1.1");
    reveal_strlit("\r\n");
    reveal_strlit("\r\n\r\n");
    reveal_strlit("\r\nConnection: close");
    reveal_strlit("\r\nConnection: close\r\n\r\n");
    reveal_strlit(
        "\r\nUser-Agent: outpost/0.1\r\nContent-Type: application/json\r\nContent-Length: ",
    );
    reveal_strlit("\r\nUser-Agent: outpost/0.1\r\nContent-Type: application/json");
    reveal_strlit("\r\nContent-Length: ");
    let a = "POST "@ + path + " HTTP/1.1\r\n"@;
    assert(s.take(a.len() as int) =~= a);
    let h = " HTTP/1.1"@;
    let g = "\r\nUser-Agent: outpost/0.1\r\nContent-Type: application/json"@;
    let c = "\r\nConnection: close"@;
    let l = "\r\nContent-Length: "@;
    let hh = "\r\nHost: "@;
    let e = "\r\n"@;
    let ee = "\r\n\r\n"@;
    assert(" HTTP/1.1\r\nHost: "@ =~= h + hh);
    assert("\r\nUser-Agent: outpost/0.1\r\nContent-Type: application/json\r\nContent-Length: "@ =~= g
        + l);
    assert("\r\nConnection: close\r\n\r\n"@ =~= c + ee);
    let f = "POST "@ + path + h;
    assert(s =~= f + hh + host + g + l + n + c + ee + body);
    let g1 = g.skip(2);
    assert(g =~= e + g1);
    lemma_in_between(f, hh + host + e, g1 + l + n + c + ee + body);
    assert(f + (hh + host + e) + (g1 + l + n + c + ee + body) =~= s);
    let c1 = c.skip(2);
    assert(c =~= e + c1);
    lemma_in_between(f + hh + host + g, l + n + e, c1 + ee + body);
    assert(f + hh + host + g + (l + n + e) + (c1 + ee + body) =~= s);
    let z = ee + body;
    assert(s.skip(s.len() - z.len()) =~= z);
}

/// A message is sent exactly where it is at most sixteen kibibytes long and its address can be taken apart
/// and is not one that is set apart, unless those are allowed.
pub proof fn lemma_what_is_sent(url: Seq<char>, body: Seq<char>, allow_private: bool)
    ensures
        post_refused(url, body, allow_private) is None <==> byte_len(body) <= 16 * 1024 && (
        https_parts(url) matches Ok((host, port, path)) && (crate::ip::ip_value(host) matches Some(ip)
            ==> allow_private || public_ip(ip))),
        allow_private && byte_len(body) <= 16 * 1024 ==> (post_refused(url, body, allow_private) is None
            <==> https_parts(url) is Ok),
{
}

/// A long address stands between brackets, and its port behind them.
pub proof fn lemma_bracketed_host(host: Seq<char>, port: u16)
    requires
        !host.contains(']'),
    ensures
        host_port(seq!['['] + host + seq![']', ':'] + decimal(port as nat)) == Ok::<
            (Seq<char>, u16),
            Seq<char>,
        >((host, port)),
        host_port(seq!['['] + host + seq![']']) == Ok::<(Seq<char>, u16), Seq<char>>((host, 443)),
{
    let d = decimal(port as nat);
    lemma_decimal_roundtrip(port as int);
    let a = seq!['['] + host + seq![']', ':'] + d;
    let b = seq!['['] + host + seq![']'];
    let (h, k) = (a.skip(1), b.skip(1));
    assert(h =~= host + seq![']', ':'] + d);
    assert(k =~= host + seq![']']);
    assert(h[host.len() as int] == ']' && k[host.len() as int] == ']');
    assert(h.contains(']') && k.contains(']'));
    lemma_first_index(h, ']');
    lemma_first_index(k, ']');
    assert(first_index(h, ']') == host.len()) by {
        let i = first_index(h, ']');
        if i < host.len() {
            assert(host[i] == h[i]);
        }
    }
    assert(first_index(k, ']') == host.len()) by {
        let i = first_index(k, ']');
        if i < host.len() {
            assert(host[i] == k[i]);
        }
    }
    assert(before(h, ']') =~= host);
    assert(before(k, ']') =~= host);
    let t = after(h, ']');
    assert(t =~= seq![':'] + d);
    assert(t[0] == ':');
    assert(t.skip(1) =~= d);
    assert(after(k, ']') =~= Seq::empty());
    assert(port_number(d) == Some(port));
}

/// An address is taken only where it is secure, not too long, tells no account, and has a host.
pub proof fn lemma_taken_addresses(url: Seq<char>, n: nat)
    ensures
        https_parts(url) matches Ok((host, port, path)) ==> {
            &&& starts_with(url, "https://"@)
            &&& byte_len(url) <= 2048
            &&& 0 < host.len() && byte_len(host) <= 255
            &&& !before(url.skip("https://"@.len() as int), '/').contains('@')
        },
        port_number(decimal(n)) == if n <= 65_535 {
            Some(n as u16)
        } else {
            None
        },
{
    lemma_decimal_roundtrip(n as int);
}

} // verus!
