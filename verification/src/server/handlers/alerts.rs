//! Rules, channels and silences as users set them. What a rule watches, how it compares and where a
//! channel leads is chosen from fixed lists.

use crate::common::{clean_str, cleaned, short_name, valid_short_name};
use crate::json::{json_member, json_quoted, json_string, read_member};
use crate::measure::Measure;
use crate::num::{decimal, nearest_i64, sat_add, show_u64};
use crate::server::alerts::{
    chat_id, known_channel_kind, known_comparator, known_metric, known_roc_metric, known_severity,
    telegram_token, valid_channel_kind, valid_chat_id, valid_comparator, valid_metric,
    valid_roc_metric, valid_severity, valid_telegram_token, ROC_MIN_WINDOW,
};
use crate::server::errors::{refusal, wrong, AppError, ErrorView};
use crate::server::notify_smtp::{mail_address, valid_email};
use crate::server::session::SessionAdmin;
use crate::text::{
    before, byte_count, byte_count_of, byte_len, chars_of, concat2, has_prefix, same, starts_with,
    string_of, strip_prefix, take_before, trim, trimmed,
};
use vstd::prelude::*;
use vstd::string::*;

verus! {

/// The most rules.
pub const MAX_RULES: i64 = 500;

/// The most channels.
pub const MAX_CHANNELS: i64 = 50;

/// The most silences.
pub const MAX_SILENCES: i64 = 200;

/// The largest threshold, a million.
pub const BITS_MILLION: u64 = 0x412e_8480_0000_0000;

/// A new rule.
#[derive(Debug)]
pub struct RuleReq {
    pub name: String,
    pub metric: String,
    pub comparator: String,
    pub threshold: Measure,
    pub duration_secs: i64,
    /// The node that it is about; all nodes where there is none.
    pub node_id: Option<i64>,
    pub severity: String,
    /// The span over which a rate of change is taken, in seconds.
    pub roc_window_secs: i64,
}

/// A new channel.
#[derive(Debug)]
pub struct ChannelReq {
    pub name: String,
    pub kind: String,
    /// The address of a webhook or of Bark, or the token of a Telegram bot.
    pub url: String,
    /// The chat of a Telegram bot.
    pub target: String,
    pub smtp_host: String,
    pub smtp_port: Option<u16>,
    pub smtp_user: String,
    pub smtp_pass: String,
    pub smtp_from: String,
    pub smtp_to: String,
    /// The least severity that it is told of.
    pub min_severity: String,
}

/// A new silence.
#[derive(Debug)]
pub struct SilenceReq {
    /// The node that it is about; all nodes where there is none.
    pub node_id: Option<i64>,
    /// The rule that it is about; all rules where there is none.
    pub rule_id: Option<i64>,
    pub duration_secs: i64,
    pub reason: String,
}

/// How often a lasting alert is repeated.
#[derive(Debug)]
pub struct RenotifyReq {
    /// In seconds; 0 for never.
    pub secs: i64,
}

/// What a rule compares with where a request does not say.
pub fn default_gt() -> (r: String)
    ensures
        r@ == "gt"@,
{
    "gt".to_string()
}

/// The span over which a rule takes a rate of change where a request does not say: the shortest.
pub fn default_roc_window() -> (r: i64)
    ensures
        r == ROC_MIN_WINDOW,
{
    ROC_MIN_WINDOW
}

/// The severity of a rule where a request does not say.
pub fn default_warning() -> (r: String)
    ensures
        r@ == "warning"@,
{
    "warning".to_string()
}

/// The least severity of a channel where a request does not say.
pub fn default_info() -> (r: String)
    ensures
        r@ == "info"@,
{
    "info".to_string()
}

/// The kind of a channel where a request does not say.
pub fn default_webhook() -> (r: String)
    ensures
        r@ == "webhook"@,
{
    "webhook".to_string()
}

// ---------------------------------------------------------------------------
// Rules
// ---------------------------------------------------------------------------

/// A threshold from nothing to a million.
pub open spec fn possible_threshold(t: Measure) -> bool {
    t.finite() && (Measure { bits: 0 }).at_most(t) && t.at_most(Measure { bits: BITS_MILLION })
}

/// Why a rate of change is not watched, if it is not.
pub open spec fn roc_refused(q: RuleReq) -> Option<ErrorView> {
    if q.comparator@ != "roc"@ {
        None
    } else if !known_roc_metric(q.metric@) {
        Some(wrong("该指标不支持变化率"@))
    } else if !(30 <= q.roc_window_secs <= 86_400) {
        Some(wrong("变化率窗口需在 30~86400 秒"@))
    } else if !(Measure { bits: 0 }).below(q.threshold) {
        Some(wrong("变化率阈值需大于 0"@))
    } else {
        None
    }
}

/// Why a rule is not accepted, if it is not.
pub open spec fn rule_refused(q: RuleReq) -> Option<ErrorView> {
    if !short_name(cleaned(q.name@, 64)) {
        Some(wrong("规则名需为 1~64 个可见字符"@))
    } else if !known_metric(q.metric@) {
        Some(wrong("不支持的指标"@))
    } else if !known_comparator(q.comparator@) {
        Some(wrong("不支持的比较符"@))
    } else if !possible_threshold(q.threshold) {
        Some(wrong("阈值超出范围"@))
    } else if !(0 <= q.duration_secs <= 86_400) {
        Some(wrong("持续时间需在 0~86400 秒"@))
    } else if !known_severity(q.severity@) {
        Some(wrong("严重度需为 info/warning/critical"@))
    } else {
        roc_refused(q)
    }
}

/// The name under which a rule is stored, where it is accepted.
pub fn create_rule(admin: &SessionAdmin, req: &RuleReq) -> (r: Result<String, AppError>)
    ensures
        admin@.role@ == "admin"@,
        refusal(r) == rule_refused(*req),
        r matches Ok(n) ==> n@ == cleaned(req.name@, 64),
{
    proof {
        use_type_invariant(admin);
    }
    let name = clean_str(req.name.as_str(), 64);
    if !valid_short_name(name.as_str()) {
        return Err(AppError::bad("规则名需为 1~64 个可见字符"));
    }
    if !valid_metric(req.metric.as_str()) {
        return Err(AppError::bad("不支持的指标"));
    }
    if !valid_comparator(req.comparator.as_str()) {
        return Err(AppError::bad("不支持的比较符"));
    }
    let zero = Measure { bits: 0 };
    let most = Measure { bits: BITS_MILLION };
    if !req.threshold.is_finite() || !zero.le(req.threshold) || !req.threshold.le(most) {
        return Err(AppError::bad("阈值超出范围"));
    }
    if req.duration_secs < 0 || req.duration_secs > 86_400 {
        return Err(AppError::bad("持续时间需在 0~86400 秒"));
    }
    if !valid_severity(req.severity.as_str()) {
        return Err(AppError::bad("严重度需为 info/warning/critical"));
    }
    if same(req.comparator.as_str(), "roc") {
        if !valid_roc_metric(req.metric.as_str()) {
            return Err(AppError::bad("该指标不支持变化率"));
        }
        if req.roc_window_secs < 30 || req.roc_window_secs > 86_400 {
            return Err(AppError::bad("变化率窗口需在 30~86400 秒"));
        }
        if !zero.lt(req.threshold) {
            return Err(AppError::bad("变化率阈值需大于 0"));
        }
    }
    Ok(name)
}

/// Whether there is room for a rule: its node exists, and there are not too many rules. `nodes` counts
/// the nodes with its number.
pub fn rule_room(node_id: Option<i64>, nodes: i64, rules: i64) -> (r: Result<(), AppError>)
    ensures
        refusal(r) == if node_id is Some && nodes == 0 {
            Some(wrong("指定节点不存在"@))
        } else if rules >= MAX_RULES {
            Some(wrong("告警规则数量已达上限"@))
        } else {
            None
        },
{
    if node_id.is_some() && nodes == 0 {
        return Err(AppError::bad("指定节点不存在"));
    }
    if rules >= MAX_RULES {
        return Err(AppError::bad("告警规则数量已达上限"));
    }
    Ok(())
}

/// Whether the alerts of a rule are ended: the rule was turned off. `enabled` is what is stored after
/// the change.
pub fn toggle_rule(admin: &SessionAdmin, enabled: Option<i64>) -> (r: bool)
    ensures
        admin@.role@ == "admin"@,
        r == (enabled == Some(0i64)),
{
    proof {
        use_type_invariant(admin);
    }
    match enabled {
        Some(e) => e == 0,
        None => false,
    }
}

/// A rule that is accepted can be judged: what it watches and how it compares is known, and a rate of
/// change is watched only of what has a past.
pub proof fn lemma_accepted_rules_are_judged(q: RuleReq)
    requires
        rule_refused(q) is None,
    ensures
        known_metric(q.metric@),
        known_comparator(q.comparator@),
        q.comparator@ == "roc"@ ==> known_roc_metric(q.metric@) && q.roc_window_secs >= 30,
        q.threshold.finite(),
{
}

// ---------------------------------------------------------------------------
// Channels
// ---------------------------------------------------------------------------

/// How a mail is sent, as it is stored.
pub open spec fn smtp_json(q: ChannelReq) -> Seq<char> {
    "{\"from\":"@ + json_quoted(trimmed(q.smtp_from@)) + ",\"host\":"@ + json_quoted(
        trimmed(q.smtp_host@),
    ) + ",\"password\":"@ + json_quoted(q.smtp_pass@) + ",\"port\":"@ + decimal(
        smtp_port(q) as nat,
    ) + ",\"to\":"@ + json_quoted(trimmed(q.smtp_to@)) + ",\"username\":"@ + json_quoted(
        q.smtp_user@,
    ) + "}"@
}

/// The port that mails are sent to.
pub open spec fn smtp_port(q: ChannelReq) -> u16 {
    match q.smtp_port {
        Some(p) => p,
        None => 465,
    }
}

/// Why a channel leads nowhere, if it does.
pub open spec fn target_refused(q: ChannelReq) -> Option<ErrorView> {
    let url = trimmed(q.url@);
    if q.kind@ == "webhook"@ || q.kind@ == "bark"@ {
        if byte_len(url) > 2048 {
            Some(wrong("地址过长"@))
        } else if !starts_with(url, "https://"@) {
            Some(wrong("必须是 https:// 地址"@))
        } else {
            None
        }
    } else if q.kind@ == "telegram"@ {
        if !telegram_token(url) {
            Some(wrong("Telegram Bot Token 格式不正确"@))
        } else if !chat_id(trimmed(q.target@)) {
            Some(wrong("Telegram chat_id 格式不正确(数字或 @频道名)"@))
        } else {
            None
        }
    } else if q.kind@ == "smtp"@ {
        let host = trimmed(q.smtp_host@);
        if host.len() == 0 || byte_len(host) > 255 {
            Some(wrong("SMTP 服务器地址非法"@))
        } else if !mail_address(q.smtp_from@) || !mail_address(q.smtp_to@) {
            Some(wrong("发件人/收件人邮箱格式非法"@))
        } else if q.smtp_user@.len() == 0 || byte_len(q.smtp_user@) > 320 || q.smtp_pass@.len() == 0
            || byte_len(q.smtp_pass@) > 256 {
            Some(wrong("SMTP 账号或密码非法"@))
        } else {
            None
        }
    } else {
        Some(wrong("暂不支持的渠道类型"@))
    }
}

/// Where a channel leads, as it is stored: the address, and what it needs beside it.
pub open spec fn target_fields(q: ChannelReq) -> (Seq<char>, Seq<char>) {
    if q.kind@ == "webhook"@ || q.kind@ == "bark"@ {
        (trimmed(q.url@), ""@)
    } else if q.kind@ == "telegram"@ {
        (trimmed(q.url@), trimmed(q.target@))
    } else {
        (trimmed(q.smtp_host@), smtp_json(q))
    }
}

fn build_smtp_json(req: &ChannelReq, host: &str) -> (r: String)
    requires
        host@ == trimmed(req.smtp_host@),
    ensures
        r@ == smtp_json(*req),
{
    let f = chars_of(req.smtp_from.as_str());
    let from = string_of(trim(f.as_slice()));
    let t = chars_of(req.smtp_to.as_str());
    let to = string_of(trim(t.as_slice()));
    let port: u16 = match req.smtp_port {
        Some(p) => p,
        None => 465,
    };
    let mut s = "{\"from\":".to_string();
    s.append(json_string(from.as_str()).as_str());
    s.append(",\"host\":");
    s.append(json_string(host).as_str());
    s.append(",\"password\":");
    s.append(json_string(req.smtp_pass.as_str()).as_str());
    s.append(",\"port\":");
    s.append(show_u64(port as u64).as_str());
    s.append(",\"to\":");
    s.append(json_string(to.as_str()).as_str());
    s.append(",\"username\":");
    s.append(json_string(req.smtp_user.as_str()).as_str());
    s.append("}");
    s
}

/// Where a channel leads, as it is stored.
pub fn validate_channel(req: &ChannelReq) -> (r: Result<(String, String), AppError>)
    ensures
        refusal(r) == target_refused(*req),
        r matches Ok(p) ==> (p.0@, p.1@) == target_fields(*req),
{
    let kind = req.kind.as_str();
    if same(kind, "webhook") || same(kind, "bark") {
        let v = chars_of(req.url.as_str());
        let url = trim(v.as_slice());
        if byte_count_of(url) > 2048 {
            return Err(AppError::bad("地址过长"));
        }
        if !has_prefix(url, "https://") {
            return Err(AppError::bad("必须是 https:// 地址"));
        }
        return Ok((string_of(url), "".to_string()));
    }
    if same(kind, "telegram") {
        let v = chars_of(req.url.as_str());
        let url = string_of(trim(v.as_slice()));
        if !valid_telegram_token(url.as_str()) {
            return Err(AppError::bad("Telegram Bot Token 格式不正确"));
        }
        let c = chars_of(req.target.as_str());
        let chat = string_of(trim(c.as_slice()));
        if !valid_chat_id(chat.as_str()) {
            return Err(
                AppError::bad("Telegram chat_id 格式不正确(数字或 @频道名)"),
            );
        }
        return Ok((url, chat));
    }
    if same(kind, "smtp") {
        let v = chars_of(req.smtp_host.as_str());
        let host = string_of(trim(v.as_slice()));
        if host.as_str().is_empty() || byte_count(host.as_str()) > 255 {
            return Err(AppError::bad("SMTP 服务器地址非法"));
        }
        if !valid_email(req.smtp_from.as_str()) || !valid_email(req.smtp_to.as_str()) {
            return Err(AppError::bad("发件人/收件人邮箱格式非法"));
        }
        if req.smtp_user.as_str().is_empty() || byte_count(req.smtp_user.as_str()) > 320
            || req.smtp_pass.as_str().is_empty() || byte_count(req.smtp_pass.as_str()) > 256 {
            return Err(AppError::bad("SMTP 账号或密码非法"));
        }
        let extra = build_smtp_json(req, host.as_str());
        return Ok((host, extra));
    }
    Err(AppError::bad("暂不支持的渠道类型"))
}

/// A channel as it is stored.
#[derive(Debug)]
pub struct NewChannel {
    pub name: String,
    pub url: String,
    pub extra: String,
}

/// Why a channel is not accepted, if it is not.
pub open spec fn channel_refused(q: ChannelReq) -> Option<ErrorView> {
    if !short_name(cleaned(q.name@, 64)) {
        Some(wrong("渠道名需为 1~64 个可见字符"@))
    } else if !known_channel_kind(q.kind@) {
        Some(wrong("暂不支持的渠道类型"@))
    } else if !known_severity(q.min_severity@) {
        Some(wrong("最低严重度需为 info/warning/critical"@))
    } else {
        target_refused(q)
    }
}

/// A channel as it is stored, where it is accepted.
pub fn create_channel(admin: &SessionAdmin, req: &ChannelReq) -> (r: Result<NewChannel, AppError>)
    ensures
        admin@.role@ == "admin"@,
        refusal(r) == channel_refused(*req),
        r matches Ok(c) ==> c.name@ == cleaned(req.name@, 64) && (c.url@, c.extra@)
            == target_fields(*req),
{
    proof {
        use_type_invariant(admin);
    }
    let name = clean_str(req.name.as_str(), 64);
    if !valid_short_name(name.as_str()) {
        return Err(AppError::bad("渠道名需为 1~64 个可见字符"));
    }
    if !valid_channel_kind(req.kind.as_str()) {
        return Err(AppError::bad("暂不支持的渠道类型"));
    }
    if !valid_severity(req.min_severity.as_str()) {
        return Err(AppError::bad("最低严重度需为 info/warning/critical"));
    }
    match validate_channel(req) {
        Ok((url, extra)) => Ok(NewChannel { name, url, extra }),
        Err(e) => Err(e),
    }
}

/// Whether there is room for a channel.
pub fn channel_room(channels: i64) -> (r: Result<(), AppError>)
    ensures
        refusal(r) == if channels >= MAX_CHANNELS {
            Some(wrong("通知渠道数量已达上限"@))
        } else {
            None
        },
{
    if channels >= MAX_CHANNELS {
        Err(AppError::bad("通知渠道数量已达上限"))
    } else {
        Ok(())
    }
}

/// What is shown of where a channel leads. `to` is the recipient of its mails.
pub open spec fn masked(kind: Seq<char>, url: Seq<char>, extra: Seq<char>, to: Seq<char>) -> Seq<
    char,
> {
    if kind == "telegram"@ {
        "Telegram bot "@ + before(url, ':') + "··· → "@ + extra
    } else if kind == "smtp"@ {
        "SMTP "@ + url + " → "@ + to
    } else if starts_with(url, "https://"@) && before(
        url.skip("https://"@.len() as int),
        '/',
    ).len() > 0 {
        "https://"@ + before(url.skip("https://"@.len() as int), '/') + "/***"@
    } else {
        "***"@
    }
}

/// What is shown of where a channel leads, for a given recipient of mails.
pub fn mask(kind: &str, url: &str, extra: &str, to: &str) -> (r: String)
    ensures
        r@ == masked(kind@, url@, extra@, to@),
{
    let v = chars_of(url);
    if same(kind, "telegram") {
        let mut s = "Telegram bot ".to_string();
        s.append(string_of(take_before(v.as_slice(), ':')).as_str());
        s.append("··· → ");
        s.append(extra);
        return s;
    }
    if same(kind, "smtp") {
        let mut s = "SMTP ".to_string();
        s.append(url);
        s.append(" → ");
        s.append(to);
        return s;
    }
    if let Some(rest) = strip_prefix(v.as_slice(), "https://") {
        let host = take_before(rest, '/');
        if host.len() > 0 {
            let mut s = "https://".to_string();
            s.append(string_of(host).as_str());
            s.append("/***");
            return s;
        }
    }
    "***".to_string()
}

/// What is shown of where a channel leads: neither the token of a bot, nor the path of a webhook, nor
/// the credentials for mails.
pub fn mask_target(kind: &str, url: &str, extra: &str) -> (r: String)
    ensures
        r@ == masked(
            kind@,
            url@,
            extra@,
            match json_member(extra@, "to"@) {
                Some(t) => t,
                None => ""@,
            },
        ),
{
    let to = match read_member(extra, "to") {
        Some(t) => t,
        None => "".to_string(),
    };
    mask(kind, url, extra, to.as_str())
}

/// What is shown of a channel does not tell its secrets apart: of the address of a webhook only the
/// host shows, of the token of a bot only the number before its secret, of the settings for mails
/// only the recipient.
pub proof fn lemma_secrets_do_not_show(
    kind: Seq<char>,
    url1: Seq<char>,
    url2: Seq<char>,
    extra1: Seq<char>,
    extra2: Seq<char>,
    to: Seq<char>,
)
    requires
        known_channel_kind(kind),
        kind == "telegram"@ ==> before(url1, ':') == before(url2, ':') && extra1 == extra2,
        kind == "smtp"@ ==> url1 == url2,
        kind == "webhook"@ || kind == "bark"@ ==> starts_with(url1, "https://"@) && starts_with(
            url2,
            "https://"@,
        ) && before(url1.skip("https://"@.len() as int), '/') == before(
            url2.skip("https://"@.len() as int),
            '/',
        ),
    ensures
        masked(kind, url1, extra1, to) == masked(kind, url2, extra2, to),
{
    reveal_strlit("telegram");
    reveal_strlit("smtp");
    reveal_strlit("webhook");
    reveal_strlit("bark");
    assert("webhook"@.len() == 7 && "bark"@.len() == 4 && "telegram"@.len() == 8);
    if kind == "smtp"@ {
        assert(kind[0] == 's');
    }
    if kind == "bark"@ {
        assert(kind[0] == 'b');
    }
}

/// What a test of a channel is answered with.
pub open spec fn test_refused(sent: Result<u16, Seq<char>>) -> Option<ErrorView> {
    match sent {
        Ok(code) => if 200 <= code < 300 {
            None
        } else {
            Some(wrong("接收端返回 HTTP "@ + decimal(code as nat)))
        },
        Err(e) => Some(wrong("发送失败:"@ + e)),
    }
}

/// What a test of a channel is answered with: `sent` is the status of the receiver, or why nothing was
/// sent.
pub fn test_channel(admin: &SessionAdmin, sent: Result<u16, String>) -> (r: Result<u16, AppError>)
    ensures
        admin@.role@ == "admin"@,
        refusal(r) == test_refused(
            match sent {
                Ok(c) => Ok::<u16, Seq<char>>(c),
                Err(e) => Err::<u16, Seq<char>>(e@),
            },
        ),
        r matches Ok(c) ==> sent == Ok::<u16, String>(c),
{
    proof {
        use_type_invariant(admin);
    }
    match sent {
        Ok(code) => if 200 <= code && code < 300 {
            Ok(code)
        } else {
            let m = concat2("接收端返回 HTTP ", show_u64(code as u64).as_str());
            Err(AppError::bad(m.as_str()))
        },
        Err(e) => {
            let m = concat2("发送失败:", e.as_str());
            Err(AppError::bad(m.as_str()))
        },
    }
}

// ---------------------------------------------------------------------------
// Silences
// ---------------------------------------------------------------------------

/// Whether a silence is accepted: from a minute to thirty days.
pub fn check_silence(req: &SilenceReq) -> (r: Result<(), AppError>)
    ensures
        refusal(r) == if 60 <= req.duration_secs <= 2_592_000 {
            None
        } else {
            Some(wrong("静默时长需在 60 秒 ~ 30 天"@))
        },
{
    if req.duration_secs < 60 || req.duration_secs > 2_592_000 {
        return Err(AppError::bad("静默时长需在 60 秒 ~ 30 天"));
    }
    Ok(())
}

/// A silence as it is stored.
#[derive(Debug)]
pub struct NewSilence {
    pub start_ts: i64,
    pub end_ts: i64,
    pub reason: String,
}

/// Why there is no room for a silence, if there is none. `nodes` and `rules` count those with its
/// numbers.
pub open spec fn silence_refused(q: SilenceReq, nodes: i64, rules: i64, silences: i64) -> Option<
    ErrorView,
> {
    if q.node_id is Some && nodes == 0 {
        Some(wrong("指定节点不存在"@))
    } else if q.rule_id is Some && rules == 0 {
        Some(wrong("指定规则不存在"@))
    } else if silences >= MAX_SILENCES {
        Some(wrong("静默窗口数量已达上限"@))
    } else {
        None
    }
}

/// A silence as it is stored, where there is room for it: from now on.
pub fn create_silence(
    admin: &SessionAdmin,
    req: &SilenceReq,
    nodes: i64,
    rules: i64,
    silences: i64,
    now: i64,
) -> (r: Result<NewSilence, AppError>)
    ensures
        admin@.role@ == "admin"@,
        refusal(r) == silence_refused(*req, nodes, rules, silences),
        r matches Ok(s) ==> s.start_ts == now && s.end_ts == nearest_i64(now + req.duration_secs)
            && s.reason@ == cleaned(req.reason@, 200),
{
    proof {
        use_type_invariant(admin);
    }
    if req.node_id.is_some() && nodes == 0 {
        return Err(AppError::bad("指定节点不存在"));
    }
    if req.rule_id.is_some() && rules == 0 {
        return Err(AppError::bad("指定规则不存在"));
    }
    if silences >= MAX_SILENCES {
        return Err(AppError::bad("静默窗口数量已达上限"));
    }
    Ok(
        NewSilence {
            start_ts: now,
            end_ts: sat_add(now, req.duration_secs),
            reason: clean_str(req.reason.as_str(), 200),
        },
    )
}

/// Whether a lasting alert can be repeated so often: never, or every five minutes to seven days.
pub fn set_renotify(admin: &SessionAdmin, req: &RenotifyReq) -> (r: Result<(), AppError>)
    ensures
        admin@.role@ == "admin"@,
        refusal(r) == if req.secs == 0 || 300 <= req.secs <= 604_800 {
            None
        } else {
            Some(wrong("重复提醒间隔需为 0(关闭)或 300 秒 ~ 7 天"@))
        },
{
    proof {
        use_type_invariant(admin);
    }
    if req.secs != 0 && (req.secs < 300 || req.secs > 604_800) {
        return Err(AppError::bad("重复提醒间隔需为 0(关闭)或 300 秒 ~ 7 天"));
    }
    Ok(())
}

} // verus!
