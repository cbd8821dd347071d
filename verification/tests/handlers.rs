use outpost::ip::{parse_ip, IpAddr};
use outpost::measure::Measure;
use outpost::metrics::{AgentToServer, DiskUsage, HostInfo, Metrics, ServerToAgent};
use outpost::server::audit::log;
use outpost::server::errors::AppError;
use outpost::server::handlers::account::{backup, revoke_session, session_item};
use outpost::server::handlers::agent_api::{
    claimed, download, healthz, issue_token, manifest, register, register_key, token_reply, KeyRow,
    RegisterForm,
};
use outpost::server::handlers::alerts::{
    channel_room, check_silence, create_channel, create_rule, create_silence, default_roc_window,
    mask_target,
    rule_room, set_renotify, test_channel, toggle_rule, validate_channel, ChannelReq, RenotifyReq,
    RuleReq, SilenceReq, MAX_RULES,
};
use outpost::server::handlers::apitokens::{create as create_token, token_with, CreateReq};
use outpost::server::handlers::auth::{
    change_password, check_password_strength, create_admin, hash_password, login, login_name,
    login_recovery, new_device_notice, new_device_text, setup, setup_done, setup_stored, valid_username, verify_password, LoginReq,
    LoginStep, PasswordReq, SetupReq, UserRow,
};
use outpost::server::handlers::dataout::{
    default_fmt, esc_label, export, export_csv, export_filename, exportable, prometheus,
    ExportQuery, ExportRow, PromRow,
};
use outpost::server::handlers::nodes::{
    affected, batch, batch_detail, batch_upgrade, changed_one, create as create_node, history,
    is_online, issue_register_key, node_summary, overview_trend, register_key_with, rename,
    render_install_command,
    reorder, upgrade_command, validate_node_name, BatchAction, BatchReq, CreateNodeReq,
    HistoryQuery, NodeRow, RenameReq, ReorderReq, REGISTER_KEY_TTL_SECS,
};
use outpost::server::handlers::pages::{asset, guard, Page, PageAnswer};
use outpost::server::handlers::settings::{
    audit_export, csv_cell, settings_detail, status_url, SettingsReq,
};
use outpost::server::handlers::status::{enable as enable_status, page_with, slug_ok, valid_slug};
use outpost::server::handlers::twofa::{
    consume_recovery, decide_disable, disable, disable_recovery, enable, recovery_code, recovery_codes,
    setup as setup_second, setup_with, used_up, CodeReq, DisableReq, DisableStep, RECOVERY_CODES,
};
use outpost::server::handlers::users::{
    create as create_user, delete, set_role, valid_role, CreateUserReq, RoleReq,
};
use outpost::server::handlers::ws_agent::{
    after_lookup, agent_key, build_detail, conn_loop, cost_of, effects, handle_msg, keeps_first, metric_row,
    to_storable, upgrade, AgentRow, Budget, ConnAction, ConnEvent, Found, Intake, Kind,
};
use outpost::server::handlers::ws_ui::{
    conn_loop as ui_loop, upgrade as ui_upgrade, UiAction, UiEvent,
};
use outpost::server::ratelimit::LoginGuard;
use outpost::server::session::{require_admin, SessionAdmin, SessionUser};
use outpost::server::state::{Artifact, PendingUpgrades};
use outpost::server::totp::{base32_decode, base32_encode};
use outpost::server::util::sha256_hex;

fn v(x: f64) -> Measure {
    Measure { bits: x.to_bits() }
}

fn ip(s: &str) -> IpAddr {
    parse_ip(s).unwrap()
}

fn user(role: &str) -> SessionUser {
    SessionUser { user_id: 1, username: "u".into(), token_hash: "own".into(), role: role.into() }
}

fn admin() -> SessionAdmin {
    require_admin(Some(user("admin"))).unwrap()
}

fn said<T: std::fmt::Debug>(r: Result<T, AppError>) -> String {
    r.unwrap_err().message()
}

fn sample(ts: i64) -> Metrics {
    Metrics {
        ts,
        cpu_pct: v(1.0),
        load1: v(0.0),
        load5: v(0.0),
        load15: v(0.0),
        mem_total: 10,
        mem_used: 5,
        mem_available: 5,
        swap_total: 0,
        swap_used: 0,
        disks: vec![],
        disk_read_bps: 0,
        disk_write_bps: 0,
        nets: vec![],
        uptime_secs: 0,
        procs: 0,
        cpu_temp_c: None,
        tcp_conns: None,
        disk_read_iops: 0,
        disk_write_iops: 0,
        procs_watch: vec![],
        cpu_per_core: vec![],
        services: vec![],
        top_procs: vec![],
        tcp_estab: None,
        tcp_listen: None,
        tcp_time_wait: None,
        containers: vec![],
    }
}

#[test]
fn prometheus_label_escaping() {
    assert_eq!(esc_label("a\"b"), "a\\\"b");
    assert_eq!(esc_label("a\\b"), "a\\\\b");
    assert_eq!(esc_label("a\nb"), "a\\nb");
    assert_eq!(esc_label("a\u{7}b\u{0}c"), "abc");
    assert_eq!(esc_label("正常-name_1"), "正常-name_1");
}

#[test]
fn csv_injection_defused() {
    assert_eq!(csv_cell("=1+2"), "'=1+2");
    assert_eq!(csv_cell("@cmd"), "'@cmd");
    assert_eq!(csv_cell("-5"), "'-5");
    assert_eq!(csv_cell("a,b"), "\"a,b\"");
    assert_eq!(csv_cell("he\"llo"), "\"he\"\"llo\"");
    assert_eq!(csv_cell("normal"), "normal");
    assert_eq!(csv_cell("line\nbreak"), "linebreak");
}

#[test]
fn session_marks() {
    let h = "0123456789abcdef0123456789abcdef";
    assert_eq!(session_item(h, h), ("0123456789abcdef".to_string(), true));
    assert_eq!(session_item(h, "x").1, false);
    assert_eq!(said(revoke_session("zz")), "标识非法");
    assert_eq!(backup("/a'b.db"), "VACUUM INTO '/a''b.db'");
}

fn key_row(used_at: Option<i64>) -> KeyRow {
    KeyRow { id: 1, node_id: 2, key_hash: "h".into(), expires_at: 100, used_at }
}

#[test]
fn registration_keys() {
    assert_eq!(register(Some(&key_row(None)), "h", 100), Ok((1, 2)));
    assert_eq!(register(Some(&key_row(None)), "h", 101), Err("密钥过期或已用"));
    assert_eq!(register(Some(&key_row(Some(5))), "h", 50), Err("密钥过期或已用"));
    assert_eq!(register(Some(&key_row(None)), "x", 50), Err("密钥过期或已用"));
    assert_eq!(register(None, "h", 50), Err("密钥无效"));
    assert!(matches!(claimed(0), Err(AppError::Forbidden)) && claimed(1).is_ok());
    assert!(register_key(&RegisterForm { key: "zz".into() }).is_err());
    let k = "ab".repeat(32);
    assert_eq!(register_key(&RegisterForm { key: k.clone() }).unwrap(), sha256_hex(k.as_bytes()));
}

#[test]
fn agent_tokens() {
    let (hash, told) = token_reply("ab");
    assert_eq!((hash, told), (sha256_hex(b"ab"), "token=ab\n".to_string()));
    let (hash, told) = issue_token().unwrap();
    let t = told.strip_prefix("token=").unwrap().trim_end();
    assert_eq!(t.len(), 64);
    assert_eq!(hash, sha256_hex(t.as_bytes()));
    assert_eq!(agent_key(Some(&format!("Bearer {t}"))).unwrap(), hash);
    assert!(matches!(agent_key(None), Err(AppError::Unauthorized)));
    assert!(matches!(agent_key(Some("Bearer x")), Err(AppError::Unauthorized)));
    let row = |revoked: i64| AgentRow { id: 8, token_hash: hash.clone(), revoked };
    assert_eq!(upgrade(Some(&row(0)), &hash).unwrap(), 8);
    assert!(upgrade(Some(&row(1)), &hash).is_err());
    assert!(upgrade(None, &hash).is_err());
}

#[test]
fn programs() {
    let a = [Artifact { target: "x86".into(), filename: "f".into(), sha256: "s".into() }];
    assert_eq!(manifest(&a), "x86 s /download/f\n");
    assert_eq!(download(&a, "f").unwrap(), 0);
    assert!(matches!(download(&a, "../f"), Err(AppError::NotFound)));
    assert_eq!(healthz(), "ok");
}

fn rule_req() -> RuleReq {
    RuleReq {
        name: " cpu ".into(),
        metric: "cpu_pct".into(),
        comparator: "gt".into(),
        threshold: v(90.0),
        duration_secs: 60,
        node_id: None,
        severity: "warning".into(),
        roc_window_secs: 0,
    }
}

#[test]
fn rules_are_checked() {
    assert_eq!(create_rule(&admin(), &rule_req()).unwrap(), "cpu");
    let mut r = rule_req();
    r.name = "\n".into();
    assert_eq!(said(create_rule(&admin(), &r)), "规则名需为 1~64 个可见字符");
    let mut r = rule_req();
    r.metric = "x".into();
    assert_eq!(said(create_rule(&admin(), &r)), "不支持的指标");
    let mut r = rule_req();
    r.comparator = "x".into();
    assert_eq!(said(create_rule(&admin(), &r)), "不支持的比较符");
    let mut r = rule_req();
    r.threshold = v(f64::NAN);
    assert_eq!(said(create_rule(&admin(), &r)), "阈值超出范围");
    let mut r = rule_req();
    r.threshold = v(1_000_001.0);
    assert_eq!(said(create_rule(&admin(), &r)), "阈值超出范围");
    let mut r = rule_req();
    r.duration_secs = 86_401;
    assert_eq!(said(create_rule(&admin(), &r)), "持续时间需在 0~86400 秒");
    let mut r = rule_req();
    r.severity = "x".into();
    assert_eq!(said(create_rule(&admin(), &r)), "严重度需为 info/warning/critical");
}

#[test]
fn change_rules_are_checked() {
    assert_eq!(default_roc_window(), 30);
    let mut r = rule_req();
    r.comparator = "roc".into();
    assert_eq!(said(create_rule(&admin(), &r)), "变化率窗口需在 30~86400 秒");
    r.roc_window_secs = 300;
    assert!(create_rule(&admin(), &r).is_ok());
    r.threshold = v(0.0);
    assert_eq!(said(create_rule(&admin(), &r)), "变化率阈值需大于 0");
    r.metric = "tcp_conns".into();
    assert_eq!(said(create_rule(&admin(), &r)), "该指标不支持变化率");
    assert_eq!(said(rule_room(Some(1), 0, 0)), "指定节点不存在");
    assert_eq!(said(rule_room(None, 0, MAX_RULES)), "告警规则数量已达上限");
    assert!(rule_room(Some(1), 1, 0).is_ok());
    assert!(toggle_rule(&admin(), Some(0)));
    assert!(!toggle_rule(&admin(), Some(1)));
}

fn channel_req(kind: &str, url: &str, target: &str) -> ChannelReq {
    ChannelReq {
        name: "c".into(),
        kind: kind.into(),
        url: url.into(),
        target: target.into(),
        smtp_host: "smtp.x.com".into(),
        smtp_port: None,
        smtp_user: "u".into(),
        smtp_pass: "p\"w".into(),
        smtp_from: "a@x.com".into(),
        smtp_to: "b@x.com".into(),
        min_severity: "info".into(),
    }
}

#[test]
fn channels_are_checked() {
    assert_eq!(said(validate_channel(&channel_req("webhook", "http://x", ""))), "必须是 https:// 地址");
    assert!(create_channel(&admin(), &channel_req("webhook", "https://x.com/h", "")).is_ok());
    let t = "123456789:AAF-abcDEFghiJKLmno1234567890xyz";
    assert_eq!(
        validate_channel(&channel_req("telegram", t, "-100123")).unwrap(),
        (t.to_string(), "-100123".to_string())
    );
    assert_eq!(said(validate_channel(&channel_req("telegram", "x", "1"))), "Telegram Bot Token 格式不正确");
    assert_eq!(
        said(validate_channel(&channel_req("telegram", t, "x"))),
        "Telegram chat_id 格式不正确(数字或 @频道名)"
    );
    assert_eq!(said(create_channel(&admin(), &channel_req("exec", "x", ""))), "暂不支持的渠道类型");
    let mut c = channel_req("webhook", "https://x.com", "");
    c.min_severity = "x".into();
    assert_eq!(said(create_channel(&admin(), &c)), "最低严重度需为 info/warning/critical");
    assert_eq!(said(channel_room(50)), "通知渠道数量已达上限");
    assert!(channel_room(49).is_ok());
}

#[test]
fn mail_channels_keep_their_secret() {
    let n = create_channel(&admin(), &channel_req("smtp", "", "")).unwrap();
    let j: serde_json::Value = serde_json::from_str(&n.extra).unwrap();
    assert_eq!(j["password"], "p\"w");
    assert_eq!(j["to"], "b@x.com");
    let shown = mask_target("smtp", &n.url, &n.extra);
    assert!(shown.contains("b@x.com") && !shown.contains("p\"w"));
    assert_eq!(mask_target("smtp", "h", "not json").contains("→"), true);
    assert_eq!(mask_target("telegram", "123:secret", "-5"), "Telegram bot 123··· → -5");
    let mut c = channel_req("smtp", "", "");
    c.smtp_from = "x".into();
    assert_eq!(said(validate_channel(&c)), "发件人/收件人邮箱格式非法");
    let mut c = channel_req("smtp", "", "");
    c.smtp_host = String::new();
    assert_eq!(said(validate_channel(&c)), "SMTP 服务器地址非法");
}

#[test]
fn test_messages() {
    assert_eq!(test_channel(&admin(), Ok(204)).unwrap(), 204);
    assert_eq!(said(test_channel(&admin(), Ok(500))), "接收端返回 HTTP 500");
    assert_eq!(said(test_channel(&admin(), Err("x".into()))), "发送失败:x");
}

#[test]
fn silences_are_checked() {
    let q = |d: i64| SilenceReq { node_id: Some(1), rule_id: None, duration_secs: d, reason: "r".into() };
    assert_eq!(said(check_silence(&q(59))), "静默时长需在 60 秒 ~ 30 天");
    let n = create_silence(&admin(), &q(60), 1, 0, 0, 1000).unwrap();
    assert_eq!((n.start_ts, n.end_ts), (1000, 1060));
    assert_eq!(said(create_silence(&admin(), &q(60), 0, 0, 0, 0)), "指定节点不存在");
    assert_eq!(said(create_silence(&admin(), &q(60), 1, 0, 200, 0)), "静默窗口数量已达上限");
    assert!(set_renotify(&admin(), &RenotifyReq { secs: 0 }).is_ok());
    assert!(set_renotify(&admin(), &RenotifyReq { secs: 300 }).is_ok());
    assert_eq!(
        said(set_renotify(&admin(), &RenotifyReq { secs: 299 })),
        "重复提醒间隔需为 0(关闭)或 300 秒 ~ 7 天"
    );
}

#[test]
fn tokens_for_reading() {
    let t = token_with("ab", "n".to_string());
    assert_eq!((t.name.as_str(), t.token.as_str()), ("n", "opk_ab"));
    assert_eq!(t.token_hash, sha256_hex(b"opk_ab"));
    let t = create_token(&admin(), &CreateReq { name: " ci ".into() }, 0).unwrap();
    assert_eq!(t.name, "ci");
    assert!(t.token.starts_with("opk_"));
    assert_eq!(t.token_hash, sha256_hex(t.token.as_bytes()));
    assert_eq!(said(create_token(&admin(), &CreateReq { name: "".into() }, 0)), "名称需为 1~64 个可见字符");
    assert_eq!(said(create_token(&admin(), &CreateReq { name: "a".into() }, 50)), "API Token 数量已达上限");
}

#[test]
fn names_and_passwords() {
    assert!(valid_username("bob_1") && !valid_username("ab") && !valid_username("a b c"));
    assert!(check_password_strength("abcdefghi1").is_ok());
    assert!(check_password_strength("пароль1234").is_ok());
    assert_eq!(said(check_password_strength("abc1")), "密码长度需在 10~128 字符之间");
    assert_eq!(said(check_password_strength("abcdefghij")), "密码需同时包含字母和数字");
    assert_eq!(said(check_password_strength("1234567890")), "密码需同时包含字母和数字");
}

#[test]
fn passwords_are_hashed() {
    let h = hash_password("abcdefghi1").unwrap();
    assert!(h.starts_with("$argon2id$v=19$m=19456,t=2,p=1$"));
    assert!(verify_password(&h, "abcdefghi1"));
    assert!(!verify_password(&h, "abcdefghi2"));
    assert!(!verify_password("x", "abcdefghi1"));
    assert_ne!(h, hash_password("abcdefghi1").unwrap());
}

#[test]
fn first_account() {
    let q = |u: &str, p: &str| SetupReq { username: u.into(), password: p.into() };
    let h = setup(&q("bob", "abcdefghi1")).unwrap();
    assert!(verify_password(&h, "abcdefghi1"));
    assert_eq!(said(setup(&q("b", "abcdefghi1"))), "用户名需 3~32 位,仅限字母数字与 _.-");
    assert!(create_admin("bob", "abcdefghi1").is_ok());
    assert!(create_admin("bob", "x").is_err());
    assert!(setup_stored(1).is_ok() && setup_stored(0).is_err());
    assert!(setup_done(1) && !setup_done(0));
}

#[test]
fn password_change() {
    let h = hash_password("abcdefghi1").unwrap();
    let q = |a: &str, b: &str| PasswordReq { old_password: a.into(), new_password: b.into() };
    let n = change_password(&user("viewer"), &q("abcdefghi1", "jklmnopqr2"), Some(&h)).unwrap();
    assert!(verify_password(&n.0, "jklmnopqr2"));
    assert!(n.1.ends(1, "own") && n.1.ends(1, "x") && !n.1.ends(2, "x"));
    assert_eq!(said(change_password(&user("viewer"), &q("wrong", "jklmnopqr2"), Some(&h))), "原密码不正确");
    assert!(change_password(&user("viewer"), &q("abcdefghi1", "short"), Some(&h)).is_err());
    assert!(change_password(&user("viewer"), &q("abcdefghi1", "jklmnopqr2"), None).is_err());
}

fn login_req(name: &str, password: &str, code: &str) -> LoginReq {
    LoginReq { username: name.into(), password: password.into(), code: code.into() }
}

fn error_of(s: LoginStep) -> (String, &'static str) {
    match s {
        LoginStep::Refused { error, action } => (error.message(), action),
        _ => panic!(),
    }
}

#[test]
fn logins() {
    let h = hash_password("abcdefghi1").unwrap();
    let dummy = hash_password("zzzzzzzzz9").unwrap();
    let row = |second: i64| UserRow {
        id: 1,
        pass_hash: h.clone(),
        totp_secret: base32_encode(b"12345678901234567890"),
        totp_enabled: second,
    };
    let a = ip("1.2.3.4");
    let mut g = LoginGuard::new();
    assert_eq!(login_name(&g, a, &login_req(" bob", "", ""), 0).unwrap(), "bob");
    let good = login_req("bob", "abcdefghi1", "");
    assert!(matches!(login(&mut g, a, "bob", Some(row(0)), &dummy, &good, 59), LoginStep::Granted));
    let bad = login_req("bob", "abcdefghi2", "");
    assert_eq!(
        error_of(login(&mut g, a, "bob", Some(row(0)), &dummy, &bad, 59)),
        ("用户名或密码错误".to_string(), "login_fail")
    );
    assert_eq!(
        error_of(login(&mut g, a, "eve", None, &dummy, &bad, 59)),
        ("用户名或密码错误".to_string(), "login_fail")
    );
    assert_eq!(
        error_of(login(&mut g, a, "bob", Some(row(1)), &dummy, &good, 59)),
        ("需要两步验证码".to_string(), "")
    );
    let coded = login_req("bob", "abcdefghi1", "287082");
    assert!(matches!(login(&mut g, a, "bob", Some(row(1)), &dummy, &coded, 59), LoginStep::Granted));
    let wrong = login_req("bob", "abcdefghi1", "000000");
    assert_eq!(
        error_of(login(&mut g, a, "bob", Some(row(1)), &dummy, &wrong, 59)),
        ("两步验证码不正确".to_string(), "login_2fa_fail")
    );
}

#[test]
fn locked_logins() {
    let a = ip("1.2.3.4");
    let mut g = LoginGuard::new();
    for _ in 0..4 {
        login_recovery(&mut g, a, "bob", false, 0);
    }
    assert!(login_name(&g, a, &login_req("bob", "", ""), 0).is_ok());
    assert!(matches!(login_recovery(&mut g, a, "bob", true, 0), LoginStep::Granted));
    for _ in 0..5 {
        login_recovery(&mut g, a, "bob", false, 0);
    }
    assert!(matches!(
        login_name(&g, a, &login_req("bob", "", ""), 0),
        Err(AppError::TooManyRequests)
    ));
    assert!(login_name(&g, ip("5.6.7.8"), &login_req("bob", "", ""), 0).is_ok());
    assert!(new_device_text("bob", "1.2.3.4").contains("bob"));
    assert_eq!(
        new_device_notice(0, "bob", "1.2.3.4").as_deref(),
        Some("🔑 新设备登录:用户 bob 首次从 IP 1.2.3.4 登录 Outpost 面板")
    );
    assert_eq!(new_device_notice(1, "bob", "1.2.3.4"), None);
}

#[test]
fn figures_for_prometheus() {
    let row = PromRow {
        id: 3,
        name: "w\"eb".into(),
        last_seen: Some(100),
        cpu: Some("1.5".into()),
        load1: "0.1".into(),
        mem_used: 5,
        mem_total: 10,
        disk_used: 1,
        disk_total: 2,
        net_rx_bps: 3,
        net_tx_bps: 4,
        uptime_secs: 6,
        procs: 7,
    };
    let t = prometheus(&[row], 5, 101);
    assert!(t.contains("# TYPE outpost_up gauge\n"));
    assert!(t.contains("outpost_up{node=\"w\\\"eb\",node_id=\"3\"} 1\n"));
    assert!(t.contains("outpost_cpu_percent{node=\"w\\\"eb\",node_id=\"3\"} 1.5\n"));
    assert!(t.contains("outpost_procs{node=\"w\\\"eb\",node_id=\"3\"} 7\n"));
}

#[test]
fn histories_to_take_away() {
    assert_eq!(default_fmt(), "csv");
    let q = |s: i64, f: &str| ExportQuery { secs: s, format: f.into() };
    assert_eq!(export(&q(1, "json"), 1000), (700, true));
    assert_eq!(export(&q(600, "csv"), 1000), (400, false));
    assert!(exportable(0, 1).is_ok() && exportable(0, 0).is_err());
    let r = ExportRow {
        ts: 1,
        cpu_pct: "2".into(),
        load1: "3".into(),
        mem_used: 4,
        mem_total: 5,
        disk_used: 6,
        disk_total: 7,
        net_rx_bps: 8,
        net_tx_bps: 9,
        procs: 10,
    };
    assert_eq!(
        export_csv(&[r]),
        "ts,cpu_pct,load1,mem_used,mem_total,disk_used,disk_total,net_rx_bps,net_tx_bps,procs\n1,2,3,4,5,6,7,8,9,10\n"
    );
    assert!(export_filename(3, true).ends_with(".json"));
}

#[test]
fn nodes_are_named() {
    assert_eq!(validate_node_name(" a ").unwrap(), "a");
    assert_eq!(said(validate_node_name("")), "节点名需为 1~64 个可见字符");
    let q = |on: bool, day: i64| CreateNodeReq {
        name: "n".into(),
        grp: "g\n".into(),
        traffic_reset_enabled: on,
        traffic_reset_day: day,
    };
    let n = create_node(&admin(), &q(true, 1), 86_400 * 10).unwrap();
    assert_eq!((n.grp.as_str(), n.traffic_reset_enabled, n.traffic_period_start), ("g", 1, 0));
    assert_eq!(said(create_node(&admin(), &q(true, 29), 0)), "每月清零日需在 1~28 之间");
    assert!(create_node(&admin(), &q(false, 29), 0).is_ok());
    let r = rename(
        &admin(),
        &RenameReq {
            name: "n".into(),
            grp: "".into(),
            note: "x".into(),
            traffic_reset_enabled: false,
            traffic_reset_day: 1,
        },
        0,
    )
    .unwrap();
    assert_eq!(r.note, "x");
    assert!(changed_one(1).is_ok() && changed_one(0).is_err());
}

#[test]
fn install_commands() {
    let fpr = "f1".to_string();
    let c = render_install_command("https://a.com/", "pinned_ca", Some(&fpr), "KEY");
    assert!(c.contains("U=\"https://a.com\"") && c.contains("F=\"f1\"") && c.contains("OP_KEY=\"KEY\""));
    let p = render_install_command("https://a.com", "public_ca", Some(&fpr), "KEY");
    assert!(!p.contains("f1") && !p.contains("-fsSk"));
    assert!(upgrade_command("https://a.com", "public_ca", None).contains("upgrade.sh"));
    let k = register_key_with("ab".to_string(), i64::MAX);
    assert_eq!((k.key.as_str(), k.key_hash, k.expires_at), ("ab", sha256_hex(b"ab"), i64::MAX));
    let k = issue_register_key(1000).unwrap();
    assert_eq!(k.key_hash, sha256_hex(k.key.as_bytes()));
    assert_eq!(k.expires_at, 1000 + REGISTER_KEY_TTL_SECS);
}

#[test]
fn states_of_nodes() {
    assert!(is_online(Some(90), 5, 105) && !is_online(Some(89), 5, 105));
    assert!(!is_online(None, 5, 0));
    let rows = [
        NodeRow { id: 1, last_seen: Some(100), revoked: 0, has_token: true, traffic_reset_enabled: 0 },
        NodeRow { id: 2, last_seen: None, revoked: 1, has_token: false, traffic_reset_enabled: 1 },
    ];
    let s = node_summary(&rows, &[2], &[1, 3], 5, 100);
    assert!(s[0].online && !s[0].alerting && !s[0].revoked && s[0].registered);
    assert_eq!(s[0].latest, Some(0));
    assert!(!s[1].online && s[1].alerting && s[1].revoked && s[1].traffic_reset_enabled);
    assert_eq!(s[1].latest, None);
}

#[test]
fn histories_are_bounded() {
    let h = history(&HistoryQuery { secs: i64::MAX }, 100_000_000);
    assert_eq!(h.since, 100_000_000 - 366 * 86_400);
    assert!(h.hourly && h.bucket >= 3600);
    let h = history(&HistoryQuery { secs: 0 }, 1000);
    assert_eq!((h.since, h.hourly), (700, false));
    assert!(overview_trend(&HistoryQuery { secs: 3600 }, 10_000).step >= 1);
}

#[test]
fn many_nodes_at_once() {
    let q = |a: &str, n: i64| BatchReq { action: a.into(), ids: (0..n).collect(), grp: " g".into() };
    assert!(matches!(batch(&admin(), &q("delete", 1)), Ok(BatchAction::Delete)));
    assert!(matches!(batch(&admin(), &q("set_group", 1)), Ok(BatchAction::SetGroup { grp }) if grp == "g"));
    assert_eq!(said(batch(&admin(), &q("delete", 0))), "批量操作数量需为 1~100");
    assert_eq!(said(batch(&admin(), &q("delete", 101))), "批量操作数量需为 1~100");
    assert_eq!(said(batch(&admin(), &q("rm", 1))), "不支持的批量操作");
    assert_eq!(affected(&[1, 0, 1]), 2);
    let mut p = PendingUpgrades::new();
    assert_eq!(batch_upgrade(&[5, 6], &[true, false], &mut p, 10), (1, vec![6]));
    assert!(p.claim(6, 11) && !p.claim(5, 11));
    assert_eq!(batch_detail("upgrade", 2, 1, Some(1)), "upgrade x2 affected=1 queued=1");
    assert_eq!(reorder(&admin(), &ReorderReq { ids: vec![9, 8] }).unwrap(), vec![(9, 0), (8, 1)]);
    assert_eq!(said(reorder(&admin(), &ReorderReq { ids: vec![] })), "排序数量需为 1~500");
}

#[test]
fn pages_and_assets() {
    assert_eq!(asset("app.css"), Some("text/css; charset=utf-8"));
    assert_eq!(asset("../secret"), None);
    assert_eq!(guard(Page::Index, false, false, false), PageAnswer::ToLogin);
    assert_eq!(guard(Page::Index, true, false, false), PageAnswer::Show);
    assert_eq!(guard(Page::Login, true, false, false), PageAnswer::ToIndex);
    assert_eq!(guard(Page::Setup, false, true, false), PageAnswer::Show);
    assert_eq!(guard(Page::Status, true, false, false), PageAnswer::NotFound);
}

fn settings() -> SettingsReq {
    SettingsReq {
        report_interval_secs: 5,
        retention_days: 30,
        auto_backup_hours: 0,
        auto_backup_keep: 7,
        public_url: " https://a.com/ ".into(),
        extra_origins: "https://b.com\n\n https://c.com \n".into(),
    }
}

#[test]
fn settings_are_checked() {
    let (n, secs) = outpost::server::handlers::settings::set(&admin(), &settings(), false).unwrap();
    assert_eq!(secs, 5);
    assert!(n.public_url.starts_with("https://a.com"));
    assert_eq!(n.extra_origins.len(), 2);
    let mut q = settings();
    q.report_interval_secs = 0;
    assert_eq!(said(outpost::server::handlers::settings::set(&admin(), &q, false)), "上报间隔需在 1~3600 秒之间");
    let mut q = settings();
    q.retention_days = 0;
    assert_eq!(said(outpost::server::handlers::settings::set(&admin(), &q, false)), "数据保留需在 1~3650 天之间");
    let mut q = settings();
    q.auto_backup_hours = 169;
    assert_eq!(said(outpost::server::handlers::settings::set(&admin(), &q, false)), "自动备份周期需在 0(关闭)~168 小时");
    let mut q = settings();
    q.auto_backup_keep = 0;
    assert_eq!(said(outpost::server::handlers::settings::set(&admin(), &q, false)), "备份保留份数需在 1~90");
    let mut q = settings();
    q.public_url = " ".into();
    assert_eq!(said(outpost::server::handlers::settings::set(&admin(), &q, false)), "对外访问地址不能为空且不超过 200 字符");
    let mut q = settings();
    q.public_url = "http://127.0.0.1".into();
    assert!(outpost::server::handlers::settings::set(&admin(), &q, false).is_err() && outpost::server::handlers::settings::set(&admin(), &q, true).is_ok());
    let mut q = settings();
    q.extra_origins = "https://a\n".repeat(17);
    assert_eq!(said(outpost::server::handlers::settings::set(&admin(), &q, false)), "额外 Origin 最多 16 条");
    assert!(settings_detail(&settings()).contains('5'));
}

#[test]
fn records_to_take_away() {
    let t = audit_export(&[log(1, "bob", "1.2.3.4", "login", "=x")]);
    assert!(t.contains("bob,1.2.3.4,login,'=x"));
    assert_eq!(status_url("https://a.com/", "s"), "https://a.com/status/s");
    assert_eq!(status_url("https://a.com/", ""), "");
}

#[test]
fn page_for_everybody() {
    let (slug, url) = page_with(&"0123456789abcdef".repeat(4), "https://a.com");
    assert_eq!(slug, "0123456789abcdef01234567");
    assert!(url.starts_with("https://a.com/") && url.ends_with(&slug));
    let (slug, url) = enable_status(&admin(), "https://a.com/").unwrap();
    assert!(valid_slug(&slug));
    assert_eq!(url, format!("https://a.com/status/{slug}"));
    assert!(slug_ok(&slug, &slug));
    assert!(!slug_ok("", ""));
    assert!(!slug_ok(&slug, "x"));
}

#[test]
fn second_factor() {
    let (secret, uri) = setup_with(&[7; 20], "bob");
    assert_eq!(base32_decode(&secret).unwrap(), vec![7; 20]);
    assert!(uri.starts_with("otpauth://totp/"));
    assert_eq!(said(setup_second(1, "bob")), "两步验证已启用,请先停用再重新设置");
    let (a, _) = setup_second(0, "bob").unwrap();
    assert_ne!(a, setup_second(0, "bob").unwrap().0);
    let s = base32_encode(b"12345678901234567890");
    let q = |c: &str| CodeReq { code: c.into() };
    let on = enable(&user("viewer"), &s, 0, &q("287082"), 59).unwrap();
    assert_eq!(on.codes.len(), 10);
    assert!(on.ended.ends(1, "x") && !on.ended.ends(1, "own") && !on.ended.ends(2, "x"));
    assert_eq!(said(enable(&user("viewer"), &s, 0, &q("000000"), 59)), "验证码不正确,请重试");
    assert_eq!(said(enable(&user("viewer"), &s, 1, &q("287082"), 59)), "两步验证已启用");
}

#[test]
fn codes_for_recovery() {
    let c = recovery_codes().unwrap();
    assert_eq!(c.len(), RECOVERY_CODES);
    for x in c.iter() {
        assert!(consume_recovery(x).is_some());
    }
    assert_eq!(consume_recovery("x"), None);
    assert!(used_up(Some(1)) && !used_up(Some(0)) && !used_up(None));
    let ended = disable_recovery(&user("viewer"), true).unwrap();
    assert!(ended.ends(1, "x") && !ended.ends(1, "own"));
    assert_eq!(recovery_code(&"0123456789abcdef".repeat(4)), "0123456789");
    assert_eq!(said(disable_recovery(&user("viewer"), false)), "验证码或恢复码不正确");
}

#[test]
fn second_factor_off() {
    let h = hash_password("abcdefghi1").unwrap();
    let s = base32_encode(b"12345678901234567890");
    let q = |p: &str, c: &str| DisableReq { password: p.into(), code: c.into() };
    assert!(matches!(disable(&user("viewer"), &h, &s, 1, &q("abcdefghi1", "287082"), 59), DisableStep::Done { .. }));
    match disable(&user("viewer"), &h, &s, 1, &q("x", "287082"), 59) {
        DisableStep::Refused { error } => assert_eq!(error.message(), "密码不正确"),
        _ => panic!(),
    }
    match disable(&user("viewer"), &h, &s, 0, &q("abcdefghi1", "287082"), 59) {
        DisableStep::Refused { error } => assert_eq!(error.message(), "两步验证未启用"),
        _ => panic!(),
    }
    let code = recovery_codes().unwrap().remove(0);
    assert!(matches!(decide_disable(&user("viewer"), true, true, &code, false), DisableStep::Recovery { .. }));
}

#[test]
fn accounts() {
    let q = |n: &str, r: &str| CreateUserReq {
        username: n.into(),
        password: "abcdefghi1".into(),
        role: r.into(),
    };
    assert!(valid_role("admin") && !valid_role("root"));
    assert!(verify_password(&create_user(&admin(), &q("bob", "viewer"), 0).unwrap(), "abcdefghi1"));
    assert_eq!(said(create_user(&admin(), &q("bob", "root"), 0)), "角色需为 admin 或 viewer");
    assert_eq!(said(create_user(&admin(), &q("bob", "admin"), 50)), "账号数量已达上限");
    assert_eq!(said(set_role(&admin(), 2, &RoleReq { role: "viewer".into() }, 0)), "至少保留一个管理员账号");
    let ended = set_role(&admin(), 2, &RoleReq { role: "viewer".into() }, 1).unwrap();
    assert!(ended.ends(2, "x") && !ended.ends(2, "own") && !ended.ends(1, "x"));
    assert_eq!(said(delete(&admin(), 1, Some("admin"), 5)), "不能删除自己的账号");
    assert_eq!(said(delete(&admin(), 2, Some("admin"), 0)), "至少保留一个管理员账号");
    assert!(matches!(delete(&admin(), 2, None, 5), Err(AppError::NotFound)));
    assert!(delete(&admin(), 2, Some("viewer"), 0).is_ok());
}

#[test]
fn reports_are_taken_in() {
    match handle_msg(AgentToServer::Metrics { metrics: sample(1000) }, 1005, 300) {
        Intake::Point { row, .. } => assert_eq!((row.ts, row.mem_used), (1005, 5)),
        _ => panic!(),
    }
    assert!(matches!(
        handle_msg(AgentToServer::Metrics { metrics: sample(1000) }, 5000, 300),
        Intake::Skewed
    ));
    let mut bad = sample(1000);
    bad.cpu_pct = v(f64::NAN);
    assert!(matches!(
        handle_msg(AgentToServer::Metrics { metrics: bad }, 1000, 300),
        Intake::Refused { .. }
    ));
    let points = vec![sample(1), sample(9_000), sample(9_500), sample(99_000)];
    match handle_msg(AgentToServer::Backfill { points }, 10_000, 300) {
        Intake::Points { rows, .. } => {
            let ts: Vec<i64> = rows.iter().map(|r| r.ts).collect();
            assert_eq!(ts, vec![9_000, 9_500]);
        }
        _ => panic!(),
    }
    let host = HostInfo {
        hostname: "h\u{7}".into(),
        os: "".into(),
        kernel: "".into(),
        arch: "".into(),
        cores: 1,
        mem_total: 1,
        agent_version: "".into(),
    };
    match handle_msg(AgentToServer::Hello { host }, 0, 300) {
        Intake::Host { host } => assert_eq!(host.hostname, "h"),
        _ => panic!(),
    }
}

#[test]
fn rows_of_reports() {
    assert_eq!(to_storable(u64::MAX), i64::MAX);
    let d = |t: u64, u: u64| DiskUsage {
        mount: "/".into(),
        fs: "".into(),
        total: t,
        used: u,
        inodes_total: 0,
        inodes_used: 0,
    };
    assert_eq!(build_detail(&[]), (0, 0));
    let (total, used) = build_detail(&[d(10, 4)]);
    assert_eq!((total, used), (10, 4));
    assert_eq!(metric_row(&sample(5), 7).ts, 7);
    assert!(effects(Kind::Point).live && effects(Kind::Point).judged && effects(Kind::Point).traffic);
    assert!(!effects(Kind::Points).judged);
    assert_ne!(after_lookup(Kind::Point, Found::There), after_lookup(Kind::Point, Found::Gone));
}

#[test]
fn viewers_change_nothing() {
    assert!(matches!(require_admin(Some(user("viewer"))), Err(AppError::Forbidden)));
    let a = admin();
    assert_eq!(a.user().role, "admin");
    assert_eq!(a.clone().user().username, "u");
}

#[test]
fn late_reports_are_stored_once() {
    assert!(keeps_first(Kind::Points) && !keeps_first(Kind::Point) && !keeps_first(Kind::Host));
}

#[test]
fn reports_have_a_budget() {
    let mut b = Budget::new(0);
    for _ in 0..120 {
        assert!(b.pay(1, 0));
    }
    assert!(!b.pay(1, 0));
    assert!(b.pay(1, 125_000_000));
    let points: Vec<Metrics> = (0..120).map(|_| sample(0)).collect();
    assert_eq!(cost_of(&AgentToServer::Backfill { points }), 12);
}

#[test]
fn connections_of_agents() {
    let mut b = Budget::new(0);
    assert!(matches!(conn_loop(ConnEvent::Tick { silent: 0 }, &mut b, 0), ConnAction::Ping));
    assert!(matches!(
        conn_loop(ConnEvent::Tick { silent: 120_000_000_001 }, &mut b, 0),
        ConnAction::Disconnect
    ));
    assert!(matches!(
        conn_loop(ConnEvent::Interval { secs: 9 }, &mut b, 0),
        ConnAction::Send(ServerToAgent::UpdateConfig { report_interval_secs: 9 })
    ));
    assert!(matches!(
        conn_loop(ConnEvent::Upgrade, &mut b, 0),
        ConnAction::Send(ServerToAgent::Upgrade)
    ));
    assert!(matches!(conn_loop(ConnEvent::Message { cost: 1 }, &mut b, 0), ConnAction::Handle));
    assert!(matches!(
        conn_loop(ConnEvent::Message { cost: 1000 }, &mut b, 0),
        ConnAction::Disconnect
    ));
    assert!(matches!(conn_loop(ConnEvent::Closed, &mut b, 0), ConnAction::Disconnect));
    let mut b = Budget::new(0);
    for _ in 0..60 {
        assert!(matches!(conn_loop(ConnEvent::Malformed, &mut b, 0), ConnAction::Ignore));
        assert!(matches!(conn_loop(ConnEvent::Binary, &mut b, 0), ConnAction::Ignore));
        assert!(matches!(conn_loop(ConnEvent::Control, &mut b, 0), ConnAction::Ignore));
    }
    assert!(matches!(conn_loop(ConnEvent::Malformed, &mut b, 0), ConnAction::Disconnect));
    assert!(matches!(conn_loop(ConnEvent::Binary, &mut b, 0), ConnAction::Disconnect));
    assert!(matches!(conn_loop(ConnEvent::Control, &mut b, 0), ConnAction::Ignore));
}

#[test]
fn connections_of_browsers() {
    let own = ["https://a.com".to_string()];
    assert!(ui_upgrade(true, Some("https://a.com"), &own).is_ok());
    assert!(matches!(ui_upgrade(false, Some("https://a.com"), &own), Err(AppError::Unauthorized)));
    assert!(matches!(ui_upgrade(true, Some("https://evil"), &own), Err(AppError::Forbidden)));
    assert!(matches!(ui_upgrade(true, None, &own), Err(AppError::Forbidden)));
    assert_eq!(ui_loop(UiEvent::Tick), UiAction::Ping);
    assert_eq!(ui_loop(UiEvent::Report), UiAction::Forward);
    assert_eq!(ui_loop(UiEvent::Lagged), UiAction::Ignore);
    assert_eq!(ui_loop(UiEvent::Ended), UiAction::Close);
    assert_eq!(ui_loop(UiEvent::Incoming), UiAction::Ignore);
    assert_eq!(ui_loop(UiEvent::Closed), UiAction::Close);
}
