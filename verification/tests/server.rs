use outpost::calendar::days_from_civil;
use outpost::common::is_lower_hex;
use outpost::ip::{ip_global, ipv4_global, ipv6_global, is_loopback, parse_ip, parse_ipv4, parse_ipv6, IpAddr};
use outpost::measure::Measure;
use outpost::metrics::{DiskUsage, Metrics};
use outpost::server::alerts::{
    alert_text, delivered, format_message, is_silenced, judge, judge_silence, metric_label,
    metric_value, needs_past, offline_fire_debounce, past_core_value, renotify_cutoff, renotify_text,
    roc_bounds, rule_applies, rules_for, send_one, services_down, sev_rank, text_hash,
    valid_channel_kind, valid_chat_id, valid_comparator, valid_metric, valid_roc_metric,
    valid_severity, valid_telegram_token, webhook_payload, AlertRuntime, Channel, CoreRow,
    Delivery, NotifyThrottle, RuleLite, Shares, Silence, Step, Turn, ValueTexts, FLAP_REFIRE_SECS,
    FLAP_WINDOW_SECS, NOTIFY_DEDUP_SECS,
};
use outpost::server::apiauth::{api_token_key, bearer, check_api_token, require_read};
use outpost::server::audit::log;
use outpost::server::config::{origin_of, scheme_ok, Config, ConfigError};
use outpost::server::db::setting_i64;
use outpost::server::errors::AppError;
use outpost::server::middleware::{csp, csrf_origin_check, security_headers};
use outpost::server::notify::{
    answer_read, answer_status, literal_target, parse_https, post_json, resolve_checked, status_in,
    Target, MAX_BODY,
};
use outpost::server::notify_smtp::{
    b64, build_message, check_mail, clean_subject, default_port, dot_stuff, read_reply,
    rfc5322_date, send, valid_email, Reply, SmtpCfg, Stage,
};
use outpost::server::ratelimit::{Class, LoginGuard, RateLimiter};
use outpost::server::retention::{
    auto_backup, backup_file, cutoffs, days_back, rollup, rotate_backups,
};
use outpost::server::session::{
    build_cookie, clear_cookie, create_session, digest, require_admin, require_user, session_key,
    session_with, try_session, SessionRow, SessionUser, Standing,
};
use outpost::server::startup::{
    account_from_environment, admin_password, admin_username, command, dummy_hash, net_with,
    program_files, scan_artifacts, seeded_net, wants_authority, Command,
};
use outpost::server::state::{NetCfg, PendingUpgrades, UPGRADE_RESEND_SECS};
use outpost::server::totp::{base32_decode, base32_encode, hotp, provisioning_uri, verify};
use outpost::server::traffic::{
    accumulate, current_period_start, sweep_resets, valid_reset_day, PeriodStep, Traffic,
};
use outpost::server::util::{client_ip, cookie_value, ct_eq, gen_token_hex, sha256_hex};

fn v(x: f64) -> Measure {
    Measure { bits: x.to_bits() }
}

fn f(x: Measure) -> f64 {
    f64::from_bits(x.bits)
}

fn ip(s: &str) -> IpAddr {
    parse_ip(s).unwrap()
}

fn m() -> Metrics {
    Metrics {
        ts: 0,
        cpu_pct: v(95.0),
        load1: v(3.0),
        load5: v(0.0),
        load15: v(0.0),
        mem_total: 1000,
        mem_used: 800,
        mem_available: 200,
        swap_total: 100,
        swap_used: 90,
        disks: vec![],
        disk_read_bps: 0,
        disk_write_bps: 0,
        nets: vec![],
        uptime_secs: 0,
        procs: 0,
        cpu_temp_c: Some(v(60.0)),
        tcp_conns: Some(100),
        disk_read_iops: 0,
        disk_write_iops: 0,
        procs_watch: vec![],
        cpu_per_core: vec![],
        services: vec![],
        top_procs: vec![],
        tcp_estab: None,
        tcp_listen: None,
        tcp_time_wait: None,
        containers: vec![],
    }
}

fn share(used: u64, total: u64) -> Measure {
    if total == 0 {
        v(0.0)
    } else {
        v(used as f64 * 100.0 / total as f64)
    }
}

fn shares(x: &Metrics, disk_total: i64, disk_used: i64) -> Shares {
    Shares {
        mem: share(x.mem_used, x.mem_total),
        swap: share(x.swap_used, x.swap_total),
        main_disk: share(disk_used as u64, disk_total as u64),
        disks: x.disks.iter().map(|d| share(d.used, d.total)).collect(),
        inodes: x.disks.iter().map(|d| share(d.inodes_used, d.inodes_total)).collect(),
        tcp_conns: v(x.tcp_conns.unwrap_or(0) as f64),
        services_down: v(services_down(x) as f64),
    }
}

fn value(name: &str, x: &Metrics, disk_total: i64, disk_used: i64) -> Option<f64> {
    metric_value(name, x, disk_total, &shares(x, disk_total, disk_used)).map(f)
}

fn rule(id: i64, metric: &str, comparator: &str, threshold: f64, duration: i64) -> RuleLite {
    RuleLite {
        id,
        name: "spike".into(),
        metric: metric.into(),
        comparator: comparator.into(),
        threshold: v(threshold),
        duration_secs: duration,
        severity: "warning".into(),
        roc_window_secs: 300,
        node_id: None,
    }
}

fn texts(value: f64, threshold: f64) -> ValueTexts {
    ValueTexts {
        value: format!("{value:.1}"),
        signed: format!("{value:+.1}"),
        threshold: format!("{threshold:.1}"),
    }
}

#[test]
fn metric_values_computed() {
    let s = m();
    assert!((value("cpu_pct", &s, 0, 0).unwrap() - 95.0).abs() < 1e-9);
    assert!((value("mem_pct", &s, 0, 0).unwrap() - 80.0).abs() < 1e-9);
    assert!((value("disk_pct", &s, 200, 50).unwrap() - 25.0).abs() < 1e-9);
    assert!((value("swap_pct", &s, 0, 0).unwrap() - 90.0).abs() < 1e-9);
    assert!(value("disk_pct", &s, 0, 0).is_none());
    let mut sd = m();
    sd.disks = vec![
        DiskUsage { mount: "/".into(), fs: "ext4".into(), total: 100, used: 20, inodes_total: 0, inodes_used: 0 },
        DiskUsage { mount: "/data".into(), fs: "ext4".into(), total: 100, used: 95, inodes_total: 0, inodes_used: 0 },
    ];
    assert!((value("disk_pct", &sd, 100, 20).unwrap() - 95.0).abs() < 1e-9);
    assert!(value("unknown", &s, 0, 0).is_none());
}

#[test]
fn roc_whitelist_and_message() {
    assert!(valid_comparator("roc"));
    assert!(valid_roc_metric("cpu_pct") && !valid_roc_metric("tcp_conns"));
    let r = rule(1, "cpu_pct", "roc", 30.0, 0);
    let msg = format_message(&r, &texts(42.5, 30.0), true);
    assert!(msg.contains("变化") && msg.contains("+42.5"));
    let resolved = format_message(&r, &texts(0.0, 30.0), false);
    assert!(resolved.contains("恢复"));
}

#[test]
fn whitelists() {
    assert!(valid_metric("cpu_pct") && valid_metric("offline"));
    assert!(!valid_metric("cpu_pct; DROP TABLE"));
    assert!(valid_comparator("gt") && !valid_comparator("regex"));
    assert!(valid_channel_kind("webhook") && !valid_channel_kind("exec"));
}

#[test]
fn telegram_validators() {
    assert!(valid_telegram_token("123456789:AAF-abcDEFghiJKLmno1234567890xyz"));
    assert!(!valid_telegram_token("noколон"));
    assert!(!valid_telegram_token("123:short"));
    assert!(!valid_telegram_token("abc:AAF-abcDEFghiJKLmno1234567890xyz"));
    assert!(valid_chat_id("123456"));
    assert!(valid_chat_id("-1001234567"));
    assert!(valid_chat_id("@mychannel"));
    assert!(!valid_chat_id("@ab"));
    assert!(!valid_chat_id("12x34"));
    assert!(!valid_chat_id(""));
}

#[test]
fn dedup_hash_stable() {
    assert_eq!(text_hash("hello"), text_hash("hello"));
    assert_ne!(text_hash("hello"), text_hash("world"));
}

#[test]
fn payload_adapts_by_host() {
    assert!(webhook_payload("https://open.feishu.cn/x", "hi").contains("msg_type"));
    assert!(webhook_payload("https://oapi.dingtalk.com/x", "hi").contains("msgtype"));
    assert!(webhook_payload("https://hooks.slack.com/x", "hi").contains("\"text\""));
    assert!(webhook_payload("https://x.com", "a\"b\n").contains("a\\\"b\\n"));
}

#[test]
fn offline_flap_hysteresis() {
    let now = 10_000;
    assert_eq!(offline_fire_debounce("offline", 30, None, now), 30);
    assert_eq!(offline_fire_debounce("offline", 30, Some(now - 60), now), FLAP_REFIRE_SECS);
    assert_eq!(offline_fire_debounce("offline", 30, Some(now - FLAP_WINDOW_SECS - 1), now), 30);
    assert_eq!(offline_fire_debounce("cpu_pct", 30, Some(now - 60), now), 30);
    assert_eq!(offline_fire_debounce("offline", 600, Some(now - 60), now), 600);
}

#[test]
fn default_config_is_safe_and_valid() {
    let c = Config::default();
    c.validate().unwrap();
    assert!(is_loopback(&c.listen_addr().ip));
    assert!(c.security.cookie_secure);
    assert!(!c.server.tls.enabled);
}

#[test]
fn refuses_plain_nonloopback() {
    let mut c = Config::default();
    c.server.listen = "0.0.0.0:8080".into();
    assert!(c.validate().is_err());
    c.server.allow_plain_nonloopback = true;
    c.validate().unwrap();
}

#[test]
fn origin_extraction() {
    assert_eq!(origin_of("https://1.2.3.4:25510/some/path"), "https://1.2.3.4:25510");
}

#[test]
fn rejects_http_public_url() {
    let mut c = Config::default();
    c.server.public_url = "http://1.2.3.4".into();
    assert!(c.validate().is_err());
}

#[test]
fn rejects_non_global_ipv4() {
    for s in ["127.0.0.1", "10.0.0.5", "172.16.3.4", "192.168.1.1", "169.254.1.1", "100.64.0.1", "0.0.0.0", "198.18.0.1", "192.0.0.1", "240.0.0.1"] {
        let ip: u32 = parse_ipv4(s).unwrap();
        assert!(!ipv4_global(ip), "{s} 应被拒绝");
    }
    for s in ["1.1.1.1", "8.8.8.8", "203.0.114.1", "93.184.216.34"] {
        let ip: u32 = parse_ipv4(s).unwrap();
        assert!(ipv4_global(ip), "{s} 应允许");
    }
}

#[test]
fn rejects_non_global_ipv6() {
    for s in ["::1", "::", "fe80::1", "fc00::1", "fd12::1", "2001:db8::1", "::ffff:127.0.0.1", "::ffff:10.0.0.1"] {
        let ip: u128 = parse_ipv6(s).unwrap();
        assert!(!ipv6_global(ip), "{s} 应被拒绝");
    }
    assert!(ipv6_global(parse_ipv6("2606:4700:4700::1111").unwrap()));
}

#[test]
fn parse_https_variants() {
    assert_eq!(parse_https("https://a.com/x").unwrap(), ("a.com".into(), 443, "/x".into()));
    assert_eq!(parse_https("https://a.com:8443/x?y=1").unwrap(), ("a.com".into(), 8443, "/x?y=1".into()));
    assert_eq!(parse_https("https://a.com").unwrap().2, "/");
    assert!(parse_https("http://a.com").is_err());
    assert!(parse_https("https://user@a.com/").is_err());
    assert!(parse_https("https://a.com/x\r\nHost: evil").is_err());
    assert!(parse_https("ftp://a.com").is_err());
}

#[test]
fn b64_known_vectors() {
    assert_eq!(b64(b""), "");
    assert_eq!(b64(b"f"), "Zg==");
    assert_eq!(b64(b"fo"), "Zm8=");
    assert_eq!(b64(b"foo"), "Zm9v");
    assert_eq!(b64(b"foobar"), "Zm9vYmFy");
}

#[test]
fn email_validation() {
    assert!(valid_email("a@b.com"));
    assert!(valid_email("ops.team@example.co.uk"));
    assert!(!valid_email("no-at-sign"));
    assert!(!valid_email("a@b"));
    assert!(!valid_email("a@@b.com"));
    assert!(!valid_email("a@b.com\r\nRCPT TO:<evil@x>"));
    assert!(!valid_email("@b.com"));
    assert!(!valid_email("中文@b.com"));
}

#[test]
fn dot_stuffing_and_date() {
    assert_eq!(dot_stuff(".hidden\nnormal"), "..hidden\r\nnormal\r\n");
    assert_eq!(rfc5322_date(0), "Thu, 01 Jan 1970 00:00:00 +0000");
    assert_eq!(rfc5322_date(1_609_459_200), "Fri, 01 Jan 2021 00:00:00 +0000");
}

#[test]
fn bucket_blocks_after_capacity() {
    let mut rl = RateLimiter::new();
    let a = ip("1.2.3.4");
    let mut allowed = 0;
    for i in 0..30 {
        if rl.check(a, Class::Login, i) {
            allowed += 1;
        }
    }
    assert_eq!(allowed, 10);
    assert!(rl.check(ip("5.6.7.8"), Class::Login, 30));
}

#[test]
fn login_guard_locks_after_5_and_backs_off() {
    let mut g = LoginGuard::new();
    let now = 1000;
    let a = ip("1.2.3.4");
    for _ in 0..4 {
        assert!(g.record_fail(a, "admin", now).is_none());
    }
    assert!(!g.is_locked(a, "admin", now));
    let lock1 = g.record_fail(a, "admin", now).unwrap();
    assert_eq!(lock1, 30);
    assert!(g.is_locked(a, "admin", now));
    let lock2 = g.record_fail(a, "admin", now).unwrap();
    assert_eq!(lock2, 60);
    assert!(!g.is_locked(ip("5.6.7.8"), "admin", now));
    g.reset(a, "admin");
    assert!(!g.is_locked(a, "admin", now));
}

#[test]
fn base32_roundtrip() {
    for data in [&b"hello!"[..], &b"12345678901234567890"[..], &[0u8, 255, 16]] {
        let enc = base32_encode(data);
        assert_eq!(base32_decode(&enc).as_deref(), Some(data));
    }
    assert!(base32_decode("!@#").is_none());
}

#[test]
fn rfc6238_known_vector() {
    let secret = base32_encode(b"12345678901234567890");
    assert!(verify(&secret, "287082", 59));
    assert!(!verify(&secret, "000000", 59));
    assert!(verify(&secret, "287082", 89));
}

#[test]
fn rejects_malformed() {
    let secret = base32_encode(b"12345678901234567890");
    assert!(!verify(&secret, "12345", 59));
    assert!(!verify(&secret, "abcdef", 59));
    assert!(!verify("!!!", "287082", 59));
}

#[test]
fn uri_encodes_specials() {
    let u = provisioning_uri("ABC234", "admin user", "Outpost 哨站");
    assert!(u.contains("secret=ABC234"));
    assert!(u.contains("admin%20user"));
    assert!(!u.contains(' '));
}

#[test]
fn period_start_same_month_and_rollover() {
    let ts_20260705 = days_from_civil(2026, 7, 5) * 86400 + 12 * 3600;
    assert_eq!(current_period_start(ts_20260705, 1), days_from_civil(2026, 7, 1) * 86400);
    assert_eq!(current_period_start(ts_20260705, 10), days_from_civil(2026, 6, 10) * 86400);
    let ts_20260105 = days_from_civil(2026, 1, 5) * 86400;
    assert_eq!(current_period_start(ts_20260105, 10), days_from_civil(2025, 12, 10) * 86400);
}

#[test]
fn reset_day_validation() {
    assert!(valid_reset_day(1) && valid_reset_day(28));
    assert!(!valid_reset_day(0) && !valid_reset_day(29) && !valid_reset_day(31));
}

#[test]
fn ct_eq_basic() {
    assert!(ct_eq("abc", "abc"));
    assert!(!ct_eq("abc", "abd"));
    assert!(!ct_eq("abc", "ab"));
    assert!(!ct_eq("", "a"));
}

#[test]
fn cookie_parse_exact_name() {
    let h = "foo=1; op_session=abcd; xop_session=evil";
    assert_eq!(cookie_value(h, "op_session").as_deref(), Some("abcd"));
    assert_eq!(cookie_value(h, "missing"), None);
}

#[test]
fn client_ip_only_trusts_configured_proxy() {
    let peer = ip("8.8.8.8");
    let lo = ip("127.0.0.1");
    let trusted: Vec<IpAddr> = vec![ip("127.0.0.1")];
    assert_eq!(client_ip(peer, Some("9.9.9.9"), &trusted), ip("8.8.8.8"));
    assert_eq!(client_ip(lo, Some("9.9.9.9"), &trusted), ip("9.9.9.9"));
    assert_eq!(client_ip(lo, Some("not-an-ip"), &trusted), ip("127.0.0.1"));
}

#[test]
fn token_gen_is_hex64() {
    let t = gen_token_hex().unwrap();
    assert_eq!(t.len(), 64);
    assert!(is_lower_hex(&t));
}

#[test]
fn tokens_differ() {
    assert_ne!(gen_token_hex().unwrap(), gen_token_hex().unwrap());
}

#[test]
fn known_digests() {
    assert_eq!(
        sha256_hex(b"abc"),
        "ba7816bf8f01cfea414140de5dae2223b00361a396177a9cb410ff61f20015ad"
    );
    assert_eq!(digest("abc"), sha256_hex(b"abc"));
    assert_eq!(
        sha256_hex(b""),
        "e3b0c44298fc1c149afbf4c8996fb92427ae41e4649b934ca495991b7852b855"
    );
}

#[test]
fn hotp_known_values() {
    let key = b"12345678901234567890";
    let codes: Vec<u32> = (0..4).map(|i| hotp(key, i).unwrap()).collect();
    assert_eq!(codes, vec![755224, 287082, 359152, 969429]);
}

#[test]
fn lasting_breach_fires_once() {
    let r = rule(7, "cpu_pct", "gt", 90.0, 60);
    let mut a = AlertRuntime::new();
    assert_eq!(a.transition(&r, 1, true, 60, 100), Step::Stay);
    assert_eq!(a.transition(&r, 1, true, 60, 159), Step::Stay);
    assert_eq!(a.transition(&r, 1, true, 60, 160), Step::Fire);
    assert_eq!(a.transition(&r, 1, true, 60, 220), Step::Stay);
    assert!(a.attach_event(7, 1, 55));
    assert_eq!(a.transition(&r, 1, false, 60, 230), Step::Resolve { event: 55 });
    assert_eq!(a.transition(&r, 1, false, 60, 240), Step::Stay);
}

#[test]
fn event_of_a_resolved_alert_is_not_kept() {
    let r = rule(7, "cpu_pct", "gt", 90.0, 0);
    let mut a = AlertRuntime::new();
    assert_eq!(a.transition(&r, 1, true, 0, 100), Step::Fire);
    a.forget_rule(7);
    assert!(!a.attach_event(7, 1, 55));
    assert_eq!(a.transition(&r, 1, true, 0, 200), Step::Fire);
    a.forget_node(1);
    assert!(!a.attach_event(7, 1, 56));
}

#[test]
fn pruning_forgets_nothing_that_counts() {
    let r = rule(7, "cpu_pct", "gt", 90.0, 60);
    let mut a = AlertRuntime::new();
    a.transition(&r, 1, true, 60, 100);
    a.prune_runtime(1_000_000);
    assert_eq!(a.transition(&r, 1, true, 60, 1_000_000), Step::Fire);
}

#[test]
fn report_turns() {
    let rules = vec![
        rule(1, "cpu_pct", "gt", 90.0, 0),
        rule(2, "offline", "gt", 0.0, 60),
        rule(3, "mem_pct", "gt", 99.0, 0),
        rule(4, "cpu_pct", "roc", 30.0, 0),
    ];
    let x = m();
    let p = shares(&x, 0, 0);
    let mut a = AlertRuntime::new();
    let t = a.on_metrics(&rules, 9, &x, 0, &p, &[None, None, None, Some(v(-40.0))], 1000);
    assert_eq!(
        t,
        vec![
            Turn { rule: 0, node_id: 9, step: Step::Fire, value: v(95.0) },
            Turn { rule: 3, node_id: 9, step: Step::Fire, value: v(-40.0) },
        ]
    );
}

#[test]
fn silence_turns() {
    let rules = vec![rule(2, "offline", "gt", 0.0, 60)];
    let mut a = AlertRuntime::new();
    assert!(a.on_silence(&rules, 9, Some(1000), v(0.0), 1030).is_empty());
    assert!(a.on_silence(&rules, 9, Some(1000), v(61.0), 1061).is_empty());
    let t = a.on_silence(&rules, 9, Some(1000), v(91.0), 1091);
    assert_eq!(t, vec![Turn { rule: 0, node_id: 9, step: Step::Fire, value: v(91.0) }]);
}

#[test]
fn judgements() {
    let hit = |c: &str, x: f64| judge(&rule(1, "cpu_pct", c, 50.0, 0), v(x), None).0;
    assert!(hit("gt", 51.0) && !hit("gt", 50.0));
    assert!(hit("gte", 50.0) && !hit("gte", 49.0));
    assert!(hit("lt", 49.0) && !hit("lt", 50.0));
    assert!(hit("lte", 50.0) && !hit("lte", 51.0));
    assert!(!hit("roc", 500.0));
    assert_eq!(
        judge(&rule(1, "cpu_pct", "roc", 50.0, 0), v(1.0), Some(v(-60.0))),
        (true, v(-60.0))
    );
    assert!(!judge_silence(&rule(1, "offline", "gt", 0.0, 120), Some(100), 219).0);
    assert!(judge_silence(&rule(1, "offline", "gt", 0.0, 120), Some(100), 221).0);
}

#[test]
fn change_window() {
    assert!(needs_past(&rule(1, "cpu_pct", "roc", 1.0, 0)));
    assert!(!needs_past(&rule(1, "cpu_pct", "gt", 1.0, 0)));
    assert_eq!(roc_bounds(&rule(1, "cpu_pct", "roc", 1.0, 0), 10_000), (9_700, 9_400));
    let row = CoreRow { cpu_pct: v(1.0), load1: v(2.0), mem_pct: v(3.0), disk_pct: v(4.0), swap_pct: v(5.0) };
    assert_eq!(past_core_value("mem_pct", &row), Some(v(3.0)));
    assert_eq!(past_core_value("tcp_conns", &row), None);
}

#[test]
fn rules_of_a_node() {
    let mut own = rule(1, "cpu_pct", "gt", 1.0, 0);
    own.node_id = Some(5);
    assert!(rule_applies(&own, 5) && !rule_applies(&own, 6));
    let rules = vec![own, rule(2, "offline", "gt", 0.0, 0), rule(3, "load1", "gt", 1.0, 0)];
    assert_eq!(rules_for(&rules, 5, false), vec![0, 2]);
    assert_eq!(rules_for(&rules, 6, false), vec![2]);
    assert_eq!(rules_for(&rules, 6, true), vec![1]);
}

#[test]
fn silenced_alerts() {
    let s = [Silence { start_ts: 10, end_ts: 20, node_id: Some(1), rule_id: None }];
    assert!(is_silenced(&s, 1, 9, 15));
    assert!(!is_silenced(&s, 2, 9, 15));
    assert!(!is_silenced(&s, 1, 9, 25));
}

#[test]
fn alert_messages() {
    let r = rule(1, "cpu_pct", "gt", 90.0, 0);
    assert_eq!(
        format_message(&r, &texts(95.0, 90.0), true),
        format!("{} 95.0 高于阈值 90.0(规则:spike)", metric_label("cpu_pct"))
    );
    assert_eq!(
        format_message(&rule(1, "offline", "gt", 0.0, 0), &texts(0.0, 0.0), true),
        "节点离线(规则:spike)"
    );
    assert!(alert_text("web", "x", true).contains("web"));
    assert_ne!(alert_text("web", "x", true), alert_text("web", "x", false));
    assert!(renotify_text("web", "x").contains("web"));
    assert_eq!(renotify_cutoff(0, 100), None);
    assert_eq!(renotify_cutoff(300, 1000), Some(700));
}

fn channel(id: i64, least: &str) -> Channel {
    Channel {
        id,
        kind: "webhook".into(),
        url: "https://x.com".into(),
        extra: String::new(),
        min_severity: least.into(),
    }
}

#[test]
fn the_same_text_goes_out_once_a_minute() {
    let mut t = NotifyThrottle::new();
    let c = [channel(1, "info"), channel(2, "critical")];
    assert_eq!(t.notify_all(&c, "a", "warning", 100), vec![0]);
    assert!(t.notify_all(&c, "a", "warning", 100 + NOTIFY_DEDUP_SECS - 1).is_empty());
    assert_eq!(t.notify_all(&c, "b", "critical", 101), vec![0, 1]);
    assert_eq!(t.notify_all(&c, "a", "warning", 100 + NOTIFY_DEDUP_SECS), vec![0]);
    assert!(sev_rank("info") < sev_rank("warning") && sev_rank("warning") < sev_rank("critical"));
    assert!(valid_severity("info") && !valid_severity("fatal"));
}

#[test]
fn deliveries() {
    match send_one("webhook", "https://x.com/h", "", "hi").unwrap() {
        Delivery::Post { url, body } => {
            assert_eq!(url, "https://x.com/h");
            assert_eq!(body, webhook_payload("https://x.com/h", "hi"));
        }
        Delivery::Mail => panic!(),
    }
    match send_one("telegram", "123456789:AAF-abcDEFghiJKLmno1234567890xyz", "-5", "a\"").unwrap() {
        Delivery::Post { url, body } => {
            assert_eq!(url, "https://api.telegram.org/bot123456789:AAF-abcDEFghiJKLmno1234567890xyz/sendMessage");
            let j: serde_json::Value = serde_json::from_str(&body).unwrap();
            assert_eq!(j["chat_id"], -5);
            assert_eq!(j["text"], "a\"");
        }
        Delivery::Mail => panic!(),
    }
    assert!(matches!(send_one("smtp", "h", "{}", "x"), Ok(Delivery::Mail)));
    assert!(send_one("exec", "h", "", "x").is_err());
    assert!(delivered(204) && !delivered(301) && !delivered(500));
}

#[test]
fn read_access() {
    assert_eq!(bearer(Some("Bearer opk_1")).as_deref(), Some("opk_1"));
    assert_eq!(bearer(Some("Basic x")), None);
    assert_eq!(bearer(None), None);
    let token = format!("opk_{}", "ab".repeat(32));
    let key = api_token_key(&token).unwrap();
    assert_eq!(key, sha256_hex(token.as_bytes()));
    assert_eq!(api_token_key(&"ab".repeat(32)), None);
    assert!(check_api_token(Some(&key), &key));
    assert!(!check_api_token(None, &key));
    assert!(require_read(false, true).is_ok() && require_read(true, false).is_ok());
    assert!(matches!(require_read(false, false), Err(AppError::Unauthorized)));
}

#[test]
fn audit_entries_are_cut() {
    let e = log(5, &"u".repeat(500), "1.2.3.4\u{7}", "login", "d");
    assert_eq!(e.ts, 5);
    assert!(e.username.chars().count() < 500);
    assert_eq!(e.ip, "1.2.3.4");
    assert_eq!((e.action.as_str(), e.detail.as_str()), ("login", "d"));
}

#[test]
fn configuration_rules() {
    let text = |c: &Config| match c.validate() {
        Ok(()) => String::new(),
        Err(e) => e.message(),
    };
    let mut c = Config::default();
    c.server.listen = "x".into();
    assert_eq!(text(&c), "配置无效: server.listen 不是合法地址");
    let mut c = Config::default();
    c.server.tls.enabled = true;
    assert_eq!(text(&c), "配置无效: 启用 TLS 需同时配置 cert_path/key_path");
    let mut c = Config::default();
    c.install.mode = "x".into();
    assert_eq!(text(&c), "配置无效: install.mode 只能是 pinned_ca 或 public_ca");
    let mut c = Config::default();
    c.security.session_ttl_hours = 0;
    assert_eq!(text(&c), "配置无效: session_ttl_hours 取值 1..=720");
    let mut c = Config::default();
    c.metrics.ts_skew_secs = 4;
    assert_eq!(text(&c), "配置无效: ts_skew_secs 取值 5..=3600");
    let mut c = Config::default();
    c.metrics.ws_max_message_bytes = 1;
    assert!(c.validate().is_err());
    let mut c = Config::default();
    c.server.extra_origins = vec!["ftp://x".into()];
    assert_eq!(text(&c), "配置无效: extra_origins 必须为 https://(本机预览可 http://)");
    assert_eq!(ConfigError::Load("x".into()).message(), "配置读取失败: x");
    assert!(scheme_ok("http://127.0.0.1", true) && !scheme_ok("http://127.0.0.1", false));
}

#[test]
fn cookie_names() {
    let mut c = Config::default();
    assert!(c.cookie_name().starts_with("__Host-"));
    assert!(!c.dev_local());
    c.security.cookie_secure = false;
    assert_eq!(c.cookie_name(), "op_session");
    assert!(c.dev_local());
    c.server.trusted_proxies = vec!["10.0.0.1".into(), "zz".into()];
    assert_eq!(c.trusted_proxy_ips(), vec![ip("10.0.0.1")]);
}

#[test]
fn settings_stay_in_bounds() {
    assert_eq!(setting_i64(Some("7"), 5, 1, 10), 7);
    assert_eq!(setting_i64(Some("99"), 5, 1, 10), 10);
    assert_eq!(setting_i64(Some("x"), 5, 1, 10), 5);
    assert_eq!(setting_i64(None, 5, 1, 10), 5);
}

#[test]
fn error_answers() {
    let all = [
        (AppError::Unauthorized, 401),
        (AppError::Forbidden, 403),
        (AppError::NotFound, 404),
        (AppError::bad("x"), 400),
        (AppError::TooManyRequests, 429),
        (AppError::Internal, 500),
    ];
    for (e, s) in all.iter() {
        assert_eq!(e.status(), *s);
        assert!(!e.message().is_empty());
    }
    assert_eq!(AppError::bad("x").message(), "x");
}

#[test]
fn browser_headers() {
    let c = Config::default();
    let h = security_headers(&c, "/api/nodes");
    assert!(h.iter().any(|x| x.0 == "x-content-type-options" && x.1 == "nosniff"));
    let p = csp("https://a.com");
    assert!(p.contains("default-src") && p.contains("wss://a.com"));
}

#[test]
fn requests_of_other_sites() {
    let own = ["https://a.com".to_string()];
    assert!(csrf_origin_check("GET", "/api/x", None, false, &own));
    assert!(csrf_origin_check("POST", "/api/x", Some("https://a.com"), true, &own));
    assert!(!csrf_origin_check("POST", "/api/x", Some("https://evil"), true, &own));
    assert!(csrf_origin_check("POST", "/api/x", Some("https://a.com"), false, &own));
    assert!(!csrf_origin_check("DELETE", "/api/x", None, false, &own));
    assert!(csrf_origin_check("DELETE", "/api/x", None, true, &own));
}

#[test]
fn webhook_targets() {
    assert_eq!(literal_target("10.0.0.1", false), Target::Refused);
    assert_eq!(literal_target("10.0.0.1", true), Target::Address { ip: ip("10.0.0.1") });
    assert_eq!(literal_target("a.com", false), Target::LookUp);
    assert_eq!(resolve_checked(&[ip("10.0.0.1"), ip("8.8.8.8")], false), Ok(1));
    assert!(resolve_checked(&[ip("10.0.0.1")], false).is_err());
    assert_eq!(resolve_checked(&[ip("10.0.0.1")], true), Ok(0));
    assert!(ip_global(&ip("8.8.8.8")) && !ip_global(&ip("::1")));
}

#[test]
fn webhook_requests() {
    let o = post_json("https://a.com:8443/x", "{}", false).unwrap();
    assert_eq!((o.host.as_str(), o.port, o.ip), ("a.com", 8443, None));
    assert!(o.request.starts_with("POST /x HTTP/1.1\r\n"));
    assert!(o.request.contains("Content-Length: 2\r\n"));
    assert!(o.request.ends_with("\r\n\r\n{}"));
    assert_eq!(post_json("https://a.com", &"x".repeat(MAX_BODY + 1), false).err(), Some("通知内容过大"));
    assert_eq!(
        post_json("https://127.0.0.1/", "{}", false).err(),
        Some("目标为非公网地址,已拒绝(SSRF 防护)")
    );
    assert_eq!(post_json("http://a.com", "{}", false).err(), Some("仅允许 https:// 的 Webhook"));
    assert_eq!(parse_https("https://a.com:0x/").err(), Some("端口非法"));
    assert_eq!(parse_https("https://u@a.com/").err(), Some("URL 不得包含用户信息"));
    assert_eq!(parse_https("https:///x").err(), Some("主机名非法"));
}

#[test]
fn webhook_answers() {
    assert_eq!(status_in("HTTP/1.1 204 No Content\r\n\r\n"), Some(204));
    assert_eq!(status_in("hello"), None);
    assert_eq!(answer_status(b"HTTP/1.1 500 x\r\n\r\n"), Some(500));
    assert_eq!(answer_status(b"\xff\xfe"), None);
    assert!(answer_read(b"HTTP/1.1 200 OK\r\n\r\n") && !answer_read(b"HTTP/1.1 200"));
}

fn mail_cfg() -> SmtpCfg {
    SmtpCfg {
        host: "smtp.x.com".into(),
        port: default_port(),
        username: "u".into(),
        password: "p".into(),
        from: "a@x.com".into(),
        to: "b@x.com".into(),
    }
}

#[test]
fn mail_dialogue() {
    let c = mail_cfg();
    check_mail(&c).unwrap();
    let codes = [220, 250, 334, 334, 235, 250, 250, 354, 250];
    let mut stage = Stage::Greeting;
    let mut sent: Vec<String> = vec![];
    for code in codes {
        let (s, t) = send(stage, code, &c, "subject", "body", 0).unwrap();
        stage = s;
        sent.push(t);
    }
    assert_eq!(stage, Stage::Done);
    assert!(sent[0].starts_with("EHLO "));
    assert_eq!(sent[1], "AUTH LOGIN\r\n");
    assert_eq!(sent[2], "dQ==\r\n");
    assert_eq!(sent[3], "cA==\r\n");
    assert_eq!(sent[4], "MAIL FROM:<a@x.com>\r\n");
    assert_eq!(sent[5], "RCPT TO:<b@x.com>\r\n");
    assert_eq!(sent[6], "DATA\r\n");
    assert!(sent[7].ends_with("\r\n.\r\n"));
    assert_eq!(send(Stage::Greeting, 500, &c, "s", "b", 0).err().as_deref(), Some("SMTP 服务器问候异常"));
    assert_eq!(send(Stage::Mail, 554, &c, "s", "b", 0).err().as_deref(), Some("邮件提交返回 554"));
    assert_eq!(
        send(Stage::Secret, 535, &c, "s", "b", 0).err().as_deref(),
        Some("SMTP 返回 535(期望 235)")
    );
}

#[test]
fn mail_settings() {
    let mut c = mail_cfg();
    c.host = String::new();
    assert_eq!(check_mail(&c), Err("SMTP 主机非法"));
    let mut c = mail_cfg();
    c.to = "b".into();
    assert_eq!(check_mail(&c), Err("发件/收件邮箱格式非法"));
    let mut c = mail_cfg();
    c.username = String::new();
    assert_eq!(check_mail(&c), Err("SMTP 凭据非法"));
}

#[test]
fn mail_replies() {
    assert_eq!(read_reply(b"250-a\r\n250 b\r\n"), Reply::Whole { code: 250 });
    assert_eq!(read_reply(b"250-a\r\n"), Reply::More);
    assert_eq!(read_reply(&vec![b'x'; 20_000]), Reply::TooLong);
}

#[test]
fn mail_text() {
    let t = build_message("a@x.com", "b@x.com", "s", ".\n", "D");
    assert!(t.contains("From: <a@x.com>\r\n") && t.contains("\r\n..\r\n"));
    assert!(!clean_subject("a\r\nBcc: x").contains('\n'));
}

#[test]
fn tokens_come_back() {
    let mut rl = RateLimiter::new();
    let a = ip("1.2.3.4");
    for _ in 0..10 {
        assert!(rl.check(a, Class::Login, 0));
    }
    assert!(!rl.check(a, Class::Login, 5_999_999_999));
    assert!(rl.check(a, Class::Login, 6_000_000_000));
    assert!(rl.check(a, Class::Api, 0));
}

#[test]
fn locks_have_a_longest() {
    let mut g = LoginGuard::new();
    let a = ip("1.2.3.4");
    let mut last = 0;
    for _ in 0..40 {
        if let Some(n) = g.record_fail(a, "x", 0) {
            last = n;
        }
    }
    assert_eq!(last, 3600);
}

#[test]
fn what_is_swept() {
    let c = cutoffs(100 * 86_400, 30, 7, 90);
    assert_eq!(c.metrics, 70 * 86_400);
    assert_eq!(c.details, 93 * 86_400);
    assert_eq!(c.rollup, 10 * 86_400);
    assert_eq!(days_back(86_400, 1), 0);
    assert_eq!(rollup(7200, 0), Some((0, 7200)));
    assert_eq!(rollup(7200, 50_000), None);
}

#[test]
fn backups() {
    assert!(!auto_backup(0, 0, 1_000_000));
    assert!(auto_backup(1, 0, 3600) && !auto_backup(1, 1, 3600));
    assert_eq!(backup_file(1000), "outpost-1000.db");
    let names: Vec<String> =
        ["outpost-3.db", "x.txt", "outpost-1.db", "outpost-2.db"].iter().map(|s| s.to_string()).collect();
    assert_eq!(rotate_backups(&names, 2), vec!["outpost-1.db"]);
    assert!(rotate_backups(&names, 3).is_empty());
}

fn user(role: &str) -> SessionUser {
    SessionUser { user_id: 1, username: "u".into(), token_hash: "h".into(), role: role.into() }
}

#[test]
fn sessions() {
    let c = Config::default();
    let token = "ab".repeat(32);
    let n = session_with(&token, &c, "Firefox\u{7}", 1000);
    assert_eq!(n.token_hash, sha256_hex(token.as_bytes()));
    assert_eq!(n.user_agent, "Firefox");
    assert_eq!(n.expires_at, 1000 + i64::from(c.security.session_ttl_hours) * 3600);
    let key = session_key(Some(&format!("{}={}", c.cookie_name(), token)), &c).unwrap();
    assert_eq!(key, n.token_hash);
    assert_eq!(session_key(Some("x=1"), &c), None);
    assert_eq!(session_key(None, &c), None);
    let row = |exp: i64| SessionRow {
        token_hash: key.clone(),
        expires_at: exp,
        user_id: 3,
        username: "u".into(),
        role: "admin".into(),
    };
    assert!(matches!(try_session(row(10), &key, 9), Standing::Valid(u) if u.user_id == 3));
    assert!(matches!(try_session(row(10), &key, 11), Standing::Expired));
    assert!(matches!(try_session(row(10), &"0".repeat(64), 9), Standing::Unknown));
    let a = create_session(&c, "x", 0).unwrap();
    let b = create_session(&c, "x", 0).unwrap();
    assert_ne!(a.token_hash, b.token_hash);
}

#[test]
fn roles() {
    assert!(matches!(require_user(None), Err(AppError::Unauthorized)));
    assert!(matches!(require_admin(None), Err(AppError::Unauthorized)));
    assert!(matches!(require_admin(Some(user("viewer"))), Err(AppError::Forbidden)));
    assert!(require_admin(Some(user("admin"))).is_ok());
    assert!(require_user(Some(user("viewer"))).is_ok());
}

#[test]
fn cookies() {
    let c = Config::default();
    let s = build_cookie(&c, "v", 60);
    assert!(s.starts_with("__Host-") && s.contains("HttpOnly") && s.contains("Secure"));
    assert!(s.contains("Max-Age=60"));
    assert!(clear_cookie(&c).contains("Max-Age=0"));
}

#[test]
fn programs_offered() {
    assert_eq!(program_files().len(), 2);
    let a = scan_artifacts(Some(b"abc"), None);
    assert_eq!(a.len(), 1);
    assert_eq!(a[0].sha256, sha256_hex(b"abc"));
    assert!(scan_artifacts(None, None).is_empty());
}

#[test]
fn stored_addresses() {
    let mut c = Config::default();
    c.server.public_url = "https://cfg".into();
    c.server.extra_origins = vec!["https://o".into()];
    let n = seeded_net("", "", &c);
    assert_eq!(n.public_url, "https://cfg");
    assert_eq!(n.extra_origins, vec!["https://o"]);
    let n = seeded_net("https://db", "[\"https://a\",\"https://b\"]", &c);
    assert_eq!(n.public_url, "https://db");
    assert_eq!(n.extra_origins, vec!["https://a", "https://b"]);
    let n = net_with("https://db", Some(None), &c);
    assert!(n.extra_origins.len() <= 1);
}

#[test]
fn program_arguments() {
    assert_eq!(command(Some("--version")), Command::Version);
    assert_eq!(command(Some("--help")), Command::Help);
    assert_eq!(command(Some("admin-create")), Command::AdminCreate);
    assert_eq!(command(None), Command::Serve);
    let args: Vec<String> = ["--username", "bob"].iter().map(|s| s.to_string()).collect();
    assert_eq!(admin_username(&args, None).as_deref(), Some("bob"));
    assert_eq!(admin_username(&[], Some("eve")).as_deref(), Some("eve"));
    assert_eq!(admin_username(&[], None), None);
    assert_eq!(admin_password(Some("p"), None).as_deref(), Some("p"));
    assert_eq!(admin_password(None, Some("q\n")).as_deref(), Some("q"));
    assert!(account_from_environment(Some(0), Some("a"), Some("b")));
    assert!(!account_from_environment(Some(1), Some("a"), Some("b")));
    let _ = wants_authority(&Config::default());
}

#[test]
fn stand_in_hash() {
    let h = dummy_hash().unwrap();
    assert!(h.starts_with("$argon2id$"));
}

#[test]
fn origins_allowed() {
    let n = NetCfg {
        public_url: "https://a.com/x".into(),
        extra_origins: vec!["https://b.com/y".into()],
    };
    assert_eq!(n.public_origin(), "https://a.com");
    assert_eq!(n.allowed_origins(), vec!["https://a.com", "https://b.com"]);
}

#[test]
fn waiting_upgrade_is_told_once() {
    let mut p = PendingUpgrades::new();
    p.remember(4, 100);
    assert!(!p.claim(5, 100));
    assert!(p.claim(4, 100 + UPGRADE_RESEND_SECS - 1));
    assert!(!p.claim(4, 101));
    p.remember(4, 100);
    assert!(!p.claim(4, 100 + UPGRADE_RESEND_SECS));
}

#[test]
fn traffic_adds_up() {
    let t = Traffic { rx_total: 10, tx_total: 20, last_ts: 1000 };
    let n = accumulate(&t, 1010, 3, 4, 5).unwrap();
    assert_eq!((n.rx_total, n.tx_total, n.last_ts), (40, 60, 1010));
    let first = accumulate(&Traffic { rx_total: 0, tx_total: 0, last_ts: 0 }, 1010, 3, 4, 5);
    assert_eq!(first.map(|x| x.last_ts), Some(1010));
}

#[test]
fn traffic_periods() {
    let now = days_from_civil(2026, 7, 5) * 86400;
    let start = days_from_civil(2026, 7, 1) * 86400;
    assert_eq!(sweep_resets(now, 1, start), PeriodStep::Stay);
    assert_eq!(sweep_resets(now, 1, 0), PeriodStep::Note { start });
    assert_eq!(sweep_resets(now, 1, start - 86400), PeriodStep::StartOver { start });
}
