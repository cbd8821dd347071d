use outpost::agent::parsers::parse_diskstats;
use outpost::agent::session::{session, SessionAction, SessionEvent};
use outpost::calendar::days_from_civil;
use outpost::common::{clean_str, is_lower_hex, to_hex};
use outpost::ip::{ip_global, ipv4_global, ipv6_global, is_loopback, parse_ip, parse_ipv4, parse_ipv6};
use outpost::json::json_strings;
use outpost::measure::Measure;
use outpost::metrics::ServerToAgent;
use outpost::num::{parse_i64, parse_u64, show_i64, show_u64};
use outpost::server::alerts::{AlertRuntime, RuleLite, Step, FLAP_REFIRE_SECS};
use outpost::server::apiauth::api_token_key;
use outpost::server::config::{origin_of, Config};
use outpost::server::db::setting_i64;
use outpost::server::handlers::account::backup;
use outpost::server::handlers::auth::{hash_with, verify_password};
use outpost::server::handlers::dataout::esc_label;
use outpost::server::handlers::ws_agent::{agent_key, Budget};
use outpost::server::notify_smtp::dot_stuff;
use outpost::server::ratelimit::LoginGuard;
use outpost::server::retention::{backup_file, cutoffs, rollup, rotate_backups};
use outpost::server::totp::{base32_decode, base32_encode, hotp, provisioning_uri, verify};
use outpost::server::traffic::{accumulate, current_period_start, Traffic, MAX_TRAFFIC_TOTAL};
use outpost::text::{chars_of, double_chars, split, split_words, string_of};

fn v(x: f64) -> Measure {
    Measure { bits: x.to_bits() }
}

#[test]
fn salt_and_password_give_the_text() {
    let a = hash_with("abcdefghi1", &[7u8; 16]).unwrap();
    assert_eq!(a, hash_with("abcdefghi1", &[7u8; 16]).unwrap());
    assert_ne!(a, hash_with("abcdefghi1", &[8u8; 16]).unwrap());
    assert_ne!(a, hash_with("abcdefghi2", &[7u8; 16]).unwrap());
    assert!(verify_password(&a, "abcdefghi1"));
    assert!(hash_with("abcdefghi1", &[7u8; 3]).is_err());
    assert!(hash_with("abcdefghi1", &[7u8; 49]).is_err());
    let lanes = a.replace("p=1", "p=4294967295");
    assert!(!verify_password(&lanes, "abcdefghi1"));
}

#[test]
fn code_counts_in_three_steps() {
    let key = b"12345678901234567890";
    let secret = base32_encode(key);
    let code = format!("{:06}", hotp(key, 100).unwrap());
    for now in [2970i64, 2999, 3000, 3029, 3030, 3059] {
        assert!(verify(&secret, &code, now));
    }
    assert!(!verify(&secret, &code, 2969));
    assert!(!verify(&secret, &code, 3060));
}

#[test]
fn every_key_comes_back() {
    for n in 0..40u8 {
        let key: Vec<u8> = (0..n).map(|i| i.wrapping_mul(37).wrapping_add(n)).collect();
        assert_eq!(base32_decode(&base32_encode(&key)).unwrap(), key);
    }
}

#[test]
fn provisioning_uri_is_one_word() {
    let u = provisioning_uri("ABC234", "a&b=c\n\"é", "O?#/ x");
    assert!(u.chars().all(|c| c.is_ascii_graphic()));
    assert_eq!(u.matches('#').count(), 0);
    assert_eq!(u.matches('?').count(), 1);
}

#[test]
fn period_lasts_until_the_next() {
    let start = days_from_civil(2026, 1, 28) * 86400;
    let next = days_from_civil(2026, 2, 28) * 86400;
    let mut t = start;
    while t < next {
        assert_eq!(current_period_start(t, 28), start);
        t += 86400;
    }
    assert_eq!(current_period_start(next - 1, 28), start);
    assert_eq!(current_period_start(next, 28), next);
}

#[test]
fn traffic_stays_below_its_limit() {
    let t = Traffic { rx_total: MAX_TRAFFIC_TOTAL - 1, tx_total: 5, last_ts: 1000 };
    let n = accumulate(&t, 1010, i64::MAX, -1, 5).unwrap();
    assert_eq!((n.rx_total, n.tx_total), (MAX_TRAFFIC_TOTAL, 5));
}

#[test]
fn origin_of_an_origin_is_itself() {
    for u in ["https://h.example:1/x/y", "http://127.0.0.1", "https://h.example"] {
        let o = origin_of(u);
        assert_eq!(origin_of(&o), o);
    }
}

#[test]
fn accepted_configuration_is_encrypted_or_local() {
    let mut c = Config::default();
    c.server.public_url = "http://8.8.8.8".into();
    assert!(c.validate().is_err());
    c.server.public_url = "https://8.8.8.8".into();
    assert!(c.validate().is_ok());
}

#[test]
fn stored_setting_is_read_back() {
    for n in [1i64, 7, 10] {
        assert_eq!(setting_i64(Some(&show_i64(n)), 5, 1, 10), n);
    }
}

#[test]
fn longer_keeps_more() {
    let a = cutoffs(1_000_000_000, 7, 3, 30);
    let b = cutoffs(1_000_000_000, 8, 4, 31);
    assert!(b.metrics < a.metrics && b.details < a.details && b.rollup < a.rollup);
}

#[test]
fn hours_follow_one_another() {
    let (_, to) = rollup(1_000_000, 900_000).unwrap();
    assert_eq!(to, 997_200);
    let (from, later) = rollup(1_010_000, to).unwrap();
    assert!(from <= to && to <= later && from % 3600 == 0 && later % 3600 == 0);
}

#[test]
fn newest_backups_stay() {
    let times = [1_700_000_009i64, 1_700_000_010, 1_699_999_999];
    let names: Vec<String> = times.iter().map(|t| backup_file(*t)).collect();
    assert_eq!(rotate_backups(&names, 1), vec![names[2].clone(), names[0].clone()]);
}

#[test]
fn body_cannot_end_the_mail() {
    for body in [".", "a\n.\nQUIT", "a\r\n.\r\nb", ".\n.\n."] {
        assert!(!format!("\r\n{}\r\n", dot_stuff(body)).contains("\r\n.\r\n"));
    }
}

#[test]
fn label_cannot_be_left() {
    let e = esc_label("a\"} 1\nb\\");
    assert!(!e.contains('\n'));
    assert_eq!(e, "a\\\"} 1\\nb\\\\");
}

#[test]
fn quoted_path_is_one_string() {
    let q = backup("/var/it's/x.db");
    assert_eq!(q.matches("it''s").count(), 1);
    assert_eq!(q.matches('\'').count() % 2, 0);
    assert_eq!(double_chars(&chars_of("a'b''"), '\''), "a''b''''");
}

#[test]
fn tokens_for_reading_are_no_others() {
    let agent = "ab".repeat(32);
    assert!(agent_key(Some(&format!("Bearer {}", agent))).is_ok());
    assert!(api_token_key(&agent).is_none());
    let read = format!("opk_{}", agent);
    assert!(api_token_key(&read).is_some());
    assert!(agent_key(Some(&format!("Bearer {}", read))).is_err());
}

#[test]
fn agent_that_comes_back_may_send_all() {
    let mut b = Budget::new(0);
    assert!(b.pay(1, 0));
    for _ in 0..8 {
        assert!(b.pay(12, 0));
    }
    assert!(b.pay(4, 0));
}

#[test]
fn interval_is_bounded() {
    for (asked, secs) in [(0u32, 1u32), (1, 1), (60, 60), (3600, 3600), (u32::MAX, 3600)] {
        let e = SessionEvent::Downlink(ServerToAgent::UpdateConfig { report_interval_secs: asked });
        match session(&e, 77) {
            SessionAction::SetInterval { secs: s } => assert_eq!(s, secs),
            _ => panic!("no interval"),
        }
    }
}

#[test]
fn mapped_addresses_are_judged_as_they_are() {
    for s in ["127.0.0.1", "10.0.0.1", "8.8.8.8", "169.254.169.254", "1.1.1.1"] {
        let mapped = parse_ipv6(&format!("::ffff:{}", s)).unwrap();
        assert_eq!(ipv6_global(mapped), ipv4_global(parse_ipv4(s).unwrap()));
    }
    for s in ["127.0.0.1", "127.9.9.9", "::1"] {
        let a = parse_ip(s).unwrap();
        assert!(is_loopback(&a) && !ip_global(&a));
    }
}

#[test]
fn order_of_measures_is_that_of_numbers() {
    let xs = [-1e308, -40.0, -1e-310, -0.0, 0.0, 5e-324, 0.5, 100.0, 65535.0, 1e308];
    for a in xs.iter() {
        for b in xs.iter() {
            assert_eq!(v(*a).lt(v(*b)), a < b);
            assert_eq!(v(*a).le(v(*b)), a <= b);
        }
    }
    assert_eq!(v(7.5).bound(v(5.0).bits).bits, v(5.0).bits);
    assert_eq!(v(-7.5).bound(v(5.0).bits).bits, v(0.0).bits);
}

#[test]
fn different_lists_are_written_differently() {
    let one = json_strings(&["a\",\"b".to_string()]);
    let two = json_strings(&["a".to_string(), "b".to_string()]);
    assert_ne!(one, two);
    assert!(!json_strings(&["\u{0}\n\t".to_string()]).chars().any(|c| c < ' '));
}

#[test]
fn hex_tells_bytes_apart() {
    assert_ne!(to_hex(&[0x01, 0x10]), to_hex(&[0x11, 0x00]));
    assert!(is_lower_hex(&to_hex(&[0u8; 32])));
    assert_eq!(clean_str(&clean_str("a\u{7}bcd", 3), 3), clean_str("a\u{7}bcd", 3));
}

#[test]
fn numbers_come_back() {
    for n in [0u64, 9, 10, 12345, u64::MAX] {
        assert_eq!(parse_u64(&chars_of(&show_u64(n))), Some(n));
    }
    for n in [i64::MIN, -1, 0, i64::MAX] {
        assert_eq!(parse_i64(&chars_of(&show_i64(n))), Some(n));
    }
}

#[test]
fn disks_add_up() {
    let a = "8 0 sda 1 0 2 0 3 0 4 0\r";
    let b = "8 1 sda1 9 0 9 0 9 0 9 0\n8 2 sdb 10 0 20 0 30 0 40 0";
    let (x, y) = (parse_diskstats(a), parse_diskstats(b));
    let r = parse_diskstats(&format!("{a}\n{b}"));
    assert_eq!((r.read_ops, r.write_ops), (x.read_ops + y.read_ops, x.write_ops + y.write_ops));
    assert_eq!((r.read_ops, r.write_ops, r.read_bytes, r.write_bytes), (11, 33, 22 * 512, 44 * 512));
    let big = "8 0 sda 18446744073709551615 0 2 0 3 0 4 0";
    assert_eq!(parse_diskstats(&format!("{big}\n{big}")).read_ops, u64::MAX);
}

#[test]
fn locks_by_failures() {
    let (a, b) = (parse_ip("1.2.3.4").unwrap(), parse_ip("1.2.3.5").unwrap());
    let mut g = LoginGuard::new();
    for n in 1..20u32 {
        let lock = g.record_fail(a, "admin", 1000);
        if n < 5 {
            assert_eq!(lock, None);
            assert!(!g.is_locked(a, "admin", 0));
        } else {
            let l = std::cmp::min(30 * (1i64 << std::cmp::min(n - 5, 7)), 3600);
            assert_eq!(lock, Some(l));
            assert!(g.is_locked(a, "admin", 1000 + l - 1) && !g.is_locked(a, "admin", 1000 + l));
        }
        assert!(!g.is_locked(b, "admin", 0) && !g.is_locked(a, "other", 0));
    }
}

#[test]
fn alerts_begin_by_the_run() {
    let r = RuleLite {
        id: 1,
        name: "r".into(),
        metric: "offline".into(),
        comparator: "gt".into(),
        threshold: v(0.0),
        duration_secs: 60,
        severity: "warning".into(),
        roc_window_secs: 0,
        node_id: None,
    };
    let mut a = AlertRuntime::new();
    let looks = [(true, 0), (true, 19), (true, 20), (true, 90), (false, 100), (true, 110), (true, 130)];
    let fires: Vec<bool> =
        looks.iter().map(|(b, t)| a.transition(&r, 7, *b, 20, *t) == Step::Fire).collect();
    assert_eq!(fires, vec![false, false, true, false, false, false, false]);
    assert_eq!(a.transition(&r, 7, true, 20, 110 + FLAP_REFIRE_SECS), Step::Fire);
}

#[test]
fn pieces_make_the_whole() {
    let s = chars_of(",a,,b c,");
    let p: Vec<String> = split(&s, ',').iter().map(|x| string_of(x)).collect();
    assert_eq!(p.join(","), ",a,,b c,");
    let words = chars_of("  x \t yy\n");
    let w: Vec<String> = split_words(&words).iter().map(|x| string_of(x)).collect();
    assert_eq!(w, vec!["x", "yy"]);
}
