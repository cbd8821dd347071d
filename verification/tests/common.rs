use outpost::calendar::{civil_from_days, days_from_civil};
use outpost::clock::{unix_now, unix_seconds};
use outpost::common::{
    clean_str, is_lower_hex, to_hex, valid_short_name, MAX_BYTES_VALUE, MAX_CONTAINERS,
    MAX_DISKS,
};
use outpost::ip::{is_loopback, parse_ip, parse_socket, IpAddr, SocketAddr};
use outpost::json::json_strings;
use outpost::measure::Measure;
use outpost::metrics::{
    clean_host_info, validate_and_clean_metrics, ContainerStat, DiskUsage, HostInfo, Metrics,
};
use outpost::num::{
    parse_i64, parse_u64, sat_add, sat_mul, sat_sub, show_i64, show_padded, show_u64,
};
use outpost::text::{
    byte_count, chars_of, double_chars, has_substring, split, split_lines, split_words, string_of,
    trim,
};

fn m(x: f64) -> Measure {
    Measure { bits: x.to_bits() }
}

fn sample_metrics() -> Metrics {
    Metrics {
        ts: 1_700_000_000,
        cpu_pct: m(12.5),
        load1: m(0.1),
        load5: m(0.2),
        load15: m(0.3),
        mem_total: 1024,
        mem_used: 512,
        mem_available: 512,
        swap_total: 0,
        swap_used: 0,
        disks: vec![],
        disk_read_bps: 0,
        disk_write_bps: 0,
        nets: vec![],
        uptime_secs: 100,
        procs: 42,
        cpu_temp_c: Some(m(45.0)),
        tcp_conns: Some(30),
        disk_read_iops: 0,
        disk_write_iops: 0,
        procs_watch: vec![],
        cpu_per_core: vec![],
        services: vec![],
        top_procs: vec![],
        tcp_estab: None,
        tcp_listen: None,
        tcp_time_wait: None,
        containers: vec![],
    }
}

#[test]
fn clean_str_strips_control_and_truncates() {
    assert_eq!(clean_str("a\x00b\x1bc\r\n", 10), "abc");
    assert_eq!(clean_str("  héllo  ", 10), "héllo");
    assert_eq!(clean_str("<script>xss</script>", 8), "<script>");
    assert_eq!(clean_str(&"x".repeat(500), 64).chars().count(), 64);
}

#[test]
fn hex_roundtrip_and_check() {
    assert_eq!(to_hex(&[0x00, 0xff, 0x10]), "00ff10");
    assert!(is_lower_hex("00ffab"));
    assert!(!is_lower_hex("00FFAB"));
    assert!(!is_lower_hex(""));
    assert!(!is_lower_hex("zz"));
}

#[test]
fn metrics_rejects_nonfinite_and_clamps() {
    let mut x = sample_metrics();
    x.cpu_pct = m(250.0);
    x.mem_used = 4096;
    validate_and_clean_metrics(&mut x).unwrap();
    assert_eq!(x.cpu_pct, m(100.0));
    assert_eq!(x.mem_used, 1024);

    let mut y = sample_metrics();
    y.load1 = m(f64::NAN);
    assert!(validate_and_clean_metrics(&mut y).is_err());
}

#[test]
fn metrics_rejects_absurd_counters_and_truncates_lists() {
    let mut x = sample_metrics();
    x.disk_read_bps = u64::MAX;
    assert!(validate_and_clean_metrics(&mut x).is_err());

    let mut y = sample_metrics();
    for i in 0..100 {
        y.disks.push(DiskUsage {
            mount: format!("/m{i}\x07"),
            fs: "ext4".into(),
            total: 10,
            used: 20,
            inodes_total: 100,
            inodes_used: 200,
        });
    }
    validate_and_clean_metrics(&mut y).unwrap();
    assert_eq!(y.disks.len(), MAX_DISKS);
    assert_eq!(y.disks[0].mount, "/m0");
    assert_eq!(y.disks[0].used, 10);
}

#[test]
fn container_stats_cleaned_and_truncated() {
    let mut x = sample_metrics();
    for i in 0..40 {
        x.containers.push(ContainerStat {
            name: format!("c{i}\x07"),
            state: "running".into(),
            cpu_pct: m(f64::NAN),
            mem_used: u64::MAX,
            mem_limit: u64::MAX,
        });
    }
    validate_and_clean_metrics(&mut x).unwrap();
    assert_eq!(x.containers.len(), MAX_CONTAINERS);
    assert_eq!(x.containers[0].name, "c0");
    assert_eq!(x.containers[0].cpu_pct, m(0.0));
    assert!(x.containers[0].mem_used <= MAX_BYTES_VALUE);
}

#[test]
fn host_info_cleaning() {
    let h = HostInfo {
        hostname: "evil\x00<img src=x onerror=alert(1)>".into(),
        os: "\x1b[31mDebian\x1b[0m".into(),
        kernel: "6.1".into(),
        arch: "x86_64".into(),
        cores: 999_999,
        mem_total: u64::MAX,
        agent_version: "0.1.0".into(),
    };
    let c = clean_host_info(&h);
    assert!(!c.hostname.contains('\x00'));
    assert_eq!(c.os, "[31mDebian[0m");
    assert_eq!(c.cores, 4096);
}

#[test]
fn cleaning_twice_changes_nothing() {
    let mut x = sample_metrics();
    x.cpu_pct = m(-3.0);
    x.mem_used = 9999;
    x.cpu_temp_c = Some(m(1e9));
    validate_and_clean_metrics(&mut x).unwrap();
    let once = format!("{x:?}");
    validate_and_clean_metrics(&mut x).unwrap();
    assert_eq!(once, format!("{x:?}"));
}

#[test]
fn impossible_reports_say_why() {
    let mut x = sample_metrics();
    x.load5 = m(f64::INFINITY);
    let a = validate_and_clean_metrics(&mut x);
    let mut y = sample_metrics();
    y.mem_total = u64::MAX;
    let b = validate_and_clean_metrics(&mut y);
    assert!(a.is_err());
    assert_eq!(b, Err("memory size out of range"));
    let mut z = sample_metrics();
    z.procs = u32::MAX;
    assert_eq!(validate_and_clean_metrics(&mut z), Err("counter out of range"));
}

#[test]
fn short_names() {
    assert!(valid_short_name("web-1") && valid_short_name("节点"));
    assert!(!valid_short_name(""));
    assert!(!valid_short_name(&"x".repeat(65)));
    assert!(!valid_short_name("a\u{7}b"));
}

#[test]
fn time_since_1970() {
    assert_eq!(unix_seconds(Some(5)), 5);
    assert_eq!(unix_seconds(Some(u64::MAX)), i64::MAX);
    assert_eq!(unix_seconds(None), 0);
    assert!(unix_now() > 1_600_000_000);
}

#[test]
fn numbers_are_read_and_written() {
    let c = |s: &str| chars_of(s);
    assert_eq!(parse_i64(&c("-9223372036854775808")), Some(i64::MIN));
    assert_eq!(parse_i64(&c("9223372036854775808")), None);
    assert_eq!(parse_i64(&c("+7")), Some(7));
    assert_eq!(parse_i64(&c("")), None);
    assert_eq!(parse_i64(&c("-")), None);
    assert_eq!(parse_u64(&c("18446744073709551615")), Some(u64::MAX));
    assert_eq!(parse_u64(&c("18446744073709551616")), None);
    assert_eq!(show_i64(i64::MIN), "-9223372036854775808");
    assert_eq!(show_u64(0), "0");
    assert_eq!(show_padded(7, 3), "007");
    assert_eq!(sat_add(i64::MAX, 1), i64::MAX);
    assert_eq!(sat_sub(i64::MIN, 1), i64::MIN);
    assert_eq!(sat_mul(i64::MIN, -1), i64::MAX);
    assert_eq!(sat_mul(-3, 7), -21);
}

#[test]
fn texts_are_cut() {
    let v = chars_of(" a b\t\u{3000}c ");
    let w: Vec<String> = split_words(&v).iter().map(|x| string_of(x)).collect();
    assert_eq!(w, vec!["a", "b", "c"]);
    let l = chars_of("x\r\ny\n\nz");
    let ls: Vec<String> = split_lines(&l).iter().map(|x| string_of(x)).collect();
    assert_eq!(ls, vec!["x", "y", "", "z"]);
    let p = chars_of(",a,");
    assert_eq!(split(&p, ',').len(), 3);
    assert_eq!(string_of(trim(&chars_of("\u{a0}q\n"))), "q");
    assert!(has_substring(&chars_of("abcabd"), "abd"));
    assert_eq!(byte_count("é中"), 5);
    assert_eq!(double_chars(&chars_of("a'b"), '\''), "a''b");
}

#[test]
fn addresses_are_read() {
    assert_eq!(parse_ip("1.2.3.4"), Some(IpAddr::V4(0x0102_0304)));
    assert_eq!(parse_ip("01.2.3.4"), None);
    assert_eq!(parse_ip("1.2.3"), None);
    assert_eq!(parse_ip("::1"), Some(IpAddr::V6(1)));
    assert_eq!(parse_ip("1::2:3"), Some(IpAddr::V6((1 << 112) + (2 << 16) + 3)));
    assert_eq!(parse_ip("::ffff:1.2.3.4"), Some(IpAddr::V6(0xffff_0102_0304)));
    assert_eq!(parse_ip("1:2:3:4:5:6:7:8:9"), None);
    assert_eq!(parse_ip("::1::"), None);
    assert_eq!(parse_socket("127.0.0.1:80"), Some(SocketAddr { ip: IpAddr::V4(0x7f00_0001), port: 80, scope: 0 }));
    assert_eq!(parse_socket("[::1]:443"), Some(SocketAddr { ip: IpAddr::V6(1), port: 443, scope: 0 }));
    let a = parse_socket("[fe80::1%3]:8080").unwrap();
    assert_eq!((a.port, a.scope), (8080, 3));
    assert_eq!(IpAddr::V6(0xfe80 << 112 | 1), a.ip);
    assert_eq!(parse_socket("[fe80::1%x]:8080"), None);
    assert_eq!(parse_socket("127.0.0.1"), None);
    assert_eq!(parse_socket("127.0.0.1:70000"), None);
    assert!(is_loopback(&IpAddr::V4(0x7f01_0203)) && is_loopback(&IpAddr::V6(1)));
    assert!(!is_loopback(&IpAddr::V4(0x0808_0808)));
}

#[test]
fn json_lists_of_texts() {
    assert_eq!(json_strings(&[]), "[]");
    assert_eq!(
        json_strings(&["a\"b".to_string(), "é\n\u{1}".to_string()]),
        "[\"a\\\"b\",\"é\\n\\u0001\"]"
    );
    let v = vec!["https://a".to_string(), "\\ \u{7f} 😀".to_string()];
    let back: Vec<String> = serde_json::from_str(&json_strings(&v)).unwrap();
    assert_eq!(back, v);
}

#[test]
fn civil_roundtrip_known_dates() {
    let cases: &[(i64, i64, u32, u32)] = &[
        (0, 1970, 1, 1),
        (-1, 1969, 12, 31),
        (19722, 2023, 12, 31),
        (19723, 2024, 1, 1),
        (19781, 2024, 2, 28),
        (19782, 2024, 2, 29),
        (19783, 2024, 3, 1),
    ];
    for &(days, y, m, d) in cases {
        assert_eq!(civil_from_days(days), (y, m, d), "civil_from_days({days})");
        assert_eq!(days_from_civil(y, m, d), days, "days_from_civil({y},{m},{d})");
    }
}

#[test]
fn century_leap_rule() {
    let d1900 = days_from_civil(1900, 2, 28);
    let d1900_mar1 = days_from_civil(1900, 3, 1);
    assert_eq!(d1900_mar1 - d1900, 1);
    let d2000 = days_from_civil(2000, 2, 28);
    let d2000_mar1 = days_from_civil(2000, 3, 1);
    assert_eq!(d2000_mar1 - d2000, 2);
}

#[test]
fn dates_for_every_day() {
    for z in (-800_000..800_000).step_by(997) {
        let (y, mo, d) = civil_from_days(z);
        assert_eq!(days_from_civil(y, mo, d), z);
    }
    let (y, mo, d) = civil_from_days(i64::MAX);
    assert_eq!(days_from_civil(y, mo, d), i64::MAX);
}
