use outpost::agent::collect::{
    busiest, collect_disks, host_info, read_cpu_temp, read_tcp_conns, read_tcp_states,
    scan_services, HostReadings, MountStat, PidText, Readings, Sampler, VfsStat, Zone,
};
use outpost::agent::config::{valid_unit_name, AgentConfig, ConfigError};
use outpost::agent::docker::{
    after_read, get_request, name_container, response_body, scan_containers, stats_for, stats_path,
    status_ok, valid_container_id, ContainerCounters, ReadState,
};
use outpost::agent::parsers::{
    checked_loads, cpu_deltas, is_physical_disk, parse_cpu_per_core, parse_cpu_total,
    parse_diskstats, parse_loadavg, parse_meminfo, parse_mounts, parse_netdev, parse_os_release,
    parse_pid_comm, parse_pid_stat, parse_tcp_count, parse_tcp_states, parse_thermal_millideg,
    parse_uptime, rate_delta, CpuTimes,
};
use outpost::agent::session::{
    backoff_after, chunk_len, drop_sent, next_backoff, push_buffered, read_token, session,
    wait_millis, SessionAction, SessionEvent, MAX_BUFFER,
};
use outpost::agent::startup::{read_args, Start};
use outpost::measure::Measure;
use outpost::metrics::{ContainerStat, Metrics, ServerToAgent, TopProc};
use std::collections::VecDeque;

fn m(x: f64) -> Measure {
    Measure { bits: x.to_bits() }
}

fn config(server: &str) -> AgentConfig {
    AgentConfig {
        server: server.to_string(),
        ca_file: None,
        token_file: "/var/lib/outpost-agent/token".to_string(),
        report_interval_secs: 5,
        watch_processes: vec![],
        watch_services: vec![],
        docker_stats: false,
    }
}

fn sample(ts: i64) -> Metrics {
    Metrics {
        ts,
        cpu_pct: m(1.0),
        load1: m(0.0),
        load5: m(0.0),
        load15: m(0.0),
        mem_total: 0,
        mem_used: 0,
        mem_available: 0,
        swap_total: 0,
        swap_used: 0,
        disks: vec![],
        disk_read_bps: 0,
        disk_write_bps: 0,
        nets: vec![],
        uptime_secs: 0,
        procs: 0,
        cpu_temp_c: None,
        tcp_conns: None,
        disk_read_iops: 0,
        disk_write_iops: 0,
        procs_watch: vec![],
        cpu_per_core: vec![],
        services: vec![],
        top_procs: vec![],
        tcp_estab: None,
        tcp_listen: None,
        tcp_time_wait: None,
        containers: vec![],
    }
}

fn percent(prev: CpuTimes, cur: CpuTimes) -> f64 {
    match cpu_deltas(prev, cur) {
        Some((idle, total)) => (100.0 * (1.0 - idle as f64 / total as f64)).clamp(0.0, 100.0),
        None => 0.0,
    }
}

#[test]
fn ws_url_derivation() {
    let c = config("https://1.2.3.4:25510/");
    assert_eq!(c.ws_url(), "wss://1.2.3.4:25510/ws/agent");
}

#[test]
fn plain_http_is_refused() {
    assert!(config("http://1.2.3.4").validate().is_err());
    assert!(config("https://1.2.3.4").validate().is_ok());
}

#[test]
fn agent_configuration_rules() {
    let text = |c: &AgentConfig| match c.validate() {
        Ok(()) => String::new(),
        Err(e) => e.message(),
    };
    assert_eq!(text(&config("http://x")), "配置无效: server 必须是 https://(禁止明文)");
    assert_eq!(text(&config(&format!("https://{}", "a".repeat(600)))), "配置无效: server 过长");
    let mut c = config("https://x");
    c.token_file = String::new();
    assert_eq!(text(&c), "配置无效: token_file 不能为空");
    let mut c = config("https://x");
    c.report_interval_secs = 0;
    assert_eq!(text(&c), "配置无效: report_interval_secs 取值 1..=3600");
    let mut c = config("https://x");
    c.watch_services = vec!["a b".to_string()];
    assert!(c.validate().is_err());
    assert_eq!(ConfigError::Io("x".to_string()).message(), "读取失败: x");
    assert_eq!(ConfigError::Parse("y".to_string()).message(), "解析失败: y");
    assert!(valid_unit_name("nginx@1.service") && !valid_unit_name("") && !valid_unit_name("a;b"));
}

#[test]
fn cpu_parse_and_percent() {
    let a = parse_cpu_total("cpu  100 0 100 700 100 0 0 0 0 0\ncpu0 1 2 3 4 5 6 7 8\n").unwrap();
    assert_eq!(a.idle, 800);
    assert_eq!(a.total, 1000);
    let b = CpuTimes { idle: 880, total: 1100 };
    let pct = percent(a, b);
    assert!((pct - 20.0).abs() < 0.01);
    assert_eq!(percent(b, a), 0.0);
    assert!(parse_cpu_total("garbage").is_none());
    assert!(parse_cpu_total("cpu  1 2 notanumber 4 5 6 7 8").is_none());
}

#[test]
fn cores_are_read_apart() {
    let v = parse_cpu_per_core("cpu  1 1 1 1\ncpu0 10 0 0 30 10 0 0 0\ncpu1 5 5 5 5 5 0 0 0\nintr 1\n");
    assert_eq!(v.len(), 2);
    assert_eq!(v[0], CpuTimes { idle: 40, total: 50 });
    assert_eq!(v[1], CpuTimes { idle: 10, total: 25 });
}

#[test]
fn meminfo_parse() {
    let m = parse_meminfo(
        "MemTotal:       1000 kB\nMemAvailable:    400 kB\nSwapTotal:  200 kB\nSwapFree:  150 kB\n",
    );
    assert_eq!(m.total, 1_024_000);
    assert_eq!(m.available, 409_600);
    assert_eq!(m.swap_used, 51_200);
    let big = parse_meminfo("MemTotal: 99999999999999999999 kB\n");
    assert_eq!(big.total, 0);
}

#[test]
fn loadavg_and_uptime() {
    let f = parse_loadavg("0.52 0.58 0.59 2/467 12345\n").unwrap();
    let l1: f64 = f.load1.parse().unwrap();
    assert!((l1 - 0.52).abs() < 1e-9);
    assert_eq!(f.procs, 467);
    assert!(parse_loadavg("").is_none());
    assert_eq!(parse_uptime("88888.77 12345.66\n"), 88888);
    assert_eq!(parse_uptime("bad"), 0);
    assert!(checked_loads(m(0.5), m(0.25), m(0.125)).is_some());
    assert!(checked_loads(m(f64::NAN), m(0.0), m(0.0)).is_none());
}

#[test]
fn netdev_parse_skips_lo() {
    let s = "Inter-|Receive\n face |bytes packets errs\n  lo: 100 1 0 0 0 0 0 0 200 2 0 0 0 0 0 0\n  eth0: 1000 10 0 0 0 0 0 0 2000 20 0 0 0 0 0 0\n";
    let v = parse_netdev(s);
    assert_eq!(v.len(), 1);
    assert_eq!(v[0], ("eth0".to_string(), 1000, 2000));
}

#[test]
fn disk_name_filter() {
    assert!(is_physical_disk("sda"));
    assert!(is_physical_disk("vdb"));
    assert!(is_physical_disk("nvme0n1"));
    assert!(is_physical_disk("mmcblk0"));
    assert!(!is_physical_disk("sda1"));
    assert!(!is_physical_disk("nvme0n1p2"));
    assert!(!is_physical_disk("mmcblk0p1"));
    assert!(!is_physical_disk("loop0"));
    assert!(!is_physical_disk("dm-0"));
    assert!(!is_physical_disk(&"x".repeat(100)));
}

#[test]
fn diskstats_parse() {
    let s = "   8   0 sda 100 0 2048 50 200 0 4096 80 0 0 0\n   8   1 sda1 1 0 10 1 1 0 10 1 0 0 0\n";
    let d = parse_diskstats(s);
    assert_eq!(d.read_bytes, 2048 * 512);
    assert_eq!(d.write_bytes, 4096 * 512);
    assert_eq!(d.read_ops, 100);
    assert_eq!(d.write_ops, 200);
}

#[test]
fn tcp_count_and_thermal() {
    let tcp = "  sl local rem st\n   0: 0100007F:1F90 00000000:0000 0A\n   1: 0100007F:0035 00000000:0000 0A\n";
    assert_eq!(parse_tcp_count(tcp), 2);
    assert_eq!(parse_tcp_count("header only\n"), 0);
    let degrees = |s: &str| parse_thermal_millideg(s).map(|t| t as f64 / 1000.0);
    assert_eq!(degrees("45000\n"), Some(45.0));
    assert_eq!(degrees("999000"), None);
    assert_eq!(degrees("x"), None);
}

#[test]
fn tcp_states_are_told_apart() {
    let tcp = "  sl local rem st\n 0: A B 0A x\n 1: A B 01 x\n 2: A B 01 x\n 3: A B 06 x\n";
    assert_eq!(parse_tcp_states(tcp), (2, 1, 1));
    let one = Some(tcp.to_string());
    assert_eq!(read_tcp_conns(&one, &one), Some(8));
    assert_eq!(read_tcp_conns(&None, &None), None);
    assert_eq!(read_tcp_states(&one, &None), (Some(2), Some(1), Some(1)));
    assert_eq!(read_tcp_states(&None, &None), (None, None, None));
}

#[test]
fn pid_stat_handles_comm_with_spaces() {
    let rest = "S 1 0 0 0 -1 0 0 0 0 0 500 250 0 0 0 0 0 0 0 0 1000 x";
    let s = format!("1234 (my (weird) proc) {rest}");
    let (cpu, rss) = parse_pid_stat(&s).unwrap();
    assert_eq!(cpu, 750);
    assert_eq!(rss, 1000);
    assert_eq!(parse_pid_comm(&s).as_deref(), Some("my (weird) proc"));
}

#[test]
fn mounts_whitelist_and_dedupe() {
    let s = "/dev/vda1 / ext4 rw 0 0\n/dev/vda1 /var/lib ext4 rw 0 0\nproc /proc proc rw 0 0\n1.2.3.4:/share /mnt/nfs nfs4 rw 0 0\n";
    let v = parse_mounts(s);
    assert_eq!(v.len(), 1);
    assert_eq!(v[0].1, "/");
}

fn rate_bps(prev: u64, cur: u64, dt_secs: f64) -> u64 {
    match rate_delta(prev, cur, (dt_secs * 1e9) as u64) {
        Some(d) => (d as f64 / dt_secs) as u64,
        None => 0,
    }
}

#[test]
fn rate_handles_wrap_and_small_dt() {
    assert_eq!(rate_bps(1000, 2000, 1.0), 1000);
    assert_eq!(rate_bps(2000, 1000, 1.0), 0);
    assert_eq!(rate_bps(0, 10_000, 0.01), 0);
}

#[test]
fn os_release_parse() {
    assert_eq!(
        parse_os_release("NAME=Debian\nPRETTY_NAME=\"Debian GNU/Linux 13\"\n").as_deref(),
        Some("Debian GNU/Linux 13")
    );
    assert!(parse_os_release("").is_none());
}

fn readings(at: u64, idle: u64, busy: u64, rx: u64, jiffies: u64) -> Readings {
    Readings {
        at,
        stat: Some(format!("cpu  {busy} 0 0 {idle} 0 0 0 0\ncpu0 {busy} 0 0 {idle} 0 0 0 0\n")),
        meminfo: Some("MemTotal: 1000 kB\nMemAvailable: 400 kB\n".to_string()),
        uptime: Some("77.5 1.0\n".to_string()),
        netdev: Some(format!("a\nb\n eth0: {rx} 0 0 0 0 0 0 0 5 0 0 0 0 0 0 0\n")),
        diskstats: None,
        tcp: None,
        tcp6: None,
        pids: vec![PidText {
            name: "42".to_string(),
            stat: format!("42 (nginx) S 1 0 0 0 -1 0 0 0 0 0 {jiffies} 0 0 0 0 0 0 0 0 0 7 x"),
        }],
    }
}

#[test]
fn first_sample_has_no_rates() {
    let mut s = Sampler::new();
    s.set_watch(vec!["nginx".to_string(), "absent".to_string()]);
    let first = s.sample(&readings(1_000, 100, 100, 1_000, 10));
    assert!(first.rates.is_none());
    assert_eq!(first.mem.total, 1_024_000);
    assert_eq!(first.mem_used, 614_400);
    assert_eq!(first.uptime_secs, 77);
    let second = s.sample(&readings(3_000, 150, 150, 4_000, 30));
    let r = second.rates.unwrap();
    assert_eq!(r.elapsed, 2_000);
    assert_eq!(r.cpu, Some((50, 100)));
    assert_eq!(r.nets.len(), 1);
    assert_eq!((r.nets[0].prev_rx, r.nets[0].rx), (1_000, 4_000));
    assert_eq!(r.procs.len(), 2);
    assert_eq!((r.procs[0].running, r.procs[0].count, r.procs[0].ticks), (true, 1, 20));
    assert_eq!((r.procs[1].running, r.procs[1].count, r.procs[1].ticks), (false, 0, 0));
}

#[test]
fn sampler_remembers_its_settings() {
    let mut s = Sampler::new();
    assert!(!s.wants_containers());
    s.set_docker_stats(true);
    assert!(s.wants_containers());
    s.set_watch_services(vec!["sshd".to_string()]);
    assert_eq!(s.services().len(), 1);
}

#[test]
fn busiest_processes_come_first() {
    let p = |n: &str, c: f64, rss: u64| TopProc { name: n.to_string(), cpu_pct: m(c), rss };
    let v = busiest(vec![p("a", 1.0, 1), p("b", 9.0, 1), p("c", 1.0, 5)]);
    let names: Vec<&str> = v.iter().map(|x| x.name.as_str()).collect();
    assert_eq!(names, vec!["b", "c", "a"]);
    let many: Vec<TopProc> = (0..30).map(|i| p("x", i as f64, 0)).collect();
    assert_eq!(busiest(many).len(), 10);
}

#[test]
fn services_by_lines() {
    let names = vec!["a".to_string(), "b".to_string(), "c".to_string()];
    let v = scan_services(&names, &Some(b"active\ninactive\n".to_vec()));
    let active: Vec<bool> = v.iter().map(|s| s.active).collect();
    assert_eq!(active, vec![true, false, false]);
    assert!(scan_services(&names, &None).iter().all(|s| !s.active));
    let odd = scan_services(&names, &Some(b"\xff\nactive\n".to_vec()));
    assert!(!odd[0].active && odd[1].active);
}

#[test]
fn temperature_of_the_processor() {
    let z = |t: &str, k: &str| Zone { temp: Some(t.to_string()), kind: Some(k.to_string()) };
    assert_eq!(
        read_cpu_temp(&[z("30000\n", "acpitz\n"), z("55000\n", "X86_PKG_temp\n")]),
        Some(55000)
    );
    assert_eq!(read_cpu_temp(&[]), None);
}

#[test]
fn disks_by_blocks() {
    let stat = VfsStat { frsize: 4096, blocks: 100, bfree: 25, files: 10, ffree: 4 };
    let v = collect_disks(&[
        MountStat { mount: "/".to_string(), fs: "ext4".to_string(), stat: Some(stat) },
        MountStat { mount: "/x".to_string(), fs: "ext4".to_string(), stat: None },
    ]);
    assert_eq!(v.len(), 1);
    assert_eq!((v[0].total, v[0].used), (409_600, 307_200));
    assert_eq!((v[0].inodes_total, v[0].inodes_used), (10, 6));
}

#[test]
fn host_falls_back() {
    let h = host_info(&HostReadings {
        hostname: Some(" web-1\n".to_string()),
        kernel: None,
        os_release: Some("PRETTY_NAME=\"Debian\"\n".to_string()),
        meminfo: Some("MemTotal: 2 kB\n".to_string()),
        cores: Some(4),
        arch: "x86_64".to_string(),
        agent_version: "0.4.0".to_string(),
    });
    assert_eq!(h.hostname, "web-1");
    assert_eq!(h.os, "Debian");
    assert_eq!(h.cores, 4);
    assert_eq!(h.mem_total, 2048);
}

#[test]
fn docker_answers() {
    assert!(get_request("/containers/json").starts_with("GET /containers/json HTTP/1.1\r\n"));
    let whole = b"HTTP/1.1 200 OK\r\nContent-Length: 2\r\n\r\n[]";
    assert_eq!(after_read(whole), ReadState::Complete);
    assert_eq!(after_read(&whole[..20]), ReadState::More);
    assert!(status_ok(whole) && !status_ok(b"HTTP/1.1 404 Not Found\r\n\r\n"));
    assert!(!status_ok(b"HTTP/1.1 500 2 errors\r\n"));
    assert!(status_ok(b"HTTP/1.1 204\r\n") && status_ok(b"HTTP/1.1 299 x\n"));
    assert!(!status_ok(b"HTTP/1.1 2000 x\n") && !status_ok(b"HTTP/1.1 +20 x\n"));
    assert!(!status_ok(b"HTTP/1.1 300 x\n") && !status_ok(b"HTTP/1.1\n") && !status_ok(b"HTTP/1.1 200"));
    assert_eq!(response_body(whole), Some(b"[]".to_vec()));
    assert_eq!(response_body(b"HTTP/1.1 500 x\r\n\r\n[]"), None);
}

#[test]
fn docker_containers() {
    assert!(valid_container_id(&"a1".repeat(6)) && !valid_container_id("../x"));
    assert_eq!(
        stats_path("0123456789ab").as_deref(),
        Some("/containers/0123456789ab/stats?stream=false")
    );
    assert_eq!(stats_path("../../x"), None);
    let u = stats_for(&ContainerCounters {
        cpu: 300,
        cpu_before: 100,
        system: 2000,
        system_before: 1000,
        online_cpus: 2,
        listed_cpus: 4,
        mem_usage: 100,
        mem_cache: 30,
        mem_limit: 500,
    });
    assert_eq!(u.cpu, Some((200, 1000, 2)));
    assert_eq!((u.mem_used, u.mem_limit), (70, 500));
    assert_eq!(name_container(&["/web".to_string()], "0123456789abcdef"), "web");
    assert_eq!(name_container(&[], "0123456789abcdef"), "0123456789ab");
}

#[test]
fn busiest_containers_are_kept() {
    let c = |i: usize| ContainerStat {
        name: format!("c{i}"),
        state: "running".to_string(),
        cpu_pct: m(i as f64),
        mem_used: 0,
        mem_limit: 0,
    };
    let v = scan_containers(Some(40), (0..40).map(c).collect());
    assert_eq!(v.len(), 30);
    assert!(v.iter().any(|x| x.name == "c39") && !v.iter().any(|x| x.name == "c0"));
    assert_eq!(scan_containers(Some(2), (0..2).map(c).collect()).len(), 2);
    assert!(scan_containers(Some(3), (0..2).map(c).collect()).is_empty());
    assert!(scan_containers(None, Vec::new()).is_empty());
}

#[test]
fn tokens_are_checked() {
    let t = "ab".repeat(32);
    assert_eq!(read_token(&format!(" {t}\n")), Ok(t.clone()));
    assert_eq!(read_token("AB"), Err("token 格式非法(需 64 位小写 hex)"));
    assert!(read_token(&t.to_uppercase()).is_err());
}

#[test]
fn oldest_sample_goes() {
    let mut b: VecDeque<Metrics> = VecDeque::new();
    for i in 0..(MAX_BUFFER as i64 + 5) {
        push_buffered(&mut b, sample(i));
    }
    assert_eq!(b.len(), MAX_BUFFER);
    assert_eq!(b[0].ts, 5);
    assert_eq!(chunk_len(&b), 120);
    drop_sent(&mut b, 120);
    assert_eq!(b.len(), 880);
    assert_eq!(b[0].ts, 125);
    drop_sent(&mut b, 870);
    assert_eq!(chunk_len(&b), 10);
}

#[test]
fn waits_grow_to_a_limit() {
    let mut b = 1;
    let mut seen = vec![];
    for _ in 0..8 {
        seen.push(b);
        b = next_backoff(b);
    }
    assert_eq!(seen, vec![1, 2, 4, 8, 16, 32, 64, 64]);
    assert_eq!(wait_millis(2, 1_000_000_123), 2123);
    assert_eq!(backoff_after(64, true), 1);
    assert_eq!(backoff_after(64, false), 64);
}

#[test]
fn downlink_cannot_ask_for_anything_else() {
    let set = |n: u32| SessionEvent::Downlink(ServerToAgent::UpdateConfig { report_interval_secs: n });
    assert_eq!(session(&set(0), 5), SessionAction::SetInterval { secs: 1 });
    assert_eq!(session(&set(9_000_000), 5), SessionAction::SetInterval { secs: 3600 });
    assert_eq!(session(&set(5), 5), SessionAction::GoOn);
    assert_eq!(
        session(&SessionEvent::Downlink(ServerToAgent::Upgrade), 5),
        SessionAction::Upgrade
    );
    assert_eq!(session(&SessionEvent::Unknown, 5), SessionAction::Note);
    assert_eq!(session(&SessionEvent::SendFailed, 5), SessionAction::KeepAndFail);
    assert_eq!(session(&SessionEvent::Stop, 5), SessionAction::CloseAndEnd);
    assert_eq!(session(&SessionEvent::Gone, 5), SessionAction::Fail);
    assert_eq!(session(&SessionEvent::Close, 5), SessionAction::End);
    assert_eq!(session(&SessionEvent::Tick, 5), SessionAction::Report);
    assert_eq!(session(&SessionEvent::Other, 5), SessionAction::GoOn);
}

#[test]
fn agent_arguments() {
    let args = |v: &[&str]| -> Vec<String> { v.iter().map(|s| s.to_string()).collect() };
    assert!(matches!(read_args(&args(&["-V"]), "d"), Start::Version));
    match read_args(&args(&["--config", "/x.toml"]), "d") {
        Start::Run { config } => assert_eq!(config, "/x.toml"),
        _ => panic!(),
    }
    match read_args(&args(&[]), "/d.toml") {
        Start::Run { config } => assert_eq!(config, "/d.toml"),
        _ => panic!(),
    }
    match read_args(&args(&["--config"]), "d") {
        Start::Refused { why } => assert_eq!(why, "--config 需要参数"),
        _ => panic!(),
    }
    match read_args(&args(&["--evil"]), "d") {
        Start::Refused { why } => assert_eq!(why, "未知参数: --evil"),
        _ => panic!(),
    }
}
