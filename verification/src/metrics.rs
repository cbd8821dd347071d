//! The reports of an agent, and their validation.

use crate::common::{
    clean_str, cleaned, lemma_cleaned, no_controls, MAX_BPS, MAX_BYTES_VALUE, MAX_CONTAINERS,
    MAX_CORES, MAX_DISKS, MAX_HOST_CORES, MAX_INODES, MAX_NETS, MAX_PROCS, MAX_PROC_COUNT,
    MAX_SERVICES, MAX_TCP, MAX_TOP_PROCS, MAX_UPTIME, MAX_WATCH_PROCS,
};
use crate::measure::{
    lemma_bounded, Measure, BITS_0, BITS_100, BITS_100000, BITS_150, BITS_65535, BITS_MINUS_40,
};
use crate::text::views;
use vstd::prelude::*;

verus! {

// ---------------------------------------------------------------------------
// The messages
// ---------------------------------------------------------------------------

/// What a host says of itself when it registers and on every connection.
#[derive(Debug, Clone)]
pub struct HostInfo {
    pub hostname: String,
    pub os: String,
    pub kernel: String,
    pub arch: String,
    pub cores: u32,
    pub mem_total: u64,
    pub agent_version: String,
}

/// The use of one mount point.
#[derive(Debug, Clone)]
pub struct DiskUsage {
    pub mount: String,
    pub fs: String,
    pub total: u64,
    pub used: u64,
    /// All inodes; 0 where the file system has none or does not tell.
    pub inodes_total: u64,
    pub inodes_used: u64,
}

/// The counters and rates of one network interface.
#[derive(Debug, Clone)]
pub struct NetIf {
    pub name: String,
    pub rx_bytes: u64,
    pub tx_bytes: u64,
    pub rx_bps: u64,
    pub tx_bps: u64,
}

/// What became of a watched process. Its name comes from the agent's own configuration.
#[derive(Debug, Clone)]
pub struct ProcInfo {
    pub name: String,
    pub running: bool,
    pub count: u32,
    pub cpu_pct: Measure,
    pub rss: u64,
}

/// The state of a watched service. Its name comes from the agent's own configuration.
#[derive(Debug, Clone)]
pub struct ServiceStatus {
    pub name: String,
    pub active: bool,
}

/// The state of one container.
#[derive(Debug, Clone)]
pub struct ContainerStat {
    pub name: String,
    /// The state as Docker gives it: `running`, `exited`, `paused` and so on.
    pub state: String,
    pub cpu_pct: Measure,
    pub mem_used: u64,
    pub mem_limit: u64,
}

/// One of the busiest processes.
#[derive(Debug, Clone)]
pub struct TopProc {
    pub name: String,
    pub cpu_pct: Measure,
    pub rss: u64,
}

/// Everything that one sample holds.
#[derive(Debug, Clone)]
pub struct Metrics {
    /// The agent's own Unix time. The server checks how far it is off and stores its own time.
    pub ts: i64,
    pub cpu_pct: Measure,
    pub load1: Measure,
    pub load5: Measure,
    pub load15: Measure,
    pub mem_total: u64,
    pub mem_used: u64,
    pub mem_available: u64,
    pub swap_total: u64,
    pub swap_used: u64,
    pub disks: Vec<DiskUsage>,
    pub disk_read_bps: u64,
    pub disk_write_bps: u64,
    pub nets: Vec<NetIf>,
    pub uptime_secs: u64,
    pub procs: u32,
    /// The temperature in degrees Celsius, where there is a sensor.
    pub cpu_temp_c: Option<Measure>,
    pub tcp_conns: Option<u32>,
    pub disk_read_iops: u64,
    pub disk_write_iops: u64,
    pub procs_watch: Vec<ProcInfo>,
    pub cpu_per_core: Vec<Measure>,
    pub services: Vec<ServiceStatus>,
    pub top_procs: Vec<TopProc>,
    pub tcp_estab: Option<u32>,
    pub tcp_listen: Option<u32>,
    pub tcp_time_wait: Option<u32>,
    pub containers: Vec<ContainerStat>,
}

/// What an agent sends.
#[derive(Debug, Clone)]
pub enum AgentToServer {
    /// The first message of a connection.
    Hello { host: HostInfo },
    /// A regular report.
    Metrics { metrics: Metrics },
    /// Reports from a time without connection, each with its own time.
    Backfill { points: Vec<Metrics> },
}

/// What the server sends. No variant carries a command or an argument for one: an interval is a
/// number, and the request to upgrade says nothing but that.
#[derive(Debug, Clone)]
pub enum ServerToAgent {
    /// The interval between reports, in seconds.
    UpdateConfig { report_interval_secs: u32 },
    /// Asks the agent to upgrade itself from the server that it is configured for.
    Upgrade,
}

// ---------------------------------------------------------------------------
// Their views
// ---------------------------------------------------------------------------

/// The view of a [`HostInfo`].
#[verifier::ext_equal]
pub struct HostView {
    pub hostname: Seq<char>,
    pub os: Seq<char>,
    pub kernel: Seq<char>,
    pub arch: Seq<char>,
    pub cores: u32,
    pub mem_total: u64,
    pub agent_version: Seq<char>,
}

impl View for HostInfo {
    type V = HostView;

    open spec fn view(&self) -> HostView {
        HostView {
            hostname: self.hostname@,
            os: self.os@,
            kernel: self.kernel@,
            arch: self.arch@,
            cores: self.cores,
            mem_total: self.mem_total,
            agent_version: self.agent_version@,
        }
    }
}

/// The view of a [`DiskUsage`].
#[verifier::ext_equal]
pub struct DiskView {
    pub mount: Seq<char>,
    pub fs: Seq<char>,
    pub total: u64,
    pub used: u64,
    pub inodes_total: u64,
    pub inodes_used: u64,
}

impl View for DiskUsage {
    type V = DiskView;

    open spec fn view(&self) -> DiskView {
        DiskView {
            mount: self.mount@,
            fs: self.fs@,
            total: self.total,
            used: self.used,
            inodes_total: self.inodes_total,
            inodes_used: self.inodes_used,
        }
    }
}

/// The view of a [`NetIf`].
#[verifier::ext_equal]
pub struct NetView {
    pub name: Seq<char>,
    pub rx_bytes: u64,
    pub tx_bytes: u64,
    pub rx_bps: u64,
    pub tx_bps: u64,
}

impl View for NetIf {
    type V = NetView;

    open spec fn view(&self) -> NetView {
        NetView {
            name: self.name@,
            rx_bytes: self.rx_bytes,
            tx_bytes: self.tx_bytes,
            rx_bps: self.rx_bps,
            tx_bps: self.tx_bps,
        }
    }
}

/// The view of a [`ProcInfo`].
#[verifier::ext_equal]
pub struct ProcView {
    pub name: Seq<char>,
    pub running: bool,
    pub count: u32,
    pub cpu_pct: Measure,
    pub rss: u64,
}

impl View for ProcInfo {
    type V = ProcView;

    open spec fn view(&self) -> ProcView {
        ProcView {
            name: self.name@,
            running: self.running,
            count: self.count,
            cpu_pct: self.cpu_pct,
            rss: self.rss,
        }
    }
}

/// The view of a [`ServiceStatus`].
#[verifier::ext_equal]
pub struct ServiceView {
    pub name: Seq<char>,
    pub active: bool,
}

impl View for ServiceStatus {
    type V = ServiceView;

    open spec fn view(&self) -> ServiceView {
        ServiceView { name: self.name@, active: self.active }
    }
}

/// The view of a [`ContainerStat`].
#[verifier::ext_equal]
pub struct ContainerView {
    pub name: Seq<char>,
    pub state: Seq<char>,
    pub cpu_pct: Measure,
    pub mem_used: u64,
    pub mem_limit: u64,
}

impl View for ContainerStat {
    type V = ContainerView;

    open spec fn view(&self) -> ContainerView {
        ContainerView {
            name: self.name@,
            state: self.state@,
            cpu_pct: self.cpu_pct,
            mem_used: self.mem_used,
            mem_limit: self.mem_limit,
        }
    }
}

/// The view of a [`TopProc`].
#[verifier::ext_equal]
pub struct TopView {
    pub name: Seq<char>,
    pub cpu_pct: Measure,
    pub rss: u64,
}

impl View for TopProc {
    type V = TopView;

    open spec fn view(&self) -> TopView {
        TopView { name: self.name@, cpu_pct: self.cpu_pct, rss: self.rss }
    }
}

/// The view of [`Metrics`].
#[verifier::ext_equal]
pub struct MetricsView {
    pub ts: i64,
    pub cpu_pct: Measure,
    pub load1: Measure,
    pub load5: Measure,
    pub load15: Measure,
    pub mem_total: u64,
    pub mem_used: u64,
    pub mem_available: u64,
    pub swap_total: u64,
    pub swap_used: u64,
    pub disks: Seq<DiskView>,
    pub disk_read_bps: u64,
    pub disk_write_bps: u64,
    pub nets: Seq<NetView>,
    pub uptime_secs: u64,
    pub procs: u32,
    pub cpu_temp_c: Option<Measure>,
    pub tcp_conns: Option<u32>,
    pub disk_read_iops: u64,
    pub disk_write_iops: u64,
    pub procs_watch: Seq<ProcView>,
    pub cpu_per_core: Seq<Measure>,
    pub services: Seq<ServiceView>,
    pub top_procs: Seq<TopView>,
    pub tcp_estab: Option<u32>,
    pub tcp_listen: Option<u32>,
    pub tcp_time_wait: Option<u32>,
    pub containers: Seq<ContainerView>,
}

impl View for Metrics {
    type V = MetricsView;

    open spec fn view(&self) -> MetricsView {
        MetricsView {
            ts: self.ts,
            cpu_pct: self.cpu_pct,
            load1: self.load1,
            load5: self.load5,
            load15: self.load15,
            mem_total: self.mem_total,
            mem_used: self.mem_used,
            mem_available: self.mem_available,
            swap_total: self.swap_total,
            swap_used: self.swap_used,
            disks: views(self.disks@),
            disk_read_bps: self.disk_read_bps,
            disk_write_bps: self.disk_write_bps,
            nets: views(self.nets@),
            uptime_secs: self.uptime_secs,
            procs: self.procs,
            cpu_temp_c: self.cpu_temp_c,
            tcp_conns: self.tcp_conns,
            disk_read_iops: self.disk_read_iops,
            disk_write_iops: self.disk_write_iops,
            procs_watch: views(self.procs_watch@),
            cpu_per_core: self.cpu_per_core@,
            services: views(self.services@),
            top_procs: views(self.top_procs@),
            tcp_estab: self.tcp_estab,
            tcp_listen: self.tcp_listen,
            tcp_time_wait: self.tcp_time_wait,
            containers: views(self.containers@),
        }
    }
}

// ---------------------------------------------------------------------------
// Cleaning, item by item
// ---------------------------------------------------------------------------

/// The smaller of two numbers.
pub open spec fn least(a: u64, b: u64) -> u64 {
    if a <= b {
        a
    } else {
        b
    }
}

/// The smaller of two numbers.
pub fn min_u64(a: u64, b: u64) -> (r: u64)
    ensures
        r == least(a, b),
{
    if a <= b {
        a
    } else {
        b
    }
}

/// The smaller of two numbers.
pub open spec fn least32(a: u32, b: u32) -> u32 {
    if a <= b {
        a
    } else {
        b
    }
}

/// The smaller of two numbers.
pub fn min_u32(a: u32, b: u32) -> (r: u32)
    ensures
        r == least32(a, b),
{
    if a <= b {
        a
    } else {
        b
    }
}

/// The first `n` items of `s`, or all of them where there are fewer.
pub open spec fn first_items<A>(s: Seq<A>, n: int) -> Seq<A> {
    if s.len() <= n {
        s
    } else {
        s.take(n)
    }
}

/// A host's account of itself, cleaned.
pub open spec fn host_cleaned(h: HostView) -> HostView {
    HostView {
        hostname: cleaned(h.hostname, 64),
        os: cleaned(h.os, 96),
        kernel: cleaned(h.kernel, 64),
        arch: cleaned(h.arch, 16),
        cores: least32(h.cores, MAX_HOST_CORES),
        mem_total: least(h.mem_total, MAX_BYTES_VALUE),
        agent_version: cleaned(h.agent_version, 32),
    }
}

/// Cleans a host's account of itself.
pub fn clean_host_info(h: &HostInfo) -> (r: HostInfo)
    ensures
        r@ == host_cleaned(h@),
{
    HostInfo {
        hostname: clean_str(h.hostname.as_str(), 64),
        os: clean_str(h.os.as_str(), 96),
        kernel: clean_str(h.kernel.as_str(), 64),
        arch: clean_str(h.arch.as_str(), 16),
        cores: min_u32(h.cores, MAX_HOST_CORES),
        mem_total: min_u64(h.mem_total, MAX_BYTES_VALUE),
        agent_version: clean_str(h.agent_version.as_str(), 32),
    }
}

/// A mount point, cleaned: no more used than there is.
pub open spec fn disk_cleaned(d: DiskView) -> DiskView {
    DiskView {
        mount: cleaned(d.mount, 128),
        fs: cleaned(d.fs, 32),
        total: d.total,
        used: least(d.used, d.total),
        inodes_total: least(d.inodes_total, MAX_INODES),
        inodes_used: least(d.inodes_used, least(d.inodes_total, MAX_INODES)),
    }
}

/// A network interface, cleaned.
pub open spec fn net_cleaned(n: NetView) -> NetView {
    NetView { name: cleaned(n.name, 32), ..n }
}

/// A watched process, cleaned.
pub open spec fn proc_cleaned(p: ProcView) -> ProcView {
    ProcView {
        name: cleaned(p.name, 32),
        running: p.running,
        count: least32(p.count, MAX_PROC_COUNT),
        cpu_pct: p.cpu_pct.bounded(BITS_100),
        rss: least(p.rss, MAX_BYTES_VALUE),
    }
}

/// A watched service, cleaned.
pub open spec fn service_cleaned(s: ServiceView) -> ServiceView {
    ServiceView { name: cleaned(s.name, 64), active: s.active }
}

/// A busy process, cleaned.
pub open spec fn top_cleaned(p: TopView) -> TopView {
    TopView {
        name: cleaned(p.name, 32),
        cpu_pct: p.cpu_pct.bounded(BITS_100),
        rss: least(p.rss, MAX_BYTES_VALUE),
    }
}

/// A container, cleaned.
pub open spec fn container_cleaned(c: ContainerView) -> ContainerView {
    ContainerView {
        name: cleaned(c.name, 64),
        state: cleaned(c.state, 32),
        cpu_pct: c.cpu_pct.bounded(BITS_100000),
        mem_used: least(c.mem_used, MAX_BYTES_VALUE),
        mem_limit: least(c.mem_limit, MAX_BYTES_VALUE),
    }
}

/// A temperature, dropped where it is no number or lies outside -40 to 150 degrees.
pub open spec fn temp_cleaned(t: Option<Measure>) -> Option<Measure> {
    match t {
        Some(v) => if v.finite() && (Measure { bits: BITS_MINUS_40 }).rank() <= v.rank()
            && v.rank() <= (Measure { bits: BITS_150 }).rank() {
            Some(v)
        } else {
            None
        },
        None => None,
    }
}

/// A number of TCP connections, dropped where it is out of range.
pub open spec fn tcp_cleaned(t: Option<u32>) -> Option<u32> {
    match t {
        Some(v) => if v <= MAX_TCP {
            Some(v)
        } else {
            None
        },
        None => None,
    }
}

// ---------------------------------------------------------------------------
// Cleaning, list by list
// ---------------------------------------------------------------------------

/// Mount points, cleaned.
pub open spec fn disks_cleaned(s: Seq<DiskView>) -> Seq<DiskView> {
    Seq::new(s.len(), |i: int| disk_cleaned(s[i]))
}

/// Network interfaces, cleaned.
pub open spec fn nets_cleaned(s: Seq<NetView>) -> Seq<NetView> {
    Seq::new(s.len(), |i: int| net_cleaned(s[i]))
}

/// Watched processes, cleaned.
pub open spec fn procs_cleaned(s: Seq<ProcView>) -> Seq<ProcView> {
    Seq::new(s.len(), |i: int| proc_cleaned(s[i]))
}

/// The loads of the cores, cleaned.
pub open spec fn cores_cleaned(s: Seq<Measure>) -> Seq<Measure> {
    Seq::new(s.len(), |i: int| s[i].bounded(BITS_100))
}

/// Watched services, cleaned.
pub open spec fn services_cleaned(s: Seq<ServiceView>) -> Seq<ServiceView> {
    Seq::new(s.len(), |i: int| service_cleaned(s[i]))
}

/// Busy processes, cleaned.
pub open spec fn tops_cleaned(s: Seq<TopView>) -> Seq<TopView> {
    Seq::new(s.len(), |i: int| top_cleaned(s[i]))
}

/// Containers, cleaned.
pub open spec fn containers_cleaned(s: Seq<ContainerView>) -> Seq<ContainerView> {
    Seq::new(s.len(), |i: int| container_cleaned(s[i]))
}

/// The position of the first mount point that is larger than any disk can be, or the number of
/// mount points.
pub open spec fn first_bad_disk(s: Seq<DiskView>) -> int
    decreases s.len(),
{
    if s.len() == 0 || s[0].total > MAX_BYTES_VALUE {
        0
    } else {
        1 + first_bad_disk(s.drop_first())
    }
}

/// A rate of the interface is higher than any rate can be.
pub open spec fn bad_net(n: NetView) -> bool {
    n.rx_bps > MAX_BPS || n.tx_bps > MAX_BPS
}

/// The position of the first interface with an impossible rate, or the number of interfaces.
pub open spec fn first_bad_net(s: Seq<NetView>) -> int
    decreases s.len(),
{
    if s.len() == 0 || bad_net(s[0]) {
        0
    } else {
        1 + first_bad_net(s.drop_first())
    }
}

proof fn lemma_first_bad_disk(s: Seq<DiskView>, k: int)
    requires
        0 <= k <= s.len(),
        forall|i: int| 0 <= i < k ==> (#[trigger] s[i]).total <= MAX_BYTES_VALUE,
        k < s.len() ==> s[k].total > MAX_BYTES_VALUE,
    ensures
        first_bad_disk(s) == k,
    decreases s.len(),
{
    if k > 0 {
        assert(s[0].total <= MAX_BYTES_VALUE);
        assert forall|i: int| 0 <= i < k - 1 implies (#[trigger] s.drop_first()[i]).total
            <= MAX_BYTES_VALUE by {
            assert(s.drop_first()[i] == s[i + 1]);
        }
        lemma_first_bad_disk(s.drop_first(), k - 1);
    }
}

proof fn lemma_first_bad_net(s: Seq<NetView>, k: int)
    requires
        0 <= k <= s.len(),
        forall|i: int| 0 <= i < k ==> !bad_net(#[trigger] s[i]),
        k < s.len() ==> bad_net(s[k]),
    ensures
        first_bad_net(s) == k,
    decreases s.len(),
{
    if k > 0 {
        assert(!bad_net(s[0]));
        assert forall|i: int| 0 <= i < k - 1 implies !bad_net(#[trigger] s.drop_first()[i]) by {
            assert(s.drop_first()[i] == s[i + 1]);
        }
        lemma_first_bad_net(s.drop_first(), k - 1);
    }
}

/// What the cleaning leaves of mount points that it stopped at: those before the impossible one
/// cleaned, that one with its texts cleaned, the others untouched.
pub open spec fn disks_left(s: Seq<DiskView>) -> Seq<DiskView> {
    let k = first_bad_disk(s);
    Seq::new(
        s.len(),
        |i: int|
            if i < k {
                disk_cleaned(s[i])
            } else if i == k {
                DiskView { mount: cleaned(s[i].mount, 128), fs: cleaned(s[i].fs, 32), ..s[i] }
            } else {
                s[i]
            },
    )
}

/// What the cleaning leaves of interfaces that it stopped at.
pub open spec fn nets_left(s: Seq<NetView>) -> Seq<NetView> {
    let k = first_bad_net(s);
    Seq::new(
        s.len(),
        |i: int|
            if i <= k {
                net_cleaned(s[i])
            } else {
                s[i]
            },
    )
}

fn clean_disks(disks: &mut Vec<DiskUsage>) -> (ok: bool)
    ensures
        ok == (first_bad_disk(views(old(disks)@)) == old(disks)@.len()),
        ok ==> views(final(disks)@) == disks_cleaned(views(old(disks)@)),
        !ok ==> views(final(disks)@) == disks_left(views(old(disks)@)),
{
    let ghost s = views(disks@);
    let mut i: usize = 0;
    while i < disks.len()
        invariant
            s == views(old(disks)@),
            i <= disks@.len(),
            disks@.len() == s.len(),
            forall|j: int| #![trigger disks@[j]] 0 <= j < i ==> disks@[j]@ == disk_cleaned(s[j]),
            forall|j: int| #![trigger disks@[j]] i <= j < s.len() ==> disks@[j]@ == s[j],
            forall|j: int| 0 <= j < i ==> (#[trigger] s[j]).total <= MAX_BYTES_VALUE,
        decreases disks@.len() - i,
    {
        let ghost before = disks@;
        let d = &mut disks[i];
        d.mount = clean_str(d.mount.as_str(), 128);
        d.fs = clean_str(d.fs.as_str(), 32);
        if d.total > MAX_BYTES_VALUE {
            proof {
                assert(before[i as int]@ == s[i as int]);
                lemma_first_bad_disk(s, i as int);
                assert(views(disks@) =~= disks_left(s));
            }
            return false;
        }
        d.used = min_u64(d.used, d.total);
        d.inodes_total = min_u64(d.inodes_total, MAX_INODES);
        d.inodes_used = min_u64(d.inodes_used, d.inodes_total);
        assert(before[i as int]@ == s[i as int]);
        i = i + 1;
    }
    proof {
        lemma_first_bad_disk(s, s.len() as int);
        assert(views(disks@) =~= disks_cleaned(s));
    }
    true
}


fn clean_nets(nets: &mut Vec<NetIf>) -> (ok: bool)
    ensures
        ok == (first_bad_net(views(old(nets)@)) == old(nets)@.len()),
        ok ==> views(final(nets)@) == nets_cleaned(views(old(nets)@)),
        !ok ==> views(final(nets)@) == nets_left(views(old(nets)@)),
{
    let ghost s = views(nets@);
    let mut i: usize = 0;
    while i < nets.len()
        invariant
            s == views(old(nets)@),
            i <= nets@.len(),
            nets@.len() == s.len(),
            forall|j: int| #![trigger nets@[j]] 0 <= j < i ==> nets@[j]@ == net_cleaned(s[j]),
            forall|j: int| #![trigger nets@[j]] i <= j < s.len() ==> nets@[j]@ == s[j],
            forall|j: int| 0 <= j < i ==> !bad_net(#[trigger] s[j]),
        decreases nets@.len() - i,
    {
        let ghost before = nets@;
        let n = &mut nets[i];
        n.name = clean_str(n.name.as_str(), 32);
        if n.rx_bps > MAX_BPS || n.tx_bps > MAX_BPS {
            proof {
                assert(before[i as int]@ == s[i as int]);
                lemma_first_bad_net(s, i as int);
                assert(views(nets@) =~= nets_left(s));
            }
            return false;
        }
        assert(before[i as int]@ == s[i as int]);
        i = i + 1;
    }
    proof {
        lemma_first_bad_net(s, s.len() as int);
        assert(views(nets@) =~= nets_cleaned(s));
    }
    true
}

fn clean_procs(procs: &mut Vec<ProcInfo>)
    ensures
        views(final(procs)@) == procs_cleaned(views(old(procs)@)),
{
    let ghost s = views(procs@);
    let mut i: usize = 0;
    while i < procs.len()
        invariant
            s == views(old(procs)@),
            i <= procs@.len(),
            procs@.len() == s.len(),
            forall|j: int| #![trigger procs@[j]] 0 <= j < i ==> procs@[j]@ == proc_cleaned(s[j]),
            forall|j: int| #![trigger procs@[j]] i <= j < s.len() ==> procs@[j]@ == s[j],
        decreases procs@.len() - i,
    {
        let ghost before = procs@;
        let p = &mut procs[i];
        p.name = clean_str(p.name.as_str(), 32);
        p.cpu_pct = p.cpu_pct.bound(BITS_100);
        p.rss = min_u64(p.rss, MAX_BYTES_VALUE);
        p.count = min_u32(p.count, MAX_PROC_COUNT);
        assert(before[i as int]@ == s[i as int]);
        i = i + 1;
    }
    assert(views(procs@) =~= procs_cleaned(s));
}

fn clean_cores(cores: &mut Vec<Measure>)
    ensures
        final(cores)@ == cores_cleaned(old(cores)@),
{
    let ghost s = cores@;
    let mut i: usize = 0;
    while i < cores.len()
        invariant
            s == old(cores)@,
            i <= cores@.len(),
            cores@.len() == s.len(),
            forall|j: int| #![trigger cores@[j]] 0 <= j < i ==> cores@[j] == s[j].bounded(BITS_100),
            forall|j: int| #![trigger cores@[j]] i <= j < s.len() ==> cores@[j] == s[j],
        decreases cores@.len() - i,
    {
        cores[i] = cores[i].bound(BITS_100);
        i = i + 1;
    }
    assert(cores@ =~= cores_cleaned(s));
}

fn clean_services(services: &mut Vec<ServiceStatus>)
    ensures
        views(final(services)@) == services_cleaned(views(old(services)@)),
{
    let ghost s = views(services@);
    let mut i: usize = 0;
    while i < services.len()
        invariant
            s == views(old(services)@),
            i <= services@.len(),
            services@.len() == s.len(),
            forall|j: int|
                #![trigger services@[j]]
                0 <= j < i ==> services@[j]@ == service_cleaned(s[j]),
            forall|j: int| #![trigger services@[j]] i <= j < s.len() ==> services@[j]@ == s[j],
        decreases services@.len() - i,
    {
        let ghost before = services@;
        let v = &mut services[i];
        v.name = clean_str(v.name.as_str(), 64);
        assert(before[i as int]@ == s[i as int]);
        i = i + 1;
    }
    assert(views(services@) =~= services_cleaned(s));
}

fn clean_tops(tops: &mut Vec<TopProc>)
    ensures
        views(final(tops)@) == tops_cleaned(views(old(tops)@)),
{
    let ghost s = views(tops@);
    let mut i: usize = 0;
    while i < tops.len()
        invariant
            s == views(old(tops)@),
            i <= tops@.len(),
            tops@.len() == s.len(),
            forall|j: int| #![trigger tops@[j]] 0 <= j < i ==> tops@[j]@ == top_cleaned(s[j]),
            forall|j: int| #![trigger tops@[j]] i <= j < s.len() ==> tops@[j]@ == s[j],
        decreases tops@.len() - i,
    {
        let ghost before = tops@;
        let p = &mut tops[i];
        p.name = clean_str(p.name.as_str(), 32);
        p.cpu_pct = p.cpu_pct.bound(BITS_100);
        p.rss = min_u64(p.rss, MAX_BYTES_VALUE);
        assert(before[i as int]@ == s[i as int]);
        i = i + 1;
    }
    assert(views(tops@) =~= tops_cleaned(s));
}

fn clean_containers(list: &mut Vec<ContainerStat>)
    ensures
        views(final(list)@) == containers_cleaned(views(old(list)@)),
{
    let ghost s = views(list@);
    let mut i: usize = 0;
    while i < list.len()
        invariant
            s == views(old(list)@),
            i <= list@.len(),
            list@.len() == s.len(),
            forall|j: int| #![trigger list@[j]] 0 <= j < i ==> list@[j]@ == container_cleaned(s[j]),
            forall|j: int| #![trigger list@[j]] i <= j < s.len() ==> list@[j]@ == s[j],
        decreases list@.len() - i,
    {
        let ghost before = list@;
        let c = &mut list[i];
        c.name = clean_str(c.name.as_str(), 64);
        c.state = clean_str(c.state.as_str(), 32);
        c.cpu_pct = c.cpu_pct.bound(BITS_100000);
        c.mem_used = min_u64(c.mem_used, MAX_BYTES_VALUE);
        c.mem_limit = min_u64(c.mem_limit, MAX_BYTES_VALUE);
        assert(before[i as int]@ == s[i as int]);
        i = i + 1;
    }
    assert(views(list@) =~= containers_cleaned(s));
}

fn clean_tcp(t: Option<u32>) -> (r: Option<u32>)
    ensures
        r == tcp_cleaned(t),
{
    match t {
        Some(v) => if v > MAX_TCP {
            None
        } else {
            Some(v)
        },
        None => None,
    }
}

fn clean_temp(t: Option<Measure>) -> (r: Option<Measure>)
    ensures
        r == temp_cleaned(t),
{
    match t {
        Some(v) => {
            let low = Measure { bits: BITS_MINUS_40 };
            let high = Measure { bits: BITS_150 };
            if v.is_finite() && low.le(v) && v.le(high) {
                Some(v)
            } else {
                None
            }
        },
        None => None,
    }
}

// ---------------------------------------------------------------------------
// Cleaning a report
// ---------------------------------------------------------------------------

/// The number with the bits `hi`, as the upper end of an interval that begins at 0.
pub open spec fn upto(v: Measure, hi: u64) -> Measure {
    v.clamped(Measure { bits: BITS_0 }, Measure { bits: hi })
}

/// The four loads are numbers.
pub open spec fn loads_finite(v: MetricsView) -> bool {
    v.cpu_pct.finite() && v.load1.finite() && v.load5.finite() && v.load15.finite()
}

/// The sizes of the memory are possible.
pub open spec fn memory_possible(v: MetricsView) -> bool {
    v.mem_total <= MAX_BYTES_VALUE && v.swap_total <= MAX_BYTES_VALUE
}

/// The rates of the disks, the uptime and the number of processes are possible.
pub open spec fn counters_possible(v: MetricsView) -> bool {
    v.disk_read_bps <= MAX_BPS && v.disk_write_bps <= MAX_BPS && v.uptime_secs <= MAX_UPTIME
        && v.procs <= MAX_PROCS
}

/// The mount points that a report keeps are possible.
pub open spec fn disks_possible(v: MetricsView) -> bool {
    let s = first_items(v.disks, MAX_DISKS as int);
    forall|i: int| 0 <= i < s.len() ==> (#[trigger] s[i]).total <= MAX_BYTES_VALUE
}

/// The interfaces that a report keeps are possible.
pub open spec fn nets_possible(v: MetricsView) -> bool {
    let s = first_items(v.nets, MAX_NETS as int);
    forall|i: int| 0 <= i < s.len() ==> !bad_net(#[trigger] s[i])
}

/// The numbers of operations per second are possible.
pub open spec fn iops_possible(v: MetricsView) -> bool {
    v.disk_read_iops <= MAX_BPS && v.disk_write_iops <= MAX_BPS
}

/// A report that is accepted.
pub open spec fn admissible(v: MetricsView) -> bool {
    loads_finite(v) && memory_possible(v) && counters_possible(v) && disks_possible(v)
        && nets_possible(v) && iops_possible(v)
}

/// Why a report that is not admissible is refused: the first of its faults.
pub open spec fn fault(v: MetricsView) -> Seq<char> {
    if !loads_finite(v) {
        "non-finite float"@
    } else if !memory_possible(v) {
        "memory size out of range"@
    } else if !counters_possible(v) {
        "counter out of range"@
    } else if !disks_possible(v) {
        "disk size out of range"@
    } else if !nets_possible(v) {
        "net rate out of range"@
    } else {
        "iops out of range"@
    }
}

/// A report with its loads clamped.
pub open spec fn with_loads(v: MetricsView) -> MetricsView {
    MetricsView {
        cpu_pct: upto(v.cpu_pct, BITS_100),
        load1: upto(v.load1, BITS_65535),
        load5: upto(v.load5, BITS_65535),
        load15: upto(v.load15, BITS_65535),
        ..v
    }
}

/// A report with no more memory used than there is.
pub open spec fn with_memory(v: MetricsView) -> MetricsView {
    MetricsView {
        mem_used: least(v.mem_used, v.mem_total),
        mem_available: least(v.mem_available, v.mem_total),
        swap_used: least(v.swap_used, v.swap_total),
        ..v
    }
}

/// A report with its mount points cut and cleaned.
pub open spec fn with_disks(v: MetricsView) -> MetricsView {
    MetricsView { disks: disks_cleaned(first_items(v.disks, MAX_DISKS as int)), ..v }
}

/// A report with its interfaces cut and cleaned.
pub open spec fn with_nets(v: MetricsView) -> MetricsView {
    MetricsView { nets: nets_cleaned(first_items(v.nets, MAX_NETS as int)), ..v }
}

/// A report without an impossible temperature or number of connections.
pub open spec fn with_sensors(v: MetricsView) -> MetricsView {
    MetricsView {
        cpu_temp_c: temp_cleaned(v.cpu_temp_c),
        tcp_conns: tcp_cleaned(v.tcp_conns),
        ..v
    }
}

/// An admissible report, cleaned: numbers in range, lists cut, texts cleaned.
pub open spec fn metrics_cleaned(v: MetricsView) -> MetricsView {
    MetricsView {
        ts: v.ts,
        cpu_pct: upto(v.cpu_pct, BITS_100),
        load1: upto(v.load1, BITS_65535),
        load5: upto(v.load5, BITS_65535),
        load15: upto(v.load15, BITS_65535),
        mem_total: v.mem_total,
        mem_used: least(v.mem_used, v.mem_total),
        mem_available: least(v.mem_available, v.mem_total),
        swap_total: v.swap_total,
        swap_used: least(v.swap_used, v.swap_total),
        disks: disks_cleaned(first_items(v.disks, MAX_DISKS as int)),
        disk_read_bps: v.disk_read_bps,
        disk_write_bps: v.disk_write_bps,
        nets: nets_cleaned(first_items(v.nets, MAX_NETS as int)),
        uptime_secs: v.uptime_secs,
        procs: v.procs,
        cpu_temp_c: temp_cleaned(v.cpu_temp_c),
        tcp_conns: tcp_cleaned(v.tcp_conns),
        disk_read_iops: v.disk_read_iops,
        disk_write_iops: v.disk_write_iops,
        procs_watch: procs_cleaned(first_items(v.procs_watch, MAX_WATCH_PROCS as int)),
        cpu_per_core: cores_cleaned(first_items(v.cpu_per_core, MAX_CORES as int)),
        services: services_cleaned(first_items(v.services, MAX_SERVICES as int)),
        top_procs: tops_cleaned(first_items(v.top_procs, MAX_TOP_PROCS as int)),
        tcp_estab: tcp_cleaned(v.tcp_estab),
        tcp_listen: tcp_cleaned(v.tcp_listen),
        tcp_time_wait: tcp_cleaned(v.tcp_time_wait),
        containers: containers_cleaned(first_items(v.containers, MAX_CONTAINERS as int)),
    }
}

/// What is left in place of a report that is refused: what was cleaned before its first fault
/// was met stays cleaned.
pub open spec fn left_behind(v: MetricsView) -> MetricsView {
    if !v.cpu_pct.finite() {
        v
    } else if !v.load1.finite() {
        MetricsView { cpu_pct: upto(v.cpu_pct, BITS_100), ..v }
    } else if !v.load5.finite() {
        MetricsView {
            cpu_pct: upto(v.cpu_pct, BITS_100),
            load1: upto(v.load1, BITS_65535),
            ..v
        }
    } else if !v.load15.finite() {
        MetricsView {
            cpu_pct: upto(v.cpu_pct, BITS_100),
            load1: upto(v.load1, BITS_65535),
            load5: upto(v.load5, BITS_65535),
            ..v
        }
    } else if !memory_possible(v) {
        with_loads(v)
    } else if !counters_possible(v) {
        with_memory(with_loads(v))
    } else if !disks_possible(v) {
        MetricsView {
            disks: disks_left(first_items(v.disks, MAX_DISKS as int)),
            ..with_memory(with_loads(v))
        }
    } else if !nets_possible(v) {
        MetricsView {
            nets: nets_left(first_items(v.nets, MAX_NETS as int)),
            ..with_disks(with_memory(with_loads(v)))
        }
    } else {
        with_sensors(with_nets(with_disks(with_memory(with_loads(v)))))
    }
}

fn clamp_f(v: Measure, hi: u64) -> (r: Result<Measure, &'static str>)
    ensures
        r is Ok <==> v.finite(),
        r matches Ok(x) ==> x == upto(v, hi),
        r matches Err(e) ==> e@ == "non-finite float"@,
{
    if !v.is_finite() {
        return Err("non-finite float");
    }
    Ok(v.clamp(Measure { bits: BITS_0 }, Measure { bits: hi }))
}

proof fn lemma_cut<A: View>(s: Seq<A>, t: Seq<A>, n: int)
    requires
        n >= 0,
        t == first_items(s, n),
    ensures
        views(t) == first_items(views(s), n),
{
    assert(views(t) =~= first_items(views(s), n));
}

fn cut<A>(v: &mut Vec<A>, n: usize)
    ensures
        final(v)@ == first_items(old(v)@, n as int),
{
    v.truncate(n);
}

fn clean_loads(m: &mut Metrics) -> (r: Result<(), &'static str>)
    ensures
        r is Ok <==> loads_finite(old(m)@),
        r is Ok ==> final(m)@ == with_loads(old(m)@),
        r matches Err(e) ==> e@ == "non-finite float"@ && final(m)@ == left_behind(old(m)@),
{
    match clamp_f(m.cpu_pct, BITS_100) {
        Ok(x) => {
            m.cpu_pct = x;
        },
        Err(e) => {
            return Err(e);
        },
    }
    match clamp_f(m.load1, BITS_65535) {
        Ok(x) => {
            m.load1 = x;
        },
        Err(e) => {
            return Err(e);
        },
    }
    match clamp_f(m.load5, BITS_65535) {
        Ok(x) => {
            m.load5 = x;
        },
        Err(e) => {
            return Err(e);
        },
    }
    match clamp_f(m.load15, BITS_65535) {
        Ok(x) => {
            m.load15 = x;
        },
        Err(e) => {
            return Err(e);
        },
    }
    Ok(())
}

proof fn lemma_disks_possible(v: MetricsView)
    ensures
        disks_possible(v) <==> first_bad_disk(first_items(v.disks, MAX_DISKS as int))
            == first_items(v.disks, MAX_DISKS as int).len(),
{
    let s = first_items(v.disks, MAX_DISKS as int);
    lemma_bad_disk_bounds(s);
    if disks_possible(v) {
        lemma_first_bad_disk(s, s.len() as int);
    }
}

proof fn lemma_bad_disk_bounds(s: Seq<DiskView>)
    ensures
        0 <= first_bad_disk(s) <= s.len(),
        forall|i: int| 0 <= i < first_bad_disk(s) ==> (#[trigger] s[i]).total <= MAX_BYTES_VALUE,
        first_bad_disk(s) < s.len() ==> s[first_bad_disk(s)].total > MAX_BYTES_VALUE,
    decreases s.len(),
{
    if s.len() > 0 && s[0].total <= MAX_BYTES_VALUE {
        lemma_bad_disk_bounds(s.drop_first());
        assert forall|i: int| 0 <= i < first_bad_disk(s) implies (#[trigger] s[i]).total
            <= MAX_BYTES_VALUE by {
            if i > 0 {
                assert(s.drop_first()[i - 1] == s[i]);
            }
        }
    }
}

proof fn lemma_nets_possible(v: MetricsView)
    ensures
        nets_possible(v) <==> first_bad_net(first_items(v.nets, MAX_NETS as int)) == first_items(
            v.nets,
            MAX_NETS as int,
        ).len(),
{
    let s = first_items(v.nets, MAX_NETS as int);
    lemma_bad_net_bounds(s);
    if nets_possible(v) {
        lemma_first_bad_net(s, s.len() as int);
    }
}

proof fn lemma_bad_net_bounds(s: Seq<NetView>)
    ensures
        0 <= first_bad_net(s) <= s.len(),
        forall|i: int| 0 <= i < first_bad_net(s) ==> !bad_net(#[trigger] s[i]),
        first_bad_net(s) < s.len() ==> bad_net(s[first_bad_net(s)]),
    decreases s.len(),
{
    if s.len() > 0 && !bad_net(s[0]) {
        lemma_bad_net_bounds(s.drop_first());
        assert forall|i: int| 0 <= i < first_bad_net(s) implies !bad_net(#[trigger] s[i]) by {
            if i > 0 {
                assert(s.drop_first()[i - 1] == s[i]);
            }
        }
    }
}

/// Validates a report and cleans it in place.
///
/// A report with an impossible number is refused. Otherwise texts are cleaned, lists cut to
/// their limits, and numbers that contradict each other brought into line.
pub fn validate_and_clean_metrics(m: &mut Metrics) -> (r: Result<(), &'static str>)
    ensures
        r is Ok <==> admissible(old(m)@),
        r is Ok ==> final(m)@ == metrics_cleaned(old(m)@),
        r matches Err(e) ==> e@ == fault(old(m)@) && final(m)@ == left_behind(old(m)@),
{
    let ghost v = m@;
    match clean_loads(m) {
        Ok(()) => {},
        Err(e) => {
            return Err(e);
        },
    }
    if m.mem_total > MAX_BYTES_VALUE || m.swap_total > MAX_BYTES_VALUE {
        return Err("memory size out of range");
    }
    m.mem_used = min_u64(m.mem_used, m.mem_total);
    m.mem_available = min_u64(m.mem_available, m.mem_total);
    m.swap_used = min_u64(m.swap_used, m.swap_total);
    if m.disk_read_bps > MAX_BPS || m.disk_write_bps > MAX_BPS || m.uptime_secs > MAX_UPTIME
        || m.procs > MAX_PROCS {
        return Err("counter out of range");
    }
    assert(m@ =~= with_memory(with_loads(v)));
    let ghost disks = m.disks@;
    cut(&mut m.disks, MAX_DISKS);
    proof {
        lemma_cut(disks, m.disks@, MAX_DISKS as int);
        lemma_disks_possible(v);
    }
    if !clean_disks(&mut m.disks) {
        assert(m@ =~= left_behind(v));
        return Err("disk size out of range");
    }
    assert(m@ =~= with_disks(with_memory(with_loads(v))));
    let ghost nets = m.nets@;
    cut(&mut m.nets, MAX_NETS);
    proof {
        lemma_cut(nets, m.nets@, MAX_NETS as int);
        lemma_nets_possible(v);
    }
    if !clean_nets(&mut m.nets) {
        assert(m@ =~= left_behind(v));
        return Err("net rate out of range");
    }
    m.cpu_temp_c = clean_temp(m.cpu_temp_c);
    m.tcp_conns = clean_tcp(m.tcp_conns);
    assert(m@ =~= with_sensors(with_nets(with_disks(with_memory(with_loads(v))))));
    if m.disk_read_iops > MAX_BPS || m.disk_write_iops > MAX_BPS {
        return Err("iops out of range");
    }
    clean_extras(m);
    assert(m@ =~= metrics_cleaned(v));
    Ok(())
}

fn clean_extras(m: &mut Metrics)
    ensures
        final(m)@ == (MetricsView {
            procs_watch: procs_cleaned(first_items(old(m)@.procs_watch, MAX_WATCH_PROCS as int)),
            cpu_per_core: cores_cleaned(first_items(old(m)@.cpu_per_core, MAX_CORES as int)),
            services: services_cleaned(first_items(old(m)@.services, MAX_SERVICES as int)),
            top_procs: tops_cleaned(first_items(old(m)@.top_procs, MAX_TOP_PROCS as int)),
            tcp_estab: tcp_cleaned(old(m)@.tcp_estab),
            tcp_listen: tcp_cleaned(old(m)@.tcp_listen),
            tcp_time_wait: tcp_cleaned(old(m)@.tcp_time_wait),
            containers: containers_cleaned(first_items(old(m)@.containers, MAX_CONTAINERS as int)),
            ..old(m)@
        }),
{
    let ghost procs = m.procs_watch@;
    cut(&mut m.procs_watch, MAX_WATCH_PROCS);
    proof {
        lemma_cut(procs, m.procs_watch@, MAX_WATCH_PROCS as int);
    }
    clean_procs(&mut m.procs_watch);
    cut(&mut m.cpu_per_core, MAX_CORES);
    clean_cores(&mut m.cpu_per_core);
    let ghost services = m.services@;
    cut(&mut m.services, MAX_SERVICES);
    proof {
        lemma_cut(services, m.services@, MAX_SERVICES as int);
    }
    clean_services(&mut m.services);
    let ghost tops = m.top_procs@;
    cut(&mut m.top_procs, MAX_TOP_PROCS);
    proof {
        lemma_cut(tops, m.top_procs@, MAX_TOP_PROCS as int);
    }
    clean_tops(&mut m.top_procs);
    m.tcp_estab = clean_tcp(m.tcp_estab);
    m.tcp_listen = clean_tcp(m.tcp_listen);
    m.tcp_time_wait = clean_tcp(m.tcp_time_wait);
    let ghost containers = m.containers@;
    cut(&mut m.containers, MAX_CONTAINERS);
    proof {
        lemma_cut(containers, m.containers@, MAX_CONTAINERS as int);
    }
    clean_containers(&mut m.containers);
}

// ---------------------------------------------------------------------------
// What holds of every report that was cleaned
// ---------------------------------------------------------------------------

/// `s` is fit for storage: no control characters, at most `max` characters.
pub open spec fn tidy(s: Seq<char>, max: nat) -> bool {
    no_controls(s) && s.len() <= max
}

/// `v` is a number from 0 to the number with the bits `hi`.
pub open spec fn within(v: Measure, hi: u64) -> bool {
    v.finite() && 0 <= v.rank() <= (Measure { bits: hi }).rank()
}

/// `t` is absent or at most the largest number of connections.
pub open spec fn tcp_within(t: Option<u32>) -> bool {
    t matches Some(v) ==> v <= MAX_TCP
}

/// Every number of the report is in its range, every list within its limit, every text tidy.
pub open spec fn in_bounds(v: MetricsView) -> bool {
    &&& within(v.cpu_pct, BITS_100)
    &&& within(v.load1, BITS_65535)
    &&& within(v.load5, BITS_65535)
    &&& within(v.load15, BITS_65535)
    &&& v.mem_used <= v.mem_total <= MAX_BYTES_VALUE
    &&& v.mem_available <= v.mem_total
    &&& v.swap_used <= v.swap_total <= MAX_BYTES_VALUE
    &&& counters_possible(v)
    &&& iops_possible(v)
    &&& v.disks.len() <= MAX_DISKS
    &&& forall|i: int|
        0 <= i < v.disks.len() ==> {
            let d = #[trigger] v.disks[i];
            tidy(d.mount, 128) && tidy(d.fs, 32) && d.used <= d.total <= MAX_BYTES_VALUE
                && d.inodes_used <= d.inodes_total <= MAX_INODES
        }
    &&& v.nets.len() <= MAX_NETS
    &&& forall|i: int|
        0 <= i < v.nets.len() ==> {
            let n = #[trigger] v.nets[i];
            tidy(n.name, 32) && !bad_net(n)
        }
    &&& v.cpu_temp_c == temp_cleaned(v.cpu_temp_c)
    &&& tcp_within(v.tcp_conns) && tcp_within(v.tcp_estab) && tcp_within(v.tcp_listen)
        && tcp_within(v.tcp_time_wait)
    &&& v.procs_watch.len() <= MAX_WATCH_PROCS
    &&& forall|i: int|
        0 <= i < v.procs_watch.len() ==> {
            let p = #[trigger] v.procs_watch[i];
            tidy(p.name, 32) && within(p.cpu_pct, BITS_100) && p.rss <= MAX_BYTES_VALUE && p.count
                <= MAX_PROC_COUNT
        }
    &&& v.cpu_per_core.len() <= MAX_CORES
    &&& forall|i: int|
        0 <= i < v.cpu_per_core.len() ==> within(#[trigger] v.cpu_per_core[i], BITS_100)
    &&& v.services.len() <= MAX_SERVICES
    &&& forall|i: int| 0 <= i < v.services.len() ==> tidy((#[trigger] v.services[i]).name, 64)
    &&& v.top_procs.len() <= MAX_TOP_PROCS
    &&& forall|i: int|
        0 <= i < v.top_procs.len() ==> {
            let p = #[trigger] v.top_procs[i];
            tidy(p.name, 32) && within(p.cpu_pct, BITS_100) && p.rss <= MAX_BYTES_VALUE
        }
    &&& v.containers.len() <= MAX_CONTAINERS
    &&& forall|i: int|
        0 <= i < v.containers.len() ==> {
            let c = #[trigger] v.containers[i];
            tidy(c.name, 64) && tidy(c.state, 32) && within(c.cpu_pct, BITS_100000) && c.mem_used
                <= MAX_BYTES_VALUE && c.mem_limit <= MAX_BYTES_VALUE
        }
}

proof fn lemma_upto(v: Measure, hi: u64)
    requires
        v.finite(),
        (Measure { bits: hi }).finite(),
        0 <= (Measure { bits: hi }).rank(),
    ensures
        within(upto(v, hi), hi),
        upto(upto(v, hi), hi) == upto(v, hi),
{
    lemma_bounded(v, hi);
}

/// Whatever an agent sends, what is accepted of it is in bounds.
pub proof fn lemma_cleaned_in_bounds(v: MetricsView)
    requires
        admissible(v),
    ensures
        in_bounds(metrics_cleaned(v)),
{
    let w = metrics_cleaned(v);
    lemma_upto(v.cpu_pct, BITS_100);
    lemma_upto(v.load1, BITS_65535);
    lemma_upto(v.load5, BITS_65535);
    lemma_upto(v.load15, BITS_65535);
    let disks = first_items(v.disks, MAX_DISKS as int);
    assert forall|i: int| 0 <= i < w.disks.len() implies ({
        let d = #[trigger] w.disks[i];
        tidy(d.mount, 128) && tidy(d.fs, 32) && d.used <= d.total <= MAX_BYTES_VALUE
            && d.inodes_used <= d.inodes_total <= MAX_INODES
    }) by {
        assert(disks[i].total <= MAX_BYTES_VALUE);
        lemma_cleaned(disks[i].mount, 128);
        lemma_cleaned(disks[i].fs, 32);
    }
    let nets = first_items(v.nets, MAX_NETS as int);
    assert forall|i: int| 0 <= i < w.nets.len() implies ({
        let n = #[trigger] w.nets[i];
        tidy(n.name, 32) && !bad_net(n)
    }) by {
        assert(!bad_net(nets[i]));
        lemma_cleaned(nets[i].name, 32);
    }
    let procs = first_items(v.procs_watch, MAX_WATCH_PROCS as int);
    assert forall|i: int| 0 <= i < w.procs_watch.len() implies ({
        let p = #[trigger] w.procs_watch[i];
        tidy(p.name, 32) && within(p.cpu_pct, BITS_100) && p.rss <= MAX_BYTES_VALUE && p.count
            <= MAX_PROC_COUNT
    }) by {
        lemma_cleaned(procs[i].name, 32);
        lemma_bounded(procs[i].cpu_pct, BITS_100);
    }
    let cores = first_items(v.cpu_per_core, MAX_CORES as int);
    assert forall|i: int| 0 <= i < w.cpu_per_core.len() implies within(
        #[trigger] w.cpu_per_core[i],
        BITS_100,
    ) by {
        lemma_bounded(cores[i], BITS_100);
    }
    let services = first_items(v.services, MAX_SERVICES as int);
    assert forall|i: int| 0 <= i < w.services.len() implies tidy(
        (#[trigger] w.services[i]).name,
        64,
    ) by {
        lemma_cleaned(services[i].name, 64);
    }
    let tops = first_items(v.top_procs, MAX_TOP_PROCS as int);
    assert forall|i: int| 0 <= i < w.top_procs.len() implies ({
        let p = #[trigger] w.top_procs[i];
        tidy(p.name, 32) && within(p.cpu_pct, BITS_100) && p.rss <= MAX_BYTES_VALUE
    }) by {
        lemma_cleaned(tops[i].name, 32);
        lemma_bounded(tops[i].cpu_pct, BITS_100);
    }
    let containers = first_items(v.containers, MAX_CONTAINERS as int);
    assert forall|i: int| 0 <= i < w.containers.len() implies ({
        let c = #[trigger] w.containers[i];
        tidy(c.name, 64) && tidy(c.state, 32) && within(c.cpu_pct, BITS_100000) && c.mem_used
            <= MAX_BYTES_VALUE && c.mem_limit <= MAX_BYTES_VALUE
    }) by {
        lemma_cleaned(containers[i].name, 64);
        lemma_cleaned(containers[i].state, 32);
        lemma_bounded(containers[i].cpu_pct, BITS_100000);
    }
}

/// Cleaning is done once: a cleaned report is admissible, and cleaning it again changes nothing.
pub proof fn lemma_cleaning_is_final(v: MetricsView)
    requires
        admissible(v),
    ensures
        admissible(metrics_cleaned(v)),
        metrics_cleaned(metrics_cleaned(v)) == metrics_cleaned(v),
{
    let w = metrics_cleaned(v);
    let x = metrics_cleaned(w);
    lemma_cleaned_in_bounds(v);
    lemma_upto(v.cpu_pct, BITS_100);
    lemma_upto(v.load1, BITS_65535);
    lemma_upto(v.load5, BITS_65535);
    lemma_upto(v.load15, BITS_65535);
    assert(first_items(w.disks, MAX_DISKS as int) == w.disks);
    assert(first_items(w.nets, MAX_NETS as int) == w.nets);
    assert forall|i: int| 0 <= i < w.disks.len() implies disk_cleaned(#[trigger] w.disks[i])
        == w.disks[i] by {
        let d = first_items(v.disks, MAX_DISKS as int)[i];
        lemma_cleaned(d.mount, 128);
        lemma_cleaned(d.fs, 32);
    }
    assert(x.disks =~= w.disks);
    assert forall|i: int| 0 <= i < w.nets.len() implies net_cleaned(#[trigger] w.nets[i])
        == w.nets[i] by {
        lemma_cleaned(first_items(v.nets, MAX_NETS as int)[i].name, 32);
    }
    assert(x.nets =~= w.nets);
    assert forall|i: int| 0 <= i < w.procs_watch.len() implies proc_cleaned(
        #[trigger] w.procs_watch[i],
    ) == w.procs_watch[i] by {
        let p = first_items(v.procs_watch, MAX_WATCH_PROCS as int)[i];
        lemma_cleaned(p.name, 32);
        lemma_bounded(p.cpu_pct, BITS_100);
    }
    assert(x.procs_watch =~= w.procs_watch);
    assert forall|i: int| 0 <= i < w.cpu_per_core.len() implies (
    #[trigger] w.cpu_per_core[i]).bounded(BITS_100) == w.cpu_per_core[i] by {
        lemma_bounded(first_items(v.cpu_per_core, MAX_CORES as int)[i], BITS_100);
    }
    assert(x.cpu_per_core =~= w.cpu_per_core);
    assert forall|i: int| 0 <= i < w.services.len() implies service_cleaned(
        #[trigger] w.services[i],
    ) == w.services[i] by {
        lemma_cleaned(first_items(v.services, MAX_SERVICES as int)[i].name, 64);
    }
    assert(x.services =~= w.services);
    assert forall|i: int| 0 <= i < w.top_procs.len() implies top_cleaned(#[trigger] w.top_procs[i])
        == w.top_procs[i] by {
        let p = first_items(v.top_procs, MAX_TOP_PROCS as int)[i];
        lemma_cleaned(p.name, 32);
        lemma_bounded(p.cpu_pct, BITS_100);
    }
    assert(x.top_procs =~= w.top_procs);
    assert forall|i: int| 0 <= i < w.containers.len() implies container_cleaned(
        #[trigger] w.containers[i],
    ) == w.containers[i] by {
        let c = first_items(v.containers, MAX_CONTAINERS as int)[i];
        lemma_cleaned(c.name, 64);
        lemma_cleaned(c.state, 32);
        lemma_bounded(c.cpu_pct, BITS_100000);
    }
    assert(x.containers =~= w.containers);
    assert(x =~= w);
}

/// A host's account of itself is in bounds once it is cleaned, and cleaning it again changes
/// nothing.
pub proof fn lemma_host_cleaned(h: HostView)
    ensures
        tidy(host_cleaned(h).hostname, 64),
        tidy(host_cleaned(h).os, 96),
        tidy(host_cleaned(h).kernel, 64),
        tidy(host_cleaned(h).arch, 16),
        tidy(host_cleaned(h).agent_version, 32),
        host_cleaned(h).cores <= MAX_HOST_CORES,
        host_cleaned(h).mem_total <= MAX_BYTES_VALUE,
        host_cleaned(host_cleaned(h)) == host_cleaned(h),
{
    lemma_cleaned(h.hostname, 64);
    lemma_cleaned(h.os, 96);
    lemma_cleaned(h.kernel, 64);
    lemma_cleaned(h.arch, 16);
    lemma_cleaned(h.agent_version, 32);
}

} // verus!
