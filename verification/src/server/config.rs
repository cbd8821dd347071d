//! The configuration of the server. What it does not say is refused: it listens on the machine
//! itself, marks its cookies as secure, and speaks no plain text to others.

use crate::common::MAX_WS_MESSAGE_BYTES;
use crate::ip::{
    ip_value, is_loopback, loopback, parse_ip, parse_socket, socket_value, IpAddr, SocketAddr,
};
use crate::text::{
    before, chars_of, concat2, concat3, has_prefix, same, starts_with, string_of, strip_prefix,
    take_before, views,
};
use vstd::prelude::*;
use vstd::string::*;

verus! {

/// How the server ends TLS itself, where no proxy does.
#[derive(Debug)]
pub struct TlsCfg {
    pub enabled: bool,
    pub cert_path: String,
    pub key_path: String,
}

impl Default for TlsCfg {
    fn default() -> (r: Self)
        ensures
            !r.enabled,
            r.cert_path@ == ""@,
            r.key_path@ == ""@,
    {
        TlsCfg { enabled: false, cert_path: "".to_string(), key_path: "".to_string() }
    }
}

/// Where the server listens, and under which addresses it is known.
#[derive(Debug)]
pub struct ServerCfg {
    /// The address to listen on.
    pub listen: String,
    /// Whether a proxy stands before the server; only then what proxies say of a client counts.
    pub behind_proxy: bool,
    /// The addresses of the proxies that are trusted.
    pub trusted_proxies: Vec<String>,
    /// The address under which users see the server.
    pub public_url: String,
    /// Further addresses under which users see the server.
    pub extra_origins: Vec<String>,
    /// Whether the server may listen without TLS on an address that others reach.
    pub allow_plain_nonloopback: bool,
    pub tls: TlsCfg,
}

impl Default for ServerCfg {
    fn default() -> (r: Self)
        ensures
            r.listen@ == "127.0.0.1:25511"@,
            r.behind_proxy,
            views(r.trusted_proxies@) == seq!["127.0.0.1"@, "::1"@],
            r.public_url@ == "https://127.0.0.1:25510"@,
            r.extra_origins@.len() == 0,
            !r.allow_plain_nonloopback,
            !r.tls.enabled,
            r.tls.cert_path@ == ""@,
            r.tls.key_path@ == ""@,
    {
        let mut trusted_proxies: Vec<String> = Vec::new();
        trusted_proxies.push("127.0.0.1".to_string());
        trusted_proxies.push("::1".to_string());
        assert(views(trusted_proxies@) =~= seq!["127.0.0.1"@, "::1"@]);
        ServerCfg {
            listen: "127.0.0.1:25511".to_string(),
            behind_proxy: true,
            trusted_proxies,
            public_url: "https://127.0.0.1:25510".to_string(),
            extra_origins: Vec::new(),
            allow_plain_nonloopback: false,
            tls: TlsCfg::default(),
        }
    }
}

/// Cookies and headers.
#[derive(Debug)]
pub struct SecurityCfg {
    /// Whether the cookie of a session travels over TLS alone.
    pub cookie_secure: bool,
    pub session_ttl_hours: u32,
    /// Whether browsers are told to come back over TLS alone.
    pub hsts: bool,
}

impl Default for SecurityCfg {
    fn default() -> (r: Self)
        ensures
            r.cookie_secure,
            r.session_ttl_hours == 24,
            r.hsts,
    {
        SecurityCfg { cookie_secure: true, session_ttl_hours: 24, hsts: true }
    }
}

/// Where the server keeps its data.
#[derive(Debug)]
pub struct StorageCfg {
    pub db_path: String,
}

impl Default for StorageCfg {
    fn default() -> (r: Self)
        ensures
            r.db_path@ == "/var/lib/outpost/outpost.db"@,
    {
        StorageCfg { db_path: "/var/lib/outpost/outpost.db".to_string() }
    }
}

/// How agents are installed.
#[derive(Debug)]
pub struct InstallCfg {
    /// `pinned_ca`: an authority of one's own, known by its fingerprint; `public_ca`: a public one.
    pub mode: String,
    /// The certificate of the authority of one's own.
    pub ca_cert_path: String,
    /// The directory with the programs of the agents.
    pub dist_dir: String,
}

impl Default for InstallCfg {
    fn default() -> (r: Self)
        ensures
            r.mode@ == "pinned_ca"@,
            r.ca_cert_path@ == ""@,
            r.dist_dir@ == "/var/lib/outpost/dist"@,
    {
        InstallCfg {
            mode: "pinned_ca".to_string(),
            ca_cert_path: "".to_string(),
            dist_dir: "/var/lib/outpost/dist".to_string(),
        }
    }
}

/// What is accepted of agents.
#[derive(Debug)]
pub struct MetricsCfg {
    /// The longest message, in bytes.
    pub ws_max_message_bytes: usize,
    /// How far the clock of an agent may be off, in seconds.
    pub ts_skew_secs: i64,
}

impl Default for MetricsCfg {
    fn default() -> (r: Self)
        ensures
            r.ws_max_message_bytes == MAX_WS_MESSAGE_BYTES,
            r.ts_skew_secs == 300,
    {
        MetricsCfg { ws_max_message_bytes: MAX_WS_MESSAGE_BYTES, ts_skew_secs: 300 }
    }
}

/// Where notifications may go.
#[derive(Debug)]
pub struct NotifyCfg {
    /// Whether they may go to addresses that are not public.
    pub allow_private_targets: bool,
}

impl Default for NotifyCfg {
    fn default() -> (r: Self)
        ensures
            !r.allow_private_targets,
    {
        NotifyCfg { allow_private_targets: false }
    }
}

/// The configuration of the server.
#[derive(Debug)]
pub struct Config {
    pub server: ServerCfg,
    pub security: SecurityCfg,
    pub storage: StorageCfg,
    pub install: InstallCfg,
    pub metrics: MetricsCfg,
    pub notify: NotifyCfg,
}

/// Why a configuration cannot be used.
#[derive(Debug)]
pub enum ConfigError {
    /// It cannot be read.
    Load(String),
    /// It breaks a rule.
    Invalid(String),
}

impl ConfigError {
    /// What the error says.
    pub fn message(&self) -> (r: String)
        ensures
            r@ == match *self {
                ConfigError::Load(s) => "配置读取失败: "@ + s@,
                ConfigError::Invalid(s) => "配置无效: "@ + s@,
            },
    {
        match self {
            ConfigError::Load(s) => concat2("配置读取失败: ", s.as_str()),
            ConfigError::Invalid(s) => concat2("配置无效: ", s.as_str()),
        }
    }
}

/// An address begins with `https://`, or with `http://` where the server serves this machine alone.
pub open spec fn good_scheme(url: Seq<char>, dev_local: bool) -> bool {
    starts_with(url, "https://"@) || (dev_local && starts_with(url, "http://"@))
}

/// Whether an address begins with `https://`, or with `http://` where the server serves this machine
/// alone.
pub fn scheme_ok(url: &str, dev_local: bool) -> (r: bool)
    ensures
        r == good_scheme(url@, dev_local),
{
    let v = chars_of(url);
    has_prefix(v.as_slice(), "https://") || (dev_local && has_prefix(v.as_slice(), "http://"))
}

/// Scheme and authority of an address; an address with neither scheme counts as one of `https`.
pub open spec fn origin(url: Seq<char>) -> Seq<char> {
    if starts_with(url, "https://"@) {
        "https"@ + "://"@ + before(url.skip("https://"@.len() as int), '/')
    } else if starts_with(url, "http://"@) {
        "http"@ + "://"@ + before(url.skip("http://"@.len() as int), '/')
    } else {
        "https"@ + "://"@ + before(url, '/')
    }
}

/// Scheme and authority of an address.
pub fn origin_of(url: &str) -> (r: String)
    ensures
        r@ == origin(url@),
{
    let v = chars_of(url);
    match strip_prefix(v.as_slice(), "https://") {
        Some(rest) => concat3("https", "://", string_of(take_before(rest, '/')).as_str()),
        None => match strip_prefix(v.as_slice(), "http://") {
            Some(rest) => concat3("http", "://", string_of(take_before(rest, '/')).as_str()),
            None => concat3("https", "://", string_of(take_before(v.as_slice(), '/')).as_str()),
        },
    }
}

/// All addresses begin as they have to.
pub open spec fn good_schemes(v: Seq<Seq<char>>, dev_local: bool) -> bool {
    forall|i: int| 0 <= i < v.len() ==> good_scheme(#[trigger] v[i], dev_local)
}

/// The server serves this machine alone, with cookies that need no TLS.
pub open spec fn serves_itself(c: Config, ip: IpAddr) -> bool {
    loopback(ip) && !c.security.cookie_secure
}

/// The first rule that a configuration breaks, if any.
pub open spec fn config_fault(c: Config) -> Option<Seq<char>> {
    match socket_value(c.server.listen@) {
        None => Some("server.listen 不是合法地址"@),
        Some(SocketAddr { ip, .. }) => {
            let dev = serves_itself(c, ip);
            if !loopback(ip) && !c.server.tls.enabled && !c.server.allow_plain_nonloopback {
                Some(
                    "拒绝在非回环地址上明文监听。请置于 TLS 反代之后监听 127.0.0.1,或启用 [server.tls],或(不建议)显式设置 allow_plain_nonloopback=true"@,
                )
            } else if !good_scheme(c.server.public_url@, dev) {
                Some(
                    "server.public_url 必须为 https://(本机回环预览可用 http:// 并关闭 security.cookie_secure)"@,
                )
            } else if !good_schemes(views(c.server.extra_origins@), dev) {
                Some("extra_origins 必须为 https://(本机预览可 http://)"@)
            } else if c.server.tls.enabled && (c.server.tls.cert_path@.len() == 0
                || c.server.tls.key_path@.len() == 0) {
                Some("启用 TLS 需同时配置 cert_path/key_path"@)
            } else if c.install.mode@ != "pinned_ca"@ && c.install.mode@ != "public_ca"@ {
                Some("install.mode 只能是 pinned_ca 或 public_ca"@)
            } else if !(1 <= c.security.session_ttl_hours <= 720) {
                Some("session_ttl_hours 取值 1..=720"@)
            } else if !(60 <= c.metrics.ws_max_message_bytes <= 1_048_576) {
                Some("ws_max_message_bytes 取值 60..=1048576"@)
            } else if !(5 <= c.metrics.ts_skew_secs <= 3600) {
                Some("ts_skew_secs 取值 5..=3600"@)
            } else {
                None
            }
        },
    }
}

/// The addresses among some texts, in their order.
pub open spec fn addresses(v: Seq<Seq<char>>) -> Seq<IpAddr>
    decreases v.len(),
{
    if v.len() == 0 {
        Seq::empty()
    } else {
        match ip_value(v.last()) {
            Some(ip) => addresses(v.drop_last()).push(ip),
            None => addresses(v.drop_last()),
        }
    }
}

/// The proxies whose word counts: none, unless a proxy stands before the server.
pub open spec fn trusted(c: Config) -> Seq<IpAddr> {
    if c.server.behind_proxy {
        addresses(views(c.server.trusted_proxies@))
    } else {
        Seq::empty()
    }
}

/// The name of the cookie of a session.
pub open spec fn session_cookie(c: Config) -> Seq<char> {
    if c.security.cookie_secure {
        "__Host-op_session"@
    } else {
        "op_session"@
    }
}

/// The address and the port that the server listens on; the machine itself, where the configuration
/// gives none.
pub open spec fn listens_on(c: Config) -> SocketAddr {
    match socket_value(c.server.listen@) {
        Some(a) => a,
        None => SocketAddr { ip: IpAddr::V4(0x7f00_0001), port: 25511, scope: 0 },
    }
}

impl Default for Config {
    fn default() -> (r: Self)
        ensures
            r.server.listen@ == "127.0.0.1:25511"@,
            r.server.public_url@ == "https://127.0.0.1:25510"@,
            r.server.extra_origins@.len() == 0,
            !r.server.allow_plain_nonloopback,
            !r.server.tls.enabled,
            r.server.behind_proxy,
            views(r.server.trusted_proxies@) == seq!["127.0.0.1"@, "::1"@],
            r.security.cookie_secure,
            r.security.hsts,
            r.security.session_ttl_hours == 24,
            r.storage.db_path@ == "/var/lib/outpost/outpost.db"@,
            r.install.mode@ == "pinned_ca"@,
            r.install.ca_cert_path@ == ""@,
            r.install.dist_dir@ == "/var/lib/outpost/dist"@,
            r.metrics.ws_max_message_bytes == MAX_WS_MESSAGE_BYTES,
            r.metrics.ts_skew_secs == 300,
            !r.notify.allow_private_targets,
    {
        Config {
            server: ServerCfg::default(),
            security: SecurityCfg::default(),
            storage: StorageCfg::default(),
            install: InstallCfg::default(),
            metrics: MetricsCfg::default(),
            notify: NotifyCfg::default(),
        }
    }
}

fn schemes_ok(v: &[String], dev_local: bool) -> (r: bool)
    ensures
        r == good_schemes(views(v@), dev_local),
{
    let ghost all = views(v@);
    let mut i: usize = 0;
    while i < v.len()
        invariant
            all == views(v@),
            i <= v@.len(),
            forall|j: int| 0 <= j < i ==> good_scheme(#[trigger] all[j], dev_local),
        decreases v@.len() - i,
    {
        if !scheme_ok(v[i].as_str(), dev_local) {
            assert(!good_scheme(all[i as int], dev_local));
            return false;
        }
        i = i + 1;
    }
    true
}

impl Config {
    /// Whether the server can work with the configuration.
    pub fn validate(&self) -> (r: Result<(), ConfigError>)
        ensures
            r is Ok <==> config_fault(*self) is None,
            r matches Err(e) ==> e matches ConfigError::Invalid(m) && config_fault(*self) == Some(
                m@,
            ),
    {
        let ip = match parse_socket(self.server.listen.as_str()) {
            Some(a) => a.ip,
            None => {
                return Err(ConfigError::Invalid("server.listen 不是合法地址".to_string()));
            },
        };
        let own = is_loopback(&ip);
        if !own && !self.server.tls.enabled && !self.server.allow_plain_nonloopback {
            return Err(
                ConfigError::Invalid(
                    "拒绝在非回环地址上明文监听。请置于 TLS 反代之后监听 127.0.0.1,或启用 [server.tls],或(不建议)显式设置 allow_plain_nonloopback=true".to_string(),
                ),
            );
        }
        let dev = own && !self.security.cookie_secure;
        if !scheme_ok(self.server.public_url.as_str(), dev) {
            return Err(
                ConfigError::Invalid(
                    "server.public_url 必须为 https://(本机回环预览可用 http:// 并关闭 security.cookie_secure)".to_string(),
                ),
            );
        }
        if !schemes_ok(self.server.extra_origins.as_slice(), dev) {
            return Err(
                ConfigError::Invalid(
                    "extra_origins 必须为 https://(本机预览可 http://)".to_string(),
                ),
            );
        }
        if self.server.tls.enabled && (self.server.tls.cert_path.as_str().is_empty()
            || self.server.tls.key_path.as_str().is_empty()) {
            return Err(
                ConfigError::Invalid("启用 TLS 需同时配置 cert_path/key_path".to_string()),
            );
        }
        if !same(self.install.mode.as_str(), "pinned_ca") && !same(
            self.install.mode.as_str(),
            "public_ca",
        ) {
            return Err(
                ConfigError::Invalid("install.mode 只能是 pinned_ca 或 public_ca".to_string()),
            );
        }
        if self.security.session_ttl_hours < 1 || self.security.session_ttl_hours > 720 {
            return Err(ConfigError::Invalid("session_ttl_hours 取值 1..=720".to_string()));
        }
        if self.metrics.ws_max_message_bytes < 60 || self.metrics.ws_max_message_bytes > 1_048_576 {
            return Err(
                ConfigError::Invalid("ws_max_message_bytes 取值 60..=1048576".to_string()),
            );
        }
        if self.metrics.ts_skew_secs < 5 || self.metrics.ts_skew_secs > 3600 {
            return Err(ConfigError::Invalid("ts_skew_secs 取值 5..=3600".to_string()));
        }
        Ok(())
    }

    /// The address and the port that the server listens on.
    pub fn listen_addr(&self) -> (r: SocketAddr)
        ensures
            r == listens_on(*self),
    {
        match parse_socket(self.server.listen.as_str()) {
            Some(a) => a,
            None => SocketAddr { ip: IpAddr::V4(0x7f00_0001), port: 25511, scope: 0 },
        }
    }

    /// The proxies whose word on the address of a client counts.
    pub fn trusted_proxy_ips(&self) -> (r: Vec<IpAddr>)
        ensures
            r@ == trusted(*self),
    {
        let mut out: Vec<IpAddr> = Vec::new();
        if !self.server.behind_proxy {
            return out;
        }
        let v = &self.server.trusted_proxies;
        let ghost all = views(v@);
        let mut i: usize = 0;
        assert(all.take(0) =~= Seq::empty());
        while i < v.len()
            invariant
                all == views(v@),
                i <= v@.len(),
                out@ == addresses(all.take(i as int)),
            decreases v@.len() - i,
        {
            assert(all.take(i + 1).drop_last() =~= all.take(i as int));
            assert(all.take(i + 1).last() == v@[i as int]@);
            if let Some(ip) = parse_ip(v[i].as_str()) {
                out.push(ip);
            }
            i = i + 1;
        }
        assert(all.take(i as int) =~= all);
        out
    }

    /// The name of the cookie of a session; with the prefix that binds it to the host, where it is
    /// marked as secure.
    pub fn cookie_name(&self) -> (r: &'static str)
        ensures
            r@ == session_cookie(*self),
    {
        if self.security.cookie_secure {
            "__Host-op_session"
        } else {
            "op_session"
        }
    }

    /// Whether the server serves this machine alone, with cookies that need no TLS.
    pub fn dev_local(&self) -> (r: bool)
        ensures
            r == serves_itself(*self, listens_on(*self).ip),
    {
        let a = self.listen_addr();
        is_loopback(&a.ip) && !self.security.cookie_secure
    }
}

/// A configuration that is accepted exposes nothing in plain text unless it says so: an address that
/// others reach comes with TLS or with the explicit permission, and the addresses under which users
/// see the server are `https` unless it serves this machine alone.
pub proof fn lemma_accepted_is_safe(c: Config)
    requires
        config_fault(c) is None,
    ensures
        socket_value(c.server.listen@) == Some(listens_on(c)),
        !loopback(listens_on(c).ip) ==> c.server.tls.enabled || c.server.allow_plain_nonloopback,
        !serves_itself(c, listens_on(c).ip) ==> starts_with(c.server.public_url@, "https://"@)
            && forall|i: int|
            0 <= i < c.server.extra_origins@.len() ==> starts_with(
                #[trigger] c.server.extra_origins@[i]@,
                "https://"@,
            ),
        c.server.tls.enabled ==> c.server.tls.cert_path@.len() > 0 && c.server.tls.key_path@.len()
            > 0,
{
    assert forall|i: int|
        0 <= i < c.server.extra_origins@.len() && !serves_itself(c, listens_on(c).ip) implies starts_with(
        #[trigger] c.server.extra_origins@[i]@,
        "https://"@,
    ) by {
        assert(good_scheme(views(c.server.extra_origins@)[i], false));
    }
}

/// The origin of an address is its own origin, and its scheme is one of two.
pub proof fn lemma_origin_is_final(url: Seq<char>)
    ensures
        origin(origin(url)) == origin(url),
        starts_with(origin(url), "https://"@) || starts_with(origin(url), "http://"@),
{
    reveal_strlit("https");
    reveal_strlit("http");
    reveal_strlit("://");
    reveal_strlit("https://");
    reveal_strlit("http://");
    let rest = if starts_with(url, "https://"@) {
        before(url.skip(8), '/')
    } else if starts_with(url, "http://"@) {
        before(url.skip(7), '/')
    } else {
        before(url, '/')
    };
    lemma_before_is_final(url);
    lemma_before_is_final(url.skip(8));
    lemma_before_is_final(url.skip(7));
    if starts_with(url, "https://"@) || !starts_with(url, "http://"@) {
        assert("https"@ + "://"@ =~= "https://"@);
        assert(origin(url) == "https://"@ + rest);
        assert(origin(url).take(8) =~= "https://"@);
        assert(starts_with(origin(url), "https://"@));
        assert(origin(url).skip(8) =~= rest);
    } else {
        assert("http"@ + "://"@ =~= "http://"@);
        assert(origin(url) == "http://"@ + rest);
        assert(origin(url)[4] == ':');
        assert(origin(url).take(7) =~= "http://"@);
        assert(starts_with(origin(url), "http://"@));
        assert("https://"@[4] == 's');
        assert(!starts_with(origin(url), "https://"@)) by {
            if starts_with(origin(url), "https://"@) {
                assert(origin(url)[4] == "https://"@[4]);
            }
        }
        assert(origin(url).skip(7) =~= rest);
    }
}

proof fn lemma_before_is_final(s: Seq<char>)
    ensures
        before(before(s, '/'), '/') == before(s, '/'),
{
    crate::text::lemma_first_index(s, '/');
    let b = before(s, '/');
    crate::text::lemma_first_index(b, '/');
    assert(b =~= before(b, '/'));
}

} // verus!
