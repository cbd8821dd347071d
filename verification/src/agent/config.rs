//! The configuration of an agent. It has no option that would skip the verification of the
//! server's certificate.

use crate::common::{MAX_SERVICES, MAX_WATCH_PROCS};
use crate::text::{
    byte_count, byte_len, chars_of, drop_trailing, has_prefix, is_ascii_alnum, starts_with,
    string_of, strip_end, strip_prefix, views,
};
use vstd::prelude::*;
use vstd::string::*;

verus! {

/// The configuration of an agent.
#[derive(Debug)]
pub struct AgentConfig {
    /// The address of the server; it has to begin with `https://`.
    pub server: String,
    /// A file with the one authority to trust, in place of the public ones.
    pub ca_file: Option<String>,
    /// The file with the token of the agent.
    pub token_file: String,
    /// The interval between reports, in seconds, until the server says otherwise.
    pub report_interval_secs: u32,
    /// The names of the processes to watch.
    pub watch_processes: Vec<String>,
    /// The names of the services to watch.
    pub watch_services: Vec<String>,
    /// Whether containers are looked at.
    pub docker_stats: bool,
}

/// Why a configuration cannot be used.
#[derive(Debug)]
pub enum ConfigError {
    /// It cannot be read.
    Io(String),
    /// It cannot be understood.
    Parse(String),
    /// It breaks a rule.
    Invalid(&'static str),
}

/// What an error says.
pub open spec fn error_text(e: ConfigError) -> Seq<char> {
    match e {
        ConfigError::Io(s) => "读取失败: "@ + s@,
        ConfigError::Parse(s) => "解析失败: "@ + s@,
        ConfigError::Invalid(s) => "配置无效: "@ + s@,
    }
}

impl ConfigError {
    /// What the error says.
    pub fn message(&self) -> (r: String)
        ensures
            r@ == error_text(*self),
    {
        match self {
            ConfigError::Io(s) => crate::text::concat2("读取失败: ", s.as_str()),
            ConfigError::Parse(s) => crate::text::concat2("解析失败: ", s.as_str()),
            ConfigError::Invalid(s) => crate::text::concat2("配置无效: ", s),
        }
    }
}

/// The interval between reports where the configuration gives none, in seconds.
pub fn default_interval() -> (r: u32)
    ensures
        r == 5,
{
    5
}

/// A character of the name of a service.
#[verifier::allow_in_spec]
pub fn is_unit_char(c: char) -> bool
    returns
        is_ascii_alnum(c) || c == '@' || c == '.' || c == '_' || c == '-' || c == ':',
{
    is_ascii_alnum(c) || c == '@' || c == '.' || c == '_' || c == '-' || c == ':'
}

/// The name of a service: one to sixty-four ASCII letters, digits and `@ . _ - :`.
pub open spec fn unit_name(s: Seq<char>) -> bool {
    1 <= s.len() <= 64 && forall|i: int| 0 <= i < s.len() ==> is_unit_char(#[trigger] s[i])
}

/// Whether `s` can be the name of a service.
pub fn valid_unit_name(s: &str) -> (r: bool)
    ensures
        r == unit_name(s@),
{
    let v = chars_of(s);
    if v.len() == 0 || v.len() > 64 {
        return false;
    }
    let mut i: usize = 0;
    while i < v.len()
        invariant
            i <= v@.len(),
            v@ == s@,
            forall|j: int| 0 <= j < i ==> is_unit_char(#[trigger] s@[j]),
        decreases v@.len() - i,
    {
        if !is_unit_char(v[i]) {
            assert(!is_unit_char(s@[i as int]));
            return false;
        }
        i = i + 1;
    }
    true
}

/// The name of a process to watch: one to thirty-two bytes.
pub open spec fn process_name(s: Seq<char>) -> bool {
    s.len() > 0 && byte_len(s) <= 32
}

/// All names are names of processes to watch.
pub open spec fn process_names(v: Seq<Seq<char>>) -> bool {
    forall|i: int| 0 <= i < v.len() ==> process_name(#[trigger] v[i])
}

/// All names are names of services.
pub open spec fn unit_names(v: Seq<Seq<char>>) -> bool {
    forall|i: int| 0 <= i < v.len() ==> unit_name(#[trigger] v[i])
}

/// The first rule that a configuration breaks, if any.
pub open spec fn config_fault(c: AgentConfig) -> Option<Seq<char>> {
    if !starts_with(c.server@, "https://"@) {
        Some("server 必须是 https://(禁止明文)"@)
    } else if byte_len(c.server@) > 512 {
        Some("server 过长"@)
    } else if c.token_file@.len() == 0 {
        Some("token_file 不能为空"@)
    } else if !(1 <= c.report_interval_secs <= 3600) {
        Some("report_interval_secs 取值 1..=3600"@)
    } else if c.watch_processes@.len() > MAX_WATCH_PROCS {
        Some("watch_processes 最多 12 个"@)
    } else if !process_names(views(c.watch_processes@)) {
        Some("进程名长度需为 1..=32"@)
    } else if c.watch_services@.len() > MAX_SERVICES {
        Some("watch_services 最多 20 个"@)
    } else if !unit_names(views(c.watch_services@)) {
        Some("systemd 单元名非法(仅限字母数字与 @._-:)"@)
    } else {
        None
    }
}

/// `s` without the copies of `p` that it begins with.
pub open spec fn without_prefixes(s: Seq<char>, p: Seq<char>) -> Seq<char>
    decreases s.len(),
{
    if p.len() > 0 && starts_with(s, p) {
        without_prefixes(s.skip(p.len() as int), p)
    } else {
        s
    }
}

/// The address that an agent with the server `server` reports to.
pub open spec fn report_url(server: Seq<char>) -> Seq<char> {
    "wss://"@ + without_prefixes(strip_end(server, '/'), "https://"@) + "/ws/agent"@
}

fn all_process_names(v: &[String]) -> (r: bool)
    ensures
        r == process_names(views(v@)),
{
    let ghost all = views(v@);
    let mut i: usize = 0;
    while i < v.len()
        invariant
            all == views(v@),
            i <= v@.len(),
            forall|j: int| 0 <= j < i ==> process_name(#[trigger] all[j]),
        decreases v@.len() - i,
    {
        assert(all[i as int] == v@[i as int]@);
        let s = v[i].as_str();
        if s.is_empty() || byte_count(s) > 32 {
            assert(!process_name(all[i as int]));
            return false;
        }
        i = i + 1;
    }
    true
}

fn all_unit_names(v: &[String]) -> (r: bool)
    ensures
        r == unit_names(views(v@)),
{
    let ghost all = views(v@);
    let mut i: usize = 0;
    while i < v.len()
        invariant
            all == views(v@),
            i <= v@.len(),
            forall|j: int| 0 <= j < i ==> unit_name(#[trigger] all[j]),
        decreases v@.len() - i,
    {
        assert(all[i as int] == v@[i as int]@);
        if !valid_unit_name(v[i].as_str()) {
            assert(!unit_name(all[i as int]));
            return false;
        }
        i = i + 1;
    }
    true
}

impl AgentConfig {
    /// Checks the rules of a configuration; the error tells the first one that is broken.
    pub fn validate(&self) -> (r: Result<(), ConfigError>)
        ensures
            r is Ok <==> config_fault(*self) is None,
            r matches Err(e) ==> e is Invalid && Some(e->Invalid_0@) == config_fault(*self),
    {
        let v = chars_of(self.server.as_str());
        if !has_prefix(v.as_slice(), "https://") {
            return Err(ConfigError::Invalid("server 必须是 https://(禁止明文)"));
        }
        if byte_count(self.server.as_str()) > 512 {
            return Err(ConfigError::Invalid("server 过长"));
        }
        if self.token_file.as_str().is_empty() {
            return Err(ConfigError::Invalid("token_file 不能为空"));
        }
        if self.report_interval_secs < 1 || self.report_interval_secs > 3600 {
            return Err(ConfigError::Invalid("report_interval_secs 取值 1..=3600"));
        }
        if self.watch_processes.len() > MAX_WATCH_PROCS {
            return Err(ConfigError::Invalid("watch_processes 最多 12 个"));
        }
        if !all_process_names(self.watch_processes.as_slice()) {
            return Err(ConfigError::Invalid("进程名长度需为 1..=32"));
        }
        if self.watch_services.len() > MAX_SERVICES {
            return Err(ConfigError::Invalid("watch_services 最多 20 个"));
        }
        if !all_unit_names(self.watch_services.as_slice()) {
            return Err(ConfigError::Invalid("systemd 单元名非法(仅限字母数字与 @._-:)"));
        }
        Ok(())
    }

    /// The address that the agent reports to.
    pub fn ws_url(&self) -> (r: String)
        ensures
            r@ == report_url(self.server@),
    {
        let v = chars_of(self.server.as_str());
        let base = drop_trailing(v.as_slice(), '/');
        let mut host = base;
        proof {
            reveal_strlit("https://");
        }
        loop
            invariant
                "https://"@.len() > 0,
                without_prefixes(base@, "https://"@) == without_prefixes(host@, "https://"@),
            ensures
                !starts_with(host@, "https://"@),
            decreases host@.len(),
        {
            match strip_prefix(host, "https://") {
                Some(rest) => {
                    host = rest;
                },
                None => {
                    break ;
                },
            }
        }
        let name = string_of(host);
        crate::text::concat3("wss://", name.as_str(), "/ws/agent")
    }
}

/// An accepted configuration reports over TLS: its address begins with `wss://` and names no
/// other scheme.
pub proof fn lemma_reports_encrypted(c: AgentConfig)
    requires
        config_fault(c) is None,
    ensures
        starts_with(report_url(c.server@), "wss://"@),
        !starts_with(report_url(c.server@).skip("wss://"@.len() as int), "https://"@),
{
    let rest = without_prefixes(strip_end(c.server@, '/'), "https://"@);
    let url = report_url(c.server@);
    let tail = "/ws/agent"@;
    assert(url.take("wss://"@.len() as int) =~= "wss://"@);
    assert(url.skip("wss://"@.len() as int) =~= rest + tail);
    reveal_strlit("https://");
    reveal_strlit("/ws/agent");
    lemma_without_prefixes(strip_end(c.server@, '/'), "https://"@);
    if starts_with(rest + tail, "https://"@) {
        let h = (rest + tail).take(8);
        assert(h =~= "https://"@);
        if rest.len() >= 8 {
            assert(rest.take(8) =~= h);
        } else {
            let k = rest.len() as int;
            assert(h[k] == '/');
            assert("https://"@[0] == 'h' && "https://"@[1] == 't' && "https://"@[2] == 't'
                && "https://"@[3] == 'p' && "https://"@[4] == 's' && "https://"@[5] == ':');
            assert(k == 6 || k == 7);
            assert(h[k + 1] == 'w' || k == 7);
            lemma_strip_end_last(c.server@, '/');
            lemma_without_prefixes_suffix(strip_end(c.server@, '/'), "https://"@);
            if k == 7 {
                assert(rest[6] == h[6]);
                assert("https://"@[6] == '/');
                assert(rest.last() == '/');
            }
        }
    }
}

proof fn lemma_without_prefixes(s: Seq<char>, p: Seq<char>)
    requires
        p.len() > 0,
    ensures
        !starts_with(without_prefixes(s, p), p),
    decreases s.len(),
{
    if starts_with(s, p) {
        lemma_without_prefixes(s.skip(p.len() as int), p);
    }
}

proof fn lemma_without_prefixes_suffix(s: Seq<char>, p: Seq<char>)
    ensures
        without_prefixes(s, p).len() <= s.len(),
        without_prefixes(s, p).len() > 0 ==> without_prefixes(s, p).last() == s.last(),
    decreases s.len(),
{
    if p.len() > 0 && starts_with(s, p) {
        lemma_without_prefixes_suffix(s.skip(p.len() as int), p);
    }
}

proof fn lemma_strip_end_last(s: Seq<char>, c: char)
    ensures
        strip_end(s, c).len() > 0 ==> strip_end(s, c).last() != c,
    decreases s.len(),
{
    if s.len() > 0 && s.last() == c {
        lemma_strip_end_last(s.drop_last(), c);
    }
}

} // verus!
