//! What the server works out once, when it starts: the programs for agents, its addresses, and what
//! its command line asks for.

use crate::json::{json_list, json_listed, read_strings};
use crate::server::config::Config;
use crate::server::crypto::sha256_of;
use crate::server::db::text_view;
use crate::server::errors::{AppError, ErrorView};
use crate::server::handlers::auth::{hash_password, stored_for};
use crate::server::state::{Artifact, NetCfg};
use crate::server::util::sha256_hex;
use crate::common::hex_of;
use crate::text::{chars_of, same, string_of, views};
use vstd::prelude::*;
use vstd::slice::slice_subrange;
use vstd::string::*;

verus! {

// ---------------------------------------------------------------------------
// Programs
// ---------------------------------------------------------------------------

/// The kinds of machines that there are programs for.
pub open spec fn known_target(i: int) -> Seq<char> {
    if i == 0 {
        "x86_64-unknown-linux-musl"@
    } else {
        "aarch64-unknown-linux-musl"@
    }
}

/// The names of the programs.
pub open spec fn known_filename(i: int) -> Seq<char> {
    if i == 0 {
        "outpost-agent-x86_64-unknown-linux-musl"@
    } else {
        "outpost-agent-aarch64-unknown-linux-musl"@
    }
}

/// The names of the programs, in the order of their machines.
pub fn program_files() -> (r: [&'static str; 2])
    ensures
        r[0]@ == known_filename(0),
        r[1]@ == known_filename(1),
{
    ["outpost-agent-x86_64-unknown-linux-musl", "outpost-agent-aarch64-unknown-linux-musl"]
}

/// A program for a kind of machine, with the digest of its bytes.
pub open spec fn is_program(a: Artifact, i: int, bytes: Seq<u8>) -> bool {
    a.target@ == known_target(i) && a.filename@ == known_filename(i) && a.sha256@ == hex_of(
        sha256_of(bytes),
    )
}

fn program(i: usize, bytes: &[u8]) -> (a: Artifact)
    requires
        i < 2,
    ensures
        is_program(a, i as int, bytes@),
{
    if i == 0 {
        Artifact {
            target: "x86_64-unknown-linux-musl".to_string(),
            filename: "outpost-agent-x86_64-unknown-linux-musl".to_string(),
            sha256: sha256_hex(bytes),
        }
    } else {
        Artifact {
            target: "aarch64-unknown-linux-musl".to_string(),
            filename: "outpost-agent-aarch64-unknown-linux-musl".to_string(),
            sha256: sha256_hex(bytes),
        }
    }
}

/// The programs that can be handed out: those whose files could be read.
pub fn scan_artifacts(x86: Option<&[u8]>, arm: Option<&[u8]>) -> (r: Vec<Artifact>)
    ensures
        match (x86, arm) {
            (Some(x), Some(a)) => r@.len() == 2 && is_program(r@[0], 0, x@) && is_program(
                r@[1],
                1,
                a@,
            ),
            (Some(x), None) => r@.len() == 1 && is_program(r@[0], 0, x@),
            (None, Some(a)) => r@.len() == 1 && is_program(r@[0], 1, a@),
            (None, None) => r@.len() == 0,
        },
{
    let mut out: Vec<Artifact> = Vec::new();
    if let Some(x) = x86 {
        out.push(program(0, x));
    }
    if let Some(a) = arm {
        out.push(program(1, a));
    }
    out
}

/// Whether the certificate of an authority of one's own is read.
pub fn wants_authority(cfg: &Config) -> (r: bool)
    ensures
        r == (cfg.install.mode@ == "pinned_ca"@ && cfg.install.ca_cert_path@.len() > 0),
{
    same(cfg.install.mode.as_str(), "pinned_ca") && !cfg.install.ca_cert_path.as_str().is_empty()
}

// ---------------------------------------------------------------------------
// Addresses
// ---------------------------------------------------------------------------

/// The addresses under which users see the server: those that are stored, or else those of the
/// configuration. What is stored of the further addresses and cannot be read counts as none.
pub open spec fn is_seeded(n: NetCfg, url: Seq<char>, origins: Seq<char>, cfg: Config) -> bool {
    &&& n.public_url@ == if url.len() == 0 {
        cfg.server.public_url@
    } else {
        url
    }
    &&& views(n.extra_origins@) == if origins.len() == 0 {
        views(cfg.server.extra_origins@)
    } else {
        listed_or_none(json_listed(origins))
    }
}

/// Texts that may be missing.
pub open spec fn listed_or_none(o: Option<Seq<Seq<char>>>) -> Seq<Seq<char>> {
    match o {
        Some(v) => v,
        None => Seq::empty(),
    }
}

fn copies(v: &[String]) -> (r: Vec<String>)
    ensures
        views(r@) == views(v@),
{
    let mut out: Vec<String> = Vec::new();
    let mut i: usize = 0;
    while i < v.len()
        invariant
            i <= v@.len(),
            views(out@) == views(v@).take(i as int),
        decreases v@.len() - i,
    {
        let ghost before = views(out@);
        let s = v[i].as_str().to_string();
        out.push(s);
        assert(views(out@) =~= before.push(s@));
        i = i + 1;
        assert(views(out@) =~= views(v@).take(i as int));
    }
    assert(views(v@).take(i as int) =~= views(v@));
    out
}

/// The addresses with further ones that were read, where something is stored of them.
pub fn net_with(url: &str, origins: Option<Option<Vec<String>>>, cfg: &Config) -> (r: NetCfg)
    ensures
        r.public_url@ == if url@.len() == 0 {
            cfg.server.public_url@
        } else {
            url@
        },
        views(r.extra_origins@) == match origins {
            None => views(cfg.server.extra_origins@),
            Some(o) => listed_or_none(crate::json::texts_view(o)),
        },
{
    let public_url = if url.is_empty() {
        cfg.server.public_url.as_str().to_string()
    } else {
        url.to_string()
    };
    let extra_origins = match origins {
        None => copies(cfg.server.extra_origins.as_slice()),
        Some(Some(v)) => v,
        Some(None) => {
            let v: Vec<String> = Vec::new();
            assert(views(v@) =~= Seq::empty());
            v
        },
    };
    NetCfg { public_url, extra_origins }
}

/// The addresses under which users see the server. Addresses that were set before are there again
/// after a new start.
pub fn seeded_net(url: &str, origins: &str, cfg: &Config) -> (r: NetCfg)
    ensures
        is_seeded(r, url@, origins@, *cfg),
        forall|v: Seq<Seq<char>>| origins@ == #[trigger] json_list(v) ==> views(r.extra_origins@) == v,
{
    let read = if origins.is_empty() {
        None
    } else {
        Some(read_strings(origins))
    };
    net_with(url, read, cfg)
}

/// What a login is held against where there is no such account: it stands for a password that nobody
/// has. It fails only where the random source of the system or Argon2 does.
pub fn dummy_hash() -> (r: Result<String, AppError>)
    ensures
        r matches Ok(h) ==> stored_for(h@, "outpost-timing-dummy"@),
        r matches Err(e) ==> e@ == ErrorView::Internal,
{
    hash_password("outpost-timing-dummy")
}

// ---------------------------------------------------------------------------
// The command line
// ---------------------------------------------------------------------------

/// What the command line asks for.
#[derive(Debug, Clone, Copy, PartialEq, Eq, Structural)]
pub enum Command {
    Version,
    Help,
    AdminCreate,
    Serve,
}

/// What the first argument asks for.
pub open spec fn command_of(arg: Option<Seq<char>>) -> Command {
    match arg {
        Some(a) => if a == "--version"@ || a == "-V"@ {
            Command::Version
        } else if a == "--help"@ || a == "-h"@ {
            Command::Help
        } else if a == "admin-create"@ {
            Command::AdminCreate
        } else {
            Command::Serve
        },
        None => Command::Serve,
    }
}

/// What the first argument asks for.
pub fn command(arg: Option<&str>) -> (r: Command)
    ensures
        r == command_of(text_view(arg)),
{
    match arg {
        Some(a) => if same(a, "--version") || same(a, "-V") {
            Command::Version
        } else if same(a, "--help") || same(a, "-h") {
            Command::Help
        } else if same(a, "admin-create") {
            Command::AdminCreate
        } else {
            Command::Serve
        },
        None => Command::Serve,
    }
}

/// The position of the first `--username` among arguments; behind the end where there is none.
pub open spec fn username_flag(args: Seq<Seq<char>>) -> int
    decreases args.len(),
{
    if args.len() == 0 || args[0] == "--username"@ {
        0
    } else {
        1 + username_flag(args.drop_first())
    }
}

/// The name of the first account: the argument behind `--username`, or else what the environment says;
/// nothing where it is empty.
pub open spec fn admin_name(args: Seq<Seq<char>>, env: Option<Seq<char>>) -> Option<Seq<char>> {
    let i = username_flag(args);
    let name = if i + 1 < args.len() {
        args[i + 1]
    } else {
        match env {
            Some(e) => e,
            None => ""@,
        }
    };
    if name.len() == 0 {
        None
    } else {
        Some(name)
    }
}

/// The name of the first account.
pub fn admin_username(args: &[String], env: Option<&str>) -> (r: Option<String>)
    ensures
        crate::text::some_text(r) == admin_name(views(args@), text_view(env)),
{
    let ghost all = views(args@);
    proof {
        reveal_strlit("");
    }
    let n: usize = args.len();
    let mut i: usize = 0;
    assert(all.skip(0) =~= all);
    while i < n && !same(args[i].as_str(), "--username")
        invariant
            all == views(args@),
            n == args@.len(),
            i <= n,
            username_flag(all) == i + username_flag(all.skip(i as int)),
        decreases n - i,
    {
        assert(all.skip(i as int)[0] == args@[i as int]@);
        assert(all.skip(i as int).drop_first() =~= all.skip(i + 1));
        i = i + 1;
    }
    proof {
        if i < n {
            assert(all.skip(i as int)[0] == args@[i as int]@);
        }
        assert(username_flag(all) == i);
    }
    let name = if i < n && i + 1 < n {
        args[i + 1].as_str().to_string()
    } else {
        match env {
            Some(e) => e.to_string(),
            None => "".to_string(),
        }
    };
    if name.as_str().is_empty() {
        None
    } else {
        Some(name)
    }
}

/// A line without the line ends at its end.
pub open spec fn without_end(s: Seq<char>) -> Seq<char>
    decreases s.len(),
{
    if s.len() > 0 && (s.last() == '\n' || s.last() == '\r') {
        without_end(s.drop_last())
    } else {
        s
    }
}

/// The password of the first account: what the environment says, or else the line that was read;
/// nothing where it is empty.
pub open spec fn admin_secret(env: Option<Seq<char>>, line: Option<Seq<char>>) -> Option<Seq<char>> {
    let p = match env {
        Some(e) => e,
        None => match line {
            Some(l) => without_end(l),
            None => ""@,
        },
    };
    if p.len() == 0 {
        None
    } else {
        Some(p)
    }
}

/// The password of the first account.
pub fn admin_password(env: Option<&str>, line: Option<&str>) -> (r: Option<String>)
    ensures
        crate::text::some_text(r) == admin_secret(text_view(env), text_view(line)),
{
    proof {
        reveal_strlit("");
    }
    let p = match env {
        Some(e) => e.to_string(),
        None => match line {
            Some(l) => {
                let v = chars_of(l);
                let mut n: usize = v.len();
                assert(v@.take(n as int) =~= v@);
                while n > 0 && (v[n - 1] == '\n' || v[n - 1] == '\r')
                    invariant
                        n <= v@.len(),
                        without_end(v@) == without_end(v@.take(n as int)),
                    decreases n,
                {
                    assert(v@.take(n as int).drop_last() =~= v@.take(n - 1));
                    n = n - 1;
                }
                let t = slice_subrange(v.as_slice(), 0, n);
                assert(t@ =~= v@.take(n as int));
                string_of(t)
            },
            None => "".to_string(),
        },
    };
    if p.as_str().is_empty() {
        None
    } else {
        Some(p)
    }
}

/// Whether the environment brings the first account: there is none yet, and both its name and its
/// password are given. `users` counts the accounts; nothing where the store does not answer.
pub fn account_from_environment(users: Option<i64>, name: Option<&str>, secret: Option<&str>) -> (r:
    bool)
    ensures
        r == (users == Some(0i64) && name is Some && (name->0)@.len() > 0 && secret is Some && (
        secret->0)@.len() > 0),
{
    match (users, name, secret) {
        (Some(n), Some(u), Some(p)) => n == 0 && !u.is_empty() && !p.is_empty(),
        _ => false,
    }
}

} // verus!
