//! The settings of the server, and the record of what was done as a table.

use crate::num::{decimal_int, show_i64};
use crate::server::audit::AuditEntry;
use crate::server::config::{good_scheme, good_schemes, scheme_ok};
use crate::server::errors::{refusal, wrong, AppError, ErrorView};
use crate::server::session::SessionAdmin;
use crate::server::state::NetCfg;
use crate::text::{
    byte_count, byte_count_of, byte_len, chars_of, double_chars, doubled, drop_trailing, find,
    lemma_doubled, lemma_on_one_line, lines, on_one_line, split_lines, string_of, strip_end, trim,
    trimmed, undoubled, views, without_line_ends,
};
use vstd::prelude::*;
use vstd::string::*;

verus! {

/// New settings.
#[derive(Debug)]
pub struct SettingsReq {
    pub report_interval_secs: i64,
    pub retention_days: i64,
    /// The hours between backups; 0 for none.
    pub auto_backup_hours: i64,
    /// How many backups are kept.
    pub auto_backup_keep: i64,
    /// The address under which users see the server.
    pub public_url: String,
    /// Further addresses, one a line.
    pub extra_origins: String,
}

/// How many backups are kept where a request does not say.
pub fn default_keep() -> (r: i64)
    ensures
        r == 7,
{
    7
}

// ---------------------------------------------------------------------------
// Settings
// ---------------------------------------------------------------------------

/// The lines of a text that hold something, without the blanks around it.
pub open spec fn filled_lines(ls: Seq<Seq<char>>) -> Seq<Seq<char>>
    decreases ls.len(),
{
    if ls.len() == 0 {
        Seq::empty()
    } else if trimmed(ls.last()).len() > 0 {
        filled_lines(ls.drop_last()).push(trimmed(ls.last()))
    } else {
        filled_lines(ls.drop_last())
    }
}

/// No address is too long, and each begins as it has to.
pub open spec fn good_origins(v: Seq<Seq<char>>, dev_local: bool) -> bool {
    forall|i: int|
        0 <= i < v.len() ==> byte_len(#[trigger] v[i]) <= 200 && good_scheme(v[i], dev_local)
}

/// Why settings are not accepted, if they are not.
pub open spec fn settings_refused(q: SettingsReq, dev_local: bool) -> Option<ErrorView> {
    let url = trimmed(q.public_url@);
    let extra = filled_lines(lines(q.extra_origins@));
    if !(1 <= q.report_interval_secs <= 3600) {
        Some(wrong("上报间隔需在 1~3600 秒之间"@))
    } else if !(1 <= q.retention_days <= 3650) {
        Some(wrong("数据保留需在 1~3650 天之间"@))
    } else if !(0 <= q.auto_backup_hours <= 168) {
        Some(wrong("自动备份周期需在 0(关闭)~168 小时"@))
    } else if !(1 <= q.auto_backup_keep <= 90) {
        Some(wrong("备份保留份数需在 1~90"@))
    } else if url.len() == 0 || byte_len(url) > 200 {
        Some(wrong("对外访问地址不能为空且不超过 200 字符"@))
    } else if !good_scheme(url, dev_local) {
        Some(
            wrong(
                "对外访问地址必须为 https://(本机回环预览可用 http:// 并关闭 Secure Cookie)"@,
            ),
        )
    } else if extra.len() > 16 {
        Some(wrong("额外 Origin 最多 16 条"@))
    } else if !good_origins(extra, dev_local) {
        Some(wrong("额外 Origin 每条须为 https://(本机预览可 http://),且不超过 200 字符"@))
    } else {
        None
    }
}

fn read_origins(text: &str) -> (r: Vec<String>)
    ensures
        views(r@) == filled_lines(lines(text@)),
{
    let v = chars_of(text);
    let ls = split_lines(v.as_slice());
    let ghost all = lines(text@);
    let mut out: Vec<String> = Vec::new();
    let mut i: usize = 0;
    assert(all.take(0) =~= Seq::empty());
    assert(views(out@) =~= Seq::empty());
    while i < ls.len()
        invariant
            all == views(ls@),
            i <= ls@.len(),
            views(out@) == filled_lines(all.take(i as int)),
        decreases ls@.len() - i,
    {
        assert(all.take(i + 1).drop_last() =~= all.take(i as int));
        assert(all.take(i + 1).last() == ls@[i as int]@);
        let t = trim(ls[i]);
        if t.len() > 0 {
            let ghost before = views(out@);
            let s = string_of(t);
            out.push(s);
            assert(views(out@) =~= before.push(s@));
        }
        i = i + 1;
    }
    assert(all.take(i as int) =~= all);
    out
}

fn origins_ok(v: &[String], dev_local: bool) -> (r: bool)
    ensures
        r == good_origins(views(v@), dev_local),
{
    let ghost all = views(v@);
    let mut i: usize = 0;
    while i < v.len()
        invariant
            all == views(v@),
            i <= v@.len(),
            forall|j: int|
                0 <= j < i ==> byte_len(#[trigger] all[j]) <= 200 && good_scheme(all[j], dev_local),
        decreases v@.len() - i,
    {
        assert(all[i as int] == v@[i as int]@);
        if byte_count(v[i].as_str()) > 200 || !scheme_ok(v[i].as_str(), dev_local) {
            return false;
        }
        i = i + 1;
    }
    true
}

/// The addresses under which users see the server from now on, and the interval between reports that
/// agents are told. The other numbers are stored as they are.
pub fn set(admin: &SessionAdmin, req: &SettingsReq, dev_local: bool) -> (r: Result<
    (NetCfg, u32),
    AppError,
>)
    ensures
        admin@.role@ == "admin"@,
        refusal(r) == settings_refused(*req, dev_local),
        r matches Ok(p) ==> {
            &&& p.0.public_url@ == trimmed(req.public_url@)
            &&& views(p.0.extra_origins@) == filled_lines(lines(req.extra_origins@))
            &&& p.1 == req.report_interval_secs
        },
{
    proof {
        use_type_invariant(admin);
    }
    if req.report_interval_secs < 1 || req.report_interval_secs > 3600 {
        return Err(AppError::bad("上报间隔需在 1~3600 秒之间"));
    }
    if req.retention_days < 1 || req.retention_days > 3650 {
        return Err(AppError::bad("数据保留需在 1~3650 天之间"));
    }
    if req.auto_backup_hours < 0 || req.auto_backup_hours > 168 {
        return Err(AppError::bad("自动备份周期需在 0(关闭)~168 小时"));
    }
    if req.auto_backup_keep < 1 || req.auto_backup_keep > 90 {
        return Err(AppError::bad("备份保留份数需在 1~90"));
    }
    let v = chars_of(req.public_url.as_str());
    let url = trim(v.as_slice());
    if url.len() == 0 || byte_count_of(url) > 200 {
        return Err(AppError::bad("对外访问地址不能为空且不超过 200 字符"));
    }
    let public_url = string_of(url);
    if !scheme_ok(public_url.as_str(), dev_local) {
        return Err(
            AppError::bad(
                "对外访问地址必须为 https://(本机回环预览可用 http:// 并关闭 Secure Cookie)",
            ),
        );
    }
    let extra_origins = read_origins(req.extra_origins.as_str());
    assert(views(extra_origins@).len() == extra_origins@.len());
    if extra_origins.len() > 16 {
        return Err(AppError::bad("额外 Origin 最多 16 条"));
    }
    if !origins_ok(extra_origins.as_slice(), dev_local) {
        return Err(
            AppError::bad(
                "额外 Origin 每条须为 https://(本机预览可 http://),且不超过 200 字符",
            ),
        );
    }
    Ok((NetCfg { public_url, extra_origins }, req.report_interval_secs as u32))
}

/// Addresses that were set while the server runs are as good as those of a configuration that is
/// accepted: they begin as they have to.
pub proof fn lemma_settings_as_strict_as_configuration(q: SettingsReq, dev_local: bool)
    requires
        settings_refused(q, dev_local) is None,
    ensures
        good_scheme(trimmed(q.public_url@), dev_local),
        good_schemes(filled_lines(lines(q.extra_origins@)), dev_local),
{
    let v = filled_lines(lines(q.extra_origins@));
    assert forall|i: int| 0 <= i < v.len() implies good_scheme(#[trigger] v[i], dev_local) by {
        assert(byte_len(v[i]) <= 200);
    }
}

/// The record of a change of the settings.
pub fn settings_detail(req: &SettingsReq) -> (r: String)
    ensures
        r@ == "interval="@ + decimal_int(req.report_interval_secs as int) + " retention="@
            + decimal_int(req.retention_days as int) + "d public_url="@ + req.public_url@,
{
    let mut s = "interval=".to_string();
    s.append(show_i64(req.report_interval_secs).as_str());
    s.append(" retention=");
    s.append(show_i64(req.retention_days).as_str());
    s.append("d public_url=");
    s.append(req.public_url.as_str());
    s
}

/// The address of the page that shows the state of the nodes to everybody.
pub open spec fn status_address(public_url: Seq<char>, slug: Seq<char>) -> Seq<char> {
    strip_end(public_url, '/') + "/status/"@ + slug
}

/// The address of the page that shows the state of the nodes to everybody; empty where there is none.
pub fn status_url(public_url: &str, slug: &str) -> (r: String)
    ensures
        r@ == if slug@.len() == 0 {
            ""@
        } else {
            status_address(public_url@, slug@)
        },
{
    if slug.is_empty() {
        return "".to_string();
    }
    let v = chars_of(public_url);
    let mut s = string_of(drop_trailing(v.as_slice(), '/'));
    s.append("/status/");
    s.append(slug);
    s
}

// ---------------------------------------------------------------------------
// The record as a table
// ---------------------------------------------------------------------------

/// With such a character at its beginning, a cell is taken for a formula.
pub open spec fn begins_formula(c: char) -> bool {
    c == '=' || c == '+' || c == '-' || c == '@' || c == '\t'
}

/// What a cell says: the text on one line, behind an apostrophe where it would be a formula.
pub open spec fn cell_text(s: Seq<char>) -> Seq<char> {
    let c = on_one_line(s);
    if c.len() > 0 && begins_formula(c[0]) {
        seq!['\''] + c
    } else {
        c
    }
}

/// A cell of a table with commas between its cells.
pub open spec fn cell(s: Seq<char>) -> Seq<char> {
    let t = cell_text(s);
    if t.contains(',') || t.contains('"') {
        seq!['"'] + doubled(t, '"') + seq!['"']
    } else {
        t
    }
}

/// A cell of a table with commas between its cells.
pub fn csv_cell(s: &str) -> (r: String)
    ensures
        r@ == cell(s@),
{
    let v = chars_of(s);
    let c = without_line_ends(v.as_slice());
    let mut t: Vec<char> = Vec::new();
    if c.len() > 0 && (c[0] == '=' || c[0] == '+' || c[0] == '-' || c[0] == '@' || c[0] == '\t') {
        t.push('\'');
    }
    let ghost before = t@;
    let mut i: usize = 0;
    while i < c.len()
        invariant
            i <= c@.len(),
            t@ == before + c@.take(i as int),
        decreases c@.len() - i,
    {
        t.push(c[i]);
        i = i + 1;
        assert(t@ =~= before + c@.take(i as int));
    }
    assert(c@.take(i as int) =~= c@);
    assert(t@ =~= cell_text(s@));
    if find(t.as_slice(), ',').is_none() && find(t.as_slice(), '"').is_none() {
        return string_of(t.as_slice());
    }
    let mut out = String::new();
    out.push('"');
    out.append(double_chars(t.as_slice(), '"').as_str());
    out.push('"');
    out
}

/// What a reader of a table makes of a cell: without its outer quotation marks, and every pair of
/// inner ones as one.
pub open spec fn read_cell(c: Seq<char>) -> Seq<char> {
    if c.len() >= 2 && c[0] == '"' {
        undoubled(c.subrange(1, c.len() - 1), '"')
    } else {
        c
    }
}

/// Whatever a user wrote, a cell stays one cell and is no formula: it holds no line end, a reader
/// gets back the text on one line, with an apostrophe before it where it would have been a formula.
pub proof fn lemma_cell_is_harmless(s: Seq<char>)
    ensures
        !cell(s).contains('\r'),
        !cell(s).contains('\n'),
        read_cell(cell(s)) == cell_text(s),
        cell_text(s).len() > 0 ==> !begins_formula(cell_text(s)[0]),
{
    lemma_on_one_line(s);
    let o = on_one_line(s);
    let t = cell_text(s);
    assert forall|i: int| 0 <= i < t.len() implies #[trigger] t[i] != '\r' && t[i] != '\n' by {
        if o.len() > 0 && begins_formula(o[0]) {
            if i > 0 {
                assert(t[i] == o[i - 1]);
            }
        } else {
            assert(t[i] == o[i]);
        }
    }
    lemma_doubled(t, '"');
    if t.contains(',') || t.contains('"') {
        let d = doubled(t, '"');
        let c = cell(s);
        assert(c.subrange(1, c.len() - 1) =~= d);
        assert forall|i: int| 0 <= i < c.len() implies #[trigger] c[i] != '\r' && c[i] != '\n' by {
            if 0 < i < c.len() - 1 {
                assert(c[i] == d[i - 1]);
                assert(t.contains(d[i - 1]));
            }
        }
    } else {
        if t.len() > 0 {
            assert(t[0] != '"') by {
                if t[0] == '"' {
                    assert(t.contains('"'));
                }
            }
        }
    }
}

/// One line of the record as a table.
pub open spec fn audit_line(e: AuditEntry) -> Seq<char> {
    decimal_int(e.ts as int) + ","@ + decimal_int(e.ts as int) + ","@ + cell(e.username@) + ","@
        + cell(e.ip@) + ","@ + cell(e.action@) + ","@ + cell(e.detail@) + "\n"@
}

/// The lines of the record as a table.
pub open spec fn audit_lines(v: Seq<AuditEntry>) -> Seq<char>
    decreases v.len(),
{
    if v.len() == 0 {
        Seq::empty()
    } else {
        audit_lines(v.drop_last()) + audit_line(v.last())
    }
}

/// The record as a table.
pub fn audit_export(rows: &[AuditEntry]) -> (r: String)
    ensures
        r@ == "ts,time,username,ip,action,detail\n"@ + audit_lines(rows@),
{
    let mut csv = "ts,time,username,ip,action,detail\n".to_string();
    let mut i: usize = 0;
    assert(rows@.take(0) =~= Seq::empty());
    assert(csv@ =~= "ts,time,username,ip,action,detail\n"@ + audit_lines(rows@.take(0)));
    while i < rows.len()
        invariant
            i <= rows@.len(),
            csv@ == "ts,time,username,ip,action,detail\n"@ + audit_lines(rows@.take(i as int)),
        decreases rows@.len() - i,
    {
        assert(rows@.take(i + 1).drop_last() =~= rows@.take(i as int));
        let e = &rows[i];
        let ts = show_i64(e.ts);
        let ghost before = csv@;
        csv.append(ts.as_str());
        csv.append(",");
        csv.append(ts.as_str());
        csv.append(",");
        csv.append(csv_cell(e.username.as_str()).as_str());
        csv.append(",");
        csv.append(csv_cell(e.ip.as_str()).as_str());
        csv.append(",");
        csv.append(csv_cell(e.action.as_str()).as_str());
        csv.append(",");
        csv.append(csv_cell(e.detail.as_str()).as_str());
        csv.append("\n");
        assert(csv@ =~= before + audit_line(rows@[i as int]));
        assert(csv@ =~= "ts,time,username,ip,action,detail\n"@ + audit_lines(rows@.take(i + 1)));
        i = i + 1;
    }
    assert(rows@.take(i as int) =~= rows@);
    csv
}

} // verus!
