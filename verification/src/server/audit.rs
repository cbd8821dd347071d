//! The record of what users and agents did. No token, password or key is written to it.

use crate::common::{clean_str, cleaned};
use vstd::prelude::*;
use vstd::string::*;

verus! {

/// One entry of the record.
#[derive(Debug)]
pub struct AuditEntry {
    pub ts: i64,
    pub username: String,
    pub ip: String,
    pub action: String,
    pub detail: String,
}

/// An entry: names and details without control characters and not too long, whatever was given.
pub fn log(ts: i64, username: &str, ip: &str, action: &str, detail: &str) -> (r: AuditEntry)
    ensures
        r.ts == ts,
        r.username@ == cleaned(username@, 64),
        r.ip@ == cleaned(ip@, 64),
        r.action@ == action@,
        r.detail@ == cleaned(detail@, 256),
{
    AuditEntry {
        ts,
        username: clean_str(username, 64),
        ip: clean_str(ip, 64),
        action: action.to_string(),
        detail: clean_str(detail, 256),
    }
}

} // verus!
