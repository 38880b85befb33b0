//! The record kept of each proxied request.

use vstd::prelude::*;

verus! {

/// How many of the most recent records the statistics endpoint returns.
pub const STATS_LIMIT: u32 = 100;

/// One proxied request: who asked which server for what, the upstream status
/// (absent when the upstream could not be reached), how long it took, and the
/// connection error if any.
#[derive(Debug, Clone, PartialEq, Eq)]
pub struct LogEntry {
    pub id: String,
    pub ts: String,
    pub server_name: String,
    pub client_ip: String,
    pub method: String,
    pub path: String,
    pub status: Option<i64>,
    pub latency_ms: Option<i64>,
    pub error: Option<String>,
}

} // verus!
