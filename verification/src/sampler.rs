//! What one sampler tick yields, and the clean-up of raw counters.

use vstd::prelude::*;

use crate::state::Snapshot;
use crate::text::{int_text, push_str, push_u64_padded};

verus! {

/// Outcome of a single sampler tick.
#[derive(Debug)]
pub enum TickResult {
    /// The tick produced a fresh snapshot.
    Fresh(Box<Snapshot>),
    /// The tick was cancelled by `statement_timeout`: the UI keeps the
    /// previous snapshot and shows a "stale" badge.
    Missed,
}

/// A counter read from Postgres as `int4`, with negatives read as 0.
pub fn nonneg_count(v: i32) -> (r: u32)
    ensures
        r == (if v < 0 { 0 } else { v as int }),
{
    if v < 0 {
        0
    } else {
        v as u32
    }
}

/// Statement that bounds each sampling query to `timeout_ms`
/// milliseconds; `None` when the timeout is disabled (0).
pub fn statement_timeout_sql(timeout_ms: u64) -> (r: Option<String>)
    ensures
        timeout_ms == 0 ==> r is None,
        timeout_ms > 0 ==> (r matches Some(s) && s@ == "set statement_timeout = '"@ + int_text(
            timeout_ms as int,
        ) + "ms'"@),
{
    if timeout_ms == 0 {
        return None;
    }
    let mut s = String::new();
    push_str(&mut s, "set statement_timeout = '");
    push_u64_padded(&mut s, timeout_ms, 0);
    push_str(&mut s, "ms'");
    Some(s)
}

/// Statement that lifts the sampling timeout again; `None` when no
/// timeout was set (0).
pub fn reset_timeout_sql(timeout_ms: u64) -> (r: Option<&'static str>)
    ensures
        timeout_ms == 0 ==> r is None,
        timeout_ms > 0 ==> (r matches Some(s) && s@ == "set statement_timeout = 0"@),
{
    if timeout_ms == 0 {
        None
    } else {
        Some("set statement_timeout = 0")
    }
}

} // verus!
