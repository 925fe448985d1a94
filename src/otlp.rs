//! Settings of the metrics pipeline that the run reports through.
use vstd::prelude::*;
use crate::report::ExecMode;

verus! {

/// Wire protocol of the metrics exporter.
#[derive(Debug, Clone, Copy, PartialEq, Eq, Structural)]
pub enum OtlpProtocol {
    Grpc,
    HttpBinary,
    HttpJson,
}

/// Seconds between two reports on the console in interactive mode.
pub const REPORT_INTERVAL_SECS: u64 = 1;

/// Seconds between two console reports: every second when interactive,
/// else never during the run (the final report is printed at shutdown).
pub fn console_interval_secs(no_interactive: bool) -> (r: u64)
    ensures
        r == if no_interactive {
            u64::MAX
        } else {
            REPORT_INTERVAL_SECS
        },
{
    if no_interactive {
        u64::MAX
    } else {
        REPORT_INTERVAL_SECS
    }
}

/// The progress mode of a run with this request count or duration (in
/// seconds); `None` unless exactly one of them is given.
pub fn exec_mode_of(requests: Option<u64>, duration_secs: Option<u64>) -> (r: Option<ExecMode>)
    ensures
        r == match (requests, duration_secs) {
            (Some(n), None) => Some(ExecMode::ByCount(n)),
            (None, Some(d)) => Some(ExecMode::ByDuration(d)),
            _ => None::<ExecMode>,
        },
{
    match (requests, duration_secs) {
        (Some(n), None) => Some(ExecMode::ByCount(n)),
        (None, Some(d)) => Some(ExecMode::ByDuration(d)),
        _ => None,
    }
}

} // verus!
