//! Throughput telemetry: how far a synchronizer came since it was last
//! reported. It observes and decides nothing.

use vstd::prelude::*;

verus! {

/// Seconds between two reports.
pub const REPORT_INTERVAL_SECS: u64 = 5;

/// What a report says.
#[derive(Clone, Copy, Debug, PartialEq, Eq, Structural)]
pub struct Report {
    /// The index that was reached.
    pub index: u64,
    /// How many indices were passed since the last report.
    pub synced: u64,
    /// The whole seconds that went by since the last report.
    pub elapsed_secs: u64,
}

/// Keeps the index at which progress was last reported.
pub struct ProgressLog {
    last_index: u64,
}

impl View for ProgressLog {
    type V = u64;

    closed spec fn view(&self) -> u64 {
        self.last_index
    }
}

/// Whether a report is due once `index` is reached.
pub open spec fn report_due(last_index: u64, index: u64, elapsed_secs: u64) -> bool {
    elapsed_secs >= REPORT_INTERVAL_SECS && index >= last_index
}

impl ProgressLog {
    /// A log that counts from `start`.
    pub fn new(start: u64) -> (log: ProgressLog)
        ensures
            log@ == start,
    {
        ProgressLog { last_index: start }
    }

    /// Takes note that `index` was reached `elapsed_secs` whole seconds
    /// after the last report. Where a report is due it says how many indices
    /// were passed since, and the count starts anew at `index`.
    pub fn observe(&mut self, index: u64, elapsed_secs: u64) -> (report: Option<Report>)
        ensures
            report_due(old(self)@, index, elapsed_secs) ==> report == Some(
                Report { index, synced: (index - old(self)@) as u64, elapsed_secs },
            ) && final(self)@ == index,
            !report_due(old(self)@, index, elapsed_secs) ==> report is None && final(self)@ == old(self)@,
    {
        if elapsed_secs >= REPORT_INTERVAL_SECS && index >= self.last_index {
            let synced = index - self.last_index;
            self.last_index = index;
            Some(Report { index, synced, elapsed_secs })
        } else {
            None
        }
    }
}

} // verus!
