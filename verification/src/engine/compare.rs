//! Two servers side by side.

use vstd::prelude::*;

use crate::config::ServerAddr;
use crate::stats::snapshot::StatsSnapshot;

verus! {

/// The figures of two servers.
#[derive(Debug, Clone, Copy)]
pub struct CompareResult {
    pub primary: StatsSnapshot,
    pub secondary: StatsSnapshot,
    pub primary_addr: ServerAddr,
    pub secondary_addr: ServerAddr,
}

impl CompareResult {
    /// Puts the two runs together; if both failed, the first one's reason counts.
    pub fn of_runs(
        primary: Result<StatsSnapshot, String>,
        secondary: Result<StatsSnapshot, String>,
        primary_addr: ServerAddr,
        secondary_addr: ServerAddr,
    ) -> (r: Result<CompareResult, String>)
        ensures
            match (primary, secondary) {
                (Ok(a), Ok(b)) => r == Ok::<CompareResult, String>(
                    CompareResult { primary: a, secondary: b, primary_addr, secondary_addr },
                ),
                (Err(e), _) => r == Err::<CompareResult, String>(e),
                (Ok(_), Err(e)) => r == Err::<CompareResult, String>(e),
            },
    {
        match primary {
            Ok(a) => match secondary {
                Ok(b) => Ok(
                    CompareResult { primary: a, secondary: b, primary_addr, secondary_addr },
                ),
                Err(e) => Err(e),
            },
            Err(e) => Err(e),
        }
    }
}

} // verus!
