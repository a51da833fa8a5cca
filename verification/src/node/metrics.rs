//! Runtime counters.
use vstd::prelude::*;

verus! {

/// In-process counters.
#[derive(Debug, Clone, Copy, PartialEq, Eq, Structural)]
pub struct Metrics {
    /// Messages dropped.
    pub messages_dropped: u64,
    /// Envelopes forwarded.
    pub messages_forwarded: u64,
    /// PEX rounds applied.
    pub pex_rounds: u64,
    /// Repair ticks run.
    pub repair_ticks: u64,
}

impl Default for Metrics {
    fn default() -> (m: Metrics)
        ensures
            m == (Metrics { messages_dropped: 0, messages_forwarded: 0, pex_rounds: 0, repair_ticks: 0 }),
    {
        Metrics { messages_dropped: 0, messages_forwarded: 0, pex_rounds: 0, repair_ticks: 0 }
    }
}

} // verus!
