//! Performance counters for generation runs.

use vstd::prelude::*;

verus! {

/// Counters a caller may keep per generation run. Peak memory is tracked
/// in kibibytes.
#[derive(Debug, Clone, Copy, PartialEq, Eq, Structural)]
pub struct PerformanceMetrics {
    pub generation_time_ms: u64,
    pub wfc_iterations: u32,
    pub constraint_checks: u32,
    pub anomaly_checks: u32,
    pub memory_peak_kb: u64,
}

impl PerformanceMetrics {
    pub fn new() -> (r: PerformanceMetrics)
        ensures
            r.generation_time_ms == 0,
            r.wfc_iterations == 0,
            r.constraint_checks == 0,
            r.anomaly_checks == 0,
            r.memory_peak_kb == 0,
    {
        PerformanceMetrics {
            generation_time_ms: 0,
            wfc_iterations: 0,
            constraint_checks: 0,
            anomaly_checks: 0,
            memory_peak_kb: 0,
        }
    }

    pub fn record_generation_time(&mut self, time_ms: u64)
        ensures
            *final(self) == (PerformanceMetrics { generation_time_ms: time_ms, ..*old(self) }),
    {
        self.generation_time_ms = time_ms;
    }

    /// Saturating at the counter's ceiling.
    pub fn increment_wfc_iterations(&mut self)
        ensures
            final(self).wfc_iterations == if old(self).wfc_iterations < u32::MAX {
                old(self).wfc_iterations + 1
            } else {
                old(self).wfc_iterations as int
            },
            final(self).generation_time_ms == old(self).generation_time_ms,
            final(self).constraint_checks == old(self).constraint_checks,
            final(self).anomaly_checks == old(self).anomaly_checks,
            final(self).memory_peak_kb == old(self).memory_peak_kb,
    {
        if self.wfc_iterations < u32::MAX {
            self.wfc_iterations = self.wfc_iterations + 1;
        }
    }

    pub fn increment_constraint_checks(&mut self)
        ensures
            final(self).constraint_checks == if old(self).constraint_checks < u32::MAX {
                old(self).constraint_checks + 1
            } else {
                old(self).constraint_checks as int
            },
            final(self).generation_time_ms == old(self).generation_time_ms,
            final(self).wfc_iterations == old(self).wfc_iterations,
            final(self).anomaly_checks == old(self).anomaly_checks,
            final(self).memory_peak_kb == old(self).memory_peak_kb,
    {
        if self.constraint_checks < u32::MAX {
            self.constraint_checks = self.constraint_checks + 1;
        }
    }

    pub fn increment_anomaly_checks(&mut self)
        ensures
            final(self).anomaly_checks == if old(self).anomaly_checks < u32::MAX {
                old(self).anomaly_checks + 1
            } else {
                old(self).anomaly_checks as int
            },
            final(self).generation_time_ms == old(self).generation_time_ms,
            final(self).wfc_iterations == old(self).wfc_iterations,
            final(self).constraint_checks == old(self).constraint_checks,
            final(self).memory_peak_kb == old(self).memory_peak_kb,
    {
        if self.anomaly_checks < u32::MAX {
            self.anomaly_checks = self.anomaly_checks + 1;
        }
    }

    /// Keeps the high-water mark.
    pub fn record_memory_usage(&mut self, memory_kb: u64)
        ensures
            final(self).memory_peak_kb == if memory_kb > old(self).memory_peak_kb {
                memory_kb
            } else {
                old(self).memory_peak_kb
            },
            final(self).generation_time_ms == old(self).generation_time_ms,
            final(self).wfc_iterations == old(self).wfc_iterations,
            final(self).constraint_checks == old(self).constraint_checks,
            final(self).anomaly_checks == old(self).anomaly_checks,
    {
        if memory_kb > self.memory_peak_kb {
            self.memory_peak_kb = memory_kb;
        }
    }
}

} // verus!
