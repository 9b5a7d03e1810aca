//! Counters for tool-call outcomes and transformation timings.
//!
//! The counters here are the sequential core, advanced through `&mut self`
//! so that each recording states its exact effect; relaxed process-wide
//! atomics advanced through `&self` could not. Sharing them is the
//! embedding program's concern. Counters saturate rather than wrap.

use vstd::prelude::*;

verus! {

/// Tool-calling metrics.
pub struct ToolMetrics {
    pub total_calls: u64,
    pub successful_transformations: u64,
    pub failed_transformations: u64,
    pub tool_results_processed: u64,
    pub state_lookup_failures: u64,
    pub total_transform_time_us: u64,
}

/// The counters read at one moment.
pub struct MetricsSnapshot {
    pub total_calls: u64,
    pub successful_transformations: u64,
    pub failed_transformations: u64,
    pub tool_results_processed: u64,
    pub state_lookup_failures: u64,
    pub avg_transform_time_us: u64,
    pub success_rate_percent: u64,
}

/// `a + b`, stopping at the counter's ceiling.
pub open spec fn sat_add(a: u64, b: u64) -> u64 {
    if a + b <= u64::MAX {
        (a + b) as u64
    } else {
        u64::MAX
    }
}

fn add_sat(a: u64, b: u64) -> (r: u64)
    ensures
        r == sat_add(a, b),
{
    if a <= u64::MAX - b {
        a + b
    } else {
        u64::MAX
    }
}

/// The counters after one successful transformation taking `micros`.
pub open spec fn spec_record_transformation(m: ToolMetrics, micros: u64) -> ToolMetrics {
    ToolMetrics {
        total_calls: sat_add(m.total_calls, 1),
        successful_transformations: sat_add(m.successful_transformations, 1),
        total_transform_time_us: sat_add(m.total_transform_time_us, micros),
        ..m
    }
}

/// The counters after one failed transformation.
pub open spec fn spec_record_failure(m: ToolMetrics) -> ToolMetrics {
    ToolMetrics {
        total_calls: sat_add(m.total_calls, 1),
        failed_transformations: sat_add(m.failed_transformations, 1),
        ..m
    }
}

/// The counters after one tool result processed.
pub open spec fn spec_record_tool_result(m: ToolMetrics) -> ToolMetrics {
    ToolMetrics { tool_results_processed: sat_add(m.tool_results_processed, 1), ..m }
}

/// The counters after one failed correlation-store lookup.
pub open spec fn spec_record_state_lookup_failure(m: ToolMetrics) -> ToolMetrics {
    ToolMetrics { state_lookup_failures: sat_add(m.state_lookup_failures, 1), ..m }
}

impl ToolMetrics {
    /// All counters at zero.
    pub fn new() -> (r: ToolMetrics)
        ensures
            r.total_calls == 0,
            r.successful_transformations == 0,
            r.failed_transformations == 0,
            r.tool_results_processed == 0,
            r.state_lookup_failures == 0,
            r.total_transform_time_us == 0,
    {
        ToolMetrics {
            total_calls: 0,
            successful_transformations: 0,
            failed_transformations: 0,
            tool_results_processed: 0,
            state_lookup_failures: 0,
            total_transform_time_us: 0,
        }
    }

    /// Records one successful transformation that took `micros`.
    pub fn record_transformation(&mut self, micros: u64)
        ensures
            *final(self) == spec_record_transformation(*old(self), micros),
            final(self).total_calls == sat_add(old(self).total_calls, 1),
            final(self).successful_transformations == sat_add(
                old(self).successful_transformations,
                1,
            ),
            final(self).total_transform_time_us == sat_add(
                old(self).total_transform_time_us,
                micros,
            ),
            final(self).failed_transformations == old(self).failed_transformations,
            final(self).tool_results_processed == old(self).tool_results_processed,
            final(self).state_lookup_failures == old(self).state_lookup_failures,
    {
        self.total_calls = add_sat(self.total_calls, 1);
        self.successful_transformations = add_sat(self.successful_transformations, 1);
        self.total_transform_time_us = add_sat(self.total_transform_time_us, micros);
    }

    /// Records one failed transformation.
    pub fn record_failure(&mut self)
        ensures
            *final(self) == spec_record_failure(*old(self)),
            final(self).total_calls == sat_add(old(self).total_calls, 1),
            final(self).failed_transformations == sat_add(old(self).failed_transformations, 1),
            final(self).successful_transformations == old(self).successful_transformations,
            final(self).tool_results_processed == old(self).tool_results_processed,
            final(self).state_lookup_failures == old(self).state_lookup_failures,
            final(self).total_transform_time_us == old(self).total_transform_time_us,
    {
        self.total_calls = add_sat(self.total_calls, 1);
        self.failed_transformations = add_sat(self.failed_transformations, 1);
    }

    /// Records one tool result processed.
    pub fn record_tool_result(&mut self)
        ensures
            *final(self) == spec_record_tool_result(*old(self)),
            final(self).tool_results_processed == sat_add(old(self).tool_results_processed, 1),
            final(self).total_calls == old(self).total_calls,
            final(self).successful_transformations == old(self).successful_transformations,
            final(self).failed_transformations == old(self).failed_transformations,
            final(self).state_lookup_failures == old(self).state_lookup_failures,
            final(self).total_transform_time_us == old(self).total_transform_time_us,
    {
        self.tool_results_processed = add_sat(self.tool_results_processed, 1);
    }

    /// Records one failed correlation-store lookup.
    pub fn record_state_lookup_failure(&mut self)
        ensures
            *final(self) == spec_record_state_lookup_failure(*old(self)),
            final(self).state_lookup_failures == sat_add(old(self).state_lookup_failures, 1),
            final(self).total_calls == old(self).total_calls,
            final(self).successful_transformations == old(self).successful_transformations,
            final(self).failed_transformations == old(self).failed_transformations,
            final(self).tool_results_processed == old(self).tool_results_processed,
            final(self).total_transform_time_us == old(self).total_transform_time_us,
    {
        self.state_lookup_failures = add_sat(self.state_lookup_failures, 1);
    }

    /// The mean time of a successful transformation, in microseconds; zero
    /// when none succeeded yet.
    pub fn avg_transform_time_us(&self) -> (r: u64)
        ensures
            r == if self.successful_transformations > 0 {
                (self.total_transform_time_us as int / self.successful_transformations as int)
                    as u64
            } else {
                0u64
            },
    {
        if self.successful_transformations > 0 {
            self.total_transform_time_us / self.successful_transformations
        } else {
            0
        }
    }

    /// The share of calls that succeeded, in whole percent; zero when no
    /// call was recorded yet.
    pub fn success_rate_percent(&self) -> (r: u64)
        ensures
            r == if self.total_calls > 0 {
                let v = self.successful_transformations as int * 100 / self.total_calls as int;
                if v > u64::MAX {
                    u64::MAX
                } else {
                    v as u64
                }
            } else {
                0u64
            },
    {
        if self.total_calls > 0 {
            let s = self.successful_transformations as u128;
            let t = self.total_calls as u128;
            proof {
                assert(s * 100 <= u128::MAX) by (nonlinear_arith)
                    requires
                        s <= u64::MAX,
                ;
                assert(s as int * 100 / t as int == self.successful_transformations as int
                    * 100 / self.total_calls as int) by (nonlinear_arith)
                    requires
                        s as int == self.successful_transformations as int,
                        t as int == self.total_calls as int,
                        t > 0,
                ;
            }
            let v = s * 100 / t;
            if v > u64::MAX as u128 {
                u64::MAX
            } else {
                v as u64
            }
        } else {
            0
        }
    }

    /// The counters as one record.
    pub fn snapshot(&self) -> (r: MetricsSnapshot)
        ensures
            r.total_calls == self.total_calls,
            r.successful_transformations == self.successful_transformations,
            r.failed_transformations == self.failed_transformations,
            r.tool_results_processed == self.tool_results_processed,
            r.state_lookup_failures == self.state_lookup_failures,
    {
        MetricsSnapshot {
            total_calls: self.total_calls,
            successful_transformations: self.successful_transformations,
            failed_transformations: self.failed_transformations,
            tool_results_processed: self.tool_results_processed,
            state_lookup_failures: self.state_lookup_failures,
            avg_transform_time_us: self.avg_transform_time_us(),
            success_rate_percent: self.success_rate_percent(),
        }
    }

    /// Resets every counter to zero.
    pub fn reset(&mut self)
        ensures
            final(self).total_calls == 0,
            final(self).successful_transformations == 0,
            final(self).failed_transformations == 0,
            final(self).tool_results_processed == 0,
            final(self).state_lookup_failures == 0,
            final(self).total_transform_time_us == 0,
    {
        self.total_calls = 0;
        self.successful_transformations = 0;
        self.failed_transformations = 0;
        self.tool_results_processed = 0;
        self.state_lookup_failures = 0;
        self.total_transform_time_us = 0;
    }
}

impl MetricsSnapshot {
    /// A one-line rendering of the snapshot.
    pub fn describe(&self) -> (r: String)
        ensures
            r@.len() > 0,
    {
        broadcast use vstd::string::group_string_axioms;

        let mut out = String::from_str("calls: ");
        out.append(crate::text::u64_to_string(self.total_calls).as_str());
        out.append(", results: ");
        out.append(crate::text::u64_to_string(self.tool_results_processed).as_str());
        out.append(", state failures: ");
        out.append(crate::text::u64_to_string(self.state_lookup_failures).as_str());
        proof {
            reveal_strlit("calls: ");
        }
        out
    }
}

} // verus!
