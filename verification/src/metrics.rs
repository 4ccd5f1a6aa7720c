//! Counters for the pipeline's health and the snapshot derived from them.
//! The embedding process shares one `MetricsData` behind its lock; every
//! transition on it is verified here. Rates are reported in hundredths of a
//! percent, so that the snapshot stays in integers.

use vstd::prelude::*;

verus! {

/// The raw counters.
#[derive(Debug, Clone)]
pub struct MetricsData {
    pub events_published: u64,
    pub events_replayed: u64,
    pub events_failed: u64,
    pub functions_executed: u64,
    pub functions_succeeded: u64,
    pub functions_failed: u64,
    pub total_execution_time_ms: u64,
    pub uptime_seconds: u64,
    pub nats_connected: bool,
}

/// A point-in-time view of the counters with the derived rates.
#[derive(Debug, Clone)]
pub struct Metrics {
    pub events: EventMetrics,
    pub functions: FunctionMetrics,
    pub system: SystemMetrics,
}

#[derive(Debug, Clone)]
pub struct EventMetrics {
    pub published: u64,
    pub replayed: u64,
    pub failed: u64,
    /// Success rate in hundredths of a percent: 10000 means every event
    /// went through.
    pub success_rate_centi_pct: u64,
}

#[derive(Debug, Clone)]
pub struct FunctionMetrics {
    pub executed: u64,
    pub succeeded: u64,
    pub failed: u64,
    /// Success rate in hundredths of a percent.
    pub success_rate_centi_pct: u64,
    /// Average execution time in milliseconds, rounded down.
    pub avg_execution_time_ms: u64,
}

#[derive(Debug, Clone)]
pub struct SystemMetrics {
    pub uptime_seconds: u64,
    pub nats_connected: bool,
}

/// A success rate over `total` attempts of which `failed` failed, in
/// hundredths of a percent; an empty total counts as full success, and more
/// failures than attempts count as none.
pub open spec fn rate_centi_pct(total: int, failed: int) -> int {
    if total <= 0 {
        10000
    } else if failed >= total {
        0
    } else {
        ((total - failed) * 10000) / total
    }
}

impl MetricsData {
    /// All counters at zero, not connected.
    pub fn new() -> (r: MetricsData)
        ensures
            r.events_published == 0 && r.events_replayed == 0 && r.events_failed == 0,
            r.functions_executed == 0 && r.functions_succeeded == 0 && r.functions_failed == 0,
            r.total_execution_time_ms == 0 && r.uptime_seconds == 0 && !r.nats_connected,
    {
        MetricsData {
            events_published: 0,
            events_replayed: 0,
            events_failed: 0,
            functions_executed: 0,
            functions_succeeded: 0,
            functions_failed: 0,
            total_execution_time_ms: 0,
            uptime_seconds: 0,
            nats_connected: false,
        }
    }

    /// One more event published; the counter saturates at its maximum.
    pub fn increment_events_published(&mut self)
        ensures
            final(self).events_published == if old(self).events_published == u64::MAX {
                old(self).events_published as int
            } else {
                old(self).events_published + 1
            },
            *final(self) == (MetricsData {
                events_published: final(self).events_published,
                ..*old(self)
            }),
    {
        if self.events_published < u64::MAX {
            self.events_published = self.events_published + 1;
        }
    }

    /// One more event replayed.
    pub fn increment_events_replayed(&mut self)
        ensures
            final(self).events_replayed == if old(self).events_replayed == u64::MAX {
                old(self).events_replayed as int
            } else {
                old(self).events_replayed + 1
            },
            *final(self) == (MetricsData {
                events_replayed: final(self).events_replayed,
                ..*old(self)
            }),
    {
        if self.events_replayed < u64::MAX {
            self.events_replayed = self.events_replayed + 1;
        }
    }

    /// One more event whose publish failed.
    pub fn increment_events_failed(&mut self)
        ensures
            final(self).events_failed == if old(self).events_failed == u64::MAX {
                old(self).events_failed as int
            } else {
                old(self).events_failed + 1
            },
            *final(self) == (MetricsData { events_failed: final(self).events_failed, ..*old(self) }),
    {
        if self.events_failed < u64::MAX {
            self.events_failed = self.events_failed + 1;
        }
    }

    /// One function execution: the execution counter, the time sum, and the
    /// succeeded or failed counter move together; every counter saturates.
    pub fn record_function_execution(&mut self, duration_ms: u64, success: bool)
        ensures
            final(self).functions_executed == if old(self).functions_executed == u64::MAX {
                old(self).functions_executed as int
            } else {
                old(self).functions_executed + 1
            },
            final(self).total_execution_time_ms == if old(self).total_execution_time_ms + duration_ms
                > u64::MAX {
                u64::MAX as int
            } else {
                old(self).total_execution_time_ms + duration_ms
            },
            success ==> final(self).functions_succeeded == (if old(self).functions_succeeded
                == u64::MAX {
                old(self).functions_succeeded as int
            } else {
                old(self).functions_succeeded + 1
            }) && final(self).functions_failed == old(self).functions_failed,
            !success ==> final(self).functions_failed == (if old(self).functions_failed == u64::MAX {
                old(self).functions_failed as int
            } else {
                old(self).functions_failed + 1
            }) && final(self).functions_succeeded == old(self).functions_succeeded,
            final(self).events_published == old(self).events_published,
            final(self).events_replayed == old(self).events_replayed,
            final(self).events_failed == old(self).events_failed,
            final(self).uptime_seconds == old(self).uptime_seconds,
            final(self).nats_connected == old(self).nats_connected,
    {
        if self.functions_executed < u64::MAX {
            self.functions_executed = self.functions_executed + 1;
        }
        if self.total_execution_time_ms <= u64::MAX - duration_ms {
            self.total_execution_time_ms = self.total_execution_time_ms + duration_ms;
        } else {
            self.total_execution_time_ms = u64::MAX;
        }
        if success {
            if self.functions_succeeded < u64::MAX {
                self.functions_succeeded = self.functions_succeeded + 1;
            }
        } else {
            if self.functions_failed < u64::MAX {
                self.functions_failed = self.functions_failed + 1;
            }
        }
    }

    /// Record whether the stream backend is connected.
    pub fn set_nats_connected(&mut self, connected: bool)
        ensures
            *final(self) == (MetricsData { nats_connected: connected, ..*old(self) }),
    {
        self.nats_connected = connected;
    }

    /// Record the process uptime.
    pub fn update_uptime(&mut self, seconds: u64)
        ensures
            *final(self) == (MetricsData { uptime_seconds: seconds, ..*old(self) }),
    {
        self.uptime_seconds = seconds;
    }

    /// The snapshot with derived rates: event success over published plus
    /// replayed, function success over executions, and the mean execution
    /// time.
    pub fn get_metrics(&self) -> (r: Metrics)
        ensures
            r.events.published == self.events_published,
            r.events.replayed == self.events_replayed,
            r.events.failed == self.events_failed,
            r.events.success_rate_centi_pct == rate_centi_pct(
                self.events_published + self.events_replayed,
                self.events_failed as int,
            ),
            r.functions.executed == self.functions_executed,
            r.functions.succeeded == self.functions_succeeded,
            r.functions.failed == self.functions_failed,
            r.functions.success_rate_centi_pct == rate_centi_pct(
                self.functions_executed as int,
                if self.functions_succeeded <= self.functions_executed {
                    self.functions_executed - self.functions_succeeded
                } else {
                    0int
                },
            ),
            self.functions_executed > 0 ==> r.functions.avg_execution_time_ms as int
                == self.total_execution_time_ms as int / self.functions_executed as int,
            self.functions_executed == 0 ==> r.functions.avg_execution_time_ms == 0,
            r.system.uptime_seconds == self.uptime_seconds,
            r.system.nats_connected == self.nats_connected,
    {
        let event_total: u128 = (self.events_published as u128) + (self.events_replayed as u128);
        let event_rate: u64 = rate_of(event_total, self.events_failed as u128);
        let fn_failed: u128 = if self.functions_executed >= self.functions_succeeded {
            (self.functions_executed - self.functions_succeeded) as u128
        } else {
            0
        };
        proof {
            assert(self.functions_executed - self.functions_succeeded <= self.functions_executed);
        }
        let fn_rate: u64 = rate_of(self.functions_executed as u128, fn_failed);
        let avg: u64 = if self.functions_executed > 0 {
            self.total_execution_time_ms / (self.functions_executed as u64)
        } else {
            0
        };
        Metrics {
            events: EventMetrics {
                published: self.events_published,
                replayed: self.events_replayed,
                failed: self.events_failed,
                success_rate_centi_pct: event_rate,
            },
            functions: FunctionMetrics {
                executed: self.functions_executed,
                succeeded: self.functions_succeeded,
                failed: self.functions_failed,
                success_rate_centi_pct: fn_rate,
                avg_execution_time_ms: avg,
            },
            system: SystemMetrics {
                uptime_seconds: self.uptime_seconds,
                nats_connected: self.nats_connected,
            },
        }
    }
}

#[verifier::external_type_specification]
#[verifier::external_body]
pub struct ExInstant(std::time::Instant);

/// Relies on `std::time::Instant::now`: a reading of the monotonic clock.
#[verifier::external_body]
fn instant_now() -> (r: std::time::Instant) {
    std::time::Instant::now()
}

/// Relies on `std::time::Instant::elapsed`: the time since the reading.
#[verifier::external_body]
fn instant_elapsed(i: &std::time::Instant) -> (r: core::time::Duration) {
    i.elapsed()
}

/// Relies on `core::time::Duration::as_millis`: the duration in whole
/// milliseconds.
#[verifier::external_body]
fn duration_as_millis(d: &core::time::Duration) -> (r: u128) {
    d.as_millis()
}

/// Measures one function execution's wall time.
pub struct ExecutionTimer {
    pub start: std::time::Instant,
}

impl ExecutionTimer {
    /// Begin timing now.
    pub fn start() -> (r: ExecutionTimer) {
        ExecutionTimer { start: instant_now() }
    }

    /// Milliseconds since the timer began, truncated to 64 bits.
    pub fn elapsed_ms(&self) -> (r: u64) {
        let d = instant_elapsed(&self.start);
        let ms = duration_as_millis(&d);
        #[verifier::truncate] (ms as u64)
    }
}

fn rate_of(total: u128, failed: u128) -> (r: u64)
    requires
        total <= 0xffff_ffff_ffff_ffff_f,
    ensures
        r as int == rate_centi_pct(total as int, failed as int),
{
    if total == 0 {
        10000
    } else if failed >= total {
        0
    } else {
        proof {
            let t = total as int;
            let f = failed as int;
            assert(((t - f) * 10000) / t <= 10000) by (nonlinear_arith)
                requires
                    0 < t && 0 <= f < t,
            ;
        }
        (((total - failed) * 10000) / total) as u64
    }
}

} // verus!
