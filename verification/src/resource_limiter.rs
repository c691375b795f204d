//! Accounting of the time and memory budget of one analysis.
//!
//! The limiter captures a start instant when it is created, refreshes the
//! measured usage on demand and reports a [`FbasError::ResourceLimitExceeded`]
//! as soon as either dimension goes over its configured limit. Time is read
//! from the process clock through a trusted wrapper; memory usage is reported
//! in-band by the embedder (this library installs no global allocator).

use crate::clock::{elapsed_ns, instant_now};
use crate::fbas::FbasError;
use std::time::Instant;
use vstd::prelude::*;

verus! {

pub const NANOS_PER_MILLI: u64 = 1_000_000;

/// A measured or configured amount of resources.
#[derive(Debug, Clone, Copy)]
pub struct ResourceQuantity {
    /// Processing time in nanoseconds.
    pub time_ns: u64,
    /// Heap bytes.
    pub mem_bytes: usize,
}

/// Milliseconds converted to nanoseconds, saturating at `u64::MAX` so that
/// the largest representable budget stays the largest representable budget.
pub open spec fn spec_ms_to_ns(ms: u64) -> u64 {
    if ms > u64::MAX as int / NANOS_PER_MILLI as int {
        u64::MAX
    } else {
        (ms * NANOS_PER_MILLI) as u64
    }
}

impl ResourceQuantity {
    pub open spec fn spec_exceeds(self, limit: Self) -> bool {
        self.time_ns > limit.time_ns || self.mem_bytes > limit.mem_bytes
    }

    pub fn zero() -> (r: Self)
        ensures
            r.time_ns == 0,
            r.mem_bytes == 0,
    {
        ResourceQuantity { time_ns: 0, mem_bytes: 0 }
    }

    pub fn new(time_ms: u64, mem_bytes: usize) -> (r: Self)
        ensures
            r.time_ns == spec_ms_to_ns(time_ms),
            r.mem_bytes == mem_bytes,
    {
        let time_ns: u64 = if time_ms > u64::MAX / NANOS_PER_MILLI {
            u64::MAX
        } else {
            time_ms * NANOS_PER_MILLI
        };
        ResourceQuantity { time_ns, mem_bytes }
    }

    /// True when either dimension of `self` is strictly above `limit`.
    pub fn exceeds(&self, limit: &Self) -> (r: bool)
        ensures
            r == self.spec_exceeds(*limit),
    {
        self.time_ns > limit.time_ns || self.mem_bytes > limit.mem_bytes
    }
}

struct ResourceLimiterImpl {
    start_time: Instant,
    start_memory: usize,
    limits: ResourceQuantity,
    current_usage: ResourceQuantity,
}

/// Shared accounting object for one analysis: start instant, configured
/// limits, and the latest measured usage.
pub struct ResourceLimiter {
    inner: ResourceLimiterImpl,
}

impl ResourceLimiter {
    pub closed spec fn limits(&self) -> ResourceQuantity {
        self.inner.limits
    }

    pub closed spec fn usage(&self) -> ResourceQuantity {
        self.inner.current_usage
    }

    pub closed spec fn start_memory(&self) -> usize {
        self.inner.start_memory
    }

    pub closed spec fn spec_start_time(&self) -> Instant {
        self.inner.start_time
    }

    /// Both limits sit at the largest representable value, so no measured
    /// usage can ever exceed them.
    pub open spec fn is_unlimited(&self) -> bool {
        self.limits().time_ns == u64::MAX && self.limits().mem_bytes == usize::MAX
    }

    /// A limiter with the given time budget (in milliseconds) and byte
    /// budget, measuring from the moment of the call.
    pub fn new(time_limit_ms: u64, memory_limit_bytes: usize) -> (r: Self)
        ensures
            r.limits().time_ns == spec_ms_to_ns(time_limit_ms),
            r.limits().mem_bytes == memory_limit_bytes,
            r.usage().time_ns == 0,
            r.usage().mem_bytes == 0,
            r.start_memory() == 0,
    {
        ResourceLimiter {
            inner: ResourceLimiterImpl {
                start_time: instant_now(),
                start_memory: 0,
                limits: ResourceQuantity::new(time_limit_ms, memory_limit_bytes),
                current_usage: ResourceQuantity::zero(),
            },
        }
    }

    /// A limiter whose budgets are the largest representable values.
    pub fn unlimited() -> (r: Self)
        ensures
            r.is_unlimited(),
            r.usage().time_ns == 0,
            r.usage().mem_bytes == 0,
            r.start_memory() == 0,
    {
        Self::new(u64::MAX, usize::MAX)
    }

    /// Refreshes the measured time from the clock. The memory reading keeps
    /// its last recorded value; see [`Self::record_memory_usage`].
    pub fn measure(&mut self)
        ensures
            final (self).limits() == old(self).limits(),
            final (self).usage().mem_bytes == old(self).usage().mem_bytes,
            final (self).start_memory() == old(self).start_memory(),
            final (self).spec_start_time() == old(self).spec_start_time(),
    {
        let time_ns = elapsed_ns(&self.inner.start_time);
        self.inner.current_usage = ResourceQuantity {
            time_ns,
            mem_bytes: self.inner.current_usage.mem_bytes,
        };
    }

    /// Records the starting watermark: the embedder's total of allocated
    /// bytes at the moment the analysis begins. Memory usage is then
    /// reported as growth over this watermark.
    pub fn record_start_memory(&mut self, bytes_allocated: usize)
        ensures
            final (self).limits() == old(self).limits(),
            final (self).usage() == old(self).usage(),
            final (self).spec_start_time() == old(self).spec_start_time(),
            final (self).start_memory() == bytes_allocated,
    {
        self.inner.start_memory = bytes_allocated;
    }

    /// Records the embedder's current total of allocated bytes; the usage
    /// kept is the growth since the starting watermark, saturating at
    /// zero when the total dropped below it.
    pub fn record_memory_usage(&mut self, bytes_allocated: usize)
        ensures
            final (self).limits() == old(self).limits(),
            final (self).usage().time_ns == old(self).usage().time_ns,
            final (self).start_memory() == old(self).start_memory(),
            final (self).spec_start_time() == old(self).spec_start_time(),
            final (self).usage().mem_bytes == if bytes_allocated >= old(self).start_memory() {
                (bytes_allocated - old(self).start_memory()) as usize
            } else {
                0usize
            },
    {
        let mem_bytes: usize = if bytes_allocated >= self.inner.start_memory {
            bytes_allocated - self.inner.start_memory
        } else {
            0
        };
        self.inner.current_usage = ResourceQuantity {
            time_ns: self.inner.current_usage.time_ns,
            mem_bytes,
        };
    }

    /// Refreshes the measured time, then fails exactly when the measured
    /// usage exceeds the configured limits. In particular an unlimited
    /// limiter never fails.
    pub fn measure_and_enforce_limits(&mut self) -> (r: Result<(), FbasError>)
        ensures
            final (self).limits() == old(self).limits(),
            final (self).usage().mem_bytes == old(self).usage().mem_bytes,
            final (self).start_memory() == old(self).start_memory(),
            final (self).spec_start_time() == old(self).spec_start_time(),
            r is Err <==> final (self).usage().spec_exceeds(final (self).limits()),
            r is Err ==> r == Err::<(), FbasError>(
                FbasError::ResourceLimitExceeded(final (self).usage()),
            ),
            old(self).is_unlimited() ==> r is Ok,
    {
        self.measure();
        if self.inner.current_usage.exceeds(&self.inner.limits) {
            return Err(FbasError::ResourceLimitExceeded(self.inner.current_usage));
        }
        Ok(())
    }

    /// The last measured processing time, in whole milliseconds.
    pub fn get_time_ms(&self) -> (r: u64)
        ensures
            r == self.usage().time_ns / NANOS_PER_MILLI,
    {
        self.inner.current_usage.time_ns / NANOS_PER_MILLI
    }

    /// The last measured memory growth, in bytes.
    pub fn get_mem_bytes(&self) -> (r: usize)
        ensures
            r == self.usage().mem_bytes,
    {
        self.inner.current_usage.mem_bytes
    }

    /// The instant the limiter started measuring from.
    pub(crate) fn start_time(&self) -> (r: &Instant)
        ensures
            *r == self.spec_start_time(),
    {
        &self.inner.start_time
    }

    /// The configured time budget, in nanoseconds.
    pub(crate) fn time_limit_ns(&self) -> (r: u64)
        ensures
            r == self.limits().time_ns,
    {
        self.inner.limits.time_ns
    }
}

/// True when the clock says more than `limit_ns` nanoseconds have passed
/// since `start`; polled by the SAT solver between restarts.
pub(crate) fn time_limit_reached(start: &Instant, limit_ns: u64) -> bool {
    elapsed_ns(start) > limit_ns
}

} // verus!
