//! Time keeping with the time-stamp counter.
use vstd::prelude::*;

verus! {

pub const HZ: u64 = 1;
pub const KHZ: u64 = 1000;
pub const MHZ: u64 = 1000000;
pub const US_PER_MS: u64 = 1_000;
pub const US_PER_S: u64 = 1_000_000;

/// The time-stamp counter at boot and its rate.
pub struct Time {
    /// Counter value when the clock was calibrated.
    pub rdtsc_start: u64,
    /// Counter ticks per microsecond.
    pub rdtsc_mhz: u64,
}

impl Time {
    /// A clock that is not calibrated yet.
    pub fn new() -> (r: Self)
        ensures
            r.rdtsc_start == 0,
            r.rdtsc_mhz == 0,
    {
        Self { rdtsc_start: 0, rdtsc_mhz: 0 }
    }

    /// The counter value `seconds` seconds after the counter value `now`.
    pub fn future_s(&self, now: u64, seconds: u64) -> (r: u64)
        requires
            seconds * US_PER_S <= u64::MAX,
            now + seconds * US_PER_S * self.rdtsc_mhz <= u64::MAX,
        ensures
            r == now + seconds * US_PER_S * self.rdtsc_mhz,
    {
        let a: u64 = seconds * US_PER_S;
        assert(a * self.rdtsc_mhz <= u64::MAX) by (nonlinear_arith)
            requires
                a == seconds * US_PER_S,
                now + seconds * US_PER_S * self.rdtsc_mhz <= u64::MAX,
        ;
        now + a * self.rdtsc_mhz
    }

    pub fn rdtsc_mhz(&self) -> (r: u64)
        ensures
            r == self.rdtsc_mhz,
    {
        self.rdtsc_mhz
    }

    pub fn rdtsc_start(&self) -> (r: u64)
        ensures
            r == self.rdtsc_start,
    {
        self.rdtsc_start
    }

    /// The uptime in microseconds, as the clock keeps it: the counter value
    /// it was calibrated at.
    pub fn uptime_us(&self) -> (r: u64)
        ensures
            r == self.rdtsc_start,
    {
        self.rdtsc_start
    }

    /// `uptime_us` in whole seconds.
    pub fn uptime_s(&self) -> (r: u64)
        ensures
            r == self.rdtsc_start / US_PER_S,
    {
        self.rdtsc_start / US_PER_S
    }

    /// `uptime_us` in whole milliseconds.
    pub fn uptime_ms(&self) -> (r: u64)
        ensures
            r == self.rdtsc_start / US_PER_MS,
    {
        self.rdtsc_start / US_PER_MS
    }
}

} // verus!
