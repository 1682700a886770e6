use vstd::prelude::*;

verus! {

/// How long, in microseconds, a measurement window must last before a
/// transfer rate is reported.
pub const MIN_WINDOW_MICROS: u128 = 100000;

/// The bytes moved over a measurement window and the window's length; the
/// rate in MB/s is `bytes / micros`.  No bytes means no measurable progress.
#[derive(Debug, Clone, Copy, PartialEq, Eq, Structural)]
pub struct Throughput {
    pub bytes: u64,
    pub micros: u128,
}

/// What one observation decides: the throughput to report, and whether a new
/// window starts.
#[derive(Debug, Clone, Copy, PartialEq, Eq, Structural)]
pub struct WindowStep {
    pub throughput: Throughput,
    pub restart: bool,
}

/// The decision on a cumulative byte count `bytes` seen `elapsed` microseconds
/// after the window opened at `last_bytes`: once the window has lasted longer
/// than `MIN_WINDOW_MICROS`, report the bytes gained over it (none if the
/// count did not grow) and start a new window; before that, report nothing
/// and keep the window.
pub open spec fn window_spec(last_bytes: u64, bytes: u64, elapsed: u128) -> WindowStep {
    if elapsed > MIN_WINDOW_MICROS {
        WindowStep {
            throughput: Throughput {
                bytes: if bytes > last_bytes { (bytes - last_bytes) as u64 } else { 0 },
                micros: elapsed,
            },
            restart: true,
        }
    } else {
        WindowStep { throughput: Throughput { bytes: 0, micros: 0 }, restart: false }
    }
}

/// Decides on one observation; see `window_spec`.
pub fn window_step(last_bytes: u64, bytes: u64, elapsed: u128) -> (r: WindowStep)
    ensures
        r == window_spec(last_bytes, bytes, elapsed),
{
    if elapsed > MIN_WINDOW_MICROS {
        let gained = if bytes > last_bytes { bytes - last_bytes } else { 0 };
        WindowStep { throughput: Throughput { bytes: gained, micros: elapsed }, restart: true }
    } else {
        WindowStep { throughput: Throughput { bytes: 0, micros: 0 }, restart: false }
    }
}

/// Measures transfer rate from successive cumulative byte counts.
#[derive(Debug)]
pub struct SpeedCalculator {
    last_bytes: u64,
    last_time: std::time::Instant,
}

impl SpeedCalculator {
    pub closed spec fn last_bytes(&self) -> u64 {
        self.last_bytes
    }

    /// A calculator whose first window opens now, at zero bytes.
    pub fn new() -> (r: SpeedCalculator)
        ensures
            r.last_bytes() == 0,
    {
        SpeedCalculator { last_bytes: 0, last_time: std::time::Instant::now() }
    }

    /// Takes the cumulative byte count `bytes` seen now, decides with
    /// `window_step` on the time elapsed since the window opened, and opens a
    /// new window at this count where it says so.
    pub fn calculate_speed(&mut self, bytes: u64) -> (r: Throughput)
        ensures
            exists|elapsed: u128| {
                let step = #[trigger] window_spec(old(self).last_bytes(), bytes, elapsed);
                &&& r == step.throughput
                &&& final(self).last_bytes() == (if step.restart { bytes } else { old(self).last_bytes() })
            },
    {
        let now = std::time::Instant::now();
        let waited = now.saturating_duration_since(self.last_time);
        let elapsed = waited.as_micros();
        let step = window_step(self.last_bytes, bytes, elapsed);
        if step.restart {
            self.last_bytes = bytes;
            self.last_time = now;
        }
        assert(window_spec(old(self).last_bytes(), bytes, elapsed) == step);
        step.throughput
    }
}

} // verus!
