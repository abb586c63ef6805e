//! Bar status values computed from system counters: the CPU load between
//! two readings of the system times. Reading the counters belongs to the
//! platform layer.
use vstd::prelude::*;

verus! {

/// Readings closer together than this share one load.
pub const SAMPLE_NANOS: u64 = 500_000_000;

/// A 64-bit count from its high and low 32-bit halves (`FILETIME`).
pub fn ticks(high: u32, low: u32) -> (r: u64)
    ensures
        r == high as int * 4294967296 + low as int,
{
    let h = high as u64;
    let l = low as u64;
    assert((h << 32u64) | l == h * 4294967296 + l) by (bit_vector)
        requires
            h < 4294967296,
            l < 4294967296,
    ;
    (h << 32) | l
}

/// Load in percent between two readings: busy (kernel plus user) and idle
/// times, `None` when no busy time passed.
pub open spec fn spec_load(busy0: u64, idle0: u64, busy: u64, idle: u64) -> Option<int> {
    let total = if busy >= busy0 { busy - busy0 } else { 0 };
    let rested = if idle >= idle0 { idle - idle0 } else { 0 };
    let rested_in = if rested <= total { rested } else { total };
    if total > 0 { Some((total - rested_in) * 100 / total) } else { None }
}

struct CpuSample {
    at: u64,
    busy: u64,
    idle: u64,
    percent: Option<u64>,
}

/// The last reading of the system times and the load it gave.
pub struct CpuMeter {
    last: Option<CpuSample>,
}

impl CpuMeter {
    pub closed spec fn last_at(&self) -> Option<u64> {
        match self.last {
            Some(s) => Some(s.at),
            None => None,
        }
    }

    pub closed spec fn last_times(&self) -> Option<(u64, u64)> {
        match self.last {
            Some(s) => Some((s.busy, s.idle)),
            None => None,
        }
    }

    pub closed spec fn last_percent(&self) -> Option<u64> {
        match self.last {
            Some(s) => s.percent,
            None => None,
        }
    }

    /// No reading yet.
    pub fn new() -> (m: Self)
        ensures
            m.last_at() is None,
    {
        CpuMeter { last: None }
    }

    /// The load of a reading taken less than half a second before `now`,
    /// which callers share instead of reading again.
    pub fn recent(&self, now: u64) -> (r: Option<Option<u64>>)
        ensures
            match self.last_at() {
                Some(at) => if (if now >= at { now - at } else { 0 }) < SAMPLE_NANOS {
                    r == Some(self.last_percent())
                } else {
                    r is None
                },
                None => r is None,
            },
    {
        match &self.last {
            Some(s) => {
                let since = if now >= s.at { now - s.at } else { 0 };
                if since < SAMPLE_NANOS { Some(s.percent) } else { None }
            },
            None => None,
        }
    }

    /// Records the system times read at `now`: the load since the previous
    /// reading, none for the first one.
    pub fn record(&mut self, now: u64, busy: u64, idle: u64) -> (percent: Option<u64>)
        requires
            match old(self).last_times() {
                Some((b, _)) => busy < b || (busy - b) * 100 <= u64::MAX,
                None => true,
            },
        ensures
            match old(self).last_times() {
                Some((b, i)) => match spec_load(b, i, busy, idle) {
                    Some(p) => percent == Some(p as u64),
                    None => percent is None,
                },
                None => percent is None,
            },
            final(self).last_at() == Some(now),
            final(self).last_times() == Some((busy, idle)),
            final(self).last_percent() == percent,
    {
        let percent = match &self.last {
            Some(s) => {
                let total = busy.saturating_sub(s.busy);
                let rested = idle.saturating_sub(s.idle);
                let rested_in = if rested <= total { rested } else { total };
                if total > 0 { Some((total - rested_in) * 100 / total) } else { None }
            },
            None => None,
        };
        self.last = Some(CpuSample { at: now, busy, idle, percent });
        percent
    }
}

} // verus!
