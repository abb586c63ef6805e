//! Interface-scoped traffic deltas. No network I/O or wall-clock dependency:
//! samples carry their own time, in nanoseconds from any fixed origin.
use crate::text::{chars_of, same_str};
use vstd::prelude::*;

verus! {

/// Samples further apart than this yield totals but no live rate.
pub const MAX_RATE_WINDOW_NANOS: u64 = 3_000_000_000;

pub const NANOS_PER_MINUTE: u64 = 60_000_000_000;

#[derive(Clone, Copy, Debug, PartialEq, Eq)]
pub struct Sample {
    /// Time of the reading, in nanoseconds.
    pub at: u64,
    pub received: u64,
    pub sent: u64,
}

/// Bytes moved between two close samples and the time between them.
#[derive(Clone, Copy, Debug, PartialEq, Eq)]
pub struct Rate {
    pub received: u64,
    pub sent: u64,
    pub elapsed: u64,
}

/// What the traffic view shows for one sample.
#[derive(Clone, Copy, Debug, PartialEq, Eq)]
pub struct Reading {
    /// Present only for a sample at most three seconds after the previous one.
    pub rate: Option<Rate>,
    /// Bytes since the baseline (the first sample of this interface).
    pub downloaded: u64,
    pub uploaded: u64,
    /// Whole minutes since the baseline.
    pub minutes: u64,
}

pub struct Tracker {
    interface: String,
    first: Option<Sample>,
    previous: Option<Sample>,
}

/// Counters and time never go back between the baseline and the last sample.
pub open spec fn ordered(first: Sample, last: Sample) -> bool {
    first.at <= last.at && first.received <= last.received && first.sent <= last.sent
}

/// A new sample continues the series of `previous` on the same interface.
pub open spec fn continues(previous: Option<Sample>, same_interface: bool, sample: Sample) -> bool {
    same_interface && match previous {
        Some(p) => sample.received >= p.received && sample.sent >= p.sent && sample.at > p.at,
        None => true,
    }
}

/// The baseline after `sample`: kept while the series continues.
pub open spec fn next_baseline(baseline: Option<Sample>, kept: bool, sample: Sample) -> Sample {
    if kept && baseline is Some { baseline->0 } else { sample }
}

/// The live rate of `sample` after `last`: only for a continued series and
/// samples at most three seconds apart.
pub open spec fn spec_rate(last: Option<Sample>, kept: bool, sample: Sample) -> Option<Rate> {
    if kept && last is Some && sample.at - last->0.at <= MAX_RATE_WINDOW_NANOS {
        let p = last->0;
        Some(Rate { received: (sample.received - p.received) as u64, sent: (sample.sent - p.sent) as u64, elapsed: (sample.at - p.at) as u64 })
    } else {
        None
    }
}

/// What the view shows for `sample`: the live rate and the totals since the baseline.
pub open spec fn spec_reading(baseline: Option<Sample>, last: Option<Sample>, kept: bool, sample: Sample) -> Reading {
    let first = next_baseline(baseline, kept, sample);
    Reading {
        rate: spec_rate(last, kept, sample),
        downloaded: (sample.received - first.received) as u64,
        uploaded: (sample.sent - first.sent) as u64,
        minutes: ((sample.at - first.at) / (NANOS_PER_MINUTE as int)) as u64,
    }
}

impl Tracker {
    #[verifier::type_invariant]
    closed spec fn well_formed(&self) -> bool {
        match (self.first, self.previous) {
            (Some(f), Some(p)) => ordered(f, p),
            (None, None) => true,
            _ => false,
        }
    }

    pub closed spec fn interface_view(&self) -> Seq<char> {
        self.interface@
    }

    pub closed spec fn baseline(&self) -> Option<Sample> {
        self.first
    }

    pub closed spec fn last(&self) -> Option<Sample> {
        self.previous
    }

    /// A tracker with no interface and no baseline.
    pub fn new() -> (t: Self)
        ensures
            t.interface_view() == Seq::<char>::empty(),
            t.baseline() is None,
            t.last() is None,
    {
        Tracker { interface: String::new(), first: None, previous: None }
    }

    /// Forgets the interface and the baseline.
    pub fn reset(&mut self)
        ensures
            final(self).interface_view() == Seq::<char>::empty(),
            final(self).baseline() is None,
            final(self).last() is None,
    {
        *self = Tracker::new();
    }

    /// Records a sample of `interface`. A different interface, a counter that
    /// went back or a time that did not advance starts a new baseline.
    pub fn update(&mut self, interface: &str, sample: Sample) -> (r: Reading)
        ensures
            ({
                let kept = continues(old(self).last(), old(self).interface_view() == interface@, sample);
                &&& final(self).interface_view() == interface@
                &&& final(self).baseline() == Some(next_baseline(old(self).baseline(), kept, sample))
                &&& final(self).last() == Some(sample)
                &&& r == spec_reading(old(self).baseline(), old(self).last(), kept, sample)
            }),
    {
        proof {
            use_type_invariant(&*self);
        }
        let same = same_str(self.interface.as_str(), interface);
        let kept = same && match self.previous {
            Some(p) => sample.received >= p.received && sample.sent >= p.sent && sample.at > p.at,
            None => true,
        };
        let first = match (kept, self.first) {
            (true, Some(f)) => f,
            _ => sample,
        };
        let rate = match (kept, self.previous) {
            (true, Some(p)) => {
                let elapsed = sample.at - p.at;
                if elapsed <= MAX_RATE_WINDOW_NANOS {
                    Some(Rate { received: sample.received - p.received, sent: sample.sent - p.sent, elapsed })
                } else {
                    None
                }
            },
            _ => None,
        };
        let reading = Reading {
            rate,
            downloaded: sample.received - first.received,
            uploaded: sample.sent - first.sent,
            minutes: (sample.at - first.at) / NANOS_PER_MINUTE,
        };
        *self = Tracker { interface: interface.to_owned(), first: Some(first), previous: Some(sample) };
        reading
    }
}

impl Default for Tracker {
    fn default() -> (t: Self)
        ensures
            t.interface_view() == Seq::<char>::empty(),
            t.baseline() is None,
            t.last() is None,
    {
        Tracker::new()
    }
}

/// A new series (after `reset`, on another interface, or after a counter
/// went back) shows no live rate and nothing downloaded, uploaded or elapsed.
pub proof fn new_series_starts_from_zero(baseline: Option<Sample>, last: Option<Sample>, sample: Sample)
    ensures
        spec_reading(baseline, last, false, sample) == (Reading { rate: None, downloaded: 0, uploaded: 0, minutes: 0 }),
{
}

/// Totals count from the baseline: along a continued series, each reading
/// adds to the previous totals exactly the bytes moved since the previous sample.
pub proof fn totals_accumulate(first: Sample, previous: Sample, sample: Sample)
    requires
        ordered(first, previous),
        continues(Some(previous), true, sample),
    ensures
        spec_reading(Some(first), Some(previous), true, sample).downloaded
            == (previous.received - first.received) + (sample.received - previous.received),
        spec_reading(Some(first), Some(previous), true, sample).uploaded
            == (previous.sent - first.sent) + (sample.sent - previous.sent),
{
}

/// How often the counters are read while the popup is open.
pub const OPEN_PERIOD_NANOS: u64 = 1_000_000_000;

/// How often the counters are read while the popup is closed.
pub const CLOSED_PERIOD_NANOS: u64 = 30_000_000_000;

/// Whether a read result asks for one metadata refresh: the first failure
/// after readable counters (or after a new interface).
pub open spec fn asks_refresh(failed: bool, error: bool) -> bool {
    error && !failed
}

/// How many refreshes a run of read results asks for, starting with the
/// previous read `failed` or not; `errors[i]` tells whether read `i` failed.
pub open spec fn refreshes(failed: bool, errors: Seq<bool>) -> nat
    decreases errors.len(),
{
    if errors.len() == 0 {
        0
    } else {
        (if asks_refresh(failed, errors[0]) { 1nat } else { 0nat }) + refreshes(errors[0], errors.drop_first())
    }
}

/// Native counters of the selected Wi-Fi interface, read on their own
/// schedule: what the popup shows (`None` while unavailable), whether a read
/// is in flight, and whether the last read failed.
pub struct Monitor {
    tracker: Tracker,
    interface: String,
    shown: Option<Reading>,
    running: bool,
    failed: bool,
    due: u64,
}

impl Monitor {
    pub closed spec fn interface_view(&self) -> Seq<char> {
        self.interface@
    }

    pub closed spec fn shown(&self) -> Option<Reading> {
        self.shown
    }

    pub closed spec fn is_running(&self) -> bool {
        self.running
    }

    pub closed spec fn has_failed(&self) -> bool {
        self.failed
    }

    pub closed spec fn due(&self) -> u64 {
        self.due
    }

    pub closed spec fn tracker_last(&self) -> Option<Sample> {
        self.tracker.last()
    }

    pub closed spec fn tracker_baseline(&self) -> Option<Sample> {
        self.tracker.baseline()
    }

    pub closed spec fn tracker_interface(&self) -> Seq<char> {
        self.tracker.interface_view()
    }

    /// No interface yet: nothing to read, nothing to show.
    pub fn new(now: u64) -> (m: Self)
        ensures
            m.interface_view() == Seq::<char>::empty(),
            m.shown() is None,
            !m.is_running(),
            !m.has_failed(),
            m.due() == now,
            m.tracker_last() is None,
    {
        Monitor { tracker: Tracker::new(), interface: String::new(), shown: None, running: false, failed: false, due: now }
    }

    /// What the popup shows: the reading of the last sample, or nothing while
    /// the counters are unavailable.
    pub fn reading(&self) -> (r: Option<Reading>)
        ensures
            r == self.shown(),
    {
        self.shown
    }

    /// Follows the interface the provider reports as connected (empty when
    /// none). A new interface starts over, unavailable and due at once.
    pub fn select(&mut self, interface: &str, now: u64)
        ensures
            final(self).interface_view() == interface@,
            final(self).is_running() == old(self).is_running(),
            old(self).interface_view() == interface@ ==> {
                &&& final(self).shown() == old(self).shown()
                &&& final(self).has_failed() == old(self).has_failed()
                &&& final(self).due() == old(self).due()
                &&& final(self).tracker_last() == old(self).tracker_last()
            },
            old(self).interface_view() != interface@ ==> {
                &&& final(self).shown() is None
                &&& !final(self).has_failed()
                &&& final(self).due() == now
                &&& final(self).tracker_last() is None
            },
    {
        if !same_str(self.interface.as_str(), interface) {
            self.interface = interface.to_owned();
            self.tracker.reset();
            self.failed = false;
            self.shown = None;
            self.due = now;
        }
    }

    /// Whether to start a read now: not while one runs, without an
    /// interface, or before it is due. A started read is next due a second
    /// later while the popup is `open`, thirty seconds later otherwise.
    pub fn poll(&mut self, now: u64, open: bool) -> (start: bool)
        requires
            now <= u64::MAX - CLOSED_PERIOD_NANOS,
        ensures
            start == (!old(self).is_running() && old(self).interface_view().len() > 0 && old(self).due() <= now),
            final(self).is_running() == (old(self).is_running() || start),
            start ==> final(self).due() == now + (if open { OPEN_PERIOD_NANOS } else { CLOSED_PERIOD_NANOS }),
            !start ==> final(self).due() == old(self).due(),
            final(self).interface_view() == old(self).interface_view(),
            final(self).shown() == old(self).shown(),
            final(self).has_failed() == old(self).has_failed(),
            final(self).tracker_last() == old(self).tracker_last(),
    {
        let empty = chars_of(self.interface.as_str()).len() == 0;
        if self.running || empty || self.due > now {
            return false;
        }
        self.running = true;
        self.due = now + if open { OPEN_PERIOD_NANOS } else { CLOSED_PERIOD_NANOS };
        true
    }

    /// The read of `interface` finished. A read of another interface only
    /// ends the run. Otherwise a sample updates the reading and a failure
    /// makes the counters unavailable; the result asks for one metadata
    /// refresh on the first failure after readable counters.
    pub fn finish(&mut self, interface: &str, result: Result<Sample, String>) -> (refresh: bool)
        ensures
            !final(self).is_running(),
            final(self).interface_view() == old(self).interface_view(),
            final(self).due() == old(self).due(),
            old(self).interface_view() != interface@ ==> {
                &&& !refresh
                &&& final(self).shown() == old(self).shown()
                &&& final(self).has_failed() == old(self).has_failed()
                &&& final(self).tracker_last() == old(self).tracker_last()
            },
            old(self).interface_view() == interface@ ==> {
                &&& refresh == asks_refresh(old(self).has_failed(), result is Err)
                &&& final(self).has_failed() == result is Err
                &&& (result is Err ==> final(self).shown() is None && final(self).tracker_last() is None)
                &&& (result matches Ok(sample) ==> {
                    let kept = continues(old(self).tracker_last(), old(self).tracker_interface() == interface@, sample);
                    &&& final(self).shown() == Some(spec_reading(old(self).tracker_baseline(), old(self).tracker_last(), kept, sample))
                    &&& final(self).tracker_last() == Some(sample)
                })
            },
    {
        self.running = false;
        if !same_str(self.interface.as_str(), interface) {
            return false;
        }
        let error = result.is_err();
        let refresh = error && !self.failed;
        self.failed = error;
        match result {
            Ok(sample) => {
                let reading = self.tracker.update(interface, sample);
                self.shown = Some(reading);
            },
            Err(_) => {
                self.tracker.reset();
                self.shown = None;
            },
        }
        refresh
    }
}

/// Failures ask for one refresh, not a scan storm: however many reads fail
/// in a row, together they ask for at most one metadata refresh, and for
/// none when the previous read had already failed.
pub proof fn failures_ask_for_one_refresh(failed: bool, errors: Seq<bool>)
    requires
        forall|i: int| 0 <= i < errors.len() ==> errors[i],
    ensures
        refreshes(failed, errors) <= (if failed { 0nat } else { 1nat }),
    decreases errors.len(),
{
    if errors.len() > 0 {
        assert forall|i: int| 0 <= i < errors.drop_first().len() implies errors.drop_first()[i] by {
            assert(errors.drop_first()[i] == errors[i + 1]);
        }
        assert(errors[0]);
        failures_ask_for_one_refresh(errors[0], errors.drop_first());
    }
}

} // verus!

