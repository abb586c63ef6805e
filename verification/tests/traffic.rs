use illium::traffic::{Rate, Sample, Tracker};

const SECOND: u64 = 1_000_000_000;
const T0: u64 = 50 * SECOND;

#[test]
fn rates_use_actual_time_and_totals_use_baseline() {
    let mut tracker = Tracker::default();
    let at = T0;
    let first = Sample { at, received: 5000, sent: 1000 };
    assert_eq!(tracker.update("wifi", first).rate, None);
    let result = tracker.update("wifi", Sample { at: at + 2 * SECOND, received: 9000, sent: 1500 });
    // 2.0 Ko/s received, 250 o/s sent, 4.0 Ko downloaded.
    assert_eq!(result.rate, Some(Rate { received: 4000, sent: 500, elapsed: 2 * SECOND }));
    assert_eq!(result.downloaded, 4000);
    assert_eq!(result.uploaded, 500);
}

#[test]
fn interface_changes_and_counter_resets_start_a_new_baseline() {
    let at = T0;
    let mut tracker = Tracker::default();
    for (i, interface, received) in [(0, "wifi1", 5000), (1, "wifi2", 9000), (2, "wifi2", 100)] {
        let result = tracker.update(interface, Sample { at: at + i * SECOND, received, sent: received });
        assert_eq!(result.downloaded, 0);
        assert_eq!(result.rate, None);
    }
}

#[test]
fn slow_samples_keep_totals_but_not_live_rates() {
    let at = T0;
    let mut tracker = Tracker::default();
    tracker.update("wifi", Sample { at, received: 0, sent: 0 });
    let result = tracker.update("wifi", Sample { at: at + 30 * SECOND, received: 5000, sent: 0 });
    assert_eq!(result.rate, None);
    assert_eq!(result.downloaded, 5000);
    tracker.reset();
    assert_eq!(tracker.update("wifi", Sample { at: at + 31 * SECOND, received: 6000, sent: 0 }).downloaded, 0);
}

#[test]
fn equal_timestamps_do_not_divide_by_zero() {
    let mut tracker = Tracker::default();
    let sample = Sample { at: T0, received: 0, sent: 0 };
    tracker.update("wifi", sample);
    assert_eq!(tracker.update("wifi", sample).rate, None);
}

#[test]
fn totals_accumulate_along_a_series_and_count_minutes() {
    let mut tracker = Tracker::new();
    tracker.update("eth", Sample { at: T0, received: 100, sent: 10 });
    let a = tracker.update("eth", Sample { at: T0 + SECOND, received: 300, sent: 30 });
    let b = tracker.update("eth", Sample { at: T0 + 2 * SECOND, received: 700, sent: 35 });
    assert_eq!(b.downloaded, a.downloaded + b.rate.unwrap().received);
    assert_eq!(b.uploaded, a.uploaded + b.rate.unwrap().sent);
    let late = tracker.update("eth", Sample { at: T0 + 150 * SECOND, received: 900, sent: 40 });
    assert_eq!((late.minutes, late.downloaded, late.rate), (2, 800, None));
}
