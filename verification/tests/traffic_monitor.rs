use illium::traffic::{Monitor, Sample};

const SECOND: u64 = 1_000_000_000;

#[test]
fn wrong_interface_completion_is_ignored() {
    let mut monitor = Monitor::new(0);
    monitor.select("new", 0);
    assert!(monitor.poll(0, false));
    monitor.finish("old", Ok(Sample { at: SECOND, received: 100, sent: 100 }));
    assert!(monitor.poll(30 * SECOND, false));
    assert_eq!(monitor.reading(), None);
}

#[test]
fn failures_request_one_refresh_not_a_scan_storm() {
    let mut monitor = Monitor::new(0);
    monitor.select("wifi", 0);
    assert!(monitor.finish("wifi", Err("disconnected".into())));
    assert!(!monitor.finish("wifi", Err("still disconnected".into())));
    assert!(!monitor.finish("wifi", Ok(Sample { at: SECOND, received: 100, sent: 100 })));
    assert!(monitor.finish("wifi", Err("disconnected again".into())));
}

#[test]
fn reads_follow_their_schedule() {
    let mut monitor = Monitor::new(0);
    assert!(!monitor.poll(0, true), "no interface, nothing to read");
    monitor.select("wifi", 5 * SECOND);
    assert!(!monitor.poll(4 * SECOND, true));
    assert!(monitor.poll(5 * SECOND, true));
    assert!(!monitor.poll(9 * SECOND, true), "one read at a time");
    monitor.finish("wifi", Ok(Sample { at: 5 * SECOND, received: 10, sent: 10 }));
    assert!(!monitor.poll(5 * SECOND + SECOND / 2, false));
    assert!(monitor.poll(6 * SECOND, false));
    monitor.finish("wifi", Ok(Sample { at: 6 * SECOND, received: 30, sent: 10 }));
    let reading = monitor.reading().unwrap();
    assert_eq!(reading.downloaded, 20);
    assert!(!monitor.poll(35 * SECOND, false));
    assert!(monitor.poll(36 * SECOND, false));
}
