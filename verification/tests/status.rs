use illium::status::{ticks, CpuMeter};

const MS: u64 = 1_000_000;

#[test]
fn load_is_the_busy_share_of_elapsed_time() {
    let mut meter = CpuMeter::new();
    assert_eq!(meter.recent(0), None);
    assert_eq!(meter.record(0, 1000, 500), None);
    assert_eq!(meter.recent(100 * MS), Some(None));
    assert_eq!(meter.recent(500 * MS), None);
    assert_eq!(meter.record(600 * MS, 2000, 750), Some(75));
    assert_eq!(meter.recent(700 * MS), Some(Some(75)));
    assert_eq!(meter.record(1200 * MS, 2000, 900), None);
    assert_eq!(meter.record(1800 * MS, 2100, 2000), Some(0));
}

#[test]
fn counts_join_their_halves() {
    assert_eq!(ticks(0, 7), 7);
    assert_eq!(ticks(1, 0), 1 << 32);
    assert_eq!(ticks(u32::MAX, u32::MAX), u64::MAX);
}
