use illium::battery::{battery_lines, decimal, reading, Device, Status, UNKNOWN_CAPACITY, UNKNOWN_RATE};

fn device(designed: u32, full: u32, remaining: u32, rate: i32) -> Device {
    Device { relative: false, designed, full, remaining, rate, charging: false, cycles: 0 }
}

fn status() -> Status {
    Status { percent: 80, plugged: true, charging: true, lifetime: u32::MAX }
}

#[test]
fn two_batteries_add_up() {
    let mut second = device(20000, 18000, 9000, -3000);
    second.cycles = 120;
    second.charging = true;
    let r = reading(status(), &[device(50000, 45000, 40000, -7000), second]);
    assert_eq!(r.design_mwh, Some(70000));
    assert_eq!(r.full_mwh, Some(63000));
    assert_eq!(r.remaining_mwh, Some(49000));
    assert_eq!(r.rate_mw, Some(-10000));
    assert_eq!(r.cycles, Some(120));
    assert!(r.charging);
    assert_eq!(r.lifetime_s, None);
    assert_eq!((r.percent, r.plugged), (80, true));
}

#[test]
fn relative_or_unknown_capacities_show_no_energy() {
    let mut relative = device(100, 100, 50, 0);
    relative.relative = true;
    let r = reading(status(), &[relative]);
    assert_eq!((r.design_mwh, r.full_mwh, r.remaining_mwh, r.rate_mw), (None, None, None, None));
    let r = reading(status(), &[device(50000, UNKNOWN_CAPACITY, 0, UNKNOWN_RATE)]);
    assert_eq!(r.design_mwh, Some(50000));
    assert_eq!((r.full_mwh, r.remaining_mwh, r.rate_mw), (None, None, None));
    assert!(!r.charging);
}

#[test]
fn without_batteries_the_status_speaks() {
    let r = reading(Status { percent: 100, plugged: true, charging: true, lifetime: 3600 }, &[]);
    assert!(r.charging);
    assert_eq!(r.lifetime_s, Some(3600));
    assert_eq!((r.design_mwh, r.rate_mw, r.cycles), (None, None, None));
}

#[test]
fn popup_lines_spell_level_power_and_time_left() {
    assert_eq!(battery_lines(80, 1, 3900), ["Level: 80%", "Power: plugged in", "Remaining: 1h05"]);
    assert_eq!(battery_lines(7, 0, 45 * 60), ["Level: 7%", "Power: on battery", "Remaining: 0h45"]);
    assert_eq!(battery_lines(100, 255, u32::MAX), ["Level: 100%", "Power: unknown"]);
    assert_eq!(decimal(0), "0");
    assert_eq!(decimal(4_294_967_295), "4294967295");
}
