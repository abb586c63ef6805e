use illium::screensaver::{next_seed, Saver, Settings};

const SECOND: u64 = 1_000_000_000;
const T0: u64 = 1_000 * SECOND;

fn defaults() -> Settings {
    Settings { enabled: true, effects: 1, timeout: 30 }
}

#[test]
fn idle_and_activity() {
    let now = T0;
    let mut s = Saver::new(defaults(), now, 0, 42);
    assert!(!s.poll(now + 29 * SECOND, 0));
    assert!(s.poll(now + 30 * SECOND, 0));
    assert!(s.saving);
    assert!(!s.poll(now + 42 * SECOND, 0));
    assert!(s.poll(now + 43 * SECOND, 1));
    assert!(!s.saving);
    assert!(!s.poll(now + 72 * SECOND, 1));
    assert!(!s.poll(now + 73 * SECOND, 2));
    assert!(!s.saving);
}

#[test]
fn disabled_never_saves() {
    let now = T0;
    let c = Settings { enabled: false, ..defaults() };
    let mut s = Saver::new(c, now, 0, 0);
    assert!(!s.poll(now + 100 * SECOND, 0));
    assert!(!s.saving);
    let none = Settings { effects: 0, ..defaults() };
    let mut s = Saver::new(none, now, 0, 0);
    assert!(!s.poll(now + 100 * SECOND, 0));
    assert!(!s.saving);
}

#[test]
fn reset_restarts_idle() {
    let now = T0;
    let mut s = Saver::new(defaults(), now, 0, 7);
    s.poll(now + 30 * SECOND, 0);
    s.reset(now + 31 * SECOND, 2);
    assert!(!s.saving);
    assert!(!s.poll(now + 60 * SECOND, 2));
    assert!(s.poll(now + 61 * SECOND, 2));
}

#[test]
fn frames_follow_each_surface() {
    let now = T0;
    let mut s = Saver::new(defaults(), now, 0, 7);
    assert!(s.poll(now + 30 * SECOND, 0));
    let first = s.plan(&[], &[(640, 360), (320, 200)]);
    assert_eq!(first, vec![Some(next_seed(7)), Some(next_seed(next_seed(7)))]);
    assert_eq!(s.tick(now + 33 * SECOND), 3 * SECOND);
    let later = s.plan(&[(640, 360), (320, 200)], &[(640, 360)]);
    assert_eq!(later, vec![None]);
    let resized = s.plan(&[(640, 360)], &[(800, 600)]);
    assert_eq!(resized, vec![Some(next_seed(next_seed(next_seed(7))))]);
}

#[test]
fn seeds_follow_the_linear_congruential_step() {
    assert_eq!(next_seed(0), 1442695040888963407);
    assert_eq!(next_seed(1), 6364136223846793005u64.wrapping_add(1442695040888963407));
}
