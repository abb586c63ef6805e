use illium::focus::take_within;
use std::time::Instant;

#[test]
fn fresh_request_is_used_up() {
    let mut slot = Some(Instant::now());
    assert!(take_within(&mut slot, 0));
    assert!(slot.is_none());
}

#[test]
fn request_of_three_seconds_stays() {
    let at = Instant::now();
    let mut slot = Some(at);
    assert!(!take_within(&mut slot, 3_000_000_000));
    assert_eq!(slot, Some(at));
    assert!(take_within(&mut slot, 2_999_999_999));
    assert!(slot.is_none());
}

#[test]
fn no_request_nothing_taken() {
    let mut slot: Option<Instant> = None;
    assert!(!take_within(&mut slot, 0));
    assert!(slot.is_none());
}
