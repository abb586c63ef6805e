use illium::dictate::Dictation;

#[test]
fn the_bound_key_starts_and_stops_dictation() {
    let mut d = Dictation::default();
    assert_eq!(d.hold(true), "start");
    assert!(d.recording);
    assert_eq!(d.hold(false), "stop");
    assert!(!d.recording);
}

#[test]
fn toggling_alternates_start_and_stop() {
    let mut d = Dictation::default();
    assert_eq!(d.toggle(), "start");
    assert_eq!(d.toggle(), "stop");
    assert_eq!(d.toggle(), "start");
    assert!(d.recording);
}
