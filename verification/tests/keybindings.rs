use illium::keybindings::{apply, capture_key, dismiss, Capture, CaptureError, CaptureStep, CapturedKey, Outcome};

fn key(vk: u32, modifiers: u8) -> CapturedKey {
    CapturedKey { vk, modifiers, down: true, is_modifier: false, bindable: true, conflict: None }
}

fn started(row: usize) -> Option<Capture> {
    Some(Capture { row, chord: None, conflict: None, reset: false, error: None })
}

#[test]
fn a_chord_with_a_modifier_is_recorded_and_applied() {
    let mut c = started(3);
    let mut held = 0u8;
    let k = CapturedKey { conflict: Some(5), ..key(0x4b, 2) };
    assert_eq!(capture_key(&mut c, &mut held, k), CaptureStep::Nothing);
    assert_eq!(c.unwrap().chord, Some((0x4b, 2)));
    assert_eq!(
        capture_key(&mut c, &mut held, key(0x0d, 0)),
        CaptureStep::Apply { row: 3, chord: (0x4b, 2), conflict: Some(5) }
    );
}

#[test]
fn bare_and_unbindable_keys_are_refused() {
    let mut c = started(0);
    let mut held = 0u8;
    capture_key(&mut c, &mut held, key(0x4b, 0));
    assert_eq!(c.unwrap().error, Some(CaptureError::NeedsModifier));
    capture_key(&mut c, &mut held, CapturedKey { bindable: false, ..key(0xff, 2) });
    assert_eq!(c.unwrap().error, Some(CaptureError::Unbindable));
    assert_eq!(c.unwrap().chord, None);
    assert_eq!(capture_key(&mut c, &mut held, key(0x0d, 0)), CaptureStep::Nothing);
}

#[test]
fn backspace_clears_escape_cancels_modifiers_are_shown() {
    let mut c = started(1);
    let mut held = 0u8;
    capture_key(&mut c, &mut held, CapturedKey { is_modifier: true, ..key(0xa2, 2) });
    assert_eq!(held, 2);
    capture_key(&mut c, &mut held, key(0x4b, 2));
    capture_key(&mut c, &mut held, key(0x08, 0));
    assert_eq!(c.unwrap().chord, None);
    assert_eq!(held, 0);
    capture_key(&mut c, &mut held, key(0x1b, 0));
    assert!(c.is_none());
    assert_eq!(capture_key(&mut c, &mut held, key(0x4b, 2)), CaptureStep::Nothing);
}

#[test]
fn applying_releases_the_old_and_the_conflicting_chord() {
    let a = apply(Some("Ctrl+K".into()), Some("Alt+K".into()), "Alt+K".into(), "launcher".into());
    assert_eq!(a.remove, vec!["Ctrl+K".to_string(), "Alt+K".to_string()]);
    assert_eq!(a.chord, "Alt+K");
    assert_eq!(a.command, "launcher");
    let a = apply(None, None, "Ctrl+J".into(), "next".into());
    assert!(a.remove.is_empty());
}

#[test]
fn dismiss_cancels_a_capture_before_closing() {
    let mut c = started(0);
    assert_eq!(dismiss(&mut c), Outcome::Nothing);
    assert_eq!(dismiss(&mut c), Outcome::Close);
}
