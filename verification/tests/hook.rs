use illium::hook::{BindingKind, Consumed, HookState, KeyAction, KeyEvent, KeyReport, Modes, Press};

fn key(key: u32, press: Press) -> KeyEvent {
    KeyEvent {
        key,
        injected: false,
        press,
        modifiers: 0,
        binding: None,
        is_modifier: false,
        hint_key: false,
        lock_blocked: false,
    }
}

fn bound(k: u32, press: Press, binding: BindingKind) -> KeyEvent {
    KeyEvent { binding: Some(binding), ..key(k, press) }
}

fn idle() -> Modes {
    Modes { capture: false, locked: false, lock_focused: false, hints: 0, popup: false }
}

#[test]
fn unbound_keys_reach_the_application() {
    let mut s = HookState::new();
    assert_eq!(s.on_key(key(0x41, Press::Down), idle()), KeyAction::PassOn);
    assert_eq!(s.on_key(key(0x41, Press::Up), idle()), KeyAction::PassOn);
}

#[test]
fn locked_screen_swallows_until_the_password_surface_is_focused() {
    let mut s = HookState::new();
    let locked = Modes { locked: true, ..idle() };
    assert_eq!(s.on_key(key(0x41, Press::Down), locked), KeyAction::Swallow);
    // Its release is swallowed too.
    assert_eq!(s.on_key(key(0x41, Press::Up), locked), KeyAction::Swallow);
    let focused = Modes { locked: true, lock_focused: true, ..idle() };
    assert_eq!(s.on_key(key(0x41, Press::Down), focused), KeyAction::PassOn);
    let blocked = KeyEvent { lock_blocked: true, ..key(0x09, Press::Down) };
    assert_eq!(s.on_key(blocked, focused), KeyAction::Swallow);
}

#[test]
fn capture_reports_every_key() {
    let mut s = HookState::new();
    let capture = Modes { capture: true, ..idle() };
    let down = KeyEvent { modifiers: 3, ..key(0x4b, Press::Down) };
    assert_eq!(
        s.on_key(down, capture),
        KeyAction::Report(KeyReport::Capture { key: 0x4b, modifiers: 3, down: true })
    );
    assert_eq!(
        s.on_key(key(0x4b, Press::Up), capture),
        KeyAction::Report(KeyReport::Capture { key: 0x4b, modifiers: 0, down: false })
    );
    assert_eq!(s.on_key(key(0x4b, Press::Other), capture), KeyAction::Swallow);
}

#[test]
fn dictate_repeats_are_swallowed_and_release_reported() {
    let mut s = HookState::new();
    let press = bound(0x7b, Press::Down, BindingKind::Dictate);
    assert_eq!(s.on_key(press, idle()), KeyAction::Report(KeyReport::Dictate(true)));
    assert_eq!(s.on_key(press, idle()), KeyAction::Swallow);
    assert_eq!(s.on_key(key(0x7b, Press::Up), idle()), KeyAction::Report(KeyReport::Dictate(false)));
    assert_eq!(s.on_key(press, idle()), KeyAction::Report(KeyReport::Dictate(true)));
}

#[test]
fn bindings_run_once_and_their_release_is_swallowed() {
    let mut s = HookState::new();
    let press = bound(0x51, Press::Down, BindingKind::Other);
    assert_eq!(s.on_key(press, idle()), KeyAction::Run);
    assert!(s.delivered(0x51, true));
    assert_eq!(s.on_key(press, idle()), KeyAction::Swallow);
    assert_eq!(s.on_key(key(0x51, Press::Up), idle()), KeyAction::Swallow);
    assert_eq!(s.on_key(key(0x51, Press::Up), idle()), KeyAction::PassOn);
}

#[test]
fn resize_repeats_and_undelivered_commands_pass_on() {
    let mut s = HookState::new();
    let press = bound(0x25, Press::Down, BindingKind::Resize);
    assert_eq!(s.on_key(press, idle()), KeyAction::Run);
    assert!(s.delivered(0x25, true));
    assert_eq!(s.on_key(press, idle()), KeyAction::Run);
    let other = bound(0x26, Press::Down, BindingKind::Other);
    assert_eq!(s.on_key(other, idle()), KeyAction::Run);
    assert!(!s.delivered(0x26, false));
    assert_eq!(s.on_key(key(0x26, Press::Up), idle()), KeyAction::PassOn);
}

#[test]
fn hint_selection_swallows_repeats_after_the_mode_closes() {
    let mut s = HookState::new();
    let hints = Modes { hints: 7, ..idle() };
    let pick = KeyEvent { hint_key: true, ..key(0x41, Press::Down) };
    assert_eq!(s.on_key(pick, hints), KeyAction::Report(KeyReport::HintKey(7)));
    assert_eq!(s.on_key(pick, idle()), KeyAction::Swallow);
    assert_eq!(s.on_key(key(0x41, Press::Up), idle()), KeyAction::Swallow);
    let modifier = KeyEvent { is_modifier: true, ..key(0xa0, Press::Down) };
    assert_eq!(s.on_key(modifier, hints), KeyAction::Swallow);
    let invalid = key(0x5a, Press::Down);
    assert_eq!(s.on_key(invalid, hints), KeyAction::Swallow);
    let toggle = bound(0x48, Press::Down, BindingKind::BarHints);
    assert_eq!(s.on_key(toggle, hints), KeyAction::Report(KeyReport::BarHints));
}

#[test]
fn escape_closes_popups_and_hints() {
    let mut s = HookState::new();
    let popup = Modes { popup: true, ..idle() };
    assert_eq!(s.on_key(key(0x1b, Press::Down), popup), KeyAction::Report(KeyReport::Escape));
    assert_eq!(s.on_key(key(0x1b, Press::Down), idle()), KeyAction::Swallow);
    assert_eq!(s.on_key(key(0x1b, Press::Up), idle()), KeyAction::Swallow);
    assert_eq!(s.on_key(key(0x1b, Press::Down), idle()), KeyAction::PassOn);
}

#[test]
fn injected_and_out_of_range_keys_pass_on() {
    let mut s = HookState::new();
    let locked = Modes { locked: true, ..idle() };
    let injected = KeyEvent { injected: true, ..key(0x41, Press::Down) };
    assert_eq!(s.on_key(injected, locked), KeyAction::PassOn);
    assert_eq!(s.on_key(key(300, Press::Down), locked), KeyAction::PassOn);
    let _ = Consumed::No;
}
