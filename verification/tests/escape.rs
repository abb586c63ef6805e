use illium::escape::{EscapeKey, RawKey, VK_ESCAPE, WM_KEYDOWN, WM_KEYUP, WM_SYSKEYDOWN, WM_SYSKEYUP};

fn key(message: u32) -> RawKey {
    RawKey { vkey: VK_ESCAPE, message }
}

#[test]
fn physical_escape_closes_once_without_focus_or_hook_delivery() {
    let mut escape = EscapeKey::default();
    assert!(escape.update(key(WM_KEYDOWN), true, false));
    assert!(!escape.update(key(WM_KEYDOWN), true, false));
    assert!(!escape.update(key(WM_KEYUP), false, false));
    assert!(escape.update(key(WM_SYSKEYDOWN), true, false));
    assert!(!escape.update(key(WM_SYSKEYUP), true, false));
}

#[test]
fn raw_notifications_do_not_steal_regular_keys_or_repeat_consumed_escape() {
    let mut escape = EscapeKey::default();
    assert!(!escape.update(key(WM_KEYDOWN), false, false));
    assert!(!escape.update(key(WM_KEYDOWN), true, false)); // held before popup
    escape.update(key(WM_KEYUP), true, false);
    assert!(!escape.update(key(WM_KEYDOWN), true, true)); // hook already handled it
    assert!(!escape.update(key(WM_KEYDOWN), true, false));
    escape.update(key(WM_KEYUP), true, false);
    let other = RawKey { vkey: 65, message: WM_KEYDOWN };
    assert!(!escape.update(other, true, false));
    assert!(escape.update(key(WM_KEYDOWN), true, false));
}

#[test]
fn repeats_between_releases_close_once() {
    let mut escape = EscapeKey::default();
    let closes = (0..5).filter(|_| escape.update(key(WM_KEYDOWN), true, false)).count();
    assert_eq!(closes, 1);
    escape.update(key(WM_KEYUP), true, false);
    assert!(escape.update(key(WM_KEYDOWN), true, false));
}
