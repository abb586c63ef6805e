//! Decisions of the low-level keyboard hook. The hook reads each key
//! notification, and this module decides from plain values whether the key
//! is swallowed, handed to the next hook, reported to the UI thread, or runs
//! its binding. Reading the notification and sending the events belong to the
//! platform layer.
//!
//! The rules: while the screen is locked every key-down is swallowed until
//! the password surface has the foreground, so a password never lands in the
//! window behind; capture mode swallows and reports every key; the dictate
//! key's repeats are swallowed and its release reported; a key-down consumed
//! by a binding, a hint selection or the lock screen swallows its repeats and
//! its release.
use vstd::prelude::*;

verus! {

/// Virtual-key code of Escape.
pub const VK_ESC: u32 = 0x1B;

/// What an earlier key-down of a key did with it.
#[derive(Clone, Copy, Debug, PartialEq, Eq, Structural)]
pub enum Consumed {
    /// It reached the application.
    No,
    /// It ran a binding.
    Binding,
    /// A mode (lock screen, hints, popup) took it.
    Modal,
}

/// The kind of binding that a key and its modifiers are bound to.
#[derive(Clone, Copy, Debug, PartialEq, Eq, Structural)]
pub enum BindingKind {
    /// Push-to-talk dictation.
    Dictate,
    /// A window resize, which repeats while held.
    Resize,
    /// Opening the bar hints.
    BarHints,
    /// Any other command.
    Other,
}

/// Whether a notification is a press, a release, or neither.
#[derive(Clone, Copy, Debug, PartialEq, Eq, Structural)]
pub enum Press {
    Down,
    Up,
    Other,
}

/// What the hook reads of one key notification.
#[derive(Clone, Copy, Debug, PartialEq, Eq)]
pub struct KeyEvent {
    /// Virtual-key code.
    pub key: u32,
    /// Whether the shell injected the key itself.
    pub injected: bool,
    pub press: Press,
    /// The modifier mask after this notification.
    pub modifiers: u8,
    /// What the key with these modifiers is bound to.
    pub binding: Option<BindingKind>,
    /// Whether the key is a modifier key.
    pub is_modifier: bool,
    /// Whether the key, with at most Shift held, selects a bar hint.
    pub hint_key: bool,
    /// Whether the lock screen blocks this key even when focused.
    pub lock_blocked: bool,
}

/// The modes that the UI thread publishes to the hook.
#[derive(Clone, Copy, Debug, PartialEq, Eq)]
pub struct Modes {
    /// The keybindings editor records a chord.
    pub capture: bool,
    /// The lock screen is shown.
    pub locked: bool,
    /// The password surface is the foreground window.
    pub lock_focused: bool,
    /// Nonzero opening generation while bar hints take the keyboard.
    pub hints: u32,
    /// A bar popup is shown.
    pub popup: bool,
}

/// An event for the UI thread; the key is swallowed.
#[derive(Clone, Copy, Debug, PartialEq, Eq)]
pub enum KeyReport {
    /// A key of the chord being recorded.
    Capture { key: u32, modifiers: u8, down: bool },
    /// The dictate key was pressed (`true`) or released (`false`).
    Dictate(bool),
    /// Escape closes the popup or the hints.
    Escape,
    /// The bar hints binding, pressed while hints are shown.
    BarHints,
    /// A hint selection key, for the hints of this generation.
    HintKey(u32),
}

/// What the hook does with a key.
#[derive(Clone, Copy, Debug, PartialEq, Eq)]
pub enum KeyAction {
    /// Hand it to the next hook.
    PassOn,
    /// Swallow it.
    Swallow,
    /// Swallow it and report it.
    Report(KeyReport),
    /// Send the binding's command; `delivered` then says what becomes of the key.
    Run,
}

/// One key notification: the consumed marks, the held dictate key (its code
/// plus one, 0 for none) and the action, afterwards.
pub open spec fn key_step(c: Seq<Consumed>, held: u32, k: KeyEvent, m: Modes) -> (Seq<Consumed>, u32, KeyAction) {
    let i = k.key as int;
    if k.key >= 256 || k.injected {
        (c, held, KeyAction::PassOn)
    } else if m.capture {
        if k.press != Press::Other {
            (c.update(i, Consumed::No), held, KeyAction::Report(KeyReport::Capture { key: k.key, modifiers: k.modifiers, down: k.press == Press::Down }))
        } else {
            (c, held, KeyAction::Swallow)
        }
    } else if k.press == Press::Up && held == k.key + 1 {
        (c, 0, KeyAction::Report(KeyReport::Dictate(false)))
    } else if k.press == Press::Up && c[i] != Consumed::No {
        (c.update(i, Consumed::No), held, KeyAction::Swallow)
    } else if m.locked {
        if k.press == Press::Down && (!m.lock_focused || k.lock_blocked) {
            (c.update(i, Consumed::Modal), held, KeyAction::Swallow)
        } else {
            (c, held, KeyAction::PassOn)
        }
    } else if k.press != Press::Down {
        (c, held, KeyAction::PassOn)
    } else if c[i] == Consumed::Modal || (c[i] == Consumed::Binding && k.binding != Some(BindingKind::Resize)) {
        (c, held, KeyAction::Swallow)
    } else if k.key == VK_ESC && (m.hints != 0 || m.popup) {
        (c.update(i, Consumed::Modal), held, KeyAction::Report(KeyReport::Escape))
    } else if m.hints != 0 {
        let c2 = c.update(i, Consumed::Modal);
        if k.is_modifier {
            (c2, held, KeyAction::Swallow)
        } else if k.binding == Some(BindingKind::BarHints) {
            (c2, held, KeyAction::Report(KeyReport::BarHints))
        } else if k.hint_key {
            (c2, held, KeyAction::Report(KeyReport::HintKey(m.hints)))
        } else {
            (c2, held, KeyAction::Swallow)
        }
    } else {
        match k.binding {
            Some(BindingKind::Dictate) => if held != k.key + 1 {
                (c, (k.key + 1) as u32, KeyAction::Report(KeyReport::Dictate(true)))
            } else {
                (c, held, KeyAction::Swallow)
            },
            Some(_) => (c, held, KeyAction::Run),
            None => (c, held, KeyAction::PassOn),
        }
    }
}

/// Whether an action keeps the key from the application.
pub open spec fn swallowed(a: KeyAction) -> bool {
    a is Swallow || a is Report
}

/// The hook's memory between notifications.
pub struct HookState {
    consumed: [Consumed; 256],
    held: u32,
}

impl HookState {
    /// What the last key-down of each key did with it.
    pub closed spec fn consumed(&self) -> Seq<Consumed> {
        self.consumed@
    }

    /// The held dictate key's code plus one, 0 when none is held.
    pub closed spec fn held(&self) -> u32 {
        self.held
    }

    /// No key consumed, no dictate key held.
    pub fn new() -> (s: Self)
        ensures
            s.consumed() == Seq::new(256, |_i: int| Consumed::No),
            s.held() == 0,
    {
        let v: [Consumed; 256] = [Consumed::No; 256];
        assert(v@ =~= Seq::new(256, |_i: int| Consumed::No));
        HookState { consumed: v, held: 0 }
    }

    /// Decides one key notification.
    pub fn on_key(&mut self, k: KeyEvent, m: Modes) -> (a: KeyAction)
        ensures
            (final(self).consumed(), final(self).held(), a) == key_step(old(self).consumed(), old(self).held(), k, m),
            final(self).consumed().len() == 256,
            // Locked and the password surface not yet focused: every press is swallowed.
            k.key < 256 && !k.injected && !m.capture && m.locked && k.press == Press::Down && !m.lock_focused
                ==> a == KeyAction::Swallow && final(self).consumed()[k.key as int] == Consumed::Modal,
            // Capture mode swallows every key and reports presses and releases.
            k.key < 256 && !k.injected && m.capture ==> swallowed(a),
            k.key < 256 && !k.injected && m.capture && k.press != Press::Other
                ==> a == KeyAction::Report(KeyReport::Capture { key: k.key, modifiers: k.modifiers, down: k.press == Press::Down }),
            // The held dictate key's repeats are swallowed, its release reported.
            k.key < 256 && !k.injected && !m.capture && !m.locked && m.hints == 0 && !(k.key == VK_ESC && m.popup)
                && k.press == Press::Down && k.binding == Some(BindingKind::Dictate) && old(self).held() == k.key + 1
                ==> a == KeyAction::Swallow,
            k.key < 256 && !k.injected && !m.capture && k.press == Press::Up && old(self).held() == k.key + 1
                ==> a == KeyAction::Report(KeyReport::Dictate(false)) && final(self).held() == 0,
            // A release after a consumed press is swallowed too.
            k.key < 256 && !k.injected && !m.capture && k.press == Press::Up && old(self).consumed()[k.key as int] != Consumed::No
                ==> swallowed(a),
            // A press taken by a mode swallows its repeats, whatever the mode is now.
            k.key < 256 && !k.injected && !m.capture && !m.locked && k.press == Press::Down
                && old(self).consumed()[k.key as int] == Consumed::Modal
                ==> a == KeyAction::Swallow,
    {
        if k.key >= 256 || k.injected {
            return KeyAction::PassOn;
        }
        let i = k.key as usize;
        if m.capture {
            return match k.press {
                Press::Other => KeyAction::Swallow,
                _ => {
                    self.consumed[i] = Consumed::No;
                    KeyAction::Report(KeyReport::Capture { key: k.key, modifiers: k.modifiers, down: k.press == Press::Down })
                },
            };
        }
        let up = k.press == Press::Up;
        let down = k.press == Press::Down;
        if up && self.held == k.key + 1 {
            self.held = 0;
            return KeyAction::Report(KeyReport::Dictate(false));
        }
        if up && self.consumed[i] != Consumed::No {
            self.consumed[i] = Consumed::No;
            return KeyAction::Swallow;
        }
        if m.locked {
            if down && (!m.lock_focused || k.lock_blocked) {
                self.consumed[i] = Consumed::Modal;
                return KeyAction::Swallow;
            }
            return KeyAction::PassOn;
        }
        if !down {
            return KeyAction::PassOn;
        }
        let resize = match k.binding {
            Some(BindingKind::Resize) => true,
            _ => false,
        };
        let c = self.consumed[i];
        if c == Consumed::Modal || (c == Consumed::Binding && !resize) {
            return KeyAction::Swallow;
        }
        if k.key == VK_ESC && (m.hints != 0 || m.popup) {
            self.consumed[i] = Consumed::Modal;
            return KeyAction::Report(KeyReport::Escape);
        }
        if m.hints != 0 {
            self.consumed[i] = Consumed::Modal;
            if k.is_modifier {
                return KeyAction::Swallow;
            }
            return match k.binding {
                Some(BindingKind::BarHints) => KeyAction::Report(KeyReport::BarHints),
                _ => if k.hint_key {
                    KeyAction::Report(KeyReport::HintKey(m.hints))
                } else {
                    KeyAction::Swallow
                },
            };
        }
        match k.binding {
            Some(BindingKind::Dictate) => {
                if self.held != k.key + 1 {
                    self.held = k.key + 1;
                    KeyAction::Report(KeyReport::Dictate(true))
                } else {
                    KeyAction::Swallow
                }
            },
            Some(_) => KeyAction::Run,
            None => KeyAction::PassOn,
        }
    }

    /// After `Run`: whether the binding's command reached the UI thread. A
    /// delivered command marks the key as a binding's and swallows it; an
    /// undelivered one hands the key on.
    pub fn delivered(&mut self, key: u32, ok: bool) -> (swallow: bool)
        ensures
            swallow == ok,
            final(self).consumed() == (if ok && key < 256 { old(self).consumed().update(key as int, Consumed::Binding) } else { old(self).consumed() }),
            final(self).held() == old(self).held(),
    {
        if ok && key < 256 {
            self.consumed[key as usize] = Consumed::Binding;
        }
        ok
    }
}

} // verus!
