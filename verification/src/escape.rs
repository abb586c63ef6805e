//! Physical Escape fallback for passive popups: raw keyboard notifications
//! close a popup once per press, never for other keys, held repeats, or a
//! press the keyboard hook already handled.
use vstd::prelude::*;

verus! {

pub const VK_ESCAPE: u16 = 0x1B;
pub const WM_KEYDOWN: u32 = 0x0100;
pub const WM_KEYUP: u32 = 0x0101;
pub const WM_SYSKEYDOWN: u32 = 0x0104;
pub const WM_SYSKEYUP: u32 = 0x0105;

/// What the fallback reads of a raw keyboard notification.
#[derive(Clone, Copy, Debug, PartialEq, Eq, Default)]
pub struct RawKey {
    /// Virtual-key code.
    pub vkey: u16,
    /// Window message of the notification.
    pub message: u32,
}

pub open spec fn is_down(message: u32) -> bool {
    message == WM_KEYDOWN || message == WM_SYSKEYDOWN
}

pub open spec fn is_up(message: u32) -> bool {
    message == WM_KEYUP || message == WM_SYSKEYUP
}

/// Whether Escape is held down.
#[derive(Debug, Default)]
pub struct EscapeKey {
    pub held: bool,
}

/// One notification: whether Escape is held afterwards, and whether it
/// closes the popup (the first press, while a popup is `active`, unless the
/// hook `consumed` it).
pub open spec fn step(held: bool, key: RawKey, active: bool, consumed: bool) -> (bool, bool) {
    if key.vkey != VK_ESCAPE {
        (held, false)
    } else if is_up(key.message) {
        (false, false)
    } else if is_down(key.message) {
        (true, !held && active && !consumed)
    } else {
        (held, false)
    }
}

/// How many of `events` close a popup, starting with Escape `held` or not.
pub open spec fn closes(held: bool, events: Seq<(RawKey, bool, bool)>) -> nat
    decreases events.len(),
{
    if events.len() == 0 {
        0
    } else {
        let (h, close) = step(held, events[0].0, events[0].1, events[0].2);
        (if close { 1nat } else { 0nat }) + closes(h, events.drop_first())
    }
}

impl EscapeKey {
    /// Tracks Escape and answers whether this notification closes the popup.
    pub fn update(&mut self, key: RawKey, active: bool, consumed: bool) -> (close: bool)
        ensures
            (final(self).held, close) == step(old(self).held, key, active, consumed),
    {
        if key.vkey != VK_ESCAPE {
            return false;
        }
        if key.message == WM_KEYUP || key.message == WM_SYSKEYUP {
            self.held = false;
            false
        } else if key.message == WM_KEYDOWN || key.message == WM_SYSKEYDOWN {
            let first = !self.held;
            self.held = true;
            first && active && !consumed
        } else {
            false
        }
    }
}

/// However many notifications a press delivers (repeats, both message
/// kinds, other keys in between), it closes at most once: without an Escape
/// release, a run of notifications closes at most one popup, and none when
/// Escape was already held.
pub proof fn escape_closes_once_per_press(held: bool, events: Seq<(RawKey, bool, bool)>)
    requires
        forall|i: int| 0 <= i < events.len() ==> !((#[trigger] events[i]).0.vkey == VK_ESCAPE && is_up(events[i].0.message)),
    ensures
        closes(held, events) <= (if held { 0nat } else { 1nat }),
    decreases events.len(),
{
    if events.len() > 0 {
        let (h, close) = step(held, events[0].0, events[0].1, events[0].2);
        assert(!(events[0].0.vkey == VK_ESCAPE && is_up(events[0].0.message)));
        assert forall|i: int| 0 <= i < events.drop_first().len() implies !((#[trigger] events.drop_first()[i]).0.vkey == VK_ESCAPE && is_up(events.drop_first()[i].0.message)) by {
            assert(events.drop_first()[i] == events[i + 1]);
        }
        escape_closes_once_per_press(h, events.drop_first());
    }
}

} // verus!
