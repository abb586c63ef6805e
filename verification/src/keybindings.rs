//! The keybindings editor's chord capture. While a row is being rebound the
//! keyboard hook reports every key; these rules decide what each key does to
//! the capture: Escape cancels it, Backspace clears the chord, Enter applies
//! it (releasing the row's old chord and the conflicting row's), a key
//! without a modifier asks for one, and a key that cannot be bound is
//! refused. Key names, chord text and conflict lookup belong to the keyboard
//! tables of the platform layer, which hands in their answers.
use vstd::prelude::*;

verus! {

pub const VK_BACK: u32 = 0x08;
pub const VK_RETURN: u32 = 0x0D;
pub const VK_ESCAPE: u32 = 0x1B;

/// Why the last key was not taken.
#[derive(Clone, Copy, Debug, PartialEq, Eq)]
pub enum CaptureError {
    /// A key pressed without Ctrl, Alt, Shift or Super.
    NeedsModifier,
    /// A key that has no name in the keyboard tables.
    Unbindable,
}

/// A capture in progress for row `row`.
#[derive(Clone, Copy, Debug, PartialEq, Eq)]
pub struct Capture {
    pub row: usize,
    /// The chord recorded so far: key and modifier mask.
    pub chord: Option<(u32, u8)>,
    /// The other row that already uses the chord.
    pub conflict: Option<usize>,
    /// Whether the capture started from the row's default chord.
    pub reset: bool,
    pub error: Option<CaptureError>,
}

/// A key reported by the hook while capturing, with what the keyboard tables
/// say of it.
#[derive(Clone, Copy, Debug, PartialEq, Eq)]
pub struct CapturedKey {
    pub vk: u32,
    pub modifiers: u8,
    pub down: bool,
    /// Whether `vk` is a modifier key.
    pub is_modifier: bool,
    /// Whether `vk` has a name, so that a chord can hold it.
    pub bindable: bool,
    /// The other row that already uses the chord of this key and modifiers.
    pub conflict: Option<usize>,
}

/// What a captured key asks of the editor.
#[derive(Clone, Copy, Debug, PartialEq, Eq)]
pub enum CaptureStep {
    /// Nothing beyond showing the capture again.
    Nothing,
    /// Write the chord for the row, releasing the conflicting row's chord.
    Apply { row: usize, chord: (u32, u8), conflict: Option<usize> },
}

/// The capture, the held modifiers and the step after key `k`.
pub open spec fn spec_capture(c: Option<Capture>, held: u8, k: CapturedKey) -> (Option<Capture>, u8, CaptureStep) {
    match c {
        None => (c, held, CaptureStep::Nothing),
        Some(cap) => if k.is_modifier {
            (c, k.modifiers, CaptureStep::Nothing)
        } else if !k.down {
            (c, held, CaptureStep::Nothing)
        } else {
            let cap = Capture { error: None, ..cap };
            if k.vk == VK_ESCAPE && k.modifiers == 0 {
                (None, held, CaptureStep::Nothing)
            } else if k.vk == VK_BACK && k.modifiers == 0 {
                (Some(Capture { chord: None, conflict: None, ..cap }), 0, CaptureStep::Nothing)
            } else if k.vk == VK_RETURN && k.modifiers == 0 {
                match cap.chord {
                    Some(chord) => (Some(cap), held, CaptureStep::Apply { row: cap.row, chord, conflict: cap.conflict }),
                    None => (Some(cap), held, CaptureStep::Nothing),
                }
            } else if k.modifiers == 0 {
                (Some(Capture { error: Some(CaptureError::NeedsModifier), ..cap }), held, CaptureStep::Nothing)
            } else if k.bindable {
                (Some(Capture { chord: Some((k.vk, k.modifiers)), conflict: k.conflict, ..cap }), held, CaptureStep::Nothing)
            } else {
                (Some(Capture { error: Some(CaptureError::Unbindable), ..cap }), held, CaptureStep::Nothing)
            }
        },
    }
}

/// One key while capturing a chord.
pub fn capture_key(capture: &mut Option<Capture>, held: &mut u8, k: CapturedKey) -> (step: CaptureStep)
    ensures
        (*final(capture), *final(held), step) == spec_capture(*old(capture), *old(held), k),
{
    let cap = match *capture {
        None => return CaptureStep::Nothing,
        Some(cap) => cap,
    };
    if k.is_modifier {
        *held = k.modifiers;
        return CaptureStep::Nothing;
    }
    if !k.down {
        return CaptureStep::Nothing;
    }
    let cap = Capture { error: None, ..cap };
    if k.vk == VK_ESCAPE && k.modifiers == 0 {
        *capture = None;
        CaptureStep::Nothing
    } else if k.vk == VK_BACK && k.modifiers == 0 {
        *capture = Some(Capture { chord: None, conflict: None, ..cap });
        *held = 0;
        CaptureStep::Nothing
    } else if k.vk == VK_RETURN && k.modifiers == 0 {
        *capture = Some(cap);
        match cap.chord {
            Some(chord) => CaptureStep::Apply { row: cap.row, chord, conflict: cap.conflict },
            None => CaptureStep::Nothing,
        }
    } else if k.modifiers == 0 {
        *capture = Some(Capture { error: Some(CaptureError::NeedsModifier), ..cap });
        CaptureStep::Nothing
    } else if k.bindable {
        *capture = Some(Capture { chord: Some((k.vk, k.modifiers)), conflict: k.conflict, ..cap });
        CaptureStep::Nothing
    } else {
        *capture = Some(Capture { error: Some(CaptureError::Unbindable), ..cap });
        CaptureStep::Nothing
    }
}

/// A chord to write: the chords it releases, the chord and its command.
#[derive(Clone, Debug, PartialEq)]
pub struct Apply {
    /// Chords released: the row's previous one and a replaced conflict.
    pub remove: Vec<String>,
    pub chord: String,
    pub command: String,
}

/// What the editor asks of its owner.
#[derive(Clone, Debug, PartialEq)]
pub enum Outcome {
    Nothing,
    Close,
    Apply(Apply),
}

/// The write for an applied capture: `chord` for `command`, releasing the
/// row's previous chord and then the conflicting row's chord, where there are.
pub fn apply(previous: Option<String>, taken: Option<String>, chord: String, command: String) -> (a: Apply)
    ensures
        a.remove@.map_values(|s: String| s@) == (match previous { Some(p) => seq![p@], None => Seq::empty() }) + (match taken {
            Some(t) => seq![t@],
            None => Seq::empty(),
        }),
        a.chord@ == chord@,
        a.command@ == command@,
{
    let mut remove: Vec<String> = Vec::new();
    let ghost p = previous;
    let ghost t = taken;
    match previous {
        Some(p) => remove.push(p),
        None => {},
    }
    match taken {
        Some(t) => remove.push(t),
        None => {},
    }
    assert(remove@.map_values(|s: String| s@) =~= (match p { Some(p) => seq![p@], None => Seq::empty() }) + (match t {
        Some(t) => seq![t@],
        None => Seq::empty(),
    }));
    Apply { remove, chord, command }
}

/// Escape or the close button: a capture in progress is cancelled, and the
/// editor closes only when none is.
pub fn dismiss(capture: &mut Option<Capture>) -> (o: Outcome)
    ensures
        *final(capture) is None,
        (*old(capture) is Some) ==> o == Outcome::Nothing,
        (*old(capture) is None) ==> o == Outcome::Close,
{
    if capture.is_some() {
        *capture = None;
        Outcome::Nothing
    } else {
        Outcome::Close
    }
}

} // verus!
