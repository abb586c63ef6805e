//! Push-to-talk for the optional dictation resident: the bound key going
//! down and up becomes `start` and `stop` requests on the resident's pipe.
//! The pipe itself and the resident process belong to the platform layer.
use vstd::prelude::*;

verus! {

/// What the daemon last asked of the dictation resident.
#[derive(Debug, Default)]
pub struct Dictation {
    pub recording: bool,
}

/// The request for the key going down (`true`) or up (`false`).
pub open spec fn verb_for(down: bool) -> Seq<char> {
    if down { "start"@ } else { "stop"@ }
}

impl Dictation {
    /// The bound key went down (`true`) or up (`false`): the request to send.
    pub fn hold(&mut self, down: bool) -> (verb: &'static str)
        ensures
            final(self).recording == down,
            verb@ == verb_for(down),
    {
        self.recording = down;
        if down { "start" } else { "stop" }
    }

    /// `illiumctl dictate`: start when idle, stop when recording.
    pub fn toggle(&mut self) -> (verb: &'static str)
        ensures
            final(self).recording == !old(self).recording,
            verb@ == verb_for(!old(self).recording),
    {
        let down = !self.recording;
        self.hold(down)
    }
}

/// Toggling alternates the requests: each toggle asks for the opposite of
/// the previous one, and two toggles bring the recording state back.
pub proof fn toggles_alternate(recording: bool)
    ensures
        verb_for(!recording) != verb_for(!!recording),
        !!recording == recording,
{
    reveal_strlit("start");
    reveal_strlit("stop");
    assert("start"@.len() != "stop"@.len());
}

} // verus!
