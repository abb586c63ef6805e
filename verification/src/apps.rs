//! Companion applications: shown through the resident `illium-apps serve`
//! process when it answers, started as their own process otherwise. The
//! pipe and process work belong to the platform layer.
use crate::focus::{after_take, take_recent, taken_within};
use crate::text::{chars_of, ends_with, has_suffix, lowercase, push_char, push_text, to_lowercase};
use vstd::prelude::*;

verus! {

/// Whether executable path `exe` names the companion executable, whatever its case.
pub open spec fn is_companion(exe: Seq<char>) -> bool {
    ends_with(lowercase(exe), "illium-apps.exe"@)
}

/// Whether a window of `exe` appearing now was asked for by the user: the
/// companion executable, with a show request (in `requested`) less than
/// three seconds old. Such a request is used up.
pub fn wants_focus(exe: &str, requested: &mut Option<std::time::Instant>) -> (r: bool)
    ensures
        r ==> is_companion(exe@) && (*old(requested)) is Some && (*final(requested)) is None,
        !r ==> *final(requested) == *old(requested),
        !is_companion(exe@) ==> !r,
        (*old(requested)) is None ==> !r,
        is_companion(exe@) ==> exists|e: u128| r == #[trigger] taken_within(*old(requested), e) && *final(requested) == after_take(*old(requested), e),
{
    let lower = to_lowercase(exe);
    let chars = chars_of(lower.as_str());
    let suffix = chars_of("illium-apps.exe");
    has_suffix(chars.as_slice(), suffix.as_slice()) && take_recent(requested)
}

/// The command line running companion application `name` with the
/// executable at `tool`: the path in double quotes, a space, the name.
pub fn command_line(tool: &str, name: &str) -> (r: String)
    ensures
        r@ == seq!['"'] + tool@ + seq!['"', ' '] + name@,
{
    let mut r = String::new();
    push_char(&mut r, '"');
    push_text(&mut r, tool);
    push_char(&mut r, '"');
    push_char(&mut r, ' ');
    push_text(&mut r, name);
    assert(r@ =~= seq!['"'] + tool@ + seq!['"', ' '] + name@);
    r
}

} // verus!

