//! Bundled terminal launch: the bundled alias without arguments opens the
//! prepared terminal; other terminals and explicit arguments launch normally.
use crate::browser::{bundled_as, spec_bundled};
use crate::focus::{after_take, take_recent, taken_within};
use crate::text::{ascii_lower, chars_of, ends_with, has_suffix, to_ascii_lower};
use vstd::prelude::*;

verus! {

/// Whether launch `target` opens the bundled terminal: `winarchy-terminal.exe`
/// or the bundled executable's `command`, without arguments.
pub fn bundled(target: &str, command: Option<&str>) -> (r: bool)
    ensures
        r == spec_bundled(target@, "winarchy-terminal.exe"@, match command { Some(c) => Some(c@), None => None::<Seq<char>> }),
{
    bundled_as(target, "winarchy-terminal.exe", command)
}

/// Whether executable path `exe` names the bundled terminal, ignoring ASCII case.
pub open spec fn is_terminal(exe: Seq<char>) -> bool {
    ends_with(exe.map_values(|c: char| ascii_lower(c)), "winarchy-terminal.exe"@)
}

/// Whether a window of `exe` appearing now was asked for: the bundled
/// terminal, with an open request less than three seconds old, used up.
pub fn wants_focus(exe: &str, requested: &mut Option<std::time::Instant>) -> (r: bool)
    ensures
        r ==> is_terminal(exe@) && (*old(requested)) is Some && (*final(requested)) is None,
        !r ==> *final(requested) == *old(requested),
        !is_terminal(exe@) ==> !r,
        (*old(requested)) is None ==> !r,
        is_terminal(exe@) ==> exists|e: u128| r == #[trigger] taken_within(*old(requested), e) && *final(requested) == after_take(*old(requested), e),
{
    let chars = chars_of(exe);
    let mut lower: Vec<char> = Vec::new();
    let mut i: usize = 0;
    while i < chars.len()
        invariant
            i <= chars@.len(),
            lower@ == chars@.take(i as int).map_values(|c: char| ascii_lower(c)),
        decreases chars@.len() - i,
    {
        lower.push(to_ascii_lower(chars[i]));
        assert(chars@.take(i + 1).map_values(|c: char| ascii_lower(c)) =~= chars@.take(i as int).map_values(|c: char| ascii_lower(c)).push(ascii_lower(chars@[i as int])));
        i += 1;
    }
    assert(chars@.take(i as int) =~= exe@);
    let suffix = chars_of("winarchy-terminal.exe");
    has_suffix(lower.as_slice(), suffix.as_slice()) && take_recent(requested)
}

} // verus!
