//! Bundled browser launch: a target that names the bundled executable
//! without arguments opens the prepared browser instead of a new process.
use crate::text::{chars_of, eq_ignore_ascii_case, same_ignoring_ascii_case, strip_bounds, strip_char, trim, trim_bounds};
use vstd::prelude::*;

verus! {

/// Whether launch `target` is the bundled executable by its bare name, or by
/// `command`, the quoted full path of the bundled executable (quoted or not).
pub open spec fn spec_bundled(target: Seq<char>, name: Seq<char>, command: Option<Seq<char>>) -> bool {
    let t = trim(target);
    ||| eq_ignore_ascii_case(t, name)
    ||| match command {
        Some(c) => eq_ignore_ascii_case(t, c) || eq_ignore_ascii_case(t, strip_char(c, '"')),
        None => false,
    }
}

/// `target` compared with `name` and with the full `command` of a bundled executable.
pub fn bundled_as(target: &str, name: &str, command: Option<&str>) -> (r: bool)
    ensures
        r == spec_bundled(target@, name@, match command { Some(c) => Some(c@), None => None::<Seq<char>> }),
{
    let chars = chars_of(target);
    let (start, end) = trim_bounds(&chars, 0);
    assert(chars@.skip(0) =~= chars@);
    let t = &chars.as_slice()[start..end];
    let n = chars_of(name);
    if same_ignoring_ascii_case(t, n.as_slice()) {
        return true;
    }
    match command {
        Some(c) => {
            let full = chars_of(c);
            if same_ignoring_ascii_case(t, full.as_slice()) {
                return true;
            }
            let (a, b) = strip_bounds(full.as_slice(), '"');
            same_ignoring_ascii_case(t, &full.as_slice()[a..b])
        },
        None => false,
    }
}

/// Whether launch `target` opens the bundled browser: `illium-browser.exe`
/// or the bundled executable's `command`, without arguments.
pub fn bundled(target: &str, command: Option<&str>) -> (r: bool)
    ensures
        r == spec_bundled(target@, "illium-browser.exe"@, match command { Some(c) => Some(c@), None => None::<Seq<char>> }),
{
    bundled_as(target, "illium-browser.exe", command)
}

} // verus!
