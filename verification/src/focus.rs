//! Short-lived focus requests: a window that appears soon after the user
//! asked for it may take the foreground.
use vstd::prelude::*;

verus! {

#[verifier::external_type_specification]
#[verifier::external_body]
pub struct ExInstant(std::time::Instant);

/// A request stays valid for this long.
pub const FOCUS_WINDOW_NANOS: u128 = 3_000_000_000;

/// `Instant::elapsed`, in nanoseconds. It depends on the clock, so nothing
/// is stated of the value.
#[verifier::external_body]
fn nanos_since(at: &std::time::Instant) -> u128 {
    at.elapsed().as_nanos()
}

/// Whether a pending request whose age is `elapsed` nanoseconds is still
/// recent enough to be used.
pub open spec fn taken_within(slot: Option<std::time::Instant>, elapsed: u128) -> bool {
    slot is Some && elapsed < FOCUS_WINDOW_NANOS
}

/// The request slot after a request of age `elapsed` was looked at.
pub open spec fn after_take(slot: Option<std::time::Instant>, elapsed: u128) -> Option<std::time::Instant> {
    if taken_within(slot, elapsed) { None } else { slot }
}

/// Takes a pending request whose age is `elapsed_nanos`: it is used up when
/// it is less than three seconds old, and stays in place otherwise.
pub fn take_within(slot: &mut Option<std::time::Instant>, elapsed_nanos: u128) -> (taken: bool)
    ensures
        taken == taken_within(*old(slot), elapsed_nanos),
        *final(slot) == after_take(*old(slot), elapsed_nanos),
{
    let recent = slot.is_some() && elapsed_nanos < FOCUS_WINDOW_NANOS;
    if recent {
        *slot = None;
    }
    recent
}

/// Takes a pending request made less than three seconds ago; an older one
/// stays in place, as `Option::take_if` leaves it. The age comes from the
/// clock: the outcome is that of `take_within` for some age.
pub fn take_recent(slot: &mut Option<std::time::Instant>) -> (taken: bool)
    ensures
        exists|e: u128| taken == #[trigger] taken_within(*old(slot), e) && *final(slot) == after_take(*old(slot), e),
        taken ==> (*old(slot)) is Some && (*final(slot)) is None,
        !taken ==> *final(slot) == *old(slot),
{
    let elapsed: u128 = match slot {
        Some(at) => nanos_since(at),
        None => 0,
    };
    take_within(slot, elapsed)
}

/// A request gives focus at most once: once used, a later look finds none.
pub proof fn a_request_is_used_once(slot: Option<std::time::Instant>, first: u128, second: u128)
    ensures
        taken_within(slot, first) ==> !taken_within(after_take(slot, first), second),
{
}

} // verus!
