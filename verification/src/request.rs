//! A queued command can be cancelled, but an already-started side effect
//! cannot. The ticket's state lives in an atomic shared by the requesting
//! and the executing thread.
use std::sync::atomic::AtomicU8;
use std::sync::Arc;
use vstd::prelude::*;

verus! {

pub const QUEUED: u8 = 0;
pub const RUNNING: u8 = 1;
pub const CANCELLED: u8 = 2;

#[verifier::external_type_specification]
#[verifier::external_body]
#[verifier::reject_recursive_types(T)]
pub struct ExMpscSender<T>(std::sync::mpsc::Sender<T>);

/// `AtomicU8::compare_exchange` from `current` to `new`: `Ok` with the
/// previous value, equal to `current`, when the value was replaced; `Err`
/// with the previous value, different from `current`, otherwise.
#[verifier::external_body]
fn exchange(state: &AtomicU8, current: u8, new: u8) -> (r: Result<u8, u8>)
    ensures
        r matches Ok(v) ==> v == current,
        r matches Err(v) ==> v != current,
{
    state.compare_exchange(current, new, std::sync::atomic::Ordering::AcqRel, std::sync::atomic::Ordering::Acquire)
}

/// What is asked of a ticket.
#[derive(Clone, Copy, Debug, PartialEq, Eq)]
pub enum TicketOp {
    Start,
    Cancel,
}

/// The state change asked of a ticket's atomic for `op` at `now`, with the
/// ticket's `deadline`: from queued to running for a start before the
/// deadline, from queued to cancelled for a cancellation, none for a start
/// at or past the deadline (the ticket is cancelled instead).
pub open spec fn spec_transition(op: TicketOp, now: u64, deadline: u64) -> Option<(u8, u8)> {
    match op {
        TicketOp::Start => if now >= deadline { None } else { Some((QUEUED, RUNNING)) },
        TicketOp::Cancel => Some((QUEUED, CANCELLED)),
    }
}

/// The compare-and-exchange that `op` hands to the ticket's state.
pub fn transition(op: TicketOp, now: u64, deadline: u64) -> (t: Option<(u8, u8)>)
    ensures
        t == spec_transition(op, now, deadline),
{
    match op {
        TicketOp::Start => if now >= deadline { None } else { Some((QUEUED, RUNNING)) },
        TicketOp::Cancel => Some((QUEUED, CANCELLED)),
    }
}

/// A queued command's ticket. Times are nanoseconds on the caller's
/// monotonic clock.
pub struct Ticket {
    deadline: u64,
    state: AtomicU8,
}

impl Ticket {
    pub closed spec fn deadline(&self) -> u64 {
        self.deadline
    }

    /// A queued ticket that expires at `deadline`.
    pub fn new(deadline: u64) -> (t: Self)
        ensures
            t.deadline() == deadline,
    {
        Ticket { deadline, state: AtomicU8::new(QUEUED) }
    }

    /// Moves a queued ticket to running. An expired ticket is cancelled
    /// instead; a running or cancelled one stays as it is.
    pub fn start(&self, now: u64) -> (started: bool)
        ensures
            now >= self.deadline() ==> !started,
    {
        match transition(TicketOp::Start, now, self.deadline) {
            Some((from, to)) => exchange(&self.state, from, to).is_ok(),
            None => {
                self.cancel();
                false
            },
        }
    }

    /// Cancels a queued ticket; a running or cancelled one stays as it is.
    pub fn cancel(&self) -> (cancelled: bool) {
        match transition(TicketOp::Cancel, 0, 0) {
            Some((from, to)) => exchange(&self.state, from, to).is_ok(),
            None => false,
        }
    }
}

/// Starts the command that `ticket` guards, at `now`: `Ok` when it may run,
/// and the reply to send instead when its deadline has passed or it was
/// cancelled or already started.
pub fn begin(ticket: &Ticket, now: u64) -> (r: Result<(), String>)
    ensures
        now >= ticket.deadline() ==> r is Err,
        r matches Err(e) ==> e@ == "IPC request expired before execution"@,
{
    if ticket.start(now) {
        Ok(())
    } else {
        Err(String::from_str("IPC request expired before execution"))
    }
}

/// Where the reply to a queued command goes, with the ticket that guards it.
pub struct ReplyTo {
    pub ticket: Arc<Ticket>,
    pub sender: std::sync::mpsc::Sender<Result<String, String>>,
}

} // verus!
