//! The preview worker's latest-request slot: one pending job, and the
//! completion (or progress) of the current request only. Superseded and
//! cancelled work can never publish. The lock, the wake-ups, the worker
//! thread and the rendering belong to the platform layer.
use vstd::prelude::*;

verus! {

/// The outcome of the request numbered `serial`.
pub struct Completion<O> {
    pub serial: u64,
    pub result: Result<O, String>,
}

/// What the worker does next.
pub enum Next<J> {
    /// Nothing is pending: wait for a request.
    Wait,
    /// The loader is gone.
    Stop,
    /// Run the job of request `serial`.
    Run(J, u64),
}

/// The serial after a new request or a cancellation.
pub open spec fn next_serial(s: u64) -> u64 {
    if s == u64::MAX { 0 } else { (s + 1) as u64 }
}

pub struct Slot<J, O> {
    serial: u64,
    pending: Option<J>,
    result: Option<Completion<O>>,
    closed: bool,
}

impl<J, O> Slot<J, O> {
    pub closed spec fn serial(&self) -> u64 {
        self.serial
    }

    pub closed spec fn pending(&self) -> Option<J> {
        self.pending
    }

    pub closed spec fn result(&self) -> Option<Completion<O>> {
        self.result
    }

    pub closed spec fn is_closed(&self) -> bool {
        self.closed
    }

    /// Whether work for request `serial` may still publish.
    pub open spec fn current(&self, serial: u64) -> bool {
        !self.is_closed() && self.serial() == serial
    }

    pub fn new() -> (s: Self)
        ensures
            s.serial() == 0,
            s.pending() is None,
            s.result() is None,
            !s.is_closed(),
    {
        Slot { serial: 0, pending: None, result: None, closed: false }
    }

    /// Queues `job` in place of any queued one and forgets an unread
    /// completion; returns the number of the new request.
    pub fn request(&mut self, job: J) -> (serial: u64)
        ensures
            serial == next_serial(old(self).serial()),
            final(self).serial() == serial,
            final(self).pending() == Some(job),
            final(self).result() is None,
            final(self).is_closed() == old(self).is_closed(),
    {
        self.serial = self.serial.wrapping_add(1);
        self.result = None;
        self.pending = Some(job);
        self.serial
    }

    /// Drops the queued job and an unread completion; work in flight can no
    /// longer publish.
    pub fn cancel(&mut self)
        ensures
            final(self).serial() == next_serial(old(self).serial()),
            final(self).pending() is None,
            final(self).result() is None,
            final(self).is_closed() == old(self).is_closed(),
    {
        self.serial = self.serial.wrapping_add(1);
        self.pending = None;
        self.result = None;
    }

    /// The latest completion or progress, once.
    pub fn take_result(&mut self) -> (r: Option<Completion<O>>)
        ensures
            r == old(self).result(),
            final(self).result() is None,
            final(self).serial() == old(self).serial(),
            final(self).pending() == old(self).pending(),
            final(self).is_closed() == old(self).is_closed(),
    {
        self.result.take()
    }

    /// The worker's next step: stop once closed, wait while nothing is
    /// pending, else take the pending job with its request number.
    pub fn next_job(&mut self) -> (n: Next<J>)
        ensures
            final(self).serial() == old(self).serial(),
            final(self).result() == old(self).result(),
            final(self).is_closed() == old(self).is_closed(),
            old(self).is_closed() ==> n is Stop && final(self).pending() == old(self).pending(),
            !old(self).is_closed() && old(self).pending() is None ==> n is Wait && final(self).pending() is None,
            !old(self).is_closed() && old(self).pending() is Some ==> {
                &&& n is Run
                &&& n->0 == old(self).pending()->0
                &&& n->1 == old(self).serial()
                &&& final(self).pending() is None
            },
    {
        if self.closed {
            return Next::Stop;
        }
        match self.pending.take() {
            None => Next::Wait,
            Some(job) => Next::Run(job, self.serial),
        }
    }

    /// Whether the work of request `serial` was superseded, cancelled or
    /// abandoned.
    pub fn cancelled(&self, serial: u64) -> (r: bool)
        ensures
            r == !self.current(serial),
    {
        self.closed || self.serial != serial
    }

    /// Publishes the outcome (final or partial) of request `serial` when it
    /// is still current; otherwise nothing changes.
    pub fn publish(&mut self, serial: u64, result: Result<O, String>)
        ensures
            final(self).serial() == old(self).serial(),
            final(self).pending() == old(self).pending(),
            final(self).is_closed() == old(self).is_closed(),
            old(self).current(serial) ==> final(self).result() == Some(Completion { serial, result }),
            !old(self).current(serial) ==> final(self).result() == old(self).result(),
    {
        if !self.closed && self.serial == serial {
            self.result = Some(Completion { serial, result });
        }
    }

    /// The loader is dropped: the worker stops, and nothing stays queued.
    pub fn close(&mut self)
        ensures
            final(self).is_closed(),
            final(self).pending() is None,
            final(self).serial() == old(self).serial(),
            final(self).result() == old(self).result(),
    {
        self.closed = true;
        self.pending = None;
    }
}

/// Superseded and cancelled work cannot publish: once a newer request or a
/// cancellation has come, the earlier request is no longer current, so
/// whatever its worker publishes leaves the slot as it is.
pub proof fn superseded_work_cannot_publish<J, O>(before: Slot<J, O>, after: Slot<J, O>)
    requires
        after.serial() == next_serial(before.serial()),
    ensures
        !after.current(before.serial()),
{
}

} // verus!
