//! Scheduling of an applet's data provider: one run at a time, user actions
//! that arrive meanwhile wait in a short queue, and results of an earlier
//! generation of the applet list are ignored. Running the provider and
//! showing its data belong to the platform layer.
use vstd::prelude::*;

verus! {

/// Actions waiting behind a running provider, at most.
pub const MAX_PENDING_ACTIONS: usize = 8;

/// What a refresh request leads to.
#[derive(Debug, PartialEq, Eq)]
pub enum Refresh {
    /// Run the provider now, with the action if there is one.
    Start(Option<String>),
    /// The provider is busy: the action waits its turn.
    Queued,
    /// The provider is busy and the queue is full: the action is dropped.
    Dropped,
    /// The provider is busy and there is no action: nothing to do.
    Skipped,
}

/// One applet's provider: whether it runs, and the actions waiting for it.
pub struct Provider {
    running: bool,
    pending: Vec<String>,
}

pub open spec fn texts(v: Seq<String>) -> Seq<Seq<char>> {
    v.map_values(|s: String| s@)
}

impl Provider {
    pub closed spec fn is_running(&self) -> bool {
        self.running
    }

    /// The waiting actions, oldest first.
    pub closed spec fn queue(&self) -> Seq<Seq<char>> {
        texts(self.pending@)
    }

    /// Idle, nothing waiting.
    pub fn new() -> (p: Self)
        ensures
            !p.is_running(),
            p.queue().len() == 0,
    {
        let p = Provider { running: false, pending: Vec::new() };
        assert(p.queue() =~= Seq::<Seq<char>>::empty());
        p
    }

    /// A provider already running, as after a start, with nothing waiting.
    pub fn busy() -> (p: Self)
        ensures
            p.is_running(),
            p.queue().len() == 0,
    {
        let p = Provider { running: true, pending: Vec::new() };
        assert(p.queue() =~= Seq::<Seq<char>>::empty());
        p
    }

    /// Whether the provider is running.
    pub fn running(&self) -> (r: bool)
        ensures
            r == self.is_running(),
    {
        self.running
    }

    /// The waiting actions, oldest first.
    pub fn pending(&self) -> (r: &[String])
        ensures
            texts(r@) == self.queue(),
    {
        self.pending.as_slice()
    }

    /// A refresh: the timer's (no action) or the user's (`action`). An idle
    /// provider starts; a busy one queues the action while fewer than eight
    /// wait, and drops it otherwise.
    pub fn refresh(&mut self, action: Option<String>) -> (r: Refresh)
        ensures
            !old(self).is_running() ==> final(self).is_running() && r == Refresh::Start(action) && final(self).queue() == old(self).queue(),
            old(self).is_running() ==> final(self).is_running() && match action {
                None => r == Refresh::Skipped && final(self).queue() == old(self).queue(),
                Some(a) => if old(self).queue().len() < MAX_PENDING_ACTIONS {
                    r == Refresh::Queued && final(self).queue() == old(self).queue().push(a@)
                } else {
                    r == Refresh::Dropped && final(self).queue() == old(self).queue()
                },
            },
    {
        if !self.running {
            self.running = true;
            return Refresh::Start(action);
        }
        match action {
            None => Refresh::Skipped,
            Some(a) => {
                if self.pending.len() < MAX_PENDING_ACTIONS {
                    let ghost before = self.pending@;
                    self.pending.push(a);
                    assert(texts(self.pending@) =~= texts(before).push(self.pending@.last()@));
                    Refresh::Queued
                } else {
                    Refresh::Dropped
                }
            },
        }
    }

    /// A result of the provider run started in `generation`, while the
    /// applet list is at `current`. A stale result changes nothing (`None`);
    /// otherwise the provider is idle again and the oldest waiting action,
    /// if any, is handed back to be run next.
    pub fn finish(&mut self, generation: u64, current: u64) -> (next: Option<Option<String>>)
        ensures
            generation != current ==> next is None && final(self).is_running() == old(self).is_running() && final(self).queue() == old(self).queue(),
            generation == current ==> next is Some && !final(self).is_running() && (if old(self).queue().len() == 0 {
                next == Some(None::<String>) && final(self).queue() == old(self).queue()
            } else {
                &&& next->0 is Some
                &&& next->0->0@ == old(self).queue()[0]
                &&& final(self).queue() == old(self).queue().drop_first()
            }),
    {
        if generation != current {
            return None;
        }
        self.running = false;
        if self.pending.len() == 0 {
            return Some(None);
        }
        let ghost before = self.pending@;
        let first = self.pending.remove(0);
        assert(texts(self.pending@) =~= texts(before).drop_first());
        Some(Some(first))
    }
}

/// The queue never holds more than eight actions, and keeps their order:
/// whatever a refresh does, a queue within the bound stays within it.
pub proof fn queue_stays_bounded(queue: Seq<Seq<char>>, action: Option<Seq<char>>)
    requires
        queue.len() <= MAX_PENDING_ACTIONS,
    ensures
        ({
            let after = match action {
                Some(a) => if queue.len() < MAX_PENDING_ACTIONS { queue.push(a) } else { queue },
                None => queue,
            };
            &&& after.len() <= MAX_PENDING_ACTIONS
            &&& after.take(queue.len() as int) == queue
        }),
{
    match action {
        Some(a) => {
            if queue.len() < MAX_PENDING_ACTIONS {
                assert(queue.push(a).take(queue.len() as int) =~= queue);
            } else {
                assert(queue.take(queue.len() as int) =~= queue);
            }
        },
        None => assert(queue.take(queue.len() as int) =~= queue),
    }
}

} // verus!
