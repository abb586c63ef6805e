//! Bounded event queue from hook and worker threads to the UI thread. A
//! sender never blocks and never allocates: a full queue records an overflow
//! for the consumer to rescan, and every published event wakes the consumer.
use std::sync::atomic::AtomicBool;
use std::sync::mpsc::{Receiver, SyncSender, TrySendError};
use std::sync::{Arc, OnceLock};
use vstd::prelude::*;

verus! {

#[verifier::external_type_specification]
#[verifier::external_body]
#[verifier::reject_recursive_types(T)]
pub struct ExSyncSender<T>(SyncSender<T>);

#[verifier::external_type_specification]
#[verifier::external_body]
#[verifier::reject_recursive_types(T)]
pub struct ExReceiver<T>(Receiver<T>);

#[verifier::external_type_specification]
#[verifier::external_body]
#[verifier::reject_recursive_types(T)]
pub struct ExTrySendError<T>(TrySendError<T>);

#[verifier::external_type_specification]
#[verifier::external_body]
#[verifier::reject_recursive_types(T)]
pub struct ExOnceLock<T>(OnceLock<T>);

/// A consumer notifier: nonblocking, coalescing, callable from any thread.
pub trait Notify: Send + Sync {
    fn notify(&self);
}

/// Calls the closure `f`.
#[verifier::external_body]
fn call<F: Fn()>(f: &F) {
    f()
}

impl<F: Fn() + Send + Sync> Notify for F {
    fn notify(&self) {
        call(self)
    }
}

/// The notifier installed on a queue.
pub type Waker = Box<dyn Notify>;

/// How a non-blocking send ended.
#[derive(Clone, Copy, Debug, PartialEq, Eq)]
pub enum Delivery {
    Sent,
    Full,
    Disconnected,
}

/// What a send outcome asks for: whether to record an overflow, and whether
/// to wake the consumer.
pub open spec fn spec_effects(d: Delivery) -> (bool, bool) {
    (d == Delivery::Full, d != Delivery::Disconnected)
}

/// A full queue records an overflow; anything but a disconnected consumer
/// is worth a wake-up (an overflow too: the consumer must rescan).
pub fn effects(d: Delivery) -> (r: (bool, bool))
    ensures
        r == spec_effects(d),
{
    match d {
        Delivery::Sent => (false, true),
        Delivery::Full => (true, true),
        Delivery::Disconnected => (false, false),
    }
}

/// `std::sync::mpsc::sync_channel`: a channel holding at most `capacity` values.
#[verifier::external_body]
fn sync_channel<T>(capacity: usize) -> (SyncSender<T>, Receiver<T>) {
    std::sync::mpsc::sync_channel(capacity)
}

/// `SyncSender::try_send`: whether the value went in depends on the
/// consumer, so nothing is stated of the result.
#[verifier::external_body]
fn try_send<T>(inner: &SyncSender<T>, value: T) -> Result<(), TrySendError<T>> {
    inner.try_send(value)
}

/// Which variant a `TrySendError` is.
#[verifier::external_body]
fn delivery<T>(result: &Result<(), TrySendError<T>>) -> (d: Delivery)
    ensures
        result is Ok <==> d == Delivery::Sent,
{
    match result {
        Ok(()) => Delivery::Sent,
        Err(TrySendError::Full(_)) => Delivery::Full,
        Err(TrySendError::Disconnected(_)) => Delivery::Disconnected,
    }
}

/// `SyncSender::clone`: another handle on the same channel.
pub assume_specification<T>[ <SyncSender<T> as Clone>::clone ](sender: &SyncSender<T>) -> SyncSender<T>;

/// `OnceLock::new`: an empty slot.
#[verifier::external_body]
fn empty_slot() -> OnceLock<Waker> {
    OnceLock::new()
}

/// `OnceLock::set` with `wake` boxed: whether the slot was still empty.
#[verifier::external_body]
fn install<F: Fn() + Send + Sync + 'static>(slot: &OnceLock<Waker>, wake: F) -> bool {
    slot.set(Box::new(wake)).is_ok()
}

/// `OnceLock::get`: the installed notifier, if any.
#[verifier::external_body]
fn installed(slot: &OnceLock<Waker>) -> Option<&Waker> {
    slot.get()
}

#[verifier::reject_recursive_types(T)]
pub struct Sender<T> {
    inner: SyncSender<T>,
    overflow: Arc<AtomicBool>,
    wake: Arc<OnceLock<Waker>>,
}

impl<T> Clone for Sender<T> {
    fn clone(&self) -> Self {
        Sender { inner: self.inner.clone(), overflow: self.overflow.clone(), wake: self.wake.clone() }
    }
}

/// A bounded queue: senders that never block and the single receiver.
pub fn channel<T>(capacity: usize) -> (Sender<T>, Receiver<T>) {
    let (tx, rx) = sync_channel(capacity);
    (Sender { inner: tx, overflow: Arc::new(AtomicBool::new(false)), wake: Arc::new(empty_slot()) }, rx)
}

impl<T> Sender<T> {
    /// Installs the notifier once the consumer is ready; `false`, with the
    /// first notifier kept, when one is already installed. The notifier must
    /// be nonblocking and coalesce notifications: it runs on the sending
    /// (possibly hook) thread.
    pub fn set_waker<F: Fn() + Send + Sync + 'static>(&self, wake: F) -> (installed: bool) {
        install(&self.wake, wake)
    }

    /// Publishes without blocking. A full queue records an overflow; the
    /// consumer is woken unless it is gone. The value comes back on failure.
    pub fn send(&self, value: T) -> (r: Result<(), TrySendError<T>>) {
        let result = try_send(&self.inner, value);
        let (overflowed, wake) = effects(delivery(&result));
        if overflowed {
            self.overflow.store(true, std::sync::atomic::Ordering::Release);
        }
        if wake {
            if let Some(waker) = installed(&self.wake) {
                waker.notify();
            }
        }
        result
    }

    /// Whether an overflow happened since the last call; clears it.
    pub fn take_overflow(&self) -> bool {
        self.overflow.swap(false, std::sync::atomic::Ordering::AcqRel)
    }
}

} // verus!
