use illium::queue::{channel, effects, Delivery};
use std::sync::atomic::{AtomicUsize, Ordering};
use std::sync::mpsc::TrySendError;
use std::sync::Arc;

#[test]
fn bounded_and_nonblocking() {
    let (tx, rx) = channel(2);
    tx.send(1).unwrap();
    tx.send(2).unwrap();
    assert!(matches!(tx.send(3), Err(TrySendError::Full(3))));
    assert!(tx.clone().take_overflow());
    assert!(!tx.take_overflow());
    assert_eq!(rx.recv().unwrap(), 1);
    tx.send(4).unwrap();
    assert_eq!(rx.recv().unwrap(), 2);
    assert_eq!(rx.recv().unwrap(), 4);
}

#[test]
fn wakes_after_publication_and_on_overflow_not_disconnect() {
    let (tx, rx) = channel(1);
    let calls = Arc::new(AtomicUsize::new(0));
    let count = calls.clone();
    assert!(tx.set_waker(move || {
        count.fetch_add(1, Ordering::Relaxed);
    }));
    tx.clone().send(1).unwrap();
    assert!(tx.send(2).is_err());
    assert_eq!(calls.load(Ordering::Relaxed), 2);
    assert_eq!(rx.recv().unwrap(), 1);
    drop(rx);
    assert!(tx.send(3).is_err());
    assert_eq!(calls.load(Ordering::Relaxed), 2);
}

#[test]
fn disconnect_does_not_request_rescan() {
    let (tx, rx) = channel(1);
    drop(rx);
    assert!(matches!(tx.send(1), Err(TrySendError::Disconnected(1))));
    assert!(!tx.take_overflow());
}

#[test]
fn a_second_waker_is_refused() {
    let (tx, _rx) = channel::<u8>(1);
    assert!(tx.set_waker(|| {}));
    assert!(!tx.set_waker(|| {}));
}

#[test]
fn send_outcomes_decide_overflow_and_wake() {
    assert_eq!(effects(Delivery::Sent), (false, true));
    assert_eq!(effects(Delivery::Full), (true, true));
    assert_eq!(effects(Delivery::Disconnected), (false, false));
}
