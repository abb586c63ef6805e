use illium::cache::Cache;
use illium::theme_loader::{Next, Slot};
use std::sync::Arc;

const CACHE_BYTES: usize = 64 * 1024 * 1024;

#[test]
fn superseded_and_cancelled_work_cannot_publish() {
    let mut slot: Slot<&str, Vec<u8>> = Slot::new();
    let first = slot.request("old");
    let (job, serial) = match slot.next_job() {
        Next::Run(job, serial) => (job, serial),
        _ => panic!("the first request should run"),
    };
    assert_eq!((job, serial), ("old", first));
    slot.cancel();
    let newer = slot.request("new");
    assert!(slot.cancelled(serial));
    slot.publish(serial, Ok(vec![]));
    assert!(slot.take_result().is_none());
    match slot.next_job() {
        Next::Run(job, serial) => {
            assert_eq!((job, serial), ("new", newer));
            assert!(!slot.cancelled(serial));
            slot.publish(serial, Ok(vec![1]));
        }
        _ => panic!("the newer request should run"),
    }
    assert_eq!(slot.take_result().map(|c| c.serial), Some(newer));
    slot.cancel();
    assert!(slot.take_result().is_none());
}

#[test]
fn progress_is_available_before_completion_and_cancel_discards_it() {
    let mut slot: Slot<(), &str> = Slot::new();
    let serial = slot.request(());
    let running = match slot.next_job() {
        Next::Run((), s) => s,
        _ => panic!("the request should run"),
    };
    slot.publish(running, Ok("progress"));
    let result = slot.take_result().unwrap();
    assert_eq!(result.serial, serial);
    assert!(matches!(result.result, Ok("progress")));
    slot.cancel();
    slot.publish(running, Ok("frames"));
    assert!(slot.take_result().is_none());
}

#[test]
fn cache_is_lru_and_byte_bounded() {
    let mut cache: Cache<u32, u32> = Cache::new(CACHE_BYTES);
    cache.insert(1, Arc::new(1), CACHE_BYTES / 2);
    cache.insert(2, Arc::new(2), CACHE_BYTES / 2);
    assert_eq!(*cache.get(&1).unwrap(), 1);
    cache.insert(3, Arc::new(3), CACHE_BYTES / 2);
    assert!(cache.get(&2).is_none());
    assert!(cache.get(&1).is_some());
    cache.insert(4, Arc::new(4), CACHE_BYTES + 1);
    assert!(cache.get(&4).is_none());
    assert!(cache.bytes() <= CACHE_BYTES);
}

#[test]
fn a_closed_slot_stops_the_worker_and_drops_the_queue() {
    let mut slot: Slot<u8, u8> = Slot::new();
    assert!(matches!(slot.next_job(), Next::Wait));
    let serial = slot.request(1);
    slot.close();
    assert!(matches!(slot.next_job(), Next::Stop));
    assert!(slot.cancelled(serial));
    slot.publish(serial, Err("late".into()));
    assert!(slot.take_result().is_none());
}

#[test]
fn a_new_request_replaces_the_queued_one() {
    let mut slot: Slot<u8, u8> = Slot::new();
    let a = slot.request(1);
    let b = slot.request(2);
    assert_ne!(a, b);
    match slot.next_job() {
        Next::Run(job, serial) => assert_eq!((job, serial), (2, b)),
        _ => panic!("the latest request should run"),
    }
    assert!(matches!(slot.next_job(), Next::Wait));
}
