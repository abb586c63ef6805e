use illium::wallpaper_loader::{budget, Cache, Key, Next, Prepared, Slot};
use std::sync::Arc;

fn key(name: &str) -> Key {
    Key { path: name.as_bytes().to_vec(), size: 10, modified: 1, screens: vec![(2, 2)] }
}

fn pixels() -> Arc<Prepared> {
    Arc::new(Prepared { frames: vec![], bytes: 16 })
}

fn run(slot: &mut Slot) -> (illium::wallpaper_loader::Job, Option<Arc<Prepared>>) {
    match slot.next_job() {
        Next::Run(job, cached) => (job, cached),
        Next::Wait => panic!("nothing pending"),
        Next::Stop => panic!("stopped"),
    }
}

#[test]
fn cache_is_bounded_lru_and_invalidates_file_versions() {
    let mut cache = Cache::new(32);
    cache.insert(key("a"), pixels());
    cache.insert(key("b"), pixels());
    assert!(cache.get(&key("a")).is_some());
    cache.insert(key("c"), pixels());
    assert!(cache.get(&key("b")).is_none());
    let mut changed = key("a");
    changed.modified = 2;
    assert!(cache.get(&changed).is_none());
    cache.insert(changed.clone(), pixels());
    assert!(cache.get(&key("a")).is_none());
    assert!(cache.get(&changed).is_some());
    assert_eq!(cache.bytes(), 32);
    let mut resized = changed.clone();
    resized.screens = vec![(4, 4)];
    assert!(cache.get(&resized).is_none());
    cache.insert(key("huge"), Arc::new(Prepared { frames: vec![], bytes: 64 }));
    assert_eq!(cache.bytes(), 32);
}

#[test]
fn latest_request_wins_without_queuing_every_click() {
    let mut slot = Slot::new(64);
    assert!(slot.request(key("a")).is_none());
    let (a, cached) = run(&mut slot);
    assert_eq!(a.key, key("a"));
    assert!(cached.is_none());
    assert!(slot.request(key("b")).is_none());
    assert!(slot.request(key("c")).is_none());
    assert!(slot.cancelled(&a));
    assert!(slot.finish(a, Ok(pixels())));
    assert!(slot.take_result().is_none());
    let (c, _) = run(&mut slot);
    assert_eq!(c.key, key("c"));
    assert!(slot.finish(c, Ok(pixels())));
    assert_eq!(slot.take_result().unwrap().0, key("c"));
    assert!(slot.request(key("c")).is_some());
    assert!(slot.take_result().is_none());
    assert!(matches!(slot.next_job(), Next::Wait));
}

#[test]
fn cancellation_drops_inflight_completion_without_losing_useful_cache() {
    let mut slot = Slot::new(64);
    slot.request(key("a"));
    let (a, _) = run(&mut slot);
    slot.cancel();
    assert!(slot.cancelled(&a));
    assert!(slot.finish(a, Ok(pixels())));
    assert!(slot.take_result().is_none());
    assert!(slot.request(key("a")).is_some());
}

#[test]
fn prefetched_pixels_are_reused_by_foreground_request() {
    let mut slot = Slot::new(64);
    assert!(slot.prefetch(key("a")));
    let (background, cached) = run(&mut slot);
    assert!(!background.foreground && cached.is_none());
    assert!(slot.request(key("a")).is_none());
    assert!(!slot.cancelled(&background));
    assert!(slot.finish(background, Ok(pixels())));
    assert!(slot.take_result().is_none());
    let (foreground, cached) = run(&mut slot);
    assert!(foreground.foreground);
    let cached = cached.expect("one decode, not two");
    assert!(slot.finish(foreground, Ok(cached)));
    assert_eq!(slot.take_result().unwrap().0, key("a"));
    slot.cancel();
    assert!(slot.take_result().is_none());
}

#[test]
fn prefetch_never_supersedes_foreground_work() {
    let mut slot = Slot::new(64);
    slot.request(key("a"));
    assert!(!slot.prefetch(key("b")));
    let (a, _) = run(&mut slot);
    assert_eq!(a.key, key("a"));
}

#[test]
fn a_closed_loader_stops_its_worker() {
    let mut slot = Slot::new(64);
    slot.request(key("a"));
    let (a, _) = run(&mut slot);
    slot.close();
    assert!(slot.cancelled(&a));
    assert!(!slot.finish(a, Ok(pixels())));
    assert!(matches!(slot.next_job(), Next::Stop));
}

#[test]
fn budgets_count_each_screen_size_once() {
    assert_eq!(budget(&[(640, 360), (640, 360), (360, 640)]), Ok(640 * 360 * 4 * 2));
    assert!(budget(&[]).is_err());
    assert_eq!(budget(&[(0, 10)]), Err("wallpaper display buffers exceed 256 MiB".to_string()));
    assert_eq!(budget(&[(10, 10), (16385, 10)]), Err("wallpaper screen dimension exceeds 16384".to_string()));
    assert_eq!(budget(&[]), Err("wallpaper request superseded or has no screens".to_string()));
    assert!(budget(&[(16384, 16384)]).is_err());
    assert_eq!(budget(&[(16384, 4096)]), Ok(16384 * 4096 * 4));
}
