use illium::cache::Cache;
use std::sync::Arc;

#[test]
fn a_cached_value_is_read_back() {
    let mut cache: Cache<&str, String> = Cache::new(10);
    cache.insert("a", Arc::new("first".to_string()), 4);
    cache.insert("b", Arc::new("second".to_string()), 4);
    assert_eq!(cache.get(&"b").as_deref().map(String::as_str), Some("second"));
    assert_eq!(cache.get(&"a").as_deref().map(String::as_str), Some("first"));
    assert_eq!(cache.bytes(), 8);
    cache.insert("c", Arc::new("third".to_string()), 4);
    assert!(cache.get(&"b").is_none());
    assert_eq!(cache.get(&"c").as_deref().map(String::as_str), Some("third"));
    assert_eq!(cache.bytes(), 8);
}

#[test]
fn an_empty_cache_holds_nothing() {
    let mut cache: Cache<u8, u8> = Cache::new(0);
    cache.insert(1, Arc::new(1), 1);
    assert!(cache.get(&1).is_none());
    cache.insert(2, Arc::new(2), 0);
    assert_eq!(cache.get(&2).map(|v| *v), Some(2));
    assert_eq!(cache.bytes(), 0);
}
