use illium::disk_cache::{filename, holds, identity, same_identity, PIXEL_BYTES};

#[test]
fn thumbnail_files_are_named_by_fnv1a() {
    assert_eq!(filename(b""), "cbf29ce484222325.rgba");
    assert_eq!(filename(b"a"), "af63dc4c8601ec8c.rgba");
    assert_ne!(filename(b"winarchy-thumbnail-v1\0x"), filename(b"winarchy-thumbnail-v1\0y"));
}

#[test]
fn identity_is_tag_size_time_and_path() {
    let key = identity(0x0102, 7, b"C:/w.png");
    let mut expected = b"winarchy-thumbnail-v1\0".to_vec();
    expected.extend_from_slice(&0x0102u64.to_le_bytes());
    expected.extend_from_slice(&7u64.to_le_bytes());
    expected.extend_from_slice(b"C:/w.png");
    assert_eq!(key, expected);
    assert_ne!(identity(1, 7, b"a"), identity(1, 8, b"a"));
}

#[test]
fn only_a_full_file_with_the_same_identity_is_read() {
    let key = identity(1, 2, b"p");
    assert!(holds(key.len() as u64 + PIXEL_BYTES, &key));
    assert!(!holds(key.len() as u64 + PIXEL_BYTES - 1, &key));
    assert!(!holds(5, &key));
    assert!(same_identity(&key, &key));
    assert!(!same_identity(b"wrong identity", &key));
    assert_eq!(PIXEL_BYTES, 1536 * 864 * 4);
}
