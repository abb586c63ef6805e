use illium::pixels::{is_uniform, rgba_from_bgra};

#[test]
fn bgra_rows_become_rgba() {
    let bgra = [1, 2, 3, 4, 10, 20, 30, 40, 99];
    assert_eq!(rgba_from_bgra(&bgra, false), vec![3, 2, 1, 4, 30, 20, 10, 40]);
    assert_eq!(rgba_from_bgra(&bgra, true), vec![3, 2, 1, 255, 30, 20, 10, 255]);
    assert!(rgba_from_bgra(&[1, 2, 3], true).is_empty());
}

#[test]
fn flat_captures_are_uniform() {
    assert!(is_uniform(&[5, 6, 7, 255, 5, 6, 7, 0]));
    assert!(!is_uniform(&[5, 6, 7, 255, 5, 6, 8, 255]));
    assert!(is_uniform(&[]));
    assert!(is_uniform(&[1, 2]));
}
