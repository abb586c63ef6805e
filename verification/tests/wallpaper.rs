use illium::wallpaper::{blurred, next_candidates, Selections};

#[test]
fn selection_cycle_and_missing_image() {
    let names: Vec<String> = vec!["a.png".into(), "b.jpg".into(), "c.jpg".into()];
    assert_eq!(next_candidates(&names, None), names);
    assert_eq!(next_candidates(&names, Some("c.jpg")), names);
    assert_eq!(next_candidates(&names, Some("a.png")), ["b.jpg", "c.jpg", "a.png"]);
    assert!(next_candidates(&[], None).is_empty());
    let mut state = Selections::default();
    state.remember("dark".into(), Some("b.jpg".into()));
    state.remember("light".into(), None);
    state.remember("missing".into(), Some("gone.jpg".into()));
    assert_eq!(state.candidates("dark", &names), ["b.jpg", "a.png", "c.jpg"]);
    assert_eq!(state.candidates("missing", &names), names);
    assert_eq!(state.candidates("new", &names), names);
    assert!(state.candidates("light", &names).is_empty());
}

#[test]
fn an_unlisted_current_image_starts_from_the_first() {
    let names: Vec<String> = vec!["a".into(), "b".into()];
    assert_eq!(next_candidates(&names, Some("zzz")), names);
    assert_eq!(next_candidates(&names, Some("a")), ["b", "a"]);
}

#[test]
fn restoring_undoes_a_choice() {
    let mut state = Selections::new();
    assert_eq!(state.remember("dark".into(), Some("a.png".into())), None);
    let previous = state.remember("dark".into(), None);
    assert_eq!(previous, Some(Some("a.png".into())));
    state.restore("dark".into(), previous);
    assert_eq!(state.candidates("dark", &vec!["b.png".to_string(), "a.png".to_string()]), ["a.png", "b.png"]);
    let fresh = state.remember("light".into(), Some("x.png".into()));
    state.restore("light".into(), fresh);
    assert_eq!(state.entries().len(), 1);
    assert!(state.fits());
}

#[test]
fn the_memory_holds_a_bounded_number_of_themes() {
    let mut state = Selections::new();
    for i in 0..257 {
        state.remember(format!("theme-{i}"), None);
    }
    assert!(!state.fits());
    state.restore("theme-0".into(), None);
    assert!(state.fits());
}

#[test]
fn backdrop_is_downsampled_and_smoothed() {
    let (w, h) = (64u32, 48u32);
    let mut pixels = vec![0u8; (w * h * 4) as usize];
    // Left half white, right half black, opaque.
    for y in 0..h {
        for x in 0..w {
            let i = ((y * w + x) * 4) as usize;
            let v = if x < w / 2 { 255 } else { 0 };
            pixels[i..i + 3].copy_from_slice(&[v, v, v]);
            pixels[i + 3] = 255;
        }
    }
    let (small, sw, sh) = blurred(&pixels, w, h).unwrap();
    assert_eq!((sw, sh), (4, 3));
    assert_eq!(small.len(), 4 * 3 * 4);
    let px = |x: usize| small[x * 4];
    assert!(px(0) > px(1) && px(1) > px(2) && px(2) > px(3), "edge is smoothed");
    assert!(small.chunks_exact(4).all(|p| p[3] == 255));
    assert!(blurred(&pixels, 8, 8).is_none());
}

#[test]
fn a_uniform_frame_stays_uniform() {
    let pixels = vec![90u8; 32 * 32 * 4];
    let (small, w, h) = blurred(&pixels, 32, 32).unwrap();
    assert_eq!((w, h), (2, 2));
    assert_eq!(small, [90, 90, 90, 255].repeat(4));
    assert!(blurred(&pixels[..100], 32, 32).is_none());
}

#[test]
fn a_frame_of_one_colour_blurs_to_that_colour() {
    let (w, h) = (48u32, 32u32);
    let mut pixels = Vec::new();
    for i in 0..(w * h) {
        pixels.extend_from_slice(&[10, 200, 77, (i % 256) as u8]);
    }
    let (small, sw, sh) = blurred(&pixels, w, h).unwrap();
    assert_eq!((sw, sh), (3, 2));
    assert!(small.chunks_exact(4).all(|p| p == [10, 200, 77, 255]));
}
