use illium::theme_render::{dpi_supported, Frame};

#[test]
fn frames_report_their_pixel_bytes() {
    let frame = Frame { width: 2, height: 3, pixels: vec![0; 24] };
    assert_eq!(frame.bytes(), 24);
}

#[test]
fn supported_dpi_covers_common_scales() {
    assert!(dpi_supported(96));
    assert!(dpi_supported(192));
    assert!(dpi_supported(48) && dpi_supported(768));
    assert!(!dpi_supported(47) && !dpi_supported(769) && !dpi_supported(u32::MAX));
}
