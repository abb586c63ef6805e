use illium::text::{char_is_control, char_is_whitespace};

#[test]
fn whitespace_and_control_agree_with_std_on_every_char() {
    for u in 0..=0x10FFFFu32 {
        if let Some(c) = char::from_u32(u) {
            assert_eq!(char_is_whitespace(c), c.is_whitespace(), "{u:#x}");
            assert_eq!(char_is_control(c), c.is_control(), "{u:#x}");
        }
    }
}
