use http_server::terminal::{
    blue_background, blue_text, green_background, green_text, red_background, yellow_background,
    yellow_text,
};

#[test]
fn styles_text_for_the_terminal() {
    assert_eq!(blue_background("x"), "\x1B[44mx\x1B[0m");
    assert_eq!(red_background("x"), "\x1B[41mx\x1B[0m");
    assert_eq!(green_background("x"), "\x1B[42mx\x1B[0m");
    assert_eq!(yellow_background("x"), "\x1B[43mx\x1B[0m");
    assert_eq!(green_text("ok"), "\x1B[32mok\x1B[0m");
    assert_eq!(blue_text("info"), "\x1B[96minfo\x1B[0m");
    assert_eq!(yellow_text("warn"), "\x1B[01;93mwarn\x1B[0m");
    assert_eq!(green_text(""), "\x1B[32m\x1B[0m");
}
