use rael::escape;
use rael::rael::alt_screen::AltScreen;

#[test]
fn decimal_digits() {
    let mut s = String::new();
    escape::push_dec(&mut s, 0);
    assert_eq!(s, "0");
    let mut s = String::new();
    escape::push_dec(&mut s, 123);
    assert_eq!(s, "123");
    let mut s = String::new();
    escape::push_dec(&mut s, 65535);
    assert_eq!(s, "65535");
}

#[test]
fn cursor_sequences() {
    let mut s = String::new();
    escape::push_move_to(&mut s, 0, 0);
    assert_eq!(s, "\u{1b}[1;1H");
    let mut s = String::new();
    escape::push_move_to(&mut s, 9, 4);
    assert_eq!(s, "\u{1b}[5;10H");
    let mut s = String::new();
    escape::push_move_right(&mut s, 1);
    assert_eq!(s, "\u{1b}[1C");
}

#[test]
fn color_sequences() {
    let mut s = String::new();
    escape::push_sgr_fg(&mut s, 1, 2, 3);
    assert_eq!(s, "\u{1b}[38;2;1;2;3m");
    let mut s = String::new();
    escape::push_sgr_bg(&mut s, 255, 0, 128);
    assert_eq!(s, "\u{1b}[48;2;255;0;128m");
}

#[test]
fn synchronized_update_markers() {
    let mut s = String::new();
    escape::push_sync_begin(&mut s);
    escape::push_sync_end(&mut s);
    assert_eq!(s, "\u{1b}[?2026h\u{1b}[?2026l");
}

#[test]
fn alternate_screen_sequences() {
    assert_eq!(AltScreen::enter_sequence(), "\u{1b}[?1049h\u{1b}[?25l");
    assert_eq!(AltScreen::leave_sequence(), "\u{1b}[?25h\u{1b}[?1049l");
}
