use rael::rael::mouse::drain_burst;
use rael::rael::mouse::parse_sgr_mouse;
use rael::rael::mouse::MouseButton;
use rael::rael::mouse::MouseEvent;
use rael::rael::mouse::ScrollDirection;

#[test]
fn press_left() {
    assert_eq!(
        parse_sgr_mouse("\u{1b}[<0;10;20M"),
        Some(MouseEvent::Press { button: MouseButton::Left, x: 10, y: 20 })
    );
}

#[test]
fn release_left() {
    assert_eq!(
        parse_sgr_mouse("\u{1b}[<0;10;20m"),
        Some(MouseEvent::Release { button: MouseButton::Left, x: 10, y: 20 })
    );
}

#[test]
fn move_event() {
    assert_eq!(parse_sgr_mouse("\u{1b}[<35;5;5M"), Some(MouseEvent::Move { x: 5, y: 5 }));
}

#[test]
fn scroll_down() {
    assert_eq!(
        parse_sgr_mouse("\u{1b}[<65;1;1M"),
        Some(MouseEvent::Scroll { direction: ScrollDirection::Down, x: 1, y: 1 })
    );
}

#[test]
fn garbage_is_no_event() {
    assert_eq!(parse_sgr_mouse("garbage"), None);
}

#[test]
fn scroll_up() {
    assert_eq!(
        parse_sgr_mouse("\u{1b}[<64;2;3M"),
        Some(MouseEvent::Scroll { direction: ScrollDirection::Up, x: 2, y: 3 })
    );
}

#[test]
fn middle_and_right_buttons() {
    assert_eq!(
        parse_sgr_mouse("\u{1b}[<1;4;5M"),
        Some(MouseEvent::Press { button: MouseButton::Middle, x: 4, y: 5 })
    );
    assert_eq!(
        parse_sgr_mouse("\u{1b}[<2;4;5m"),
        Some(MouseEvent::Release { button: MouseButton::Right, x: 4, y: 5 })
    );
}

#[test]
fn missing_prefix() {
    assert_eq!(parse_sgr_mouse("[<0;1;1M"), None);
}

#[test]
fn missing_suffix() {
    assert_eq!(parse_sgr_mouse("\u{1b}[<0;1;1"), None);
}

#[test]
fn two_fields_only() {
    assert_eq!(parse_sgr_mouse("\u{1b}[<0;1M"), None);
}

#[test]
fn four_fields() {
    assert_eq!(parse_sgr_mouse("\u{1b}[<0;1;1;1M"), None);
}

#[test]
fn empty_field() {
    assert_eq!(parse_sgr_mouse("\u{1b}[<;1;1M"), None);
}

#[test]
fn button_code_too_large() {
    assert_eq!(parse_sgr_mouse("\u{1b}[<256;1;1M"), None);
}

#[test]
fn non_digit_field() {
    assert_eq!(parse_sgr_mouse("\u{1b}[<0;1a;1M"), None);
}

#[test]
fn empty_input() {
    assert_eq!(parse_sgr_mouse(""), None);
}

#[test]
fn burst_coalesces_moves_and_keeps_clicks() {
    let press = MouseEvent::Press { button: MouseButton::Left, x: 1, y: 1 };
    let scroll = MouseEvent::Scroll { direction: ScrollDirection::Up, x: 2, y: 2 };
    let burst = vec![
        MouseEvent::Move { x: 1, y: 1 },
        press,
        MouseEvent::Move { x: 2, y: 2 },
        scroll,
        MouseEvent::Move { x: 7, y: 8 },
    ];
    let (kept, last_move) = drain_burst(&burst);
    assert_eq!(kept, vec![press, scroll]);
    assert_eq!(last_move, Some((7, 8)));
}

#[test]
fn burst_without_moves() {
    let release = MouseEvent::Release { button: MouseButton::Right, x: 3, y: 4 };
    let (kept, last_move) = drain_burst(&vec![release]);
    assert_eq!(kept, vec![release]);
    assert_eq!(last_move, None);
}

#[test]
fn empty_burst() {
    let (kept, last_move) = drain_burst(&Vec::new());
    assert!(kept.is_empty());
    assert_eq!(last_move, None);
}
