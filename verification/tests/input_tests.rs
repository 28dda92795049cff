use rael::rael::input::InputEvent;
use rael::rael::input::InputSnapshot;
use rael::rael::input::KeyCode;
use rael::rael::input::KeyEvent;
use rael::rael::mouse::MouseEvent;

fn key(c: char) -> KeyEvent {
    KeyEvent { code: KeyCode::Char(c), modifiers: 0 }
}

#[test]
fn latest_mouse_wins() {
    let mut s = InputSnapshot::new();
    s.apply_event(InputEvent::Mouse(MouseEvent::Move { x: 1, y: 1 }));
    s.apply_event(InputEvent::Mouse(MouseEvent::Move { x: 9, y: 9 }));
    assert_eq!(s.mouse, Some(MouseEvent::Move { x: 9, y: 9 }));
}

#[test]
fn keys_accumulate_in_order() {
    let mut s = InputSnapshot::new();
    s.apply_event(InputEvent::Key(key('a')));
    s.apply_event(InputEvent::Key(key('b')));
    assert_eq!(s.keys, vec![key('a'), key('b')]);
}

#[test]
fn latest_resize_wins() {
    let mut s = InputSnapshot::new();
    s.apply_event(InputEvent::Resize(80, 24));
    s.apply_event(InputEvent::Resize(100, 40));
    assert_eq!(s.resize, Some((100, 40)));
}

#[test]
fn focus_is_a_level() {
    let mut s = InputSnapshot::new();
    s.apply_event(InputEvent::FocusLost);
    assert!(s.focus_lost);
    s.apply_event(InputEvent::FocusGained);
    assert!(!s.focus_lost);
}

#[test]
fn peek_does_not_reset() {
    let mut s = InputSnapshot::new();
    s.apply_event(InputEvent::Key(key('a')));
    let snap = s.peek();
    assert_eq!(snap.keys, vec![key('a')]);
    assert_eq!(s.keys, vec![key('a')]);
}

#[test]
fn take_resets_one_shot_fields_but_keeps_focus() {
    let mut s = InputSnapshot::new();
    s.apply_event(InputEvent::Key(key('a')));
    s.apply_event(InputEvent::Mouse(MouseEvent::Move { x: 2, y: 3 }));
    s.apply_event(InputEvent::Resize(80, 24));
    s.apply_event(InputEvent::FocusLost);
    let snap = s.take();
    assert_eq!(snap.keys, vec![key('a')]);
    assert_eq!(snap.mouse, Some(MouseEvent::Move { x: 2, y: 3 }));
    assert_eq!(snap.resize, Some((80, 24)));
    assert!(snap.focus_lost);
    assert!(s.keys.is_empty());
    assert_eq!(s.mouse, None);
    assert_eq!(s.resize, None);
    assert!(s.focus_lost);
}

#[test]
fn other_events_change_nothing() {
    let mut s = InputSnapshot::new();
    s.apply_event(InputEvent::Other);
    assert!(s.keys.is_empty());
    assert_eq!(s.mouse, None);
    assert_eq!(s.resize, None);
    assert!(!s.focus_lost);
}
