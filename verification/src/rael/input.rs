//! The shared input snapshot and the folding rules the background listener
//! applies to it: the latest mouse event wins, key events accumulate in
//! order, focus is a level, and the latest resize wins. Reading is either a
//! non-destructive peek or a take that resets the one-shot fields.

use crate::rael::mouse::MouseEvent;
use vstd::prelude::*;

verus! {

/// What a key press names; keys the library has no name for keep their raw
/// code.
#[derive(Debug, Clone, Copy, PartialEq, Eq, Structural)]
pub enum KeyCode {
    Char(char),
    Enter,
    Escape,
    Backspace,
    Tab,
    Up,
    Down,
    Left,
    Right,
    Other(u16),
}

/// One key press with its modifier bits.
#[derive(Debug, Clone, Copy, PartialEq, Eq, Structural)]
pub struct KeyEvent {
    pub code: KeyCode,
    pub modifiers: u8,
}

/// One decoded terminal event, as the listener hands them in.
#[derive(Debug, Clone, Copy, PartialEq, Eq, Structural)]
pub enum InputEvent {
    Mouse(MouseEvent),
    Key(KeyEvent),
    Resize(u16, u16),
    FocusLost,
    FocusGained,
    Other,
}

/// The input state an application reads once per tick.
pub struct InputSnapshot {
    /// Last mouse event, if any.
    pub mouse: Option<MouseEvent>,
    /// Keys pressed since the last take, in arrival order.
    pub keys: Vec<KeyEvent>,
    /// Whether the terminal currently lacks focus.
    pub focus_lost: bool,
    /// Latest size change `(cols, rows)`, if any.
    pub resize: Option<(u16, u16)>,
}

/// Ghost description of an input snapshot.
#[verifier::ext_equal]
pub ghost struct SnapshotModel {
    pub mouse: Option<MouseEvent>,
    pub keys: Seq<KeyEvent>,
    pub focus_lost: bool,
    pub resize: Option<(u16, u16)>,
}

impl View for InputSnapshot {
    type V = SnapshotModel;

    closed spec fn view(&self) -> SnapshotModel {
        SnapshotModel {
            mouse: self.mouse,
            keys: self.keys@,
            focus_lost: self.focus_lost,
            resize: self.resize,
        }
    }
}

/// How one event folds into the snapshot: mouse and resize overwrite, keys
/// append, focus events set the level, anything else changes nothing.
pub open spec fn apply_event_model(m: SnapshotModel, e: InputEvent) -> SnapshotModel {
    match e {
        InputEvent::Mouse(ev) => SnapshotModel { mouse: Some(ev), ..m },
        InputEvent::Key(k) => SnapshotModel { keys: m.keys.push(k), ..m },
        InputEvent::Resize(w, h) => SnapshotModel { resize: Some((w, h)), ..m },
        InputEvent::FocusLost => SnapshotModel { focus_lost: true, ..m },
        InputEvent::FocusGained => SnapshotModel { focus_lost: false, ..m },
        InputEvent::Other => m,
    }
}

/// What a take leaves behind: the one-shot fields reset, focus kept as a
/// level rather than an edge.
pub open spec fn taken_model(m: SnapshotModel) -> SnapshotModel {
    SnapshotModel { mouse: None, keys: Seq::empty(), resize: None, ..m }
}

impl InputSnapshot {
    /// The empty snapshot a session starts with.
    pub fn new() -> (s: InputSnapshot)
        ensures
            s@ == (SnapshotModel {
                mouse: None,
                keys: Seq::<KeyEvent>::empty(),
                focus_lost: false,
                resize: None,
            }),
    {
        let s = InputSnapshot { mouse: None, keys: Vec::new(), focus_lost: false, resize: None };
        proof {
            assert(s@ =~~= (SnapshotModel {
                mouse: None,
                keys: Seq::<KeyEvent>::empty(),
                focus_lost: false,
                resize: None,
            }));
        }
        s
    }

    /// Folds one event in, under the listener's lock.
    pub fn apply_event(&mut self, e: InputEvent)
        requires
            e matches InputEvent::Key(_) ==> old(self).keys@.len() < usize::MAX,
        ensures
            final(self)@ == apply_event_model(old(self)@, e),
    {
        match e {
            InputEvent::Mouse(ev) => {
                self.mouse = Some(ev);
            },
            InputEvent::Key(k) => {
                self.keys.push(k);
            },
            InputEvent::Resize(w, h) => {
                self.resize = Some((w, h));
            },
            InputEvent::FocusLost => {
                self.focus_lost = true;
            },
            InputEvent::FocusGained => {
                self.focus_lost = false;
            },
            InputEvent::Other => {},
        }
        proof {
            assert(self@ =~~= apply_event_model(old(self)@, e));
        }
    }

    /// A copy of the current state; nothing is reset.
    pub fn peek(&self) -> (snap: InputSnapshot)
        ensures
            snap@ == self@,
    {
        let mut keys: Vec<KeyEvent> = Vec::new();
        let n = self.keys.len();
        for k in 0..n
            invariant
                n == self.keys@.len(),
                keys@.len() == k,
                forall|i: int| 0 <= i < k ==> keys@[i] == self.keys@[i],
        {
            keys.push(self.keys[k]);
        }
        let snap = InputSnapshot {
            mouse: self.mouse,
            keys,
            focus_lost: self.focus_lost,
            resize: self.resize,
        };
        proof {
            assert(snap@.keys =~= self@.keys);
            assert(snap@ =~~= self@);
        }
        snap
    }

    /// A copy of the current state, with the keys, mouse and resize fields
    /// then reset; focus persists.
    pub fn take(&mut self) -> (snap: InputSnapshot)
        ensures
            snap@ == old(self)@,
            final(self)@ == taken_model(old(self)@),
    {
        let snap = self.peek();
        self.mouse = None;
        self.keys.clear();
        self.resize = None;
        proof {
            assert(self@ =~~= taken_model(old(self)@));
        }
        snap
    }
}

} // verus!
