//! The alternate-screen escape pair: one sequence enters the alternate
//! screen buffer and hides the cursor, its inverse shows the cursor and
//! leaves the buffer. The caller owns writing them to the terminal, on
//! entry and on every exit path.

use vstd::prelude::*;

verus! {

/// Enter the alternate screen (`ESC[?1049h`), then hide the cursor
/// (`ESC[?25l`).
pub open spec fn alt_enter_spec() -> Seq<char> {
    seq![
        '\u{1b}',
        '[',
        '?',
        '1',
        '0',
        '4',
        '9',
        'h',
        '\u{1b}',
        '[',
        '?',
        '2',
        '5',
        'l',
    ]
}

/// Show the cursor (`ESC[?25h`), then leave the alternate screen
/// (`ESC[?1049l`) — the reverse of entering.
pub open spec fn alt_leave_spec() -> Seq<char> {
    seq![
        '\u{1b}',
        '[',
        '?',
        '2',
        '5',
        'h',
        '\u{1b}',
        '[',
        '?',
        '1',
        '0',
        '4',
        '9',
        'l',
    ]
}

/// A session on the terminal's alternate screen buffer. The two associated
/// sequences bracket it; the surrounding program prints them.
#[derive(Debug, Clone, Copy)]
pub struct AltScreen;

impl AltScreen {
    /// The bytes that open the alternate screen.
    pub fn enter_sequence() -> (r: &'static str)
        ensures
            r@ == alt_enter_spec(),
    {
        let r = "\u{1b}[?1049h\u{1b}[?25l";
        proof {
            reveal_strlit("\u{1b}[?1049h\u{1b}[?25l");
            assert(r@ =~= alt_enter_spec());
        }
        r
    }

    /// The bytes that close it again.
    pub fn leave_sequence() -> (r: &'static str)
        ensures
            r@ == alt_leave_spec(),
    {
        let r = "\u{1b}[?25h\u{1b}[?1049l";
        proof {
            reveal_strlit("\u{1b}[?25h\u{1b}[?1049l");
            assert(r@ =~= alt_leave_spec());
        }
        r
    }
}

} // verus!
