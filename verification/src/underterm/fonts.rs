//! Styled text segments and the layout state used to place scripted text on
//! the canvas. Font shaping itself is the caller's business; this module
//! owns the plain layout values.

use crate::rael::Color;
use vstd::prelude::*;

verus! {

/// A run of text with one foreground color.
#[derive(Debug, PartialEq, Eq)]
pub struct StyledText {
    pub content: String,
    pub fg: Color,
}

/// Ghost description of a styled run.
#[verifier::ext_equal]
pub ghost struct StyledModel {
    pub content: Seq<char>,
    pub fg: Color,
}

impl View for StyledText {
    type V = StyledModel;

    open spec fn view(&self) -> StyledModel {
        StyledModel { content: self.content@, fg: self.fg }
    }
}

/// Where and how a block of scripted text is drawn: its background color,
/// anchor, depth, centering flags and the width lines may not exceed.
pub struct Scenario {
    pub bg: Color,
    pub x: usize,
    pub y: usize,
    pub z: u8,
    pub is_centered_x: bool,
    pub is_centered_y: bool,
    pub max_widht: u16,
}

impl Scenario {
    /// A layout anchored at `cord = (x, y, depth)`; `y` rounds up to an even
    /// pixel row so the block starts on a terminal-row boundary. A missing
    /// centering pair means no centering on either axis.
    pub fn new(bg: Color, cord: (usize, usize, u8), is_centered: Option<(bool, bool)>, max_widht: u16) -> (s: Scenario)
        requires
            cord.1 < usize::MAX,
        ensures
            s.bg == bg,
            s.x == cord.0,
            s.y == if cord.1 % 2 == 0 {
                cord.1
            } else {
                (cord.1 + 1) as usize
            },
            s.y % 2 == 0,
            s.z == cord.2,
            s.is_centered_x == match is_centered {
                Some(p) => p.0,
                None => false,
            },
            s.is_centered_y == match is_centered {
                Some(p) => p.1,
                None => false,
            },
            s.max_widht == max_widht,
    {
        let (x, y, z) = cord;
        let y = if y % 2 == 0 {
            y
        } else {
            y + 1
        };
        let (cx, cy) = match is_centered {
            Some(p) => p,
            None => (false, false),
        };
        Scenario { bg, x, y, z, is_centered_x: cx, is_centered_y: cy, max_widht }
    }
}

} // verus!
