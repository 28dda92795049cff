//! ANSI escape sequences, built character by character with exact contracts.
//!
//! Every builder appends to a `String` and promises precisely which characters
//! it adds, so the render passes can state their whole output as one sequence
//! of characters.

use vstd::prelude::*;
use vstd::string::StringExecFns;

verus! {

/// The character a single decimal digit prints as.
pub open spec fn digit_char(d: nat) -> char {
    if d == 0 {
        '0'
    } else if d == 1 {
        '1'
    } else if d == 2 {
        '2'
    } else if d == 3 {
        '3'
    } else if d == 4 {
        '4'
    } else if d == 5 {
        '5'
    } else if d == 6 {
        '6'
    } else if d == 7 {
        '7'
    } else if d == 8 {
        '8'
    } else {
        '9'
    }
}

/// The decimal digits of `n`, most significant first, with no leading zeros
/// (a lone zero prints as "0").
pub open spec fn dec_spec(n: nat) -> Seq<char>
    decreases n,
{
    if n < 10 {
        seq![digit_char(n)]
    } else {
        dec_spec(n / 10) + seq![digit_char(n % 10)]
    }
}

/// The control sequence introducer: ESC '['.
pub open spec fn csi_spec() -> Seq<char> {
    seq!['\u{1b}', '[']
}

/// Absolute cursor positioning, `ESC[row;colH`, with both coordinates
/// converted from zero-based to the terminal's one-based convention.
pub open spec fn move_to_spec(col: nat, row: nat) -> Seq<char> {
    csi_spec() + dec_spec(row + 1) + seq![';'] + dec_spec(col + 1) + seq!['H']
}

/// Relative cursor movement to the right, `ESC[nC`.
pub open spec fn move_right_spec(n: nat) -> Seq<char> {
    csi_spec() + dec_spec(n) + seq!['C']
}

/// Truecolor foreground, `ESC[38;2;r;g;bm`.
pub open spec fn sgr_fg_spec(r: u8, g: u8, b: u8) -> Seq<char> {
    csi_spec() + seq!['3', '8', ';', '2', ';'] + dec_spec(r as nat) + seq![';'] + dec_spec(
        g as nat,
    ) + seq![';'] + dec_spec(b as nat) + seq!['m']
}

/// Truecolor background, `ESC[48;2;r;g;bm`.
pub open spec fn sgr_bg_spec(r: u8, g: u8, b: u8) -> Seq<char> {
    csi_spec() + seq!['4', '8', ';', '2', ';'] + dec_spec(r as nat) + seq![';'] + dec_spec(
        g as nat,
    ) + seq![';'] + dec_spec(b as nat) + seq!['m']
}

/// Begin-synchronized-update marker, `ESC[?2026h`.
pub open spec fn sync_begin_spec() -> Seq<char> {
    csi_spec() + seq!['?', '2', '0', '2', '6', 'h']
}

/// End-synchronized-update marker, `ESC[?2026l`.
pub open spec fn sync_end_spec() -> Seq<char> {
    csi_spec() + seq!['?', '2', '0', '2', '6', 'l']
}

/// Appends one decimal digit.
pub fn push_digit(buf: &mut String, d: u8)
    requires
        d < 10,
    ensures
        final(buf)@ == old(buf)@ + seq![digit_char(d as nat)],
{
    proof {
        reveal_strlit("0");
        reveal_strlit("1");
        reveal_strlit("2");
        reveal_strlit("3");
        reveal_strlit("4");
        reveal_strlit("5");
        reveal_strlit("6");
        reveal_strlit("7");
        reveal_strlit("8");
        reveal_strlit("9");
    }
    match d {
        0 => buf.append("0"),
        1 => buf.append("1"),
        2 => buf.append("2"),
        3 => buf.append("3"),
        4 => buf.append("4"),
        5 => buf.append("5"),
        6 => buf.append("6"),
        7 => buf.append("7"),
        8 => buf.append("8"),
        _ => buf.append("9"),
    }
    proof {
        assert(final(buf)@ =~= old(buf)@ + seq![digit_char(d as nat)]);
    }
}

/// Appends `n` in decimal.
pub fn push_dec(buf: &mut String, n: u16)
    ensures
        final(buf)@ == old(buf)@ + dec_spec(n as nat),
    decreases n,
{
    if n >= 10 {
        push_dec(buf, n / 10);
    }
    push_digit(buf, (n % 10) as u8);
    proof {
        assert(final(buf)@ =~= old(buf)@ + dec_spec(n as nat));
    }
}

/// Appends the control sequence introducer.
pub fn push_csi(buf: &mut String)
    ensures
        final(buf)@ == old(buf)@ + csi_spec(),
{
    proof {
        reveal_strlit("\u{1b}[");
    }
    buf.append("\u{1b}[");
    proof {
        assert(final(buf)@ =~= old(buf)@ + csi_spec());
    }
}

/// Appends an absolute cursor-positioning sequence for zero-based `(col, row)`.
pub fn push_move_to(buf: &mut String, col: u16, row: u16)
    requires
        col < u16::MAX,
        row < u16::MAX,
    ensures
        final(buf)@ == old(buf)@ + move_to_spec(col as nat, row as nat),
{
    proof {
        reveal_strlit(";");
        reveal_strlit("H");
    }
    push_csi(buf);
    push_dec(buf, row + 1);
    buf.append(";");
    push_dec(buf, col + 1);
    buf.append("H");
    proof {
        assert(final(buf)@ =~= old(buf)@ + move_to_spec(col as nat, row as nat));
    }
}

/// Appends a cursor-right sequence.
pub fn push_move_right(buf: &mut String, n: u16)
    ensures
        final(buf)@ == old(buf)@ + move_right_spec(n as nat),
{
    proof {
        reveal_strlit("C");
    }
    push_csi(buf);
    push_dec(buf, n);
    buf.append("C");
    proof {
        assert(final(buf)@ =~= old(buf)@ + move_right_spec(n as nat));
    }
}

/// Appends a truecolor foreground sequence.
pub fn push_sgr_fg(buf: &mut String, r: u8, g: u8, b: u8)
    ensures
        final(buf)@ == old(buf)@ + sgr_fg_spec(r, g, b),
{
    proof {
        reveal_strlit("38;2;");
        reveal_strlit(";");
        reveal_strlit("m");
    }
    push_csi(buf);
    buf.append("38;2;");
    push_dec(buf, r as u16);
    buf.append(";");
    push_dec(buf, g as u16);
    buf.append(";");
    push_dec(buf, b as u16);
    buf.append("m");
    proof {
        assert(final(buf)@ =~= old(buf)@ + sgr_fg_spec(r, g, b));
    }
}

/// Appends a truecolor background sequence.
pub fn push_sgr_bg(buf: &mut String, r: u8, g: u8, b: u8)
    ensures
        final(buf)@ == old(buf)@ + sgr_bg_spec(r, g, b),
{
    proof {
        reveal_strlit("48;2;");
        reveal_strlit(";");
        reveal_strlit("m");
    }
    push_csi(buf);
    buf.append("48;2;");
    push_dec(buf, r as u16);
    buf.append(";");
    push_dec(buf, g as u16);
    buf.append(";");
    push_dec(buf, b as u16);
    buf.append("m");
    proof {
        assert(final(buf)@ =~= old(buf)@ + sgr_bg_spec(r, g, b));
    }
}

/// Relies on String::push: appends the given character to the end of the
/// string and changes nothing else.
#[verifier::external_body]
pub(crate) fn push_char(buf: &mut String, c: char)
    ensures
        final(buf)@ == old(buf)@ + seq![c],
{
    buf.push(c);
}

/// Appends the begin-synchronized-update marker.
pub fn push_sync_begin(buf: &mut String)
    ensures
        final(buf)@ == old(buf)@ + sync_begin_spec(),
{
    proof {
        reveal_strlit("?2026h");
    }
    push_csi(buf);
    buf.append("?2026h");
    proof {
        assert(final(buf)@ =~= old(buf)@ + sync_begin_spec());
    }
}

/// Appends the end-synchronized-update marker.
pub fn push_sync_end(buf: &mut String)
    ensures
        final(buf)@ == old(buf)@ + sync_end_spec(),
{
    proof {
        reveal_strlit("?2026l");
    }
    push_csi(buf);
    buf.append("?2026l");
    proof {
        assert(final(buf)@ =~= old(buf)@ + sync_end_spec());
    }
}

} // verus!
