//! Decoding of SGR extended mouse reports: `ESC [ < Cb ; Cx ; Cy` followed
//! by `M` (press/move) or `m` (release). Malformed or incomplete sequences
//! decode to no event and are dropped, never treated as fatal.

use vstd::arithmetic::div_mod::lemma_fundamental_div_mod;
use vstd::prelude::*;

verus! {

/// A decoded mouse event, with one-based terminal coordinates.
#[derive(Debug, Clone, Copy, PartialEq, Eq, Structural)]
pub enum MouseEvent {
    Press { button: MouseButton, x: usize, y: usize },
    Release { button: MouseButton, x: usize, y: usize },
    Move { x: usize, y: usize },
    Scroll { direction: ScrollDirection, x: usize, y: usize },
}

/// The button a press or release names; codes beyond the three standard
/// buttons are preserved as they came.
#[derive(Debug, Clone, Copy, PartialEq, Eq, Structural)]
pub enum MouseButton {
    Left,
    Middle,
    Right,
    Other(u8),
}

#[derive(Debug, Clone, Copy, PartialEq, Eq, Structural)]
pub enum ScrollDirection {
    Up,
    Down,
}

pub open spec fn is_digit(c: char) -> bool {
    '0' <= c && c <= '9'
}

/// A nonempty run of decimal digits.
pub open spec fn all_digits(s: Seq<char>) -> bool {
    s.len() > 0 && forall|i: int| 0 <= i < s.len() ==> is_digit(#[trigger] s[i])
}

/// The number a run of digits denotes, most significant first.
pub open spec fn digits_value(s: Seq<char>) -> int
    decreases s.len(),
{
    if s.len() == 0 {
        0
    } else {
        digits_value(s.drop_last()) * 10 + (s.last() as int - '0' as int)
    }
}

/// The index of the first ';' at or after `from`, or the length when none.
pub open spec fn find_semi(s: Seq<char>, from: int) -> int
    decreases s.len() - from,
{
    if 0 <= from < s.len() {
        if s[from] == ';' {
            from
        } else {
            find_semi(s, from + 1)
        }
    } else {
        s.len() as int
    }
}

/// How a numeric button code and the trailing letter classify: bit 0x40
/// selects scroll (bit 0 picking down over up), else bit 0x20 selects a
/// plain move, else the low two bits pick the button and the letter picks
/// press over release.
pub open spec fn classify_spec(b: u8, x: usize, y: usize, is_release: bool) -> MouseEvent {
    if b & 0x40 != 0 {
        MouseEvent::Scroll {
            direction: if b & 1 != 0 {
                ScrollDirection::Down
            } else {
                ScrollDirection::Up
            },
            x,
            y,
        }
    } else if b & 0x20 != 0 {
        MouseEvent::Move { x, y }
    } else {
        let button = if b & 3 == 0 {
            MouseButton::Left
        } else if b & 3 == 1 {
            MouseButton::Middle
        } else if b & 3 == 2 {
            MouseButton::Right
        } else {
            MouseButton::Other(b & 3)
        };
        if is_release {
            MouseEvent::Release { button, x, y }
        } else {
            MouseEvent::Press { button, x, y }
        }
    }
}

/// The whole grammar: a trailing `M` or `m`, the `ESC [ <` prefix, and three
/// nonempty all-digit fields separated by exactly two semicolons, with the
/// button code at most 255 and the coordinates within the machine's range.
/// Anything else is no event.
pub open spec fn parse_sgr_mouse_spec(s: Seq<char>) -> Option<MouseEvent> {
    if s.len() < 1 {
        None
    } else if s.last() != 'M' && s.last() != 'm' {
        None
    } else {
        let is_release = s.last() == 'm';
        let body = s.drop_last();
        if body.len() < 3 || body[0] != '\u{1b}' || body[1] != '[' || body[2] != '<' {
            None
        } else {
            let nums = body.skip(3);
            let i = find_semi(nums, 0);
            let j = find_semi(nums, i + 1);
            if i >= nums.len() || j >= nums.len() || find_semi(nums, j + 1) != nums.len() {
                None
            } else {
                let p0 = nums.subrange(0, i);
                let p1 = nums.subrange(i + 1, j);
                let p2 = nums.subrange(j + 1, nums.len() as int);
                if !all_digits(p0) || !all_digits(p1) || !all_digits(p2) {
                    None
                } else if digits_value(p0) > 255 || digits_value(p1) > usize::MAX as int
                    || digits_value(p2) > usize::MAX as int {
                    None
                } else {
                    Some(
                        classify_spec(
                            digits_value(p0) as u8,
                            digits_value(p1) as usize,
                            digits_value(p2) as usize,
                            is_release,
                        ),
                    )
                }
            }
        }
    }
}

proof fn lemma_find_semi_props(s: Seq<char>, from: int)
    requires
        0 <= from,
    ensures
        ({
            let q = find_semi(s, from);
            &&& q <= s.len()
            &&& q >= from || q == s.len()
            &&& q < s.len() ==> from <= q && s[q] == ';'
            &&& forall|k: int| from <= k < q ==> s[k] != ';'
        }),
    decreases s.len() - from,
{
    if 0 <= from < s.len() && s[from] != ';' {
        lemma_find_semi_props(s, from + 1);
    }
}

proof fn lemma_digits_nonneg(s: Seq<char>)
    requires
        forall|i: int| 0 <= i < s.len() ==> is_digit(#[trigger] s[i]),
    ensures
        digits_value(s) >= 0,
    decreases s.len(),
{
    if s.len() > 0 {
        assert(forall|i: int| 0 <= i < s.drop_last().len() ==> s.drop_last()[i] == s[i]);
        lemma_digits_nonneg(s.drop_last());
    }
}

proof fn lemma_digits_prefix_le(s: Seq<char>, k: int)
    requires
        0 <= k <= s.len(),
        forall|i: int| 0 <= i < s.len() ==> is_digit(#[trigger] s[i]),
    ensures
        digits_value(s.subrange(0, k)) <= digits_value(s),
    decreases s.len() - k,
{
    if k == s.len() {
        assert(s.subrange(0, k) =~= s);
    } else {
        lemma_digits_prefix_le(s, k + 1);
        let p = s.subrange(0, k);
        let q = s.subrange(0, k + 1);
        assert(q.drop_last() =~= p);
        lemma_digits_nonneg(p);
        assert(digits_value(q) == digits_value(p) * 10 + (s[k] as int - '0' as int));
        assert(digits_value(p) * 10 >= digits_value(p)) by (nonlinear_arith)
            requires
                digits_value(p) >= 0,
        ;
    }
}

/// Finds the first ';' at or after `from`, below `limit`; yields `limit`
/// when there is none.
fn find_semi_str(s: &str, from: usize, limit: usize) -> (r: usize)
    requires
        from <= limit,
        limit as int <= s@.len(),
    ensures
        from <= r <= limit,
        r < limit ==> s@[r as int] == ';',
        forall|k: int| from <= k < r ==> s@[k] != ';',
{
    let mut k = from;
    while k < limit
        invariant
            from <= k <= limit,
            limit as int <= s@.len(),
            forall|q: int| from <= q < k ==> s@[q] != ';',
        decreases limit - k,
    {
        if s.get_char(k) == ';' {
            return k;
        }
        k = k + 1;
    }
    limit
}

/// Parses the digits of `s` between `from` and `to` as one number; yields
/// nothing when the range is empty, holds a non-digit, or overflows the
/// machine's range — exactly the cases the grammar rejects.
fn parse_decimal(s: &str, from: usize, to: usize) -> (r: Option<usize>)
    requires
        from <= to,
        to as int <= s@.len(),
    ensures
        ({
            let part = s@.subrange(from as int, to as int);
            r == if all_digits(part) && digits_value(part) <= usize::MAX as int {
                Some(digits_value(part) as usize)
            } else {
                None::<usize>
            }
        }),
{
    let ghost part = s@.subrange(from as int, to as int);
    if from == to {
        return None;
    }
    let mut acc: usize = 0;
    let mut k = from;
    while k < to
        invariant
            from <= k <= to,
            from < to,
            to as int <= s@.len(),
            part == s@.subrange(from as int, to as int),
            forall|q: int| 0 <= q < k - from ==> is_digit(#[trigger] part[q]),
            acc as int == digits_value(s@.subrange(from as int, k as int)),
        decreases to - k,
    {
        let c = s.get_char(k);
        let cu = c as u32;
        if cu < 48 || cu > 57 {
            proof {
                assert(part[k - from as int] == c);
                assert(!is_digit(c));
            }
            return None;
        }
        let d = (cu - 48) as usize;
        proof {
            assert(part[k - from as int] == c);
            assert(is_digit(c));
            assert(d <= 9);
        }
        if acc > (usize::MAX - d) / 10 {
            proof {
                let pref = s@.subrange(from as int, k as int + 1);
                assert(pref.drop_last() =~= s@.subrange(from as int, k as int));
                assert(digits_value(pref) == acc as int * 10 + d);
                lemma_fundamental_div_mod(usize::MAX as int - d, 10);
                assert(acc as int * 10 + d > usize::MAX as int) by (nonlinear_arith)
                    requires
                        acc as int >= (usize::MAX as int - d) / 10 + 1,
                        usize::MAX as int - d == 10 * ((usize::MAX as int - d) / 10) + (
                        usize::MAX as int - d) % 10,
                        0 <= (usize::MAX as int - d) % 10 < 10,
                ;
                if all_digits(part) {
                    assert(pref =~= part.subrange(0, k - from as int + 1));
                    assert(forall|i: int| 0 <= i < part.len() ==> is_digit(#[trigger] part[i]));
                    lemma_digits_prefix_le(part, k - from as int + 1);
                    assert(digits_value(part.subrange(0, k - from as int + 1)) == digits_value(
                        pref,
                    ));
                    assert(digits_value(part) > usize::MAX as int);
                }
            }
            return None;
        }
        proof {
            lemma_fundamental_div_mod(usize::MAX as int - d, 10);
            assert(acc as int * 10 + d <= usize::MAX as int) by (nonlinear_arith)
                requires
                    acc as int <= (usize::MAX as int - d) / 10,
                    usize::MAX as int - d == 10 * ((usize::MAX as int - d) / 10) + (usize::MAX
                        as int - d) % 10,
                    0 <= (usize::MAX as int - d) % 10 < 10,
            ;
            let pref = s@.subrange(from as int, k as int + 1);
            assert(pref.drop_last() =~= s@.subrange(from as int, k as int));
            assert(pref.last() == c);
        }
        acc = acc * 10 + d;
        k = k + 1;
    }
    proof {
        assert(s@.subrange(from as int, k as int) =~= part);
        assert(all_digits(part));
    }
    Some(acc)
}

/// Decodes one SGR mouse report. Anything that does not match the grammar —
/// a missing suffix or prefix, a malformed field, an out-of-range value —
/// decodes to `None` and is simply dropped by callers.
pub fn parse_sgr_mouse(seq: &str) -> (r: Option<MouseEvent>)
    ensures
        r == parse_sgr_mouse_spec(seq@),
{
    let n = seq.unicode_len();
    if n == 0 {
        return None;
    }
    let lastc = seq.get_char(n - 1);
    if lastc != 'M' && lastc != 'm' {
        return None;
    }
    let is_release = lastc == 'm';
    let ghost body = seq@.drop_last();
    if n < 4 {
        return None;
    }
    if seq.get_char(0) != '\u{1b}' || seq.get_char(1) != '[' || seq.get_char(2) != '<' {
        proof {
            assert(body[0] == seq@[0] && body[1] == seq@[1] && body[2] == seq@[2]);
        }
        return None;
    }
    let ghost nums = body.skip(3);
    proof {
        assert(body[0] == seq@[0] && body[1] == seq@[1] && body[2] == seq@[2]);
        assert(nums =~= seq@.subrange(3, n as int - 1));
    }
    let limit = n - 1;
    let i = find_semi_str(seq, 3, limit);
    proof {
        lemma_find_semi_props(nums, 0);
        lemma_semi_match(seq@, nums, 0, i as int, limit as int);
    }
    if i == limit {
        return None;
    }
    let j = find_semi_str(seq, i + 1, limit);
    proof {
        lemma_find_semi_props(nums, i as int - 3 + 1);
        lemma_semi_match(seq@, nums, i as int - 3 + 1, j as int, limit as int);
    }
    if j == limit {
        return None;
    }
    let k2 = find_semi_str(seq, j + 1, limit);
    proof {
        lemma_find_semi_props(nums, j as int - 3 + 1);
        lemma_semi_match(seq@, nums, j as int - 3 + 1, k2 as int, limit as int);
    }
    if k2 != limit {
        return None;
    }
    let b_opt = parse_decimal(seq, 3, i);
    let x_opt = parse_decimal(seq, i + 1, j);
    let y_opt = parse_decimal(seq, j + 1, limit);
    proof {
        assert(nums.subrange(0, i as int - 3) =~= seq@.subrange(3, i as int));
        assert(nums.subrange(i as int - 3 + 1, j as int - 3) =~= seq@.subrange(
            i as int + 1,
            j as int,
        ));
        assert(nums.subrange(j as int - 3 + 1, nums.len() as int) =~= seq@.subrange(
            j as int + 1,
            limit as int,
        ));
    }
    match (b_opt, x_opt, y_opt) {
        (Some(b), Some(x), Some(y)) => {
            proof {
                let p0 = nums.subrange(0, i as int - 3);
                let p1 = nums.subrange(i as int - 3 + 1, j as int - 3);
                let p2 = nums.subrange(j as int - 3 + 1, nums.len() as int);
                assert(all_digits(p0) && all_digits(p1) && all_digits(p2));
                lemma_digits_nonneg(p0);
                lemma_digits_nonneg(p1);
                lemma_digits_nonneg(p2);
                assert(b as int == digits_value(p0));
                assert(x as int == digits_value(p1));
                assert(y as int == digits_value(p2));
            }
            if b > 255 {
                None
            } else {
                let bb = b as u8;
                if bb & 0x40 != 0 {
                    Some(
                        MouseEvent::Scroll {
                            direction: if bb & 1 != 0 {
                                ScrollDirection::Down
                            } else {
                                ScrollDirection::Up
                            },
                            x,
                            y,
                        },
                    )
                } else if bb & 0x20 != 0 {
                    Some(MouseEvent::Move { x, y })
                } else {
                    let button = if bb & 3 == 0 {
                        MouseButton::Left
                    } else if bb & 3 == 1 {
                        MouseButton::Middle
                    } else if bb & 3 == 2 {
                        MouseButton::Right
                    } else {
                        MouseButton::Other(bb & 3)
                    };
                    if is_release {
                        Some(MouseEvent::Release { button, x, y })
                    } else {
                        Some(MouseEvent::Press { button, x, y })
                    }
                }
            }
        },
        _ => None,
    }
}

/// The events of a burst that must not coalesce: every press, release and
/// scroll, in arrival order.
pub open spec fn kept_events(s: Seq<MouseEvent>) -> Seq<MouseEvent>
    decreases s.len(),
{
    if s.len() == 0 {
        Seq::empty()
    } else {
        kept_events(s.drop_last()) + (if s.last() is Move {
            Seq::<MouseEvent>::empty()
        } else {
            seq![s.last()]
        })
    }
}

/// The coordinates of the burst's most recent move, if it had one.
pub open spec fn last_move_spec(s: Seq<MouseEvent>) -> Option<(usize, usize)>
    decreases s.len(),
{
    if s.len() == 0 {
        None
    } else {
        match s.last() {
            MouseEvent::Move { x, y } => Some((x, y)),
            _ => last_move_spec(s.drop_last()),
        }
    }
}

/// Splits the events a tick drained from the queue into what it consumes:
/// presses, releases and scrolls in arrival order, and the position of the
/// most recent move — earlier moves of the burst coalesce away.
pub fn drain_burst(events: &Vec<MouseEvent>) -> (r: (Vec<MouseEvent>, Option<(usize, usize)>))
    ensures
        r.0@ == kept_events(events@),
        r.1 == last_move_spec(events@),
{
    let mut kept: Vec<MouseEvent> = Vec::new();
    let mut last: Option<(usize, usize)> = None;
    let n = events.len();
    for i in 0..n
        invariant
            n == events@.len(),
            kept@ == kept_events(events@.subrange(0, i as int)),
            last == last_move_spec(events@.subrange(0, i as int)),
    {
        let ev = events[i];
        match ev {
            MouseEvent::Move { x, y } => {
                last = Some((x, y));
            },
            _ => {
                kept.push(ev);
            },
        }
        proof {
            let pre = events@.subrange(0, i as int + 1);
            assert(pre.drop_last() =~= events@.subrange(0, i as int));
            assert(pre.last() == ev);
            assert(kept@ =~= kept_events(pre));
        }
    }
    proof {
        assert(events@.subrange(0, n as int) =~= events@);
    }
    (kept, last)
}

/// The exec search over the raw string and the spec search over the numeric
/// field region agree, three characters of prefix apart.
proof fn lemma_semi_match(s: Seq<char>, nums: Seq<char>, from_n: int, r: int, limit: int)
    requires
        0 <= from_n,
        limit == s.len() - 1,
        nums =~= s.subrange(3, limit),
        from_n + 3 <= r <= limit,
        r < limit ==> s[r] == ';',
        forall|k: int| from_n + 3 <= k < r ==> s[k] != ';',
    ensures
        find_semi(nums, from_n) == r - 3,
{
    lemma_find_semi_props(nums, from_n);
    let q = find_semi(nums, from_n);
    if q < r - 3 {
        if q < nums.len() {
            assert(nums[q] == s[q + 3]);
        }
    } else if q > r - 3 {
        if r < limit {
            assert(nums[r - 3] == s[r]);
        }
    }
}

} // verus!
