//! The rendering engine: a fixed-capacity pixel canvas with per-pixel depth
//! testing, a palette that interns colors to compact handles, glyph cells for
//! text, a dirty-row bitmask, and a diff pass that emits escape sequences only
//! for cells that changed since the previous frame.

pub mod alt_screen;
pub mod input;
pub mod mouse;
pub mod screen;

use crate::escape;
use std::collections::HashMap;
use vstd::prelude::*;

verus! {

broadcast use vstd::std_specs::hash::group_hash_axioms;

/// Hard bound on canvas width and pixel-row count; the canvas is allocated at
/// this size once and re-validated, never regrown, on resize.
pub const MAX: usize = 512;

/// Handles are 16-bit; one value is kept back so `u16::MAX` can serve as a
/// snapshot sentinel that no real cell ever carries.
pub const HANDLE_LIMIT: usize = 65535;

/// A true 24-bit color. The canvas stores palette handles, never colors.
#[derive(Debug, PartialEq, Eq, Structural, Copy, Clone, Hash)]
pub struct Color {
    pub r: u8,
    pub g: u8,
    pub b: u8,
}

impl Color {
    pub fn new(r: u8, g: u8, b: u8) -> (c: Color)
        ensures
            c == (Color { r, g, b }),
    {
        Color { r, g, b }
    }
}

/// The three channels packed into one integer, used as the reverse-lookup key.
pub open spec fn pack_color(c: Color) -> u32 {
    (((c.r as u32) << 16) | ((c.g as u32) << 8)) | (c.b as u32)
}

fn pack_color_exec(c: Color) -> (k: u32)
    ensures
        k == pack_color(c),
{
    (((c.r as u32) << 16) | ((c.g as u32) << 8)) | (c.b as u32)
}

proof fn lemma_pack_color_injective(a: Color, b: Color)
    requires
        pack_color(a) == pack_color(b),
    ensures
        a == b,
{
    let (ar, ag, ab) = (a.r, a.g, a.b);
    let (br, bg, bb) = (b.r, b.g, b.b);
    assert((((ar as u32) << 16) | ((ag as u32) << 8)) | (ab as u32) == (((br as u32) << 16) | ((
    bg as u32) << 8)) | (bb as u32) ==> ar == br && ag == bg && ab == bb) by (bit_vector);
}

/// The index of the first entry equal to `c`, if any.
pub open spec fn palette_find<T>(s: Seq<T>, c: T) -> Option<int>
    decreases s.len(),
{
    if s.len() == 0 {
        None
    } else {
        match palette_find(s.drop_last(), c) {
            Some(i) => Some(i),
            None => if s.last() == c {
                Some(s.len() - 1)
            } else {
                None
            },
        }
    }
}

pub(crate) proof fn lemma_palette_find_props<T>(s: Seq<T>, c: T)
    ensures
        match palette_find(s, c) {
            None => forall|i: int| 0 <= i < s.len() ==> s[i] != c,
            Some(i) => 0 <= i < s.len() && s[i] == c && forall|j: int| 0 <= j < i ==> s[j] != c,
        },
    decreases s.len(),
{
    if s.len() > 0 {
        let t = s.drop_last();
        lemma_palette_find_props(t, c);
        assert(forall|i: int| 0 <= i < s.len() - 1 ==> s[i] == t[i]);
        assert(s.last() == s[s.len() - 1]);
    }
}

/// The entries after interning `c`: unchanged when `c` is present or the
/// table is full, extended by `c` otherwise.
pub open spec fn intern_entries(s: Seq<Color>, c: Color) -> Seq<Color> {
    if palette_find(s, c) is Some {
        s
    } else if s.len() < HANDLE_LIMIT {
        s.push(c)
    } else {
        s
    }
}

/// The handle interning `c` returns: the first matching entry, else the index
/// the new entry takes, else the background handle when the table is full.
pub open spec fn intern_handle(s: Seq<Color>, c: Color) -> u16 {
    match palette_find(s, c) {
        Some(i) => i as u16,
        None => if s.len() < HANDLE_LIMIT {
            s.len() as u16
        } else {
            0
        },
    }
}

/// The color a handle renders as: its entry, or the background entry for a
/// handle the current palette epoch no longer covers.
pub open spec fn resolve_spec(s: Seq<Color>, h: u16) -> Color {
    if h < s.len() {
        s[h as int]
    } else {
        s[0]
    }
}

/// Interns 24-bit colors to dense 16-bit handles: one vector for handle to
/// color, one hash map over packed colors for color to handle.
pub struct PaletteTable {
    entries: Vec<Color>,
    index: HashMap<u32, u16>,
}

impl View for PaletteTable {
    type V = Seq<Color>;

    closed spec fn view(&self) -> Seq<Color> {
        self.entries@
    }
}

impl PaletteTable {
    /// The two lookup directions agree, entries are distinct, handle 0 is the
    /// background, and there is headroom below the snapshot sentinel.
    pub closed spec fn wf(&self) -> bool {
        &&& 1 <= self.entries@.len() <= HANDLE_LIMIT
        &&& self.entries@[0] == (Color { r: 0, g: 0, b: 0 })
        &&& forall|i: int, j: int|
            0 <= i < j < self.entries@.len() ==> self.entries@[i] != self.entries@[j]
        &&& forall|i: int|
            0 <= i < self.entries@.len() ==> #[trigger] self.index@.contains_key(
                pack_color(self.entries@[i]),
            ) && self.index@[pack_color(self.entries@[i])] == i as u16
        &&& forall|k: u32|
            #[trigger] self.index@.contains_key(k) ==> self.index@[k] < self.entries@.len()
                && pack_color(self.entries@[self.index@[k] as int]) == k
    }

    /// A table holding only the background color, handle 0.
    pub fn new() -> (p: PaletteTable)
        ensures
            p.wf(),
            p@ == seq![Color { r: 0, g: 0, b: 0 }],
    {
        let black = Color { r: 0, g: 0, b: 0 };
        let mut entries: Vec<Color> = Vec::new();
        entries.push(black);
        let mut index: HashMap<u32, u16> = HashMap::new();
        index.insert(pack_color_exec(black), 0);
        let p = PaletteTable { entries, index };
        proof {
            assert(p@ =~= seq![Color { r: 0, g: 0, b: 0 }]);
        }
        p
    }

    pub fn len(&self) -> (n: usize)
        ensures
            n == self@.len(),
    {
        self.entries.len()
    }

    /// Returns the handle of `color`, appending a new entry when the color is
    /// new and the table has room; a full table falls back to the background
    /// handle rather than evicting.
    pub fn intern(&mut self, color: Color) -> (h: u16)
        requires
            old(self).wf(),
        ensures
            final(self).wf(),
            final(self)@ == intern_entries(old(self)@, color),
            h == intern_handle(old(self)@, color),
    {
        proof {
            lemma_palette_find_props(self@, color);
        }
        let key = pack_color_exec(color);
        let found = match self.index.get(&key) {
            Some(h) => Some(*h),
            None => None,
        };
        match found {
            Some(h) => {
                proof {
                    lemma_pack_color_injective(self.entries@[self.index@[key] as int], color);
                    assert(palette_find(self@, color) == Some(h as int));
                }
                h
            },
            None => {
                proof {
                    assert(forall|i: int|
                        0 <= i < self.entries@.len() ==> self.entries@[i] != color) by {
                        assert forall|i: int|
                            0 <= i < self.entries@.len() implies self.entries@[i] != color by {
                            if self.entries@[i] == color {
                                assert(self.index@.contains_key(pack_color(self.entries@[i])));
                            }
                        }
                    }
                    assert(palette_find(self@, color) is None);
                }
                let n = self.entries.len();
                if n < HANDLE_LIMIT {
                    let h = n as u16;
                    self.entries.push(color);
                    self.index.insert(key, h);
                    proof {
                        let s = self.entries@;
                        assert(s.drop_last() =~= old(self)@);
                        assert forall|i: int, j: int| 0 <= i < j < s.len() implies s[i] != s[j] by {
                            if j < s.len() - 1 {
                                assert(old(self)@[i] != old(self)@[j]);
                            }
                        }
                        assert forall|i: int|
                            0 <= i < s.len() implies #[trigger] self.index@.contains_key(
                            pack_color(s[i]),
                        ) && self.index@[pack_color(s[i])] == i as u16 by {
                            if i < s.len() - 1 {
                                assert(old(self).index@.contains_key(pack_color(old(self)@[i])));
                                if pack_color(s[i]) == key {
                                    lemma_pack_color_injective(s[i], color);
                                }
                            }
                        }
                        assert forall|k: u32|
                            #[trigger] self.index@.contains_key(k) implies self.index@[k] < s.len()
                            && pack_color(s[self.index@[k] as int]) == k by {
                            if k != key {
                                assert(old(self).index@.contains_key(k));
                            }
                        }
                    }
                    h
                } else {
                    0
                }
            },
        }
    }

    /// Looks a handle back up to its color.
    pub fn resolve(&self, handle: u16) -> (c: Color)
        requires
            self.wf(),
        ensures
            c == resolve_spec(self@, handle),
    {
        if (handle as usize) < self.entries.len() {
            self.entries[handle as usize]
        } else {
            self.entries[0]
        }
    }
}

/// Terminal rows covered by the canvas: two pixel rows per terminal row.
pub const TERM_ROWS: usize = MAX / 2;

/// Words of the dirty bitmask, one bit per terminal row.
pub const DIRTY_WORDS: usize = TERM_ROWS / 64;

/// The handle value the previous-frame snapshot is filled with on a forced
/// clear. No cell ever stores it, so every visible cell compares as changed.
pub const SENTINEL: u16 = 65535;

/// The rows and columns of a grid of vectors, as sequences.
pub open spec fn grid_view<T>(g: Vec<Vec<T>>) -> Seq<Seq<T>> {
    g@.map_values(|r: Vec<T>| r@)
}

/// A `rows` by `cols` grid holding `v` everywhere.
pub open spec fn const_grid<T>(rows: int, cols: int, v: T) -> Seq<Seq<T>> {
    Seq::new(rows as nat, |y: int| Seq::new(cols as nat, |x: int| v))
}

/// The dirty bitmask words read as one flag per terminal row.
pub open spec fn dirty_view(d: Seq<u64>) -> Seq<bool> {
    Seq::new(TERM_ROWS as nat, |r: int| (d[r / 64] >> ((r % 64) as u64)) & 1 == 1)
}

/// Ghost description of the whole canvas: the state every drawing operation
/// and the diff pass are specified against.
#[verifier::ext_equal]
pub ghost struct FrameModel {
    /// Active columns.
    pub width: int,
    /// Active pixel rows (twice the terminal rows).
    pub height: int,
    /// Palette handle per pixel.
    pub pixels: Seq<Seq<u16>>,
    /// Depth per pixel; a write lands iff its depth is at least the stored one.
    pub depth: Seq<Seq<u8>>,
    /// Interned colors; index is the handle.
    pub palette: Seq<Color>,
    /// Glyph per terminal cell; ' ' means no glyph.
    pub chars: Seq<Seq<char>>,
    /// Pixel snapshot taken at the last clear, diffed against by render.
    pub old: Seq<Seq<u16>>,
    /// Glyph snapshot taken at the last clear.
    pub old_chars: Seq<Seq<char>>,
    /// One flag per terminal row: repaint candidates for the next render.
    pub dirty: Seq<bool>,
    /// Set by the resize notification, consumed at the next tick boundary.
    pub resize_pending: bool,
}

/// Shape and range facts every reachable canvas state satisfies.
pub open spec fn model_wf(m: FrameModel) -> bool {
    &&& m.pixels.len() == MAX as int
    &&& (forall|y: int| 0 <= y < MAX as int ==> (#[trigger] m.pixels[y]).len() == MAX as int)
    &&& m.depth.len() == MAX as int
    &&& (forall|y: int| 0 <= y < MAX as int ==> (#[trigger] m.depth[y]).len() == MAX as int)
    &&& m.old.len() == MAX as int
    &&& (forall|y: int| 0 <= y < MAX as int ==> (#[trigger] m.old[y]).len() == MAX as int)
    &&& m.chars.len() == TERM_ROWS as int
    &&& (forall|y: int| 0 <= y < TERM_ROWS as int ==> (#[trigger] m.chars[y]).len() == MAX as int)
    &&& m.old_chars.len() == TERM_ROWS as int
    &&& (forall|y: int|
        0 <= y < TERM_ROWS as int ==> (#[trigger] m.old_chars[y]).len() == MAX as int)
    &&& m.dirty.len() == TERM_ROWS as int
    &&& 0 <= m.width <= MAX as int
    &&& 0 <= m.height <= MAX as int
    &&& 1 <= m.palette.len() <= HANDLE_LIMIT as int
    &&& (forall|y: int, x: int|
        0 <= y < MAX as int && 0 <= x < MAX as int ==> #[trigger] m.pixels[y][x]
            < SENTINEL)
}

/// Interning never disturbs the entries already in the table, and grows it by
/// at most one entry.
pub proof fn lemma_intern_preserves_entries(s: Seq<Color>, c: Color)
    ensures
        s.len() <= intern_entries(s, c).len() <= s.len() + 1,
        forall|i: int| 0 <= i < s.len() ==> intern_entries(s, c)[i] == s[i],
{
}

/// Interning the same color again returns the same handle and leaves the
/// table as it was, so N insertions of one color add at most one entry.
pub proof fn lemma_intern_dedup(s: Seq<Color>, c: Color)
    ensures
        intern_entries(intern_entries(s, c), c) == intern_entries(s, c),
        intern_handle(intern_entries(s, c), c) == intern_handle(s, c),
{
    lemma_palette_find_props(s, c);
    match palette_find(s, c) {
        Some(i) => {},
        None => {
            if s.len() < HANDLE_LIMIT {
                let s1 = s.push(c);
                assert(s1.drop_last() =~= s);
                assert(palette_find(s1, c) == Some(s.len() as int));
                lemma_palette_find_props(s1, c);
            }
        },
    }
}

/// Interning then resolving gives the color back, as long as the table can
/// still answer for it: the color is already present, or a slot is free.
pub proof fn lemma_intern_resolve(s: Seq<Color>, c: Color)
    requires
        palette_has_room(s, c),
        1 <= s.len() <= HANDLE_LIMIT as int,
    ensures
        resolve_spec(intern_entries(s, c), intern_handle(s, c)) == c,
{
    lemma_palette_find_props(s, c);
    match palette_find(s, c) {
        Some(i) => {},
        None => {
            assert(s.push(c)[s.len() as int] == c);
        },
    }
}

/// The canvas after a depth-tested pixel write: when the write is at least as
/// deep as the stored depth it interns the color, stores handle and depth,
/// and marks the owning terminal row dirty; otherwise nothing changes.
pub open spec fn set_pixel_model(m: FrameModel, x: int, y: int, z: u8, c: Color) -> FrameModel {
    if m.depth[y][x] <= z {
        FrameModel {
            pixels: m.pixels.update(y, m.pixels[y].update(x, intern_handle(m.palette, c))),
            depth: m.depth.update(y, m.depth[y].update(x, z)),
            palette: intern_entries(m.palette, c),
            dirty: m.dirty.update(y / 2, true),
            ..m
        }
    } else {
        m
    }
}

/// A vector holding `v` at each of `n` slots.
fn filled_vec<T: Copy>(n: usize, v: T) -> (r: Vec<T>)
    ensures
        r@ == Seq::new(n as nat, |i: int| v),
{
    let mut r: Vec<T> = Vec::new();
    for k in 0..n
        invariant
            r@.len() == k,
            forall|i: int| 0 <= i < k ==> r@[i] == v,
    {
        r.push(v);
    }
    proof {
        assert(r@ =~= Seq::new(n as nat, |i: int| v));
    }
    r
}

/// A grid holding `v` at each of `rows` by `cols` cells.
fn filled_grid<T: Copy>(rows: usize, cols: usize, v: T) -> (g: Vec<Vec<T>>)
    ensures
        grid_view(g) == const_grid(rows as int, cols as int, v),
        g@.len() == rows as int,
        forall|y: int| 0 <= y < rows as int ==> (#[trigger] g@[y])@ == Seq::new(cols as nat, |i: int| v),
{
    let mut g: Vec<Vec<T>> = Vec::new();
    for k in 0..rows
        invariant
            g@.len() == k,
            forall|y: int| 0 <= y < k ==> (#[trigger] g@[y])@ == Seq::new(cols as nat, |i: int| v),
    {
        g.push(filled_vec(cols, v));
    }
    proof {
        assert(grid_view(g) =~~= const_grid(rows as int, cols as int, v));
    }
    g
}

/// A copy of a grid, row by row.
fn copy_grid<T: Copy>(src: &Vec<Vec<T>>) -> (r: Vec<Vec<T>>)
    ensures
        grid_view(r) == grid_view(*src),
        r@.len() == src@.len(),
        forall|y: int| 0 <= y < src@.len() ==> (#[trigger] r@[y])@ == src@[y]@,
{
    let mut r: Vec<Vec<T>> = Vec::new();
    let n = src.len();
    for k in 0..n
        invariant
            n == src@.len(),
            r@.len() == k,
            forall|y: int| 0 <= y < k ==> (#[trigger] r@[y])@ == src@[y]@,
    {
        let row = &src[k];
        let mut dst: Vec<T> = Vec::new();
        let w = row.len();
        for j in 0..w
            invariant
                w == row@.len(),
                dst@.len() == j,
                forall|i: int| 0 <= i < j ==> dst@[i] == row@[i],
        {
            dst.push(row[j]);
        }
        proof {
            assert(dst@ =~= src@[k as int]@);
        }
        r.push(dst);
    }
    proof {
        assert(grid_view(r) =~~= grid_view(*src));
    }
    r
}

/// Stores `v` at one cell of a grid.
fn set_cell<T>(g: &mut Vec<Vec<T>>, y: usize, x: usize, v: T)
    requires
        y < old(g)@.len(),
        x < old(g)@[y as int]@.len(),
    ensures
        grid_view(*final(g)) == grid_view(*old(g)).update(
            y as int,
            grid_view(*old(g))[y as int].update(x as int, v),
        ),
        final(g)@.len() == old(g)@.len(),
        final(g)@[y as int]@ == old(g)@[y as int]@.update(x as int, v),
        forall|y2: int|
            0 <= y2 < old(g)@.len() && y2 != y as int ==> (#[trigger] final(g)@[y2])@ == old(
                g,
            )@[y2]@,
{
    let mut row: Vec<T> = Vec::new();
    g.set_and_swap(y, &mut row);
    row.set(x, v);
    g.set_and_swap(y, &mut row);
    proof {
        assert(grid_view(*g) =~~= grid_view(*old(g)).update(
            y as int,
            grid_view(*old(g))[y as int].update(x as int, v),
        ));
    }
}

/// Sets the bit of one terminal row in the dirty bitmask.
fn mark_dirty(d: &mut Vec<u64>, row: usize)
    requires
        old(d)@.len() == DIRTY_WORDS,
        row < TERM_ROWS,
    ensures
        final(d)@.len() == DIRTY_WORDS,
        dirty_view(final(d)@) == dirty_view(old(d)@).update(row as int, true),
{
    let w = d[row / 64];
    d.set(row / 64, w | (1u64 << ((row % 64) as u64)));
    proof {
        let d0 = old(d)@;
        let d1 = d@;
        assert forall|r: int| 0 <= r < TERM_ROWS as int implies dirty_view(d1)[r] == dirty_view(
            d0,
        ).update(row as int, true)[r] by {
            let wi = r / 64;
            let bi = (r % 64) as u64;
            assert(r == 64 * (r / 64) + r % 64);
            assert(row == 64 * ((row as int) / 64) + (row as int) % 64);
            if wi == (row as int) / 64 {
                let w0 = d0[wi];
                let jb = ((row as int) % 64) as u64;
                assert(bi < 64 && jb < 64);
                assert(((w0 | (1u64 << jb)) >> bi) & 1 == if bi == jb {
                    1u64
                } else {
                    (w0 >> bi) & 1
                }) by (bit_vector)
                    requires
                        bi < 64 && jb < 64,
                ;
            }
        }
        assert(dirty_view(d1) =~= dirty_view(d0).update(row as int, true));
    }
}

/// The pixel-addressable canvas: handle and depth grids, glyph cells, the
/// palette, the previous-frame snapshot, the dirty bitmask and the pending
/// resize flag. Sized once at `MAX`; the active area is `width` by `height`.
pub struct Rael {
    width: u16,
    height: u16,
    pixels: Vec<Vec<u16>>,
    z_buffer: Vec<Vec<u8>>,
    colors: PaletteTable,
    chars: Vec<Vec<char>>,
    old: Vec<Vec<u16>>,
    old_chars: Vec<Vec<char>>,
    dirty_rows: Vec<u64>,
    resize_pending: bool,
}

impl View for Rael {
    type V = FrameModel;

    closed spec fn view(&self) -> FrameModel {
        FrameModel {
            width: self.width as int,
            height: self.height as int,
            pixels: grid_view(self.pixels),
            depth: grid_view(self.z_buffer),
            palette: self.colors@,
            chars: grid_view(self.chars),
            old: grid_view(self.old),
            old_chars: grid_view(self.old_chars),
            dirty: dirty_view(self.dirty_rows@),
            resize_pending: self.resize_pending,
        }
    }
}

impl Rael {
    /// The palette's two lookup directions agree and the canvas state is a
    /// well-formed frame.
    pub closed spec fn wf(&self) -> bool {
        &&& self.colors.wf()
        &&& self.dirty_rows@.len() == DIRTY_WORDS as int
        &&& self.pixels@.len() == MAX as int
        &&& (forall|y: int| 0 <= y < MAX as int ==> (#[trigger] self.pixels@[y])@.len() == MAX as int)
        &&& self.z_buffer@.len() == MAX as int
        &&& (forall|y: int|
            0 <= y < MAX as int ==> (#[trigger] self.z_buffer@[y])@.len() == MAX as int)
        &&& self.old@.len() == MAX as int
        &&& (forall|y: int| 0 <= y < MAX as int ==> (#[trigger] self.old@[y])@.len() == MAX as int)
        &&& self.chars@.len() == TERM_ROWS as int
        &&& (forall|y: int|
            0 <= y < TERM_ROWS as int ==> (#[trigger] self.chars@[y])@.len() == MAX as int)
        &&& self.old_chars@.len() == TERM_ROWS as int
        &&& (forall|y: int|
            0 <= y < TERM_ROWS as int ==> (#[trigger] self.old_chars@[y])@.len() == MAX as int)
        &&& self.width as int <= MAX as int
        &&& self.height as int <= MAX as int
        &&& (forall|y: int, x: int|
            0 <= y < MAX as int && 0 <= x < MAX as int ==> #[trigger] self.pixels@[y]@[x]
                < SENTINEL)
    }

    /// Well-formedness of the canvas carries over to its ghost model.
    pub proof fn lemma_wf_model(&self)
        requires
            self.wf(),
        ensures
            model_wf(self@),
    {
    }

    /// The state a fresh canvas starts in, for a terminal of `cols` columns
    /// and `rows` rows: empty grids, the background-only palette, a snapshot
    /// that matches nothing, and a clean dirty mask.
    pub open spec fn initial_model(cols: u16, rows: u16) -> FrameModel {
        FrameModel {
            width: cols as int,
            height: 2 * rows as int,
            pixels: const_grid(MAX as int, MAX as int, 0u16),
            depth: const_grid(MAX as int, MAX as int, 0u8),
            palette: seq![Color { r: 0, g: 0, b: 0 }],
            chars: const_grid(TERM_ROWS as int, MAX as int, ' '),
            old: const_grid(MAX as int, MAX as int, SENTINEL),
            old_chars: const_grid(TERM_ROWS as int, MAX as int, ' '),
            dirty: Seq::new(TERM_ROWS as nat, |r: int| false),
            resize_pending: false,
        }
    }

    /// A canvas for a terminal of `cols` columns and `rows` rows; each
    /// terminal row hosts two pixel rows. Geometry beyond `MAX` is rejected
    /// before construction by the caller.
    pub fn new(cols: u16, rows: u16) -> (r: Rael)
        requires
            cols as int <= MAX as int,
            2 * rows as int <= MAX as int,
        ensures
            r.wf(),
            r@ == Self::initial_model(cols, rows),
    {
        let r = Rael {
            width: cols,
            height: rows * 2,
            pixels: filled_grid(MAX, MAX, 0u16),
            z_buffer: filled_grid(MAX, MAX, 0u8),
            colors: PaletteTable::new(),
            chars: filled_grid(TERM_ROWS, MAX, ' '),
            old: filled_grid(MAX, MAX, SENTINEL),
            old_chars: filled_grid(TERM_ROWS, MAX, ' '),
            dirty_rows: filled_vec(DIRTY_WORDS, 0u64),
            resize_pending: false,
        };
        proof {
            assert forall|r0: int| 0 <= r0 < TERM_ROWS as int implies dirty_view(r.dirty_rows@)[r0]
                == false by {
            let b: u64 = (r0 % 64) as u64;
            assert((0u64 >> b) & 1 == 0) by (bit_vector);
            }
            assert(r@ =~~= Self::initial_model(cols, rows));
        }
        r
    }

    /// Active width in terminal columns.
    pub fn width(&self) -> (w: u16)
        ensures
            w as int == self@.width,
    {
        self.width
    }

    /// Active height in pixel rows.
    pub fn height(&self) -> (h: u16)
        ensures
            h as int == self@.height,
    {
        self.height
    }

    /// The palette handle stored at a pixel.
    pub fn pixel(&self, x: usize, y: usize) -> (h: u16)
        requires
            self.wf(),
            x < MAX,
            y < MAX,
        ensures
            h == self@.pixels[y as int][x as int],
    {
        self.pixels[y][x]
    }

    /// The depth stored at a pixel.
    pub fn depth(&self, x: usize, y: usize) -> (z: u8)
        requires
            self.wf(),
            x < MAX,
            y < MAX,
        ensures
            z == self@.depth[y as int][x as int],
    {
        self.z_buffer[y][x]
    }

    /// The glyph stored at a terminal cell; ' ' when there is none.
    pub fn glyph(&self, x: usize, row: usize) -> (c: char)
        requires
            self.wf(),
            x < MAX,
            row < TERM_ROWS,
        ensures
            c == self@.chars[row as int][x as int],
    {
        self.chars[row][x]
    }

    /// How many colors the palette holds.
    pub fn palette_len(&self) -> (n: usize)
        requires
            self.wf(),
        ensures
            n == self@.palette.len(),
    {
        self.colors.len()
    }

    /// The color a handle renders as.
    pub fn resolve_color(&self, handle: u16) -> (c: Color)
        requires
            self.wf(),
        ensures
            c == resolve_spec(self@.palette, handle),
    {
        self.colors.resolve(handle)
    }

    /// Interns a color in the canvas palette and returns its handle.
    pub fn intern_color(&mut self, color: Color) -> (h: u16)
        requires
            old(self).wf(),
        ensures
            final(self).wf(),
            final(self)@ == (FrameModel {
                palette: intern_entries(old(self)@.palette, color),
                ..old(self)@
            }),
            h == intern_handle(old(self)@.palette, color),
    {
        let h = self.colors.intern(color);
        proof {
            assert(self@ =~~= (FrameModel {
                palette: intern_entries(old(self)@.palette, color),
                ..old(self)@
            }));
        }
        h
    }

    /// Writes one pixel: interns the color and stores its handle and the
    /// depth iff the write passes the depth test (`z` at least the stored
    /// depth, so a write at equal depth overwrites), and marks the owning
    /// terminal row dirty.
    pub fn set_pixel(&mut self, x: usize, y: usize, z: u8, color: Color)
        requires
            old(self).wf(),
            x < MAX,
            y < MAX,
        ensures
            final(self).wf(),
            final(self)@ == set_pixel_model(old(self)@, x as int, y as int, z, color),
    {
        proof {
            lemma_palette_find_props(self.colors@, color);
        }
        if self.z_buffer[y][x] <= z {
            let h = self.colors.intern(color);
            proof {
                assert(h < SENTINEL);
            }
            set_cell(&mut self.pixels, y, x, h);
            set_cell(&mut self.z_buffer, y, x, z);
            mark_dirty(&mut self.dirty_rows, y / 2);
            proof {
                assert(self@ =~~= set_pixel_model(old(self)@, x as int, y as int, z, color));
            }
        } else {
            proof {
                assert(self@ =~~= set_pixel_model(old(self)@, x as int, y as int, z, color));
            }
        }
    }

    /// Writes a glyph cell: the background color on the even pixel row `y`
    /// rounds down to, the foreground on the row below, and the glyph for
    /// the terminal cell, all under one depth test on the top row.
    pub fn set_text(&mut self, x: usize, y: usize, z: u8, bg: Color, fg: Color, cchar: char)
        requires
            old(self).wf(),
            x < MAX,
            y < MAX,
        ensures
            final(self).wf(),
            final(self)@ == set_text_model(old(self)@, x as int, y as int, z, bg, fg, cchar),
    {
        let y = if y % 2 == 0 {
            y
        } else {
            y - 1
        };
        if self.z_buffer[y][x] <= z {
            proof {
                lemma_palette_find_props(self.colors@, bg);
            }
            let hbg = self.colors.intern(bg);
            proof {
                assert(hbg < SENTINEL);
                lemma_palette_find_props(self.colors@, fg);
            }
            let hfg = self.colors.intern(fg);
            proof {
                assert(hfg < SENTINEL);
            }
            set_cell(&mut self.pixels, y, x, hbg);
            set_cell(&mut self.z_buffer, y, x, z);
            set_cell(&mut self.chars, y / 2, x, cchar);
            set_cell(&mut self.pixels, y + 1, x, hfg);
            mark_dirty(&mut self.dirty_rows, y / 2);
            proof {
                assert(self@ =~~= set_text_model(old(self)@, x as int, y as int, z, bg, fg, cchar));
            }
        } else {
            proof {
                assert(self@ =~~= set_text_model(old(self)@, x as int, y as int, z, bg, fg, cchar));
            }
        }
    }

    /// Blits an indexed bitmap at `pos = (x, y, depth)`. Source pixels that
    /// reference the reserved transparent slot (the last palette entry, or
    /// anything past it) are skipped; rows and columns falling outside the
    /// canvas are silently clipped.
    pub fn set_image(&mut self, image: &ImageAsset, pos: (usize, usize, u8))
        requires
            old(self).wf(),
            image_wf(image@),
        ensures
            final(self).wf(),
            final(self)@ == set_image_model(old(self)@, image@, pos.0 as int, pos.1 as int, pos.2),
    {
        let ghost m0 = self@;
        let ghost imgm = image@;
        let (ox, oy, oz) = pos;
        let h = image.height;
        let w = image.width;
        let ylim = if oy >= MAX {
            0
        } else if h < MAX - oy {
            h
        } else {
            MAX - oy
        };
        let xlim = if ox >= MAX {
            0
        } else if w < MAX - ox {
            w
        } else {
            MAX - ox
        };
        for y in 0..ylim
            invariant
                self.wf(),
                image_wf(imgm),
                imgm == image@,
                ylim <= h,
                h == imgm.height,
                w == imgm.width,
                xlim <= w,
                ox + xlim >= MAX as int || xlim == w,
                ylim > 0 ==> oy + ylim <= MAX as int,
                xlim > 0 ==> ox + xlim <= MAX as int,
                self@ == blit_rows(m0, imgm, ox as int, oy as int, oz, y as int),
        {
            let ty = oy + y;
            let ghost mrow = self@;
            for x in 0..xlim
                invariant
                    self.wf(),
                    image_wf(imgm),
                    imgm == image@,
                    y < ylim <= h,
                    h == imgm.height,
                    w == imgm.width,
                    xlim <= w,
                    ty == oy + y,
                    ylim > 0 ==> oy + ylim <= MAX as int,
                    xlim > 0 ==> ox + xlim <= MAX as int,
                    self@ == blit_cols(mrow, imgm, ox as int, oy as int, oz, y as int, x as int),
                    mrow == blit_rows(m0, imgm, ox as int, oy as int, oz, y as int),
            {
                let tx = ox + x;
                let idx = image.pixels[y][x] as usize;
                proof {
                    assert(imgm.pixels[y as int][x as int] == image.pixels@[y as int]@[x as int]);
                }
                if idx + 1 < image.colors.len() {
                    let c = image.colors[idx];
                    self.set_pixel(tx, ty, oz, c);
                }
                proof {
                    assert(self@ == blit_cols(
                        mrow,
                        imgm,
                        ox as int,
                        oy as int,
                        oz,
                        y as int,
                        x as int + 1,
                    ));
                }
            }
            proof {
                if xlim < w {
                    lemma_blit_cols_clipped(
                        mrow,
                        imgm,
                        ox as int,
                        oy as int,
                        oz,
                        y as int,
                        xlim as int,
                        w as int,
                    );
                }
                assert(self@ == blit_rows(m0, imgm, ox as int, oy as int, oz, y as int + 1));
            }
        }
        proof {
            if ylim < h {
                lemma_blit_rows_clipped(
                    m0,
                    imgm,
                    ox as int,
                    oy as int,
                    oz,
                    ylim as int,
                    h as int,
                );
            }
        }
    }

    /// True when anything in terminal row `r` would be visible: a glyph, or
    /// a non-background pixel in either of its pixel rows.
    fn row_content(&self, r: usize) -> (has: bool)
        requires
            self.wf(),
            r < TERM_ROWS,
        ensures
            has == row_has_content(self@, r as int),
    {
        let w = self.width as usize;
        for x in 0..w
            invariant
                self.wf(),
                r < TERM_ROWS,
                w == self@.width,
                forall|x2: int| 0 <= x2 < x ==> !cell_has_content(self@, r as int, x2),
        {
            if self.chars[r][x] != ' ' || self.pixels[2 * r][x] != 0 || self.pixels[2 * r + 1][x]
                != 0 {
                proof {
                    assert(cell_has_content(self@, r as int, x as int));
                }
                return true;
            }
        }
        false
    }

    /// The per-tick reset: the current grids become the previous-frame
    /// snapshot, the grids are zeroed, and the dirty mask is rebuilt to hold
    /// exactly the rows that had visible content, so the next pass erases
    /// them and diffing stays valid.
    pub fn clear(&mut self)
        requires
            old(self).wf(),
        ensures
            final(self).wf(),
            final(self)@ == clear_model(old(self)@),
    {
        let ghost m0 = self@;
        self.old = copy_grid(&self.pixels);
        self.old_chars = copy_grid(&self.chars);
        self.dirty_rows = filled_vec(DIRTY_WORDS, 0u64);
        proof {
            assert forall|r0: int| 0 <= r0 < TERM_ROWS as int implies !dirty_view(
                self.dirty_rows@,
            )[r0] by {
                let b: u64 = (r0 % 64) as u64;
                assert((0u64 >> b) & 1 == 0) by (bit_vector);
            }
        }
        let trows = (self.height as usize + 1) / 2;
        for r in 0..trows
            invariant
                self.wf(),
                trows == terminal_rows(m0),
                self@.pixels == m0.pixels,
                self@.chars == m0.chars,
                self@.width == m0.width,
                self@.height == m0.height,
                self@.depth == m0.depth,
                self@.palette == m0.palette,
                self@.old == m0.pixels,
                self@.old_chars == m0.chars,
                self@.resize_pending == m0.resize_pending,
                self@.dirty =~= Seq::new(
                    TERM_ROWS as nat,
                    |q: int| q < r as int && row_has_content(m0, q),
                ),
        {
            let has = self.row_content(r);
            proof {
                lemma_row_content_same(self@, m0, r as int);
            }
            if has {
                mark_dirty(&mut self.dirty_rows, r);
            }
            proof {
                assert(self@.dirty =~= Seq::new(
                    TERM_ROWS as nat,
                    |q: int| q < r as int + 1 && row_has_content(m0, q),
                ));
            }
        }
        self.z_buffer = filled_grid(MAX, MAX, 0u8);
        self.pixels = filled_grid(MAX, MAX, 0u16);
        self.chars = filled_grid(TERM_ROWS, MAX, ' ');
        proof {
            assert(self@ =~~= clear_model(m0));
        }
    }

    /// Resets the palette to the background-only table, leaving pixel and
    /// depth state alone. Stale handles left in cells resolve to the
    /// background until they are overwritten.
    pub fn clear_colors(&mut self)
        requires
            old(self).wf(),
        ensures
            final(self).wf(),
            final(self)@ == clear_colors_model(old(self)@),
    {
        self.colors = PaletteTable::new();
        proof {
            assert(self@ =~~= clear_colors_model(old(self)@));
        }
    }

    /// Invalidates the whole diff state: every dirty bit set, the snapshot
    /// filled with the sentinel no cell ever stores, grids zeroed and the
    /// palette reset. The next render repaints every visible cell.
    pub fn force_clear(&mut self)
        requires
            old(self).wf(),
        ensures
            final(self).wf(),
            final(self)@ == force_clear_model(old(self)@),
    {
        self.old = filled_grid(MAX, MAX, SENTINEL);
        self.pixels = filled_grid(MAX, MAX, 0u16);
        self.z_buffer = filled_grid(MAX, MAX, 0u8);
        self.chars = filled_grid(TERM_ROWS, MAX, ' ');
        self.dirty_rows = filled_vec(DIRTY_WORDS, u64::MAX);
        self.clear_colors();
        proof {
            assert forall|r0: int| 0 <= r0 < TERM_ROWS as int implies dirty_view(
                self.dirty_rows@,
            )[r0] by {
                let b: u64 = (r0 % 64) as u64;
                assert((u64::MAX >> b) & 1 == 1) by (bit_vector)
                    requires
                        b < 64,
                ;
            }
            assert(self@ =~~= force_clear_model(old(self)@));
        }
    }

    /// Records that the process received a terminal-resize notification;
    /// repeated notifications coalesce into the one pending flag.
    pub fn note_resize(&mut self)
        requires
            old(self).wf(),
        ensures
            final(self).wf(),
            final(self)@ == (FrameModel { resize_pending: true, ..old(self)@ }),
    {
        self.resize_pending = true;
        proof {
            assert(self@ =~~= (FrameModel { resize_pending: true, ..old(self)@ }));
        }
    }

    /// The per-tick resize poll: when a notification is pending, adopts the
    /// terminal's current geometry (`rows` doubled for the two pixel rows a
    /// terminal row hosts), forces a full repaint, and clears the flag.
    /// Returns whether anything was pending.
    pub fn update_wsize(&mut self, cols: u16, rows: u16) -> (changed: bool)
        requires
            old(self).wf(),
            cols as int <= MAX as int,
            2 * rows as int <= MAX as int,
        ensures
            final(self).wf(),
            changed == old(self)@.resize_pending,
            final(self)@ == resize_model(old(self)@, cols, rows),
    {
        if self.resize_pending {
            self.resize_pending = false;
            self.width = cols;
            self.height = rows * 2;
            self.force_clear();
            proof {
                assert(self@ =~~= resize_model(old(self)@, cols, rows));
            }
            true
        } else {
            false
        }
    }
}

/// The canvas after the per-tick reset.
pub open spec fn clear_model(m: FrameModel) -> FrameModel {
    FrameModel {
        pixels: const_grid(MAX as int, MAX as int, 0u16),
        depth: const_grid(MAX as int, MAX as int, 0u8),
        chars: const_grid(TERM_ROWS as int, MAX as int, ' '),
        old: m.pixels,
        old_chars: m.chars,
        dirty: Seq::new(TERM_ROWS as nat, |r: int| r < terminal_rows(m) && row_has_content(m, r)),
        ..m
    }
}

/// The canvas after a palette reset.
pub open spec fn clear_colors_model(m: FrameModel) -> FrameModel {
    FrameModel { palette: seq![Color { r: 0, g: 0, b: 0 }], ..m }
}

/// The canvas after a forced clear: grids and palette as after construction,
/// the snapshot poisoned with the sentinel, every dirty bit set, and the
/// glyph snapshot and geometry untouched.
pub open spec fn force_clear_model(m: FrameModel) -> FrameModel {
    FrameModel {
        pixels: const_grid(MAX as int, MAX as int, 0u16),
        depth: const_grid(MAX as int, MAX as int, 0u8),
        chars: const_grid(TERM_ROWS as int, MAX as int, ' '),
        old: const_grid(MAX as int, MAX as int, SENTINEL),
        palette: seq![Color { r: 0, g: 0, b: 0 }],
        dirty: Seq::new(TERM_ROWS as nat, |r: int| true),
        ..m
    }
}

/// The canvas after the per-tick resize poll.
pub open spec fn resize_model(m: FrameModel, cols: u16, rows: u16) -> FrameModel {
    if m.resize_pending {
        force_clear_model(
            FrameModel { width: cols as int, height: 2 * rows as int, resize_pending: false, ..m },
        )
    } else {
        m
    }
}

/// Active terminal rows: the pixel rows, two to a terminal row, rounded up.
pub open spec fn terminal_rows(m: FrameModel) -> int {
    (m.height + 1) / 2
}

/// Whether the cell at terminal row `r`, column `x` holds anything visible.
pub open spec fn cell_has_content(m: FrameModel, r: int, x: int) -> bool {
    m.chars[r][x] != ' ' || m.pixels[2 * r][x] != 0 || m.pixels[2 * r + 1][x] != 0
}

/// Whether anything visible sits in terminal row `r` of the active area.
pub open spec fn row_has_content(m: FrameModel, r: int) -> bool {
    exists|x: int| 0 <= x < m.width && cell_has_content(m, r, x)
}

proof fn lemma_row_content_same(a: FrameModel, b: FrameModel, r: int)
    requires
        a.pixels == b.pixels,
        a.chars == b.chars,
        a.width == b.width,
    ensures
        row_has_content(a, r) == row_has_content(b, r),
{
    if row_has_content(a, r) {
        let x = choose|x: int| 0 <= x < a.width && cell_has_content(a, r, x);
        assert(cell_has_content(b, r, x));
    }
    if row_has_content(b, r) {
        let x = choose|x: int| 0 <= x < b.width && cell_has_content(b, r, x);
        assert(cell_has_content(a, r, x));
    }
}

/// Whether terminal cell `(x, y)` compares equal to the previous-frame
/// snapshot: both palette handles and the glyph match. On an odd final pixel
/// row the bottom half reuses the top handle.
pub open spec fn cell_unchanged(m: FrameModel, x: int, y: int) -> bool {
    let top = m.pixels[2 * y][x];
    let bottom = if 2 * y + 1 < m.height {
        m.pixels[2 * y + 1][x]
    } else {
        top
    };
    let otop = m.old[2 * y][x];
    let obottom = if 2 * y + 1 < m.height {
        m.old[2 * y + 1][x]
    } else {
        otop
    };
    top == otop && bottom == obottom && m.chars[y][x] == m.old_chars[y][x]
}

/// What the diff pass emits for terminal cell `(x, y)`: one cursor-right
/// step when the cell is unchanged; otherwise, per the rule table, glyph
/// cells as foreground-over-background, equal halves as one background-
/// colored blank, and distinct halves as a two-color half block.
pub open spec fn cell_out(m: FrameModel, x: int, y: int) -> Seq<char> {
    if cell_unchanged(m, x, y) {
        escape::move_right_spec(1)
    } else {
        let top = m.pixels[2 * y][x];
        let bottom = if 2 * y + 1 < m.height {
            m.pixels[2 * y + 1][x]
        } else {
            top
        };
        let ct = resolve_spec(m.palette, top);
        let cb = resolve_spec(m.palette, bottom);
        let ch = m.chars[y][x];
        if ch != ' ' {
            escape::sgr_fg_spec(cb.r, cb.g, cb.b) + escape::sgr_bg_spec(ct.r, ct.g, ct.b)
                + seq![ch]
        } else if ct == cb {
            escape::sgr_bg_spec(ct.r, ct.g, ct.b) + seq![' ']
        } else {
            escape::sgr_fg_spec(cb.r, cb.g, cb.b) + escape::sgr_bg_spec(ct.r, ct.g, ct.b)
                + seq!['▄']
        }
    }
}

/// The first `n` cells of row `y`, left to right.
pub open spec fn cells_out(m: FrameModel, y: int, n: int) -> Seq<char>
    decreases n,
{
    if n <= 0 {
        Seq::empty()
    } else {
        cells_out(m, y, n - 1) + cell_out(m, n - 1, y)
    }
}

/// What the diff pass emits for terminal row `y`: nothing unless the row is
/// dirty and visible, else a cursor move to its start followed by its cells.
pub open spec fn row_out(m: FrameModel, y: int) -> Seq<char> {
    if m.dirty[y] && 2 * y < m.height {
        escape::move_to_spec(0 as nat, y as nat) + cells_out(m, y, m.width)
    } else {
        Seq::empty()
    }
}

/// The output of the first `n` terminal rows.
pub open spec fn rows_out(m: FrameModel, n: int) -> Seq<char>
    decreases n,
{
    if n <= 0 {
        Seq::empty()
    } else {
        rows_out(m, n - 1) + row_out(m, n - 1)
    }
}

/// Everything one render pass emits: the row output bracketed by the
/// synchronized-update markers, so a partial frame is never visible.
pub open spec fn render_output(m: FrameModel) -> Seq<char> {
    escape::sync_begin_spec() + rows_out(m, TERM_ROWS as int) + escape::sync_end_spec()
}

/// The canvas after a render pass: only the dirty mask changes, to clean.
pub open spec fn render_post(m: FrameModel) -> FrameModel {
    FrameModel { dirty: Seq::new(TERM_ROWS as nat, |r: int| false), ..m }
}

proof fn lemma_rows_out_clean_range(m: FrameModel, lo: int, hi: int)
    requires
        0 <= lo <= hi,
        forall|r: int| lo <= r < hi ==> !m.dirty[r],
    ensures
        rows_out(m, hi) == rows_out(m, lo),
    decreases hi,
{
    if hi > lo {
        lemma_rows_out_clean_range(m, lo, hi - 1);
        assert(rows_out(m, hi) =~= rows_out(m, lo));
    }
}

impl Rael {
    /// Emits the diff output of one terminal cell: a cursor-right step when
    /// it matches the snapshot, else its colors and glyph per the rule table.
    fn emit_cell(&self, out: &mut String, x: usize, y: usize)
        requires
            self.wf(),
            x < self@.width,
            y < TERM_ROWS,
            2 * y < self@.height,
        ensures
            final(out)@ == old(out)@ + cell_out(self@, x as int, y as int),
    {
        let render_y = 2 * y;
        let top = self.pixels[render_y][x];
        let bottom = if render_y + 1 < self.height as usize {
            self.pixels[render_y + 1][x]
        } else {
            top
        };
        let otop = self.old[render_y][x];
        let obottom = if render_y + 1 < self.height as usize {
            self.old[render_y + 1][x]
        } else {
            otop
        };
        let ch = self.chars[y][x];
        let och = self.old_chars[y][x];
        if top == otop && bottom == obottom && ch == och {
            escape::push_move_right(out, 1);
        } else {
            let ct = self.colors.resolve(top);
            let cb = self.colors.resolve(bottom);
            if ch != ' ' {
                escape::push_sgr_fg(out, cb.r, cb.g, cb.b);
                escape::push_sgr_bg(out, ct.r, ct.g, ct.b);
                escape::push_char(out, ch);
            } else if ct == cb {
                escape::push_sgr_bg(out, ct.r, ct.g, ct.b);
                proof {
                    reveal_strlit(" ");
                }
                out.append(" ");
            } else {
                escape::push_sgr_fg(out, cb.r, cb.g, cb.b);
                escape::push_sgr_bg(out, ct.r, ct.g, ct.b);
                proof {
                    reveal_strlit("▄");
                }
                out.append("▄");
            }
            proof {
                assert(out@ =~= old(out)@ + cell_out(self@, x as int, y as int));
            }
        }
    }

    /// The diff pass: walks only the dirty terminal rows within the active
    /// height, compares each cell against the previous-frame snapshot, and
    /// emits escape sequences only for the cells that changed, all inside
    /// one synchronized update. Afterwards the whole dirty mask is clean.
    /// The caller owns writing the returned bytes to the terminal.
    pub fn render(&mut self) -> (out: String)
        requires
            old(self).wf(),
        ensures
            final(self).wf(),
            out@ == render_output(old(self)@),
            final(self)@ == render_post(old(self)@),
    {
        let ghost m = self@;
        let mut out = String::new();
        escape::push_sync_begin(&mut out);
        proof {
            assert(out@ =~= escape::sync_begin_spec() + rows_out(m, 0));
        }
        for bucket in 0..DIRTY_WORDS
            invariant
                self.wf(),
                self@ == m,
                out@ == escape::sync_begin_spec() + rows_out(m, 64 * bucket as int),
        {
            let w = self.dirty_rows[bucket];
            if w == 0 {
                proof {
                    assert forall|r: int|
                        64 * bucket as int <= r < 64 * bucket as int + 64 implies !m.dirty[r] by {
                        assert(r / 64 == bucket as int && r % 64 == r - 64 * bucket as int)
                            by (nonlinear_arith)
                            requires
                                64 * bucket as int <= r < 64 * bucket as int + 64,
                        ;
                        let b: u64 = (r % 64) as u64;
                        assert((0u64 >> b) & 1 == 0) by (bit_vector);
                    }
                    lemma_rows_out_clean_range(m, 64 * bucket as int, 64 * bucket as int + 64);
                }
            } else {
                // walk the word by its lowest set bit, skipping clean rows
                let mut j: usize = 0;
                while j < 64
                    invariant
                        self.wf(),
                        self@ == m,
                        bucket < DIRTY_WORDS,
                        w == self.dirty_rows@[bucket as int],
                        j <= 64,
                        out@ == escape::sync_begin_spec() + rows_out(
                            m,
                            64 * bucket as int + j as int,
                        ),
                    decreases 64 - j,
                {
                    let rest = w >> (j as u64);
                    if rest == 0 {
                        proof {
                            assert forall|r: int|
                                64 * bucket as int + j as int <= r < 64 * bucket as int
                                    + 64 implies !m.dirty[r] by {
                                assert(r / 64 == bucket as int && r % 64 == r - 64 * bucket as int)
                                    by (nonlinear_arith)
                                    requires
                                        64 * bucket as int <= r < 64 * bucket as int + 64,
                                ;
                                let rb: u64 = (r % 64) as u64;
                                let jb: u64 = j as u64;
                                assert(w >> jb == 0 && jb <= rb < 64 ==> (w >> rb) & 1 == 0)
                                    by (bit_vector);
                            }
                            lemma_rows_out_clean_range(
                                m,
                                64 * bucket as int + j as int,
                                64 * bucket as int + 64,
                            );
                        }
                        j = 64;
                    } else {
                        let t = rest.trailing_zeros() as usize;
                        let ghost jb: u64 = j as u64;
                        let ghost tb: u64 = t as u64;
                        proof {
                            vstd::std_specs::bits::axiom_u64_trailing_zeros(rest);
                            assert(((w >> jb) >> tb) & 1 == 1 && jb < 64 ==> jb + tb < 64 && (w
                                >> ((jb + tb) as u64)) & 1 == 1) by (bit_vector);
                            assert forall|r: int|
                                64 * bucket as int + j as int <= r < 64 * bucket as int + j as int
                                    + t as int implies !m.dirty[r] by {
                                assert(r / 64 == bucket as int && r % 64 == r - 64 * bucket as int)
                                    by (nonlinear_arith)
                                    requires
                                        64 * bucket as int <= r < 64 * bucket as int + 64,
                                ;
                                let rb: u64 = (r % 64) as u64;
                                let ob: u64 = (rb - jb) as u64;
                                assert((rest >> ob) & 1 == 0);
                                assert(jb + ob < 64 ==> ((w >> jb) >> ob) & 1 == (w >> ((jb
                                    + ob) as u64)) & 1) by (bit_vector);
                            }
                            lemma_rows_out_clean_range(
                                m,
                                64 * bucket as int + j as int,
                                64 * bucket as int + j as int + t as int,
                            );
                        }
                        let y = bucket * 64 + j + t;
                        proof {
                            assert(y as int / 64 == bucket as int && y as int % 64 == j as int
                                + t as int) by (nonlinear_arith)
                                requires
                                    y as int == 64 * (bucket as int) + (j as int) + (t as int),
                                    0 <= (j as int) + (t as int) && (j as int) + (t as int) < 64,
                            ;
                            assert(m.dirty[y as int]);
                        }
                        let render_y = 2 * y;
                        if render_y < self.height as usize {
                            escape::push_move_to(&mut out, 0, y as u16);
                            let ghost row_prefix = out@;
                            proof {
                                assert(cells_out(m, y as int, 0) =~= Seq::<char>::empty());
                                assert(out@ =~= row_prefix + cells_out(m, y as int, 0));
                            }
                            let wcols = self.width as usize;
                            for x in 0..wcols
                                invariant
                                    self.wf(),
                                    self@ == m,
                                    y < TERM_ROWS,
                                    render_y == 2 * y,
                                    render_y < self@.height,
                                    wcols == self@.width,
                                    out@ == row_prefix + cells_out(m, y as int, x as int),
                            {
                                self.emit_cell(&mut out, x, y);
                                proof {
                                    assert(out@ =~= row_prefix + cells_out(
                                        m,
                                        y as int,
                                        x as int + 1,
                                    ));
                                }
                            }
                            proof {
                                assert(out@ =~= escape::sync_begin_spec() + rows_out(
                                    m,
                                    y as int + 1,
                                ));
                            }
                        } else {
                            proof {
                                assert(out@ =~= escape::sync_begin_spec() + rows_out(
                                    m,
                                    y as int + 1,
                                ));
                            }
                        }
                        j = j + t + 1;
                    }
                }
            }
        }
        escape::push_sync_end(&mut out);
        self.dirty_rows = filled_vec(DIRTY_WORDS, 0u64);
        proof {
            assert forall|r0: int| 0 <= r0 < TERM_ROWS as int implies !dirty_view(
                self.dirty_rows@,
            )[r0] by {
                let b: u64 = (r0 % 64) as u64;
                assert((0u64 >> b) & 1 == 0) by (bit_vector);
            }
            assert(self@ =~~= render_post(m));
            assert(out@ =~= render_output(m));
        }
        out
    }
}

/// Idempotence law: right after any render pass — in particular after a
/// `clear` followed by one `render` with no draws in between — a second
/// render emits only the synchronized-update wrapper: no cursor moves, no
/// colors, no glyphs.
pub proof fn lemma_second_render_quiet(m: FrameModel)
    ensures
        render_output(render_post(m)) == escape::sync_begin_spec() + escape::sync_end_spec(),
{
    let m1 = render_post(m);
    lemma_rows_out_clean_range(m1, 0, TERM_ROWS as int);
    assert(render_output(m1) =~= escape::sync_begin_spec() + escape::sync_end_spec());
}

/// Diff law: an unchanged cell produces exactly one cursor-right step and
/// never a color sequence; a changed cell produces exactly the sequence of
/// its rule-table case.
pub proof fn lemma_diff_cell_rules(m: FrameModel, x: int, y: int)
    ensures
        cell_unchanged(m, x, y) ==> cell_out(m, x, y) == escape::move_right_spec(1),
        ({
            let top = m.pixels[2 * y][x];
            let bottom = if 2 * y + 1 < m.height {
                m.pixels[2 * y + 1][x]
            } else {
                top
            };
            let ct = resolve_spec(m.palette, top);
            let cb = resolve_spec(m.palette, bottom);
            let ch = m.chars[y][x];
            &&& (!cell_unchanged(m, x, y) && ch != ' ' ==> cell_out(m, x, y) == escape::sgr_fg_spec(
                cb.r,
                cb.g,
                cb.b,
            ) + escape::sgr_bg_spec(ct.r, ct.g, ct.b) + seq![ch])
            &&& (!cell_unchanged(m, x, y) && ch == ' ' && ct == cb ==> cell_out(m, x, y)
                == escape::sgr_bg_spec(ct.r, ct.g, ct.b) + seq![' '])
            &&& (!cell_unchanged(m, x, y) && ch == ' ' && ct != cb ==> cell_out(m, x, y)
                == escape::sgr_fg_spec(cb.r, cb.g, cb.b) + escape::sgr_bg_spec(ct.r, ct.g, ct.b)
                + seq!['▄'])
        }),
{
}

/// Drawing never touches the previous-frame snapshot: only `clear` replaces
/// it, and only a forced clear poisons it.
pub proof fn lemma_draw_preserves_snapshot(
    m: FrameModel,
    x: int,
    y: int,
    z: u8,
    bg: Color,
    fg: Color,
    glyph: char,
)
    ensures
        set_pixel_model(m, x, y, z, bg).old == m.old,
        set_pixel_model(m, x, y, z, bg).old_chars == m.old_chars,
        set_text_model(m, x, y, z, bg, fg, glyph).old == m.old,
        set_text_model(m, x, y, z, bg, fg, glyph).old_chars == m.old_chars,
{
}

/// While the previous-frame snapshot holds the sentinel — as it does from a
/// forced clear until the next `clear` — no visible cell compares as
/// unchanged, whatever has been drawn since: cells only ever store handles
/// below the sentinel, and drawing never touches the snapshot.
pub proof fn lemma_sentinel_never_matches(m: FrameModel, x: int, y: int)
    requires
        model_wf(m),
        m.old == const_grid(MAX as int, MAX as int, SENTINEL),
        0 <= x < MAX as int,
        0 <= y < TERM_ROWS as int,
    ensures
        !cell_unchanged(m, x, y),
{
    assert(m.old[2 * y][x] == SENTINEL);
    assert(m.pixels[2 * y][x] < SENTINEL);
}

/// Force-clear law: afterwards every terminal row is dirty and no visible
/// cell matches the snapshot, so the next render repaints every visible
/// cell regardless of the prior frame's content.
pub proof fn lemma_force_clear_repaints(m: FrameModel, x: int, y: int)
    requires
        model_wf(m),
        0 <= x < MAX as int,
        0 <= y < TERM_ROWS as int,
    ensures
        force_clear_model(m).dirty[y],
        !cell_unchanged(force_clear_model(m), x, y),
{
    let f = force_clear_model(m);
    assert(f.old[2 * y][x] == SENTINEL);
    assert(f.pixels[2 * y][x] == 0u16);
}

/// Resize law: polling a pending resize adopts the new geometry, clears the
/// flag, and forces a full repaint — every row dirty and the snapshot unable
/// to match any cell.
pub proof fn lemma_resize_forces_repaint(m: FrameModel, cols: u16, rows: u16)
    requires
        m.resize_pending,
    ensures
        resize_model(m, cols, rows).width == cols as int,
        resize_model(m, cols, rows).height == 2 * rows as int,
        !resize_model(m, cols, rows).resize_pending,
        forall|r: int| 0 <= r < TERM_ROWS as int ==> resize_model(m, cols, rows).dirty[r],
        resize_model(m, cols, rows).old == const_grid(MAX as int, MAX as int, SENTINEL),
{
}

/// The canvas after a glyph write at terminal cell `(x, y/2)`: `y` rounds
/// down to an even pixel row, the write is depth-tested against that row,
/// and on success the background color lands on the top pixel row, the
/// foreground on the bottom one, and the glyph in the cell.
pub open spec fn set_text_model(
    m: FrameModel,
    x: int,
    y: int,
    z: u8,
    bg: Color,
    fg: Color,
    glyph: char,
) -> FrameModel {
    let ye = y - y % 2;
    if m.depth[ye][x] <= z {
        let hbg = intern_handle(m.palette, bg);
        let p1 = intern_entries(m.palette, bg);
        let hfg = intern_handle(p1, fg);
        FrameModel {
            pixels: m.pixels.update(ye, m.pixels[ye].update(x, hbg)).update(
                ye + 1,
                m.pixels[ye + 1].update(x, hfg),
            ),
            depth: m.depth.update(ye, m.depth[ye].update(x, z)),
            chars: m.chars.update(ye / 2, m.chars[ye / 2].update(x, glyph)),
            palette: intern_entries(p1, fg),
            dirty: m.dirty.update(ye / 2, true),
            ..m
        }
    } else {
        m
    }
}

/// A fixed-size indexed bitmap: a grid of palette indices plus a local
/// palette whose last slot is read as transparent.
pub struct ImageAsset {
    pub width: usize,
    pub height: usize,
    pub pixels: Vec<Vec<u16>>,
    pub colors: Vec<Color>,
}

/// Ghost description of an image asset.
#[verifier::ext_equal]
pub ghost struct ImageModel {
    pub width: int,
    pub height: int,
    pub pixels: Seq<Seq<u16>>,
    pub colors: Seq<Color>,
}

impl View for ImageAsset {
    type V = ImageModel;

    closed spec fn view(&self) -> ImageModel {
        ImageModel {
            width: self.width as int,
            height: self.height as int,
            pixels: grid_view(self.pixels),
            colors: self.colors@,
        }
    }
}

/// The index grid matches the declared size and the palette is nonempty, so
/// its last slot can serve as the transparent marker.
pub open spec fn image_wf(img: ImageModel) -> bool {
    &&& img.pixels.len() == img.height
    &&& (forall|y: int| 0 <= y < img.height ==> (#[trigger] img.pixels[y]).len() == img.width)
    &&& img.colors.len() >= 1
}

impl ImageAsset {
    pub fn new(width: usize, height: usize, pixels: Vec<Vec<u16>>, colors: Vec<Color>) -> (img:
        ImageAsset)
        requires
            pixels@.len() == height as int,
            forall|y: int| 0 <= y < height as int ==> (#[trigger] pixels@[y])@.len() == width as int,
            colors@.len() >= 1,
        ensures
            img@ == (ImageModel {
                width: width as int,
                height: height as int,
                pixels: grid_view(pixels),
                colors: colors@,
            }),
            image_wf(img@),
    {
        let img = ImageAsset { width, height, pixels, colors };
        proof {
            assert(img@ =~~= (ImageModel {
                width: width as int,
                height: height as int,
                pixels: grid_view(img.pixels),
                colors: img.colors@,
            }));
        }
        img
    }
}

/// One source pixel forwarded to the canvas: skipped when it falls off the
/// canvas or references the transparent (last or out-of-range) palette slot.
pub open spec fn blit_cell(
    m: FrameModel,
    img: ImageModel,
    ox: int,
    oy: int,
    z: u8,
    x: int,
    y: int,
) -> FrameModel {
    let tx = ox + x;
    let ty = oy + y;
    let idx = img.pixels[y][x] as int;
    if tx < MAX as int && ty < MAX as int && idx < img.colors.len() - 1 {
        set_pixel_model(m, tx, ty, z, img.colors[idx])
    } else {
        m
    }
}

/// The first `n` source columns of row `y`, blitted left to right.
pub open spec fn blit_cols(
    m: FrameModel,
    img: ImageModel,
    ox: int,
    oy: int,
    z: u8,
    y: int,
    n: int,
) -> FrameModel
    decreases n,
{
    if n <= 0 {
        m
    } else {
        blit_cell(blit_cols(m, img, ox, oy, z, y, n - 1), img, ox, oy, z, n - 1, y)
    }
}

/// The first `n` source rows, blitted top to bottom.
pub open spec fn blit_rows(
    m: FrameModel,
    img: ImageModel,
    ox: int,
    oy: int,
    z: u8,
    n: int,
) -> FrameModel
    decreases n,
{
    if n <= 0 {
        m
    } else {
        blit_cols(blit_rows(m, img, ox, oy, z, n - 1), img, ox, oy, z, n - 1, img.width)
    }
}

/// The canvas after blitting the whole image at `(ox, oy)` with depth `z`.
pub open spec fn set_image_model(
    m: FrameModel,
    img: ImageModel,
    ox: int,
    oy: int,
    z: u8,
) -> FrameModel {
    blit_rows(m, img, ox, oy, z, img.height)
}

proof fn lemma_blit_cols_clipped(
    m: FrameModel,
    img: ImageModel,
    ox: int,
    oy: int,
    z: u8,
    y: int,
    k: int,
    n: int,
)
    requires
        0 <= k <= n,
        ox + k >= MAX as int || oy + y >= MAX as int,
    ensures
        blit_cols(m, img, ox, oy, z, y, n) == blit_cols(m, img, ox, oy, z, y, k),
    decreases n,
{
    if n > k {
        lemma_blit_cols_clipped(m, img, ox, oy, z, y, k, n - 1);
    }
}

proof fn lemma_blit_rows_clipped(
    m: FrameModel,
    img: ImageModel,
    ox: int,
    oy: int,
    z: u8,
    k: int,
    n: int,
)
    requires
        0 <= k <= n,
        oy + k >= MAX as int,
    ensures
        blit_rows(m, img, ox, oy, z, n) == blit_rows(m, img, ox, oy, z, k),
    decreases n,
{
    if n > k {
        lemma_blit_rows_clipped(m, img, ox, oy, z, k, n - 1);
        if img.width >= 0 {
            lemma_blit_cols_clipped(
                blit_rows(m, img, ox, oy, z, n - 1),
                img,
                ox,
                oy,
                z,
                n - 1,
                0,
                img.width,
            );
        }
    }
}

/// Depth test law: writing at depth `z1` and then at `z2 >= z1` leaves the
/// second color stored, whatever the two colors are — later writes at equal
/// depth win. The cell's prior depth must not already exceed `z2`, or both
/// writes are invisible.
pub proof fn lemma_depth_test_last_write_wins(m: FrameModel, x: int, y: int, z1: u8, z2: u8, c1: Color, c2: Color)
    requires
        model_wf(m),
        0 <= x < MAX as int,
        0 <= y < MAX as int,
        z1 <= z2,
        m.depth[y][x] <= z2,
        palette_has_room(intern_entries(m.palette, c1), c2),
    ensures
        ({
            let m2 = set_pixel_model(set_pixel_model(m, x, y, z1, c1), x, y, z2, c2);
            resolve_spec(m2.palette, m2.pixels[y][x]) == c2 && m2.depth[y][x] == z2
        }),
{
    let m1 = set_pixel_model(m, x, y, z1, c1);
    let p1 = intern_entries(m.palette, c1);
    lemma_palette_find_props(m.palette, c1);
    lemma_palette_find_props(m.palette, c2);
    lemma_palette_find_props(p1, c2);
    if m.depth[y][x] <= z1 {
        assert(m1.depth[y][x] == z1);
        assert(m1.palette == p1);
        match palette_find(p1, c2) {
            Some(i) => {
                assert(p1[i] == c2);
            },
            None => {
                assert(p1.len() < HANDLE_LIMIT as int);
                assert(p1.push(c2)[p1.len() as int] == c2);
            },
        }
    } else {
        assert(m1 =~~= m);
        match palette_find(m.palette, c2) {
            Some(i) => {
                assert(m.palette[i] == c2);
            },
            None => {
                assert(m.palette.len() < HANDLE_LIMIT as int) by {
                    if palette_find(p1, c2) is Some {
                        let i = palette_find(p1, c2)->Some_0;
                        assert(p1[i] == c2);
                        if palette_find(m.palette, c1) is Some || m.palette.len()
                            >= HANDLE_LIMIT as int {
                            assert(p1 == m.palette);
                        } else {
                            assert(p1 == m.palette.push(c1));
                        }
                    }
                }
                assert(m.palette.push(c2)[m.palette.len() as int] == c2);
            },
        }
    }
}

/// The palette can still answer for `c`: either it already holds `c` or it
/// has a free slot.
pub open spec fn palette_has_room(s: Seq<Color>, c: Color) -> bool {
    palette_find(s, c) is Some || s.len() < HANDLE_LIMIT as int
}

} // verus!
