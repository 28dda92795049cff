//! A compact, self-contained screen: one byte of palette handle per pixel, a
//! depth buffer packed two 4-bit entries to a byte with depths clamped to 15,
//! a linear-scan palette of at most 256 colors, and a full-pass renderer that
//! repositions the cursor for every cell and emits colors only for cells that
//! differ from a previous snapshot. Unlike the main canvas it keeps no dirty
//! mask; diffing is driven entirely by the snapshot handed to `render`.

use crate::escape;
use crate::rael::lemma_palette_find_props;
use crate::rael::palette_find;
use crate::rael::MAX;
use vstd::prelude::*;
use vstd::string::StringExecFns;

verus! {

/// The most colors the one-byte handles can address.
pub const SCREEN_COLORS: usize = 256;

/// Depths are stored in 4 bits, so writes clamp to this.
pub const DEPTH_CLAMP: u8 = 15;

/// A 24-bit color.
#[derive(Debug, PartialEq, Eq, Structural, Copy, Clone)]
pub struct Color {
    r: u8,
    g: u8,
    b: u8,
}

impl Color {
    /// The channels, for specification only: the fields stay private.
    pub closed spec fn rgb(&self) -> (u8, u8, u8) {
        (self.r, self.g, self.b)
    }

    pub fn new(r: u8, g: u8, b: u8) -> (c: Color)
        ensures
            c.rgb() == (r, g, b),
    {
        Color { r, g, b }
    }
}

/// One cell: the index of its color in the screen's palette.
#[derive(Clone, Copy, Debug, PartialEq, Eq, Structural)]
pub struct Pixel {
    pub value: u8,
}

impl Pixel {
    pub fn new(color_index: u8) -> (p: Pixel)
        ensures
            p.value == color_index,
    {
        Pixel { value: color_index }
    }
}

/// The depth stored for `(x, y)`: the high nibble of its byte for even
/// columns, the low nibble for odd ones.
pub open spec fn depth_at(z: Seq<Seq<u8>>, x: int, y: int) -> u8 {
    if x % 2 == 1 {
        z[y][x / 2] & 0x0f
    } else {
        z[y][x / 2] >> 4
    }
}

/// The byte after writing depth `z` into the nibble column `x` owns, leaving
/// its neighbor's nibble alone.
pub open spec fn set_depth_byte(b: u8, x: int, z: u8) -> u8 {
    if x % 2 == 1 {
        (b & 0xf0) | z
    } else {
        (b & 0x0f) | (z << 4)
    }
}

/// The pixel values of a grid, row by row.
pub open spec fn pixel_values(g: Vec<Vec<Pixel>>) -> Seq<Seq<u8>> {
    g@.map_values(|r: Vec<Pixel>| r@.map_values(|p: Pixel| p.value))
}

/// Ghost description of the screen.
#[verifier::ext_equal]
pub ghost struct ScreenModel {
    /// Palette handle per pixel.
    pub pixels: Seq<Seq<u8>>,
    /// The palette; index is the handle.
    pub colors: Seq<Color>,
    /// The packed depth bytes, `MAX/2` per row.
    pub z_buffer: Seq<Seq<u8>>,
}

/// A fixed-size pixel grid with its palette and packed depth buffer.
#[derive(Debug)]
pub struct Screen {
    pub pixels: Vec<Vec<Pixel>>,
    pub colors: Vec<Color>,
    pub z_buffer: Vec<Vec<u8>>,
}

/// The previous frame a render pass diffs against: just the pixel grid.
#[derive(Debug)]
pub struct OldScreen {
    pub pixels: Vec<Vec<Pixel>>,
}

impl View for Screen {
    type V = ScreenModel;

    open spec fn view(&self) -> ScreenModel {
        ScreenModel {
            pixels: pixel_values(self.pixels),
            colors: self.colors@,
            z_buffer: self.z_buffer@.map_values(|r: Vec<u8>| r@),
        }
    }
}

impl View for OldScreen {
    type V = Seq<Seq<u8>>;

    open spec fn view(&self) -> Seq<Seq<u8>> {
        pixel_values(self.pixels)
    }
}

/// Shape and range facts every reachable screen satisfies: full-size grids,
/// a nonempty palette within the one-byte handle space, and every stored
/// handle backed by a palette entry.
pub open spec fn screen_wf(m: ScreenModel) -> bool {
    &&& m.pixels.len() == MAX as int
    &&& (forall|y: int| 0 <= y < MAX as int ==> (#[trigger] m.pixels[y]).len() == MAX as int)
    &&& m.z_buffer.len() == MAX as int
    &&& (forall|y: int|
        0 <= y < MAX as int ==> (#[trigger] m.z_buffer[y]).len() == MAX as int / 2)
    &&& 1 <= m.colors.len() <= SCREEN_COLORS as int
    &&& (forall|y: int, x: int|
        0 <= y < MAX as int && 0 <= x < MAX as int ==> ((#[trigger] m.pixels[y][x]) as int)
            < m.colors.len())
}

/// The palette after interning: unchanged when the color is present or the
/// palette is full, extended otherwise.
pub open spec fn screen_intern_entries(s: Seq<Color>, c: Color) -> Seq<Color> {
    if palette_find(s, c) is Some {
        s
    } else if s.len() < SCREEN_COLORS as int {
        s.push(c)
    } else {
        s
    }
}

/// The handle interning returns: the first matching entry, else the new
/// entry's index, else handle 0 when the palette is full.
pub open spec fn screen_intern_handle(s: Seq<Color>, c: Color) -> u8 {
    match palette_find(s, c) {
        Some(i) => i as u8,
        None => if s.len() < SCREEN_COLORS as int {
            s.len() as u8
        } else {
            0
        },
    }
}

/// The screen after a depth-tested write: the depth clamps to the nibble
/// range, and when it is at least the stored depth the interned handle and
/// the clamped depth land in the cell's slots.
pub open spec fn screen_set_pixel(m: ScreenModel, x: int, y: int, z: u8, c: Color) -> ScreenModel {
    let zc = if z >= 16 {
        DEPTH_CLAMP
    } else {
        z
    };
    if depth_at(m.z_buffer, x, y) <= zc {
        ScreenModel {
            pixels: m.pixels.update(y, m.pixels[y].update(x, screen_intern_handle(m.colors, c))),
            colors: screen_intern_entries(m.colors, c),
            z_buffer: m.z_buffer.update(
                y,
                m.z_buffer[y].update(x / 2, set_depth_byte(m.z_buffer[y][x / 2], x, zc)),
            ),
        }
    } else {
        m
    }
}

fn filled_pixel_row(n: usize) -> (r: Vec<Pixel>)
    ensures
        r@.map_values(|p: Pixel| p.value) == Seq::new(n as nat, |i: int| 0u8),
        r@.len() == n as int,
{
    let mut r: Vec<Pixel> = Vec::new();
    for k in 0..n
        invariant
            r@.len() == k,
            forall|i: int| 0 <= i < k ==> (#[trigger] r@[i]).value == 0u8,
    {
        r.push(Pixel { value: 0 });
    }
    proof {
        assert(r@.map_values(|p: Pixel| p.value) =~= Seq::new(n as nat, |i: int| 0u8));
    }
    r
}

fn filled_pixel_grid(rows: usize, cols: usize) -> (g: Vec<Vec<Pixel>>)
    ensures
        pixel_values(g) == Seq::new(rows as nat, |y: int| Seq::new(cols as nat, |i: int| 0u8)),
        g@.len() == rows as int,
        forall|y: int| 0 <= y < rows as int ==> (#[trigger] g@[y])@.len() == cols as int,
{
    let mut g: Vec<Vec<Pixel>> = Vec::new();
    for k in 0..rows
        invariant
            g@.len() == k,
            forall|y: int|
                0 <= y < k ==> (#[trigger] g@[y])@.map_values(|p: Pixel| p.value) == Seq::new(
                    cols as nat,
                    |i: int| 0u8,
                ),
            forall|y: int| 0 <= y < k ==> (#[trigger] g@[y])@.len() == cols as int,
    {
        g.push(filled_pixel_row(cols));
    }
    proof {
        assert(pixel_values(g) =~~= Seq::new(
            rows as nat,
            |y: int| Seq::new(cols as nat, |i: int| 0u8),
        ));
    }
    g
}

fn filled_byte_row(n: usize) -> (r: Vec<u8>)
    ensures
        r@ == Seq::new(n as nat, |i: int| 0u8),
{
    let mut r: Vec<u8> = Vec::new();
    for k in 0..n
        invariant
            r@.len() == k,
            forall|i: int| 0 <= i < k ==> r@[i] == 0u8,
    {
        r.push(0);
    }
    proof {
        assert(r@ =~= Seq::new(n as nat, |i: int| 0u8));
    }
    r
}

fn filled_byte_grid(rows: usize, cols: usize) -> (g: Vec<Vec<u8>>)
    ensures
        g@.map_values(|r: Vec<u8>| r@) == Seq::new(
            rows as nat,
            |y: int| Seq::new(cols as nat, |i: int| 0u8),
        ),
        g@.len() == rows as int,
{
    let mut g: Vec<Vec<u8>> = Vec::new();
    for k in 0..rows
        invariant
            g@.len() == k,
            forall|y: int| 0 <= y < k ==> (#[trigger] g@[y])@ == Seq::new(cols as nat, |i: int| 0u8),
    {
        g.push(filled_byte_row(cols));
    }
    proof {
        assert(g@.map_values(|r: Vec<u8>| r@) =~~= Seq::new(
            rows as nat,
            |y: int| Seq::new(cols as nat, |i: int| 0u8),
        ));
    }
    g
}

impl Screen {
    /// An empty screen: background handles, a black-only palette, all depths
    /// zero.
    pub fn new() -> (s: Screen)
        ensures
            screen_wf(s@),
            s@.pixels == Seq::new(MAX as nat, |y: int| Seq::new(MAX as nat, |i: int| 0u8)),
            s@.colors.len() == 1,
            s@.colors[0].rgb() == (0u8, 0u8, 0u8),
            s@.z_buffer == Seq::new(MAX as nat, |y: int| Seq::new((MAX / 2) as nat, |i: int| 0u8)),
    {
        let mut colors: Vec<Color> = Vec::new();
        colors.push(Color { r: 0, g: 0, b: 0 });
        let s = Screen {
            pixels: filled_pixel_grid(MAX, MAX),
            colors,
            z_buffer: filled_byte_grid(MAX, MAX / 2),
        };
        s
    }

    /// Returns the handle of `color`, scanning the palette front to back and
    /// appending when it is new and the palette has room; a full palette
    /// falls back to the background handle.
    pub fn get_or_insert_color(&mut self, color: Color) -> (h: u8)
        requires
            old(self)@.colors.len() <= SCREEN_COLORS as int,
        ensures
            final(self)@.colors == screen_intern_entries(old(self)@.colors, color),
            h == screen_intern_handle(old(self)@.colors, color),
            final(self).pixels == old(self).pixels,
            final(self).z_buffer == old(self).z_buffer,
    {
        proof {
            lemma_palette_find_props(self@.colors, color);
        }
        let n = self.colors.len();
        for i in 0..n
            invariant
                n == self.colors@.len(),
                forall|j: int| 0 <= j < i ==> self.colors@[j] != color,
        {
            if self.colors[i] == color {
                proof {
                    lemma_palette_find_props(self@.colors, color);
                    assert(palette_find(self@.colors, color) == Some(i as int));
                }
                return i as u8;
            }
        }
        if n < SCREEN_COLORS {
            self.colors.push(color);
            n as u8
        } else {
            0
        }
    }

    /// Writes one pixel under the packed depth test: the depth clamps to 15,
    /// and a write at least as deep as the stored nibble lands — later
    /// writes at equal depth win. The neighboring column's nibble is
    /// untouched.
    pub fn set_pixel(&mut self, x: usize, y: usize, z: u8, color: Color)
        requires
            screen_wf(old(self)@),
            x < MAX,
            y < MAX,
        ensures
            screen_wf(final(self)@),
            final(self)@ == screen_set_pixel(old(self)@, x as int, y as int, z, color),
    {
        let z = if z >= 16 {
            DEPTH_CLAMP
        } else {
            z
        };
        proof {
            assert(self@.z_buffer[y as int] == self.z_buffer@[y as int]@);
            assert(self@.pixels[y as int] == self.pixels@[y as int]@.map_values(
                |p: Pixel| p.value,
            ));
        }
        let zbyte = self.z_buffer[y][x / 2];
        let current_z: u8 = if x % 2 == 1 {
            zbyte & 0x0f
        } else {
            zbyte >> 4
        };
        proof {
            assert(current_z == depth_at(old(self)@.z_buffer, x as int, y as int));
        }
        if current_z > z {
            // the cell already shows something nearer; this write is hidden
            proof {
                assert(self@ =~~= screen_set_pixel(old(self)@, x as int, y as int, z, color));
            }
        } else {
            proof {
                lemma_palette_find_props(self@.colors, color);
            }
            let h = self.get_or_insert_color(color);
            let mut prow: Vec<Pixel> = Vec::new();
            self.pixels.set_and_swap(y, &mut prow);
            prow.set(x, Pixel { value: h });
            self.pixels.set_and_swap(y, &mut prow);
            let mut zrow: Vec<u8> = Vec::new();
            self.z_buffer.set_and_swap(y, &mut zrow);
            let newbyte = if x % 2 == 1 {
                (zbyte & 0xf0) | z
            } else {
                (zbyte & 0x0f) | (z << 4)
            };
            zrow.set(x / 2, newbyte);
            self.z_buffer.set_and_swap(y, &mut zrow);
            proof {
                assert(newbyte == set_depth_byte(zbyte, x as int, z));
                assert(self@.pixels =~~= old(self)@.pixels.update(
                    y as int,
                    old(self)@.pixels[y as int].update(
                        x as int,
                        screen_intern_handle(old(self)@.colors, color),
                    ),
                ));
                assert(self@.z_buffer =~~= old(self)@.z_buffer.update(
                    y as int,
                    old(self)@.z_buffer[y as int].update(
                        x as int / 2,
                        set_depth_byte(old(self)@.z_buffer[y as int][x as int / 2], x as int, z),
                    ),
                ));
                assert(self@ =~~= screen_set_pixel(old(self)@, x as int, y as int, z, color));
            }
        }
    }

    /// The per-frame reset: hands back the pixel grid as the snapshot to
    /// diff the next frame against, and zeroes the pixel and depth grids.
    /// The palette is kept.
    pub fn clear(&mut self) -> (snap: Option<OldScreen>)
        requires
            screen_wf(old(self)@),
        ensures
            screen_wf(final(self)@),
            snap matches Some(o) && o@ == old(self)@.pixels,
            final(self)@.pixels == Seq::new(MAX as nat, |y: int| Seq::new(MAX as nat, |i: int| 0u8)),
            final(self)@.z_buffer == Seq::new(
                MAX as nat,
                |y: int| Seq::new((MAX / 2) as nat, |i: int| 0u8),
            ),
            final(self)@.colors == old(self)@.colors,
    {
        let mut fresh = filled_pixel_grid(MAX, MAX);
        core::mem::swap(&mut self.pixels, &mut fresh);
        self.z_buffer = filled_byte_grid(MAX, MAX / 2);
        Some(OldScreen { pixels: fresh })
    }

    /// Emits the full-pass output of one cell: the cursor move, then the
    /// snapshot comparison and, when the cell must be painted, its colors.
    fn emit_cell(&self, out: &mut String, snap: &Option<OldScreen>, h: usize, x: usize, ty: usize)
        requires
            screen_wf(self@),
            snap matches Some(o) ==> snap_wf(o@),
            h <= MAX,
            x < MAX,
            2 * ty < h,
        ensures
            final(out)@ == old(out)@ + screen_cell_out(
                self@,
                h as int,
                snap_view(snap),
                x as int,
                ty as int,
            ),
    {
        let ghost m = self@;
        let y = 2 * ty;
        proof {
            assert(m.pixels[y as int] == self.pixels@[y as int]@.map_values(|p: Pixel| p.value));
            if y + 1 < h {
                assert(m.pixels[y as int + 1] == self.pixels@[y as int + 1]@.map_values(
                    |p: Pixel| p.value,
                ));
            }
        }
        escape::push_move_to(out, x as u16, ty as u16);
        let top = self.pixels[y][x].value;
        let bottom = if y + 1 < h {
            self.pixels[y + 1][x].value
        } else {
            top
        };
        let mut skip = false;
        match snap {
            Some(o) => {
                proof {
                    assert(o@[y as int] == o.pixels@[y as int]@.map_values(|p: Pixel| p.value));
                    if y + 1 < h {
                        assert(o@[y as int + 1] == o.pixels@[y as int + 1]@.map_values(
                            |p: Pixel| p.value,
                        ));
                    }
                }
                let otop = o.pixels[y][x].value;
                let obottom = if y + 1 < h {
                    o.pixels[y + 1][x].value
                } else {
                    otop
                };
                skip = top == otop && bottom == obottom;
            },
            None => {},
        }
        if !skip {
            proof {
                assert(top == m.pixels[y as int][x as int]);
                assert((top as int) < m.colors.len());
                if y + 1 < h {
                    assert(bottom == m.pixels[y as int + 1][x as int]);
                }
                assert((bottom as int) < m.colors.len());
            }
            let ct = self.colors[top as usize];
            let cb = self.colors[bottom as usize];
            if ct == cb {
                escape::push_sgr_fg(out, ct.r, ct.g, ct.b);
                proof {
                    reveal_strlit("\u{2588}");
                }
                out.append("\u{2588}");
            } else {
                escape::push_sgr_bg(out, ct.r, ct.g, ct.b);
                escape::push_sgr_fg(out, cb.r, cb.g, cb.b);
                proof {
                    reveal_strlit("\u{2584}");
                }
                out.append("\u{2584}");
            }
        }
        proof {
            assert(final(out)@ =~= old(out)@ + screen_cell_out(
                m,
                h as int,
                snap_view(snap),
                x as int,
                ty as int,
            ));
        }
    }

    /// The full pass over the active `widht` by `height` area: every cell
    /// gets a cursor move; a cell whose two handles match the snapshot gets
    /// nothing more, equal halves get one full block in their color, and
    /// distinct halves get a background, a foreground and a half block. With
    /// no snapshot every cell is painted.
    pub fn render(&self, widht: u16, height: u16, snap: Option<OldScreen>) -> (out: String)
        requires
            screen_wf(self@),
            widht as int <= MAX as int,
            height as int <= MAX as int,
            snap matches Some(o) ==> snap_wf(o@),
        ensures
            out@ == screen_render_spec(self@, widht as int, height as int, snap_view(&snap)),
    {
        let ghost m = self@;
        let ghost snapv = snap_view(&snap);
        let mut out = String::new();
        let h = height as usize;
        let w = widht as usize;
        let trows = (h + 1) / 2;
        proof {
            assert(out@ =~= screen_rows_out(m, w as int, h as int, snapv, 0));
        }
        for ty in 0..trows
            invariant
                screen_wf(m),
                m == self@,
                snapv == snap_view(&snap),
                snap matches Some(o) ==> snap_wf(o@),
                h == height as int,
                w == widht as int,
                h <= MAX,
                w <= MAX,
                trows == (h + 1) / 2,
                out@ == screen_rows_out(m, w as int, h as int, snapv, ty as int),
        {
            let ghost row_prefix = out@;
            let y = 2 * ty;
            proof {
                assert(2 * ty < h);
                assert(screen_cells_out(m, h as int, snapv, ty as int, 0) =~= Seq::<
                    char,
                >::empty());
                assert(out@ =~= row_prefix + screen_cells_out(m, h as int, snapv, ty as int, 0));
            }
            for x in 0..w
                invariant
                    screen_wf(m),
                    m == self@,
                    snapv == snap_view(&snap),
                    snap matches Some(o) ==> snap_wf(o@),
                    h == height as int,
                    w == widht as int,
                    h <= MAX,
                    w <= MAX,
                    ty < trows,
                    trows == (h + 1) / 2,
                    y == 2 * ty,
                    2 * ty < h,
                    out@ == row_prefix + screen_cells_out(m, h as int, snapv, ty as int, x as int),
            {
                self.emit_cell(&mut out, &snap, h, x, ty);
                proof {
                    assert(out@ =~= row_prefix + screen_cells_out(
                        m,
                        h as int,
                        snapv,
                        ty as int,
                        x as int + 1,
                    ));
                }
            }
            proof {
                assert(out@ =~= screen_rows_out(m, w as int, h as int, snapv, ty as int + 1));
            }
        }
        out
    }
}

/// Packed-depth law: a write stores its clamped depth in the written cell's
/// nibble — applied exactly when it is at least the stored depth, so later
/// writes at equal depth win — and the neighboring column sharing the byte
/// keeps its depth either way.
pub proof fn lemma_screen_depth_isolation(m: ScreenModel, x: int, y: int, z: u8, c: Color)
    requires
        screen_wf(m),
        0 <= x < MAX as int,
        0 <= y < MAX as int,
    ensures
        ({
            let zc = if z >= 16 {
                DEPTH_CLAMP
            } else {
                z
            };
            let m2 = screen_set_pixel(m, x, y, z, c);
            &&& depth_at(m2.z_buffer, x, y) == if depth_at(m.z_buffer, x, y) <= zc {
                zc
            } else {
                depth_at(m.z_buffer, x, y)
            }
            &&& ({
                let nx = if x % 2 == 0 {
                    x + 1
                } else {
                    x - 1
                };
                depth_at(m2.z_buffer, nx, y) == depth_at(m.z_buffer, nx, y)
            })
        }),
{
    let zc = if z >= 16 {
        DEPTH_CLAMP
    } else {
        z
    };
    let b = m.z_buffer[y][x / 2];
    assert(((b & 0xf0) | zc) & 0x0f == zc && ((b & 0xf0) | zc) >> 4 == b >> 4) by (bit_vector)
        requires
            zc <= 15,
    ;
    assert(((b & 0x0f) | (zc << 4)) >> 4 == zc && ((b & 0x0f) | (zc << 4)) & 0x0f == b
        & 0x0f) by (bit_vector)
        requires
            zc <= 15,
    ;
    let nx = if x % 2 == 0 {
        x + 1
    } else {
        x - 1
    };
    assert(nx / 2 == x / 2 && nx % 2 == 1 - x % 2);
}

/// A snapshot grid of the full fixed size.
pub open spec fn snap_wf(op: Seq<Seq<u8>>) -> bool {
    &&& op.len() == MAX as int
    &&& (forall|y: int| 0 <= y < MAX as int ==> (#[trigger] op[y]).len() == MAX as int)
}

/// The handle grid a snapshot argument carries, if one was given.
pub open spec fn snap_view(snap: &Option<OldScreen>) -> Option<Seq<Seq<u8>>> {
    match snap {
        Some(o) => Some(o@),
        None => None,
    }
}

/// What the full pass emits for the cell at column `x`, terminal row `ty`: a
/// cursor move always; then nothing when the snapshot shows the same two
/// handles, one full block in the shared color when the cell's halves agree,
/// and a background, a foreground and a half block otherwise.
pub open spec fn screen_cell_out(
    m: ScreenModel,
    h: int,
    old: Option<Seq<Seq<u8>>>,
    x: int,
    ty: int,
) -> Seq<char> {
    let y = 2 * ty;
    let top = m.pixels[y][x];
    let bottom = if y + 1 < h {
        m.pixels[y + 1][x]
    } else {
        top
    };
    let skip = match old {
        Some(op) => {
            let otop = op[y][x];
            let obottom = if y + 1 < h {
                op[y + 1][x]
            } else {
                otop
            };
            top == otop && bottom == obottom
        },
        None => false,
    };
    escape::move_to_spec(x as nat, ty as nat) + if skip {
        Seq::<char>::empty()
    } else {
        let ct = m.colors[top as int];
        let cb = m.colors[bottom as int];
        if ct == cb {
            escape::sgr_fg_spec(ct.rgb().0, ct.rgb().1, ct.rgb().2) + seq!['█']
        } else {
            escape::sgr_bg_spec(ct.rgb().0, ct.rgb().1, ct.rgb().2) + escape::sgr_fg_spec(
                cb.rgb().0,
                cb.rgb().1,
                cb.rgb().2,
            ) + seq!['▄']
        }
    }
}

/// The first `n` cells of terminal row `ty`, left to right.
pub open spec fn screen_cells_out(
    m: ScreenModel,
    h: int,
    old: Option<Seq<Seq<u8>>>,
    ty: int,
    n: int,
) -> Seq<char>
    decreases n,
{
    if n <= 0 {
        Seq::empty()
    } else {
        screen_cells_out(m, h, old, ty, n - 1) + screen_cell_out(m, h, old, n - 1, ty)
    }
}

/// The first `n` terminal rows, top to bottom, `w` cells each.
pub open spec fn screen_rows_out(
    m: ScreenModel,
    w: int,
    h: int,
    old: Option<Seq<Seq<u8>>>,
    n: int,
) -> Seq<char>
    decreases n,
{
    if n <= 0 {
        Seq::empty()
    } else {
        screen_rows_out(m, w, h, old, n - 1) + screen_cells_out(m, h, old, n - 1, w)
    }
}

/// Everything one full pass emits over the active `w` by `h` area.
pub open spec fn screen_render_spec(
    m: ScreenModel,
    w: int,
    h: int,
    old: Option<Seq<Seq<u8>>>,
) -> Seq<char> {
    screen_rows_out(m, w, h, old, (h + 1) / 2)
}

} // verus!
