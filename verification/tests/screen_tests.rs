use rael::rael::screen::Color;
use rael::rael::screen::Screen;

#[test]
fn nibble_packing_keeps_neighbor() {
    let mut s = Screen::new();
    s.set_pixel(0, 0, 5, Color::new(255, 0, 0));
    s.set_pixel(1, 0, 3, Color::new(0, 0, 255));
    // even column in the high nibble, odd column in the low nibble
    assert_eq!(s.z_buffer[0][0], 0x53);
    assert_eq!(s.pixels[0][0].value, 1);
    assert_eq!(s.pixels[0][1].value, 2);
}

#[test]
fn depth_clamps_to_fifteen() {
    let mut s = Screen::new();
    s.set_pixel(2, 0, 200, Color::new(255, 0, 0));
    assert_eq!(s.z_buffer[0][1] >> 4, 15);
}

#[test]
fn shallower_write_is_hidden() {
    let mut s = Screen::new();
    s.set_pixel(4, 0, 5, Color::new(255, 0, 0));
    s.set_pixel(4, 0, 3, Color::new(0, 0, 255));
    assert_eq!(s.pixels[0][4].value, 1);
}

#[test]
fn equal_depth_last_write_wins() {
    let mut s = Screen::new();
    s.set_pixel(6, 0, 5, Color::new(255, 0, 0));
    s.set_pixel(6, 0, 5, Color::new(0, 0, 255));
    assert_eq!(s.pixels[0][6].value, 2);
}

#[test]
fn palette_scan_dedups() {
    let mut s = Screen::new();
    let red = Color::new(255, 0, 0);
    let h1 = s.get_or_insert_color(red);
    let h2 = s.get_or_insert_color(red);
    assert_eq!(h1, 1);
    assert_eq!(h2, 1);
    assert_eq!(s.colors.len(), 2);
    assert_eq!(s.get_or_insert_color(Color::new(0, 0, 0)), 0);
}

#[test]
fn palette_full_falls_back_to_background() {
    let mut s = Screen::new();
    for i in 0..255u16 {
        s.get_or_insert_color(Color::new(i as u8, 1, 0));
    }
    assert_eq!(s.colors.len(), 256);
    // a new color no longer fits and maps to the background handle
    assert_eq!(s.get_or_insert_color(Color::new(9, 9, 9)), 0);
    assert_eq!(s.colors.len(), 256);
    // colors already present keep their handles
    assert_eq!(s.get_or_insert_color(Color::new(0, 1, 0)), 1);
}

#[test]
fn render_paints_half_block() {
    let mut s = Screen::new();
    s.set_pixel(0, 0, 1, Color::new(255, 0, 0));
    let out = s.render(1, 2, None);
    assert_eq!(out, "\u{1b}[1;1H\u{1b}[48;2;255;0;0m\u{1b}[38;2;0;0;0m▄");
}

#[test]
fn render_paints_full_block_for_equal_halves() {
    let mut s = Screen::new();
    s.set_pixel(0, 0, 1, Color::new(255, 0, 0));
    s.set_pixel(0, 1, 1, Color::new(255, 0, 0));
    let out = s.render(1, 2, None);
    assert_eq!(out, "\u{1b}[1;1H\u{1b}[38;2;255;0;0m█");
}

#[test]
fn render_skips_cells_matching_snapshot() {
    let mut s = Screen::new();
    let red = Color::new(255, 0, 0);
    s.set_pixel(0, 0, 1, red);
    let snap = s.clear();
    s.set_pixel(0, 0, 1, red);
    let out = s.render(1, 2, snap);
    // same handles as the snapshot: only the cursor move is emitted
    assert_eq!(out, "\u{1b}[1;1H");
}

#[test]
fn render_odd_height_reuses_top_half() {
    let mut s = Screen::new();
    s.set_pixel(0, 0, 1, Color::new(255, 0, 0));
    let out = s.render(1, 1, None);
    assert_eq!(out, "\u{1b}[1;1H\u{1b}[38;2;255;0;0m█");
}

#[test]
fn clear_returns_snapshot_and_zeroes() {
    let mut s = Screen::new();
    s.set_pixel(3, 2, 7, Color::new(9, 9, 9));
    let snap = s.clear().unwrap();
    assert_eq!(snap.pixels[2][3].value, 1);
    assert_eq!(s.pixels[2][3].value, 0);
    assert_eq!(s.z_buffer[2][1], 0);
    // the palette is kept across clears
    assert_eq!(s.colors.len(), 2);
}
