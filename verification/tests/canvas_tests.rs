use rael::Color;
use rael::ImageAsset;
use rael::Rael;

const BEGIN: &str = "\u{1b}[?2026h";
const END: &str = "\u{1b}[?2026l";

#[test]
fn depth_test_deeper_write_wins() {
    let mut r = Rael::new(4, 2);
    let c1 = Color::new(10, 20, 30);
    let c2 = Color::new(40, 50, 60);
    r.set_pixel(0, 0, 3, c1);
    r.set_pixel(0, 0, 5, c2);
    assert_eq!(r.resolve_color(r.pixel(0, 0)), c2);
    assert_eq!(r.depth(0, 0), 5);
}

#[test]
fn depth_test_equal_depth_last_write_wins() {
    let mut r = Rael::new(4, 2);
    let c1 = Color::new(10, 20, 30);
    let c2 = Color::new(40, 50, 60);
    r.set_pixel(1, 1, 4, c1);
    r.set_pixel(1, 1, 4, c2);
    assert_eq!(r.resolve_color(r.pixel(1, 1)), c2);
}

#[test]
fn depth_test_shallower_write_hidden() {
    let mut r = Rael::new(4, 2);
    let c1 = Color::new(10, 20, 30);
    let c2 = Color::new(40, 50, 60);
    r.set_pixel(2, 0, 9, c1);
    r.set_pixel(2, 0, 2, c2);
    assert_eq!(r.resolve_color(r.pixel(2, 0)), c1);
    assert_eq!(r.depth(2, 0), 9);
}

#[test]
fn palette_dedup() {
    let mut r = Rael::new(4, 2);
    let red = Color::new(255, 0, 0);
    let h1 = r.intern_color(red);
    let h2 = r.intern_color(red);
    let h3 = r.intern_color(red);
    assert_eq!(h1, h2);
    assert_eq!(h2, h3);
    // background plus the one new color
    assert_eq!(r.palette_len(), 2);
    // the background color keeps handle 0
    assert_eq!(r.intern_color(Color::new(0, 0, 0)), 0);
    assert_eq!(r.palette_len(), 2);
}

#[test]
fn palette_distinct_colors_distinct_handles() {
    let mut r = Rael::new(4, 2);
    let h1 = r.intern_color(Color::new(1, 2, 3));
    let h2 = r.intern_color(Color::new(4, 5, 6));
    assert_ne!(h1, h2);
    assert_eq!(r.palette_len(), 3);
    assert_eq!(r.resolve_color(h1), Color::new(1, 2, 3));
    assert_eq!(r.resolve_color(h2), Color::new(4, 5, 6));
}

#[test]
fn first_render_paints_drawn_cell() {
    let mut r = Rael::new(1, 1);
    r.set_pixel(0, 0, 1, Color::new(255, 0, 0));
    let out = r.render();
    let expected = format!(
        "{}\u{1b}[1;1H\u{1b}[38;2;0;0;0m\u{1b}[48;2;255;0;0m▄{}",
        BEGIN, END
    );
    assert_eq!(out, expected);
}

#[test]
fn second_render_is_quiet() {
    let mut r = Rael::new(1, 1);
    r.set_pixel(0, 0, 1, Color::new(255, 0, 0));
    let _ = r.render();
    let out = r.render();
    assert_eq!(out, format!("{}{}", BEGIN, END));
}

#[test]
fn render_after_clear_with_no_draws_then_quiet() {
    let mut r = Rael::new(1, 1);
    r.set_pixel(0, 0, 1, Color::new(255, 0, 0));
    let _ = r.render();
    r.clear();
    // the row that held content is repainted to background once
    let out = r.render();
    let expected = format!("{}\u{1b}[1;1H\u{1b}[48;2;0;0;0m {}", BEGIN, END);
    assert_eq!(out, expected);
    // and the pass after that emits only the wrapper
    let out2 = r.render();
    assert_eq!(out2, format!("{}{}", BEGIN, END));
}

#[test]
fn diff_skips_unchanged_cell() {
    let mut r = Rael::new(1, 1);
    let red = Color::new(255, 0, 0);
    r.set_pixel(0, 0, 1, red);
    let _ = r.render();
    r.clear();
    r.set_pixel(0, 0, 1, red);
    let out = r.render();
    // the cell matches the snapshot: one cursor-right step, no colors
    assert_eq!(out, format!("{}\u{1b}[1;1H\u{1b}[1C{}", BEGIN, END));
}

#[test]
fn diff_paints_changed_cell() {
    let mut r = Rael::new(1, 1);
    r.set_pixel(0, 0, 1, Color::new(255, 0, 0));
    let _ = r.render();
    r.clear();
    r.set_pixel(0, 0, 1, Color::new(0, 255, 0));
    let out = r.render();
    let expected = format!(
        "{}\u{1b}[1;1H\u{1b}[38;2;0;0;0m\u{1b}[48;2;0;255;0m▄{}",
        BEGIN, END
    );
    assert_eq!(out, expected);
}

#[test]
fn force_clear_repaints_everything() {
    let mut r = Rael::new(2, 1);
    r.set_pixel(0, 0, 1, Color::new(255, 0, 0));
    let _ = r.render();
    let _ = r.render();
    r.force_clear();
    let out = r.render();
    // both visible cells repaint even though nothing was drawn since
    let cell = "\u{1b}[48;2;0;0;0m ";
    assert_eq!(out, format!("{}\u{1b}[1;1H{}{}{}", BEGIN, cell, cell, END));
}

#[test]
fn force_clear_resets_palette() {
    let mut r = Rael::new(2, 1);
    r.intern_color(Color::new(9, 9, 9));
    assert_eq!(r.palette_len(), 2);
    r.force_clear();
    assert_eq!(r.palette_len(), 1);
}

#[test]
fn clear_colors_keeps_pixels() {
    let mut r = Rael::new(2, 1);
    r.set_pixel(0, 0, 1, Color::new(9, 9, 9));
    let h = r.pixel(0, 0);
    r.clear_colors();
    assert_eq!(r.palette_len(), 1);
    // the stale handle is still stored and resolves to the background
    assert_eq!(r.pixel(0, 0), h);
    assert_eq!(r.resolve_color(h), Color::new(0, 0, 0));
}

#[test]
fn resize_updates_geometry_and_forces_repaint() {
    let mut r = Rael::new(1, 1);
    let _ = r.render();
    assert!(!r.update_wsize(2, 1));
    r.note_resize();
    assert!(r.update_wsize(2, 1));
    assert_eq!(r.width(), 2);
    assert_eq!(r.height(), 2);
    let out = r.render();
    let cell = "\u{1b}[48;2;0;0;0m ";
    assert_eq!(out, format!("{}\u{1b}[1;1H{}{}{}", BEGIN, cell, cell, END));
}

#[test]
fn dirty_rows_span_bitmask_words() {
    // terminal rows 0 and 65 sit in different words of the dirty mask
    let mut r = Rael::new(1, 80);
    let red = Color::new(255, 0, 0);
    r.set_pixel(0, 0, 1, red);
    r.set_pixel(0, 130, 1, red);
    let out = r.render();
    let cell = "\u{1b}[38;2;0;0;0m\u{1b}[48;2;255;0;0m▄";
    let expected = format!(
        "{}\u{1b}[1;1H{}\u{1b}[66;1H{}{}",
        BEGIN, cell, cell, END
    );
    assert_eq!(out, expected);
}

#[test]
fn set_text_draws_glyph() {
    let mut r = Rael::new(1, 1);
    let bg = Color::new(0, 0, 255);
    let fg = Color::new(255, 255, 255);
    r.set_text(0, 1, 1, bg, fg, 'A');
    // y = 1 rounds down to pixel row 0; the glyph owns terminal row 0
    assert_eq!(r.glyph(0, 0), 'A');
    assert_eq!(r.resolve_color(r.pixel(0, 0)), bg);
    assert_eq!(r.resolve_color(r.pixel(0, 1)), fg);
    let out = r.render();
    let expected = format!(
        "{}\u{1b}[1;1H\u{1b}[38;2;255;255;255m\u{1b}[48;2;0;0;255mA{}",
        BEGIN, END
    );
    assert_eq!(out, expected);
}

#[test]
fn equal_halves_render_one_background_blank() {
    let mut r = Rael::new(1, 1);
    let red = Color::new(255, 0, 0);
    r.set_pixel(0, 0, 1, red);
    r.set_pixel(0, 1, 1, red);
    let out = r.render();
    assert_eq!(out, format!("{}\u{1b}[1;1H\u{1b}[48;2;255;0;0m {}", BEGIN, END));
}

#[test]
fn set_image_skips_transparent_and_out_of_range() {
    let mut r = Rael::new(4, 2);
    let red = Color::new(255, 0, 0);
    let img = ImageAsset::new(
        2,
        2,
        vec![vec![0, 1], vec![1, 0]],
        vec![red, Color::new(0, 0, 0)],
    );
    r.set_image(&img, (0, 0, 1));
    // only index 0 is opaque: the last slot is the transparent marker
    assert_eq!(r.resolve_color(r.pixel(0, 0)), red);
    assert_eq!(r.pixel(1, 0), 0);
    assert_eq!(r.pixel(0, 1), 0);
    assert_eq!(r.resolve_color(r.pixel(1, 1)), red);
}

#[test]
fn set_image_clips_at_canvas_edge() {
    let mut r = Rael::new(4, 2);
    let red = Color::new(255, 0, 0);
    let img = ImageAsset::new(
        2,
        2,
        vec![vec![0, 0], vec![0, 0]],
        vec![red, Color::new(0, 0, 0)],
    );
    // only the top-left source pixel lands on the canvas
    r.set_image(&img, (511, 511, 1));
    assert_eq!(r.resolve_color(r.pixel(511, 511)), red);
    // a position entirely off the canvas draws nothing and does not panic
    r.set_image(&img, (usize::MAX - 1, 0, 1));
    r.set_image(&img, (0, usize::MAX - 1, 1));
    assert_eq!(r.pixel(0, 0), 0);
}

#[test]
fn set_image_respects_depth() {
    let mut r = Rael::new(4, 2);
    let blue = Color::new(0, 0, 255);
    r.set_pixel(0, 0, 9, blue);
    let img = ImageAsset::new(
        1,
        1,
        vec![vec![0]],
        vec![Color::new(255, 0, 0), Color::new(0, 0, 0)],
    );
    r.set_image(&img, (0, 0, 2));
    assert_eq!(r.resolve_color(r.pixel(0, 0)), blue);
}

#[test]
fn text_cell_skipped_when_unchanged() {
    let mut r = Rael::new(2, 1);
    let bg = Color::new(1, 1, 1);
    let fg = Color::new(2, 2, 2);
    r.set_text(0, 0, 1, bg, fg, 'x');
    let _ = r.render();
    r.clear();
    r.set_text(0, 0, 1, bg, fg, 'x');
    r.set_pixel(1, 0, 1, Color::new(3, 3, 3));
    let out = r.render();
    // first cell unchanged: cursor-right; second cell painted
    let expected = format!(
        "{}\u{1b}[1;1H\u{1b}[1C\u{1b}[38;2;0;0;0m\u{1b}[48;2;3;3;3m▄{}",
        BEGIN, END
    );
    assert_eq!(out, expected);
}
