use rael::pixels::Color;
use rael::pixels::Pixel;

#[test]
fn black_and_white_are_exact() {
    let black = Color::new(0, 0, 0);
    assert_eq!(black.value, 0);
    assert_eq!((black.r(), black.g(), black.b()), (0, 0, 0));
    let white = Color::new(255, 255, 255);
    assert_eq!((white.r(), white.g(), white.b()), (255, 255, 255));
}

#[test]
fn packing_layout() {
    // 5 red | 6 green | 5 blue
    let c = Color::new(8, 4, 8);
    assert_eq!(c.value, (1 << 11) | (1 << 5) | 1);
}

#[test]
fn low_bits_are_dropped() {
    let c = Color::new(7, 3, 7);
    assert_eq!(c.value, 0);
    assert_eq!((c.r(), c.g(), c.b()), (0, 0, 0));
}

#[test]
fn reconstruction_replicates_high_bits() {
    let c = Color::new(130, 130, 130);
    // red: 130 >> 3 = 16 -> 16 << 3 | 16 >> 2 = 132
    assert_eq!(c.r(), 132);
    // green: 130 >> 2 = 32 -> 32 << 2 | 32 >> 4 = 130
    assert_eq!(c.g(), 130);
    assert_eq!(c.b(), 132);
}

#[test]
fn reconstruction_error_small() {
    for &v in &[0u8, 1, 7, 8, 31, 32, 127, 128, 200, 254, 255] {
        let c = Color::new(v, v, v);
        assert!(c.r().abs_diff(v) <= 7);
        assert!(c.g().abs_diff(v) <= 3);
        assert!(c.b().abs_diff(v) <= 7);
    }
}

#[test]
fn pixel_holds_index() {
    assert_eq!(Pixel::new(42).value, 42);
}
