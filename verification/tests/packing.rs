use glium_text::packing::{initial_width, MAX_SIDE};

#[test]
fn initial_width_is_twice_the_font_size_for_few_glyphs() {
    assert_eq!(initial_width(0, 70), Some(256));
    assert_eq!(initial_width(1, 70), Some(256));
    assert_eq!(initial_width(3, 8), Some(16));
    assert_eq!(initial_width(0, 1), Some(2));
}

#[test]
fn initial_width_follows_the_square_root_for_many_glyphs() {
    // 8 * 70 * 70 = 39200, whose square root is 197.9...; twice 70 is 140.
    assert_eq!(initial_width(8, 70), Some(256));
    // 1000 * 10 * 10 = 100000, whose square root is 316.2...
    assert_eq!(initial_width(1000, 10), Some(512));
    // 4 * 4 * 4 = 64, whose square root is 8: a power of two stays.
    assert_eq!(initial_width(4, 4), Some(8));
    assert_eq!(initial_width(16, 1), Some(4));
    assert_eq!(initial_width(64, 2), Some(16));
    // 17 * 1 * 1 = 17, whose square root is above 4.
    assert_eq!(initial_width(17, 1), Some(8));
    // 25 * 1 * 1 = 25, whose square root is 5.
    assert_eq!(initial_width(25, 1), Some(8));
    // 65 * 2 * 2 = 260, whose square root is above 16.
    assert_eq!(initial_width(65, 2), Some(32));
    // 13 * 70 * 70 = 63700 is below the square of 256, 14 * 70 * 70 = 68600 above.
    assert_eq!(initial_width(13, 70), Some(256));
    assert_eq!(initial_width(14, 70), Some(512));
}

#[test]
fn initial_width_reaches_the_greatest_side() {
    assert_eq!(MAX_SIDE, 0x8000_0000);
    assert_eq!(initial_width(0, 0x4000_0000), Some(0x8000_0000));
    assert_eq!(initial_width(4, 0x4000_0000), Some(0x8000_0000));
}

#[test]
fn initial_width_is_none_beyond_the_greatest_side() {
    assert_eq!(initial_width(0, 0x4000_0001), None);
    assert_eq!(initial_width(0, u32::MAX), None);
    assert_eq!(initial_width(5, 0x4000_0000), None);
    assert_eq!(initial_width(usize::MAX, 0x4000_0000), None);
    assert_eq!(initial_width(usize::MAX, 1), None);
}
