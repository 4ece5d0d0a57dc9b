use glium_text::packing::initial_width;
use glium_text::{build_font_image, CharacterInfos, FontError, FontTexture, Glyph};

fn ramp(from: u8, len: usize) -> Vec<u8> {
    let mut v = Vec::new();
    let mut i = 0;
    while i < len {
        v.push(from.wrapping_add(i as u8));
        i += 1;
    }
    v
}

fn four_glyphs() -> Vec<Glyph> {
    vec![
        Glyph::new('a', 3, 2, ramp(1, 6), 1, 2, 5).unwrap(),
        Glyph::new('b', 4, 3, ramp(20, 12), 0, 3, 4).unwrap(),
        Glyph::new('c', 2, 1, ramp(40, 2), -1, 1, 3).unwrap(),
        Glyph::new('d', 5, 2, ramp(60, 10), 2, 5, 6).unwrap(),
    ]
}

fn pixel(texture: &FontTexture, x: u32, y: u32) -> u8 {
    texture.pixels()[(y * texture.width() + x) as usize]
}

#[test]
fn atlas_places_glyphs_on_shelves() {
    let texture = FontTexture::from_glyphs(&four_glyphs(), 4).unwrap();
    // 4 glyphs of 4 by 4 pixels: a square of side 8, which is twice the font size.
    assert_eq!(texture.width(), 8);
    // Shelves of 3 and 2 rows, rounded up.
    assert_eq!(texture.height(), 8);
    let infos = texture.character_infos();
    assert_eq!(infos.len(), 4);
    assert_eq!(
        infos[0],
        ('a', CharacterInfos {
            coords: (0, 0),
            size: (3, 2),
            height_over_line: 2,
            left_padding: 1,
            right_padding: 1,
        })
    );
    assert_eq!(
        infos[1],
        ('b', CharacterInfos {
            coords: (3, 0),
            size: (4, 3),
            height_over_line: 3,
            left_padding: 0,
            right_padding: 0,
        })
    );
    assert_eq!(
        infos[2],
        ('c', CharacterInfos {
            coords: (0, 3),
            size: (2, 1),
            height_over_line: 1,
            left_padding: -1,
            right_padding: 2,
        })
    );
    assert_eq!(
        infos[3],
        ('d', CharacterInfos {
            coords: (2, 3),
            size: (5, 2),
            height_over_line: 5,
            left_padding: 2,
            right_padding: -1,
        })
    );
}

#[test]
fn atlas_holds_the_coverage_of_each_glyph_and_zero_elsewhere() {
    let texture = FontTexture::from_glyphs(&four_glyphs(), 4).unwrap();
    let expected: Vec<u8> = vec![
        1, 2, 3, 20, 21, 22, 23, 0, //
        4, 5, 6, 24, 25, 26, 27, 0, //
        0, 0, 0, 28, 29, 30, 31, 0, //
        40, 41, 60, 61, 62, 63, 64, 0, //
        0, 0, 65, 66, 67, 68, 69, 0, //
        0, 0, 0, 0, 0, 0, 0, 0, //
        0, 0, 0, 0, 0, 0, 0, 0, //
        0, 0, 0, 0, 0, 0, 0, 0, //
    ];
    assert_eq!(texture.pixels(), &expected);
    assert_eq!(pixel(&texture, 2, 1), 6);
    assert_eq!(pixel(&texture, 6, 4), 69);
}

#[test]
fn build_font_image_gives_the_parts_of_the_atlas() {
    let (pixels, (width, height), infos) = build_font_image(&four_glyphs(), 4).unwrap();
    let texture = FontTexture::from_glyphs(&four_glyphs(), 4).unwrap();
    assert_eq!(width, texture.width());
    assert_eq!(height, texture.height());
    assert_eq!(&pixels, texture.pixels());
    assert_eq!(&infos, texture.character_infos());
    assert_eq!(pixels.len(), 64);
}

#[test]
fn a_glyph_that_just_fits_stays_on_the_shelf() {
    let glyphs = vec![
        Glyph::new('a', 4, 1, ramp(1, 4), 0, 0, 4).unwrap(),
        Glyph::new('b', 4, 1, ramp(5, 4), 0, 0, 4).unwrap(),
        Glyph::new('c', 1, 1, ramp(9, 1), 0, 0, 1).unwrap(),
    ];
    let texture = FontTexture::from_glyphs(&glyphs, 4).unwrap();
    assert_eq!(texture.width(), 8);
    let infos = texture.character_infos();
    assert_eq!(infos[0].1.coords, (0, 0));
    assert_eq!(infos[1].1.coords, (4, 0));
    assert_eq!(infos[2].1.coords, (0, 1));
    assert_eq!(texture.height(), 2);
    assert_eq!(texture.pixels(), &vec![1, 2, 3, 4, 5, 6, 7, 8, 9, 0, 0, 0, 0, 0, 0, 0]);
}

#[test]
fn a_new_shelf_starts_below_the_tallest_glyph() {
    let glyphs = vec![
        Glyph::new('a', 5, 1, ramp(1, 5), 0, 0, 5).unwrap(),
        Glyph::new('b', 2, 6, ramp(1, 12), 0, 0, 2).unwrap(),
        Glyph::new('c', 3, 2, ramp(1, 6), 0, 0, 3).unwrap(),
        Glyph::new('d', 8, 1, ramp(1, 8), 0, 0, 8).unwrap(),
    ];
    let texture = FontTexture::from_glyphs(&glyphs, 4).unwrap();
    assert_eq!(texture.width(), 8);
    let infos = texture.character_infos();
    assert_eq!(infos[0].1.coords, (0, 0));
    assert_eq!(infos[1].1.coords, (5, 0));
    assert_eq!(infos[2].1.coords, (0, 6));
    assert_eq!(infos[3].1.coords, (0, 8));
    // 9 rows are taken.
    assert_eq!(texture.height(), 16);
    assert_eq!(texture.pixels().len(), 128);
}

#[test]
fn atlas_without_glyphs_is_one_empty_row() {
    let texture = FontTexture::from_glyphs(&vec![], 70).unwrap();
    assert_eq!(texture.width(), 256);
    assert_eq!(texture.height(), 1);
    assert_eq!(texture.pixels(), &vec![0u8; 256]);
    assert!(texture.character_infos().is_empty());
    assert_eq!(texture.find('a'), None);
}

#[test]
fn atlas_of_glyphs_without_pixels_is_one_empty_row() {
    let glyphs = vec![
        Glyph::new(' ', 0, 0, vec![], 0, 0, 3).unwrap(),
        Glyph::new('\t', 0, 0, vec![], 0, 0, 12).unwrap(),
    ];
    let texture = FontTexture::from_glyphs(&glyphs, 3).unwrap();
    assert_eq!(texture.width(), 8);
    assert_eq!(texture.height(), 1);
    assert_eq!(texture.pixels(), &vec![0u8; 8]);
    assert_eq!(
        texture.find(' '),
        Some(CharacterInfos {
            coords: (0, 0),
            size: (0, 0),
            height_over_line: 0,
            left_padding: 0,
            right_padding: 3,
        })
    );
    assert_eq!(texture.find('\t').unwrap().right_padding, 12);
}

#[test]
fn a_glyph_wider_than_the_atlas_is_an_error() {
    // At size 1 with one glyph the atlas is 2 pixels wide.
    assert_eq!(initial_width(1, 1), Some(2));
    let fits = vec![Glyph::new('a', 2, 1, vec![1, 2], 0, 0, 2).unwrap()];
    assert!(FontTexture::from_glyphs(&fits, 1).is_ok());
    let wide = vec![Glyph::new('a', 3, 1, vec![1, 2, 3], 0, 0, 3).unwrap()];
    assert_eq!(FontTexture::from_glyphs(&wide, 1).err(), Some(FontError::AtlasPack));
    assert_eq!(build_font_image(&wide, 1).err(), Some(FontError::AtlasPack));
    let later = vec![
        Glyph::new('a', 1, 1, vec![1], 0, 0, 1).unwrap(),
        Glyph::new('b', 1, 1, vec![1], 0, 0, 1).unwrap(),
        Glyph::new('c', 3, 0, vec![], 0, 0, 3).unwrap(),
    ];
    assert_eq!(FontTexture::from_glyphs(&later, 1).err(), Some(FontError::AtlasPack));
}

#[test]
fn an_atlas_beyond_the_greatest_side_is_an_error() {
    // too wide
    assert_eq!(
        FontTexture::from_glyphs(&vec![], 0x4000_0001).err(),
        Some(FontError::AtlasTooLarge)
    );
    // too high: a glyph of no width and more rows than the greatest side
    let tall = vec![Glyph::new('a', 0, 0x8000_0001, vec![], 0, 0, 0).unwrap()];
    assert_eq!(FontTexture::from_glyphs(&tall, 1).err(), Some(FontError::AtlasTooLarge));
    // too high: two shelves that together exceed the greatest side
    let shelves = vec![
        Glyph::new('a', 2, 0, vec![], 0, 0, 0).unwrap(),
        Glyph::new('b', 0, 0x4000_0000, vec![], 0, 0, 0).unwrap(),
        Glyph::new('c', 2, 0, vec![], 0, 0, 0).unwrap(),
        Glyph::new('d', 0, 0x4000_0001, vec![], 0, 0, 0).unwrap(),
    ];
    assert_eq!(FontTexture::from_glyphs(&shelves, 1).err(), Some(FontError::AtlasTooLarge));
}

#[test]
fn a_glyph_too_wide_is_told_before_an_atlas_too_high() {
    let glyphs = vec![
        Glyph::new('a', 0, 0x8000_0001, vec![], 0, 0, 0).unwrap(),
        Glyph::new('b', 3, 0, vec![], 0, 0, 0).unwrap(),
    ];
    assert_eq!(FontTexture::from_glyphs(&glyphs, 1).err(), Some(FontError::AtlasPack));
}

#[test]
fn atlas_sides_are_powers_of_two() {
    let mut size: u32 = 1;
    while size < 40 {
        let mut glyphs = Vec::new();
        let mut k: u32 = 0;
        while k < size + 3 {
            let w = (k * 7 + size) % (2 * size + 1);
            let h = (k * 5 + 1) % (size + 2);
            let c = char::from_u32(0x41 + k).unwrap();
            glyphs.push(Glyph::new(c, w, h, ramp(k as u8, (w * h) as usize), 0, 0, 0).unwrap());
            k += 1;
        }
        let texture = FontTexture::from_glyphs(&glyphs, size).unwrap();
        assert_eq!(texture.width().count_ones(), 1);
        assert_eq!(texture.height().count_ones(), 1);
        assert_eq!(texture.pixels().len() as u32, texture.width() * texture.height());
        size += 1;
    }
}

#[test]
fn glyphs_lie_within_the_atlas_and_do_not_overlap() {
    let mut glyphs = Vec::new();
    let mut k: u32 = 0;
    while k < 60 {
        let w = (k * 7 + 3) % 17;
        let h = (k * 11 + 5) % 13;
        let c = char::from_u32(0x100 + k).unwrap();
        glyphs.push(Glyph::new(c, w, h, ramp(k as u8, (w * h) as usize), 0, 0, 0).unwrap());
        k += 1;
    }
    let texture = FontTexture::from_glyphs(&glyphs, 8).unwrap();
    let infos = texture.character_infos();
    assert_eq!(infos.len(), 60);
    let mut i = 0;
    while i < infos.len() {
        let a = infos[i].1;
        assert!(a.coords.0 + a.size.0 <= texture.width());
        assert!(a.coords.1 + a.size.1 <= texture.height());
        let mut j = i + 1;
        while j < infos.len() {
            let b = infos[j].1;
            assert!(
                a.coords.0 + a.size.0 <= b.coords.0
                    || b.coords.0 + b.size.0 <= a.coords.0
                    || a.coords.1 + a.size.1 <= b.coords.1
                    || b.coords.1 + b.size.1 <= a.coords.1
            );
            j += 1;
        }
        // every pixel of the glyph is in the atlas
        let mut y = 0;
        while y < a.size.1 {
            let mut x = 0;
            while x < a.size.0 {
                assert_eq!(
                    pixel(&texture, a.coords.0 + x, a.coords.1 + y),
                    glyphs[i].coverage()[(y * a.size.0 + x) as usize]
                );
                x += 1;
            }
            y += 1;
        }
        i += 1;
    }
}

#[test]
fn two_atlases_of_the_same_glyphs_are_the_same() {
    let a = FontTexture::from_glyphs(&four_glyphs(), 4).unwrap();
    let b = FontTexture::from_glyphs(&four_glyphs(), 4).unwrap();
    assert_eq!(a.width(), b.width());
    assert_eq!(a.height(), b.height());
    assert_eq!(a.pixels(), b.pixels());
    assert_eq!(a.character_infos(), b.character_infos());
}

#[test]
fn find_gives_the_first_record_of_a_character() {
    let glyphs = vec![
        Glyph::new('a', 1, 1, vec![1], 0, 0, 1).unwrap(),
        Glyph::new('b', 2, 1, vec![1, 2], 0, 0, 2).unwrap(),
        Glyph::new('a', 3, 1, vec![1, 2, 3], 0, 0, 3).unwrap(),
    ];
    let texture = FontTexture::from_glyphs(&glyphs, 4).unwrap();
    assert_eq!(texture.character_infos().len(), 3);
    assert_eq!(texture.find('a').unwrap().size, (1, 1));
    assert_eq!(texture.find('b').unwrap().size, (2, 1));
    assert_eq!(texture.find('b').unwrap().coords, (1, 0));
    assert_eq!(texture.find('c'), None);
}

#[test]
fn the_paddings_and_the_width_add_up_to_the_advance() {
    let glyphs = vec![
        Glyph::new('a', 7, 1, ramp(0, 7), -3, 0, 2).unwrap(),
        Glyph::new('b', 0, 0, vec![], i32::MIN, i32::MAX, i32::MAX).unwrap(),
        Glyph::new('c', 8, 0, vec![], i32::MAX, i32::MIN, i32::MIN).unwrap(),
    ];
    let texture = FontTexture::from_glyphs(&glyphs, 4).unwrap();
    let a = texture.find('a').unwrap();
    assert_eq!(a.left_padding, -3);
    assert_eq!(a.right_padding, -2);
    let b = texture.find('b').unwrap();
    assert_eq!(b.left_padding as i64 + b.size.0 as i64 + b.right_padding, i32::MAX as i64);
    assert_eq!(b.height_over_line, i32::MAX);
    let c = texture.find('c').unwrap();
    assert_eq!(c.right_padding, i32::MIN as i64 - 8 - i32::MAX as i64);
}
