use glium_text::raster::rasterize;
use glium_text::{CharacterInfos, FontError, FontTexture, TextDisplay};
use std::sync::Arc;

// A bitmap font in the Glyph Bitmap Distribution Format: `A` of 8 by 8 pixels and
// `B` of 5 by 7 pixels, at 8 pixels.
const TINY_FONT: &str = "STARTFONT 2.1
FONT -misc-tiny-medium-r-normal--8-80-75-75-c-80-iso10646-1
SIZE 8 75 75
FONTBOUNDINGBOX 8 8 0 -2
STARTPROPERTIES 8
FONT_ASCENT 6
FONT_DESCENT 2
PIXEL_SIZE 8
POINT_SIZE 80
RESOLUTION_X 75
RESOLUTION_Y 75
CHARSET_REGISTRY \"ISO10646\"
CHARSET_ENCODING \"1\"
ENDPROPERTIES
CHARS 2
STARTCHAR A
ENCODING 65
SWIDTH 1000 0
DWIDTH 8 0
BBX 8 8 0 -2
BITMAP
18
24
42
42
7E
42
42
00
ENDCHAR
STARTCHAR B
ENCODING 66
SWIDTH 750 0
DWIDTH 6 0
BBX 5 7 1 0
BITMAP
F0
88
88
F0
88
88
F0
ENDCHAR
ENDFONT
";

fn tiny_font() -> Vec<u8> {
    TINY_FONT.as_bytes().to_vec()
}

// A bitmap font at `size` pixels with one glyph of 3 by 2 pixels for each of the
// characters given.
fn font_of(characters: &str, size: u32) -> Vec<u8> {
    let mut font = format!(
        "STARTFONT 2.1\nFONT -misc-test-medium-r-normal--{size}-{size}0-75-75-c-80-iso10646-1\n\
         SIZE {size} 75 75\nFONTBOUNDINGBOX 3 2 0 0\nSTARTPROPERTIES 8\nFONT_ASCENT {size}\n\
         FONT_DESCENT 0\nPIXEL_SIZE {size}\nPOINT_SIZE {size}0\nRESOLUTION_X 75\n\
         RESOLUTION_Y 75\nCHARSET_REGISTRY \"ISO10646\"\nCHARSET_ENCODING \"1\"\n\
         ENDPROPERTIES\nCHARS {}\n",
        characters.chars().count()
    );
    let mut codes: Vec<u32> = characters.chars().map(|c| c as u32).collect();
    codes.sort();
    for code in codes {
        font.push_str(&format!(
            "STARTCHAR U+{code:04X}\nENCODING {code}\nSWIDTH 500 0\nDWIDTH 4 0\nBBX 3 2 0 0\n\
             BITMAP\nA0\n40\nENDCHAR\n"
        ));
    }
    font.push_str("ENDFONT\n");
    font.into_bytes()
}

#[test]
fn bytes_that_are_no_font_are_a_load_error() {
    assert_eq!(rasterize(vec![], 12).err(), Some(FontError::FontLoad));
    assert_eq!(rasterize(vec![1, 2, 3, 4, 5, 6, 7, 8], 12).err(), Some(FontError::FontLoad));
    assert_eq!(FontTexture::new(vec![0; 100], 12).err(), Some(FontError::FontLoad));
    assert_eq!(FontTexture::new(vec![], 12).err(), Some(FontError::FontLoad));
}

#[test]
fn a_size_that_the_font_does_not_have_is_a_load_error() {
    assert_eq!(rasterize(tiny_font(), 9).err(), Some(FontError::FontLoad));
    assert_eq!(FontTexture::new(tiny_font(), 70).err(), Some(FontError::FontLoad));
}

#[test]
fn the_glyphs_of_a_font_come_in_the_order_of_their_characters() {
    let glyphs = rasterize(tiny_font(), 8).unwrap();
    assert_eq!(glyphs.len(), 2);
    assert_eq!(glyphs[0].character(), 'A');
    assert_eq!(glyphs[0].width(), 8);
    assert_eq!(glyphs[0].rows(), 8);
    assert_eq!(glyphs[0].left(), 0);
    assert_eq!(glyphs[0].top(), 6);
    assert_eq!(glyphs[0].advance(), 8);
    assert_eq!(
        glyphs[0].coverage(),
        &vec![
            0, 0, 0, 255, 255, 0, 0, 0, //
            0, 0, 255, 0, 0, 255, 0, 0, //
            0, 255, 0, 0, 0, 0, 255, 0, //
            0, 255, 0, 0, 0, 0, 255, 0, //
            0, 255, 255, 255, 255, 255, 255, 0, //
            0, 255, 0, 0, 0, 0, 255, 0, //
            0, 255, 0, 0, 0, 0, 255, 0, //
            0, 0, 0, 0, 0, 0, 0, 0, //
        ]
    );
    assert_eq!(glyphs[1].character(), 'B');
    assert_eq!(glyphs[1].width(), 5);
    assert_eq!(glyphs[1].rows(), 7);
    assert_eq!(glyphs[1].left(), 1);
    assert_eq!(glyphs[1].top(), 7);
    assert_eq!(glyphs[1].advance(), 6);
    assert_eq!(glyphs[1].coverage()[0..10], [255, 255, 255, 255, 0, 255, 0, 0, 0, 255]);
}

#[test]
fn the_atlas_of_a_font_holds_its_glyphs() {
    let texture = FontTexture::new(tiny_font(), 8).unwrap();
    assert_eq!(texture.width(), 16);
    assert_eq!(texture.height(), 8);
    assert_eq!(
        texture.character_infos(),
        &vec![
            ('A', CharacterInfos {
                coords: (0, 0),
                size: (8, 8),
                height_over_line: 6,
                left_padding: 0,
                right_padding: 0,
            }),
            ('B', CharacterInfos {
                coords: (8, 0),
                size: (5, 7),
                height_over_line: 7,
                left_padding: 1,
                right_padding: 0,
            }),
        ]
    );
    let pixels = texture.pixels();
    assert_eq!(pixels.len(), 128);
    assert_eq!(
        pixels[0..16],
        [0, 0, 0, 255, 255, 0, 0, 0, 255, 255, 255, 255, 0, 0, 0, 0]
    );
    assert_eq!(
        pixels[16..32],
        [0, 0, 255, 0, 0, 255, 0, 0, 255, 0, 0, 0, 255, 0, 0, 0]
    );
    assert_eq!(pixels[112..128], [0; 16]);
}

#[test]
fn two_atlases_of_the_same_font_are_the_same() {
    let a = FontTexture::new(tiny_font(), 8).unwrap();
    let b = FontTexture::new(tiny_font(), 8).unwrap();
    assert_eq!(a.width(), b.width());
    assert_eq!(a.height(), b.height());
    assert_eq!(a.pixels(), b.pixels());
    assert_eq!(a.character_infos(), b.character_infos());
}

#[test]
fn the_atlas_of_a_font_has_sides_that_are_powers_of_two() {
    let mut size = 1;
    while size < 80 {
        let texture = FontTexture::new(font_of("abcdefghijklmnopqrstuvwxyz", size), size).unwrap();
        assert_eq!(texture.character_infos().len(), 26);
        assert_eq!(texture.width().count_ones(), 1);
        assert_eq!(texture.height().count_ones(), 1);
        for (_, info) in texture.character_infos() {
            assert!(info.coords.0 + info.size.0 <= texture.width());
            assert!(info.coords.1 + info.size.1 <= texture.height());
        }
        size += 7;
    }
}

#[test]
fn a_glyph_wider_than_the_atlas_of_a_font_is_an_error() {
    // At 1 pixel the atlas of one glyph is 2 pixels wide, and the glyph is 3.
    assert_eq!(FontTexture::new(font_of("a", 1), 1).err(), Some(FontError::AtlasPack));
    // 9 glyphs make it 4 pixels wide.
    assert!(FontTexture::new(font_of("abcdefghi", 1), 1).is_ok());
}

#[test]
fn hello_world_against_the_atlas_of_a_font() {
    let font = font_of("Helo wrd", 70);
    let atlas = Arc::new(FontTexture::new(font, 70).unwrap());
    assert_eq!(atlas.character_infos().len(), 8);
    assert_eq!(atlas.width(), 256);
    assert_eq!(atlas.height(), 2);
    let display = TextDisplay::new(atlas.clone(), "Hello world").unwrap();
    assert_eq!(display.vertex_buffer().as_ref().unwrap().len(), 4 * 11);
    assert_eq!(display.get_width(), 44);
    // Without a glyph for the space, the space is passed over.
    let atlas = Arc::new(FontTexture::new(font_of("Helowrd", 70), 70).unwrap());
    let display = TextDisplay::new(atlas, "Hello world").unwrap();
    assert_eq!(display.vertex_buffer().as_ref().unwrap().len(), 4 * 10);
    assert!(display.get_width() > 0);
    assert_eq!(display.get_width(), 40);
}

#[test]
fn a_font_without_characters_is_a_load_error() {
    assert_eq!(FontTexture::new(font_of("", 8), 8).err(), Some(FontError::FontLoad));
    assert_eq!(rasterize(font_of("", 8), 8).err(), Some(FontError::FontLoad));
}
