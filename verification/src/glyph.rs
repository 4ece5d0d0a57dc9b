//! Rasterized glyphs: one coverage bitmap and its metrics, in whole pixels.

use crate::grid::{lemma_next_row, lemma_pixel_index, lemma_pixel_of_index, pixel_at};
use vstd::prelude::*;

verus! {

/// The font engine's pixel mode of a bitmap with one bit per pixel, the leftmost
/// pixel in the highest bit.
pub const PIXEL_MODE_MONO: u8 = 1;

/// The font engine's pixel mode of a bitmap with one byte of coverage per pixel.
pub const PIXEL_MODE_GRAY: u8 = 2;

/// A glyph as mathematical values.
pub struct GlyphView {
    pub character: char,
    pub width: nat,
    pub rows: nat,
    pub coverage: Seq<u8>,
    pub left: int,
    pub top: int,
    pub advance: int,
}

impl GlyphView {
    /// The bitmap holds one byte for each pixel, row after row, and every number
    /// fits in 32 bits.
    pub open spec fn wf(self) -> bool {
        &&& self.coverage.len() == self.width * self.rows
        &&& self.width <= u32::MAX
        &&& self.rows <= u32::MAX
        &&& i32::MIN <= self.left <= i32::MAX
        &&& i32::MIN <= self.top <= i32::MAX
        &&& i32::MIN <= self.advance <= i32::MAX
    }

    /// Coverage of the pixel in column `x` of row `y`.
    pub open spec fn pixel(self, x: int, y: int) -> u8 {
        pixel_at(self.coverage, self.width as int, x, y)
    }
}

/// The views of a sequence of glyphs.
pub open spec fn glyph_views(glyphs: Seq<Glyph>) -> Seq<GlyphView> {
    Seq::new(glyphs.len(), |i: int| glyphs[i]@)
}

/// Every glyph of the sequence is well formed.
pub open spec fn all_wf(glyphs: Seq<GlyphView>) -> bool {
    forall|i: int| 0 <= i < glyphs.len() ==> (#[trigger] glyphs[i]).wf()
}

/// No two glyphs of the sequence draw the same character.
pub open spec fn distinct_characters(glyphs: Seq<GlyphView>) -> bool {
    forall|i: int, j: int|
        0 <= i < j < glyphs.len() ==> (#[trigger] glyphs[i]).character != (
        #[trigger] glyphs[j]).character
}

/// The characters of the glyphs rise strictly along the sequence.
pub open spec fn increasing(glyphs: Seq<GlyphView>) -> bool {
    forall|i: int, j: int|
        0 <= i < j < glyphs.len() ==> ((#[trigger] glyphs[i]).character as u32) < ((
        #[trigger] glyphs[j]).character as u32)
}

/// One rasterized glyph: an 8-bit coverage bitmap of `width` by `rows` pixels, the
/// bearings of its top-left corner from the pen position on the baseline, and the
/// horizontal advance.
#[derive(Debug)]
pub struct Glyph {
    character: char,
    width: u32,
    rows: u32,
    coverage: Vec<u8>,
    left: i32,
    top: i32,
    advance: i32,
}

impl View for Glyph {
    type V = GlyphView;

    closed spec fn view(&self) -> GlyphView {
        GlyphView {
            character: self.character,
            width: self.width as nat,
            rows: self.rows as nat,
            coverage: self.coverage@,
            left: self.left as int,
            top: self.top as int,
            advance: self.advance as int,
        }
    }
}

impl Clone for Glyph {
    fn clone(&self) -> (r: Glyph)
        ensures
            r@ == self@,
    {
        proof {
            use_type_invariant(self);
        }
        let coverage = self.coverage.clone();
        assert(coverage@ =~= self.coverage@);
        Glyph {
            character: self.character,
            width: self.width,
            rows: self.rows,
            coverage,
            left: self.left,
            top: self.top,
            advance: self.advance,
        }
    }
}

impl Glyph {
    #[verifier::type_invariant]
    spec fn inv(&self) -> bool {
        self@.wf()
    }

    /// Makes a glyph from its parts; `None` when `coverage` does not hold exactly
    /// `width * rows` bytes.
    pub fn new(
        character: char,
        width: u32,
        rows: u32,
        coverage: Vec<u8>,
        left: i32,
        top: i32,
        advance: i32,
    ) -> (r: Option<Glyph>)
        ensures
            r is Some <==> coverage@.len() == width * rows,
            r matches Some(g) ==> g@ == (GlyphView {
                character,
                width: width as nat,
                rows: rows as nat,
                coverage: coverage@,
                left: left as int,
                top: top as int,
                advance: advance as int,
            }),
    {
        assert(width * rows <= 0xffff_ffff * 0xffff_ffff) by (nonlinear_arith)
            requires
                width <= 0xffff_ffff,
                rows <= 0xffff_ffff,
        ;
        let area: u64 = (width as u64) * (rows as u64);
        if coverage.len() as u64 == area {
            Some(Glyph { character, width, rows, coverage, left, top, advance })
        } else {
            None
        }
    }

    /// The character that the glyph draws.
    pub fn character(&self) -> (r: char)
        ensures
            r == self@.character,
    {
        self.character
    }

    /// Width of the bitmap in pixels.
    pub fn width(&self) -> (r: u32)
        ensures
            r == self@.width,
    {
        self.width
    }

    /// Height of the bitmap in pixels.
    pub fn rows(&self) -> (r: u32)
        ensures
            r == self@.rows,
    {
        self.rows
    }

    /// The coverage bytes, row after row, and the fact that they fill the bitmap.
    pub fn coverage(&self) -> (r: &Vec<u8>)
        ensures
            r@ == self@.coverage,
            self@.wf(),
    {
        proof {
            use_type_invariant(self);
        }
        &self.coverage
    }

    /// Pixels from the pen position to the left edge of the bitmap.
    pub fn left(&self) -> (r: i32)
        ensures
            r == self@.left,
    {
        self.left
    }

    /// Pixels from the baseline up to the top edge of the bitmap.
    pub fn top(&self) -> (r: i32)
        ensures
            r == self@.top,
    {
        self.top
    }

    /// Pixels that the pen moves right for this glyph.
    pub fn advance(&self) -> (r: i32)
        ensures
            r == self@.advance,
    {
        self.advance
    }
}

/// What the font engine tells of the glyph in its glyph slot after rendering: a
/// bitmap of `rows` rows, each `pitch` bytes after the one before, with `width`
/// pixels in the format that `pixel_mode` tells; the bearings of the bitmap in
/// pixels; and the horizontal advance in 64ths of a pixel.
#[derive(Clone, Copy, Debug)]
pub struct SlotMetrics {
    pub width: i32,
    pub rows: i32,
    pub pitch: i32,
    pub pixel_mode: u8,
    pub left: i32,
    pub top: i32,
    pub advance_x: i64,
}

/// `code` is a Unicode scalar value: a code point that is no surrogate.
pub open spec fn is_scalar_value(code: int) -> bool {
    0 <= code <= 0xD7FF || 0xE000 <= code <= 0x10FFFF
}

/// `char::from_u32` of std gives the character with the given code, and `None`
/// where the code is no Unicode scalar value.
pub assume_specification[ char::from_u32 ](i: u32) -> (r: Option<char>)
    ensures
        r == (if is_scalar_value(i as int) {
            Some(i as char)
        } else {
            None
        }),
;

/// The character with the given code; `None` where the code is no Unicode scalar
/// value.
pub fn char_of_code(code: usize) -> (r: Option<char>)
    ensures
        r == (if is_scalar_value(code as int) {
            Some(code as char)
        } else {
            None
        }),
{
    if code > 0x10FFFF {
        None
    } else {
        char::from_u32(code as u32)
    }
}

/// Bytes that one row of the bitmap takes.
pub open spec fn raw_row_bytes(raw: SlotMetrics) -> int {
    if raw.pixel_mode == PIXEL_MODE_MONO {
        (raw.width + 7) / 8
    } else {
        raw.width as int
    }
}

/// The bytes of the slot's bitmap can be asked for: the pitch and the rows are not
/// negative, and their product fits in 31 bits.
pub open spec fn readable(raw: SlotMetrics) -> bool {
    0 <= raw.pitch && 0 <= raw.rows && raw.pitch * raw.rows <= i32::MAX
}

/// What the slot holds can be turned into a `Glyph`: its bitmap is readable and
/// has one byte or one bit per pixel, its rows lie within the buffer, and its
/// numbers fit.
pub open spec fn raw_usable(raw: SlotMetrics, buffer: Seq<u8>) -> bool {
    &&& readable(raw)
    &&& raw.pixel_mode == PIXEL_MODE_GRAY || raw.pixel_mode == PIXEL_MODE_MONO
    &&& 0 <= raw.width
    &&& raw_row_bytes(raw) <= raw.pitch
    &&& raw.pitch * raw.rows <= buffer.len()
    &&& raw.width * raw.rows <= isize::MAX
    &&& i32::MIN <= raw.advance_x / 64 <= i32::MAX
}

/// Coverage of the pixel in column `x` of row `y` of the slot's bitmap: the byte
/// itself where there is one byte per pixel; where there is one bit per pixel, 255
/// for a set bit and 0 for a clear one.
pub open spec fn raw_coverage(raw: SlotMetrics, buffer: Seq<u8>, x: int, y: int) -> u8 {
    if raw.pixel_mode == PIXEL_MODE_MONO {
        if buffer[y * raw.pitch + x / 8] & (0x80u8 >> ((x % 8) as u8)) != 0 {
            255
        } else {
            0
        }
    } else {
        buffer[y * raw.pitch + x]
    }
}

/// The glyph of `character` that a usable slot holds: the size and the bearings of
/// the slot, the coverage of each pixel row after row, and the advance rounded
/// down to whole pixels.
pub open spec fn glyph_of(character: char, raw: SlotMetrics, buffer: Seq<u8>) -> GlyphView {
    GlyphView {
        character,
        width: raw.width as nat,
        rows: raw.rows as nat,
        coverage: Seq::new(
            (raw.width * raw.rows) as nat,
            |k: int| raw_coverage(raw, buffer, k % (raw.width as int), k / (raw.width as int)),
        ),
        left: raw.left as int,
        top: raw.top as int,
        advance: raw.advance_x / 64,
    }
}

impl SlotMetrics {
    /// Tells whether the bytes of the slot's bitmap can be asked for.
    pub fn is_readable(&self) -> (r: bool)
        ensures
            r == readable(*self),
    {
        if self.pitch < 0 || self.rows < 0 {
            return false;
        }
        assert(self.pitch * self.rows <= 0x7fff_ffff * 0x7fff_ffff) by (nonlinear_arith)
            requires
                0 <= self.pitch <= 0x7fff_ffff,
                0 <= self.rows <= 0x7fff_ffff,
        ;
        (self.pitch as i64) * (self.rows as i64) <= i32::MAX as i64
    }
}

/// The character with the given code, where the code is a Unicode scalar value
/// that is not below `floor`.
pub fn rising_char(code: usize, floor: u32) -> (r: Option<char>)
    ensures
        r == (if is_scalar_value(code as int) && floor <= code {
            Some(code as char)
        } else {
            None
        }),
{
    match char_of_code(code) {
        Some(c) => if c as u32 >= floor {
            Some(c)
        } else {
            None
        },
        None => None,
    }
}

impl Glyph {
    /// Turns what the font engine rendered for `character` into a glyph: the rows
    /// of the bitmap without their padding, one coverage byte per pixel, and the
    /// advance rounded down to whole pixels. `None` when what the slot holds is not
    /// usable.
    pub fn from_raw(character: char, raw: &SlotMetrics, buffer: &Vec<u8>) -> (r: Option<Glyph>)
        ensures
            r is Some <==> raw_usable(*raw, buffer@),
            r matches Some(g) ==> {
                &&& g@ == glyph_of(character, *raw, buffer@)
                &&& g@.wf()
                &&& g@.character == character
                &&& g@.width == raw.width
                &&& g@.rows == raw.rows
                &&& g@.left == raw.left
                &&& g@.top == raw.top
                &&& g@.advance == raw.advance_x / 64
                &&& forall|x: int, y: int|
                    0 <= x < raw.width && 0 <= y < raw.rows ==> #[trigger] g@.pixel(x, y)
                        == raw_coverage(*raw, buffer@, x, y)
            },
    {
        let mono: bool = raw.pixel_mode == PIXEL_MODE_MONO;
        if !mono && raw.pixel_mode != PIXEL_MODE_GRAY {
            return None;
        }
        if raw.width < 0 || !raw.is_readable() {
            return None;
        }
        let w: u32 = raw.width as u32;
        let h: u32 = raw.rows as u32;
        let pitch: u32 = raw.pitch as u32;
        let row_bytes: u32 = if mono {
            (w + 7) / 8
        } else {
            w
        };
        if row_bytes > pitch {
            return None;
        }
        assert(pitch * h <= 0x8000_0000 * 0x8000_0000) by (nonlinear_arith)
            requires
                pitch <= 0x8000_0000,
                h <= 0x8000_0000,
        ;
        assert(w * h <= 0x8000_0000 * 0x8000_0000) by (nonlinear_arith)
            requires
                w <= 0x8000_0000,
                h <= 0x8000_0000,
        ;
        if (pitch as u64) * (h as u64) > buffer.len() as u64 {
            return None;
        }
        if (w as u64) * (h as u64) > isize::MAX as u64 {
            return None;
        }
        if raw.advance_x < -0x20_0000_0000 || raw.advance_x >= 0x20_0000_0000 {
            return None;
        }
        let advance: i32 = if raw.advance_x >= 0 {
            (raw.advance_x / 64) as i32
        } else {
            let below: i64 = -raw.advance_x;
            (-((below + 63) / 64)) as i32
        };
        let mut coverage: Vec<u8> = Vec::with_capacity(((w as u64) * (h as u64)) as usize);
        let mut y: u32 = 0;
        while y < h
            invariant
                y <= h,
                w == raw.width,
                h == raw.rows,
                pitch == raw.pitch,
                mono == (raw.pixel_mode == PIXEL_MODE_MONO),
                row_bytes == raw_row_bytes(*raw),
                row_bytes <= pitch,
                pitch * h <= buffer@.len(),
                w * h <= isize::MAX,
                coverage@.len() == y * w,
                forall|px: int, py: int|
                    0 <= px < w && 0 <= py < y ==> #[trigger] pixel_at(
                        coverage@,
                        w as int,
                        px,
                        py,
                    ) == raw_coverage(*raw, buffer@, px, py),
            decreases h - y,
        {
            let mut x: u32 = 0;
            while x < w
                invariant
                    y < h,
                    x <= w,
                    w == raw.width,
                    h == raw.rows,
                    pitch == raw.pitch,
                    mono == (raw.pixel_mode == PIXEL_MODE_MONO),
                    row_bytes == raw_row_bytes(*raw),
                    row_bytes <= pitch,
                    pitch * h <= buffer@.len(),
                    w * h <= isize::MAX,
                    coverage@.len() == y * w + x,
                    forall|px: int, py: int|
                        0 <= px < w && (0 <= py < y || (py == y && px < x)) ==> #[trigger] pixel_at(
                            coverage@,
                            w as int,
                            px,
                            py,
                        ) == raw_coverage(*raw, buffer@, px, py),
                decreases w - x,
            {
                let column: u32 = if mono {
                    x / 8
                } else {
                    x
                };
                proof {
                    lemma_pixel_index(pitch as int, h as int, column as int, y as int);
                    lemma_pixel_index(w as int, h as int, x as int, y as int);
                    assert(y * pitch + column < buffer.len());
                }
                let byte: u8 = buffer[(y as usize) * (pitch as usize) + (column as usize)];
                let value: u8 = if mono {
                    if byte & (0x80u8 >> ((x % 8) as u8)) != 0 {
                        255
                    } else {
                        0
                    }
                } else {
                    byte
                };
                let ghost before = coverage@;
                coverage.push(value);
                proof {
                    assert forall|px: int, py: int|
                        0 <= px < w && (0 <= py < y || (py == y && px < x
                            + 1)) implies #[trigger] pixel_at(coverage@, w as int, px, py)
                        == raw_coverage(*raw, buffer@, px, py) by {
                        if py < y {
                            lemma_pixel_index(w as int, y as int, px, py);
                            assert(pixel_at(coverage@, w as int, px, py) == pixel_at(
                                before,
                                w as int,
                                px,
                                py,
                            ));
                        } else if px < x {
                            assert(pixel_at(coverage@, w as int, px, py) == pixel_at(
                                before,
                                w as int,
                                px,
                                py,
                            ));
                        }
                    }
                }
                x += 1;
            }
            proof {
                lemma_next_row(w as int, y as int);
            }
            y += 1;
        }
        assert(h * w == w * h) by (nonlinear_arith);
        proof {
            let made = glyph_of(character, *raw, buffer@);
            assert(coverage@.len() == made.coverage.len());
            assert forall|k: int| 0 <= k < coverage@.len() implies coverage@[k]
                == made.coverage[k] by {
                lemma_pixel_of_index(w as int, h as int, k);
                assert(coverage@[k] == pixel_at(
                    coverage@,
                    w as int,
                    k % (w as int),
                    k / (w as int),
                ));
            }
            assert(coverage@ =~= made.coverage);
        }
        Some(
            Glyph {
                character,
                width: w,
                rows: h,
                coverage,
                left: raw.left,
                top: raw.top,
                advance,
            },
        )
    }
}

} // verus!
