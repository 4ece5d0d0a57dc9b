//! The atlas: every glyph of a font packed into one texture whose sides are powers
//! of two, with the place and the metrics of each glyph.

use crate::error::FontError;
use crate::glyph::{all_wf, distinct_characters, glyph_views, increasing, Glyph, GlyphView};
use crate::grid::{
    lemma_pixel_index, lemma_pixel_index_injective, lemma_pixel_of_index, pixel_at,
};
use crate::packing::{
    advance_of, all_fit, atlas_height, atlas_width, covers, cursor_after, describes, disjoint,
    glyph_rect, in_bounds, initial_width, lemma_atlas_width, lemma_cursor_unfold,
    lemma_rect_in_bounds,
    lemma_rects_disjoint, lemma_used_rows_monotonic, rect_of, used_rows, CharacterInfos, Cursor,
    Rect, MAX_SIDE,
};
use crate::raster::rasterize;
use crate::po2::{get_nearest_po2, is_power_of_two, lemma_nearest_po2, nearest_po2};
use vstd::prelude::*;

verus! {

/// Some glyph's rectangle holds the pixel in column `x` of row `y`.
pub open spec fn covered(glyphs: Seq<GlyphView>, width: nat, x: int, y: int) -> bool {
    exists|i: int| 0 <= i < glyphs.len() && covers(#[trigger] glyph_rect(glyphs, width, i), x, y)
}

/// An atlas can be built: its sides stay within `MAX_SIDE`, no glyph is wider than
/// it, and one buffer can hold its pixels.
pub open spec fn packable(glyphs: Seq<GlyphView>, font_size: nat) -> bool {
    let width = atlas_width(glyphs.len(), font_size);
    let height = atlas_height(glyphs, width);
    &&& width <= MAX_SIDE
    &&& all_fit(glyphs, width)
    &&& height <= MAX_SIDE
    &&& width * height <= isize::MAX
}

/// The error for glyphs of which no atlas can be built.
pub open spec fn pack_error(glyphs: Seq<GlyphView>, font_size: nat) -> FontError {
    let width = atlas_width(glyphs.len(), font_size);
    if width <= MAX_SIDE && !all_fit(glyphs, width) {
        FontError::AtlasPack
    } else {
        FontError::AtlasTooLarge
    }
}

/// An atlas as mathematical values: `height` rows of `width` coverage bytes, and
/// for each glyph its character and what is recorded of it.
pub struct AtlasView {
    pub pixels: Seq<u8>,
    pub width: nat,
    pub height: nat,
    pub infos: Seq<(char, CharacterInfos)>,
}

impl AtlasView {
    /// Coverage at column `x` of row `y`.
    pub open spec fn pixel(self, x: int, y: int) -> u8 {
        pixel_at(self.pixels, self.width as int, x, y)
    }

    /// No character is recorded twice.
    pub open spec fn distinct(self) -> bool {
        forall|i: int, j: int|
            0 <= i < j < self.infos.len() ==> (#[trigger] self.infos[i]).0 != (
            #[trigger] self.infos[j]).0
    }

    /// The rectangle of glyph `i`.
    pub open spec fn rect(self, i: int) -> Rect {
        rect_of(self.infos[i].1)
    }

    /// Both sides are powers of two, every glyph lies within the atlas, no two
    /// glyphs share a pixel, and each glyph's advance fits in 32 bits.
    pub open spec fn wf(self) -> bool {
        self.geometry_wf() && self.advances_fit()
    }

    /// Each glyph's advance fits in 32 bits.
    pub open spec fn advances_fit(self) -> bool {
        forall|i: int|
            0 <= i < self.infos.len() ==> i32::MIN <= advance_of(#[trigger] self.infos[i].1)
                <= i32::MAX
    }

    /// Both sides are powers of two within `MAX_SIDE`, the buffer holds one byte for
    /// each pixel, every glyph lies within the atlas, and no two glyphs share a pixel.
    pub open spec fn geometry_wf(self) -> bool {
        &&& is_power_of_two(self.width as int)
        &&& is_power_of_two(self.height as int)
        &&& self.width <= MAX_SIDE
        &&& self.height <= MAX_SIDE
        &&& self.pixels.len() == self.width * self.height
        &&& forall|i: int|
            0 <= i < self.infos.len() ==> in_bounds(
                #[trigger] self.rect(i),
                self.width as int,
                self.height as int,
            )
        &&& forall|i: int, j: int|
            0 <= i < j < self.infos.len() ==> disjoint(
                #[trigger] self.rect(i),
                #[trigger] self.rect(j),
            )
    }

    /// This atlas is what packing `glyphs` at `font_size` gives: the dimensions, the
    /// record of each glyph in order, and every pixel, which holds the coverage of
    /// the glyph whose rectangle it lies in and `0` where no glyph lies.
    pub open spec fn packs(self, glyphs: Seq<GlyphView>, font_size: nat) -> bool {
        &&& self.width == atlas_width(glyphs.len(), font_size)
        &&& self.height == atlas_height(glyphs, self.width)
        &&& self.pixels.len() == self.width * self.height
        &&& self.infos.len() == glyphs.len()
        &&& forall|i: int|
            0 <= i < glyphs.len() ==> (#[trigger] self.infos[i]).0 == glyphs[i].character
                && describes(self.infos[i].1, glyphs[i], glyph_rect(glyphs, self.width, i))
        &&& forall|i: int, x: int, y: int|
            0 <= i < glyphs.len() && covers(#[trigger] glyph_rect(glyphs, self.width, i), x, y)
                ==> #[trigger] self.pixel(x, y) == glyphs[i].pixel(
                x - glyph_rect(glyphs, self.width, i).x,
                y - glyph_rect(glyphs, self.width, i).y,
            )
        &&& forall|x: int, y: int|
            0 <= x < self.width && 0 <= y < self.height && !covered(glyphs, self.width, x, y)
                ==> #[trigger] self.pixel(x, y) == 0
    }
}

/// `i` is the first place in `infos` that holds the character `c`.
pub open spec fn is_first(infos: Seq<(char, CharacterInfos)>, c: char, i: int) -> bool {
    &&& 0 <= i < infos.len()
    &&& infos[i].0 == c
    &&& forall|j: int| 0 <= j < i ==> (#[trigger] infos[j]).0 != c
}

/// What is recorded of the character `c`: the first record that holds it, if any.
pub open spec fn lookup(infos: Seq<(char, CharacterInfos)>, c: char) -> Option<CharacterInfos> {
    if exists|i: int| is_first(infos, c, i) {
        Some(infos[choose|i: int| is_first(infos, c, i)].1)
    } else {
        None
    }
}

/// What `lookup` finds is one of the records.
pub proof fn lemma_lookup(infos: Seq<(char, CharacterInfos)>, c: char)
    ensures
        lookup(infos, c) matches Some(info) ==> exists|i: int|
            0 <= i < infos.len() && #[trigger] infos[i] == (c, info),
        lookup(infos, c) is None ==> forall|i: int|
            0 <= i < infos.len() ==> (#[trigger] infos[i]).0 != c,
{
    if exists|i: int| is_first(infos, c, i) {
        let i = choose|i: int| is_first(infos, c, i);
        assert(infos[i] == (c, infos[i].1));
    } else {
        assert forall|i: int| 0 <= i < infos.len() implies (#[trigger] infos[i]).0 != c by {
            if infos[i].0 == c {
                lemma_first_exists(infos, c, i);
            }
        }
    }
}

/// Where a record holds `c`, a first record holds it.
proof fn lemma_first_exists(infos: Seq<(char, CharacterInfos)>, c: char, i: int)
    requires
        0 <= i < infos.len(),
        infos[i].0 == c,
    ensures
        exists|k: int| is_first(infos, c, k),
    decreases i,
{
    if exists|j: int| 0 <= j < i && (#[trigger] infos[j]).0 == c {
        let j = choose|j: int| 0 <= j < i && (#[trigger] infos[j]).0 == c;
        lemma_first_exists(infos, c, j);
    } else {
        assert(is_first(infos, c, i));
    }
}

/// Tells whether every glyph is at most `width` pixels wide.
fn glyphs_fit(glyphs: &Vec<Glyph>, width: u32) -> (r: bool)
    ensures
        r == all_fit(glyph_views(glyphs@), width as nat),
{
    let mut i: usize = 0;
    while i < glyphs.len()
        invariant
            0 <= i <= glyphs.len(),
            forall|k: int| 0 <= k < i ==> (#[trigger] glyph_views(glyphs@)[k]).width <= width,
        decreases glyphs.len() - i,
    {
        if glyphs[i].width() > width {
            assert(glyph_views(glyphs@)[i as int].width > width);
            return false;
        }
        i += 1;
    }
    true
}

/// Places the glyphs on shelves and records each one; `None` when the shelves take
/// more than `MAX_SIDE` rows.
fn place_glyphs(glyphs: &Vec<Glyph>, width: u32) -> (r: Option<
    (Vec<(char, CharacterInfos)>, u32),
>)
    requires
        width <= MAX_SIDE,
        all_fit(glyph_views(glyphs@), width as nat),
    ensures
        r is Some <==> used_rows(glyph_views(glyphs@), width as nat) <= MAX_SIDE,
        r matches Some((infos, rows)) ==> {
            &&& rows == used_rows(glyph_views(glyphs@), width as nat)
            &&& infos@.len() == glyphs@.len()
            &&& forall|i: int|
                0 <= i < infos@.len() ==> (#[trigger] infos@[i]).0 == glyph_views(
                    glyphs@,
                )[i].character && describes(
                    infos@[i].1,
                    glyph_views(glyphs@)[i],
                    glyph_rect(glyph_views(glyphs@), width as nat, i),
                )
            &&& forall|i: int|
                0 <= i < infos@.len() ==> i32::MIN <= advance_of((#[trigger] infos@[i]).1)
                    <= i32::MAX
        },
{
    let ghost views = glyph_views(glyphs@);
    let mut infos: Vec<(char, CharacterInfos)> = Vec::new();
    let mut x: u32 = 0;
    let mut y: u32 = 0;
    let mut shelf: u32 = 0;
    let mut i: usize = 0;
    while i < glyphs.len()
        invariant
            0 <= i <= glyphs.len(),
            views == glyph_views(glyphs@),
            width <= MAX_SIDE,
            all_fit(views, width as nat),
            cursor_after(views.take(i as int), width as nat) == (Cursor {
                x: x as nat,
                y: y as nat,
                shelf: shelf as nat,
            }),
            x <= width,
            y + shelf <= MAX_SIDE,
            infos@.len() == i,
            forall|k: int|
                0 <= k < i ==> (#[trigger] infos@[k]).0 == views[k].character && describes(
                    infos@[k].1,
                    views[k],
                    glyph_rect(views, width as nat, k),
                ),
            forall|k: int|
                0 <= k < i ==> i32::MIN <= advance_of((#[trigger] infos@[k]).1) <= i32::MAX,
        decreases glyphs.len() - i,
    {
        let glyph = &glyphs[i];
        let w: u32 = glyph.width();
        let h: u32 = glyph.rows();
        proof {
            lemma_cursor_unfold(views, width as nat, i + 1);
            assert(views[i as int] == glyph@);
            assert(views[i as int].width <= width);
        }
        if w > width - x {
            y = y + shelf;
            x = 0;
            shelf = 0;
        }
        if shelf < h {
            shelf = h;
        }
        if (y as u64) + (shelf as u64) > MAX_SIDE as u64 {
            proof {
                lemma_used_rows_monotonic(views, width as nat, i + 1, views.len() as int);
                assert(views.take(views.len() as int) =~= views);
            }
            return None;
        }
        let info = CharacterInfos {
            coords: (x, y),
            size: (w, h),
            height_over_line: glyph.top(),
            left_padding: glyph.left(),
            right_padding: (glyph.advance() as i64) - (w as i64) - (glyph.left() as i64),
        };
        infos.push((glyph.character(), info));
        x = x + w;
        i += 1;
    }
    proof {
        assert(views.take(views.len() as int) =~= views);
    }
    Some((infos, y + shelf))
}

/// Coverage at `(x, y)` after the first `k` glyphs were copied into an empty
/// atlas, one after the other.
spec fn painted(glyphs: Seq<GlyphView>, width: nat, k: int, x: int, y: int) -> u8
    decreases k,
{
    if k <= 0 {
        0
    } else {
        let r = glyph_rect(glyphs, width, k - 1);
        if covers(r, x, y) {
            glyphs[k - 1].pixel(x - r.x, y - r.y)
        } else {
            painted(glyphs, width, k - 1, x, y)
        }
    }
}

/// Since no two glyphs share a pixel, copying them one after the other leaves in
/// each glyph's rectangle that glyph's coverage.
proof fn lemma_painted_inside(glyphs: Seq<GlyphView>, width: nat, k: int, i: int, x: int, y: int)
    requires
        0 <= i < k <= glyphs.len(),
        covers(glyph_rect(glyphs, width, i), x, y),
    ensures
        painted(glyphs, width, k, x, y) == glyphs[i].pixel(
            x - glyph_rect(glyphs, width, i).x,
            y - glyph_rect(glyphs, width, i).y,
        ),
    decreases k,
{
    if i < k - 1 {
        lemma_rects_disjoint(glyphs, width, i, k - 1);
        lemma_painted_inside(glyphs, width, k - 1, i, x, y);
    }
}

/// Where no glyph lies, the atlas stays empty.
proof fn lemma_painted_outside(glyphs: Seq<GlyphView>, width: nat, k: int, x: int, y: int)
    requires
        0 <= k <= glyphs.len(),
        !covered(glyphs, width, x, y),
    ensures
        painted(glyphs, width, k, x, y) == 0,
    decreases k,
{
    if k > 0 {
        assert(!covers(glyph_rect(glyphs, width, k - 1), x, y));
        lemma_painted_outside(glyphs, width, k - 1, x, y);
    }
}

/// Coverage at `(x, y)` while a glyph is copied to column `ox` of row `oy`: that
/// of the glyph where its pixel is copied already, in a row above row `dy` of the
/// glyph or in that row left of column `dx`, and that of `start` elsewhere.
spec fn copying(
    start: Seq<u8>,
    width: int,
    glyph: GlyphView,
    ox: int,
    oy: int,
    dx: int,
    dy: int,
    x: int,
    y: int,
) -> u8 {
    let rect = Rect { x: ox, y: oy, w: glyph.width as int, h: glyph.rows as int };
    if covers(rect, x, y) && (y - oy < dy || (y - oy == dy && x - ox < dx)) {
        glyph.pixel(x - ox, y - oy)
    } else {
        pixel_at(start, width, x, y)
    }
}

/// Copies the coverage of `glyph` into the atlas with its top-left pixel at column
/// `ox` of row `oy`; every other pixel keeps its value.
fn blit(pixels: &mut Vec<u8>, width: u32, height: u32, glyph: &Glyph, ox: u32, oy: u32)
    requires
        old(pixels)@.len() == width * height,
        ox + glyph@.width <= width,
        oy + glyph@.rows <= height,
    ensures
        final(pixels)@.len() == old(pixels)@.len(),
        forall|x: int, y: int|
            0 <= x < width && 0 <= y < height ==> #[trigger] pixel_at(
                final(pixels)@,
                width as int,
                x,
                y,
            ) == (if covers(
                Rect { x: ox as int, y: oy as int, w: glyph@.width as int, h: glyph@.rows as int },
                x,
                y,
            ) {
                glyph@.pixel(x - ox, y - oy)
            } else {
                pixel_at(old(pixels)@, width as int, x, y)
            }),
{
    let w: u32 = glyph.width();
    let h: u32 = glyph.rows();
    let coverage = glyph.coverage();
    let ghost start = pixels@;
    let mut dy: u32 = 0;
    while dy < h
        invariant
            dy <= h,
            w == glyph@.width,
            h == glyph@.rows,
            coverage@ == glyph@.coverage,
            glyph@.wf(),
            ox + w <= width,
            oy + h <= height,
            pixels@.len() == width * height,
            forall|x: int, y: int|
                0 <= x < width && 0 <= y < height ==> #[trigger] pixel_at(
                    pixels@,
                    width as int,
                    x,
                    y,
                ) == copying(start, width as int, glyph@, ox as int, oy as int, 0, dy as int, x, y),
        decreases h - dy,
    {
        let mut dx: u32 = 0;
        while dx < w
            invariant
                dy < h,
                dx <= w,
                w == glyph@.width,
                h == glyph@.rows,
                coverage@ == glyph@.coverage,
                glyph@.wf(),
                ox + w <= width,
                oy + h <= height,
                pixels@.len() == width * height,
                forall|x: int, y: int|
                    0 <= x < width && 0 <= y < height ==> #[trigger] pixel_at(
                        pixels@,
                        width as int,
                        x,
                        y,
                    ) == copying(
                        start,
                        width as int,
                        glyph@,
                        ox as int,
                        oy as int,
                        dx as int,
                        dy as int,
                        x,
                        y,
                    ),
            decreases w - dx,
        {
            proof {
                lemma_pixel_index(w as int, h as int, dx as int, dy as int);
                lemma_pixel_index(width as int, height as int, ox + dx, oy + dy);
                assert(dy * w + dx < coverage.len());
                assert((oy + dy) * width + (ox + dx) < pixels.len());
            }
            let from: usize = (dy as usize) * (w as usize) + (dx as usize);
            let to: usize = ((oy + dy) as usize) * (width as usize) + ((ox + dx) as usize);
            let ghost before = pixels@;
            pixels.set(to, coverage[from]);
            proof {
                assert forall|x: int, y: int|
                    0 <= x < width && 0 <= y < height implies #[trigger] pixel_at(
                    pixels@,
                    width as int,
                    x,
                    y,
                ) == copying(
                    start,
                    width as int,
                    glyph@,
                    ox as int,
                    oy as int,
                    dx + 1,
                    dy as int,
                    x,
                    y,
                ) by {
                    lemma_pixel_index(width as int, height as int, x, y);
                    if y * width + x == to {
                        lemma_pixel_index_injective(width as int, x, y, ox + dx, oy + dy);
                    } else {
                        assert(pixel_at(pixels@, width as int, x, y) == pixel_at(
                            before,
                            width as int,
                            x,
                            y,
                        ));
                    }
                }
            }
            dx += 1;
        }
        dy += 1;
    }
}

/// Copies every glyph into an empty atlas at its recorded place.
fn paint(
    pixels: &mut Vec<u8>,
    width: u32,
    height: u32,
    glyphs: &Vec<Glyph>,
    infos: &Vec<(char, CharacterInfos)>,
)
    requires
        old(pixels)@.len() == width * height,
        forall|k: int| 0 <= k < old(pixels)@.len() ==> old(pixels)@[k] == 0,
        infos@.len() == glyphs@.len(),
        forall|i: int|
            0 <= i < infos@.len() ==> rect_of((#[trigger] infos@[i]).1) == glyph_rect(
                glyph_views(glyphs@),
                width as nat,
                i,
            ),
        forall|i: int|
            0 <= i < infos@.len() ==> in_bounds(
                #[trigger] glyph_rect(glyph_views(glyphs@), width as nat, i),
                width as int,
                height as int,
            ),
    ensures
        final(pixels)@.len() == old(pixels)@.len(),
        forall|x: int, y: int|
            0 <= x < width && 0 <= y < height ==> #[trigger] pixel_at(
                final(pixels)@,
                width as int,
                x,
                y,
            ) == painted(glyph_views(glyphs@), width as nat, glyphs@.len() as int, x, y),
{
    let ghost views = glyph_views(glyphs@);
    proof {
        assert forall|x: int, y: int| 0 <= x < width && 0 <= y < height implies #[trigger] pixel_at(
            pixels@,
            width as int,
            x,
            y,
        ) == 0 by {
            lemma_pixel_index(width as int, height as int, x, y);
        }
    }
    let mut i: usize = 0;
    while i < glyphs.len()
        invariant
            0 <= i <= glyphs.len(),
            views == glyph_views(glyphs@),
            pixels@.len() == width * height,
            infos@.len() == glyphs@.len(),
            forall|k: int|
                0 <= k < infos@.len() ==> rect_of((#[trigger] infos@[k]).1) == glyph_rect(
                    views,
                    width as nat,
                    k,
                ),
            forall|k: int|
                0 <= k < infos@.len() ==> in_bounds(
                    #[trigger] glyph_rect(views, width as nat, k),
                    width as int,
                    height as int,
                ),
            forall|x: int, y: int|
                0 <= x < width && 0 <= y < height ==> #[trigger] pixel_at(
                    pixels@,
                    width as int,
                    x,
                    y,
                ) == painted(views, width as nat, i as int, x, y),
        decreases glyphs.len() - i,
    {
        let glyph = &glyphs[i];
        let at: (u32, u32) = infos[i].1.coords;
        proof {
            assert(views[i as int] == glyph@);
            assert(rect_of(infos@[i as int].1) == glyph_rect(views, width as nat, i as int));
            assert(in_bounds(
                glyph_rect(views, width as nat, i as int),
                width as int,
                height as int,
            ));
        }
        blit(pixels, width, height, glyph, at.0, at.1);
        i += 1;
    }
}

/// An atlas packed from glyphs that could be packed has sides that are powers of
/// two, holds every glyph within its bounds, and holds no two glyphs on a common
/// pixel.
pub proof fn lemma_packed_geometry(atlas: AtlasView, glyphs: Seq<GlyphView>, font_size: nat)
    requires
        packable(glyphs, font_size),
        atlas.packs(glyphs, font_size),
    ensures
        atlas.geometry_wf(),
{
    let width = atlas.width;
    lemma_atlas_width(glyphs.len(), font_size);
    lemma_nearest_po2(used_rows(glyphs, width));
    assert forall|i: int| 0 <= i < atlas.infos.len() implies in_bounds(
        #[trigger] atlas.rect(i),
        atlas.width as int,
        atlas.height as int,
    ) by {
        assert(atlas.infos[i].0 == glyphs[i].character);
        lemma_rect_in_bounds(glyphs, width, i);
    }
    assert forall|i: int, j: int| 0 <= i < j < atlas.infos.len() implies disjoint(
        #[trigger] atlas.rect(i),
        #[trigger] atlas.rect(j),
    ) by {
        assert(atlas.infos[i].0 == glyphs[i].character);
        assert(atlas.infos[j].0 == glyphs[j].character);
        lemma_rects_disjoint(glyphs, width, i, j);
    }
}

/// An atlas packed from well-formed glyphs that could be packed is well formed.
pub proof fn lemma_packed_wf(atlas: AtlasView, glyphs: Seq<GlyphView>, font_size: nat)
    requires
        all_wf(glyphs),
        packable(glyphs, font_size),
        atlas.packs(glyphs, font_size),
    ensures
        atlas.wf(),
{
    lemma_packed_geometry(atlas, glyphs, font_size);
    assert forall|i: int| 0 <= i < atlas.infos.len() implies i32::MIN <= advance_of(
        #[trigger] atlas.infos[i].1,
    ) <= i32::MAX by {
        assert(atlas.infos[i].0 == glyphs[i].character);
        assert(glyphs[i].wf());
    }
}

/// Packs the glyphs, in the order given, into one atlas: the coverage bytes row
/// after row, the width and the height, and the record of each glyph.
pub fn build_font_image(glyphs: &Vec<Glyph>, font_size: u32) -> (r: Result<
    (Vec<u8>, (u32, u32), Vec<(char, CharacterInfos)>),
    FontError,
>)
    requires
        font_size > 0,
    ensures
        r is Ok <==> packable(glyph_views(glyphs@), font_size as nat),
        r matches Ok((pixels, (width, height), infos)) ==> {
            let atlas = AtlasView {
                pixels: pixels@,
                width: width as nat,
                height: height as nat,
                infos: infos@,
            };
            atlas.packs(glyph_views(glyphs@), font_size as nat) && atlas.wf()
        },
        r matches Err(e) ==> e == pack_error(glyph_views(glyphs@), font_size as nat),
{
    let ghost views = glyph_views(glyphs@);
    let width: u32 = match initial_width(glyphs.len(), font_size) {
        Some(width) => width,
        None => {
            return Err(FontError::AtlasTooLarge);
        },
    };
    if !glyphs_fit(glyphs, width) {
        return Err(FontError::AtlasPack);
    }
    proof {
        lemma_nearest_po2(used_rows(views, width as nat));
    }
    let (infos, rows) = match place_glyphs(glyphs, width) {
        Some(placed) => placed,
        None => {
            return Err(FontError::AtlasTooLarge);
        },
    };
    proof {
        assert(nearest_po2(0) == nearest_po2(1));
    }
    let height: u32 = get_nearest_po2(if rows == 0 {
        1
    } else {
        rows
    });
    assert(width * height <= 0x8000_0000 * 0x8000_0000) by (nonlinear_arith)
        requires
            width <= 0x8000_0000,
            height <= 0x8000_0000,
    ;
    let total: u64 = (width as u64) * (height as u64);
    if total > isize::MAX as u64 {
        return Err(FontError::AtlasTooLarge);
    }
    let mut pixels: Vec<u8> = vec![0u8; total as usize];
    proof {
        assert forall|i: int| 0 <= i < infos@.len() implies in_bounds(
            #[trigger] glyph_rect(views, width as nat, i),
            width as int,
            height as int,
        ) by {
            lemma_rect_in_bounds(views, width as nat, i);
        }
        assert forall|i: int| 0 <= i < infos@.len() implies rect_of((#[trigger] infos@[i]).1)
            == glyph_rect(views, width as nat, i) by {
            assert(infos@[i].0 == views[i].character);
        }
    }
    paint(&mut pixels, width, height, glyphs, &infos);
    proof {
        let atlas = AtlasView {
            pixels: pixels@,
            width: width as nat,
            height: height as nat,
            infos: infos@,
        };
        assert forall|i: int, x: int, y: int|
            0 <= i < views.len() && covers(
                #[trigger] glyph_rect(views, atlas.width, i),
                x,
                y,
            ) implies #[trigger] atlas.pixel(x, y) == views[i].pixel(
            x - glyph_rect(views, atlas.width, i).x,
            y - glyph_rect(views, atlas.width, i).y,
        ) by {
            assert(in_bounds(glyph_rect(views, width as nat, i), width as int, height as int));
            lemma_painted_inside(views, width as nat, views.len() as int, i, x, y);
        }
        assert forall|x: int, y: int|
            0 <= x < atlas.width && 0 <= y < atlas.height && !covered(
                views,
                atlas.width,
                x,
                y,
            ) implies #[trigger] atlas.pixel(x, y) == 0 by {
            lemma_painted_outside(views, width as nat, views.len() as int, x, y);
        }
        assert(atlas.packs(views, font_size as nat));
        lemma_packed_geometry(atlas, views, font_size as nat);
    }
    Ok((pixels, (width, height), infos))
}

/// An atlas packed from glyphs of different characters records no character twice.
pub proof fn lemma_packed_distinct(atlas: AtlasView, glyphs: Seq<GlyphView>, font_size: nat)
    requires
        distinct_characters(glyphs),
        atlas.packs(glyphs, font_size),
    ensures
        atlas.distinct(),
{
    assert forall|i: int, j: int| 0 <= i < j < atlas.infos.len() implies (
    #[trigger] atlas.infos[i]).0 != (#[trigger] atlas.infos[j]).0 by {
        assert(glyphs[i].character != glyphs[j].character);
    }
}

/// In an atlas packed from glyphs of different characters, each glyph is recorded
/// once, and looking its character up finds that record.
pub proof fn lemma_recorded_once(atlas: AtlasView, glyphs: Seq<GlyphView>, font_size: nat, i: int)
    requires
        distinct_characters(glyphs),
        atlas.packs(glyphs, font_size),
        0 <= i < glyphs.len(),
    ensures
        lookup(atlas.infos, glyphs[i].character) == Some(atlas.infos[i].1),
        forall|j: int|
            0 <= j < atlas.infos.len() && j != i ==> (#[trigger] atlas.infos[j]).0
                != glyphs[i].character,
{
    let c = glyphs[i].character;
    assert forall|j: int| 0 <= j < atlas.infos.len() && j != i implies (
    #[trigger] atlas.infos[j]).0 != c by {
        assert(glyphs[j].character != glyphs[i].character);
    }
    assert(atlas.infos[i].0 == c);
    assert(is_first(atlas.infos, c, i));
}

/// Two atlases packed from the same glyphs at the same size are the same atlas:
/// the same pixels and the same records.
pub proof fn lemma_packs_deterministic(
    a: AtlasView,
    b: AtlasView,
    glyphs: Seq<GlyphView>,
    font_size: nat,
)
    requires
        a.packs(glyphs, font_size),
        b.packs(glyphs, font_size),
    ensures
        a == b,
{
    let width = a.width;
    let height = a.height;
    assert(a.infos =~= b.infos) by {
        assert forall|i: int| 0 <= i < a.infos.len() implies a.infos[i] == b.infos[i] by {
            assert(a.infos[i].0 == glyphs[i].character);
            assert(b.infos[i].0 == glyphs[i].character);
            assert(rect_of(a.infos[i].1) == rect_of(b.infos[i].1));
        }
    }
    assert(a.pixels =~= b.pixels) by {
        assert forall|k: int| 0 <= k < a.pixels.len() implies a.pixels[k] == b.pixels[k] by {
            if width > 0 {
                lemma_pixel_of_index(width as int, height as int, k);
                let x = k % (width as int);
                let y = k / (width as int);
                assert(a.pixel(x, y) == a.pixels[k]);
                assert(b.pixel(x, y) == b.pixels[k]);
                if covered(glyphs, width, x, y) {
                    let i = choose|i: int|
                        0 <= i < glyphs.len() && covers(
                            #[trigger] glyph_rect(glyphs, width, i),
                            x,
                            y,
                        );
                    assert(a.pixel(x, y) == glyphs[i].pixel(
                        x - glyph_rect(glyphs, width, i).x,
                        y - glyph_rect(glyphs, width, i).y,
                    ));
                }
            } else {
                assert(width * height == 0) by (nonlinear_arith)
                    requires
                        width == 0,
                ;
            }
        }
    }
}

/// The atlas of one font at one size: the packed coverage of its glyphs and, for
/// each character, where its glyph lies and how the pen moves for it. Immutable
/// once built.
#[derive(Debug)]
pub struct FontTexture {
    pixels: Vec<u8>,
    width: u32,
    height: u32,
    character_infos: Vec<(char, CharacterInfos)>,
}

impl View for FontTexture {
    type V = AtlasView;

    closed spec fn view(&self) -> AtlasView {
        AtlasView {
            pixels: self.pixels@,
            width: self.width as nat,
            height: self.height as nat,
            infos: self.character_infos@,
        }
    }
}

impl FontTexture {
    #[verifier::type_invariant]
    spec fn inv(&self) -> bool {
        self@.wf()
    }

    /// Renders every character of the font at `font_size` pixels and packs the
    /// glyphs into an atlas. A character whose glyph cannot be rendered is left
    /// out. What the atlas holds is decided by the font engine; whatever it gave,
    /// the atlas is the packing of glyphs of strictly rising characters.
    pub fn new(font: Vec<u8>, font_size: u32) -> (r: Result<FontTexture, FontError>)
        requires
            font_size > 0,
        ensures
            r matches Ok(texture) ==> {
                &&& texture@.wf()
                &&& texture@.distinct()
                &&& exists|glyphs: Seq<GlyphView>|
                    all_wf(glyphs) && increasing(glyphs) && packable(glyphs, font_size as nat)
                        && #[trigger] texture@.packs(glyphs, font_size as nat)
            },
            r matches Err(e) ==> e == FontError::FontLoad || exists|glyphs: Seq<GlyphView>|
                all_wf(glyphs) && increasing(glyphs) && !packable(glyphs, font_size as nat) && e
                    == #[trigger] pack_error(glyphs, font_size as nat),
    {
        let glyphs = match rasterize(font, font_size) {
            Ok(glyphs) => glyphs,
            Err(e) => {
                return Err(e);
            },
        };
        match FontTexture::from_glyphs(&glyphs, font_size) {
            Ok(texture) => {
                proof {
                    let views = glyph_views(glyphs@);
                    lemma_packed_distinct(texture@, views, font_size as nat);
                    assert(texture@.packs(views, font_size as nat));
                }
                Ok(texture)
            },
            Err(e) => {
                assert(e == pack_error(glyph_views(glyphs@), font_size as nat));
                Err(e)
            },
        }
    }

    /// Packs the glyphs, in the order given, into an atlas.
    pub fn from_glyphs(glyphs: &Vec<Glyph>, font_size: u32) -> (r: Result<FontTexture, FontError>)
        requires
            font_size > 0,
        ensures
            r is Ok <==> packable(glyph_views(glyphs@), font_size as nat),
            r matches Ok(texture) ==> texture@.packs(glyph_views(glyphs@), font_size as nat)
                && texture@.wf(),
            r matches Err(e) ==> e == pack_error(glyph_views(glyphs@), font_size as nat),
    {
        match build_font_image(glyphs, font_size) {
            Ok((pixels, (width, height), character_infos)) => Ok(
                FontTexture { pixels, width, height, character_infos },
            ),
            Err(e) => Err(e),
        }
    }

    /// Width of the atlas in pixels.
    pub fn width(&self) -> (r: u32)
        ensures
            r == self@.width,
    {
        self.width
    }

    /// Height of the atlas in pixels.
    pub fn height(&self) -> (r: u32)
        ensures
            r == self@.height,
    {
        self.height
    }

    /// The coverage bytes, row after row from the top.
    pub fn pixels(&self) -> (r: &Vec<u8>)
        ensures
            r@ == self@.pixels,
            self@.wf(),
    {
        proof {
            use_type_invariant(self);
        }
        &self.pixels
    }

    /// The record of each glyph, in the order in which the glyphs were packed.
    pub fn character_infos(&self) -> (r: &Vec<(char, CharacterInfos)>)
        ensures
            r@ == self@.infos,
            self@.wf(),
    {
        proof {
            use_type_invariant(self);
        }
        &self.character_infos
    }

    /// What is recorded of the character `c`; `None` when the atlas has no glyph
    /// for it.
    pub fn find(&self, c: char) -> (r: Option<CharacterInfos>)
        ensures
            r == lookup(self@.infos, c),
    {
        let mut i: usize = 0;
        while i < self.character_infos.len()
            invariant
                0 <= i <= self.character_infos.len(),
                forall|j: int| 0 <= j < i ==> (#[trigger] self.character_infos@[j]).0 != c,
            decreases self.character_infos.len() - i,
        {
            if self.character_infos[i].0 == c {
                assert(is_first(self@.infos, c, i as int));
                return Some(self.character_infos[i].1);
            }
            i += 1;
        }
        None
    }
}

} // verus!
