//! Shelf packing: where each glyph of a sequence lands in an atlas of a given
//! width, stated as mathematics, with the facts that make the result usable.
//!
//! Glyphs are placed in the order given, left to right. A glyph that does not fit
//! in what is left of the current shelf starts a new shelf below the tallest glyph
//! of the current one.

use crate::glyph::GlyphView;
use crate::po2::{
    get_nearest_po2, is_power_of_two, lemma_nearest_po2, lemma_nearest_po2_least,
    lemma_power_of_two_doubles, lemma_power_of_two_gap, lemma_top_bit_is_power, nearest_po2,
};
use vstd::prelude::*;

verus! {

/// What the atlas records of one glyph, in atlas pixels.
#[derive(Clone, Copy, Debug, PartialEq, Eq)]
pub struct CharacterInfos {
    /// Column and row of the glyph's top-left pixel in the atlas.
    pub coords: (u32, u32),
    /// Width and height of the glyph's bitmap.
    pub size: (u32, u32),
    /// Pixels from the baseline up to the top of the bitmap.
    pub height_over_line: i32,
    /// Pixels that the pen moves before the bitmap.
    pub left_padding: i32,
    /// Pixels that the pen moves after the bitmap.
    pub right_padding: i64,
}

/// An axis-aligned rectangle of pixels: columns `x .. x + w`, rows `y .. y + h`.
pub struct Rect {
    pub x: int,
    pub y: int,
    pub w: int,
    pub h: int,
}

/// The packer's state between two glyphs: the next free column `x` of the current
/// shelf, the shelf's top row `y`, and the height `shelf` of its tallest glyph.
pub struct Cursor {
    pub x: nat,
    pub y: nat,
    pub shelf: nat,
}

/// The rectangle that `info` claims in the atlas.
pub open spec fn rect_of(info: CharacterInfos) -> Rect {
    Rect {
        x: info.coords.0 as int,
        y: info.coords.1 as int,
        w: info.size.0 as int,
        h: info.size.1 as int,
    }
}

/// The two rectangles are separated by a vertical or a horizontal line.
pub open spec fn disjoint(a: Rect, b: Rect) -> bool {
    a.x + a.w <= b.x || b.x + b.w <= a.x || a.y + a.h <= b.y || b.y + b.h <= a.y
}

/// The rectangle lies within an atlas of `width` by `height` pixels.
pub open spec fn in_bounds(r: Rect, width: int, height: int) -> bool {
    0 <= r.x && 0 <= r.w && r.x + r.w <= width && 0 <= r.y && 0 <= r.h && r.y + r.h <= height
}

/// The pixel in column `x` of row `y` belongs to the rectangle.
pub open spec fn covers(r: Rect, x: int, y: int) -> bool {
    r.x <= x < r.x + r.w && r.y <= y < r.y + r.h
}

/// What is left of the current shelf is too narrow for `g`.
pub open spec fn wraps(c: Cursor, g: GlyphView, width: nat) -> bool {
    c.x + g.width > width
}

/// Column and row where `g` is placed when the packer stands at `c`.
pub open spec fn origin(c: Cursor, g: GlyphView, width: nat) -> (nat, nat) {
    if wraps(c, g, width) {
        (0, c.y + c.shelf)
    } else {
        (c.x, c.y)
    }
}

/// The packer's state after it has placed `g`.
pub open spec fn step(c: Cursor, g: GlyphView, width: nat) -> Cursor {
    let at = origin(c, g, width);
    let shelf = if wraps(c, g, width) {
        0
    } else {
        c.shelf
    };
    Cursor { x: at.0 + g.width, y: at.1, shelf: if shelf < g.rows {
        g.rows
    } else {
        shelf
    } }
}

/// The packer's state after it has placed all of `glyphs`, in order.
pub open spec fn cursor_after(glyphs: Seq<GlyphView>, width: nat) -> Cursor
    decreases glyphs.len(),
{
    if glyphs.len() == 0 {
        Cursor { x: 0, y: 0, shelf: 0 }
    } else {
        step(cursor_after(glyphs.drop_last(), width), glyphs.last(), width)
    }
}

/// The rectangle of glyph `i` in an atlas of the given width.
pub open spec fn glyph_rect(glyphs: Seq<GlyphView>, width: nat, i: int) -> Rect {
    let at = origin(cursor_after(glyphs.take(i), width), glyphs[i], width);
    Rect { x: at.0 as int, y: at.1 as int, w: glyphs[i].width as int, h: glyphs[i].rows as int }
}

/// Number of atlas rows that the shelves take.
pub open spec fn used_rows(glyphs: Seq<GlyphView>, width: nat) -> nat {
    let c = cursor_after(glyphs, width);
    c.y + c.shelf
}

/// No glyph is wider than the atlas.
pub open spec fn all_fit(glyphs: Seq<GlyphView>, width: nat) -> bool {
    forall|i: int| 0 <= i < glyphs.len() ==> (#[trigger] glyphs[i]).width <= width
}

/// Pixels that the pen moves for the glyph: what lies left of, inside and right of
/// its bitmap.
pub open spec fn advance_of(info: CharacterInfos) -> int {
    info.left_padding + info.size.0 + info.right_padding
}

/// `info` records glyph `g` placed in rectangle `r`: the rectangle itself, the top
/// bearing, and the advance split into what lies left of, inside and right of the
/// bitmap.
pub open spec fn describes(info: CharacterInfos, g: GlyphView, r: Rect) -> bool {
    &&& rect_of(info) == r
    &&& info.height_over_line == g.top
    &&& info.left_padding == g.left
    &&& info.right_padding == g.advance - g.width - g.left
}

/// The least `r` with `n <= r * r`: the square root of `n`, rounded up.
pub open spec fn ceil_sqrt(n: nat) -> nat
    decreases n,
{
    if n == 0 {
        0
    } else {
        let r = ceil_sqrt((n - 1) as nat);
        if n <= r * r {
            r
        } else {
            r + 1
        }
    }
}

/// Width of the atlas for `count` glyphs at `font_size` pixels: the least power of
/// two that is not below twice the font size nor below the side of a square of as
/// many pixels as `count` cells of `font_size` by `font_size` pixels have.
pub open spec fn atlas_width(count: nat, font_size: nat) -> nat {
    let side = ceil_sqrt(count * font_size * font_size);
    nearest_po2(if side < 2 * font_size {
        2 * font_size
    } else {
        side
    })
}

/// Height of the atlas: the rows that the shelves take, rounded up to a power of two.
pub open spec fn atlas_height(glyphs: Seq<GlyphView>, width: nat) -> nat {
    nearest_po2(used_rows(glyphs, width))
}

/// `ceil_sqrt(n)` is the least number whose square is not below `n`.
pub proof fn lemma_ceil_sqrt(n: nat)
    ensures
        n <= ceil_sqrt(n) * ceil_sqrt(n),
        ceil_sqrt(n) > 0 ==> (ceil_sqrt(n) - 1) * (ceil_sqrt(n) - 1) < n,
    decreases n,
{
    if n > 0 {
        lemma_ceil_sqrt((n - 1) as nat);
        let r = ceil_sqrt((n - 1) as nat);
        assert((r + 1) * (r + 1) == r * r + 2 * r + 1) by (nonlinear_arith);
        if r > 0 {
            assert(r * r == (r - 1) * (r - 1) + 2 * r - 1) by (nonlinear_arith);
        }
    }
}

/// Squaring keeps the order of natural numbers.
proof fn lemma_square_monotonic(a: nat, b: nat)
    by (nonlinear_arith)
    requires
        a <= b,
    ensures
        a * a <= b * b,
{
}

/// `p` is at least `ceil_sqrt(n)` exactly when the square of `p` is at least `n`.
pub proof fn lemma_ceil_sqrt_bound(n: nat, p: nat)
    ensures
        ceil_sqrt(n) <= p <==> n <= p * p,
{
    lemma_ceil_sqrt(n);
    let s = ceil_sqrt(n);
    if s <= p {
        lemma_square_monotonic(s, p);
    } else {
        lemma_square_monotonic(p, (s - 1) as nat);
    }
}

/// The atlas is a power of two wide, at least twice the font size, and a square
/// of that side has room for a cell of the font size for each glyph.
pub proof fn lemma_atlas_width(count: nat, font_size: nat)
    ensures
        is_power_of_two(atlas_width(count, font_size) as int),
        2 * font_size <= atlas_width(count, font_size),
        count * font_size * font_size <= atlas_width(count, font_size) * atlas_width(
            count,
            font_size,
        ),
{
    let cells = count * font_size * font_size;
    let side = ceil_sqrt(cells);
    let width = atlas_width(count, font_size);
    lemma_nearest_po2(if side < 2 * font_size {
        2 * font_size
    } else {
        side
    });
    lemma_ceil_sqrt_bound(cells, width);
}

/// No power of two below the atlas width is at least twice the font size and has
/// room for the cells in its square.
pub proof fn lemma_atlas_width_least(count: nat, font_size: nat, p: nat)
    requires
        is_power_of_two(p as int),
        2 * font_size <= p,
        count * font_size * font_size <= p * p,
    ensures
        atlas_width(count, font_size) <= p,
{
    let cells = count * font_size * font_size;
    let side = ceil_sqrt(cells);
    lemma_ceil_sqrt_bound(cells, p);
    lemma_nearest_po2_least(if side < 2 * font_size {
        2 * font_size
    } else {
        side
    }, p as int);
}

/// Unfolds `cursor_after` at a prefix of `glyphs`.
pub proof fn lemma_cursor_unfold(glyphs: Seq<GlyphView>, width: nat, k: int)
    requires
        0 < k <= glyphs.len(),
    ensures
        cursor_after(glyphs.take(k), width) == step(
            cursor_after(glyphs.take(k - 1), width),
            glyphs[k - 1],
            width,
        ),
{
    assert(glyphs.take(k).drop_last() =~= glyphs.take(k - 1));
    assert(glyphs.take(k).last() == glyphs[k - 1]);
}

/// Within an atlas that is wide enough for every glyph, the cursor stays inside it.
pub proof fn lemma_cursor_in_width(glyphs: Seq<GlyphView>, width: nat)
    requires
        all_fit(glyphs, width),
    ensures
        cursor_after(glyphs, width).x <= width,
    decreases glyphs.len(),
{
    if glyphs.len() > 0 {
        assert(all_fit(glyphs.drop_last(), width)) by {
            assert forall|i: int| 0 <= i < glyphs.drop_last().len() implies (
            #[trigger] glyphs.drop_last()[i]).width <= width by {
                assert(glyphs.drop_last()[i] == glyphs[i]);
            }
        }
        lemma_cursor_in_width(glyphs.drop_last(), width);
        assert(glyphs.last() == glyphs[glyphs.len() - 1]);
    }
}

/// Every prefix of a sequence of glyphs that fit is a sequence of glyphs that fit.
pub proof fn lemma_all_fit_prefix(glyphs: Seq<GlyphView>, width: nat, k: int)
    requires
        all_fit(glyphs, width),
        0 <= k <= glyphs.len(),
    ensures
        all_fit(glyphs.take(k), width),
{
    assert forall|i: int| 0 <= i < glyphs.take(k).len() implies (#[trigger] glyphs.take(
        k,
    )[i]).width <= width by {
        assert(glyphs.take(k)[i] == glyphs[i]);
    }
}

/// The shelves only grow: a longer prefix never takes fewer rows.
pub proof fn lemma_used_rows_monotonic(glyphs: Seq<GlyphView>, width: nat, i: int, j: int)
    requires
        0 <= i <= j <= glyphs.len(),
    ensures
        used_rows(glyphs.take(i), width) <= used_rows(glyphs.take(j), width),
    decreases j - i,
{
    if i < j {
        lemma_used_rows_monotonic(glyphs, width, i, j - 1);
        lemma_cursor_unfold(glyphs, width, j);
    }
}

/// Glyph `i`, once placed, is out of the way of everything placed later: when the
/// packer stands at `c`, the glyph either lies in the current shelf left of the
/// cursor, or wholly above the current shelf.
pub open spec fn settled(r: Rect, c: Cursor) -> bool {
    ||| r.y == c.y && r.x + r.w <= c.x && r.h <= c.shelf
    ||| r.y + r.h <= c.y
}

proof fn lemma_settled(glyphs: Seq<GlyphView>, width: nat, i: int, k: int)
    requires
        0 <= i < k <= glyphs.len(),
    ensures
        settled(glyph_rect(glyphs, width, i), cursor_after(glyphs.take(k), width)),
    decreases k - i,
{
    lemma_cursor_unfold(glyphs, width, k);
    if k > i + 1 {
        lemma_settled(glyphs, width, i, k - 1);
    }
}

/// Each glyph lies within the atlas: between column `0` and the width, and between
/// row `0` and the rows that the shelves take.
pub proof fn lemma_rect_in_bounds(glyphs: Seq<GlyphView>, width: nat, i: int)
    requires
        all_fit(glyphs, width),
        0 <= i < glyphs.len(),
    ensures
        in_bounds(glyph_rect(glyphs, width, i), width as int, used_rows(glyphs, width) as int),
        in_bounds(glyph_rect(glyphs, width, i), width as int, atlas_height(glyphs, width) as int),
{
    lemma_all_fit_prefix(glyphs, width, i);
    lemma_cursor_in_width(glyphs.take(i), width);
    lemma_settled(glyphs, width, i, i + 1);
    lemma_used_rows_monotonic(glyphs, width, i + 1, glyphs.len() as int);
    assert(glyphs.take(glyphs.len() as int) =~= glyphs);
    lemma_nearest_po2(used_rows(glyphs, width));
}

/// No two glyphs share a pixel.
pub proof fn lemma_rects_disjoint(glyphs: Seq<GlyphView>, width: nat, i: int, j: int)
    requires
        0 <= i < j < glyphs.len(),
    ensures
        disjoint(glyph_rect(glyphs, width, i), glyph_rect(glyphs, width, j)),
{
    lemma_settled(glyphs, width, i, j);
}

/// The greatest side of an atlas, in pixels: the greatest power of two of 32 bits.
pub const MAX_SIDE: u32 = 0x8000_0000;

/// Computes the width of the atlas for `count` glyphs at `font_size` pixels; `None`
/// when that width exceeds `MAX_SIDE`.
pub fn initial_width(count: usize, font_size: u32) -> (r: Option<u32>)
    requires
        font_size > 0,
    ensures
        r is Some <==> atlas_width(count as nat, font_size as nat) <= MAX_SIDE,
        r matches Some(w) ==> w == atlas_width(count as nat, font_size as nat),
{
    let ghost goal: nat = atlas_width(count as nat, font_size as nat);
    proof {
        lemma_atlas_width(count as nat, font_size as nat);
    }
    if font_size > 0x4000_0000 {
        return None;
    }
    assert(font_size * font_size <= 0x4000_0000 * 0x4000_0000) by (nonlinear_arith)
        requires
            font_size <= 0x4000_0000,
    ;
    let cell: u128 = (font_size as u128) * (font_size as u128);
    assert(count * cell <= 0xffff_ffff_ffff_ffff * 0x1000_0000_0000_0000) by (nonlinear_arith)
        requires
            count <= 0xffff_ffff_ffff_ffff,
            cell <= 0x1000_0000_0000_0000,
    ;
    let cells: u128 = (count as u128) * cell;
    assert(cells == count * font_size * font_size) by (nonlinear_arith)
        requires
            cells == count * cell,
            cell == font_size * font_size,
    ;
    let mut p: u64 = get_nearest_po2(2 * font_size) as u64;
    proof {
        lemma_nearest_po2_least((2 * font_size) as nat, goal as int);
    }
    loop
        invariant_except_break
            is_power_of_two(p as int),
            2 * font_size <= p <= MAX_SIDE,
            p <= goal,
        invariant
            font_size > 0,
            cells == count * font_size * font_size,
            goal == atlas_width(count as nat, font_size as nat),
            is_power_of_two(goal as int),
            cells <= goal * goal,
        ensures
            p <= MAX_SIDE,
            p == goal,
        decreases 0x1_0000_0000 - p,
    {
        assert(p * p <= 0x8000_0000 * 0x8000_0000) by (nonlinear_arith)
            requires
                p <= 0x8000_0000,
        ;
        if (p as u128) * (p as u128) >= cells {
            proof {
                lemma_atlas_width_least(count as nat, font_size as nat, p as nat);
            }
            break ;
        }
        proof {
            if p == goal {
                assert(p * p == goal * goal);
            }
            lemma_power_of_two_gap(p as int, goal as int);
            lemma_power_of_two_doubles(p as int);
        }
        if p >= 0x8000_0000 {
            return None;
        }
        proof {
            lemma_top_bit_is_power();
            lemma_power_of_two_gap(p as int, 0x8000_0000);
        }
        p = 2 * p;
    }
    Some(p as u32)
}

} // verus!
