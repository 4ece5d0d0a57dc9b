//! Text laid out against an atlas: one quad for each character that the atlas
//! holds, side by side along the baseline, in atlas pixels.
//!
//! The pen starts at `0`. For each character with a glyph it moves right by the
//! glyph's left padding, the quad takes the width of the glyph's bitmap, and the
//! pen moves on by that width and the right padding. A character without a glyph
//! is passed over and does not move the pen.

use crate::atlas::{lemma_lookup, lookup, AtlasView, FontTexture};
use crate::error::TextError;
use crate::packing::{advance_of, in_bounds, rect_of, CharacterInfos};
use std::sync::Arc;
use unicode_normalization::UnicodeNormalization;
use vstd::prelude::*;

verus! {

/// The greatest number of quads in one text: four vertices each, and every vertex
/// with an index of 16 bits.
pub const MAX_QUADS: usize = 0x4000;

/// A vertex as mathematical values: its position `(x, y)` relative to the start of
/// the text on the baseline, `y` upwards, and the atlas pixel `(u, v)` that it
/// shows, `v` downwards.
pub struct VertexView {
    pub x: int,
    pub y: int,
    pub u: int,
    pub v: int,
}

/// One corner of a quad, in atlas pixels.
#[derive(Clone, Copy, Debug, PartialEq, Eq)]
pub struct Vertex {
    /// Position relative to the start of the text on the baseline; the second
    /// coordinate grows upwards.
    pub position: (i64, i64),
    /// Column and row of the atlas pixel shown at this corner.
    pub tex_coords: (u32, u32),
}

impl View for Vertex {
    type V = VertexView;

    open spec fn view(&self) -> VertexView {
        VertexView {
            x: self.position.0 as int,
            y: self.position.1 as int,
            u: self.tex_coords.0 as int,
            v: self.tex_coords.1 as int,
        }
    }
}

/// The records of the characters of `text` that the atlas holds, in the order of
/// the text.
pub open spec fn matched(infos: Seq<(char, CharacterInfos)>, text: Seq<char>) -> Seq<
    CharacterInfos,
>
    decreases text.len(),
{
    if text.len() == 0 {
        Seq::empty()
    } else {
        let before = matched(infos, text.drop_last());
        match lookup(infos, text.last()) {
            Some(info) => before.push(info),
            None => before,
        }
    }
}

/// Where the pen stands after the glyphs of `placed`: the sum of their advances.
pub open spec fn pen_after(placed: Seq<CharacterInfos>) -> int
    decreases placed.len(),
{
    if placed.len() == 0 {
        0
    } else {
        pen_after(placed.drop_last()) + advance_of(placed.last())
    }
}

/// Corner `k` of the quad of a glyph when the pen stands at `pen` before it:
/// top-left, top-right, bottom-left, bottom-right for `k` from 0 to 3. The quad
/// reaches from the top bearing down by the height of the bitmap, and shows the
/// glyph's rectangle of the atlas.
pub open spec fn corner(info: CharacterInfos, pen: int, k: int) -> VertexView {
    let left = pen + info.left_padding;
    let right = left + info.size.0;
    let top = info.height_over_line as int;
    let bottom = top - info.size.1;
    let u_left = info.coords.0 as int;
    let u_right = u_left + info.size.0;
    let v_top = info.coords.1 as int;
    let v_bottom = v_top + info.size.1;
    if k == 0 {
        VertexView { x: left, y: top, u: u_left, v: v_top }
    } else if k == 1 {
        VertexView { x: right, y: top, u: u_right, v: v_top }
    } else if k == 2 {
        VertexView { x: left, y: bottom, u: u_left, v: v_bottom }
    } else {
        VertexView { x: right, y: bottom, u: u_right, v: v_bottom }
    }
}

/// Vertex `k` of the text: corner `k % 4` of quad `k / 4`.
pub open spec fn mesh_vertex(placed: Seq<CharacterInfos>, k: int) -> VertexView {
    corner(placed[k / 4], pen_after(placed.take(k / 4)), k % 4)
}

/// Index `k` of the text: each quad is two triangles, top-left, top-right,
/// bottom-left and bottom-left, top-right, bottom-right.
pub open spec fn mesh_index(k: int) -> int {
    let first = 4 * (k / 6);
    let at = k % 6;
    if at == 0 {
        first
    } else if at == 1 || at == 4 {
        first + 1
    } else if at == 2 || at == 3 {
        first + 2
    } else {
        first + 3
    }
}

/// `vertices` are the vertices of the quads of `placed`.
pub open spec fn is_mesh_vertices(vertices: Seq<Vertex>, placed: Seq<CharacterInfos>) -> bool {
    &&& vertices.len() == 4 * placed.len()
    &&& forall|k: int|
        0 <= k < vertices.len() ==> (#[trigger] vertices[k])@ == mesh_vertex(placed, k)
}

/// `indices` are the indices of `count` quads.
pub open spec fn is_mesh_indices(indices: Seq<u16>, count: nat) -> bool {
    &&& indices.len() == 6 * count
    &&& forall|k: int| 0 <= k < indices.len() ==> #[trigger] indices[k] == mesh_index(k)
}

/// The canonical composition (Unicode Normalization Form C) of a text, as the
/// `unicode-normalization` crate computes it.
pub uninterp spec fn nfc_of(text: Seq<char>) -> Seq<char>;

/// The characters that are laid out for a text: none for the empty text, else its
/// canonical composition.
pub open spec fn normalized(text: Seq<char>) -> Seq<char> {
    if text.len() == 0 {
        text
    } else {
        nfc_of(text)
    }
}

/// `unicode_normalization::UnicodeNormalization::nfc` on a string slice, collected:
/// the characters of the canonical composition of `text`, in order.
#[verifier::external_body]
fn nfc_chars(text: &str) -> (r: Vec<char>)
    ensures
        r@ == nfc_of(text@),
{
    text.nfc().collect()
}

/// A text display as mathematical values.
pub struct TextDisplayView {
    pub atlas: AtlasView,
    pub vertices: Option<Seq<Vertex>>,
    pub indices: Option<Seq<u16>>,
    pub total_width: int,
    pub is_empty: bool,
}

impl TextDisplayView {
    /// The display holds the geometry of `chars`: it is empty, without buffers,
    /// when the atlas holds none of the characters; else it holds the vertices and
    /// the indices of their quads. Its width is where the pen ends.
    pub open spec fn lays_out(self, chars: Seq<char>) -> bool {
        let placed = matched(self.atlas.infos, chars);
        &&& self.is_empty == (placed.len() == 0)
        &&& self.total_width == pen_after(placed)
        &&& placed.len() == 0 ==> self.vertices is None && self.indices is None
        &&& placed.len() > 0 ==> {
            &&& self.vertices matches Some(vertices) && is_mesh_vertices(vertices, placed)
            &&& self.indices matches Some(indices) && is_mesh_indices(indices, placed.len())
        }
    }
}

/// The geometry of one text against one atlas. It shares the atlas and owns its
/// buffers; `set_text` replaces them as a whole.
#[derive(Debug)]
pub struct TextDisplay {
    texture: Arc<FontTexture>,
    vertex_buffer: Option<Vec<Vertex>>,
    index_buffer: Option<Vec<u16>>,
    total_text_width: i64,
    is_empty: bool,
}

/// What is to be drawn for a text: the buffers to submit and the atlas to sample.
pub struct DrawCall<'a> {
    pub vertices: &'a Vec<Vertex>,
    pub indices: &'a Vec<u16>,
    pub texture: &'a FontTexture,
}

impl View for TextDisplay {
    type V = TextDisplayView;

    closed spec fn view(&self) -> TextDisplayView {
        TextDisplayView {
            atlas: (*self.texture)@,
            vertices: match self.vertex_buffer {
                Some(vertices) => Some(vertices@),
                None => None,
            },
            indices: match self.index_buffer {
                Some(indices) => Some(indices@),
                None => None,
            },
            total_width: self.total_text_width as int,
            is_empty: self.is_empty,
        }
    }
}

/// Unfolds `matched` at a prefix of the text.
pub proof fn lemma_matched_unfold(infos: Seq<(char, CharacterInfos)>, text: Seq<char>, i: int)
    requires
        0 <= i < text.len(),
    ensures
        matched(infos, text.take(i + 1)) == (match lookup(infos, text[i]) {
            Some(info) => matched(infos, text.take(i)).push(info),
            None => matched(infos, text.take(i)),
        }),
{
    assert(text.take(i + 1).drop_last() =~= text.take(i));
    assert(text.take(i + 1).last() == text[i]);
}

/// A longer prefix of the text has no fewer matched characters.
pub proof fn lemma_matched_monotonic(
    infos: Seq<(char, CharacterInfos)>,
    text: Seq<char>,
    i: int,
    j: int,
)
    requires
        0 <= i <= j <= text.len(),
    ensures
        matched(infos, text.take(i)).len() <= matched(infos, text.take(j)).len(),
    decreases j - i,
{
    if i < j {
        lemma_matched_monotonic(infos, text, i, j - 1);
        lemma_matched_unfold(infos, text, j - 1);
    }
}

/// The pen moves on by the advance of each glyph.
pub proof fn lemma_pen_push(placed: Seq<CharacterInfos>, info: CharacterInfos)
    ensures
        pen_after(placed.push(info)) == pen_after(placed) + advance_of(info),
{
    assert(placed.push(info).drop_last() =~= placed);
}

/// A further glyph leaves the vertices of the glyphs before it as they are, and
/// its own quad starts where the pen stood.
pub proof fn lemma_mesh_vertex_push(placed: Seq<CharacterInfos>, info: CharacterInfos, k: int)
    requires
        0 <= k < 4 * placed.len() + 4,
    ensures
        mesh_vertex(placed.push(info), k) == (if k < 4 * placed.len() {
            mesh_vertex(placed, k)
        } else {
            corner(info, pen_after(placed), k - 4 * placed.len())
        }),
{
    let longer = placed.push(info);
    let q = k / 4;
    if k < 4 * placed.len() {
        assert(longer.take(q) =~= placed.take(q));
    } else {
        assert(q == placed.len());
        assert(longer.take(q) =~= placed);
    }
}

/// Lays the characters out against the atlas: the vertices and the indices of the
/// quads, and where the pen ends. `None` when more than `MAX_QUADS` of the
/// characters have a glyph.
pub fn layout(texture: &FontTexture, chars: &Vec<char>) -> (r: Option<
    (Vec<Vertex>, Vec<u16>, i64),
>)
    ensures
        r is Some <==> matched(texture@.infos, chars@).len() <= MAX_QUADS,
        r matches Some((vertices, indices, pen)) ==> {
            let placed = matched(texture@.infos, chars@);
            &&& is_mesh_vertices(vertices@, placed)
            &&& is_mesh_indices(indices@, placed.len())
            &&& pen == pen_after(placed)
        },
{
    let records = texture.character_infos();
    let ghost infos = texture@.infos;
    let mut vertices: Vec<Vertex> = Vec::new();
    let mut indices: Vec<u16> = Vec::new();
    let mut pen: i64 = 0;
    let mut count: usize = 0;
    let mut i: usize = 0;
    proof {
        assert(chars@.take(0) =~= Seq::<char>::empty());
    }
    while i < chars.len()
        invariant
            0 <= i <= chars.len(),
            infos == texture@.infos,
            texture@.wf(),
            count == matched(infos, chars@.take(i as int)).len(),
            count <= MAX_QUADS,
            is_mesh_vertices(vertices@, matched(infos, chars@.take(i as int))),
            is_mesh_indices(indices@, count as nat),
            pen == pen_after(matched(infos, chars@.take(i as int))),
            -0x8000_0000 * count <= pen <= 0x8000_0000 * count,
        decreases chars.len() - i,
    {
        let c: char = chars[i];
        let ghost placed = matched(infos, chars@.take(i as int));
        proof {
            lemma_matched_unfold(infos, chars@, i as int);
            lemma_lookup(infos, c);
        }
        match texture.find(c) {
            Some(info) => {
                if count >= MAX_QUADS {
                    proof {
                        lemma_matched_monotonic(infos, chars@, i + 1, chars@.len() as int);
                        assert(chars@.take(chars@.len() as int) =~= chars@);
                    }
                    return None;
                }
                proof {
                    let j = choose|j: int| 0 <= j < infos.len() && #[trigger] infos[j] == (c, info);
                    assert(texture@.rect(j) == rect_of(info));
                    assert(in_bounds(
                        texture@.rect(j),
                        texture@.width as int,
                        texture@.height as int,
                    ));
                    assert(i32::MIN <= advance_of(infos[j].1) <= i32::MAX);
                    lemma_pen_push(placed, info);
                }
                let first: u16 = (4 * count) as u16;
                let ghost indices_before = indices@;
                indices.push(first);
                indices.push(first + 1);
                indices.push(first + 2);
                indices.push(first + 2);
                indices.push(first + 1);
                indices.push(first + 3);
                let left: i64 = pen + info.left_padding as i64;
                let right: i64 = left + info.size.0 as i64;
                let top: i64 = info.height_over_line as i64;
                let bottom: i64 = top - info.size.1 as i64;
                let u_left: u32 = info.coords.0;
                let u_right: u32 = info.coords.0 + info.size.0;
                let v_top: u32 = info.coords.1;
                let v_bottom: u32 = info.coords.1 + info.size.1;
                let ghost vertices_before = vertices@;
                vertices.push(Vertex { position: (left, top), tex_coords: (u_left, v_top) });
                vertices.push(Vertex { position: (right, top), tex_coords: (u_right, v_top) });
                vertices.push(Vertex { position: (left, bottom), tex_coords: (u_left, v_bottom) });
                vertices.push(
                    Vertex { position: (right, bottom), tex_coords: (u_right, v_bottom) },
                );
                pen = right + info.right_padding;
                count += 1;
                proof {
                    let longer = placed.push(info);
                    assert forall|k: int| 0 <= k < vertices@.len() implies (
                    #[trigger] vertices@[k])@ == mesh_vertex(longer, k) by {
                        lemma_mesh_vertex_push(placed, info, k);
                        if k < vertices_before.len() {
                            assert(vertices@[k] == vertices_before[k]);
                        }
                    }
                    assert forall|k: int| 0 <= k < indices@.len() implies #[trigger] indices@[k]
                        == mesh_index(k) by {
                        if k < indices_before.len() {
                            assert(indices@[k] == indices_before[k]);
                        }
                    }
                }
            },
            None => {},
        }
        i += 1;
    }
    proof {
        assert(chars@.take(chars@.len() as int) =~= chars@);
    }
    Some((vertices, indices, pen))
}

impl TextDisplay {
    /// Builds the geometry of `text` against the atlas.
    pub fn new(texture: Arc<FontTexture>, text: &str) -> (r: Result<TextDisplay, TextError>)
        ensures
            r is Ok <==> matched(texture@.infos, normalized(text@)).len() <= MAX_QUADS,
            r matches Ok(display) ==> display@.atlas == texture@ && display@.lays_out(
                normalized(text@),
            ),
            r matches Err(e) ==> e == TextError::TooLong,
    {
        let mut display = TextDisplay {
            texture,
            vertex_buffer: None,
            index_buffer: None,
            total_text_width: 0,
            is_empty: true,
        };
        match display.set_text(text) {
            Ok(_) => Ok(display),
            Err(e) => Err(e),
        }
    }

    /// Width of the text in atlas pixels: where the pen ends.
    pub fn get_width(&self) -> (r: i64)
        ensures
            r == self@.total_width,
    {
        self.total_text_width
    }

    /// Replaces the geometry by that of `text`, composed canonically first. On an
    /// error the display stays as it was.
    pub fn set_text(&mut self, text: &str) -> (r: Result<(), TextError>)
        ensures
            final(self)@.atlas == old(self)@.atlas,
            r is Ok <==> matched(old(self)@.atlas.infos, normalized(text@)).len() <= MAX_QUADS,
            r is Ok ==> final(self)@.lays_out(normalized(text@)),
            r is Err ==> final(self)@ == old(self)@,
            r matches Err(e) ==> e == TextError::TooLong,
    {
        if text.is_empty() {
            self.vertex_buffer = None;
            self.index_buffer = None;
            self.total_text_width = 0;
            self.is_empty = true;
            return Ok(());
        }
        let chars = nfc_chars(text);
        self.set_chars(&chars)
    }

    /// Replaces the geometry by that of `chars`, taken as they are. On an error
    /// the display stays as it was.
    pub fn set_chars(&mut self, chars: &Vec<char>) -> (r: Result<(), TextError>)
        ensures
            final(self)@.atlas == old(self)@.atlas,
            r is Ok <==> matched(old(self)@.atlas.infos, chars@).len() <= MAX_QUADS,
            r is Ok ==> final(self)@.lays_out(chars@),
            r is Err ==> final(self)@ == old(self)@,
            r matches Err(e) ==> e == TextError::TooLong,
    {
        match layout(&*self.texture, chars) {
            Some((vertices, indices, pen)) => {
                if vertices.len() == 0 {
                    self.vertex_buffer = None;
                    self.index_buffer = None;
                    self.is_empty = true;
                } else {
                    self.vertex_buffer = Some(vertices);
                    self.index_buffer = Some(indices);
                    self.is_empty = false;
                }
                self.total_text_width = pen;
                Ok(())
            },
            None => Err(TextError::TooLong),
        }
    }

    /// No character of the text has a glyph in the atlas.
    pub fn is_empty(&self) -> (r: bool)
        ensures
            r == self@.is_empty,
    {
        self.is_empty
    }

    /// The atlas that the text is laid out against.
    pub fn texture(&self) -> (r: &Arc<FontTexture>)
        ensures
            r@ == self@.atlas,
    {
        &self.texture
    }

    /// The vertices, four for each quad; `None` when the display is empty.
    pub fn vertex_buffer(&self) -> (r: &Option<Vec<Vertex>>)
        ensures
            match *r {
                Some(vertices) => self@.vertices == Some(vertices@),
                None => self@.vertices is None,
            },
    {
        &self.vertex_buffer
    }

    /// The indices, six for each quad; `None` when the display is empty.
    pub fn index_buffer(&self) -> (r: &Option<Vec<u16>>)
        ensures
            match *r {
                Some(indices) => self@.indices == Some(indices@),
                None => self@.indices is None,
            },
    {
        &self.index_buffer
    }
}

/// Decides what is to be drawn for the text: nothing when the display is empty or
/// lacks a buffer, else one call with its buffers and its atlas.
pub fn draw<'a>(text: &'a TextDisplay) -> (r: Option<DrawCall<'a>>)
    ensures
        r is None <==> text@.is_empty || text@.vertices is None || text@.indices is None,
        r matches Some(call) ==> {
            &&& text@.vertices == Some(call.vertices@)
            &&& text@.indices == Some(call.indices@)
            &&& call.texture@ == text@.atlas
        },
{
    if text.is_empty {
        return None;
    }
    match &text.vertex_buffer {
        Some(vertices) => match &text.index_buffer {
            Some(indices) => Some(DrawCall { vertices, indices, texture: &*text.texture }),
            None => None,
        },
        None => None,
    }
}

/// No character of the text is matched exactly when the atlas holds none of them.
pub proof fn lemma_matched_none(infos: Seq<(char, CharacterInfos)>, text: Seq<char>)
    ensures
        matched(infos, text).len() == 0 <==> forall|i: int|
            0 <= i < text.len() ==> lookup(infos, #[trigger] text[i]) is None,
    decreases text.len(),
{
    if text.len() > 0 {
        let before = text.drop_last();
        lemma_matched_none(infos, before);
        if matched(infos, text).len() == 0 {
            assert forall|i: int| 0 <= i < text.len() implies lookup(
                infos,
                #[trigger] text[i],
            ) is None by {
                if i < before.len() {
                    assert(before[i] == text[i]);
                }
            }
        } else {
            if lookup(infos, text.last()) is None {
                let i = choose|i: int| 0 <= i < before.len() && !(lookup(
                    infos,
                    #[trigger] before[i],
                ) is None);
                assert(before[i] == text[i]);
            } else {
                assert(text[text.len() - 1] == text.last());
            }
        }
    }
}

/// A display of the empty text is empty and holds no buffer.
pub proof fn lemma_empty_text(display: TextDisplayView)
    requires
        display.lays_out(Seq::empty()),
    ensures
        display.is_empty,
        display.vertices is None,
        display.indices is None,
        display.total_width == 0,
{
}

/// A display is empty exactly when the atlas holds no character of its text, and
/// then it holds no buffer and has no width.
pub proof fn lemma_empty_without_glyphs(display: TextDisplayView, chars: Seq<char>)
    requires
        display.lays_out(chars),
    ensures
        display.is_empty <==> forall|i: int|
            0 <= i < chars.len() ==> lookup(display.atlas.infos, #[trigger] chars[i]) is None,
        display.is_empty ==> display.vertices is None && display.indices is None
            && display.total_width == 0,
        !display.is_empty ==> display.vertices is Some && display.indices is Some,
{
    lemma_matched_none(display.atlas.infos, chars);
}

/// Two displays of the same characters against the same records hold the same
/// vertices, the same indices and the same width.
pub proof fn lemma_layout_deterministic(a: TextDisplayView, b: TextDisplayView, chars: Seq<char>)
    requires
        a.atlas.infos == b.atlas.infos,
        a.lays_out(chars),
        b.lays_out(chars),
    ensures
        a.vertices == b.vertices,
        a.indices == b.indices,
        a.total_width == b.total_width,
        a.is_empty == b.is_empty,
{
    let placed = matched(a.atlas.infos, chars);
    if placed.len() > 0 {
        let va = a.vertices->Some_0;
        let vb = b.vertices->Some_0;
        assert(va =~= vb) by {
            assert forall|k: int| 0 <= k < va.len() implies va[k] == vb[k] by {
                assert(va[k]@ == vb[k]@);
            }
        }
        let ia = a.indices->Some_0;
        let ib = b.indices->Some_0;
        assert(ia =~= ib);
    }
}

/// A display has as many quads as its text has characters with a glyph: four
/// vertices and six indices for each, every index that of a vertex.
pub proof fn lemma_quad_count(display: TextDisplayView, chars: Seq<char>)
    requires
        display.lays_out(chars),
        !display.is_empty,
    ensures
        display.vertices->Some_0.len() == 4 * matched(display.atlas.infos, chars).len(),
        display.indices->Some_0.len() == 6 * matched(display.atlas.infos, chars).len(),
        forall|k: int|
            0 <= k < display.indices->Some_0.len() ==> 0 <= #[trigger] display.indices->Some_0[k]
                < display.vertices->Some_0.len(),
{
}

} // verus!
