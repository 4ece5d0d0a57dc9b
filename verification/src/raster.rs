//! The font engine: FreeType, reached through the `freetype` crate. It parses the
//! font, lists its characters and renders each glyph; what it hands back is
//! checked here before it becomes a `Glyph`.

use crate::error::FontError;
use crate::glyph::{
    all_wf, glyph_of, glyph_views, increasing, is_scalar_value, raw_usable, rising_char, Glyph,
    GlyphView, SlotMetrics,
};
use freetype::face::LoadFlag;
use vstd::prelude::*;

verus! {

/// `freetype::Library`: one instance of the font engine.
#[verifier::external_type_specification]
#[verifier::external_body]
pub struct ExLibrary(freetype::Library);

/// `freetype::Face`: one font opened by the engine, with its one glyph slot.
#[verifier::external_type_specification]
#[verifier::external_body]
#[verifier::reject_recursive_types(BYTES)]
pub struct ExFace<BYTES>(freetype::Face<BYTES>);

/// `freetype::Error`: the engine's error codes.
#[verifier::external_type_specification]
#[verifier::external_body]
pub struct ExError(freetype::Error);

/// `freetype::Library::init`: starts an instance of the font engine. Nothing is
/// claimed of the outcome.
#[verifier::external_body]
fn start_engine() -> (r: Result<freetype::Library, freetype::Error>) {
    freetype::Library::init()
}

/// `freetype::Library::new_memory_face`: opens the first face of a font held in
/// memory. Nothing is claimed of the outcome.
#[verifier::external_body]
fn open_face(library: &freetype::Library, font: Vec<u8>) -> (r: Result<
    freetype::Face,
    freetype::Error,
>) {
    library.new_memory_face(font, 0)
}

/// `freetype::Face::set_pixel_sizes`: asks for glyphs of the given size in pixels.
/// Nothing is claimed of the outcome.
#[verifier::external_body]
fn set_pixel_sizes(face: &freetype::Face, width: u32, height: u32) -> (r: Result<
    (),
    freetype::Error,
>) {
    face.set_pixel_sizes(width, height)
}

/// `freetype::Face::chars`: the character codes of the face's character map, as
/// the engine lists them. Nothing is claimed of the codes.
#[verifier::external_body]
fn char_codes(face: &freetype::Face) -> (r: Vec<usize>) {
    face.chars().map(|entry| entry.0).collect()
}

/// `freetype::Face::load_char` with `LoadFlag::RENDER`: loads the glyph of a
/// character code into the face's glyph slot and renders it. Nothing is claimed of
/// the outcome.
#[verifier::external_body]
fn load_char(face: &freetype::Face, code: usize) -> (r: Result<(), freetype::Error>) {
    face.load_char(code, LoadFlag::RENDER)
}

/// `freetype::Face::glyph` and the accessors of `freetype::GlyphSlot` and
/// `freetype::Bitmap` for the numbers of the glyph slot: copies them out. Nothing
/// is claimed of the values.
#[verifier::external_body]
fn slot_metrics(face: &freetype::Face) -> (r: SlotMetrics) {
    let slot = face.glyph();
    let bitmap = slot.bitmap();
    SlotMetrics {
        width: bitmap.width(),
        rows: bitmap.rows(),
        pitch: bitmap.pitch(),
        pixel_mode: bitmap.raw().pixel_mode as u8,
        left: slot.bitmap_left(),
        top: slot.bitmap_top(),
        advance_x: slot.advance().x as i64,
    }
}

/// `freetype::Bitmap::buffer` on the bitmap of the glyph slot: copies the bytes
/// out. Nothing is claimed of them. The crate computes their number as the
/// product of the pitch and the rows in 32 bits, so the bytes are asked for only
/// where the slot is readable.
#[verifier::external_body]
fn slot_buffer(face: &freetype::Face) -> (r: Vec<u8>) {
    face.glyph().bitmap().buffer().to_vec()
}

/// What the engine answered for one character code that it listed: whether it
/// rendered the glyph when asked, and what its glyph slot then held. Of a code for
/// which the engine was not asked, or of bytes that were not asked for, nothing is
/// held and nothing is used.
pub struct Rendition {
    pub code: usize,
    pub rendered: bool,
    pub metrics: SlotMetrics,
    pub buffer: Seq<u8>,
}

/// What the engine answered in one run: whether it started, whether it opened the
/// font, whether it took the pixel size, and its answer for each code that it
/// listed, in the order of its list.
pub struct Answers {
    pub started: bool,
    pub opened: bool,
    pub sized: bool,
    pub renditions: Seq<Rendition>,
}

/// The least code that may follow the glyphs: one above the last character.
pub open spec fn floor_of(glyphs: Seq<GlyphView>) -> int {
    if glyphs.len() == 0 {
        0
    } else {
        glyphs.last().character as u32 + 1
    }
}

/// The glyphs after the engine's answer for one more code. The glyph is added
/// where the code is a Unicode scalar value above the characters before it, the
/// engine rendered it, and what the slot held is usable; otherwise the code is
/// passed over.
pub open spec fn take_in(glyphs: Seq<GlyphView>, rendition: Rendition) -> Seq<GlyphView> {
    if is_scalar_value(rendition.code as int) && floor_of(glyphs) <= rendition.code
        && rendition.rendered && raw_usable(rendition.metrics, rendition.buffer) {
        glyphs.push(glyph_of(rendition.code as char, rendition.metrics, rendition.buffer))
    } else {
        glyphs
    }
}

/// The glyphs that are taken of the engine's answers, in order.
pub open spec fn selected(renditions: Seq<Rendition>) -> Seq<GlyphView>
    decreases renditions.len(),
{
    if renditions.len() == 0 {
        Seq::empty()
    } else {
        take_in(selected(renditions.drop_last()), renditions.last())
    }
}

/// What is made of the engine's answers: the glyphs taken, where the engine
/// started, opened the font, listed a character and took the size; a load error
/// otherwise.
pub open spec fn outcome(answers: Answers) -> Result<Seq<GlyphView>, FontError> {
    if answers.started && answers.opened && answers.renditions.len() > 0 && answers.sized {
        Ok(selected(answers.renditions))
    } else {
        Err(FontError::FontLoad)
    }
}

/// The views of the glyphs of a result.
pub open spec fn result_views(r: Result<Vec<Glyph>, FontError>) -> Result<
    Seq<GlyphView>,
    FontError,
> {
    match r {
        Ok(glyphs) => Ok(glyph_views(glyphs@)),
        Err(e) => Err(e),
    }
}

/// An answer for a code of which the engine rendered nothing.
pub open spec fn unrendered(code: usize) -> Rendition {
    Rendition {
        code,
        rendered: false,
        metrics: SlotMetrics {
            width: 0,
            rows: 0,
            pitch: 0,
            pixel_mode: 0,
            left: 0,
            top: 0,
            advance_x: 0,
        },
        buffer: Seq::empty(),
    }
}

/// One more answer adds to the glyphs what `take_in` makes of it.
pub proof fn lemma_selected_push(renditions: Seq<Rendition>, rendition: Rendition)
    ensures
        selected(renditions.push(rendition)) == take_in(selected(renditions), rendition),
{
    assert(renditions.push(rendition).drop_last() =~= renditions);
}

/// Whatever the engine answers, the glyphs taken are well formed and their
/// characters rise strictly.
pub proof fn lemma_selected(renditions: Seq<Rendition>)
    ensures
        all_wf(selected(renditions)),
        increasing(selected(renditions)),
    decreases renditions.len(),
{
    if renditions.len() > 0 {
        let before = selected(renditions.drop_last());
        let after = selected(renditions);
        lemma_selected(renditions.drop_last());
        if after != before {
            assert(after.last().wf());
            assert forall|i: int| 0 <= i < after.len() implies (#[trigger] after[i]).wf() by {
                if i < before.len() {
                    assert(after[i] == before[i]);
                }
            }
            assert forall|i: int, j: int| 0 <= i < j < after.len() implies ((
            #[trigger] after[i]).character as u32) < ((#[trigger] after[j]).character as u32) by {
                assert(after[i] == before[i]);
                if j < before.len() {
                    assert(after[j] == before[j]);
                } else if i < before.len() - 1 {
                    assert((before[i].character as u32) < (before[before.len() - 1].character
                        as u32));
                }
            }
        }
    }
}

/// Renders every character of the font at `font_size` pixels: opens the font,
/// lists the characters of its character map, and renders the glyph of each in
/// turn. A character is left out when its code is no Unicode scalar value, when it
/// does not rise above the characters before it, when the engine cannot render it,
/// or when what the engine rendered is not readable or not usable. Fails when the
/// engine cannot be started, rejects the font or the size, or lists no character.
/// The engine decides what it answers; the result is what `outcome` makes of its
/// answers.
pub fn rasterize(font: Vec<u8>, font_size: u32) -> (r: Result<Vec<Glyph>, FontError>)
    ensures
        exists|answers: Answers| #[trigger] outcome(answers) == result_views(r),
        r matches Ok(glyphs) ==> all_wf(glyph_views(glyphs@)) && increasing(glyph_views(glyphs@)),
        r matches Err(e) ==> e == FontError::FontLoad,
{
    let ghost mut answers = Answers {
        started: false,
        opened: false,
        sized: false,
        renditions: Seq::empty(),
    };
    let library = match start_engine() {
        Ok(library) => library,
        Err(_) => {
            assert(outcome(answers) is Err);
            return Err(FontError::FontLoad);
        },
    };
    proof {
        answers = Answers { started: true, ..answers };
    }
    let face = match open_face(&library, font) {
        Ok(face) => face,
        Err(_) => {
            assert(outcome(answers) is Err);
            return Err(FontError::FontLoad);
        },
    };
    proof {
        answers = Answers { opened: true, ..answers };
    }
    let codes = char_codes(&face);
    if codes.len() == 0 {
        assert(outcome(answers) is Err);
        return Err(FontError::FontLoad);
    }
    match set_pixel_sizes(&face, font_size, font_size) {
        Ok(_) => {},
        Err(_) => {
            proof {
                answers = Answers {
                    renditions: Seq::new(codes@.len(), |k: int| unrendered(codes@[k])),
                    ..answers
                };
            }
            assert(outcome(answers) is Err);
            return Err(FontError::FontLoad);
        },
    }
    let mut glyphs: Vec<Glyph> = Vec::new();
    let mut floor: u32 = 0;
    let mut i: usize = 0;
    let ghost mut taken: Seq<Rendition> = Seq::empty();
    while i < codes.len()
        invariant
            0 <= i <= codes.len(),
            taken.len() == i,
            glyph_views(glyphs@) == selected(taken),
            floor == floor_of(glyph_views(glyphs@)),
        decreases codes.len() - i,
    {
        let code: usize = codes[i];
        let ghost before = glyph_views(glyphs@);
        let ghost mut answer = unrendered(code);
        match rising_char(code, floor) {
            Some(c) => match load_char(&face, code) {
                Ok(_) => {
                    let metrics = slot_metrics(&face);
                    proof {
                        answer = Rendition { rendered: true, metrics, ..answer };
                    }
                    if metrics.is_readable() {
                        let buffer = slot_buffer(&face);
                        proof {
                            answer = Rendition { buffer: buffer@, ..answer };
                        }
                        match Glyph::from_raw(c, &metrics, &buffer) {
                            Some(glyph) => {
                                glyphs.push(glyph);
                                floor = c as u32 + 1;
                                assert(glyph_views(glyphs@) =~= before.push(
                                    glyph_of(c, metrics, buffer@),
                                ));
                            },
                            None => {},
                        }
                    }
                },
                Err(_) => {},
            },
            None => {},
        }
        proof {
            lemma_selected_push(taken, answer);
            assert(glyph_views(glyphs@) == take_in(before, answer));
            taken = taken.push(answer);
        }
        i += 1;
    }
    proof {
        answers = Answers { sized: true, renditions: taken, ..answers };
        assert(outcome(answers) == result_views(Ok(glyphs)));
        lemma_selected(taken);
    }
    Ok(glyphs)
}

} // verus!
