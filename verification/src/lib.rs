//! A glyph atlas and the geometry of text laid out against it.
//!
//! `FontTexture` renders every glyph of a font at one size and packs the glyphs
//! into one texture whose sides are powers of two. `TextDisplay` turns a text into
//! the vertices and indices of one quad per character, against such an atlas.
//! `draw` says what is to be submitted to the graphics backend for a display.
//!
//! Every length is in whole atlas pixels. Divided by the atlas width (columns,
//! horizontal positions) or height (rows, vertical positions), a length becomes a
//! fraction of the texture; since both sides are powers of two, that division
//! loses nothing in binary floating point as long as the length itself fits the
//! mantissa.

pub mod atlas;
pub mod error;
pub mod glyph;
pub mod grid;
pub mod packing;
pub mod po2;
pub mod raster;
pub mod text;

pub use atlas::{build_font_image, FontTexture};
pub use error::{FontError, TextError};
pub use glyph::{Glyph, SlotMetrics};
pub use packing::CharacterInfos;
pub use po2::get_nearest_po2;
pub use text::{draw, DrawCall, TextDisplay, Vertex};
