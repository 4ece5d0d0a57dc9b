//! The ways in which building an atlas or laying out text can fail.

use vstd::prelude::*;

verus! {

/// Why no atlas was built. No partial atlas is ever returned.
#[derive(Clone, Copy, Debug, PartialEq, Eq)]
pub enum FontError {
    /// The font engine could not be started, rejected the font bytes or the pixel
    /// size, or found no character in the font.
    FontLoad,
    /// A glyph is wider than the atlas.
    AtlasPack,
    /// The atlas would be wider or higher than `MAX_SIDE` pixels, or would hold more
    /// pixels than one buffer can.
    AtlasTooLarge,
}

/// Why no geometry was built.
#[derive(Clone, Copy, Debug, PartialEq, Eq)]
pub enum TextError {
    /// The text has more drawable characters than `MAX_QUADS`.
    TooLong,
}

} // verus!
