//! Quads: the one form in which UI is drawn. `R` is a rectangle in logical pixels.

use vstd::prelude::*;

verus! {

/// A glyph at a size. The size is in physical pixels, so that a glyph is made anew for a display of
/// another scale.
#[derive(Debug, Clone, Copy, PartialEq, Eq, Hash, Structural)]
pub struct GlyphKey {
    /// Number of the glyph in its font.
    pub glyph: u16,
    pub size_px: u16,
}

/// Where a quad takes its color from.
#[derive(Debug, Clone, Copy, PartialEq, Eq, Structural)]
pub enum QuadSource {
    /// Its own color all over.
    Solid,
    /// Its own color, as far as the glyph covers it.
    Glyph(GlyphKey),
}

/// A rectangle of color.
#[derive(Debug, Clone, Copy, PartialEq, Eq)]
pub struct Quad<R> {
    pub rect: R,
    pub color: [u8; 4],
    pub source: QuadSource,
}

impl<R> Quad<R> {
    /// A quad of one color.
    pub fn solid(rect: R, color: [u8; 4]) -> (quad: Self)
        ensures
            quad == (Quad { rect, color, source: QuadSource::Solid }),
    {
        Quad { rect, color, source: QuadSource::Solid }
    }

    /// A quad in the shape of a glyph.
    pub fn glyph(key: GlyphKey, rect: R, color: [u8; 4]) -> (quad: Self)
        ensures
            quad == (Quad { rect, color, source: QuadSource::Glyph(key) }),
    {
        Quad { rect, color, source: QuadSource::Glyph(key) }
    }
}

} // verus!
