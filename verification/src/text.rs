//! Text-run style and positioned-glyph inputs, as supplied by the layout
//! collaborator. Positions and sizes are fixed-point (1/256 px units).

use vstd::prelude::*;

use crate::geom::Color;

verus! {

/// Underline decoration of a text run.
#[derive(Clone, Copy, Debug)]
pub struct UnderlineStyle {
    /// Offset of the underline stroke from the baseline, fixed-point.
    pub offset: i32,
    /// Thickness of the underline stroke, fixed-point.
    pub size: i32,
    /// Color of the underline.
    pub color: Color,
}

/// Properties of a text run.
#[derive(Clone, Debug)]
pub struct TextRunStyle {
    /// Identity of the font face.
    pub font_id: u64,
    /// Normalized variation coordinates of the font instance.
    pub font_coords: Vec<i16>,
    /// Font size, fixed-point pixels.
    pub font_size: i32,
    /// Color of the text.
    pub color: Color,
    /// Baseline of the run, fixed-point.
    pub baseline: i32,
    /// Total advance of the run, fixed-point.
    pub advance: i32,
    /// Underline style, if the run is underlined.
    pub underline: Option<UnderlineStyle>,
}

/// A positioned glyph in a text run.
#[derive(Clone, Copy, Debug)]
pub struct PositionedGlyph {
    /// Glyph identifier.
    pub id: u16,
    /// X offset of the glyph, fixed-point.
    pub x: i32,
    /// Y offset of the glyph, fixed-point.
    pub y: i32,
}

} // verus!
