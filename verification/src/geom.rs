//! Geometry and color primitives.
//!
//! Rectangles carry fixed-point coordinates (256 units per pixel); colors
//! are 8-bit RGBA.

use vstd::prelude::*;

verus! {

/// An axis-aligned rectangle in fixed-point units (1/256 px).
#[derive(Clone, Copy, Debug, PartialEq, Eq, Structural)]
pub struct Rect {
    /// Left edge.
    pub x: i32,
    /// Top edge.
    pub y: i32,
    /// Width.
    pub width: i32,
    /// Height.
    pub height: i32,
}

impl Rect {
    /// Builds a rectangle from its left/top corner and extent.
    pub fn new(x: i32, y: i32, width: i32, height: i32) -> (r: Rect)
        ensures
            r == (Rect { x, y, width, height }),
    {
        Rect { x, y, width, height }
    }
}

/// An 8-bit RGBA color.
#[derive(Clone, Copy, Debug, PartialEq, Eq, Structural)]
pub struct Color {
    pub r: u8,
    pub g: u8,
    pub b: u8,
    pub a: u8,
}

impl Color {
    /// Builds a color from its four channels.
    pub fn new(r: u8, g: u8, b: u8, a: u8) -> (c: Color)
        ensures
            c == (Color { r, g, b, a }),
    {
        Color { r, g, b, a }
    }

    /// Opaque white, used as the tint for color-bitmap glyphs.
    pub fn white() -> (c: Color)
        ensures
            c == (Color { r: 255u8, g: 255u8, b: 255u8, a: 255u8 }),
    {
        Color { r: 255, g: 255, b: 255, a: 255 }
    }
}

impl Default for Color {
    /// Transparent black.
    fn default() -> (c: Color)
        ensures
            c == (Color { r: 0u8, g: 0u8, b: 0u8, a: 0u8 }),
    {
        Color { r: 0, g: 0, b: 0, a: 0 }
    }
}

/// Whole-pixel floor of a fixed-point value: the greatest pixel index whose
/// fixed-point value does not exceed `v`.
pub open spec fn spec_floor_px(v: int) -> int {
    v / 256
}

/// Floors a fixed-point coordinate to whole pixels.
pub fn floor_px(v: i32) -> (r: i32)
    ensures
        r == spec_floor_px(v as int),
{
    let q: i32 = v / 256;
    let m: i32 = v % 256;
    if m < 0 {
        q - 1
    } else {
        q
    }
}

/// Rounding of a fixed-point value to whole pixels, half away from zero.
pub open spec fn spec_round_px(v: int) -> int {
    if v >= 0 {
        (v + 128) / 256
    } else {
        -((-v + 128) / 256)
    }
}

/// Rounds a fixed-point coordinate to whole pixels, half away from zero.
pub fn round_px(v: i32) -> (r: i32)
    requires
        -0x7fff_ff00 <= v <= 0x7fff_ff00,
    ensures
        r == spec_round_px(v as int),
{
    if v >= 0 {
        (v + 128) / 256
    } else {
        let n: i32 = -v + 128;
        -(n / 256)
    }
}

} // verus!
