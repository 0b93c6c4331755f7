//! Sub-pixel phase quantization.
//!
//! Rasterized glyphs are cached per quantized sub-pixel phase so that
//! positions that differ by less than the quantization granularity share a
//! cache entry. Positions are fixed-point values in units of 1/256 px.

use vstd::prelude::*;

verus! {

/// One of the four discrete sub-pixel phases, in 1/4-pixel increments.
#[derive(Clone, Copy, Debug, PartialEq, Eq, Hash, Structural)]
pub enum SubpixelOffset {
    Zero,
    Quarter,
    Half,
    ThreeQuarters,
}

/// Fractional part of a fixed-point position, in [0, 256).
pub open spec fn spec_frac(pos: int) -> int {
    pos % 256
}

/// The phase a fixed-point position quantizes to: the fractional part is
/// split into eighths `a = frac * 8 / 256`, and
/// `a` in 1..=2 gives `Quarter`, 3..=4 gives `Half`, 5..=6 gives
/// `ThreeQuarters`, anything else gives `Zero`.
pub open spec fn spec_quantize(pos: int) -> SubpixelOffset {
    let a = spec_frac(pos) / 32;
    if 1 <= a <= 2 {
        SubpixelOffset::Quarter
    } else if 3 <= a <= 4 {
        SubpixelOffset::Half
    } else if 5 <= a <= 6 {
        SubpixelOffset::ThreeQuarters
    } else {
        SubpixelOffset::Zero
    }
}

impl SubpixelOffset {
    /// Quantizes a fixed-point position (1/256 px units) to its sub-pixel
    /// phase.
    pub fn quantize(pos: i32) -> (r: Self)
        ensures
            r == spec_quantize(pos as int),
    {
        let m: i32 = pos % 256;
        let frac: i32 = if m < 0 { m + 256 } else { m };
        assert(frac == spec_frac(pos as int));
        let a: i32 = frac / 32;
        if 1 <= a && a <= 2 {
            SubpixelOffset::Quarter
        } else if 3 <= a && a <= 4 {
            SubpixelOffset::Half
        } else if 5 <= a && a <= 6 {
            SubpixelOffset::ThreeQuarters
        } else {
            SubpixelOffset::Zero
        }
    }

    /// The phase as a fixed-point offset in 1/256 px units:
    /// 0, 64 (1/4 px), 128 (1/2 px), or 192 (3/4 px).
    pub fn to_fixed(self) -> (r: i32)
        ensures
            r == self.spec_fixed(),
    {
        match self {
            SubpixelOffset::Zero => 0,
            SubpixelOffset::Quarter => 64,
            SubpixelOffset::Half => 128,
            SubpixelOffset::ThreeQuarters => 192,
        }
    }

    /// Fixed-point value of the phase.
    pub open spec fn spec_fixed(self) -> int {
        match self {
            SubpixelOffset::Zero => 0,
            SubpixelOffset::Quarter => 64,
            SubpixelOffset::Half => 128,
            SubpixelOffset::ThreeQuarters => 192,
        }
    }
}

/// Quantization is periodic in whole pixels: shifting a position by exactly
/// one pixel (256 fixed-point units) never changes its sub-pixel phase.
pub proof fn lemma_quantize_periodic(pos: int)
    ensures
        spec_quantize(pos + 256) == spec_quantize(pos),
{
    assert((pos + 256) % 256 == pos % 256) by {
        vstd::arithmetic::div_mod::lemma_mod_add_multiples_vanish(pos, 256);
    }
}

} // verus!
