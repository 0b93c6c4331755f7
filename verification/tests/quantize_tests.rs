use compositor::geom::{floor_px, round_px};
use compositor::glyph::quantized_size;
use compositor::subpixel::SubpixelOffset;

// Positions are fixed-point: 256 units per pixel.

#[test]
fn quantize_boundaries() {
    // 0.125 px -> Quarter, 0.375 -> Half, 0.625 -> ThreeQuarters,
    // 0.875 -> Zero (half-open intervals).
    assert_eq!(SubpixelOffset::quantize(32), SubpixelOffset::Quarter);
    assert_eq!(SubpixelOffset::quantize(96), SubpixelOffset::Half);
    assert_eq!(SubpixelOffset::quantize(160), SubpixelOffset::ThreeQuarters);
    assert_eq!(SubpixelOffset::quantize(224), SubpixelOffset::Zero);
}

#[test]
fn quantize_interiors() {
    assert_eq!(SubpixelOffset::quantize(0), SubpixelOffset::Zero);
    assert_eq!(SubpixelOffset::quantize(16), SubpixelOffset::Zero); // 0.0625
    assert_eq!(SubpixelOffset::quantize(64), SubpixelOffset::Quarter); // 0.25
    assert_eq!(SubpixelOffset::quantize(128), SubpixelOffset::Half); // 0.5
    assert_eq!(SubpixelOffset::quantize(192), SubpixelOffset::ThreeQuarters); // 0.75
    assert_eq!(SubpixelOffset::quantize(255), SubpixelOffset::Zero); // 0.996
}

#[test]
fn quantize_periodic() {
    // Shifting by whole pixels never changes the phase.
    for base in [-1024i32, -256, 0, 300, 2573, 100_000] {
        for frac in [0i32, 32, 100, 160, 224] {
            let p = base + frac;
            assert_eq!(
                SubpixelOffset::quantize(p),
                SubpixelOffset::quantize(p + 256)
            );
        }
    }
}

#[test]
fn quantize_negative_positions() {
    // -0.75 px has fractional part 0.25 of the containing pixel.
    assert_eq!(SubpixelOffset::quantize(-192), SubpixelOffset::Quarter);
    assert_eq!(SubpixelOffset::quantize(-256), SubpixelOffset::Zero);
}

#[test]
fn to_fixed_values() {
    assert_eq!(SubpixelOffset::Zero.to_fixed(), 0);
    assert_eq!(SubpixelOffset::Quarter.to_fixed(), 64);
    assert_eq!(SubpixelOffset::Half.to_fixed(), 128);
    assert_eq!(SubpixelOffset::ThreeQuarters.to_fixed(), 192);
}

#[test]
fn size_quantization() {
    // 16 px = 4096 fixed -> 512 (1/32 px units).
    assert_eq!(quantized_size(16 * 256), 512);
    assert_eq!(quantized_size(0), 0);
    assert_eq!(quantized_size(-5), 0);
    assert_eq!(quantized_size(i32::MAX), 65535);
}

#[test]
fn pixel_rounding() {
    assert_eq!(floor_px(256), 1);
    assert_eq!(floor_px(255), 0);
    assert_eq!(floor_px(-1), -1);
    assert_eq!(floor_px(-256), -1);
    assert_eq!(floor_px(-257), -2);
    assert_eq!(round_px(128), 1);
    assert_eq!(round_px(127), 0);
    assert_eq!(round_px(-128), -1);
    assert_eq!(round_px(-127), 0);
}
