use compositor::glyph::{
    Coords, DescenderRegion, GlyphCache, GlyphRasterizer, RasterizationOutput,
};
use compositor::image_cache::{Epoch, ImageCache};

/// A synthetic rasterizer: an 8 by 8 alpha mask whose ink occupies columns
/// 2..6 of every row, placed one pixel above its own band (top = 1), so
/// the descender scan over rows 2..8 finds the span [2, 6). Counts calls.
struct SyntheticRaster {
    calls: usize,
    fail: bool,
}

fn mask_8x8() -> Vec<u8> {
    let mut data = vec![0u8; 64];
    for y in 0..8 {
        for x in 2..6 {
            data[y * 8 + x] = 255;
        }
    }
    data
}

impl GlyphRasterizer for SyntheticRaster {
    fn rasterize(
        &mut self,
        _glyph_id: u16,
        _sx: compositor::subpixel::SubpixelOffset,
        _sy: compositor::subpixel::SubpixelOffset,
    ) -> Option<RasterizationOutput> {
        self.calls += 1;
        if self.fail {
            return None;
        }
        Some(RasterizationOutput {
            left: 0,
            top: 1,
            width: 8,
            height: 8,
            is_color: false,
            data: mask_8x8(),
        })
    }
}

#[test]
fn cache_hit_rasterizes_once() {
    let mut glyphs = GlyphCache::new();
    let mut images = ImageCache::new(256);
    let mut raster = SyntheticRaster { calls: 0, fail: false };
    let coords: Vec<i16> = vec![];
    // x = 10.05 px and x = 10.10 px quantize to the same sub-pixel phase.
    let session = glyphs.session(Epoch(1), 7, &coords, 16 * 256);
    let first = session
        .get(&mut glyphs, &mut images, &mut raster, 5, 2573, 0)
        .unwrap();
    assert_eq!(raster.calls, 1);
    let session = glyphs.session(Epoch(1), 7, &coords, 16 * 256);
    let second = session
        .get(&mut glyphs, &mut images, &mut raster, 5, 2586, 0)
        .unwrap();
    assert_eq!(raster.calls, 1, "second request must hit the cache");
    assert_eq!(first.image_id, second.image_id);
}

#[test]
fn distinct_phases_rasterize_separately() {
    let mut glyphs = GlyphCache::new();
    let mut images = ImageCache::new(256);
    let mut raster = SyntheticRaster { calls: 0, fail: false };
    let coords: Vec<i16> = vec![];
    let session = glyphs.session(Epoch(1), 7, &coords, 16 * 256);
    session.get(&mut glyphs, &mut images, &mut raster, 5, 0, 0).unwrap();
    // x = 0.25 px is another phase, so another cache line.
    session.get(&mut glyphs, &mut images, &mut raster, 5, 64, 0).unwrap();
    assert_eq!(raster.calls, 2);
}

#[test]
fn rasterization_failure_is_not_cached() {
    let mut glyphs = GlyphCache::new();
    let mut images = ImageCache::new(256);
    let mut raster = SyntheticRaster { calls: 0, fail: true };
    let coords: Vec<i16> = vec![];
    let session = glyphs.session(Epoch(1), 7, &coords, 16 * 256);
    assert!(session.get(&mut glyphs, &mut images, &mut raster, 5, 0, 0).is_none());
    assert_eq!(raster.calls, 1);
    // Every future request retries: no negative result was cached.
    raster.fail = false;
    let session = glyphs.session(Epoch(1), 7, &coords, 16 * 256);
    assert!(session.get(&mut glyphs, &mut images, &mut raster, 5, 0, 0).is_some());
    assert_eq!(raster.calls, 2);
}

#[test]
fn pruning_releases_stale_font_images() {
    let mut glyphs = GlyphCache::new();
    let mut images = ImageCache::new(256);
    let mut raster = SyntheticRaster { calls: 0, fail: false };
    let coords: Vec<i16> = vec![];
    let session = glyphs.session(Epoch(1), 7, &coords, 16 * 256);
    let entry = session
        .get(&mut glyphs, &mut images, &mut raster, 5, 0, 0)
        .unwrap();
    assert!(images.is_valid(entry.image_id));
    // More than the retention window later, without touching the font, the
    // entry is dropped and its images released.
    glyphs.prune(Epoch(12), &mut images);
    assert!(!images.is_valid(entry.image_id));
}

#[test]
fn pruning_keeps_fresh_fonts() {
    let mut glyphs = GlyphCache::new();
    let mut images = ImageCache::new(256);
    let mut raster = SyntheticRaster { calls: 0, fail: false };
    let coords: Vec<i16> = vec![];
    let session = glyphs.session(Epoch(10), 7, &coords, 16 * 256);
    let entry = session
        .get(&mut glyphs, &mut images, &mut raster, 5, 0, 0)
        .unwrap();
    glyphs.prune(Epoch(12), &mut images);
    assert!(images.is_valid(entry.image_id));
    // The cached line still hits.
    let session = glyphs.session(Epoch(12), 7, &coords, 16 * 256);
    session.get(&mut glyphs, &mut images, &mut raster, 5, 0, 0).unwrap();
    assert_eq!(raster.calls, 1);
}

#[test]
fn clear_evicted_drops_dead_lines() {
    let mut glyphs = GlyphCache::new();
    let mut images = ImageCache::new(256);
    let mut raster = SyntheticRaster { calls: 0, fail: false };
    let coords: Vec<i16> = vec![];
    let session = glyphs.session(Epoch(1), 7, &coords, 16 * 256);
    let entry = session
        .get(&mut glyphs, &mut images, &mut raster, 5, 0, 0)
        .unwrap();
    // Invalidate the backing image behind the glyph cache's back, then sweep.
    images.deallocate(entry.image_id);
    glyphs.clear_evicted(&images);
    // The line is gone: the next request rasterizes again.
    let session = glyphs.session(Epoch(1), 7, &coords, 16 * 256);
    session.get(&mut glyphs, &mut images, &mut raster, 5, 0, 0).unwrap();
    assert_eq!(raster.calls, 2);
}

#[test]
fn descender_region_spans_ink() {
    let out = RasterizationOutput {
        left: 0,
        top: 1,
        width: 8,
        height: 8,
        is_color: false,
        data: mask_8x8(),
    };
    let desc = DescenderRegion::new(&out);
    assert_eq!(desc.range(), Some((2, 6)));
}

#[test]
fn descender_region_empty_without_ink() {
    let out = RasterizationOutput {
        left: 0,
        top: 1,
        width: 8,
        height: 8,
        is_color: false,
        data: vec![0u8; 64],
    };
    assert_eq!(DescenderRegion::new(&out).range(), None);
    // A band above the bitmap scans nothing.
    let out2 = RasterizationOutput {
        left: 0,
        top: 20,
        width: 8,
        height: 8,
        is_color: false,
        data: mask_8x8(),
    };
    assert_eq!(DescenderRegion::new(&out2).range(), None);
}

#[test]
fn descender_region_color_channels() {
    // A color glyph: ink wherever any channel is non-zero.
    let mut data = vec![0u8; 4 * 16];
    // 4x4 RGBA, top = 0 so rows 1..4 are scanned; ink at column 3 row 2.
    data[4 * (2 * 4 + 3) + 1] = 10;
    let out = RasterizationOutput {
        left: 0,
        top: 0,
        width: 4,
        height: 4,
        is_color: true,
        data,
    };
    assert_eq!(DescenderRegion::new(&out).range(), Some((3, 4)));
}

#[test]
fn coords_storage_variants_agree() {
    let empty = Coords::new(&[]);
    assert_eq!(empty.as_ref(), &[] as &[i16]);
    assert!(empty.matches(&[]));
    let small = Coords::new(&[1, -2, 3]);
    assert_eq!(small.as_ref(), &[1, -2, 3]);
    assert!(small.matches(&[1, -2, 3]));
    assert!(!small.matches(&[1, -2]));
    assert!(!small.matches(&[1, -2, 4]));
    let big = Coords::new(&[9; 12]);
    assert_eq!(big.as_ref(), &[9i16; 12]);
    assert!(big.matches(&[9; 12]));
}

#[test]
fn fonts_keyed_by_coords() {
    let mut glyphs = GlyphCache::new();
    let mut images = ImageCache::new(256);
    let mut raster = SyntheticRaster { calls: 0, fail: false };
    let c1: Vec<i16> = vec![100];
    let c2: Vec<i16> = vec![200];
    let s1 = glyphs.session(Epoch(1), 7, &c1, 16 * 256);
    s1.get(&mut glyphs, &mut images, &mut raster, 5, 0, 0).unwrap();
    // Same font id, other coordinates: a separate cache line.
    let s2 = glyphs.session(Epoch(1), 7, &c2, 16 * 256);
    s2.get(&mut glyphs, &mut images, &mut raster, 5, 0, 0).unwrap();
    assert_eq!(raster.calls, 2);
    // Probing the first again still hits.
    let s3 = glyphs.session(Epoch(1), 7, &c1, 16 * 256);
    s3.get(&mut glyphs, &mut images, &mut raster, 5, 0, 0).unwrap();
    assert_eq!(raster.calls, 2);
}
