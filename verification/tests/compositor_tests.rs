use compositor::batch::{DisplayList, Pipeline};
use compositor::compositor::Compositor;
use compositor::geom::{Color, Rect};
use compositor::glyph::{GlyphRasterizer, RasterizationOutput};
use compositor::image_cache::{AddImage, ImageData, PixelFormat};
use compositor::subpixel::SubpixelOffset;
use compositor::text::{PositionedGlyph, TextRunStyle, UnderlineStyle};

/// Rasterizes an 8 by 8 alpha mask whose ink spans columns 2..6 of the
/// rows below its top edge (top = 1), giving the descender region [2, 6).
struct SyntheticRaster;

impl GlyphRasterizer for SyntheticRaster {
    fn rasterize(
        &mut self,
        _glyph_id: u16,
        _sx: SubpixelOffset,
        _sy: SubpixelOffset,
    ) -> Option<RasterizationOutput> {
        let mut data = vec![0u8; 64];
        for y in 0..8 {
            for x in 2..6 {
                data[y * 8 + x] = 255;
            }
        }
        Some(RasterizationOutput {
            left: 0,
            top: 1,
            width: 8,
            height: 8,
            is_color: false,
            data,
        })
    }
}

fn px(v: i32) -> i32 {
    v * 256
}

#[test]
fn rect_image_and_grouping() {
    let mut comp = Compositor::new(256);
    comp.begin();
    let id = comp
        .add_image(AddImage {
            format: PixelFormat::Rgba8,
            width: 4,
            height: 4,
            has_alpha: true,
            evictable: false,
            data: ImageData::Owned(vec![0u8; 64]),
        })
        .unwrap();
    let red = Color::new(255, 0, 0, 255);
    comp.draw_rect(Rect::new(0, 0, px(10), px(10)), 1, red);
    comp.draw_rect(Rect::new(px(10), 0, px(10), px(10)), 1, red);
    comp.draw_image(Rect::new(0, 0, px(4), px(4)), 2, red, id);
    comp.draw_rect(Rect::new(px(20), 0, px(10), px(10)), 3, red);
    let mut list = DisplayList::new();
    let events = comp.finish(&mut list);
    // One page created, one upload.
    assert_eq!(events.len(), 2);
    // Four primitives, grouped into fill / image / fill.
    assert_eq!(list.vertices.len(), 16);
    assert_eq!(list.commands.len(), 3);
    assert_eq!(list.commands[0].pipeline, Pipeline::Fill);
    assert_eq!(list.commands[0].first_vertex, 0);
    assert_eq!(list.commands[0].vertex_count, 8);
    assert_eq!(list.commands[1].pipeline, Pipeline::Image);
    assert_eq!(list.commands[1].vertex_count, 4);
    assert_eq!(list.commands[2].pipeline, Pipeline::Fill);
    assert_eq!(list.commands[2].vertex_count, 4);
}

#[test]
fn missing_image_draws_nothing() {
    let mut comp = Compositor::new(64);
    comp.begin();
    let id = comp
        .add_image(AddImage {
            format: PixelFormat::Rgba8,
            width: 4,
            height: 4,
            has_alpha: true,
            evictable: true,
            data: ImageData::Owned(vec![0u8; 64]),
        })
        .unwrap();
    assert!(comp.remove_image(id));
    comp.draw_image(Rect::new(0, 0, px(4), px(4)), 0, Color::white(), id);
    let mut list = DisplayList::new();
    comp.finish(&mut list);
    assert_eq!(list.vertices.len(), 0);
    assert_eq!(list.commands.len(), 0);
}

#[test]
fn underline_avoids_descender() {
    // A glyph at gx = 100 px whose descender ink spans [2, 6) intercepts
    // the underline at [102, 106) px, expanded to [101, 107); the
    // underline over [0, 200) px must cover [0, 101) and [107, 200).
    let mut comp = Compositor::new(256);
    comp.begin();
    let underline_color = Color::new(0, 0, 255, 255);
    let style = TextRunStyle {
        font_id: 7,
        font_coords: vec![],
        font_size: px(16),
        color: Color::new(0, 255, 0, 255),
        baseline: 0,
        advance: px(200),
        underline: Some(UnderlineStyle { offset: 0, size: px(1), color: underline_color }),
    };
    let glyphs = vec![PositionedGlyph { id: 5, x: px(100), y: 0 }];
    let mut raster = SyntheticRaster;
    comp.draw_glyphs(Rect::new(0, 0, px(200), px(20)), 0, &style, &glyphs, &mut raster);
    let mut list = DisplayList::new();
    comp.finish(&mut list);

    // One mask quad for the glyph and two fill quads for the underline.
    assert_eq!(list.vertices.len(), 12);
    let mut fills: Vec<(i32, i32)> = Vec::new();
    for c in &list.commands {
        if c.pipeline == Pipeline::Fill {
            for q in 0..(c.vertex_count / 4) {
                let v0 = &list.vertices[c.first_vertex + 4 * q];
                let v1 = &list.vertices[c.first_vertex + 4 * q + 1];
                fills.push((v0.x, v1.x));
            }
        }
    }
    assert_eq!(fills, vec![(px(0), px(101)), (px(107), px(200))]);
}

#[test]
fn overlapping_intercepts_merge() {
    // Glyphs at gx = 100 and gx = 103 px give intercepts [101, 107) and
    // [104, 110) after expansion; merged, the underline covers [0, 101)
    // and [110, 200) only.
    let mut comp = Compositor::new(256);
    comp.begin();
    let style = TextRunStyle {
        font_id: 7,
        font_coords: vec![],
        font_size: px(16),
        color: Color::new(0, 255, 0, 255),
        baseline: 0,
        advance: px(200),
        underline: Some(UnderlineStyle { offset: 0, size: px(1), color: Color::white() }),
    };
    let glyphs = vec![
        PositionedGlyph { id: 5, x: px(100), y: 0 },
        PositionedGlyph { id: 5, x: px(103), y: 0 },
    ];
    let mut raster = SyntheticRaster;
    comp.draw_glyphs(Rect::new(0, 0, px(200), px(20)), 0, &style, &glyphs, &mut raster);
    let mut list = DisplayList::new();
    comp.finish(&mut list);
    let mut fills: Vec<(i32, i32)> = Vec::new();
    for c in &list.commands {
        if c.pipeline == Pipeline::Fill {
            for q in 0..(c.vertex_count / 4) {
                let v0 = &list.vertices[c.first_vertex + 4 * q];
                let v1 = &list.vertices[c.first_vertex + 4 * q + 1];
                fills.push((v0.x, v1.x));
            }
        }
    }
    assert_eq!(fills, vec![(px(0), px(101)), (px(110), px(200))]);
}

#[test]
fn underline_skips_covered_span_only_when_intersecting() {
    // The same run without an underline emits only the glyph quad.
    let mut comp = Compositor::new(256);
    comp.begin();
    let style = TextRunStyle {
        font_id: 7,
        font_coords: vec![],
        font_size: px(16),
        color: Color::white(),
        baseline: 0,
        advance: px(200),
        underline: None,
    };
    let glyphs = vec![PositionedGlyph { id: 5, x: px(100), y: 0 }];
    let mut raster = SyntheticRaster;
    comp.draw_glyphs(Rect::new(0, 0, px(200), px(20)), 0, &style, &glyphs, &mut raster);
    let mut list = DisplayList::new();
    comp.finish(&mut list);
    assert_eq!(list.vertices.len(), 4);
    assert_eq!(list.commands.len(), 1);
    assert_eq!(list.commands[0].pipeline, Pipeline::Mask);
}

#[test]
fn glyph_cache_survives_frames() {
    let mut comp = Compositor::new(256);
    let style = TextRunStyle {
        font_id: 7,
        font_coords: vec![],
        font_size: px(16),
        color: Color::white(),
        baseline: 0,
        advance: px(50),
        underline: None,
    };
    let glyphs = vec![PositionedGlyph { id: 5, x: 0, y: 0 }];
    let mut raster = SyntheticRaster;
    let mut list = DisplayList::new();
    for _ in 0..3 {
        comp.begin();
        comp.draw_glyphs(Rect::new(0, 0, px(50), px(20)), 0, &style, &glyphs, &mut raster);
        comp.finish(&mut list);
        // Each frame draws the one glyph.
        assert_eq!(list.vertices.len(), 4);
    }
}

#[test]
fn end_to_end_capacity() {
    let mut comp = Compositor::new(32);
    comp.begin();
    // Larger than the maximum texture dimension: a hard capacity failure.
    let too_big = comp.add_image(AddImage {
        format: PixelFormat::Rgba8,
        width: 33,
        height: 4,
        has_alpha: false,
        evictable: true,
        data: ImageData::Owned(vec![0u8; 33 * 4 * 4]),
    });
    assert!(too_big.is_none());
    // Two images that together exceed one page both stay queryable.
    let a = comp
        .add_image(AddImage {
            format: PixelFormat::Rgba8,
            width: 32,
            height: 32,
            has_alpha: false,
            evictable: true,
            data: ImageData::Owned(vec![0u8; 32 * 32 * 4]),
        })
        .unwrap();
    let b = comp
        .add_image(AddImage {
            format: PixelFormat::Rgba8,
            width: 24,
            height: 24,
            has_alpha: false,
            evictable: true,
            data: ImageData::Owned(vec![0u8; 24 * 24 * 4]),
        })
        .unwrap();
    assert!(comp.get_image(a).is_some());
    assert!(comp.get_image(b).is_some());
}
