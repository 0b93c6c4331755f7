//! The orchestrator: owns the image cache, glyph cache and batch manager,
//! advances the epoch once per frame, and exposes the drawing surface.

use vstd::prelude::*;

use crate::batch::{
    spec_coord_ok, spec_rect_bounded, spec_underline_prims, BatchManager, DisplayList, Pipeline,
    Primitive,
};
use crate::geom::{floor_px, round_px, spec_floor_px, spec_round_px, Color, Rect};
use crate::glyph::{GlyphCache, GlyphRasterizer, RasterizedGlyph, RasterizedGlyphKey};
use crate::image_cache::{
    AddImage, Epoch, ImageCache, ImageId, ImageLocation, TextureEvent,
};
use crate::text::{PositionedGlyph, TextRunStyle};

verus! {

/// Fixed-point coordinates this module accepts from callers.
pub open spec fn spec_in_range(v: int) -> bool {
    -0x1000_0000 <= v <= 0x1000_0000
}

/// The compositor: one instance owns all three components and the frame
/// clock.
pub struct Compositor {
    image_cache: ImageCache,
    glyph_cache: GlyphCache,
    batch_manager: BatchManager,
    epoch: Epoch,
    intercepts: Vec<(i32, i32)>,
}

impl Compositor {
    /// The image cache's current state.
    pub closed spec fn spec_images(self) -> ImageCache {
        self.image_cache
    }

    /// The glyph cache's current state.
    pub closed spec fn spec_glyphs(self) -> GlyphCache {
        self.glyph_cache
    }

    /// The accumulated primitives of the current frame.
    pub closed spec fn spec_prims(self) -> Seq<Primitive> {
        self.batch_manager.spec_prims()
    }

    /// The current epoch.
    pub closed spec fn spec_epoch(self) -> Epoch {
        self.epoch
    }

    /// All components are internally consistent.
    pub closed spec fn wf(self) -> bool {
        &&& self.image_cache.wf()
        &&& self.glyph_cache.wf()
        &&& self.batch_manager.wf()
    }

    /// Creates a compositor whose texture pages are at most
    /// `max_texture_size` pixels in either dimension.
    pub fn new(max_texture_size: u16) -> (c: Compositor)
        ensures
            c.wf(),
            c.spec_epoch().0 == 0,
            c.spec_images().spec_max() == max_texture_size,
            c.spec_images().spec_count() == 0,
            c.spec_prims() == Seq::<Primitive>::empty(),
            forall|id: ImageId| !c.spec_images().spec_is_valid(id),
            c.spec_glyphs().spec_font_count() == 0,
            forall|fid: u64, co: Seq<i16>| !c.spec_glyphs().spec_has_font(fid, co),
            c.spec_images().spec_events() == Seq::<TextureEvent>::empty(),
    {
        Compositor {
            image_cache: ImageCache::new(max_texture_size),
            glyph_cache: GlyphCache::new(),
            batch_manager: BatchManager::new(),
            epoch: Epoch(0),
            intercepts: Vec::new(),
        }
    }

    /// Begins a frame: prunes glyph-cache entries unused for longer than
    /// the retention window, advances the epoch by one, and clears the
    /// batch accumulator.
    #[verifier::spinoff_prover]
    #[verifier::rlimit(60)]
    pub fn begin(&mut self)
        requires
            old(self).wf(),
            old(self).spec_epoch().0 < 0xFFFF_FFFF_FFFF_FFFF,
        ensures
            final(self).wf(),
            final(self).spec_epoch().0 == old(self).spec_epoch().0 + 1,
            final(self).spec_prims() == Seq::<Primitive>::empty(),
            final(self).spec_images().spec_max() == old(self).spec_images().spec_max(),
            forall|j: ImageId| final(self).spec_images().spec_is_valid(j) ==> old(self).spec_images().spec_is_valid(j),
            forall|j: ImageId|
                old(self).spec_images().spec_is_valid(j) && !old(self).spec_glyphs().spec_stale_ref(
                    old(self).spec_epoch(),
                    j,
                ) ==> final(self).spec_images().spec_is_valid(j),
            forall|fid: u64, c: Seq<i16>|
                old(self).spec_glyphs().spec_has_font(fid, c) && !old(self).spec_glyphs().spec_font_stale(fid, c, old(self).spec_epoch()) ==> final(self).spec_glyphs().spec_has_font(fid, c),
            forall|fid: u64, c: Seq<i16>| final(self).spec_glyphs().spec_has_font(fid, c) ==> {
                &&& old(self).spec_glyphs().spec_has_font(fid, c)
                &&& !old(self).spec_glyphs().spec_font_stale(fid, c, old(self).spec_epoch())
                &&& final(self).spec_glyphs().spec_font_epoch(fid, c) == old(self).spec_glyphs().spec_font_epoch(fid, c)
                &&& final(self).spec_glyphs().spec_glyphs(fid, c) == old(self).spec_glyphs().spec_glyphs(fid, c)
            },
            forall|fid: u64, c: Seq<i16>, k: crate::glyph::RasterizedGlyphKey|
                old(self).spec_glyphs().spec_has_font(fid, c) && old(self).spec_glyphs().spec_font_stale(fid, c, old(self).spec_epoch())
                    && #[trigger] old(self).spec_glyphs().spec_glyphs(fid, c).contains_key(k)
                    ==> !final(self).spec_images().spec_is_valid(
                    old(self).spec_glyphs().spec_glyphs(fid, c)[k].image_id,
                ),
            forall|j: ImageId|
                old(self).spec_images().spec_is_valid(j) && final(self).spec_images().spec_is_valid(j) ==> {
                    &&& final(self).spec_images().spec_location(j) == old(self).spec_images().spec_location(j)
                    &&& final(self).spec_images().spec_epoch_of(j) == old(self).spec_images().spec_epoch_of(j)
                },
            final(self).spec_images().spec_events() == old(self).spec_images().spec_events(),
            final(self).spec_images().spec_count() == old(self).spec_images().spec_count(),
    {
        self.glyph_cache.prune(self.epoch, &mut self.image_cache);
        self.epoch = Epoch(self.epoch.0 + 1);
        self.batch_manager.reset();
    }

    /// Finishes a frame: hands back the pending texture events, oldest
    /// first, and compiles the accumulated primitives into `list`.
    #[verifier::spinoff_prover]
    #[verifier::rlimit(60)]
    pub fn finish(&mut self, list: &mut DisplayList) -> (events: Vec<TextureEvent>)
        requires
            old(self).wf(),
            old(self).spec_prims().len() < usize::MAX / 4,
        ensures
            final(self).wf(),
            events@ == old(self).spec_images().spec_events(),
            final(self).spec_images().spec_events() == Seq::<TextureEvent>::empty(),
            crate::batch::spec_compiled(old(self).spec_prims(), *final(list)),
            final(self).spec_prims() == old(self).spec_prims(),
            final(self).spec_epoch() == old(self).spec_epoch(),
            final(self).spec_glyphs() == old(self).spec_glyphs(),
            forall|j: ImageId| final(self).spec_images().spec_is_valid(j) == old(self).spec_images().spec_is_valid(j),
            forall|j: ImageId| old(self).spec_images().spec_is_valid(j) ==> {
                &&& final(self).spec_images().spec_location(j) == old(self).spec_images().spec_location(j)
                &&& final(self).spec_images().spec_epoch_of(j) == old(self).spec_images().spec_epoch_of(j)
            },
    {
        let events = self.image_cache.drain_events();
        self.batch_manager.build_display_list(list);
        events
    }

    /// Adds an image to the compositor; returns `None` exactly when the
    /// image cannot fit a texture page even when empty.
    pub fn add_image(&mut self, request: AddImage) -> (r: Option<ImageId>)
        requires
            old(self).wf(),
            old(self).spec_images().spec_count() < 0xFFFF_FFFF,
        ensures
            final(self).wf(),
            final(self).spec_epoch() == old(self).spec_epoch(),
            r is Some <==> request.width <= old(self).spec_images().spec_max() && request.height
                <= old(self).spec_images().spec_max(),
            r is None ==> final(self).spec_images() == old(self).spec_images(),
            final(self).spec_glyphs() == old(self).spec_glyphs(),
            final(self).spec_prims() == old(self).spec_prims(),
            r matches Some(id) ==> {
                &&& final(self).spec_images().spec_is_valid(id)
                &&& id.spec_has_alpha() == request.has_alpha
                &&& final(self).spec_images().spec_epoch_of(id) == old(self).spec_epoch().0
                &&& final(self).spec_images().spec_evictable(id) == request.evictable
                &&& final(self).spec_images().spec_location(id).max.0 == final(self).spec_images().spec_location(id).min.0 + request.width
                &&& final(self).spec_images().spec_location(id).max.1 == final(self).spec_images().spec_location(id).min.1 + request.height
                &&& crate::image_cache::spec_events_after_alloc(
                    old(self).spec_images().spec_events(),
                    final(self).spec_images().spec_events(),
                    final(self).spec_images().spec_location(id),
                    request.format,
                    request.width,
                    request.height,
                    request.data@,
                    old(self).spec_images().spec_max(),
                )
            },
            forall|j: ImageId|
                old(self).spec_images().spec_is_valid(j) && !old(self).spec_images().spec_stale(
                    j,
                    old(self).spec_epoch(),
                ) ==> final(self).spec_images().spec_is_valid(j),
            request.width <= old(self).spec_images().spec_max() && request.height <= old(self).spec_images().spec_max() && !old(self).spec_images().spec_has_room(
                request.format,
                request.width,
                request.height,
            ) ==> forall|j: ImageId|
                old(self).spec_images().spec_is_valid(j) && old(self).spec_images().spec_stale(
                    j,
                    old(self).spec_epoch(),
                ) ==> !final(self).spec_images().spec_is_valid(j),
            forall|j: ImageId|
                old(self).spec_images().spec_is_valid(j) && final(self).spec_images().spec_is_valid(
                    j,
                ) ==> final(self).spec_images().spec_location(j) == old(self).spec_images().spec_location(j),
    {
        self.image_cache.allocate(self.epoch, request)
    }

    /// Returns the image's current atlas location if it is still
    /// resident, refreshing its last-used epoch; `None` if it was evicted.
    pub fn get_image(&mut self, image: ImageId) -> (r: Option<ImageLocation>)
        requires
            old(self).wf(),
        ensures
            final(self).wf(),
            r == (if old(self).spec_images().spec_is_valid(image) {
                Some(old(self).spec_images().spec_location(image))
            } else {
                None::<ImageLocation>
            }),
            forall|j: ImageId| final(self).spec_images().spec_is_valid(j) == old(self).spec_images().spec_is_valid(j),
            forall|j: ImageId| old(self).spec_images().spec_is_valid(j) ==> final(self).spec_images().spec_location(j) == old(self).spec_images().spec_location(j),
            old(self).spec_images().spec_is_valid(image) ==> final(self).spec_images().spec_epoch_of(image) == old(self).spec_epoch().0,
            forall|j: ImageId|
                old(self).spec_images().spec_is_valid(j) && j.spec_index() != image.spec_index()
                    ==> final(self).spec_images().spec_epoch_of(j) == old(self).spec_images().spec_epoch_of(j),
            final(self).spec_images().spec_events() == old(self).spec_images().spec_events(),
            final(self).spec_glyphs() == old(self).spec_glyphs(),
            final(self).spec_prims() == old(self).spec_prims(),
            final(self).spec_epoch() == old(self).spec_epoch(),
    {
        self.image_cache.get(self.epoch, image)
    }

    /// Removes the image from the compositor; returns whether it was
    /// resident.
    pub fn remove_image(&mut self, image: ImageId) -> (r: bool)
        requires
            old(self).wf(),
        ensures
            final(self).wf(),
            r == old(self).spec_images().spec_is_valid(image),
            !final(self).spec_images().spec_is_valid(image),
            forall|j: ImageId| j.spec_index() != image.spec_index() ==> final(self).spec_images().spec_is_valid(j) == old(self).spec_images().spec_is_valid(j),
            forall|j: ImageId|
                old(self).spec_images().spec_is_valid(j) && j.spec_index() != image.spec_index()
                    ==> {
                    &&& final(self).spec_images().spec_location(j) == old(self).spec_images().spec_location(j)
                    &&& final(self).spec_images().spec_epoch_of(j) == old(self).spec_images().spec_epoch_of(j)
                    &&& final(self).spec_images().spec_evictable(j) == old(self).spec_images().spec_evictable(j)
                },
            final(self).spec_images().spec_events() == old(self).spec_images().spec_events(),
            final(self).spec_images().spec_count() == old(self).spec_images().spec_count(),
            final(self).spec_glyphs() == old(self).spec_glyphs(),
            final(self).spec_prims() == old(self).spec_prims(),
            final(self).spec_epoch() == old(self).spec_epoch(),
    {
        self.image_cache.deallocate(image).is_some()
    }

    /// Draws a filled rectangle with the given depth and color.
    pub fn draw_rect(&mut self, rect: Rect, depth: i32, color: Color)
        requires
            old(self).wf(),
            spec_rect_bounded(rect),
        ensures
            final(self).wf(),
            final(self).spec_prims() == old(self).spec_prims().push(
                Primitive {
                    pipeline: Pipeline::Fill,
                    texture: None,
                    rect,
                    depth,
                    color,
                    uv_min: (0u16, 0u16),
                    uv_max: (0u16, 0u16),
                },
            ),
            final(self).spec_epoch() == old(self).spec_epoch(),
            final(self).spec_images() == old(self).spec_images(),
            final(self).spec_glyphs() == old(self).spec_glyphs(),
    {
        self.batch_manager.add_rect(&rect, depth, color);
    }

    /// Draws an image if it is still resident; a miss draws nothing.
    pub fn draw_image(&mut self, rect: Rect, depth: i32, color: Color, image: ImageId)
        requires
            old(self).wf(),
            spec_rect_bounded(rect),
        ensures
            final(self).wf(),
            final(self).spec_epoch() == old(self).spec_epoch(),
            old(self).spec_images().spec_is_valid(image) ==> {
                let loc = old(self).spec_images().spec_location(image);
                final(self).spec_prims() == old(self).spec_prims().push(
                    Primitive {
                        pipeline: Pipeline::Image,
                        texture: Some(loc.texture_id),
                        rect,
                        depth,
                        color,
                        uv_min: loc.min,
                        uv_max: loc.max,
                    },
                )
            },
            !old(self).spec_images().spec_is_valid(image) ==> final(self).spec_prims() == old(self).spec_prims() && final(self).spec_images() == old(self).spec_images(),
            forall|j: ImageId| final(self).spec_images().spec_is_valid(j) == old(self).spec_images().spec_is_valid(j),
            forall|j: ImageId| old(self).spec_images().spec_is_valid(j) ==> final(self).spec_images().spec_location(j) == old(self).spec_images().spec_location(j),
            old(self).spec_images().spec_is_valid(image) ==> final(self).spec_images().spec_epoch_of(image) == old(self).spec_epoch().0,
            forall|j: ImageId|
                old(self).spec_images().spec_is_valid(j) && j.spec_index() != image.spec_index()
                    ==> final(self).spec_images().spec_epoch_of(j) == old(self).spec_images().spec_epoch_of(j),
            final(self).spec_images().spec_events() == old(self).spec_images().spec_events(),
            final(self).spec_glyphs() == old(self).spec_glyphs(),
    {
        match self.image_cache.get(self.epoch, image) {
            Some(img) => {
                self.batch_manager.add_image_rect(
                    &rect,
                    depth,
                    color,
                    img.min,
                    img.max,
                    img.texture_id,
                );
            },
            None => {},
        }
    }
}

/// The fixed horizontal sub-pixel bias applied before flooring a glyph's
/// position, in 1/256 px units (1/8 px).
pub const SUBPX_BIAS_X: i32 = 32;

/// The draw rectangle of a rasterized glyph at fixed-point position
/// `(x, y)`: the biased position is floored to whole pixels, offset by the
/// rasterizer's placement, and scaled back to fixed-point; `None` when the
/// result leaves the drawable range.
pub open spec fn spec_glyph_origin(x: int, y: int, left: int, top: int) -> (int, int) {
    (spec_floor_px(x + 32) + left, spec_floor_px(y) - top)
}

/// The glyph-cache key a run's glyph resolves under.
pub open spec fn spec_run_key(style: TextRunStyle, g: PositionedGlyph) -> RasterizedGlyphKey {
    RasterizedGlyphKey {
        id: g.id,
        subpx_x: crate::subpixel::spec_quantize(g.x as int),
        subpx_y: crate::subpixel::spec_quantize(g.y as int),
        size: crate::glyph::spec_quantized_size(style.font_size as int),
    }
}

/// Whether a run's glyph hits the caches outright: its font is cached,
/// its key is cached, and the backing image is resident.
pub open spec fn spec_run_hit(
    c: GlyphCache,
    im: ImageCache,
    style: TextRunStyle,
    g: PositionedGlyph,
) -> bool {
    &&& c.spec_has_font(style.font_id, style.font_coords@)
    &&& c.spec_glyphs(style.font_id, style.font_coords@).contains_key(spec_run_key(style, g))
    &&& im.spec_is_valid(
        c.spec_glyphs(style.font_id, style.font_coords@)[spec_run_key(style, g)].image_id,
    )
}

/// Whether every glyph of the run hits the caches outright.
pub open spec fn spec_all_hit(
    c: GlyphCache,
    im: ImageCache,
    style: TextRunStyle,
    glyphs: Seq<PositionedGlyph>,
) -> bool {
    forall|i: int| 0 <= i < glyphs.len() ==> spec_run_hit(c, im, style, #[trigger] glyphs[i])
}

/// Whether the glyph's floored draw origin stays inside the drawable
/// range (what [`Compositor::draw_glyphs`] can emit).
pub open spec fn spec_glyph_in_range(g: PositionedGlyph, e: RasterizedGlyph) -> bool {
    let o = spec_glyph_origin(g.x as int, g.y as int, e.left as int, e.top as int);
    -0x20_0000 <= o.0 <= 0x20_0000 && -0x20_0000 <= o.1 <= 0x20_0000
}

/// The primitive one resolved glyph contributes: a textured image quad
/// tinted white for color bitmaps, an alpha-mask quad in the run color
/// for outlines, placed at the floored origin in fixed-point units.
pub open spec fn spec_glyph_prim(
    g: PositionedGlyph,
    e: RasterizedGlyph,
    loc: ImageLocation,
    depth: i32,
    color: Color,
) -> Primitive {
    let o = spec_glyph_origin(g.x as int, g.y as int, e.left as int, e.top as int);
    Primitive {
        pipeline: if e.is_bitmap {
            Pipeline::Image
        } else {
            Pipeline::Mask
        },
        texture: Some(loc.texture_id),
        rect: Rect {
            x: (o.0 * 256) as i32,
            y: (o.1 * 256) as i32,
            width: (e.width as int * 256) as i32,
            height: (e.height as int * 256) as i32,
        },
        depth,
        color: if e.is_bitmap {
            Color { r: 255u8, g: 255u8, b: 255u8, a: 255u8 }
        } else {
            color
        },
        uv_min: loc.min,
        uv_max: loc.max,
    }
}

/// The glyph primitives an all-hit run emits, from glyph `i` on: one quad
/// per glyph whose origin is in range, in run order.
pub open spec fn spec_hit_prims(
    c: GlyphCache,
    im: ImageCache,
    style: TextRunStyle,
    glyphs: Seq<PositionedGlyph>,
    depth: i32,
    i: int,
) -> Seq<Primitive>
    decreases glyphs.len() - i,
{
    if 0 <= i < glyphs.len() {
        let g = glyphs[i];
        let e = c.spec_glyphs(style.font_id, style.font_coords@)[spec_run_key(style, g)];
        let loc = im.spec_location(e.image_id);
        (if spec_glyph_in_range(g, e) {
            seq![spec_glyph_prim(g, e, loc, depth, style.color)]
        } else {
            Seq::empty()
        }) + spec_hit_prims(c, im, style, glyphs, depth, i + 1)
    } else {
        Seq::empty()
    }
}

/// The underline intercepts an all-hit run records, from glyph `i` on:
/// the descender span of each emitted glyph the underline stroke would
/// cross, translated to run coordinates, within the recordable range.
pub open spec fn spec_hit_intercepts(
    c: GlyphCache,
    im: ImageCache,
    style: TextRunStyle,
    glyphs: Seq<PositionedGlyph>,
    off_px: int,
    i: int,
) -> Seq<(i32, i32)>
    decreases glyphs.len() - i,
{
    if 0 <= i < glyphs.len() {
        let g = glyphs[i];
        let e = c.spec_glyphs(style.font_id, style.font_coords@)[spec_run_key(style, g)];
        let gx = spec_glyph_origin(g.x as int, g.y as int, e.left as int, e.top as int).0;
        (if spec_glyph_in_range(g, e) && e.top as int - off_px < e.height as int {
            match e.desc.spec_range() {
                Some((ds, de)) => {
                    let i0 = (gx + ds as int) * 256;
                    let i1 = (gx + de as int) * 256;
                    if -0x2000_0000 <= i0 && i1 <= 0x2000_0000 && i0 <= i1 {
                        seq![((i0 as i32, i1 as i32))]
                    } else {
                        Seq::empty()
                    }
                },
                None => Seq::empty(),
            }
        } else {
            Seq::empty()
        }) + spec_hit_intercepts(c, im, style, glyphs, off_px, i + 1)
    } else {
        Seq::empty()
    }
}

/// Each intercept expanded by one pixel on each side.
pub open spec fn spec_expand_intercepts(ints: Seq<(i32, i32)>) -> Seq<(i32, i32)> {
    Seq::new(ints.len(), |i: int| (((ints[i].0 - 256) as i32, (ints[i].1 + 256) as i32)))
}

impl Compositor {
    /// Draws a shaped text run: resolves each glyph through the glyph
    /// cache (rasterizing on a miss), emits a textured primitive for
    /// color-bitmap glyphs or an alpha-mask primitive for outline glyphs,
    /// and, for underlined runs, draws the underline in segments that
    /// avoid each glyph's descender ink region (expanded by one pixel on
    /// each side).
    #[verifier::spinoff_prover]
    #[verifier::rlimit(100)]
    pub fn draw_glyphs<R: GlyphRasterizer>(
        &mut self,
        rect: Rect,
        depth: i32,
        style: &TextRunStyle,
        glyphs: &Vec<PositionedGlyph>,
        raster: &mut R,
    )
        requires
            old(self).wf(),
            spec_in_range(rect.x as int),
            spec_in_range(rect.y as int),
            0 <= rect.width <= 0x1000_0000,
            0 <= rect.height <= 0x1000_0000,
            spec_in_range(style.baseline as int),
            style.underline matches Some(u) ==> spec_in_range(u.offset as int) && 0 <= u.size
                <= 0x100_0000,
            forall|i: int| 0 <= i < glyphs@.len() ==> spec_in_range(
                (#[trigger] glyphs@[i]).x as int,
            ) && spec_in_range(glyphs@[i].y as int),
            old(self).spec_images().spec_count() + glyphs@.len() < 0xFFFF_FFFF,
        ensures
            final(self).wf(),
            final(self).spec_epoch() == old(self).spec_epoch(),
            final(self).spec_images().spec_max() == old(self).spec_images().spec_max(),
            old(self).spec_prims().len() <= final(self).spec_prims().len(),
            final(self).spec_prims().subrange(0, old(self).spec_prims().len() as int) == old(self).spec_prims(),
            forall|j: ImageId|
                old(self).spec_images().spec_is_valid(j) && !old(self).spec_images().spec_stale(
                    j,
                    old(self).spec_epoch(),
                ) ==> final(self).spec_images().spec_is_valid(j) && final(self).spec_images().spec_location(j) == old(self).spec_images().spec_location(j),
            forall|j: ImageId|
                final(self).spec_images().spec_is_valid(j) && j.spec_index() < old(self).spec_images().spec_count() ==> old(self).spec_images().spec_is_valid(j),
            spec_all_hit(old(self).spec_glyphs(), old(self).spec_images(), *style, glyphs@) ==> {
                let gp = spec_hit_prims(
                    old(self).spec_glyphs(),
                    old(self).spec_images(),
                    *style,
                    glyphs@,
                    depth,
                    0,
                );
                &&& (style.underline is None ==> final(self).spec_prims() == old(self).spec_prims()
                    + gp)
                &&& (style.underline matches Some(u) ==> final(self).spec_prims() == old(
                    self,
                ).spec_prims() + gp + spec_underline_prims(
                    spec_expand_intercepts(
                        spec_hit_intercepts(
                            old(self).spec_glyphs(),
                            old(self).spec_images(),
                            *style,
                            glyphs@,
                            spec_round_px(u.offset as int),
                            0,
                        ),
                    ),
                    rect.x as int,
                    rect.x as int + rect.width as int,
                    style.baseline as int - spec_round_px(u.offset as int) * 256,
                    (if spec_round_px(u.size as int) < 1 {
                        1int
                    } else {
                        spec_round_px(u.size as int)
                    }) * 256,
                    depth,
                    u.color,
                ))
            },
    {
        let ghost pre = *old(self);
        let ghost ah = spec_all_hit(pre.glyph_cache, pre.image_cache, *style, glyphs@);
        let ghost gp_full = spec_hit_prims(
            pre.glyph_cache,
            pre.image_cache,
            *style,
            glyphs@,
            depth,
            0,
        );
        let (has_underline, underline_offset, underline_size, underline_color): (
            bool,
            i32,
            i32,
            Color,
        ) = match style.underline {
            Some(u) => {
                let size_px = round_px(u.size);
                let size_px = if size_px < 1 {
                    1
                } else {
                    size_px
                };
                (true, round_px(u.offset), size_px, u.color)
            },
            None => (false, 0, 0, Color::default()),
        };
        if has_underline {
            self.intercepts.clear();
        }
        let session = self.glyph_cache.session(
            self.epoch,
            style.font_id,
            style.font_coords.as_slice(),
            style.font_size,
        );
        let ghost ints_full = spec_hit_intercepts(
            pre.glyph_cache,
            pre.image_cache,
            *style,
            glyphs@,
            underline_offset as int,
            0,
        );
        let color = style.color;
        let n = glyphs.len();
        proof {
            if ah && n > 0 {
                assert(spec_run_hit(pre.glyph_cache, pre.image_cache, *style, glyphs@[0]));
                assert(pre.glyph_cache.spec_has_font(style.font_id, style.font_coords@));
            }
            assert(pre.batch_manager.spec_prims() + gp_full =~= self.batch_manager.spec_prims()
                + spec_hit_prims(pre.glyph_cache, pre.image_cache, *style, glyphs@, depth, 0));
            if has_underline {
                assert(ints_full =~= self.intercepts@ + spec_hit_intercepts(
                    pre.glyph_cache,
                    pre.image_cache,
                    *style,
                    glyphs@,
                    underline_offset as int,
                    0,
                ));
            }
        }
        let mut gi: usize = 0;
        while gi < n
            invariant
                self.image_cache.wf(),
                self.glyph_cache.wf(),
                self.batch_manager.wf(),
                session.valid_for(self.glyph_cache),
                session.spec_epoch() == self.epoch,
                self.epoch == pre.epoch,
                n == glyphs@.len(),
                0 <= gi <= n,
                self.image_cache.spec_max() == pre.image_cache.spec_max(),
                self.image_cache.spec_count() + (n - gi) < 0xFFFF_FFFF,
                pre.image_cache.spec_count() <= self.image_cache.spec_count(),
                pre.batch_manager.spec_prims().len() <= self.batch_manager.spec_prims().len(),
                self.batch_manager.spec_prims().subrange(
                    0,
                    pre.batch_manager.spec_prims().len() as int,
                ) == pre.batch_manager.spec_prims(),
                forall|j: ImageId|
                    pre.image_cache.spec_is_valid(j) && !pre.image_cache.spec_stale(j, pre.epoch)
                        ==> self.image_cache.spec_is_valid(j) && !self.image_cache.spec_stale(
                        j,
                        pre.epoch,
                    ) && self.image_cache.spec_location(j) == pre.image_cache.spec_location(j),
                forall|j: ImageId|
                    self.image_cache.spec_is_valid(j) && j.spec_index()
                        < pre.image_cache.spec_count() ==> pre.image_cache.spec_is_valid(j),
                forall|k: int| 0 <= k < glyphs@.len() ==> spec_in_range(
                    (#[trigger] glyphs@[k]).x as int,
                ) && spec_in_range(glyphs@[k].y as int),
                has_underline ==> forall|k: int| 0 <= k < self.intercepts@.len() ==> -0x2000_0000
                    <= (#[trigger] self.intercepts@[k]).0 && self.intercepts@[k].1 <= 0x2000_0000
                    && self.intercepts@[k].0 <= self.intercepts@[k].1,
                has_underline == (style.underline is Some),
                color == style.color,
                session.spec_font_id() == style.font_id,
                session.spec_coords() == style.font_coords@,
                session.spec_quant_size() == crate::glyph::spec_quantized_size(
                    style.font_size as int,
                ),
                ah == spec_all_hit(pre.glyph_cache, pre.image_cache, *style, glyphs@),
                gp_full == spec_hit_prims(
                    pre.glyph_cache,
                    pre.image_cache,
                    *style,
                    glyphs@,
                    depth,
                    0,
                ),
                ints_full == spec_hit_intercepts(
                    pre.glyph_cache,
                    pre.image_cache,
                    *style,
                    glyphs@,
                    underline_offset as int,
                    0,
                ),
                ah && n > 0 ==> self.glyph_cache.spec_glyphs(style.font_id, style.font_coords@)
                    == pre.glyph_cache.spec_glyphs(style.font_id, style.font_coords@),
                ah ==> forall|j: ImageId| self.image_cache.spec_is_valid(j)
                    == pre.image_cache.spec_is_valid(j),
                ah ==> forall|j: ImageId| pre.image_cache.spec_is_valid(j)
                    ==> self.image_cache.spec_location(j) == pre.image_cache.spec_location(j),
                ah ==> pre.batch_manager.spec_prims() + gp_full == self.batch_manager.spec_prims()
                    + spec_hit_prims(
                    pre.glyph_cache,
                    pre.image_cache,
                    *style,
                    glyphs@,
                    depth,
                    gi as int,
                ),
                ah && has_underline ==> ints_full == self.intercepts@ + spec_hit_intercepts(
                    pre.glyph_cache,
                    pre.image_cache,
                    *style,
                    glyphs@,
                    underline_offset as int,
                    gi as int,
                ),
            decreases n - gi,
        {
            let g = glyphs[gi];
            let ghost im_before = self.image_cache;
            let ghost bm_before = self.batch_manager.spec_prims();
            let ghost ints_before = self.intercepts@;
            proof {
                if ah {
                    assert(spec_run_hit(pre.glyph_cache, pre.image_cache, *style, glyphs@[gi as int]));
                    assert(session.spec_key(g.id, g.x as int, g.y as int) == spec_run_key(
                        *style,
                        g,
                    ));
                    assert(session.spec_hit(
                        self.glyph_cache,
                        self.image_cache,
                        session.spec_key(g.id, g.x as int, g.y as int),
                    ));
                }
            }
            let entry = session.get(
                &mut self.glyph_cache,
                &mut self.image_cache,
                raster,
                g.id,
                g.x,
                g.y,
            );
            let ghost im_mid = self.image_cache;
            match entry {
                Some(e) => {
                    let img = session.get_image_location(&mut self.image_cache, e.image_id);
                    proof {
                        assert forall|j: ImageId|
                            im_mid.spec_is_valid(j) && !im_mid.spec_stale(
                                j,
                                pre.epoch,
                            ) implies self.image_cache.spec_is_valid(j)
                            && !self.image_cache.spec_stale(j, pre.epoch)
                            && self.image_cache.spec_location(j) == im_mid.spec_location(j) by {
                            if j.spec_index() == e.image_id.spec_index() && im_mid.spec_is_valid(
                                e.image_id,
                            ) {
                                assert(self.image_cache.spec_epoch_of(j) == session.spec_epoch().0);
                            }
                        }
                    }
                    match img {
                        Some(loc) => {
                            match glyph_rect(g.x, g.y, e.left, e.top, e.width, e.height) {
                                Some(grect) => {
                                    if e.is_bitmap {
                                        self.batch_manager.add_image_rect(
                                            &grect,
                                            depth,
                                            Color::white(),
                                            loc.min,
                                            loc.max,
                                            loc.texture_id,
                                        );
                                    } else {
                                        self.batch_manager.add_mask_rect(
                                            &grect,
                                            depth,
                                            color,
                                            loc.min,
                                            loc.max,
                                            loc.texture_id,
                                        );
                                    }
                                    proof {
                                        if ah {
                                            assert(self.batch_manager.spec_prims() =~= bm_before
                                                + seq![
                                                spec_glyph_prim(
                                                    g,
                                                    e,
                                                    loc,
                                                    depth,
                                                    style.color,
                                                ),
                                            ]);
                                        }
                                    }
                                    if has_underline {
                                        let covers = (e.top as i64) - (underline_offset as i64)
                                            < (e.height as i64);
                                        if covers {
                                            match e.desc.range() {
                                                Some((s, il_end)) => {
                                                    let gx_px = (grect.x as i64) / 256;
                                                    proof {
                                                        assert(gx_px as int == spec_glyph_origin(
                                                            g.x as int,
                                                            g.y as int,
                                                            e.left as int,
                                                            e.top as int,
                                                        ).0);
                                                    }
                                                    let i0 = (gx_px + (s as i64)) * 256;
                                                    let i1 = (gx_px + (il_end as i64)) * 256;
                                                    if -0x2000_0000 <= i0 && i1 <= 0x2000_0000
                                                        && i0 <= i1 {
                                                        self.intercepts.push(
                                                            (i0 as i32, i1 as i32),
                                                        );
                                                    }
                                                },
                                                None => {},
                                            }
                                        }
                                    }
                                },
                                None => {},
                            }
                            proof {
                                if ah {
                                    lemma_hit_step(
                                        pre.glyph_cache,
                                        pre.image_cache,
                                        *style,
                                        glyphs@,
                                        depth,
                                        underline_offset as int,
                                        gi as int,
                                    );
                                    assert(e == pre.glyph_cache.spec_glyphs(
                                        style.font_id,
                                        style.font_coords@,
                                    )[spec_run_key(*style, g)]);
                                    assert(loc == pre.image_cache.spec_location(e.image_id));
                                    assert(pre.batch_manager.spec_prims() + gp_full
                                        =~= self.batch_manager.spec_prims() + spec_hit_prims(
                                        pre.glyph_cache,
                                        pre.image_cache,
                                        *style,
                                        glyphs@,
                                        depth,
                                        gi as int + 1,
                                    ));
                                    if has_underline {
                                        assert(ints_full =~= self.intercepts@
                                            + spec_hit_intercepts(
                                            pre.glyph_cache,
                                            pre.image_cache,
                                            *style,
                                            glyphs@,
                                            underline_offset as int,
                                            gi as int + 1,
                                        ));
                                    }
                                }
                            }
                        },
                        None => {
                            proof {
                                if ah {
                                    assert(false);
                                }
                            }
                        },
                    }
                    proof {
                        assert(self.batch_manager.spec_prims().subrange(
                            0,
                            bm_before.len() as int,
                        ) =~= bm_before);
                        lemma_prefix_chain(
                            pre.batch_manager.spec_prims(),
                            bm_before,
                            self.batch_manager.spec_prims(),
                        );
                    }
                },
                None => {
                    proof {
                        if ah {
                            assert(false);
                        }
                    }
                },
            }
            proof {
                assert forall|j: ImageId|
                    pre.image_cache.spec_is_valid(j) && !pre.image_cache.spec_stale(
                        j,
                        pre.epoch,
                    ) implies self.image_cache.spec_is_valid(j) && !self.image_cache.spec_stale(
                    j,
                    pre.epoch,
                ) && self.image_cache.spec_location(j) == pre.image_cache.spec_location(j) by {
                    assert(im_before.spec_is_valid(j) && !im_before.spec_stale(j, pre.epoch));
                    assert(im_mid.spec_is_valid(j) && !im_mid.spec_stale(j, pre.epoch)
                        && im_mid.spec_location(j) == im_before.spec_location(j));
                    assert(self.image_cache.spec_is_valid(j));
                    assert(!self.image_cache.spec_stale(j, pre.epoch));
                }
                assert forall|j: ImageId|
                    self.image_cache.spec_is_valid(j) && j.spec_index()
                        < pre.image_cache.spec_count() implies pre.image_cache.spec_is_valid(
                    j,
                ) by {
                    assert(im_mid.spec_is_valid(j));
                    assert(im_before.spec_is_valid(j));
                }
            }
            gi += 1;
        }
        proof {
            if ah {
                assert(spec_hit_prims(
                    pre.glyph_cache,
                    pre.image_cache,
                    *style,
                    glyphs@,
                    depth,
                    n as int,
                ) =~= Seq::<Primitive>::empty());
                assert(self.batch_manager.spec_prims() =~= pre.batch_manager.spec_prims()
                    + gp_full);
                if has_underline {
                    assert(spec_hit_intercepts(
                        pre.glyph_cache,
                        pre.image_cache,
                        *style,
                        glyphs@,
                        underline_offset as int,
                        n as int,
                    ) =~= Seq::<(i32, i32)>::empty());
                    assert(self.intercepts@ =~= ints_full);
                }
            }
        }
        if has_underline {
            // Expand each intercept by one pixel on each side, then draw
            // the underline across the spans between intercepts.
            let ghost mid = *self;
            let m = self.intercepts.len();
            let mut k: usize = 0;
            while k < m
                invariant
                    0 <= k <= m,
                    m == self.intercepts@.len(),
                    self.batch_manager == mid.batch_manager,
                    self.image_cache == mid.image_cache,
                    self.glyph_cache == mid.glyph_cache,
                    self.epoch == mid.epoch,
                    ah ==> m == ints_full.len(),
                    ah ==> forall|t: int| 0 <= t < k ==> #[trigger] self.intercepts@[t] == ((((
                    ints_full[t].0 - 256) as i32, (ints_full[t].1 + 256) as i32))),
                    ah ==> forall|t: int| k <= t < m ==> #[trigger] self.intercepts@[t]
                        == ints_full[t],
                    forall|t: int| 0 <= t < k ==> spec_coord_ok(
                        (#[trigger] self.intercepts@[t]).0 as int,
                    ) && spec_coord_ok(self.intercepts@[t].1 as int),
                    forall|t: int| k <= t < m ==> -0x2000_0000 <= (
                    #[trigger] self.intercepts@[t]).0 && self.intercepts@[t].1 <= 0x2000_0000
                        && self.intercepts@[t].0 <= self.intercepts@[t].1,
                decreases m - k,
            {
                let (a, b) = self.intercepts[k];
                self.intercepts[k] = (a - 256, b + 256);
                k += 1;
            }
            let uy = style.baseline - underline_offset * 256;
            let x1 = rect.x + rect.width;
            let ghost bm_mid = self.batch_manager.spec_prims();
            self.batch_manager.emit_underline(
                &self.intercepts,
                rect.x,
                x1,
                uy,
                underline_size * 256,
                depth,
                underline_color,
            );
            proof {
                assert(self.batch_manager.spec_prims().subrange(0, bm_mid.len() as int)
                    =~= bm_mid);
                lemma_prefix_chain(
                    pre.batch_manager.spec_prims(),
                    bm_mid,
                    self.batch_manager.spec_prims(),
                );
                if ah {
                    assert(self.intercepts@ =~= spec_expand_intercepts(ints_full));
                    assert(self.batch_manager.spec_prims() =~= pre.batch_manager.spec_prims()
                        + gp_full + spec_underline_prims(
                        spec_expand_intercepts(ints_full),
                        rect.x as int,
                        rect.x as int + rect.width as int,
                        uy as int,
                        (underline_size * 256) as int,
                        depth,
                        underline_color,
                    ));
                }
            }
        }
    }
}

/// One step of the all-hit run: the suffix starting at glyph `i` is that
/// glyph's contribution followed by the suffix starting at `i + 1`.
proof fn lemma_hit_step(
    c: GlyphCache,
    im: ImageCache,
    style: TextRunStyle,
    glyphs: Seq<PositionedGlyph>,
    depth: i32,
    off_px: int,
    i: int,
)
    requires
        0 <= i < glyphs.len(),
    ensures
        ({
            let g = glyphs[i];
            let e = c.spec_glyphs(style.font_id, style.font_coords@)[spec_run_key(style, g)];
            let loc = im.spec_location(e.image_id);
            spec_hit_prims(c, im, style, glyphs, depth, i) == (if spec_glyph_in_range(g, e) {
                seq![spec_glyph_prim(g, e, loc, depth, style.color)]
            } else {
                Seq::empty()
            }) + spec_hit_prims(c, im, style, glyphs, depth, i + 1)
        }),
        ({
            let g = glyphs[i];
            let e = c.spec_glyphs(style.font_id, style.font_coords@)[spec_run_key(style, g)];
            let gx = spec_glyph_origin(g.x as int, g.y as int, e.left as int, e.top as int).0;
            spec_hit_intercepts(c, im, style, glyphs, off_px, i) == (if spec_glyph_in_range(g, e)
                && e.top as int - off_px < e.height as int {
                match e.desc.spec_range() {
                    Some((ds, de)) => {
                        let i0 = (gx + ds as int) * 256;
                        let i1 = (gx + de as int) * 256;
                        if -0x2000_0000 <= i0 && i1 <= 0x2000_0000 && i0 <= i1 {
                            seq![((i0 as i32, i1 as i32))]
                        } else {
                            Seq::empty()
                        }
                    },
                    None => Seq::empty(),
                }
            } else {
                Seq::empty()
            }) + spec_hit_intercepts(c, im, style, glyphs, off_px, i + 1)
        }),
{
}

/// Extending a sequence twice keeps the original prefix.
proof fn lemma_prefix_chain(a: Seq<Primitive>, b: Seq<Primitive>, c: Seq<Primitive>)
    requires
        a.len() <= b.len(),
        b.subrange(0, a.len() as int) == a,
        b.len() <= c.len(),
        c.subrange(0, b.len() as int) == b,
    ensures
        a.len() <= c.len(),
        c.subrange(0, a.len() as int) == a,
{
    assert(c.subrange(0, a.len() as int) =~= b.subrange(0, a.len() as int));
}

/// Computes a glyph's draw rectangle in fixed-point units, or `None` when
/// the placement leaves the drawable range.
fn glyph_rect(x: i32, y: i32, left: i32, top: i32, w: u16, h: u16) -> (r: Option<Rect>)
    requires
        spec_in_range(x as int),
        spec_in_range(y as int),
    ensures
        r is Some <==> {
            let o = spec_glyph_origin(x as int, y as int, left as int, top as int);
            -0x20_0000 <= o.0 <= 0x20_0000 && -0x20_0000 <= o.1 <= 0x20_0000
        },
        r matches Some(rc) ==> {
            &&& spec_rect_bounded(rc)
            &&& rc.x == spec_glyph_origin(x as int, y as int, left as int, top as int).0 * 256
            &&& rc.y == spec_glyph_origin(x as int, y as int, left as int, top as int).1 * 256
            &&& rc.width == w as int * 256
            &&& rc.height == h as int * 256
        },
{
    let bx = floor_px(x + SUBPX_BIAS_X);
    let by = floor_px(y);
    let gx = (bx as i64) + (left as i64);
    let gy = (by as i64) - (top as i64);
    if -0x20_0000 <= gx && gx <= 0x20_0000 && -0x20_0000 <= gy && gy <= 0x20_0000 {
        Some(
            Rect {
                x: (gx as i32) * 256,
                y: (gy as i32) * 256,
                width: (w as i32) * 256,
                height: (h as i32) * 256,
            },
        )
    } else {
        None
    }
}

} // verus!
