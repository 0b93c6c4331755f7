//! Font-keyed glyph rasterization cache.
//!
//! Maps (font identity, variation coordinates, quantized size, glyph id,
//! sub-pixel phase) to a rasterized glyph backed by the image cache.
//! Rasterization itself is delegated to an external collaborator through
//! the [`GlyphRasterizer`] trait; this module decides when to rasterize and
//! how to cache the result, and prunes per-font entries whose last use is
//! older than the retention window.

use vstd::prelude::*;

use crate::image_cache::{
    AddImage, Epoch, ImageCache, ImageData, ImageId, ImageLocation, PixelFormat, RETENTION_FRAMES,
};
use crate::subpixel::SubpixelOffset;

verus! {

/// Variation coordinates of a font instance, stored without heap
/// allocation for the common case of few axes. Equality is defined over
/// the logical coordinate sequence regardless of the storage variant.
#[derive(Clone, Debug)]
pub enum Coords {
    /// No variation axes.
    Empty,
    /// At most eight axes, stored inline with their count.
    Inline(u8, [i16; 8]),
    /// More than eight axes, on the heap.
    Heap(Vec<i16>),
}

impl View for Coords {
    type V = Seq<i16>;

    /// The logical coordinate sequence.
    open spec fn view(&self) -> Seq<i16> {
        match *self {
            Coords::Empty => Seq::empty(),
            Coords::Inline(len, arr) => arr@.take(len as int),
            Coords::Heap(v) => v@,
        }
    }
}

impl Coords {
    /// The inline count never exceeds the inline capacity.
    pub open spec fn wf(self) -> bool {
        match self {
            Coords::Inline(len, _) => 0 < len <= 8,
            _ => true,
        }
    }

    /// Copies a coordinate slice into its most compact storage variant.
    pub fn new(coords: &[i16]) -> (r: Coords)
        ensures
            r@ == coords@,
            r.wf(),
    {
        let len = coords.len();
        if len == 0 {
            let r = Coords::Empty;
            proof {
                assert(r@ =~= coords@);
            }
            r
        } else if len <= 8 {
            let mut arr: [i16; 8] = [0; 8];
            let mut i: usize = 0;
            while i < len
                invariant
                    0 <= i <= len,
                    len == coords@.len(),
                    len <= 8,
                    forall|k: int| 0 <= k < i ==> arr@[k] == coords@[k],
                decreases len - i,
            {
                arr[i] = *vstd::slice::slice_index_get(coords, i);
                i += 1;
            }
            let r = Coords::Inline(len as u8, arr);
            proof {
                assert(r@ =~= coords@);
            }
            r
        } else {
            Coords::Heap(vstd::slice::slice_to_vec(coords))
        }
    }

    /// The logical coordinate sequence as a slice.
    pub fn as_ref(&self) -> (r: &[i16])
        requires
            self.wf(),
        ensures
            r@ == self@,
    {
        match self {
            Coords::Empty => {
                let r: &[i16] = &[];
                proof {
                    assert(r@ =~= self@);
                }
                r
            },
            Coords::Inline(len, arr) => {
                let r = vstd::slice::slice_subrange(arr.as_slice(), 0, *len as usize);
                proof {
                    assert(r@ =~= self@);
                }
                r
            },
            Coords::Heap(v) => v.as_slice(),
        }
    }

    /// Whether the logical sequence equals the given slice.
    pub fn matches(&self, other: &[i16]) -> (b: bool)
        requires
            self.wf(),
        ensures
            b == (self@ == other@),
    {
        let s = self.as_ref();
        if s.len() != other.len() {
            proof {
                assert(self@.len() != other@.len());
            }
            return false;
        }
        let n = s.len();
        let mut i: usize = 0;
        while i < n
            invariant
                0 <= i <= n,
                n == s@.len() == other@.len(),
                s@ == self@,
                forall|k: int| 0 <= k < i ==> s@[k] == other@[k],
            decreases n - i,
        {
            if *vstd::slice::slice_index_get(s, i) != *vstd::slice::slice_index_get(other, i) {
                return false;
            }
            i += 1;
        }
        proof {
            assert(self@ =~= other@);
        }
        true
    }
}

/// Compound cache key of one rasterized glyph: glyph id, quantized
/// sub-pixel phase on each axis, and quantized font size (1/32 px units).
#[derive(Clone, Copy, Debug, PartialEq, Eq, Hash, Structural)]
pub struct RasterizedGlyphKey {
    pub id: u16,
    pub subpx_x: SubpixelOffset,
    pub subpx_y: SubpixelOffset,
    pub size: u16,
}

/// Half-open horizontal pixel range `[start, end)` of ink below the glyph
/// top, in the glyph's own coordinate space; represented empty by
/// `start > end`.
#[derive(Clone, Copy, Debug, PartialEq, Eq, Structural)]
pub struct DescenderRegion {
    start: u16,
    end: u16,
}

impl DescenderRegion {
    /// The recorded span, or `None` when no ink was found.
    pub closed spec fn spec_range(self) -> Option<(u16, u16)> {
        if self.start <= self.end {
            Some((self.start, self.end))
        } else {
            None
        }
    }

    /// The ink span, if any.
    pub fn range(&self) -> (r: Option<(u16, u16)>)
        ensures
            r == self.spec_range(),
    {
        if self.start <= self.end {
            Some((self.start, self.end))
        } else {
            None
        }
    }

    /// Scans the rasterized rows strictly below the glyph's top edge for
    /// ink and records the smallest half-open column span containing all
    /// of it: `start` is the leftmost inked column, `end` one past the
    /// rightmost. Rows not fully present in the buffer are skipped; the
    /// region is empty when the band below the top is empty or holds no
    /// ink.
    pub fn new(image: &RasterizationOutput) -> (r: DescenderRegion)
        ensures
            (r.spec_range() is Some) <==> (spec_scan_active(*image) && exists|x: int|
                0 <= x < image.width as int && #[trigger] spec_col_ink(*image, x)),
            r.spec_range() matches Some((s, e)) ==> {
                &&& 0 <= s < e <= image.width
                &&& spec_col_ink(*image, s as int)
                &&& spec_col_ink(*image, e as int - 1)
                &&& forall|x: int| 0 <= x < image.width as int && #[trigger] spec_col_ink(*image, x)
                    ==> s as int <= x <= e as int - 1
            },
    {
        if !(image.top >= -1 && image.top < image.height as i32 - 1 && image.width < 0xFFFF) {
            return DescenderRegion { start: 0xFFFF, end: 0 };
        }
        let w: u16 = image.width;
        let h: u32 = image.height as u32;
        let y1: u32 = (image.top + 1) as u32;
        let len: u64 = image.data.len() as u64;
        let mut start: u16 = 0xFFFF;
        let mut end: u16 = 0;
        let mut y: u32 = y1;
        while y < h
            invariant
                spec_scan_active(*image),
                w == image.width,
                h == image.height,
                y1 == image.top + 1,
                len == image.data@.len(),
                y1 <= y <= h,
                w < 0xFFFF,
                start == 0xFFFF ==> end == 0 && forall|x: int| 0 <= x < w as int
                    ==> !spec_col_ink_upto(*image, x, y as int),
                start < 0xFFFF ==> {
                    &&& start < end <= w
                    &&& spec_col_ink_upto(*image, start as int, y as int)
                    &&& spec_col_ink_upto(*image, end as int - 1, y as int)
                    &&& forall|x: int| 0 <= x < w as int && #[trigger] spec_col_ink_upto(
                        *image,
                        x,
                        y as int,
                    ) ==> start as int <= x <= end as int - 1
                },
            decreases h - y,
        {
            proof {
                assert(0 <= (y as int) * (w as int) <= 0xFFFF_FFFF * 0xFFFF) by (nonlinear_arith)
                    requires
                        0 <= y as int <= 0xFFFF_FFFF,
                        0 <= w as int <= 0xFFFF,
                ;
            }
            let row_ok: bool = if image.is_color {
                ((y as u64) * (w as u64) + (w as u64)) * 4 <= len
            } else {
                (y as u64) * (w as u64) + (w as u64) <= len
            };
            proof {
                assert(row_ok == spec_row_ok(len as int, w as int, image.is_color, y as int));
            }
            if row_ok {
                let mut x: u16 = 0;
                while x < w
                    invariant
                        spec_scan_active(*image),
                        w == image.width,
                        h == image.height,
                        y1 == image.top + 1,
                        len == image.data@.len(),
                        y1 <= y < h,
                        w < 0xFFFF,
                        0 <= x <= w,
                        spec_row_ok(len as int, w as int, image.is_color, y as int),
                        start == 0xFFFF ==> end == 0 && forall|c: int| 0 <= c < w as int
                            ==> !spec_col_mixed(*image, c, y as int, x as int),
                        start < 0xFFFF ==> {
                            &&& start < end <= w
                            &&& spec_col_mixed(*image, start as int, y as int, x as int)
                            &&& spec_col_mixed(*image, end as int - 1, y as int, x as int)
                            &&& forall|c: int| 0 <= c < w as int && #[trigger] spec_col_mixed(
                                *image,
                                c,
                                y as int,
                                x as int,
                            ) ==> start as int <= c <= end as int - 1
                        },
                    decreases w - x,
                {
                    let ink = px_has_ink(&image.data, w, image.is_color, x, y);
                    proof {
                        assert forall|c: int| 0 <= c < w as int implies spec_col_mixed(
                            *image,
                            c,
                            y as int,
                            x as int + 1,
                        ) == (spec_col_mixed(*image, c, y as int, x as int) || (c == x as int
                            && ink)) by {}
                    }
                    let ghost old_start = start;
                    let ghost old_end = end;
                    if ink {
                        if x < start {
                            start = x;
                        }
                        if x + 1 > end {
                            end = x + 1;
                        }
                    }
                    proof {
                        if ink {
                            assert(spec_col_mixed(*image, x as int, y as int, x as int + 1));
                        }
                        if start == 0xFFFF {
                            assert forall|c: int|
                                #![trigger spec_col_mixed(*image, c, y as int, x as int + 1)]
                                0 <= c < w as int implies !spec_col_mixed(
                                *image,
                                c,
                                y as int,
                                x as int + 1,
                            ) by {
                                assert(!spec_col_mixed(*image, c, y as int, x as int));
                            }
                        } else {
                            if old_start < 0xFFFF {
                                assert(spec_col_mixed(*image, old_start as int, y as int, x as int + 1));
                                assert(spec_col_mixed(*image, old_end as int - 1, y as int, x as int + 1));
                            }
                            assert(spec_col_mixed(*image, start as int, y as int, x as int + 1));
                            assert(spec_col_mixed(*image, end as int - 1, y as int, x as int + 1));
                            assert forall|c: int|
                                #![trigger spec_col_mixed(*image, c, y as int, x as int + 1)]
                                0 <= c < w as int && spec_col_mixed(
                                *image,
                                c,
                                y as int,
                                x as int + 1,
                            ) implies start as int <= c <= end as int - 1 by {
                                if spec_col_mixed(*image, c, y as int, x as int) {
                                    assert(old_start < 0xFFFF);
                                    assert(old_start as int <= c <= old_end as int - 1);
                                } else {
                                    assert(c == x as int && ink);
                                }
                            }
                        }
                    }
                    x += 1;
                }
                proof {
                    if start == 0xFFFF {
                        assert forall|c: int|
                            #![trigger spec_col_ink_upto(*image, c, y as int + 1)]
                            0 <= c < w as int implies !spec_col_ink_upto(
                            *image,
                            c,
                            y as int + 1,
                        ) by {
                            lemma_col_step(*image, c, y as int);
                            assert(!spec_col_mixed(*image, c, y as int, w as int));
                        }
                    } else {
                        lemma_col_step(*image, start as int, y as int);
                        lemma_col_step(*image, end as int - 1, y as int);
                        assert forall|c: int|
                            #![trigger spec_col_ink_upto(*image, c, y as int + 1)]
                            0 <= c < w as int && spec_col_ink_upto(
                            *image,
                            c,
                            y as int + 1,
                        ) implies start as int <= c <= end as int - 1 by {
                            lemma_col_step(*image, c, y as int);
                            assert(spec_col_mixed(*image, c, y as int, w as int));
                        }
                    }
                }
            } else {
                proof {
                    if start == 0xFFFF {
                        assert forall|c: int|
                            #![trigger spec_col_ink_upto(*image, c, y as int + 1)]
                            0 <= c < w as int implies !spec_col_ink_upto(
                            *image,
                            c,
                            y as int + 1,
                        ) by {
                            lemma_col_skip(*image, c, y as int);
                            assert(!spec_col_ink_upto(*image, c, y as int));
                        }
                    } else {
                        lemma_col_skip(*image, start as int, y as int);
                        lemma_col_skip(*image, end as int - 1, y as int);
                        assert forall|c: int|
                            #![trigger spec_col_ink_upto(*image, c, y as int + 1)]
                            0 <= c < w as int && spec_col_ink_upto(
                            *image,
                            c,
                            y as int + 1,
                        ) implies start as int <= c <= end as int - 1 by {
                            lemma_col_skip(*image, c, y as int);
                            assert(spec_col_ink_upto(*image, c, y as int));
                        }
                    }
                }
            }
            y += 1;
        }
        proof {
            if start < 0xFFFF {
                assert(spec_col_ink(*image, start as int));
                assert(spec_col_ink(*image, end as int - 1));
            } else {
                assert forall|x: int| 0 <= x < image.width as int implies !spec_col_ink(
                    *image,
                    x,
                ) by {
                    assert(!spec_col_ink_upto(*image, x, y as int));
                }
            }
        }
        DescenderRegion { start, end }
    }
}

/// Column ink over a fully processed band plus a partial row: columns
/// before `xb` of row `yb` count as scanned.
pub open spec fn spec_col_mixed(out: RasterizationOutput, x: int, yb: int, xb: int) -> bool {
    ||| spec_col_ink_upto(out, x, yb)
    ||| (x < xb && spec_row_ok(out.data@.len() as int, out.width as int, out.is_color, yb)
        && spec_px_ink(out.data@, out.width as int, out.is_color, x, yb))
}

/// Finishing a fully-present row extends the scanned band by one.
proof fn lemma_col_step(out: RasterizationOutput, c: int, y: int)
    requires
        out.top + 1 <= y,
        0 <= c < out.width as int,
        spec_row_ok(out.data@.len() as int, out.width as int, out.is_color, y),
    ensures
        spec_col_mixed(out, c, y, out.width as int) == spec_col_ink_upto(out, c, y + 1),
{
    if spec_col_mixed(out, c, y, out.width as int) {
        if spec_col_ink_upto(out, c, y) {
            let yy = choose|yy: int| out.top + 1 <= yy < y && spec_row_ok(
                out.data@.len() as int,
                out.width as int,
                out.is_color,
                yy,
            ) && #[trigger] spec_px_ink(out.data@, out.width as int, out.is_color, c, yy);
            assert(spec_px_ink(out.data@, out.width as int, out.is_color, c, yy));
        } else {
            assert(spec_px_ink(out.data@, out.width as int, out.is_color, c, y));
        }
    }
    if spec_col_ink_upto(out, c, y + 1) {
        let yy = choose|yy: int| out.top + 1 <= yy < y + 1 && spec_row_ok(
            out.data@.len() as int,
            out.width as int,
            out.is_color,
            yy,
        ) && #[trigger] spec_px_ink(out.data@, out.width as int, out.is_color, c, yy);
        if yy < y {
            assert(spec_col_ink_upto(out, c, y));
        } else {
            assert(spec_px_ink(out.data@, out.width as int, out.is_color, c, y));
        }
    }
}

/// A row not fully present in the buffer contributes no ink.
proof fn lemma_col_skip(out: RasterizationOutput, c: int, y: int)
    requires
        out.top + 1 <= y,
        !spec_row_ok(out.data@.len() as int, out.width as int, out.is_color, y),
    ensures
        spec_col_ink_upto(out, c, y + 1) == spec_col_ink_upto(out, c, y),
{
    if spec_col_ink_upto(out, c, y + 1) {
        let yy = choose|yy: int| out.top + 1 <= yy < y + 1 && spec_row_ok(
            out.data@.len() as int,
            out.width as int,
            out.is_color,
            yy,
        ) && #[trigger] spec_px_ink(out.data@, out.width as int, out.is_color, c, yy);
        assert(yy < y);
        assert(spec_col_ink_upto(out, c, y));
    }
}

/// Tests one pixel of a fully-present row for ink.
fn px_has_ink(data: &Vec<u8>, w: u16, is_color: bool, x: u16, y: u32) -> (b: bool)
    requires
        x < w,
        spec_row_ok(data@.len() as int, w as int, is_color, y as int),
    ensures
        b == spec_px_ink(data@, w as int, is_color, x as int, y as int),
{
    proof {
        assert((y as int) * (w as int) <= 0xFFFF_FFFF * 0xFFFF) by (nonlinear_arith)
            requires
                0 <= y as int <= 0xFFFF_FFFF,
                0 <= w as int <= 0xFFFF,
        ;
        assert((y as int) * (w as int) >= 0) by (nonlinear_arith)
            requires
                0 <= y as int,
                0 <= w as int,
        ;
        assert((y as int) * (w as int) + (x as int) + 1 <= (y as int) * (w as int) + (w as int));
    }
    let base: u64 = (y as u64) * (w as u64) + (x as u64);
    let dlen: usize = data.len();
    proof {
        assert(base as int == (y as int) * (w as int) + (x as int));
    }
    if is_color {
        let o: u64 = base * 4;
        proof {
            assert(o as int + 3 < dlen as int);
        }
        let i0: usize = o as usize;
        data[i0] != 0 || data[i0 + 1] != 0 || data[i0 + 2] != 0 || data[i0 + 3] != 0
    } else {
        proof {
            assert((base as int) < dlen as int);
        }
        let i0: usize = base as usize;
        data[i0] != 0
    }
}

/// Whether row `y` of a `w`-wide image is fully present in a pixel buffer
/// of `data_len` bytes (one byte per pixel for masks, four for color).
pub open spec fn spec_row_ok(data_len: int, w: int, is_color: bool, y: int) -> bool {
    if is_color {
        (y * w + w) * 4 <= data_len
    } else {
        y * w + w <= data_len
    }
}

/// Whether the pixel at column `x` of row `y` carries ink: non-zero alpha
/// for masks, any non-zero channel for color bitmaps.
pub open spec fn spec_px_ink(data: Seq<u8>, w: int, is_color: bool, x: int, y: int) -> bool {
    if is_color {
        ||| data[4 * (y * w + x)] != 0
        ||| data[4 * (y * w + x) + 1] != 0
        ||| data[4 * (y * w + x) + 2] != 0
        ||| data[4 * (y * w + x) + 3] != 0
    } else {
        data[y * w + x] != 0
    }
}

/// Whether column `x` carries ink in any fully-present row of the partial
/// band `[top + 1, yb)`.
pub open spec fn spec_col_ink_upto(out: RasterizationOutput, x: int, yb: int) -> bool {
    let w = out.width as int;
    let y1 = out.top + 1;
    exists|y: int| y1 <= y < yb && spec_row_ok(out.data@.len() as int, w, out.is_color, y)
        && #[trigger] spec_px_ink(out.data@, w, out.is_color, x, y)
}

/// Whether column `x` carries ink in any fully-present row of the scanned
/// band `[top + 1, height)` below the glyph top.
pub open spec fn spec_col_ink(out: RasterizationOutput, x: int) -> bool {
    spec_col_ink_upto(out, x, out.height as int)
}

/// Whether the descender scan runs at all: the band below the glyph top
/// must be non-empty and the width representable.
pub open spec fn spec_scan_active(out: RasterizationOutput) -> bool {
    &&& out.top + 1 >= 0
    &&& out.top + 1 < out.height as int
    &&& out.width < 0xFFFF
}

/// A cached rasterization result: placement offsets, pixel dimensions, the
/// backing image, the bitmap-vs-mask flag, and the precomputed descender
/// ink region used for underline avoidance.
#[derive(Clone, Copy, Debug)]
pub struct RasterizedGlyph {
    pub left: i32,
    pub top: i32,
    pub width: u16,
    pub height: u16,
    pub image_id: ImageId,
    pub is_bitmap: bool,
    pub desc: DescenderRegion,
}

impl RasterizedGlyph {
    /// Assembles the cache entry for a fresh rasterization: placement and
    /// content kind are taken from the rasterizer's output unchanged, the
    /// descender ink region is computed from its pixels, and the entry is
    /// backed by `image`.
    pub fn from_output(out: &RasterizationOutput, image: ImageId) -> (e: RasterizedGlyph)
        ensures
            e.left == out.left,
            e.top == out.top,
            e.width == out.width,
            e.height == out.height,
            e.is_bitmap == out.is_color,
            e.image_id == image,
            (e.desc.spec_range() is Some) <==> (spec_scan_active(*out) && exists|x: int|
                0 <= x < out.width as int && #[trigger] spec_col_ink(*out, x)),
            e.desc.spec_range() matches Some((s, en)) ==> {
                &&& 0 <= s < en <= out.width
                &&& spec_col_ink(*out, s as int)
                &&& spec_col_ink(*out, en as int - 1)
                &&& forall|x: int| 0 <= x < out.width as int && #[trigger] spec_col_ink(*out, x)
                    ==> s as int <= x <= en as int - 1
            },
    {
        RasterizedGlyph {
            left: out.left,
            top: out.top,
            width: out.width,
            height: out.height,
            image_id: image,
            is_bitmap: out.is_color,
            desc: DescenderRegion::new(out),
        }
    }
}

/// What the external rasterizer hands back on success: placement metadata
/// and the pixel buffer (RGBA, four bytes per pixel).
pub struct RasterizationOutput {
    pub left: i32,
    pub top: i32,
    pub width: u16,
    pub height: u16,
    /// True for color-bitmap glyphs, false for alpha-mask outlines.
    pub is_color: bool,
    pub data: Vec<u8>,
}

/// The external rasterization collaborator: given a glyph id and the
/// quantized sub-pixel offsets, produces pixels and placement for the font
/// instance the implementor was built around, or nothing when the glyph
/// cannot be rendered. No behavior is assumed of implementations; the
/// cache states what holds whatever is returned.
pub trait GlyphRasterizer {
    fn rasterize(
        &mut self,
        glyph_id: u16,
        subpx_x: SubpixelOffset,
        subpx_y: SubpixelOffset,
    ) -> Option<RasterizationOutput>;
}

/// Two requests whose positions share their sub-pixel phases use the same
/// cache key, so once a glyph is cached with a resident image, the second
/// request hits the cache outright: nothing is rasterized again.
pub proof fn lemma_second_request_hits(
    s: GlyphCacheSession,
    cache: GlyphCache,
    images: ImageCache,
    id: u16,
    x1: int,
    y1: int,
    x2: int,
    y2: int,
)
    requires
        crate::subpixel::spec_quantize(x1) == crate::subpixel::spec_quantize(x2),
        crate::subpixel::spec_quantize(y1) == crate::subpixel::spec_quantize(y2),
        cache.spec_glyphs(s.spec_font_id(), s.spec_coords()).contains_key(s.spec_key(id, x1, y1)),
        images.spec_is_valid(
            cache.spec_glyphs(s.spec_font_id(), s.spec_coords())[s.spec_key(id, x1, y1)].image_id,
        ),
    ensures
        s.spec_key(id, x2, y2) == s.spec_key(id, x1, y1),
        s.spec_hit(cache, images, s.spec_key(id, x2, y2)),
{
}

/// Association list as a map: later pairs override earlier ones./// Association list as a map: later pairs override earlier ones.
pub open spec fn assoc_map<K, V>(s: Seq<(K, V)>) -> Map<K, V>
    decreases s.len(),
{
    if s.len() == 0 {
        Map::empty()
    } else {
        assoc_map(s.drop_last()).insert(s.last().0, s.last().1)
    }
}

/// No key occurs twice.
pub open spec fn keys_unique<K, V>(s: Seq<(K, V)>) -> bool {
    forall|i: int, j: int| 0 <= i < j < s.len() ==> (#[trigger] s[i]).0 != (#[trigger] s[j]).0
}

/// A key is in the map exactly when some pair carries it.
pub proof fn lemma_assoc_map_contains<K, V>(s: Seq<(K, V)>, k: K)
    ensures
        assoc_map(s).contains_key(k) <==> exists|i: int| 0 <= i < s.len() && (#[trigger] s[i]).0 == k,
    decreases s.len(),
{
    if s.len() > 0 {
        lemma_assoc_map_contains(s.drop_last(), k);
        if s.last().0 == k {
            assert(s[s.len() - 1].0 == k);
        } else if assoc_map(s).contains_key(k) {
            let i = choose|i: int| 0 <= i < s.drop_last().len() && (#[trigger] s.drop_last()[i]).0 == k;
            assert(s[i].0 == k);
        } else {
            assert forall|i: int| 0 <= i < s.len() implies (#[trigger] s[i]).0 != k by {
                if i < s.len() - 1 {
                    assert(s.drop_last()[i].0 == s[i].0);
                }
            }
        }
    }
}

/// Replacing the value at one pair of a duplicate-free association list is
/// insertion into its map.
pub proof fn lemma_assoc_map_update<K, V>(s: Seq<(K, V)>, i: int, v: V)
    requires
        keys_unique(s),
        0 <= i < s.len(),
    ensures
        assoc_map(s.update(i, (s[i].0, v))) == assoc_map(s).insert(s[i].0, v),
    decreases s.len(),
{
    let k = s[i].0;
    let s2 = s.update(i, (k, v));
    if i == s.len() - 1 {
        assert(s2.drop_last() =~= s.drop_last());
        assert(s2.last() == (k, v));
    } else {
        assert(s2.last() == s.last());
        assert(s2.drop_last() =~= s.drop_last().update(i, (k, v)));
        assert(keys_unique(s.drop_last())) by {
            assert forall|a: int, b: int| 0 <= a < b < s.drop_last().len() implies (#[trigger] s.drop_last()[a]).0
                != (#[trigger] s.drop_last()[b]).0 by {
                assert(s.drop_last()[a] == s[a]);
                assert(s.drop_last()[b] == s[b]);
            }
        }
        assert(s.drop_last()[i] == s[i]);
        lemma_assoc_map_update(s.drop_last(), i, v);
        assert(s.last().0 != k);
        assert(assoc_map(s.drop_last()).insert(k, v).insert(s.last().0, s.last().1) =~= assoc_map(
            s.drop_last(),
        ).insert(s.last().0, s.last().1).insert(k, v));
    }
}

/// With unique keys, the map's value at a pair's key is that pair's value.
pub proof fn lemma_assoc_map_value<K, V>(s: Seq<(K, V)>, i: int)
    requires
        keys_unique(s),
        0 <= i < s.len(),
    ensures
        assoc_map(s).contains_key(s[i].0),
        assoc_map(s)[s[i].0] == s[i].1,
    decreases s.len(),
{
    lemma_assoc_map_contains(s, s[i].0);
    if i == s.len() - 1 {
    } else {
        assert(s.last().0 != s[i].0);
        assert(s.drop_last()[i] == s[i]);
        assert(keys_unique(s.drop_last())) by {
            assert forall|a: int, b: int| 0 <= a < b < s.drop_last().len() implies (#[trigger] s.drop_last()[a]).0
                != (#[trigger] s.drop_last()[b]).0 by {
                assert(s.drop_last()[a] == s[a]);
                assert(s.drop_last()[b] == s[b]);
            }
        }
        lemma_assoc_map_value(s.drop_last(), i);
    }
}

/// Per-font-instance cache line: the identity key, the epoch of last use,
/// and the rasterized glyphs keyed by [`RasterizedGlyphKey`].
struct FontSlot {
    font_id: u64,
    coords: Coords,
    epoch: Epoch,
    glyphs: Vec<(RasterizedGlyphKey, RasterizedGlyph)>,
}

/// A slot unused for longer than the retention window.
spec fn spec_slot_stale(slot: FontSlot, now: Epoch) -> bool {
    slot.epoch.0 + RETENTION_FRAMES < now.0
}

/// The freshness predicate pruning filters slots by.
spec fn spec_fresh_pred(now: Epoch) -> spec_fn(FontSlot) -> bool {
    |slot: FontSlot| !spec_slot_stale(slot, now)
}

/// Whether one of the slot's cached glyphs is backed by the image slot
/// `j` refers to.
spec fn spec_slot_refs(slot: FontSlot, j: ImageId) -> bool {
    exists|g: int| 0 <= g < slot.glyphs@.len() && (#[trigger] slot.glyphs@[g]).1.image_id.spec_index()
        == j.spec_index()
}

/// Converts the sequence-level statement of pruning (the slot list is
/// filtered by freshness) into the key-based statement of its contract.
proof fn lemma_prune_post(pre: GlyphCache, post: GlyphCache, epoch: Epoch)
    requires
        pre.wf(),
        post.wf(),
        post.fonts@ == pre.fonts@.filter(spec_fresh_pred(epoch)),
    ensures
        forall|fid: u64, c: Seq<i16>| #[trigger] post.spec_has_font(fid, c) ==> {
            &&& pre.spec_has_font(fid, c)
            &&& !pre.spec_font_stale(fid, c, epoch)
            &&& post.spec_font_epoch(fid, c) == pre.spec_font_epoch(fid, c)
            &&& post.spec_glyphs(fid, c) == pre.spec_glyphs(fid, c)
        },
        forall|fid: u64, c: Seq<i16>|
            #[trigger] pre.spec_has_font(fid, c) && !pre.spec_font_stale(fid, c, epoch)
                ==> post.spec_has_font(fid, c),
{
    let all = pre.fonts@;
    let pred = spec_fresh_pred(epoch);
    lemma_filter_members(all, pred);
    assert forall|fid: u64, c: Seq<i16>| #[trigger] post.spec_has_font(fid, c) implies {
        &&& pre.spec_has_font(fid, c)
        &&& !pre.spec_font_stale(fid, c, epoch)
        &&& post.spec_font_epoch(fid, c) == pre.spec_font_epoch(fid, c)
        &&& post.spec_glyphs(fid, c) == pre.spec_glyphs(fid, c)
    } by {
        let a = post.spec_font_index(fid, c);
        assert(0 <= a < post.fonts@.len() && post.fonts@[a].font_id == fid && post.fonts@[a].coords@
            == c);
        assert(pred(all.filter(pred)[a]));
        let b = choose|b: int| #![trigger all[b]] 0 <= b < all.len() && all.filter(pred)[a] == all[b];
        assert(pre.fonts@[b].font_id == fid && pre.fonts@[b].coords@ == c);
        assert(pre.spec_has_font(fid, c));
        let b2 = pre.spec_font_index(fid, c);
        assert(0 <= b2 < pre.fonts@.len() && pre.fonts@[b2].font_id == fid && pre.fonts@[b2].coords@
            == c);
        assert(b2 == b);
        assert(!spec_slot_stale(post.fonts@[a], epoch));
    }
    assert forall|fid: u64, c: Seq<i16>|
        #[trigger] pre.spec_has_font(fid, c) && !pre.spec_font_stale(fid, c, epoch) implies post.spec_has_font(
        fid,
        c,
    ) by {
        let b = pre.spec_font_index(fid, c);
        assert(0 <= b < all.len() && all[b].font_id == fid && all[b].coords@ == c);
        assert(pred(all[b]));
        broadcast use vstd::seq_lib::group_filter_ensures;
        assert(all.filter(pred).contains(all[b]));
        let a = choose|a: int| 0 <= a < all.filter(pred).len() && all.filter(pred)[a] == all[b];
        assert(post.fonts@[a].font_id == fid && post.fonts@[a].coords@ == c);
    }
}

/// Every element of a filtered sequence is an element of the original.
proof fn lemma_filter_members<T>(s: Seq<T>, pred: spec_fn(T) -> bool)
    ensures
        forall|a: int| 0 <= a < s.filter(pred).len() ==> exists|b: int|
            #![trigger s[b]]
            0 <= b < s.len() && (#[trigger] s.filter(pred)[a]) == s[b],
    decreases s.len(),
{
    reveal(Seq::filter);
    if s.len() > 0 {
        lemma_filter_members(s.drop_last(), pred);
        let f = s.filter(pred);
        let fd = s.drop_last().filter(pred);
        assert forall|a: int| 0 <= a < f.len() implies exists|b: int|
            #![trigger s[b]]
            0 <= b < s.len() && (#[trigger] f[a]) == s[b] by {
            if pred(s.last()) && a == f.len() - 1 {
                assert(f[a] == s[s.len() - 1]);
            } else {
                assert(f[a] == fd[a]);
                let b0 = choose|b0: int|
                    #![trigger s.drop_last()[b0]]
                    0 <= b0 < s.drop_last().len() && fd[a] == s.drop_last()[b0];
                assert(f[a] == s[b0]);
            }
        }
    }
}

/// Filtering a slot list with pairwise distinct font keys leaves the keys
/// pairwise distinct.
proof fn lemma_filter_key_unique(s: Seq<FontSlot>, pred: spec_fn(FontSlot) -> bool)
    requires
        forall|i: int, j: int| 0 <= i < j < s.len() ==> !((#[trigger] s[i]).font_id
            == (#[trigger] s[j]).font_id && s[i].coords@ == s[j].coords@),
    ensures
        forall|i: int, j: int| 0 <= i < j < s.filter(pred).len() ==> !((#[trigger] s.filter(
            pred,
        )[i]).font_id == (#[trigger] s.filter(pred)[j]).font_id && s.filter(pred)[i].coords@
            == s.filter(pred)[j].coords@),
    decreases s.len(),
{
    reveal(Seq::filter);
    if s.len() > 0 {
        let sd = s.drop_last();
        assert forall|i: int, j: int| 0 <= i < j < sd.len() implies !((#[trigger] sd[i]).font_id
            == (#[trigger] sd[j]).font_id && sd[i].coords@ == sd[j].coords@) by {
            assert(sd[i] == s[i] && sd[j] == s[j]);
        }
        lemma_filter_key_unique(sd, pred);
        lemma_filter_members(sd, pred);
        let f = s.filter(pred);
        let fd = sd.filter(pred);
        assert forall|i: int, j: int| 0 <= i < j < f.len() implies !((#[trigger] f[i]).font_id
            == (#[trigger] f[j]).font_id && f[i].coords@ == f[j].coords@) by {
            if pred(s.last()) && j == f.len() - 1 {
                assert(f[i] == fd[i]);
                let b0 = choose|b0: int| #![trigger sd[b0]] 0 <= b0 < sd.len() && fd[i] == sd[b0];
                assert(f[i] == s[b0]);
                assert(f[j] == s[s.len() - 1]);
                assert(b0 < s.len() - 1);
            } else {
                assert(f[i] == fd[i] && f[j] == fd[j]);
            }
        }
    }
}

/// The glyph cache: one slot per (font identity, variation coordinates)
/// pair seen recently.
pub struct GlyphCache {
    fonts: Vec<FontSlot>,
}

impl GlyphCache {
    /// Slots have well-formed coordinate keys, duplicate-free glyph keys,
    /// and pairwise distinct font keys.
    pub closed spec fn wf(self) -> bool {
        &&& forall|i: int| 0 <= i < self.fonts@.len() ==> (#[trigger] self.fonts@[i]).coords.wf()
            && keys_unique(self.fonts@[i].glyphs@)
        &&& forall|i: int, j: int| 0 <= i < j < self.fonts@.len() ==> !((#[trigger] self.fonts@[i]).font_id
            == (#[trigger] self.fonts@[j]).font_id && self.fonts@[i].coords@ == self.fonts@[j].coords@)
    }

    /// Number of font slots.
    pub closed spec fn spec_font_count(self) -> nat {
        self.fonts@.len()
    }

    /// Whether a slot exists for this font identity and coordinate
    /// sequence.
    pub closed spec fn spec_has_font(self, fid: u64, coords: Seq<i16>) -> bool {
        exists|i: int| 0 <= i < self.fonts@.len() && (#[trigger] self.fonts@[i]).font_id == fid
            && self.fonts@[i].coords@ == coords
    }

    /// Index of that slot.
    pub closed spec fn spec_font_index(self, fid: u64, coords: Seq<i16>) -> int {
        choose|i: int| 0 <= i < self.fonts@.len() && (#[trigger] self.fonts@[i]).font_id == fid
            && self.fonts@[i].coords@ == coords
    }

    /// Last-used epoch of that font slot.
    pub closed spec fn spec_font_epoch(self, fid: u64, coords: Seq<i16>) -> u64 {
        self.fonts@[self.spec_font_index(fid, coords)].epoch.0
    }

    /// The cached glyphs of that font slot, as a map.
    pub closed spec fn spec_glyphs(self, fid: u64, coords: Seq<i16>) -> Map<
        RasterizedGlyphKey,
        RasterizedGlyph,
    > {
        assoc_map(self.fonts@[self.spec_font_index(fid, coords)].glyphs@)
    }

    /// A font slot unused for longer than the retention window.
    pub open spec fn spec_font_stale(self, fid: u64, coords: Seq<i16>, now: Epoch) -> bool {
        self.spec_font_epoch(fid, coords) + RETENTION_FRAMES < now.0
    }

    /// Whether some stale font slot holds a glyph backed by the image
    /// slot `j` refers to: pruning at `now` may release exactly these.
    pub closed spec fn spec_stale_ref(self, now: Epoch, j: ImageId) -> bool {
        exists|b: int| 0 <= b < self.fonts@.len() && spec_slot_stale(#[trigger] self.fonts@[b], now)
            && spec_slot_refs(self.fonts@[b], j)
    }

    /// Drops every font entry whose last use is older than the retention
    /// window relative to `epoch`, releasing all of its cached glyphs'
    /// images from the image cache; no other image is touched. Fresh
    /// entries are kept untouched.
    #[verifier::spinoff_prover]
    pub fn prune(&mut self, epoch: Epoch, images: &mut ImageCache)
        requires
            old(self).wf(),
            old(images).wf(),
        ensures
            final(self).wf(),
            final(images).wf(),
            forall|fid: u64, c: Seq<i16>| final(self).spec_has_font(fid, c) ==> {
                &&& old(self).spec_has_font(fid, c)
                &&& !old(self).spec_font_stale(fid, c, epoch)
                &&& final(self).spec_font_epoch(fid, c) == old(self).spec_font_epoch(fid, c)
                &&& final(self).spec_glyphs(fid, c) == old(self).spec_glyphs(fid, c)
            },
            forall|fid: u64, c: Seq<i16>|
                old(self).spec_has_font(fid, c) && !old(self).spec_font_stale(fid, c, epoch)
                    ==> final(self).spec_has_font(fid, c),
            forall|fid: u64, c: Seq<i16>, k: RasterizedGlyphKey|
                old(self).spec_has_font(fid, c) && old(self).spec_font_stale(fid, c, epoch)
                    && #[trigger] old(self).spec_glyphs(fid, c).contains_key(k)
                    ==> !final(images).spec_is_valid(old(self).spec_glyphs(fid, c)[k].image_id),
            forall|j: ImageId| final(images).spec_is_valid(j) ==> old(images).spec_is_valid(j),
            forall|j: ImageId|
                old(images).spec_is_valid(j) && !old(self).spec_stale_ref(epoch, j) ==> final(images).spec_is_valid(j),
            forall|j: ImageId|
                old(images).spec_is_valid(j) && final(images).spec_is_valid(j) ==> {
                    &&& final(images).spec_location(j) == old(images).spec_location(j)
                    &&& final(images).spec_epoch_of(j) == old(images).spec_epoch_of(j)
                    &&& final(images).spec_evictable(j) == old(images).spec_evictable(j)
                },
            final(images).spec_max() == old(images).spec_max(),
            final(images).spec_count() == old(images).spec_count(),
            final(images).spec_events() == old(images).spec_events(),
    {
        self.release_stale_images(epoch, images);
        self.drop_stale_slots(epoch);
        proof {
            assert forall|fid: u64, c: Seq<i16>, k: RasterizedGlyphKey|
                old(self).spec_has_font(fid, c) && old(self).spec_font_stale(fid, c, epoch)
                    && #[trigger] old(self).spec_glyphs(fid, c).contains_key(k) implies !images.spec_is_valid(
                old(self).spec_glyphs(fid, c)[k].image_id,
            ) by {
                let b = old(self).spec_font_index(fid, c);
                let slots = old(self).fonts@;
                assert(0 <= b < slots.len() && slots[b].font_id == fid && slots[b].coords@ == c);
                assert(spec_slot_stale(slots[b], epoch));
                lemma_assoc_map_contains(slots[b].glyphs@, k);
                let g = choose|g: int| 0 <= g < slots[b].glyphs@.len() && (#[trigger] slots[b].glyphs@[g]).0
                    == k;
                assert(keys_unique(slots[b].glyphs@));
                lemma_assoc_map_value(slots[b].glyphs@, g);
                assert(!images.spec_is_valid(slots[b].glyphs@[g].1.image_id));
            }
        }
    }

    /// Releases the backing image of every glyph cached under a stale font
    /// slot; the slots themselves are untouched.
    #[verifier::spinoff_prover]
    #[verifier::rlimit(60)]
    fn release_stale_images(&self, epoch: Epoch, images: &mut ImageCache)
        requires
            self.wf(),
            old(images).wf(),
        ensures
            final(images).wf(),
            forall|a: int, g: int|
                0 <= a < self.fonts@.len() && spec_slot_stale(self.fonts@[a], epoch) && 0 <= g
                    < self.fonts@[a].glyphs@.len() ==> !final(images).spec_is_valid(
                    (#[trigger] self.fonts@[a].glyphs@[g]).1.image_id,
                ),
            forall|j: ImageId| final(images).spec_is_valid(j) ==> old(images).spec_is_valid(j),
            forall|j: ImageId|
                old(images).spec_is_valid(j) && !self.spec_stale_ref(epoch, j) ==> final(images).spec_is_valid(j),
            forall|j: ImageId|
                old(images).spec_is_valid(j) && final(images).spec_is_valid(j) ==> {
                    &&& final(images).spec_location(j) == old(images).spec_location(j)
                    &&& final(images).spec_epoch_of(j) == old(images).spec_epoch_of(j)
                    &&& final(images).spec_evictable(j) == old(images).spec_evictable(j)
                },
            final(images).spec_max() == old(images).spec_max(),
            final(images).spec_count() == old(images).spec_count(),
            final(images).spec_events() == old(images).spec_events(),
    {
        let ghost all = self.fonts@;
        let ghost images0 = *images;
        let n = self.fonts.len();
        let mut i: usize = 0;
        while i < n
            invariant
                self.wf(),
                images.wf(),
                all == self.fonts@,
                n == all.len(),
                0 <= i <= n,
                forall|a: int, g: int|
                    0 <= a < i && spec_slot_stale(all[a], epoch) && 0 <= g < all[a].glyphs@.len()
                        ==> !images.spec_is_valid((#[trigger] all[a].glyphs@[g]).1.image_id),
                forall|j: ImageId|
                    images0.spec_is_valid(j) && !self.spec_stale_ref(epoch, j)
                        ==> images.spec_is_valid(j),
                forall|j: ImageId| images.spec_is_valid(j) ==> images0.spec_is_valid(j),
                forall|j: ImageId|
                    images0.spec_is_valid(j) && images.spec_is_valid(j) ==> {
                        &&& images.spec_location(j) == images0.spec_location(j)
                        &&& images.spec_epoch_of(j) == images0.spec_epoch_of(j)
                        &&& images.spec_evictable(j) == images0.spec_evictable(j)
                    },
                images.spec_max() == images0.spec_max(),
                images.spec_count() == images0.spec_count(),
                images.spec_events() == images0.spec_events(),
            decreases n - i,
        {
            let stale = epoch.0 > RETENTION_FRAMES && self.fonts[i].epoch.0 < epoch.0
                - RETENTION_FRAMES;
            proof {
                assert(stale == spec_slot_stale(all[i as int], epoch));
            }
            if stale {
                let m = self.fonts[i].glyphs.len();
                let mut g: usize = 0;
                while g < m
                    invariant
                        self.wf(),
                        images.wf(),
                        all == self.fonts@,
                        n == all.len(),
                        0 <= i < n,
                        m == all[i as int].glyphs@.len(),
                        spec_slot_stale(all[i as int], epoch),
                        0 <= g <= m,
                        forall|a: int, gg: int|
                            0 <= a < i && spec_slot_stale(all[a], epoch) && 0 <= gg < all[a].glyphs@.len()
                                ==> !images.spec_is_valid((#[trigger] all[a].glyphs@[gg]).1.image_id),
                        forall|gg: int| 0 <= gg < g ==> !images.spec_is_valid(
                            (#[trigger] all[i as int].glyphs@[gg]).1.image_id,
                        ),
                        forall|j: ImageId|
                            images0.spec_is_valid(j) && !self.spec_stale_ref(epoch, j)
                                ==> images.spec_is_valid(j),
                        forall|j: ImageId| images.spec_is_valid(j) ==> images0.spec_is_valid(j),
                        forall|j: ImageId|
                            images0.spec_is_valid(j) && images.spec_is_valid(j) ==> {
                                &&& images.spec_location(j) == images0.spec_location(j)
                                &&& images.spec_epoch_of(j) == images0.spec_epoch_of(j)
                                &&& images.spec_evictable(j) == images0.spec_evictable(j)
                            },
                        images.spec_max() == images0.spec_max(),
                        images.spec_count() == images0.spec_count(),
                        images.spec_events() == images0.spec_events(),
                    decreases m - g,
                {
                    let target = self.fonts[i].glyphs[g].1.image_id;
                    let ghost im_pre = *images;
                    images.deallocate(target);
                    proof {
                        assert forall|gg: int| 0 <= gg < g + 1 implies !images.spec_is_valid(
                            (#[trigger] all[i as int].glyphs@[gg]).1.image_id,
                        ) by {
                            let jid = all[i as int].glyphs@[gg].1.image_id;
                            if jid.spec_index() == target.spec_index() {
                                if im_pre.spec_is_valid(target) {
                                } else {
                                    assert(*images == im_pre);
                                }
                            } else {
                                assert(images.spec_is_valid(jid) == im_pre.spec_is_valid(jid));
                            }
                        }
                        assert forall|a: int, gg: int|
                            0 <= a < i && spec_slot_stale(all[a], epoch) && 0 <= gg
                                < all[a].glyphs@.len() implies !images.spec_is_valid(
                            (#[trigger] all[a].glyphs@[gg]).1.image_id,
                        ) by {
                            let jid = all[a].glyphs@[gg].1.image_id;
                            assert(!im_pre.spec_is_valid(jid));
                            if jid.spec_index() == target.spec_index() {
                                if im_pre.spec_is_valid(target) {
                                } else {
                                    assert(*images == im_pre);
                                }
                            } else {
                                assert(images.spec_is_valid(jid) == im_pre.spec_is_valid(jid));
                            }
                        }
                        assert forall|j: ImageId| images.spec_is_valid(j) implies images0.spec_is_valid(
                            j,
                        ) by {
                            if j.spec_index() != target.spec_index() {
                                assert(images.spec_is_valid(j) == im_pre.spec_is_valid(j));
                            }
                        }
                        assert forall|j: ImageId|
                            images0.spec_is_valid(j) && !self.spec_stale_ref(
                                epoch,
                                j,
                            ) implies images.spec_is_valid(j) by {
                            assert(im_pre.spec_is_valid(j));
                            if j.spec_index() == target.spec_index() {
                                assert((#[trigger] all[i as int].glyphs@[g as int]).1.image_id.spec_index()
                                    == j.spec_index());
                                assert(spec_slot_refs(all[i as int], j));
                                assert(spec_slot_stale(all[i as int], epoch));
                                assert(self.spec_stale_ref(epoch, j));
                            } else {
                                assert(images.spec_is_valid(j) == im_pre.spec_is_valid(j));
                            }
                        }
                        assert forall|j: ImageId|
                            images0.spec_is_valid(j) && images.spec_is_valid(j) implies {
                                &&& images.spec_location(j) == images0.spec_location(j)
                                &&& images.spec_epoch_of(j) == images0.spec_epoch_of(j)
                                &&& images.spec_evictable(j) == images0.spec_evictable(j)
                            } by {
                            assert(j.spec_index() != target.spec_index() || !im_pre.spec_is_valid(
                                target,
                            ));
                            assert(im_pre.spec_is_valid(j));
                            assert(images.spec_location(j) == im_pre.spec_location(j));
                            assert(im_pre.spec_location(j) == images0.spec_location(j));
                        }
                    }
                    g += 1;
                }
            }
            i += 1;
        }
    }

    /// Removes every stale font slot, keeping the fresh ones in order.
    #[verifier::spinoff_prover]
    #[verifier::rlimit(60)]
    fn drop_stale_slots(&mut self, epoch: Epoch)
        requires
            old(self).wf(),
        ensures
            final(self).wf(),
            forall|fid: u64, c: Seq<i16>| final(self).spec_has_font(fid, c) ==> {
                &&& old(self).spec_has_font(fid, c)
                &&& !old(self).spec_font_stale(fid, c, epoch)
                &&& final(self).spec_font_epoch(fid, c) == old(self).spec_font_epoch(fid, c)
                &&& final(self).spec_glyphs(fid, c) == old(self).spec_glyphs(fid, c)
            },
            forall|fid: u64, c: Seq<i16>|
                old(self).spec_has_font(fid, c) && !old(self).spec_font_stale(fid, c, epoch)
                    ==> final(self).spec_has_font(fid, c),
    {
        let ghost all = old(self).fonts@;
        let ghost pred = spec_fresh_pred(epoch);
        let ghost n = all.len() as int;
        let mut kept: Vec<FontSlot> = Vec::new();
        proof {
            assert(all.take(0) =~= Seq::<FontSlot>::empty());
            assert(all.take(0).filter(pred) =~= kept@) by {
                reveal(Seq::filter);
            }
        }
        while self.fonts.len() > 0
            invariant
                pred == spec_fresh_pred(epoch),
                n == all.len(),
                self.fonts@.len() <= n,
                self.fonts@ == all.skip(n - self.fonts@.len()),
                kept@ == all.take(n - self.fonts@.len()).filter(pred),
            decreases self.fonts@.len(),
        {
            let ghost p = n - self.fonts@.len();
            let slot = self.fonts.remove(0);
            proof {
                assert(slot == all.skip(p)[0]);
                assert(slot == all[p]);
                assert(self.fonts@ =~= all.skip(p + 1));
                assert(all.take(p + 1).drop_last() =~= all.take(p));
                assert(all.take(p + 1).last() == all[p]);
                assert(all.take(p + 1).filter(pred) == all.take(p).filter(pred) + (if pred(slot) {
                    seq![slot]
                } else {
                    Seq::<FontSlot>::empty()
                })) by {
                    reveal(Seq::filter);
                }
            }
            let stale = epoch.0 > RETENTION_FRAMES && slot.epoch.0 < epoch.0 - RETENTION_FRAMES;
            proof {
                assert(stale == spec_slot_stale(slot, epoch));
                assert(pred(slot) == !spec_slot_stale(slot, epoch));
            }
            if !stale {
                kept.push(slot);
                proof {
                    assert(kept@ =~= all.take(p + 1).filter(pred));
                }
            } else {
                proof {
                    assert(kept@ =~= all.take(p + 1).filter(pred));
                }
            }
        }
        core::mem::swap(&mut self.fonts, &mut kept);
        proof {
            assert(all.take(n) =~= all);
            assert(self.fonts@ == all.filter(pred));
            lemma_filter_members(all, pred);
            lemma_filter_key_unique(all, pred);
            assert(self.wf()) by {
                assert forall|a: int| 0 <= a < self.fonts@.len() implies (
                #[trigger] self.fonts@[a]).coords.wf() && keys_unique(self.fonts@[a].glyphs@) by {
                    let b = choose|b: int|
                        #![trigger all[b]]
                        0 <= b < all.len() && all.filter(pred)[a] == all[b];
                    assert(self.fonts@[a] == all[b]);
                }
            }
            lemma_prune_post(*old(self), *self, epoch);
        }
    }

    /// A lighter sweep than pruning: without dropping entries for
    /// staleness, removes every glyph cache line whose backing image has
    /// been invalidated by the image cache, and drops any font entry left
    /// with no cached glyphs. Surviving lines keep their entries, so the
    /// two caches never disagree about validity.
    #[verifier::spinoff_prover]
    #[verifier::rlimit(100)]
    pub fn clear_evicted(&mut self, images: &ImageCache)
        requires
            old(self).wf(),
        ensures
            final(self).wf(),
            forall|fid: u64, c: Seq<i16>| #[trigger] final(self).spec_has_font(fid, c) ==> old(
                self,
            ).spec_has_font(fid, c) && final(self).spec_font_epoch(fid, c) == old(
                self,
            ).spec_font_epoch(fid, c),
            forall|fid: u64, c: Seq<i16>, k: RasterizedGlyphKey|
                final(self).spec_has_font(fid, c) ==> (#[trigger] final(self).spec_glyphs(
                    fid,
                    c,
                ).contains_key(k) <==> old(self).spec_glyphs(fid, c).contains_key(k)
                    && images.spec_is_valid(old(self).spec_glyphs(fid, c)[k].image_id)),
            forall|fid: u64, c: Seq<i16>, k: RasterizedGlyphKey|
                final(self).spec_has_font(fid, c) && #[trigger] final(self).spec_glyphs(
                    fid,
                    c,
                ).contains_key(k) ==> final(self).spec_glyphs(fid, c)[k] == old(self).spec_glyphs(
                    fid,
                    c,
                )[k],
            forall|fid: u64, c: Seq<i16>, k: RasterizedGlyphKey|
                old(self).spec_has_font(fid, c) && #[trigger] old(self).spec_glyphs(
                    fid,
                    c,
                ).contains_key(k) && images.spec_is_valid(old(self).spec_glyphs(fid, c)[k].image_id)
                    ==> final(self).spec_has_font(fid, c),
            forall|fid: u64, c: Seq<i16>| #[trigger] final(self).spec_has_font(fid, c)
                ==> exists|k: RasterizedGlyphKey|
                #![trigger final(self).spec_glyphs(fid, c).contains_key(k)]
                final(self).spec_glyphs(fid, c).contains_key(k),
    {
        let ghost pre = *self;
        let ghost lpred = spec_live_pred(*images);
        // Sweep each slot's cache lines.
        let nf = self.fonts.len();
        let mut i: usize = 0;
        while i < nf
            invariant
                pre.wf(),
                lpred == spec_live_pred(*images),
                0 <= i <= nf,
                nf == self.fonts@.len(),
                nf == pre.fonts@.len(),
                forall|a: int| i <= a < nf ==> #[trigger] self.fonts@[a] == pre.fonts@[a],
                forall|a: int| 0 <= a < i ==> {
                    let s0 = #[trigger] self.fonts@[a];
                    let p0 = pre.fonts@[a];
                    &&& s0.font_id == p0.font_id
                    &&& s0.coords == p0.coords
                    &&& s0.epoch == p0.epoch
                    &&& s0.glyphs@ == p0.glyphs@.filter(lpred)
                },
                self.wf(),
            decreases nf - i,
        {
            let ghost gl = self.fonts@[i as int].glyphs@;
            let m = self.fonts[i].glyphs.len();
            let mut keptg: Vec<(RasterizedGlyphKey, RasterizedGlyph)> = Vec::new();
            proof {
                assert(gl.take(0) =~= Seq::<(RasterizedGlyphKey, RasterizedGlyph)>::empty());
                assert(keptg@ =~= gl.take(0).filter(lpred)) by {
                    reveal(Seq::filter);
                }
            }
            let mut g: usize = 0;
            while g < m
                invariant
                    lpred == spec_live_pred(*images),
                    0 <= g <= m,
                    i < nf,
                    nf == self.fonts@.len(),
                    gl == self.fonts@[i as int].glyphs@,
                    m == gl.len(),
                    keptg@ == gl.take(g as int).filter(lpred),
                decreases m - g,
            {
                let pair = self.fonts[i].glyphs[g];
                proof {
                    assert(gl.take(g as int + 1).drop_last() =~= gl.take(g as int));
                    assert(gl.take(g as int + 1).last() == gl[g as int]);
                    assert(gl.take(g as int + 1).filter(lpred) == gl.take(g as int).filter(lpred)
                        + (if lpred(pair) {
                        seq![pair]
                    } else {
                        Seq::empty()
                    })) by {
                        reveal(Seq::filter);
                    }
                    assert(lpred(pair) == images.spec_is_valid(pair.1.image_id));
                }
                if images.is_valid(pair.1.image_id) {
                    keptg.push(pair);
                    proof {
                        assert(keptg@ =~= gl.take(g as int + 1).filter(lpred));
                    }
                } else {
                    proof {
                        assert(keptg@ =~= gl.take(g as int + 1).filter(lpred));
                    }
                }
                g += 1;
            }
            proof {
                assert(gl.take(m as int) =~= gl);
            }
            self.fonts[i].glyphs = keptg;
            proof {
                assert(keys_unique(pre.fonts@[i as int].glyphs@));
                lemma_assoc_filter(pre.fonts@[i as int].glyphs@, lpred);
                assert(keys_unique(self.fonts@[i as int].glyphs@));
                assert(self.wf()) by {
                    assert forall|a: int| 0 <= a < self.fonts@.len() implies (
                    #[trigger] self.fonts@[a]).coords.wf() && keys_unique(
                        self.fonts@[a].glyphs@,
                    ) by {
                        if a != i {
                        }
                    }
                }
            }
            i += 1;
        }
        let ghost mid = *self;
        proof {
            lemma_mid_facts(pre, mid, *images);
        }
        // Drop the slots left with no cached glyphs.
        let mut kept: Vec<FontSlot> = Vec::new();
        let ghost n2 = mid.fonts@.len() as int;
        proof {
            assert(mid.fonts@.take(0) =~= Seq::<FontSlot>::empty());
            assert(kept@ =~= mid.fonts@.take(0).filter(spec_nonempty_pred())) by {
                reveal(Seq::filter);
            }
            assert(self.fonts@ =~= mid.fonts@.skip(0));
        }
        while self.fonts.len() > 0
            invariant
                n2 == mid.fonts@.len(),
                self.fonts@.len() <= n2,
                self.fonts@ == mid.fonts@.skip(n2 - self.fonts@.len()),
                kept@ == mid.fonts@.take(n2 - self.fonts@.len()).filter(spec_nonempty_pred()),
            decreases self.fonts@.len(),
        {
            let ghost p = n2 - self.fonts@.len();
            let slot_opt = self.fonts.remove(0);
            let slot = slot_opt;
            proof {
                assert(slot == mid.fonts@.skip(p)[0]);
                assert(slot == mid.fonts@[p]);
                assert(self.fonts@ =~= mid.fonts@.skip(p + 1));
                assert(mid.fonts@.take(p + 1).drop_last() =~= mid.fonts@.take(p));
                assert(mid.fonts@.take(p + 1).last() == mid.fonts@[p]);
                assert(mid.fonts@.take(p + 1).filter(spec_nonempty_pred()) == mid.fonts@.take(
                    p,
                ).filter(spec_nonempty_pred()) + (if spec_nonempty_pred()(slot) {
                    seq![slot]
                } else {
                    Seq::<FontSlot>::empty()
                })) by {
                    reveal(Seq::filter);
                }
            }
            let keep = slot.glyphs.len() > 0;
            proof {
                assert(keep == spec_nonempty_pred()(slot));
            }
            if keep {
                kept.push(slot);
                proof {
                    assert(kept@ =~= mid.fonts@.take(p + 1).filter(spec_nonempty_pred()));
                }
            } else {
                proof {
                    assert(kept@ =~= mid.fonts@.take(p + 1).filter(spec_nonempty_pred()));
                }
            }
        }
        core::mem::swap(&mut self.fonts, &mut kept);
        proof {
            assert(mid.fonts@.take(n2) =~= mid.fonts@);
            assert(self.fonts@ == mid.fonts@.filter(spec_nonempty_pred()));
            lemma_filter_members(mid.fonts@, spec_nonempty_pred());
            assert(self.wf()) by {
                assert forall|a: int| 0 <= a < self.fonts@.len() implies (
                #[trigger] self.fonts@[a]).coords.wf() && keys_unique(self.fonts@[a].glyphs@) by {
                    let b = choose|b: int|
                        #![trigger mid.fonts@[b]]
                        0 <= b < mid.fonts@.len() && mid.fonts@.filter(spec_nonempty_pred())[a]
                            == mid.fonts@[b];
                    assert(self.fonts@[a] == mid.fonts@[b]);
                }
                lemma_filter_key_unique(mid.fonts@, spec_nonempty_pred());
            }
            lemma_clear_post(mid, *self);
            lemma_clear_compose(pre, mid, *self, *images);
        }
    }

    /// Creates an empty glyph cache.
    pub fn new() -> (c: GlyphCache)
        ensures
            c.wf(),
            c.spec_font_count() == 0,
            forall|fid: u64, coords: Seq<i16>| !c.spec_has_font(fid, coords),
    {
        GlyphCache { fonts: Vec::new() }
    }

    /// Index of the slot for this font key, if present.
    fn find_font(&self, fid: u64, coords: &[i16]) -> (r: Option<usize>)
        requires
            self.wf(),
        ensures
            r matches Some(i) ==> {
                &&& i < self.fonts@.len()
                &&& self.fonts@[i as int].font_id == fid
                &&& self.fonts@[i as int].coords@ == coords@
                &&& self.spec_has_font(fid, coords@)
                &&& self.spec_font_index(fid, coords@) == i
            },
            r is None ==> !self.spec_has_font(fid, coords@),
    {
        let n = self.fonts.len();
        let mut i: usize = 0;
        while i < n
            invariant
                self.wf(),
                n == self.fonts@.len(),
                0 <= i <= n,
                forall|k: int| 0 <= k < i ==> !((#[trigger] self.fonts@[k]).font_id == fid
                    && self.fonts@[k].coords@ == coords@),
            decreases n - i,
        {
            if self.fonts[i].font_id == fid && self.fonts[i].coords.matches(coords) {
                proof {
                    let w = self.spec_font_index(fid, coords@);
                    assert(self.fonts@[w].font_id == fid && self.fonts@[w].coords@ == coords@);
                }
                return Some(i);
            }
            i += 1;
        }
        None
    }

    /// Opens a session against one font instance at the given epoch: the
    /// font slot is created if absent, its last-used epoch is refreshed,
    /// and the size is quantized to 1/32 px units for the glyph key. The
    /// returned session handle drives glyph lookups.
    pub fn session(&mut self, epoch: Epoch, font_id: u64, coords: &[i16], size: i32) -> (s:
        GlyphCacheSession)
        requires
            old(self).wf(),
        ensures
            final(self).wf(),
            s.spec_font_id() == font_id,
            s.spec_coords() == coords@,
            s.spec_epoch() == epoch,
            s.spec_quant_size() == spec_quantized_size(size as int),
            final(self).spec_has_font(font_id, coords@),
            s.spec_font_index() == final(self).spec_font_index(font_id, coords@),
            s.spec_font_index() < final(self).spec_font_count(),
            final(self).spec_font_epoch(font_id, coords@) == epoch.0,
            final(self).spec_glyphs(font_id, coords@) == (if old(self).spec_has_font(font_id, coords@) {
                old(self).spec_glyphs(font_id, coords@)
            } else {
                Map::<RasterizedGlyphKey, RasterizedGlyph>::empty()
            }),
            final(self).spec_font_count() == (if old(self).spec_has_font(font_id, coords@) {
                old(self).spec_font_count()
            } else {
                old(self).spec_font_count() + 1
            }),
            forall|f2: u64, c2: Seq<i16>| !(f2 == font_id && c2 == coords@) ==> {
                &&& final(self).spec_has_font(f2, c2) == old(self).spec_has_font(f2, c2)
                &&& old(self).spec_has_font(f2, c2) ==> {
                    &&& final(self).spec_font_epoch(f2, c2) == old(self).spec_font_epoch(f2, c2)
                    &&& final(self).spec_glyphs(f2, c2) == old(self).spec_glyphs(f2, c2)
                }
            },
    {
        let quant_size = quantized_size(size);
        let fi: usize = match self.find_font(font_id, coords) {
            Some(i) => {
                let e0 = self.fonts[i].epoch;
                self.fonts[i].epoch = epoch;
                proof {
                    assert(self.fonts@[i as int].font_id == font_id);
                    assert(self.fonts@[i as int].coords@ == coords@);
                }
                i
            },
            None => {
                let slot = FontSlot {
                    font_id,
                    coords: Coords::new(coords),
                    epoch,
                    glyphs: Vec::new(),
                };
                self.fonts.push(slot);
                self.fonts.len() - 1
            },
        };
        proof {
            let w = self.spec_font_index(font_id, coords@);
            assert(self.fonts@[fi as int].font_id == font_id && self.fonts@[fi as int].coords@
                == coords@);
            assert(0 <= w < self.fonts@.len() && self.fonts@[w].font_id == font_id
                && self.fonts@[w].coords@ == coords@);
            assert(w == fi);
            assert_sessions_frame(*old(self), *self, font_id, coords@, fi as int, epoch);
        }
        GlyphCacheSession {
            font_index: fi,
            epoch,
            quant_size,
            font_id: Ghost(font_id),
            coords: Ghost(coords@),
        }
    }
}

/// After a session touched (created or refreshed) slot `fi` for key
/// `(fid, coords)`, every other font key reads exactly as before.
proof fn assert_sessions_frame(
    pre: GlyphCache,
    post: GlyphCache,
    fid: u64,
    coords: Seq<i16>,
    fi: int,
    epoch: Epoch,
)
    requires
        pre.wf(),
        post.wf(),
        0 <= fi < post.fonts@.len(),
        post.fonts@[fi].font_id == fid,
        post.fonts@[fi].coords@ == coords,
        post.fonts@.len() == pre.fonts@.len() || (post.fonts@.len() == pre.fonts@.len() + 1 && fi
            == pre.fonts@.len()),
        forall|k: int| 0 <= k < pre.fonts@.len() && k != fi ==> post.fonts@[k] == pre.fonts@[k],
        fi < pre.fonts@.len() ==> pre.fonts@[fi].font_id == fid && pre.fonts@[fi].coords@
            == coords,
    ensures
        forall|f2: u64, c2: Seq<i16>| !(f2 == fid && c2 == coords) ==> {
            &&& post.spec_has_font(f2, c2) == pre.spec_has_font(f2, c2)
            &&& pre.spec_has_font(f2, c2) ==> {
                &&& post.spec_font_epoch(f2, c2) == pre.spec_font_epoch(f2, c2)
                &&& post.spec_glyphs(f2, c2) == pre.spec_glyphs(f2, c2)
            }
        },
{
    assert forall|f2: u64, c2: Seq<i16>| !(f2 == fid && c2 == coords) implies {
        &&& post.spec_has_font(f2, c2) == pre.spec_has_font(f2, c2)
        &&& pre.spec_has_font(f2, c2) ==> {
            &&& post.spec_font_epoch(f2, c2) == pre.spec_font_epoch(f2, c2)
            &&& post.spec_glyphs(f2, c2) == pre.spec_glyphs(f2, c2)
        }
    } by {
        if pre.spec_has_font(f2, c2) {
            let i = pre.spec_font_index(f2, c2);
            assert(0 <= i < pre.fonts@.len() && pre.fonts@[i].font_id == f2 && pre.fonts@[i].coords@
                == c2);
            assert(i != fi);
            assert(post.fonts@[i].font_id == f2 && post.fonts@[i].coords@ == c2);
            assert(post.spec_has_font(f2, c2));
            let i2 = post.spec_font_index(f2, c2);
            assert(0 <= i2 < post.fonts@.len() && post.fonts@[i2].font_id == f2
                && post.fonts@[i2].coords@ == c2);
            assert(i2 != fi);
            if i2 < pre.fonts@.len() {
                assert(pre.fonts@[i2].font_id == f2 && pre.fonts@[i2].coords@ == c2);
                assert(i2 == i);
            } else {
                assert(i2 == fi || i2 < pre.fonts@.len());
            }
        } else if post.spec_has_font(f2, c2) {
            let i2 = post.spec_font_index(f2, c2);
            assert(0 <= i2 < post.fonts@.len() && post.fonts@[i2].font_id == f2
                && post.fonts@[i2].coords@ == c2);
            assert(i2 != fi);
            assert(i2 < pre.fonts@.len());
            assert(pre.fonts@[i2].font_id == f2 && pre.fonts@[i2].coords@ == c2);
            assert(false);
        }
    }
}

/// Restricting a duplicate-free association list to the pairs a predicate
/// accepts restricts its map to the keys whose pair is accepted, keeping
/// their values.
proof fn lemma_assoc_filter<K, V>(s: Seq<(K, V)>, pred: spec_fn((K, V)) -> bool)
    requires
        keys_unique(s),
    ensures
        keys_unique(s.filter(pred)),
        forall|k: K| #[trigger] assoc_map(s.filter(pred)).contains_key(k) <==> assoc_map(
            s,
        ).contains_key(k) && pred((k, assoc_map(s)[k])),
        forall|k: K| #[trigger] assoc_map(s.filter(pred)).contains_key(k) ==> assoc_map(s.filter(
            pred,
        ))[k] == assoc_map(s)[k],
    decreases s.len(),
{
    reveal(Seq::filter);
    if s.len() > 0 {
        let sd = s.drop_last();
        let last = s.last();
        assert(keys_unique(sd)) by {
            assert forall|a: int, b: int| 0 <= a < b < sd.len() implies (#[trigger] sd[a]).0 != (
            #[trigger] sd[b]).0 by {
                assert(sd[a] == s[a] && sd[b] == s[b]);
            }
        }
        lemma_assoc_filter(sd, pred);
        assert(forall|a: int| 0 <= a < sd.len() ==> (#[trigger] sd[a]).0 != last.0) by {
            assert forall|a: int| 0 <= a < sd.len() implies (#[trigger] sd[a]).0 != last.0 by {
                assert(sd[a] == s[a] && last == s[s.len() - 1]);
            }
        }
        lemma_assoc_map_contains(sd, last.0);
        assert(!assoc_map(sd).contains_key(last.0));
        lemma_filter_members(sd, pred);
        if pred(last) {
            assert(s.filter(pred) == sd.filter(pred).push(last));
            assert(s.filter(pred).drop_last() =~= sd.filter(pred));
            assert(assoc_map(s.filter(pred)) == assoc_map(sd.filter(pred)).insert(
                last.0,
                last.1,
            ));
            assert(keys_unique(s.filter(pred))) by {
                let f = s.filter(pred);
                let fd = sd.filter(pred);
                assert forall|a: int, b: int| 0 <= a < b < f.len() implies (#[trigger] f[a]).0 != (
                #[trigger] f[b]).0 by {
                    if b == f.len() - 1 {
                        assert(f[a] == fd[a]);
                        assert(f[b] == last);
                        let w = choose|w: int|
                            #![trigger sd[w]]
                            0 <= w < sd.len() && fd[a] == sd[w];
                        assert(sd[w].0 != last.0);
                    } else {
                        assert(f[a] == fd[a] && f[b] == fd[b]);
                    }
                }
            }
            assert forall|k: K| #[trigger] assoc_map(s.filter(pred)).contains_key(k) implies assoc_map(
                s.filter(pred),
            )[k] == assoc_map(s)[k] by {
                if k == last.0 {
                } else {
                    assert(assoc_map(s.filter(pred))[k] == assoc_map(sd.filter(pred))[k]);
                    assert(assoc_map(s)[k] == assoc_map(sd)[k]);
                }
            }
        } else {
            assert(s.filter(pred) == sd.filter(pred));
            assert forall|k: K| #[trigger] assoc_map(s.filter(pred)).contains_key(k) implies assoc_map(
                s,
            ).contains_key(k) && pred((k, assoc_map(s)[k])) by {
                assert(assoc_map(sd).contains_key(k) && pred((k, assoc_map(sd)[k])));
                assert(k != last.0);
                assert(assoc_map(s)[k] == assoc_map(sd)[k]);
            }
            assert forall|k: K|
                assoc_map(s).contains_key(k) && pred(
                    (k, assoc_map(s)[k]),
                ) implies #[trigger] assoc_map(s.filter(pred)).contains_key(k) by {
                assert(k != last.0);
                assert(assoc_map(s)[k] == assoc_map(sd)[k]);
                assert(assoc_map(sd).contains_key(k));
            }
            assert forall|k: K| #[trigger] assoc_map(s.filter(pred)).contains_key(k) implies assoc_map(
                s.filter(pred),
            )[k] == assoc_map(s)[k] by {
                assert(k != last.0);
                assert(assoc_map(s)[k] == assoc_map(sd)[k]);
            }
        }
    }
}

/// Converts the sequence-level statement of the sweep's slot dropping
/// (the slot list is filtered by non-emptiness) into key-based facts.
proof fn lemma_clear_post(pre: GlyphCache, post: GlyphCache)
    requires
        pre.wf(),
        post.wf(),
        post.fonts@ == pre.fonts@.filter(spec_nonempty_pred()),
    ensures
        forall|fid: u64, c: Seq<i16>| #[trigger] post.spec_has_font(fid, c) ==> {
            &&& pre.spec_has_font(fid, c)
            &&& post.spec_font_epoch(fid, c) == pre.spec_font_epoch(fid, c)
            &&& post.spec_glyphs(fid, c) == pre.spec_glyphs(fid, c)
        },
        forall|fid: u64, c: Seq<i16>|
            #[trigger] pre.spec_has_font(fid, c) && pre.fonts@[pre.spec_font_index(fid, c)].glyphs@.len()
                > 0 ==> post.spec_has_font(fid, c),
{
    let all = pre.fonts@;
    let pred = spec_nonempty_pred();
    lemma_filter_members(all, pred);
    assert forall|fid: u64, c: Seq<i16>| #[trigger] post.spec_has_font(fid, c) implies {
        &&& pre.spec_has_font(fid, c)
        &&& post.spec_font_epoch(fid, c) == pre.spec_font_epoch(fid, c)
        &&& post.spec_glyphs(fid, c) == pre.spec_glyphs(fid, c)
    } by {
        let a = post.spec_font_index(fid, c);
        assert(0 <= a < post.fonts@.len() && post.fonts@[a].font_id == fid && post.fonts@[a].coords@
            == c);
        let b = choose|b: int| #![trigger all[b]] 0 <= b < all.len() && all.filter(pred)[a] == all[b];
        assert(pre.fonts@[b].font_id == fid && pre.fonts@[b].coords@ == c);
        assert(pre.spec_has_font(fid, c));
        let b2 = pre.spec_font_index(fid, c);
        assert(0 <= b2 < pre.fonts@.len() && pre.fonts@[b2].font_id == fid && pre.fonts@[b2].coords@
            == c);
        assert(b2 == b);
    }
    assert forall|fid: u64, c: Seq<i16>|
        #[trigger] pre.spec_has_font(fid, c) && pre.fonts@[pre.spec_font_index(fid, c)].glyphs@.len()
            > 0 implies post.spec_has_font(fid, c) by {
        let b = pre.spec_font_index(fid, c);
        assert(0 <= b < all.len() && all[b].font_id == fid && all[b].coords@ == c);
        assert(pred(all[b]));
        broadcast use vstd::seq_lib::group_filter_ensures;
        assert(all.filter(pred).contains(all[b]));
        let a = choose|a: int| 0 <= a < all.filter(pred).len() && all.filter(pred)[a] == all[b];
        assert(post.fonts@[a].font_id == fid && post.fonts@[a].coords@ == c);
    }
}

/// Key-based reading of the per-slot sweep: slot keys, indices and epochs
/// are untouched, and each slot's glyph map is restricted to lines whose
/// backing image is resident.
proof fn lemma_mid_facts(pre: GlyphCache, mid: GlyphCache, im: ImageCache)
    requires
        pre.wf(),
        mid.wf(),
        mid.fonts@.len() == pre.fonts@.len(),
        forall|a: int| 0 <= a < pre.fonts@.len() ==> {
            let s0 = #[trigger] mid.fonts@[a];
            let p0 = pre.fonts@[a];
            &&& s0.font_id == p0.font_id
            &&& s0.coords == p0.coords
            &&& s0.epoch == p0.epoch
            &&& s0.glyphs@ == p0.glyphs@.filter(spec_live_pred(im))
        },
    ensures
        forall|fid: u64, c: Seq<i16>| #[trigger] mid.spec_has_font(fid, c) == pre.spec_has_font(
            fid,
            c,
        ),
        forall|fid: u64, c: Seq<i16>| #[trigger] pre.spec_has_font(fid, c) ==> {
            &&& mid.spec_font_index(fid, c) == pre.spec_font_index(fid, c)
            &&& mid.spec_font_epoch(fid, c) == pre.spec_font_epoch(fid, c)
        },
        forall|fid: u64, c: Seq<i16>, k: RasterizedGlyphKey|
            #![trigger pre.spec_glyphs(fid, c).contains_key(k)]
            #![trigger mid.spec_glyphs(fid, c).contains_key(k)]
            pre.spec_has_font(fid, c) ==> (mid.spec_glyphs(fid, c).contains_key(k) <==> pre.spec_glyphs(
                fid,
                c,
            ).contains_key(k) && im.spec_is_valid(pre.spec_glyphs(fid, c)[k].image_id)) && (
            mid.spec_glyphs(fid, c).contains_key(k) ==> mid.spec_glyphs(fid, c)[k]
                == pre.spec_glyphs(fid, c)[k]),
{
    assert forall|fid: u64, c: Seq<i16>| #[trigger] mid.spec_has_font(fid, c) == pre.spec_has_font(
        fid,
        c,
    ) by {
        if pre.spec_has_font(fid, c) {
            let b = pre.spec_font_index(fid, c);
            assert(mid.fonts@[b].font_id == fid && mid.fonts@[b].coords@ == c);
        }
        if mid.spec_has_font(fid, c) {
            let b = mid.spec_font_index(fid, c);
            assert(pre.fonts@[b].font_id == fid && pre.fonts@[b].coords@ == c);
        }
    }
    assert forall|fid: u64, c: Seq<i16>| #[trigger] pre.spec_has_font(fid, c) implies {
        &&& mid.spec_font_index(fid, c) == pre.spec_font_index(fid, c)
        &&& mid.spec_font_epoch(fid, c) == pre.spec_font_epoch(fid, c)
    } by {
        let b = pre.spec_font_index(fid, c);
        assert(0 <= b < pre.fonts@.len() && pre.fonts@[b].font_id == fid && pre.fonts@[b].coords@
            == c);
        assert(mid.fonts@[b].font_id == fid && mid.fonts@[b].coords@ == c);
        let b2 = mid.spec_font_index(fid, c);
        assert(0 <= b2 < mid.fonts@.len() && mid.fonts@[b2].font_id == fid && mid.fonts@[b2].coords@
            == c);
        assert(pre.fonts@[b2].font_id == fid && pre.fonts@[b2].coords@ == c);
        assert(b2 == b);
    }
    assert forall|fid: u64, c: Seq<i16>, k: RasterizedGlyphKey|
        #![trigger pre.spec_glyphs(fid, c).contains_key(k)]
        #![trigger mid.spec_glyphs(fid, c).contains_key(k)]
        pre.spec_has_font(fid, c) implies (mid.spec_glyphs(fid, c).contains_key(k)
        <==> pre.spec_glyphs(fid, c).contains_key(k) && im.spec_is_valid(
        pre.spec_glyphs(fid, c)[k].image_id,
    )) && (mid.spec_glyphs(fid, c).contains_key(k) ==> mid.spec_glyphs(fid, c)[k]
        == pre.spec_glyphs(fid, c)[k]) by {
        let b = pre.spec_font_index(fid, c);
        assert(keys_unique(pre.fonts@[b].glyphs@));
        lemma_assoc_filter(pre.fonts@[b].glyphs@, spec_live_pred(im));
        assert(mid.spec_font_index(fid, c) == b);
        assert(mid.fonts@[b].glyphs@ == pre.fonts@[b].glyphs@.filter(spec_live_pred(im)));
        if pre.spec_glyphs(fid, c).contains_key(k) {
            assert(spec_live_pred(im)((k, pre.spec_glyphs(fid, c)[k])) == im.spec_is_valid(
                pre.spec_glyphs(fid, c)[k].image_id,
            ));
        }
    }
}

/// Stitches the two sweep phases into the contract of the whole sweep.
proof fn lemma_clear_compose(pre: GlyphCache, mid: GlyphCache, post: GlyphCache, im: ImageCache)
    requires
        pre.wf(),
        mid.wf(),
        post.wf(),
        mid.fonts@.len() == pre.fonts@.len(),
        forall|a: int| 0 <= a < pre.fonts@.len() ==> {
            let s0 = #[trigger] mid.fonts@[a];
            let p0 = pre.fonts@[a];
            &&& s0.font_id == p0.font_id
            &&& s0.coords == p0.coords
            &&& s0.epoch == p0.epoch
            &&& s0.glyphs@ == p0.glyphs@.filter(spec_live_pred(im))
        },
        post.fonts@ == mid.fonts@.filter(spec_nonempty_pred()),
    ensures
        forall|fid: u64, c: Seq<i16>| #[trigger] post.spec_has_font(fid, c) ==> pre.spec_has_font(
            fid,
            c,
        ) && post.spec_font_epoch(fid, c) == pre.spec_font_epoch(fid, c),
        forall|fid: u64, c: Seq<i16>, k: RasterizedGlyphKey|
            post.spec_has_font(fid, c) ==> (#[trigger] post.spec_glyphs(fid, c).contains_key(k)
                <==> pre.spec_glyphs(fid, c).contains_key(k) && im.spec_is_valid(
                pre.spec_glyphs(fid, c)[k].image_id,
            )),
        forall|fid: u64, c: Seq<i16>, k: RasterizedGlyphKey|
            post.spec_has_font(fid, c) && #[trigger] post.spec_glyphs(fid, c).contains_key(k)
                ==> post.spec_glyphs(fid, c)[k] == pre.spec_glyphs(fid, c)[k],
        forall|fid: u64, c: Seq<i16>, k: RasterizedGlyphKey|
            pre.spec_has_font(fid, c) && #[trigger] pre.spec_glyphs(fid, c).contains_key(k)
                && im.spec_is_valid(pre.spec_glyphs(fid, c)[k].image_id) ==> post.spec_has_font(
                fid,
                c,
            ),
        forall|fid: u64, c: Seq<i16>| #[trigger] post.spec_has_font(fid, c) ==> exists|k: RasterizedGlyphKey|
            #![trigger post.spec_glyphs(fid, c).contains_key(k)]
            post.spec_glyphs(fid, c).contains_key(k),
{
    lemma_mid_facts(pre, mid, im);
    lemma_clear_post(mid, post);
    lemma_filter_members(mid.fonts@, spec_nonempty_pred());
    assert forall|fid: u64, c: Seq<i16>| #[trigger] post.spec_has_font(fid, c) implies exists|k: RasterizedGlyphKey|
        #![trigger post.spec_glyphs(fid, c).contains_key(k)]
        post.spec_glyphs(fid, c).contains_key(k) by {
        let a = post.spec_font_index(fid, c);
        assert(0 <= a < post.fonts@.len());
        assert(spec_nonempty_pred()(post.fonts@[a])) by {
            mid.fonts@.filter_lemma(spec_nonempty_pred());
            assert(post.fonts@[a] == mid.fonts@.filter(spec_nonempty_pred())[a]);
        }
        assert(post.fonts@[a].glyphs@.len() > 0);
        assert(keys_unique(post.fonts@[a].glyphs@));
        lemma_assoc_map_value(post.fonts@[a].glyphs@, 0);
        assert(post.spec_glyphs(fid, c).contains_key(post.fonts@[a].glyphs@[0].0));
    }
    assert forall|fid: u64, c: Seq<i16>, k: RasterizedGlyphKey|
        pre.spec_has_font(fid, c) && #[trigger] pre.spec_glyphs(fid, c).contains_key(k)
            && im.spec_is_valid(pre.spec_glyphs(fid, c)[k].image_id) implies post.spec_has_font(
        fid,
        c,
    ) by {
        assert(mid.spec_has_font(fid, c));
        assert(mid.spec_glyphs(fid, c).contains_key(k));
        let b = mid.spec_font_index(fid, c);
        lemma_assoc_map_contains(mid.fonts@[b].glyphs@, k);
        assert(mid.fonts@[b].glyphs@.len() > 0);
    }
}

/// The predicate a glyph sweep filters cache lines by: the backing image
/// is still resident.
spec fn spec_live_pred(im: ImageCache) -> spec_fn((RasterizedGlyphKey, RasterizedGlyph)) -> bool {
    |p: (RasterizedGlyphKey, RasterizedGlyph)| im.spec_is_valid(p.1.image_id)
}

/// The predicate the sweep keeps font slots by: at least one cached glyph
/// remains.
spec fn spec_nonempty_pred() -> spec_fn(FontSlot) -> bool {
    |slot: FontSlot| slot.glyphs@.len() > 0
}

/// Font size quantization: fixed-point 1/256 px sizes collapse to 1/32 px
/// steps, clamped to the representable range.
pub open spec fn spec_quantized_size(size: int) -> u16 {
    if size <= 0 {
        0u16
    } else if size / 8 > 65535 {
        65535u16
    } else {
        (size / 8) as u16
    }
}

/// Quantizes a fixed-point font size to 1/32 px units.
pub fn quantized_size(size: i32) -> (r: u16)
    ensures
        r == spec_quantized_size(size as int),
{
    if size <= 0 {
        0
    } else {
        let q = size / 8;
        if q > 65535 {
            65535
        } else {
            q as u16
        }
    }
}

/// A borrowing session against one font instance: remembers which slot it
/// refreshed, the epoch, and the quantized size that keys this run's
/// glyphs.
pub struct GlyphCacheSession {
    font_index: usize,
    epoch: Epoch,
    quant_size: u16,
    font_id: Ghost<u64>,
    coords: Ghost<Seq<i16>>,
}

impl GlyphCacheSession {
    /// Slot index this session works against.
    pub closed spec fn spec_font_index(self) -> int {
        self.font_index as int
    }

    /// Epoch the session was opened at.
    pub closed spec fn spec_epoch(self) -> Epoch {
        self.epoch
    }

    /// Quantized font size used in this session's glyph keys.
    pub closed spec fn spec_quant_size(self) -> u16 {
        self.quant_size
    }

    /// Font identity the session was opened for.
    pub closed spec fn spec_font_id(self) -> u64 {
        self.font_id@
    }

    /// Coordinate sequence the session was opened for.
    pub closed spec fn spec_coords(self) -> Seq<i16> {
        self.coords@
    }

    /// The session points at the slot of its font key in this cache.
    pub open spec fn valid_for(self, cache: GlyphCache) -> bool {
        &&& cache.wf()
        &&& cache.spec_has_font(self.spec_font_id(), self.spec_coords())
        &&& cache.spec_font_index(self.spec_font_id(), self.spec_coords())
            == self.spec_font_index()
    }

    /// The glyph key this session uses for a glyph at a fixed-point
    /// position.
    pub open spec fn spec_key(self, id: u16, x: int, y: int) -> RasterizedGlyphKey {
        RasterizedGlyphKey {
            id,
            subpx_x: crate::subpixel::spec_quantize(x),
            subpx_y: crate::subpixel::spec_quantize(y),
            size: self.spec_quant_size(),
        }
    }

    /// Whether a request for key `key` hits the cache outright: the key is
    /// cached and its backing image is still resident.
    pub open spec fn spec_hit(
        self,
        cache: GlyphCache,
        images: ImageCache,
        key: RasterizedGlyphKey,
    ) -> bool {
        &&& cache.spec_glyphs(self.spec_font_id(), self.spec_coords()).contains_key(key)
        &&& images.spec_is_valid(
            cache.spec_glyphs(self.spec_font_id(), self.spec_coords())[key].image_id,
        )
    }

    /// Looks the image up in the image cache, refreshing its last-used
    /// epoch to this session's epoch.
    pub fn get_image_location(&self, images: &mut ImageCache, image: ImageId) -> (r: Option<
        ImageLocation,
    >)
        requires
            old(images).wf(),
        ensures
            final(images).wf(),
            r == (if old(images).spec_is_valid(image) {
                Some(old(images).spec_location(image))
            } else {
                None::<ImageLocation>
            }),
            final(images).spec_max() == old(images).spec_max(),
            final(images).spec_count() == old(images).spec_count(),
            final(images).spec_events() == old(images).spec_events(),
            forall|j: ImageId| final(images).spec_is_valid(j) == old(images).spec_is_valid(j),
            forall|j: ImageId| old(images).spec_is_valid(j) ==> final(images).spec_location(j)
                == old(images).spec_location(j),
            forall|j: ImageId| old(images).spec_is_valid(j) ==> final(images).spec_evictable(j)
                == old(images).spec_evictable(j),
            forall|j: ImageId|
                old(images).spec_is_valid(j) && j.spec_index() != image.spec_index() ==> final(images).spec_epoch_of(j) == old(images).spec_epoch_of(j),
            old(images).spec_is_valid(image) ==> forall|j: ImageId|
                j.spec_index() == image.spec_index() ==> final(images).spec_epoch_of(j)
                    == self.spec_epoch().0,
            old(images).spec_is_valid(image) ==> final(images).spec_epoch_of(image)
                == self.spec_epoch().0,
            !old(images).spec_is_valid(image) ==> *final(images) == *old(images),
    {
        images.get(self.epoch, image)
    }

    /// Resolves a glyph at fixed-point position `(x, y)`: quantizes the
    /// position to its sub-pixel phase, and returns the cached entry if
    /// its backing image is still resident. On a miss the external
    /// rasterizer runs with the same quantized offsets; on success the
    /// pixels are registered with the image cache as an evictable image,
    /// the descender ink region is computed from them, and the combined
    /// entry is cached and returned. On rasterization or allocation
    /// failure nothing is cached, so a later request retries.
    pub fn get<R: GlyphRasterizer>(
        &self,
        cache: &mut GlyphCache,
        images: &mut ImageCache,
        raster: &mut R,
        id: u16,
        x: i32,
        y: i32,
    ) -> (r: Option<RasterizedGlyph>)
        requires
            self.valid_for(*old(cache)),
            old(images).wf(),
            old(images).spec_count() < 0xFFFF_FFFF,
        ensures
            self.valid_for(*final(cache)),
            final(images).wf(),
            final(images).spec_max() == old(images).spec_max(),
            ({
                let key = self.spec_key(id, x as int, y as int);
                let fid = self.spec_font_id();
                let c = self.spec_coords();
                let old_g = old(cache).spec_glyphs(fid, c);
                &&& self.spec_hit(*old(cache), *old(images), key) ==> {
                    &&& r == Some(old_g[key])
                    &&& *final(cache) == *old(cache)
                    &&& *final(images) == *old(images)
                    &&& *final(raster) == *old(raster)
                }
                &&& r is None ==> *final(cache) == *old(cache) && *final(images) == *old(images)
                &&& r matches Some(e) ==> {
                    &&& final(cache).spec_glyphs(fid, c) == (if self.spec_hit(
                        *old(cache), *old(images), key) {
                        old_g
                    } else {
                        old_g.insert(key, e)
                    })
                    &&& final(images).spec_is_valid(e.image_id)
                }
                &&& !self.spec_hit(*old(cache), *old(images), key) ==> {
                    &&& (r matches Some(e) ==> {
                        &&& e.image_id.spec_index() == old(images).spec_count()
                        &&& e.image_id.spec_has_alpha()
                        &&& final(images).spec_count() == old(images).spec_count() + 1
                        &&& final(images).spec_epoch_of(e.image_id) == self.spec_epoch().0
                        &&& final(images).spec_evictable(e.image_id)
                    })
                    &&& forall|j: ImageId|
                        old(images).spec_is_valid(j) && !old(images).spec_stale(j, self.spec_epoch())
                            ==> final(images).spec_is_valid(j)
                    &&& forall|j: ImageId|
                        final(images).spec_is_valid(j) && j.spec_index() < old(images).spec_count()
                            ==> old(images).spec_is_valid(j)
                    &&& forall|j: ImageId|
                        old(images).spec_is_valid(j) && final(images).spec_is_valid(j) ==> {
                        &&& final(images).spec_location(j) == old(images).spec_location(j)
                        &&& final(images).spec_epoch_of(j) == old(images).spec_epoch_of(j)
                        &&& final(images).spec_evictable(j) == old(images).spec_evictable(j)
                    }
                }
                &&& forall|f2: u64, c2: Seq<i16>| !(f2 == fid && c2 == c) ==> {
                    &&& final(cache).spec_has_font(f2, c2) == old(cache).spec_has_font(f2, c2)
                    &&& old(cache).spec_has_font(f2, c2) ==> {
                        &&& final(cache).spec_font_epoch(f2, c2) == old(cache).spec_font_epoch(
                            f2,
                            c2,
                        )
                        &&& final(cache).spec_glyphs(f2, c2) == old(cache).spec_glyphs(f2, c2)
                    }
                }
                &&& final(cache).spec_font_epoch(fid, c) == old(cache).spec_font_epoch(fid, c)
                &&& final(cache).spec_font_count() == old(cache).spec_font_count()
            }),
    {
        let subpx_x = SubpixelOffset::quantize(x);
        let subpx_y = SubpixelOffset::quantize(y);
        let key = RasterizedGlyphKey { id, subpx_x, subpx_y, size: self.quant_size };
        let fi = self.font_index;
        proof {
            assert(0 <= fi < cache.fonts@.len());
        }
        let ghost g0 = cache.fonts@[fi as int].glyphs@;

        // Probe the font slot for the key.
        let n = cache.fonts[fi].glyphs.len();
        let mut i: usize = 0;
        let mut found: Option<usize> = None;
        while i < n && found.is_none()
            invariant
                0 <= i <= n,
                fi < cache.fonts@.len(),
                cache.fonts@[fi as int].glyphs@ == g0,
                n == g0.len(),
                found is None ==> forall|k: int| 0 <= k < i ==> (#[trigger] g0[k]).0 != key,
                found matches Some(gi) ==> gi < n && g0[gi as int].0 == key,
            decreases n - i,
        {
            if cache.fonts[fi].glyphs[i].0 == key {
                found = Some(i);
            }
            i += 1;
        }

        proof {
            assert(keys_unique(g0));
            assert(assoc_map(g0) == cache.spec_glyphs(self.spec_font_id(), self.spec_coords()));
        }

        match found {
            Some(gi) => {
                let entry = cache.fonts[fi].glyphs[gi].1;
                proof {
                    lemma_assoc_map_value(g0, gi as int);
                }
                if images.is_valid(entry.image_id) {
                    return Some(entry);
                }
            },
            None => {
                proof {
                    lemma_assoc_map_contains(g0, key);
                }
            },
        }

        // Miss: rasterize with the quantized offsets baked in.
        match raster.rasterize(id, subpx_x, subpx_y) {
            None => None,
            Some(out) => {
                let req = AddImage {
                    format: PixelFormat::Rgba8,
                    width: out.width,
                    height: out.height,
                    has_alpha: true,
                    evictable: true,
                    data: ImageData::Borrowed(out.data.as_slice()),
                };
                match images.allocate(self.epoch, req) {
                    None => None,
                    Some(image) => {
                        let entry = RasterizedGlyph::from_output(&out, image);
                        let ghost pre_cache = *cache;
                        match found {
                            Some(gi) => {
                                cache.fonts[fi].glyphs[gi] = (key, entry);
                                proof {
                                    assert(cache.fonts@[fi as int].glyphs@ =~= g0.update(
                                        gi as int,
                                        (key, entry),
                                    ));
                                    lemma_assoc_map_update(g0, gi as int, entry);
                                    assert(keys_unique(cache.fonts@[fi as int].glyphs@));
                                }
                            },
                            None => {
                                cache.fonts[fi].glyphs.push((key, entry));
                                proof {
                                    let g1 = cache.fonts@[fi as int].glyphs@;
                                    assert(g1 == g0.push((key, entry)));
                                    assert(g1.drop_last() =~= g0);
                                    assert(g1.last() == (key, entry));
                                    assert(assoc_map(g1) == assoc_map(g0).insert(key, entry));
                                    assert(keys_unique(g1)) by {
                                        assert forall|a: int, b: int| 0 <= a < b < g1.len() implies (
                                        #[trigger] g1[a]).0 != (#[trigger] g1[b]).0 by {
                                            if b < g0.len() {
                                                assert(g1[a] == g0[a] && g1[b] == g0[b]);
                                            } else {
                                                assert(g1[b] == (key, entry));
                                                assert(g1[a] == g0[a]);
                                            }
                                        }
                                    }
                                }
                            },
                        }
                        proof {
                            assert(cache.wf()) by {
                                assert forall|a: int| 0 <= a < cache.fonts@.len() implies (
                                #[trigger] cache.fonts@[a]).coords.wf() && keys_unique(
                                    cache.fonts@[a].glyphs@,
                                ) by {
                                    if a != fi {
                                        assert(cache.fonts@[a] == pre_cache.fonts@[a]);
                                    }
                                }
                            }
                            assert(cache.spec_font_index(self.spec_font_id(), self.spec_coords())
                                == fi as int);
                            assert_sessions_frame(
                                pre_cache,
                                *cache,
                                self.spec_font_id(),
                                self.spec_coords(),
                                fi as int,
                                self.epoch,
                            );
                        }
                        Some(entry)
                    },
                }
            },
        }
    }
}

} // verus!
