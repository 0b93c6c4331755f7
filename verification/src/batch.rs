//! Draw-primitive accumulation and batch compilation.
//!
//! Primitives are collected in submission order and compiled into an
//! ordered display list whose commands group maximal runs of consecutive
//! primitives sharing a pipeline and texture, minimizing state changes
//! while preserving submission order.

use vstd::prelude::*;

use crate::geom::{Color, Rect};
use crate::image_cache::TextureId;

verus! {

/// GPU pipeline a primitive is drawn with.
#[derive(Clone, Copy, Debug, PartialEq, Eq, Structural)]
pub enum Pipeline {
    /// Solid fill, no texture.
    Fill,
    /// Textured image rectangle.
    Image,
    /// Alpha-mask rectangle (text).
    Mask,
}

/// One accumulated draw primitive: kind, optional texture page, geometry
/// in fixed-point units, depth, color, and texel-space corners.
#[derive(Clone, Copy, Debug)]
pub struct Primitive {
    pub pipeline: Pipeline,
    pub texture: Option<TextureId>,
    pub rect: Rect,
    pub depth: i32,
    pub color: Color,
    /// Texel-space min corner (x, y).
    pub uv_min: (u16, u16),
    /// Texel-space max corner (x, y).
    pub uv_max: (u16, u16),
}

/// State-change key of a primitive: commands group runs that share it.
pub open spec fn spec_key(p: Primitive) -> (Pipeline, Option<TextureId>) {
    (p.pipeline, p.texture)
}

/// One vertex of a quad: fixed-point position, texel coordinates, color
/// and depth.
#[derive(Clone, Copy, Debug)]
pub struct Vertex {
    pub x: i32,
    pub y: i32,
    pub u: u16,
    pub v: u16,
    pub color: Color,
    pub depth: i32,
}

/// One draw command: a contiguous vertex range sharing a pipeline and
/// texture.
#[derive(Clone, Copy, Debug)]
pub struct Command {
    pub pipeline: Pipeline,
    pub texture: Option<TextureId>,
    pub first_vertex: usize,
    pub vertex_count: usize,
}

/// The compiled frame: commands indexing into one vertex array.
pub struct DisplayList {
    pub commands: Vec<Command>,
    pub vertices: Vec<Vertex>,
}

impl DisplayList {
    /// Creates an empty display list.
    pub fn new() -> (d: DisplayList)
        ensures
            d.commands@.len() == 0,
            d.vertices@.len() == 0,
    {
        DisplayList { commands: Vec::new(), vertices: Vec::new() }
    }
}

/// Corner `j` (0..4) of the primitive's quad, in the order top-left,
/// top-right, bottom-right, bottom-left.
pub open spec fn spec_quad_vertex(p: Primitive, j: int) -> Vertex {
    let x0 = p.rect.x;
    let y0 = p.rect.y;
    let x1 = (p.rect.x + p.rect.width) as i32;
    let y1 = (p.rect.y + p.rect.height) as i32;
    if j == 0 {
        Vertex { x: x0, y: y0, u: p.uv_min.0, v: p.uv_min.1, color: p.color, depth: p.depth }
    } else if j == 1 {
        Vertex { x: x1, y: y0, u: p.uv_max.0, v: p.uv_min.1, color: p.color, depth: p.depth }
    } else if j == 2 {
        Vertex { x: x1, y: y1, u: p.uv_max.0, v: p.uv_max.1, color: p.color, depth: p.depth }
    } else {
        Vertex { x: x0, y: y1, u: p.uv_min.0, v: p.uv_max.1, color: p.color, depth: p.depth }
    }
}

/// The four corners of a primitive's quad, in order.
pub open spec fn spec_quad(p: Primitive) -> Seq<Vertex> {
    seq![
        spec_quad_vertex(p, 0),
        spec_quad_vertex(p, 1),
        spec_quad_vertex(p, 2),
        spec_quad_vertex(p, 3),
    ]
}

/// The vertex array of a primitive sequence: each primitive's quad, in
/// submission order.
pub open spec fn spec_vertices(prims: Seq<Primitive>) -> Seq<Vertex>
    decreases prims.len(),
{
    if prims.len() == 0 {
        Seq::empty()
    } else {
        spec_vertices(prims.drop_last()) + spec_quad(prims.last())
    }
}

/// The vertex array has four entries per primitive, and entry `4i + j` is
/// corner `j` of primitive `i`.
pub proof fn lemma_vertices_indexed(prims: Seq<Primitive>)
    ensures
        spec_vertices(prims).len() == 4 * prims.len(),
        forall|i: int, j: int| 0 <= i < prims.len() && 0 <= j < 4 ==> #[trigger] spec_vertices(
            prims,
        )[4 * i + j] == spec_quad_vertex(prims[i], j),
    decreases prims.len(),
{
    if prims.len() > 0 {
        lemma_vertices_indexed(prims.drop_last());
        assert forall|i: int, j: int| 0 <= i < prims.len() && 0 <= j < 4 implies #[trigger] spec_vertices(
            prims,
        )[4 * i + j] == spec_quad_vertex(prims[i], j) by {
            if i < prims.len() - 1 {
                assert(spec_vertices(prims)[4 * i + j] == spec_vertices(prims.drop_last())[4 * i
                    + j]);
                assert(prims.drop_last()[i] == prims[i]);
            } else {
                assert(spec_vertices(prims)[4 * i + j] == spec_quad(prims.last())[j]);
            }
        }
    }
}

/// The display list is a faithful, state-change-minimal compilation of the
/// primitive sequence: four vertices per primitive in submission order,
/// and commands that partition them into maximal same-key runs.
pub open spec fn spec_compiled(prims: Seq<Primitive>, d: DisplayList) -> bool {
    &&& d.vertices@ == spec_vertices(prims)
    &&& d.vertices@.len() == 4 * prims.len()
    &&& forall|c: int| 0 <= c < d.commands@.len() ==> {
        let cmd = #[trigger] d.commands@[c];
        &&& cmd.first_vertex % 4 == 0
        &&& cmd.vertex_count % 4 == 0
        &&& cmd.vertex_count > 0
        &&& cmd.first_vertex + cmd.vertex_count <= d.vertices@.len()
        &&& forall|i: int|
            0 <= i < prims.len() && cmd.first_vertex <= 4 * i < cmd.first_vertex
                + cmd.vertex_count ==> spec_key(#[trigger] prims[i]) == (cmd.pipeline, cmd.texture)
    }
    &&& (prims.len() == 0 <==> d.commands@.len() == 0)
    &&& d.commands@.len() > 0 ==> d.commands@[0].first_vertex == 0
    &&& forall|c: int| 0 < c < d.commands@.len() ==> (#[trigger] d.commands@[c]).first_vertex
        == d.commands@[c - 1].first_vertex + d.commands@[c - 1].vertex_count
    &&& d.commands@.len() > 0 ==> d.commands@.last().first_vertex
        + d.commands@.last().vertex_count == d.vertices@.len()
    &&& forall|c: int| 0 < c < d.commands@.len() ==> ((#[trigger] d.commands@[c]).pipeline,
    d.commands@[c].texture) != (d.commands@[c - 1].pipeline, d.commands@[c - 1].texture)
}

/// A rectangle whose far corner still fits the fixed-point range.
pub open spec fn spec_rect_bounded(r: Rect) -> bool {
    &&& -0x8000_0000 <= r.x + r.width <= 0x7FFF_FFFF
    &&& -0x8000_0000 <= r.y + r.height <= 0x7FFF_FFFF
}

/// Accumulates draw primitives for the current frame.
pub struct BatchManager {
    prims: Vec<Primitive>,
}

impl BatchManager {
    /// The primitives submitted so far, in order.
    pub closed spec fn spec_prims(self) -> Seq<Primitive> {
        self.prims@
    }

    /// Every accumulated rectangle has an in-range far corner.
    pub open spec fn wf(self) -> bool {
        forall|i: int| 0 <= i < self.spec_prims().len() ==> spec_rect_bounded(
            (#[trigger] self.spec_prims()[i]).rect,
        )
    }

    /// Creates an empty accumulator.
    pub fn new() -> (b: BatchManager)
        ensures
            b.spec_prims() == Seq::<Primitive>::empty(),
            b.wf(),
    {
        let b = BatchManager { prims: Vec::new() };
        proof {
            assert(b.spec_prims() =~= Seq::<Primitive>::empty());
        }
        b
    }

    /// Clears the accumulated primitives for a new frame.
    pub fn reset(&mut self)
        ensures
            final(self).spec_prims() == Seq::<Primitive>::empty(),
            final(self).wf(),
    {
        self.prims.clear();
        proof {
            assert(self.spec_prims() =~= Seq::<Primitive>::empty());
        }
    }

    /// Appends a solid filled rectangle.
    pub fn add_rect(&mut self, rect: &Rect, depth: i32, color: Color)
        requires
            spec_rect_bounded(*rect),
            old(self).wf(),
        ensures
            final(self).wf(),
            final(self).spec_prims() == old(self).spec_prims().push(
                Primitive {
                    pipeline: Pipeline::Fill,
                    texture: None,
                    rect: *rect,
                    depth,
                    color,
                    uv_min: (0u16, 0u16),
                    uv_max: (0u16, 0u16),
                },
            ),
    {
        self.prims.push(
            Primitive {
                pipeline: Pipeline::Fill,
                texture: None,
                rect: *rect,
                depth,
                color,
                uv_min: (0, 0),
                uv_max: (0, 0),
            },
        );
    }

    /// Appends a textured image rectangle.
    pub fn add_image_rect(
        &mut self,
        rect: &Rect,
        depth: i32,
        color: Color,
        uv_min: (u16, u16),
        uv_max: (u16, u16),
        texture: TextureId,
    )
        requires
            spec_rect_bounded(*rect),
            old(self).wf(),
        ensures
            final(self).wf(),
            final(self).spec_prims() == old(self).spec_prims().push(
                Primitive {
                    pipeline: Pipeline::Image,
                    texture: Some(texture),
                    rect: *rect,
                    depth,
                    color,
                    uv_min,
                    uv_max,
                },
            ),
    {
        self.prims.push(
            Primitive {
                pipeline: Pipeline::Image,
                texture: Some(texture),
                rect: *rect,
                depth,
                color,
                uv_min,
                uv_max,
            },
        );
    }

    /// Appends an alpha-mask rectangle.
    pub fn add_mask_rect(
        &mut self,
        rect: &Rect,
        depth: i32,
        color: Color,
        uv_min: (u16, u16),
        uv_max: (u16, u16),
        texture: TextureId,
    )
        requires
            spec_rect_bounded(*rect),
            old(self).wf(),
        ensures
            final(self).wf(),
            final(self).spec_prims() == old(self).spec_prims().push(
                Primitive {
                    pipeline: Pipeline::Mask,
                    texture: Some(texture),
                    rect: *rect,
                    depth,
                    color,
                    uv_min,
                    uv_max,
                },
            ),
    {
        self.prims.push(
            Primitive {
                pipeline: Pipeline::Mask,
                texture: Some(texture),
                rect: *rect,
                depth,
                color,
                uv_min,
                uv_max,
            },
        );
    }

    /// Compiles the accumulated primitives into `list`, replacing its
    /// contents: four vertices per primitive in submission order, grouped
    /// into one command per maximal run of a shared pipeline and texture.
    #[verifier::spinoff_prover]
    #[verifier::rlimit(100)]
    pub fn build_display_list(&self, list: &mut DisplayList)
        requires
            self.wf(),
            self.spec_prims().len() < usize::MAX / 4,
        ensures
            spec_compiled(self.spec_prims(), *final(list)),
    {
        list.commands.clear();
        list.vertices.clear();
        proof {
            assert(list.vertices@ =~= spec_vertices(self.prims@.take(0)));
        }
        let n = self.prims.len();
        let mut i: usize = 0;
        while i < n
            invariant
                self.wf(),
                n == self.prims@.len(),
                n < usize::MAX / 4,
                0 <= i <= n,
                list.commands@.len() == 0,
                list.vertices@.len() == 4 * i,
                list.vertices@ == spec_vertices(self.prims@.take(i as int)),
            decreases n - i,
        {
            let p = self.prims[i];
            let x0 = p.rect.x;
            let y0 = p.rect.y;
            let x1 = p.rect.x + p.rect.width;
            let y1 = p.rect.y + p.rect.height;
            list.vertices.push(
                Vertex { x: x0, y: y0, u: p.uv_min.0, v: p.uv_min.1, color: p.color, depth: p.depth },
            );
            list.vertices.push(
                Vertex { x: x1, y: y0, u: p.uv_max.0, v: p.uv_min.1, color: p.color, depth: p.depth },
            );
            list.vertices.push(
                Vertex { x: x1, y: y1, u: p.uv_max.0, v: p.uv_max.1, color: p.color, depth: p.depth },
            );
            list.vertices.push(
                Vertex { x: x0, y: y1, u: p.uv_min.0, v: p.uv_max.1, color: p.color, depth: p.depth },
            );
            proof {
                let t1 = self.prims@.take(i as int + 1);
                assert(t1.drop_last() =~= self.prims@.take(i as int));
                assert(t1.last() == self.prims@[i as int]);
                assert(list.vertices@ =~= spec_vertices(t1));
            }
            i += 1;
        }
        proof {
            assert(self.prims@.take(n as int) =~= self.prims@);
            lemma_vertices_indexed(self.prims@);
        }
        self.build_commands(list);
    }

    /// Appends one command per maximal run of consecutive primitives
    /// sharing a pipeline and texture, covering all primitives in order.
    #[verifier::spinoff_prover]
    #[verifier::rlimit(100)]
    fn build_commands(&self, list: &mut DisplayList)
        requires
            self.spec_prims().len() < usize::MAX / 4,
            old(list).commands@.len() == 0,
            old(list).vertices@.len() == 4 * self.spec_prims().len(),
        ensures
            final(list).vertices@ == old(list).vertices@,
            ({
                let prims = self.spec_prims();
                let d = *final(list);
                &&& forall|c: int| 0 <= c < d.commands@.len() ==> {
                    let cmd = #[trigger] d.commands@[c];
                    &&& cmd.first_vertex % 4 == 0
                    &&& cmd.vertex_count % 4 == 0
                    &&& cmd.vertex_count > 0
                    &&& cmd.first_vertex + cmd.vertex_count <= d.vertices@.len()
                    &&& forall|i: int|
                        0 <= i < prims.len() && cmd.first_vertex <= 4 * i < cmd.first_vertex
                            + cmd.vertex_count ==> spec_key(#[trigger] prims[i]) == (
                        cmd.pipeline,
                        cmd.texture,
                        )
                }
                &&& (prims.len() == 0 <==> d.commands@.len() == 0)
                &&& d.commands@.len() > 0 ==> d.commands@[0].first_vertex == 0
                &&& forall|c: int| 0 < c < d.commands@.len() ==> (#[trigger] d.commands@[c]).first_vertex
                    == d.commands@[c - 1].first_vertex + d.commands@[c - 1].vertex_count
                &&& d.commands@.len() > 0 ==> d.commands@.last().first_vertex
                    + d.commands@.last().vertex_count == d.vertices@.len()
                &&& forall|c: int| 0 < c < d.commands@.len() ==> ((#[trigger] d.commands@[c]).pipeline,
                d.commands@[c].texture) != (d.commands@[c - 1].pipeline, d.commands@[c - 1].texture)
            }),
    {
        let n = self.prims.len();
        // One command per maximal run of a shared pipeline and texture.
        let mut i0: usize = 0;
        while i0 < n
            invariant
                n == self.prims@.len(),
                n < usize::MAX / 4,
                0 <= i0 <= n,
                list.vertices@ == old(list).vertices@,
                list.vertices@.len() == 4 * n,
                (i0 == 0 <==> list.commands@.len() == 0),
                list.commands@.len() > 0 ==> list.commands@[0].first_vertex == 0,
                forall|c: int| 0 <= c < list.commands@.len() ==> {
                    let cmd = #[trigger] list.commands@[c];
                    &&& cmd.first_vertex % 4 == 0
                    &&& cmd.vertex_count % 4 == 0
                    &&& cmd.vertex_count > 0
                    &&& cmd.first_vertex + cmd.vertex_count <= 4 * i0
                    &&& forall|k: int|
                        0 <= k < n && cmd.first_vertex <= 4 * k < cmd.first_vertex
                            + cmd.vertex_count ==> spec_key(#[trigger] self.prims@[k]) == (
                        cmd.pipeline,
                        cmd.texture,
                        )
                },
                forall|c: int| 0 < c < list.commands@.len() ==> (#[trigger] list.commands@[c]).first_vertex
                    == list.commands@[c - 1].first_vertex + list.commands@[c - 1].vertex_count,
                list.commands@.len() > 0 ==> list.commands@.last().first_vertex
                    + list.commands@.last().vertex_count == 4 * i0,
                forall|c: int| 0 < c < list.commands@.len() ==> ((
                #[trigger] list.commands@[c]).pipeline, list.commands@[c].texture) != (
                list.commands@[c - 1].pipeline,
                list.commands@[c - 1].texture,
                ),
                i0 > 0 && i0 < n ==> spec_key(self.prims@[i0 as int]) != spec_key(
                    self.prims@[i0 as int - 1],
                ),
            decreases n - i0,
        {
            let p0 = self.prims[i0];
            let mut j: usize = i0 + 1;
            while j < n && same_key(&self.prims[j], &p0)
                invariant
                    n == self.prims@.len(),
                    0 <= i0 < j <= n,
                    p0 == self.prims@[i0 as int],
                    forall|k: int| i0 <= k < j ==> spec_key(#[trigger] self.prims@[k]) == spec_key(
                        p0,
                    ),
                decreases n - j,
            {
                j += 1;
            }
            list.commands.push(
                Command {
                    pipeline: p0.pipeline,
                    texture: p0.texture,
                    first_vertex: 4 * i0,
                    vertex_count: 4 * (j - i0),
                },
            );
            i0 = j;
        }
    }
}

/// The bound within which underline coordinates are accepted, fixed-point.
pub open spec fn spec_coord_ok(v: int) -> bool {
    -0x3000_0000 <= v <= 0x3000_0000
}

/// A solid fill primitive for one underline segment.
pub open spec fn spec_fill_prim(x: int, y: int, w: int, h: int, depth: i32, color: Color) -> Primitive {
    Primitive {
        pipeline: Pipeline::Fill,
        texture: None,
        rect: Rect { x: x as i32, y: y as i32, width: w as i32, height: h as i32 },
        depth,
        color,
        uv_min: (0u16, 0u16),
        uv_max: (0u16, 0u16),
    }
}

/// The underline segments drawn for a run: starting from `ux`, one filled
/// rectangle up to each intercept's left edge (when the pen is left of
/// it), resuming at its right edge, and one final rectangle to the run's
/// end. Overlapping intercepts merge: the pen only ever advances, so a
/// span once covered by an intercept is never drawn over.
pub open spec fn spec_underline_prims(
    ints: Seq<(i32, i32)>,
    ux: int,
    x1: int,
    y: int,
    h: int,
    depth: i32,
    color: Color,
) -> Seq<Primitive>
    decreases ints.len(),
{
    if ints.len() == 0 {
        if ux < x1 {
            seq![spec_fill_prim(ux, y, x1 - ux, h, depth, color)]
        } else {
            Seq::empty()
        }
    } else {
        let resumed = if ints[0].1 as int > ux {
            ints[0].1 as int
        } else {
            ux
        };
        (if ux < ints[0].0 as int {
            seq![spec_fill_prim(ux, y, ints[0].0 - ux, h, depth, color)]
        } else {
            Seq::empty()
        }) + spec_underline_prims(ints.drop_first(), resumed, x1, y, h, depth, color)
    }
}

impl BatchManager {
    /// Emits the underline of a run as filled rectangles over the spans
    /// between consecutive intercepts, skipping the intercepted spans;
    /// overlapping intercepts merge, as [`spec_underline_prims`]
    /// describes.
    #[verifier::spinoff_prover]
    pub fn emit_underline(
        &mut self,
        intercepts: &Vec<(i32, i32)>,
        x0: i32,
        x1: i32,
        y: i32,
        height: i32,
        depth: i32,
        color: Color,
    )
        requires
            old(self).wf(),
            spec_coord_ok(x0 as int),
            spec_coord_ok(x1 as int),
            spec_coord_ok(y as int),
            0 <= height <= 0x1000_0000,
            forall|i: int| 0 <= i < intercepts@.len() ==> spec_coord_ok(
                (#[trigger] intercepts@[i]).0 as int,
            ) && spec_coord_ok(intercepts@[i].1 as int),
        ensures
            final(self).wf(),
            final(self).spec_prims() == old(self).spec_prims() + spec_underline_prims(
                intercepts@,
                x0 as int,
                x1 as int,
                y as int,
                height as int,
                depth,
                color,
            ),
    {
        let ghost target = spec_underline_prims(
            intercepts@,
            x0 as int,
            x1 as int,
            y as int,
            height as int,
            depth,
            color,
        );
        let ghost pre = self.spec_prims();
        let n = intercepts.len();
        let mut ux: i32 = x0;
        let mut i: usize = 0;
        proof {
            assert(intercepts@.skip(0) =~= intercepts@);
        }
        while i < n
            invariant
                self.wf(),
                n == intercepts@.len(),
                0 <= i <= n,
                spec_coord_ok(ux as int),
                spec_coord_ok(x1 as int),
                spec_coord_ok(y as int),
                0 <= height <= 0x1000_0000,
                forall|k: int| 0 <= k < intercepts@.len() ==> spec_coord_ok(
                    (#[trigger] intercepts@[k]).0 as int,
                ) && spec_coord_ok(intercepts@[k].1 as int),
                pre + spec_underline_prims(
                    intercepts@,
                    x0 as int,
                    x1 as int,
                    y as int,
                    height as int,
                    depth,
                    color,
                ) == self.spec_prims() + spec_underline_prims(
                    intercepts@.skip(i as int),
                    ux as int,
                    x1 as int,
                    y as int,
                    height as int,
                    depth,
                    color,
                ),
            decreases n - i,
        {
            let s = intercepts[i].0;
            let e = intercepts[i].1;
            proof {
                assert(intercepts@.skip(i as int)[0] == intercepts@[i as int]);
                assert(intercepts@.skip(i as int).drop_first() =~= intercepts@.skip(i as int + 1));
            }
            if ux < s {
                let r = Rect { x: ux, y, width: s - ux, height };
                self.add_rect(&r, depth, color);
            }
            if e > ux {
                ux = e;
            }
            i += 1;
        }
        proof {
            assert(intercepts@.skip(n as int) =~= Seq::<(i32, i32)>::empty());
        }
        if ux < x1 {
            let r = Rect { x: ux, y, width: x1 - ux, height };
            self.add_rect(&r, depth, color);
        }
        proof {
            assert(self.spec_prims() =~= pre + target);
        }
    }
}

/// Whether two primitives share a pipeline and texture.
fn same_key(a: &Primitive, b: &Primitive) -> (r: bool)
    ensures
        r == (spec_key(*a) == spec_key(*b)),
{
    match (a.texture, b.texture) {
        (Option::None, Option::None) => a.pipeline == b.pipeline,
        (Option::Some(ta), Option::Some(tb)) => a.pipeline == b.pipeline && ta == tb,
        _ => false,
    }
}

} // verus!
