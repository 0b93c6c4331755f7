//! Rendering-resource cache and draw-batching core for a text compositor.
//!
//! The crate turns abstract draw requests (solid rectangles, cached images,
//! shaped glyph runs) into a managed set of texture-backed images with an
//! epoch-based eviction policy and an ordered list of draw batches grouped
//! by texture and primitive kind.
//!
//! Geometry is carried in fixed-point units of 1/256 of a pixel, so every
//! coordinate computation is exact integer arithmetic.

pub mod batch;
pub mod compositor;
pub mod geom;
pub mod glyph;
pub mod image_cache;
pub mod subpixel;
pub mod text;

