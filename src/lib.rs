//! Verified core of a tile-based path tracer: the compact link encoding of the
//! triangle BVH, lane masks of its 8-wide packs, integer quantization of the
//! compressed geometry, screen tiling and tile ordering, and the tile dispatch
//! protocol of the worker pool.

pub mod bvh;
pub mod compressed;
pub mod dispatch;
pub mod forest;
pub mod geometry;
pub mod image_block;
pub mod lanes;
pub mod node_link;
pub mod screen_block;
pub mod util;
