//! Spatial indexing and hidden-face culling for large sets of axis-aligned
//! bricks, in exact integer arithmetic.
//!
//! A brick set is turned into bounding boxes and oriented polygons, indexed
//! by a balanced bounding-volume tree, culled face against face, and laid
//! out in per-material, per-chunk vertex buffers.

pub mod error;
pub mod vec3;
pub mod brick;
pub mod brickadia_specs;
pub mod aabb;
pub mod faces;
pub mod orient;
pub mod cover;
pub mod builder;
pub mod sort;
pub mod bounds;
pub mod bvh;
pub mod query;
pub mod ray;
pub mod mat;
pub mod mesh;
pub mod centroid;
pub mod generator;
pub mod state;
