//! Core of an offline Monte-Carlo renderer: bounding boxes, the bounding-volume
//! hierarchy over scene objects, the radiance integrator's per-bounce decision,
//! the cut of a participating medium's crossing, Perlin lattice tables and
//! image texel lookup.
//!
//! Scalar quantities that the geometry only compares (box corners, ray
//! parameters) are held as order keys: integers whose order is the order of the
//! real quantity they stand for. Everything that needs real arithmetic
//! (intersection formulas, scattering directions, colors) lives with the caller.
mod bbox;
mod bvh;
mod integrator;
mod medium;
mod perlin;
mod random;
mod scene;
mod textures;

pub use bbox::{OrdVec3, AABB};
pub use perlin::Perlin;
pub use scene::{list_bounding_box, nearer, Hit, HitableList, RayProbe};
pub use bvh::{sort_by_axis, BVHNode, Child};
pub use integrator::{color_world_step, Shade, MAX_DEPTH};
pub use medium::medium_segment;
pub use textures::ImageTexture;
