//! Grid-partitioned collision detection: exact sphere and oriented-box
//! intersection tests, a per-octant uniform-grid broadphase, a deduplicating
//! narrowphase, the per-tick dispatcher protocol and collision callbacks,
//! and the OpenGL type vocabulary of the engine.
//!
//! World positions are integers in a unit the caller chooses; orientation axes
//! are fixed-point with `geometry::AXIS_UNIT` steps per unit length.

pub mod callbacks;
pub mod collider;
pub mod geometry;
pub mod gl_types;
pub mod grid_collision;
pub mod pair_set;
pub mod volume;
