use vstd::prelude::*;

use crate::geometry::{CachedCollider, Point, colliders_intersect, supported_pair};

verus! {

/// Identifier of an entity of the world.
#[derive(Debug, Clone, Copy, PartialEq, Eq, Structural, Hash)]
pub struct Entity(pub u32);

/// Axis-aligned box given by its min and max corners.
#[derive(Debug, Clone, Copy, PartialEq, Eq, Structural)]
pub struct AABB {
    pub min: Point,
    pub max: Point,
}

/// Every axis interval of `a` meets the one of `b`; touching counts.
pub open spec fn aabbs_overlap(a: AABB, b: AABB) -> bool {
    &&& a.min.x <= b.max.x && b.min.x <= a.max.x
    &&& a.min.y <= b.max.y && b.min.y <= a.max.y
    &&& a.min.z <= b.max.z && b.min.z <= a.max.z
}

impl AABB {
    /// Whether the two boxes overlap; boxes that only touch overlap.
    pub fn test_aabb(&self, other: &AABB) -> (r: bool)
        ensures
            r == aabbs_overlap(*self, *other),
    {
        self.min.x <= other.max.x && other.min.x <= self.max.x && self.min.y <= other.max.y
            && other.min.y <= self.max.y && self.min.z <= other.max.z && other.min.z <= self.max.z
    }
}

/// The bounding data of one collidable entity for one tick: the box that
/// encloses it and its collider in world space.
#[derive(Debug, Clone, Copy, PartialEq, Eq, Structural)]
pub struct BoundVolume {
    pub entity: Entity,
    pub aabb: AABB,
    pub collider: CachedCollider,
}

impl BoundVolume {
    /// Exact test of the two volumes' colliders.
    pub fn test(&self, other: &BoundVolume) -> (r: bool)
        requires
            supported_pair(self.collider, other.collider),
        ensures
            r == colliders_intersect(self.collider, other.collider),
    {
        self.collider.test(&other.collider)
    }
}

} // verus!
