use crate::coordinates::ChunkCoordinates;
use crate::coordinates::TerrainVec;
use core::cmp::Ordering;
use vstd::prelude::*;
use vstd::std_specs::cmp::PartialOrdSpecImpl;

verus! {

impl PartialOrdSpecImpl for TerrainVec {
    open spec fn obeys_partial_cmp_spec() -> bool {
        true
    }

    /// Less where `self` precedes `other`, greater where `other` precedes
    /// `self`, and equal where they are the same.
    open spec fn partial_cmp_spec(&self, other: &TerrainVec) -> Option<Ordering> {
        if self.precedes(*other) {
            Some(Ordering::Less)
        } else if other.precedes(*self) {
            Some(Ordering::Greater)
        } else {
            Some(Ordering::Equal)
        }
    }
}

impl PartialOrd for TerrainVec {
    /// The order by `x`, then by `y`, then by `z`.
    fn partial_cmp(&self, other: &TerrainVec) -> (order: Option<Ordering>) {
        if self.x < other.x {
            Some(Ordering::Less)
        } else if self.x > other.x {
            Some(Ordering::Greater)
        } else if self.y < other.y {
            Some(Ordering::Less)
        } else if self.y > other.y {
            Some(Ordering::Greater)
        } else if self.z < other.z {
            Some(Ordering::Less)
        } else if self.z > other.z {
            Some(Ordering::Greater)
        } else {
            Some(Ordering::Equal)
        }
    }
}

impl PartialOrdSpecImpl for ChunkCoordinates {
    open spec fn obeys_partial_cmp_spec() -> bool {
        true
    }

    /// Less where `self` precedes `other`, greater where `other` precedes
    /// `self`, and equal where they are the same.
    open spec fn partial_cmp_spec(&self, other: &ChunkCoordinates) -> Option<Ordering> {
        if self@.precedes(other@) {
            Some(Ordering::Less)
        } else if other@.precedes(self@) {
            Some(Ordering::Greater)
        } else {
            Some(Ordering::Equal)
        }
    }
}

impl PartialOrd for ChunkCoordinates {
    /// The order by `x`, then by `y`, then by `z`.
    fn partial_cmp(&self, other: &ChunkCoordinates) -> (order: Option<Ordering>) {
        self.components().partial_cmp(&other.components())
    }
}

} // verus!
