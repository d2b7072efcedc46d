//! Axis-aligned bounding boxes over the integer coordinate grid.
//!
//! The accelerator works on a conservative integer summary of the scene
//! geometry: every triangle is handed over as a box whose corners lie on an
//! integer grid (the caller picks the scale and rounds outward).  All box
//! arithmetic here — union, containment, centroid keys, extents — is exact,
//! which is what the structural guarantees of the accelerator are proved
//! against.

use vstd::prelude::*;

use crate::math::HasElemWiseExtrema;

verus! {

/// Coordinates are kept within this bound so that sums and differences of two
/// coordinates never overflow an `i64`.
pub const COORD_LIMIT: i64 = 0x1000_0000_0000_0000;

/// A point on the integer coordinate grid.
#[derive(Clone, Copy, Debug, PartialEq, Eq, Structural)]
pub struct Coord3 {
    pub x: i64,
    pub y: i64,
    pub z: i64,
}

/// The component of `v` along axis `a` (0 = x, 1 = y, 2 = z).
pub open spec fn axis_of(v: Coord3, a: int) -> int {
    if a == 0 {
        v.x as int
    } else if a == 1 {
        v.y as int
    } else {
        v.z as int
    }
}

pub open spec fn coord_in_range(v: Coord3) -> bool {
    &&& -COORD_LIMIT <= v.x <= COORD_LIMIT
    &&& -COORD_LIMIT <= v.y <= COORD_LIMIT
    &&& -COORD_LIMIT <= v.z <= COORD_LIMIT
}

impl Coord3 {
    pub fn new(x: i64, y: i64, z: i64) -> (r: Coord3)
        ensures
            r == (Coord3 { x, y, z }),
    {
        Coord3 { x, y, z }
    }

    /// The component along axis `a` (0 = x, 1 = y, 2 = z).
    pub fn axis(&self, a: usize) -> (r: i64)
        requires
            a < 3,
        ensures
            r == axis_of(*self, a as int),
    {
        if a == 0 {
            self.x
        } else if a == 1 {
            self.y
        } else {
            self.z
        }
    }
}

impl HasElemWiseExtrema for Coord3 {
    open spec fn spec_min_elem_wise(&self, other: &Self) -> Self {
        Coord3 {
            x: if self.x <= other.x { self.x } else { other.x },
            y: if self.y <= other.y { self.y } else { other.y },
            z: if self.z <= other.z { self.z } else { other.z },
        }
    }

    open spec fn spec_max_elem_wise(&self, other: &Self) -> Self {
        Coord3 {
            x: if self.x >= other.x { self.x } else { other.x },
            y: if self.y >= other.y { self.y } else { other.y },
            z: if self.z >= other.z { self.z } else { other.z },
        }
    }

    fn min_elem_wise(&self, other: &Self) -> (r: Self) {
        Coord3 {
            x: if self.x <= other.x { self.x } else { other.x },
            y: if self.y <= other.y { self.y } else { other.y },
            z: if self.z <= other.z { self.z } else { other.z },
        }
    }

    fn max_elem_wise(&self, other: &Self) -> (r: Self) {
        Coord3 {
            x: if self.x >= other.x { self.x } else { other.x },
            y: if self.y >= other.y { self.y } else { other.y },
            z: if self.z >= other.z { self.z } else { other.z },
        }
    }
}

/// An axis-aligned box; `lower` and `upper` are opposite corners.
///
/// The empty box has `lower` above `upper` on every axis and is the identity
/// for union.
#[derive(Clone, Copy, Debug, PartialEq, Eq, Structural)]
pub struct AABoundingBox {
    pub lower: Coord3,
    pub upper: Coord3,
}

pub open spec fn box_in_range(b: AABoundingBox) -> bool {
    coord_in_range(b.lower) && coord_in_range(b.upper)
}

/// `outer` bounds everything that `inner` bounds.
pub open spec fn contains_box(outer: AABoundingBox, inner: AABoundingBox) -> bool {
    forall|a: int|
        0 <= a < 3 ==> axis_of(outer.lower, a) <= axis_of(inner.lower, a) && axis_of(
            inner.upper,
            a,
        ) <= axis_of(outer.upper, a)
}

/// The smallest box bounding both arguments.
pub open spec fn spec_box_union(a: AABoundingBox, b: AABoundingBox) -> AABoundingBox {
    AABoundingBox { lower: a.lower.spec_min_elem_wise(&b.lower), upper: a.upper.spec_max_elem_wise(&b.upper) }
}

impl AABoundingBox {
    /// The degenerate box at the origin.
    pub fn new() -> (r: AABoundingBox)
        ensures
            r.lower == (Coord3 { x: 0, y: 0, z: 0 }),
            r.upper == (Coord3 { x: 0, y: 0, z: 0 }),
    {
        AABoundingBox {
            lower: Coord3 { x: 0, y: 0, z: 0 },
            upper: Coord3 { x: 0, y: 0, z: 0 },
        }
    }

    /// The identity for union: its lower corner sits above its upper corner.
    pub fn empty() -> (r: AABoundingBox)
        ensures
            r == spec_empty_box(),
    {
        AABoundingBox {
            lower: Coord3 { x: i64::MAX, y: i64::MAX, z: i64::MAX },
            upper: Coord3 { x: i64::MIN, y: i64::MIN, z: i64::MIN },
        }
    }

    pub fn union_with(&self, other: &AABoundingBox) -> (r: AABoundingBox)
        ensures
            r == spec_box_union(*self, *other),
    {
        AABoundingBox {
            lower: self.lower.min_elem_wise(&other.lower),
            upper: self.upper.max_elem_wise(&other.upper),
        }
    }

    /// Twice the centroid coordinate along axis `a`; doubling keeps the key
    /// exact, and comparing these keys compares centroids.
    pub fn centroid_key(&self, a: usize) -> (r: i64)
        requires
            a < 3,
            box_in_range(*self),
        ensures
            r == axis_of(self.lower, a as int) + axis_of(self.upper, a as int),
    {
        self.lower.axis(a) + self.upper.axis(a)
    }
}

pub open spec fn spec_empty_box() -> AABoundingBox {
    AABoundingBox {
        lower: Coord3 { x: i64::MAX, y: i64::MAX, z: i64::MAX },
        upper: Coord3 { x: i64::MIN, y: i64::MIN, z: i64::MIN },
    }
}

/// A type with an axis-aligned bounding box.
pub trait HasAABoundingBox {
    spec fn spec_bounding_box(&self) -> AABoundingBox;

    fn aa_bounding_box_ref(&self) -> (r: &AABoundingBox)
        ensures
            *r == self.spec_bounding_box(),
    ;
}

} // verus!
