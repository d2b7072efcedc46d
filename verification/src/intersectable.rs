//! The intersection-side view of scene geometry.
//!
//! A triangle here is generic over its vertex payload: the verified mesh
//! assembly fetches positions and normals by index, whatever their numeric
//! carrier, and the floating-point engine instantiates the payload with its
//! own vector type.

use vstd::prelude::*;

verus! {

/// Whether a query wants the closest hit or merely any hit.
pub enum IntersectionOrderKind {
    FirstIntersection,
    AnyIntersection,
}

/// One triangle, as assembled from a mesh: three vertex positions, three
/// vertex normals, and the index of its material in the scene's table.
#[derive(Clone, Copy, Debug, PartialEq, Eq, Structural)]
pub struct Triangle<V> {
    pub positions: [V; 3],
    pub normals: [V; 3],
    pub shader: usize,
}

} // verus!
