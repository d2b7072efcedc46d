//! The multi-number abstraction: one set of names for algebra that runs
//! one-wide or several-wide.
//!
//! The width markers and the operation traits are declared here; the
//! floating-point and SIMD carriers that implement them live with the
//! floating-point engine, which keeps the intersection code written once
//! against these names.

use vstd::prelude::*;

verus! {

/// An element with a square root in its own type.
pub trait Sqrt: Sized {
    fn op_sqrt(&self) -> Self;
}

/// The element type of a three-vector: closed under the arithmetic the
/// vector operations need.
pub trait Vec3OpsElem: Sqrt + Sized {

}

/// A three-vector over some element type: construction and component
/// access; dot, cross and the other derived operations are written once
/// over these.
pub trait Vec3Ops<Elem: Vec3OpsElem + Copy>: Sized + Copy {
    fn create(x: Elem, y: Elem, z: Elem) -> Self;

    fn get_x(&self) -> Elem;

    fn get_y(&self) -> Elem;

    fn get_z(&self) -> Elem;
}

/// Width marker: one lane.
pub struct MultiNum1;

/// Width marker: four lanes.
pub struct MultiNum4;

/// Width marker: eight lanes.
pub struct MultiNum8;

} // verus!
