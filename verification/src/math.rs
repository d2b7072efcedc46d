//! Scalar helpers and the small traits that the geometric types share.

use vstd::prelude::*;

verus! {

/// Clamps a signed pixel count to an unsigned one: negatives become zero.
pub fn clamp_i32(x: i32) -> (r: u32)
    ensures
        x >= 0 ==> r == x,
        x < 0 ==> r == 0,
{
    if x < 0 {
        0
    } else {
        x as u32
    }
}

/// Conversion into the normalized form of a direction-like value.
pub trait HasUnit<T> {
    fn unit(&self) -> T;
}

/// Componentwise minimum and maximum.
pub trait HasElemWiseExtrema: Sized {
    spec fn spec_min_elem_wise(&self, other: &Self) -> Self;

    spec fn spec_max_elem_wise(&self, other: &Self) -> Self;

    fn min_elem_wise(&self, other: &Self) -> (r: Self)
        ensures
            r == self.spec_min_elem_wise(other),
    ;

    fn max_elem_wise(&self, other: &Self) -> (r: Self)
        ensures
            r == self.spec_max_elem_wise(other),
    ;
}

/// Subtraction carried out at a precision that avoids cancellation error.
pub trait AccurateOps: Sized {
    fn accurate_subtraction(&self, other: &Self) -> Self;
}

} // verus!
