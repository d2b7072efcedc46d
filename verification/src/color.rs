//! Colors at the output boundary.
//!
//! A rendered color is a triple of linear floating-point channels and lives
//! with the floating-point engine; what crosses back into checked territory
//! is its 8-bit quantization, described by this trait.

use vstd::prelude::*;

verus! {

/// A color that can hand out its three 8-bit channel values.
pub trait PixelRgb8Extractable {
    fn pixel_rgb8_values(&self) -> (u8, u8, u8);
}

} // verus!
