//! The warpers: bijections from the unit square onto sampling domains.
//!
//! Each type below names one warp target.  The maps themselves and their
//! densities are irreducibly floating-point, so they live with the
//! floating-point engine that wraps this library; these types are the
//! domain vocabulary that the sampler and material code share.

use vstd::prelude::*;

verus! {

/// Uniform density on the unit disk.
pub struct UniformCircleWarper;

/// Uniform density on the upper (+Y) unit hemisphere.
pub struct UniformHemisphereWarper;

/// Uniform density on the unit sphere.
pub struct UniformSphereWarper;

/// Density proportional to the cosine of the polar angle on the upper
/// hemisphere.
pub struct CosineHemisphereWarper;

} // verus!
