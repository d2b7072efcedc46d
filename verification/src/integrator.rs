//! Integrator configuration and the path tracer's discrete decisions.

use vstd::prelude::*;

use crate::sampler::SamplerSpec;

verus! {

/// The integrator a scene asks for, with its parameters.
pub enum IntegratorSpec {
    PathTracer {
        max_bounces: u32,
        number_of_samples: u32,
        shade_shadow_rays: Option<bool>,
        sampler_spec: SamplerSpec,
    },
}

/// Relies on rand's thread-local generator; nothing is promised of the
/// value drawn.
pub assume_specification<T>[ rand::random::<T> ]() -> (r: T)
    where
        rand::distributions::Standard: rand::distributions::Distribution<T>,
;

/// Draws the number of bounces for one path: zero when no bounce is
/// allowed, otherwise uniformly below the configured maximum.
pub fn randomize_bounce_count(max_bounces: u32) -> (r: u32)
    ensures
        max_bounces == 0 ==> r == 0,
        max_bounces > 0 ==> r < max_bounces,
{
    if max_bounces == 0 {
        0
    } else {
        rand::random::<u32>() % max_bounces
    }
}

} // verus!
