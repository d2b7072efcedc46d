//! The checked core of a Monte-Carlo path-traced renderer.
//!
//! The renderer's hard algorithmic center is here, stated and proved over
//! exact arithmetic: the bounding-volume hierarchy (built with an exact
//! surface-area-heuristic splitter over integer-summarized geometry, laid
//! out as one flat preorder array, and traversed iteratively by
//! visit-or-skip), the samplers (the Halton stream as exact fractions, the
//! reseedable number-sequence cycle), mesh assembly with every vertex index
//! checked, material-name resolution, and the tiling of the output image.
//!
//! The floating-point shading mathematics — ray/box slab tests,
//! Möller–Trumbore triangle intersection, BRDFs, warpers, the camera and
//! the path-tracing loop itself — cannot be stated here and lives in the
//! unchecked engine that drives this library; the types and splits below
//! are arranged so that every decision that can be made exact is made, and
//! proved, on this side of that line.

mod aabb;
mod bvh_accelerator;
mod codable;
mod color;
mod config_loader;
mod integrator;
mod intersectable;
mod math;
mod meshutils;
mod multi_math;
mod probability;
mod renderer;
mod sampler;
mod scene_builder;
mod splitter;

pub use aabb::{AABoundingBox, Coord3, HasAABoundingBox, axis_of, box_in_range, contains_box,
    coord_in_range, spec_box_union, spec_empty_box, COORD_LIMIT};
pub use bvh_accelerator::{ensure_idx_exists, get_aa_bounding_box, leaves_in_span,
    lemma_leaves_partition, lemma_node_box_bounds, lemma_subtree_hi, lemma_subtree_wf_children,
    lemma_traversal_partitions, lemma_traversal_ranges_in_bounds, lemma_walk_all_hits, node_box,
    node_size, object_wf, ranges_consecutive, spec_enclosing_box, spec_walk, subtree_hi,
    subtree_wf, BVHAccelerator, BVHTree, BoundedObject};
pub use codable::CodableWrapper;
pub use color::PixelRgb8Extractable;
pub use config_loader::ConfigError;
pub use integrator::{randomize_bounce_count, IntegratorSpec};
pub use intersectable::{IntersectionOrderKind, Triangle};
pub use math::{clamp_i32, AccurateOps, HasElemWiseExtrema, HasUnit};
pub use meshutils::{mesh_indices_valid, MeshInfo, MeshObject};
pub use multi_math::{MultiNum1, MultiNum4, MultiNum8, Sqrt, Vec3Ops, Vec3OpsElem};
pub use probability::{CosineHemisphereWarper, UniformCircleWarper, UniformHemisphereWarper,
    UniformSphereWarper};
pub use renderer::{ImageBlock, ImageBlockIterator, RenderSettings};
pub use sampler::{get_index_from_fraction, halton_den, halton_fraction, halton_num, lemma_halton_den_bound,
    lemma_halton_proper, HaltonBase, HaltonBaseMustBeGreaterThanOne, HaltonSampler,
    NumberSequenceSampler, PseudorandomSampler, SamplerSpec};
pub use scene_builder::{find_shader, polygon_is_pn_triangle, polygons_to_triangles,
    spec_triangle_of, Polygon, SceneError};
pub use splitter::{area_sum, is_candidate, lemma_area_sum_bounds, lemma_area_sum_split,
    rational_wf, sah_beats_baseline, sah_better, sah_constants_wf, sah_step, split_weight,
    BVHSplitter, HasSurfaceArea, MedianIndexSplitter, Rational, SAHConstants,
    SAHSubdivideGuessSplitter, AREA_LIMIT, COST_LIMIT, COUNT_LIMIT};
