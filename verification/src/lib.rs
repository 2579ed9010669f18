//! Converts an externally parsed 3D scene (node hierarchy, meshes, skeletal
//! animation channels) into a reactive entity/property graph and bakes sparse
//! keyframe tracks into uniformly sampled curves, behind a cached,
//! deduplicating asset-loading subsystem.
//!
//! Times are integer microseconds, durations integer milliseconds, and scalar
//! values fixed-point with [`UNIT`] units per 1.0; the float-facing glue
//! around an actual importer lives outside the verified core.

use vstd::prelude::*;

pub mod asset;
pub mod curve;
pub mod doc3d;
pub mod keys;
pub mod pon;
pub mod scene;
pub mod system;

verus! {

/// Fixed-point scale: the representation of the scalar value 1.0.
pub const UNIT: i64 = 1000;

} // verus!
