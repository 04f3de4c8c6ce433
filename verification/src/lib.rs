//! Two-dimensional gravitational n-body simulation with the Barnes-Hut
//! approximation.
//!
//! Space is recursively partitioned into a quadtree; the influence of a
//! distant cluster of bodies is approximated by its aggregate mass and
//! center of mass, gated by an opening-angle threshold.
//!
//! All quantities are fixed-point: positions are integer coordinates,
//! masses are positive integers, and the opening-angle threshold is a
//! rational number.  Every operation is exact integer arithmetic, so each
//! function's result is pinned down completely by its contract.

use vstd::prelude::*;

pub mod body;
pub mod gravity;
pub mod quad_tree;
pub mod rng;
pub mod simulation;
pub mod num;

verus! {

/// Positions (and every coordinate the tree works with) lie in
/// `[-COORD_LIMIT, COORD_LIMIT]`.
pub const COORD_LIMIT: i64 = 1_073_741_824;

/// A body's mass is at least 1, and the sum of all masses inserted into one
/// tree stays at or below this bound, which keeps every intermediate force
/// product inside `i128`.
pub const MASS_LIMIT: u64 = 549_755_813_888;

/// Gravitational constant as the exact rational `G_NUM / G_DEN`
/// (6.6743e-11 in the chosen unit system).
pub const G_NUM: u64 = 66_743;

/// Denominator of the gravitational constant.
pub const G_DEN: u64 = 1_000_000_000_000_000;

/// Numerator and denominator of the opening-angle threshold stay at or
/// below this bound.
pub const THETA_LIMIT: u64 = 1_048_576;

/// Time steps lie in `[1, DT_LIMIT]`.
pub const DT_LIMIT: i64 = 1_048_576;

/// Velocity components saturate at `[-VEL_LIMIT, VEL_LIMIT]`.
pub const VEL_LIMIT: i64 = 1_073_741_824;

/// Acceleration components saturate at `[-ACC_LIMIT, ACC_LIMIT]`.
pub const ACC_LIMIT: i64 = 1_048_576;

} // verus!
