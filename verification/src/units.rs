//! Fixed-point units and global magnitude limits.
//!
//! Positions and sizes are measured in micro-pixels: `UNITS_PER_PIXEL`
//! subunits to one pixel.  Velocities are measured in micro-pixels per
//! millisecond, so a speed of `n` pixels per second is `1000 * n` subunits
//! per millisecond, and frame deltas are plain milliseconds.  With these
//! units one movement step is `velocity * dt` with no rounding at all.
//!
//! The limits below bound every quantity the engine works with; they are far
//! beyond anything a real level uses and exist so that every intermediate
//! product provably fits in `i64` (or `i128` where squares are formed).

use vstd::prelude::*;

verus! {

/// Subunits in one pixel.
pub const UNITS_PER_PIXEL: i64 = 1_000_000;

/// Upper bound for viewport dimensions, entity sizes and radii (subunits).
pub const DIM_LIMIT: i64 = 1_000_000_000_000;

/// Upper bound for the magnitude of any position coordinate (subunits).
pub const POS_LIMIT: i64 = 4_000_000_000_000_000;

/// Upper bound for the magnitude of a velocity vector (subunits per
/// millisecond); the well-formedness predicates bound the squared speed by
/// `VEL_LIMIT * VEL_LIMIT`.
pub const VEL_LIMIT: i64 = 10_000_000_000;

/// Upper bound for one frame delta (milliseconds).
pub const DT_LIMIT: i64 = 100_000;

} // verus!
