//! Engine for an addressable LED array simulator.
//!
//! The library models LED geometry, the per-frame effect engine and the
//! control-plane mutations on the shared animation state.  All lengths are
//! carried as integer fixed-point values: a coordinate is stored in
//! thousandths of a scene unit, so the whole engine is exact integer
//! arithmetic.

use vstd::prelude::*;

pub mod color;
pub mod effects;
pub mod geometry;
pub(crate) mod rng;
pub mod state;
pub mod sync;
pub mod trig;
