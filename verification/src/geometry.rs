//! LED placement: the cone-shaped point cloud.
//!
//! Coordinates are integers in thousandths of a scene unit.  The cone has a
//! square sampling base of two units side length centered on the origin and a
//! height of two and a half units.

use crate::rng::random_in;
use vstd::prelude::*;

verus! {

/// Largest coordinate magnitude the engine accepts, in thousandths of a
/// unit; keeps every squared distance and projection inside `i64`.
pub const MAX_COORD: i64 = 1_000_000;

/// Cone height in thousandths of a unit.
pub const CONE_HEIGHT: i64 = 2500;

/// Half the side of the square sampling base, in thousandths of a unit.
pub const CONE_BASE_HALF: i64 = 1000;

/// A point of the scene, coordinates in thousandths of a unit.
#[derive(Clone, Copy, Debug, PartialEq, Eq, Structural)]
pub struct Vec3 {
    pub x: i64,
    pub y: i64,
    pub z: i64,
}

/// The origin.
pub open spec fn origin() -> Vec3 {
    Vec3 { x: 0, y: 0, z: 0 }
}

/// A coordinate triple the engine accepts.
pub open spec fn pos_ok(p: Vec3) -> bool {
    &&& -MAX_COORD <= p.x <= MAX_COORD
    &&& -MAX_COORD <= p.y <= MAX_COORD
    &&& -MAX_COORD <= p.z <= MAX_COORD
}

/// Cone containment: height within range and horizontal radius under the
/// cone surface.  `25 * (x^2 + y^2) < (5000 - 2 * z)^2` is the integer form
/// of "horizontal distance below one unit minus two fifths of the height".
pub open spec fn in_cone(p: Vec3) -> bool {
    &&& -CONE_BASE_HALF <= p.x <= CONE_BASE_HALF
    &&& -CONE_BASE_HALF <= p.y <= CONE_BASE_HALF
    &&& 0 <= p.z < CONE_HEIGHT
    &&& 25 * (p.x * p.x + p.y * p.y) < (5000 - 2 * p.z) * (5000 - 2 * p.z)
}

/// One random point of the cone, by rejection sampling over the bounding
/// box.  After a bounded number of rejected draws the center of the base is
/// taken, so the function always terminates.
pub fn sample_cone_point() -> (p: Vec3)
    ensures
        in_cone(p),
{
    let mut tries: u32 = 0;
    while tries < 64
        decreases 64 - tries,
    {
        let z = random_in(0, CONE_HEIGHT);
        let x = random_in(-CONE_BASE_HALF, CONE_BASE_HALF);
        let y = random_in(-CONE_BASE_HALF, CONE_BASE_HALF);
        proof {
            assert(0 <= x * x <= 1_000_000 && 0 <= y * y <= 1_000_000) by (nonlinear_arith)
                requires -1000 <= x <= 1000 && -1000 <= y <= 1000;
            assert(0 <= (5000 - 2 * z) * (5000 - 2 * z) <= 25_000_000) by (nonlinear_arith)
                requires 0 <= z < 2500;
        }
        if 25 * (x * x + y * y) < (5000 - 2 * z) * (5000 - 2 * z) {
            return Vec3 { x, y, z };
        }
        tries = tries + 1;
    }
    proof {
        assert(25 * (0int * 0 + 0 * 0) < (5000 - 2 * 0int) * (5000 - 2 * 0int)) by (nonlinear_arith);
        assert(in_cone(origin()));
    }
    Vec3 { x: 0, y: 0, z: 0 }
}

/// The fixed 3-D placement of `num_leds` LEDs: independent random points of
/// the cone.
pub fn generate_cone_leds(num_leds: usize) -> (pts: Vec<Vec3>)
    ensures
        pts@.len() == num_leds,
        forall|i: int| 0 <= i < pts@.len() ==> in_cone(#[trigger] pts@[i]),
{
    let mut pts: Vec<Vec3> = Vec::new();
    while pts.len() < num_leds
        invariant
            pts@.len() <= num_leds,
            forall|i: int| 0 <= i < pts@.len() ==> in_cone(#[trigger] pts@[i]),
        decreases num_leds - pts.len(),
    {
        let p = sample_cone_point();
        pts.push(p);
    }
    pts
}

} // verus!
