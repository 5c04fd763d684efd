//! Points and displacements of the plane, in ticks.

use vstd::prelude::*;
use crate::fixed::{
    clamp_to_world, clamp_world, in_world, isqrt, lemma_isqrt, lemma_root_bounded,
    lemma_square_bounded, sqrt_floor, UNIT, WORLD_LIMIT,
};

verus! {

/// A point of the plane, or a displacement between two of them.
#[derive(Clone, Copy, Debug, PartialEq, Eq, Structural)]
pub struct V2 {
    pub x: i64,
    pub y: i64,
}

impl V2 {
    /// Whether both coordinates lie in the world.
    pub open spec fn in_world(self) -> bool {
        in_world(self.x as int) && in_world(self.y as int)
    }

    /// Squared Euclidean distance to `other`.
    pub open spec fn dist_sq(self, other: V2) -> int {
        (self.x - other.x) * (self.x - other.x) + (self.y - other.y) * (self.y - other.y)
    }

    /// Euclidean distance to `other`, rounded down to a whole tick.
    pub open spec fn dist(self, other: V2) -> int {
        isqrt(self.dist_sq(other))
    }

    /// The vector with the given coordinates, in whole world units.
    pub open spec fn at(x: int, y: int) -> V2 {
        V2 { x: (x * UNIT) as i64, y: (y * UNIT) as i64 }
    }

    /// The vector with the given coordinates, in ticks.
    pub fn new(x: i64, y: i64) -> (v: V2)
        ensures
            v == (V2 { x, y }),
    {
        V2 { x, y }
    }

    /// The vector with the given coordinates, in whole world units.
    pub fn from_units(x: i32, y: i32) -> (v: V2)
        ensures
            v == V2::at(x as int, y as int),
            v.x == x * UNIT,
            v.y == y * UNIT,
            v.in_world(),
    {
        V2 { x: (x as i64) * UNIT, y: (y as i64) * UNIT }
    }

    /// The vector of the world nearest to the given coordinates.
    pub fn clamped(x: i64, y: i64) -> (v: V2)
        ensures
            v.x == clamp_world(x as int),
            v.y == clamp_world(y as int),
            v.in_world(),
    {
        V2 { x: clamp_to_world(x as i128), y: clamp_to_world(y as i128) }
    }

    /// Tells whether the vector lies in the world.
    pub fn is_in_world(&self) -> (b: bool)
        ensures
            b == self.in_world(),
    {
        -WORLD_LIMIT <= self.x && self.x <= WORLD_LIMIT && -WORLD_LIMIT <= self.y && self.y
            <= WORLD_LIMIT
    }

    /// Squared distance between two points of the world.
    pub fn distance_squared(&self, other: &V2) -> (d: u128)
        requires
            self.in_world(),
            other.in_world(),
        ensures
            d == self.dist_sq(*other),
            d <= 8 * WORLD_LIMIT * WORLD_LIMIT,
    {
        let dx: i128 = self.x as i128 - other.x as i128;
        let dy: i128 = self.y as i128 - other.y as i128;
        proof {
            lemma_square_bounded(dx as int, 2 * WORLD_LIMIT);
            lemma_square_bounded(dy as int, 2 * WORLD_LIMIT);
        }
        (dx * dx + dy * dy) as u128
    }

    /// Distance between two points of the world, rounded down.
    pub fn distance(&self, other: &V2) -> (d: i64)
        requires
            self.in_world(),
            other.in_world(),
        ensures
            d == self.dist(*other),
            0 <= d <= 3 * WORLD_LIMIT,
    {
        let sq = self.distance_squared(other);
        let r = sqrt_floor(sq);
        proof {
            lemma_isqrt(sq as int);
            lemma_root_bounded(r as int, sq as int, 3 * WORLD_LIMIT);
        }
        r as i64
    }
}

/// Whether all points lie in the world.
pub open spec fn all_in_world(points: Seq<V2>) -> bool {
    forall|i: int| 0 <= i < points.len() ==> (#[trigger] points[i]).in_world()
}

/// Two points of the world are less than three times its limit apart.
pub proof fn lemma_dist_bounded(a: V2, b: V2)
    requires
        a.in_world(),
        b.in_world(),
    ensures
        0 <= a.dist_sq(b) <= 8 * WORLD_LIMIT * WORLD_LIMIT,
        0 <= a.dist(b) <= 3 * WORLD_LIMIT,
{
    let w = WORLD_LIMIT as int;
    lemma_square_bounded(a.x - b.x, 2 * w);
    lemma_square_bounded(a.y - b.y, 2 * w);
    assert((2 * w) * (2 * w) + (2 * w) * (2 * w) == 8 * w * w && 8 * w * w < (3 * w) * (3 * w))
        by (nonlinear_arith)
        requires
            w > 0,
    ;
    lemma_isqrt(a.dist_sq(b));
    lemma_root_bounded(a.dist(b), a.dist_sq(b), 3 * w);
}

} // verus!
