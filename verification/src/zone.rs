//! Circular zones: the targets the rope's tail must pass through and the
//! regions in which no link may be placed.

use vstd::prelude::*;
use crate::fixed::{
    div_toward_zero, in_world, isqrt, isqrt_ceil, lemma_ceil_sqrt_positive,
    lemma_component_bounded, lemma_isqrt, lemma_product_bounded, lemma_square_bounded,
    lemma_trunc_div_scaled, magnitude, sqrt_floor, trunc_div, UNIT, WORLD_LIMIT,
};
use crate::vector::V2;

verus! {

/// A disc, boundary included.
#[derive(Clone, Copy, Debug, PartialEq, Eq, Structural)]
pub struct Circle {
    pub pos: V2,
    pub radius: i64,
}

/// A disc to be touched by the tail, and the width of the ring around it
/// that is closed to placement.
#[derive(Clone, Copy, Debug, PartialEq, Eq, Structural)]
pub struct Target {
    pub zone: Circle,
    pub closed: i64,
}

impl Circle {
    /// A zone has a positive radius and lies in the world as a whole.
    pub open spec fn wf(self) -> bool {
        &&& self.radius > 0
        &&& in_world(self.pos.x - self.radius)
        &&& in_world(self.pos.x + self.radius)
        &&& in_world(self.pos.y - self.radius)
        &&& in_world(self.pos.y + self.radius)
    }

    /// Whether `pos` lies in the disc.
    pub open spec fn covers(self, pos: V2) -> bool {
        self.pos.dist_sq(pos) <= self.radius * self.radius
    }

    /// The disc with the same center and `extra` more radius.
    pub open spec fn extension(self, extra: i64) -> Circle {
        Circle { pos: self.pos, radius: (self.radius + extra) as i64 }
    }

    /// The displacement from the center to the point at which the ray
    /// through `pos` leaves the disc: that of `pos`, scaled by the radius
    /// over its own length rounded up, each coordinate rounded toward zero.
    /// The center itself has no ray: its displacement points to the right.
    pub open spec fn reach(self, pos: V2) -> (int, int) {
        let dx = pos.x - self.pos.x;
        let dy = pos.y - self.pos.y;
        if dx == 0 && dy == 0 {
            (self.radius as int, 0)
        } else {
            let n = isqrt_ceil(dx * dx + dy * dy);
            (trunc_div(dx * self.radius, n), trunc_div(dy * self.radius, n))
        }
    }

    /// The point at which the ray from the center through `pos` leaves the
    /// disc, rounded toward the center.
    pub open spec fn projection(self, pos: V2) -> V2 {
        V2 {
            x: (self.pos.x + self.reach(pos).0) as i64,
            y: (self.pos.y + self.reach(pos).1) as i64,
        }
    }

    /// The disc with the given center and radius, in whole world units.
    pub open spec fn at(x: int, y: int, radius: int) -> Circle {
        Circle { pos: V2::at(x, y), radius: (radius * UNIT) as i64 }
    }

    /// The zone with the given center and radius, in whole world units.
    pub fn from_units(x: i32, y: i32, radius: i32) -> (c: Circle)
        ensures
            c == Circle::at(x as int, y as int, radius as int),
            c.radius == radius * UNIT,
    {
        Circle { pos: V2::from_units(x, y), radius: (radius as i64) * UNIT }
    }

    /// Tells whether the zone is well formed.
    pub fn is_wf(&self) -> (b: bool)
        ensures
            b == self.wf(),
    {
        let r: i128 = self.radius as i128;
        let x: i128 = self.pos.x as i128;
        let y: i128 = self.pos.y as i128;
        let w: i128 = WORLD_LIMIT as i128;
        r > 0 && -w <= x - r && x + r <= w && -w <= y - r && y + r <= w
    }

    /// The zone widened by `extra_radius`.
    pub fn extend(&self, extra_radius: i64) -> (c: Circle)
        requires
            i64::MIN <= self.radius + extra_radius <= i64::MAX,
        ensures
            c == self.extension(extra_radius),
    {
        Circle { pos: self.pos, radius: self.radius + extra_radius }
    }

    /// Whether `pos` lies in the zone, by comparing squared distances.
    pub fn contains(&self, pos: V2) -> (b: bool)
        requires
            self.wf(),
            pos.in_world(),
        ensures
            b == self.covers(pos),
    {
        let r: i128 = self.radius as i128;
        proof {
            lemma_square_bounded(r as int, WORLD_LIMIT as int);
        }
        self.pos.distance_squared(&pos) <= (r * r) as u128
    }

    /// The point of the boundary toward `pos`: where a placement that was
    /// dragged into the zone is held, so that it slides along the boundary.
    pub fn project(&self, pos: V2) -> (q: V2)
        requires
            self.wf(),
            pos.in_world(),
        ensures
            q == self.projection(pos),
            q.in_world(),
            self.covers(q),
    {
        proof {
            lemma_projection_covered(*self, pos);
        }
        let dx: i128 = pos.x as i128 - self.pos.x as i128;
        let dy: i128 = pos.y as i128 - self.pos.y as i128;
        let r: i128 = self.radius as i128;
        if dx == 0 && dy == 0 {
            return V2 { x: self.pos.x + self.radius, y: self.pos.y };
        }
        let sq = pos.distance_squared(&self.pos);
        let floor = sqrt_floor(sq);
        proof {
            assert(sq > 0) by (nonlinear_arith)
                requires
                    sq == dx * dx + dy * dy,
                    dx != 0 || dy != 0,
            ;
            lemma_isqrt(sq as int);
            lemma_ceil_sqrt_positive(sq as int);
        }
        let n: i128 = if (floor as u128) * (floor as u128) == sq {
            floor as i128
        } else {
            floor as i128 + 1
        };
        proof {
            lemma_product_bounded(dx as int, 2 * WORLD_LIMIT, r as int, WORLD_LIMIT as int);
            lemma_product_bounded(dy as int, 2 * WORLD_LIMIT, r as int, WORLD_LIMIT as int);
        }
        let qx = div_toward_zero(dx * r, n);
        let qy = div_toward_zero(dy * r, n);
        V2 { x: (self.pos.x as i128 + qx) as i64, y: (self.pos.y as i128 + qy) as i64 }
    }
}

impl Target {
    /// The target with the given center, radius and closed ring, in whole
    /// world units.
    pub open spec fn at(x: int, y: int, radius: int, closed: int) -> Target {
        Target { zone: Circle::at(x, y, radius), closed: (closed * UNIT) as i64 }
    }

    /// The target with the given center, radius and closed ring, in whole
    /// world units.
    pub fn from_units(x: i32, y: i32, radius: i32, closed: i32) -> (t: Target)
        ensures
            t == Target::at(x as int, y as int, radius as int, closed as int),
    {
        Target { zone: Circle::from_units(x, y, radius), closed: (closed as i64) * UNIT }
    }

    /// A target's own zone is well formed, and so is the closed zone around it.
    pub open spec fn wf(self) -> bool {
        &&& self.zone.wf()
        &&& 0 <= self.closed <= WORLD_LIMIT
        &&& self.zone.extension(self.closed).wf()
    }

    /// Tells whether the target is well formed.
    pub fn is_wf(&self) -> (b: bool)
        ensures
            b == self.wf(),
    {
        if !self.zone.is_wf() || self.closed < 0 || self.closed > WORLD_LIMIT {
            return false;
        }
        let wide = self.zone.extend(self.closed);
        wide.is_wf()
    }

    /// The zone in which no link may be placed: the target and the ring
    /// around it.
    pub fn closed_zone(&self) -> (c: Circle)
        requires
            self.wf(),
        ensures
            c == self.zone.extension(self.closed),
            c.wf(),
    {
        self.zone.extend(self.closed)
    }
}

/// Scaling a displacement by `r / n`, where `n` is at least its length,
/// and rounding each coordinate toward zero gives a displacement no longer
/// than `r`.
pub proof fn lemma_scaled_inside(dx: int, dy: int, r: int, n: int)
    requires
        r >= 0,
        n > 0,
        n * n >= dx * dx + dy * dy,
    ensures
        trunc_div(dx * r, n) * trunc_div(dx * r, n) + trunc_div(dy * r, n) * trunc_div(
            dy * r,
            n,
        ) <= r * r,
{
    let qx = trunc_div(dx * r, n);
    let qy = trunc_div(dy * r, n);
    lemma_trunc_div_scaled(dx * r, n);
    lemma_trunc_div_scaled(dy * r, n);
    let s = qx * qx + qy * qy;
    let d2 = dx * dx + dy * dy;
    let n2 = n * n;
    let r2 = r * r;
    assert((qx * n) * (qx * n) + (qy * n) * (qy * n) == s * n2) by (nonlinear_arith)
        requires
            s == qx * qx + qy * qy,
            n2 == n * n,
    ;
    assert((dx * r) * (dx * r) + (dy * r) * (dy * r) == d2 * r2) by (nonlinear_arith)
        requires
            d2 == dx * dx + dy * dy,
            r2 == r * r,
    ;
    assert(n2 > 0) by (nonlinear_arith)
        requires
            n > 0,
            n2 == n * n,
    ;
    assert(s <= r2) by (nonlinear_arith)
        requires
            s * n2 <= d2 * r2,
            d2 <= n2,
            0 <= r2,
            0 < n2,
    ;
}

/// Scaling a displacement by `r / n`, where `n` is its length rounded up,
/// and rounding each coordinate toward zero gives a displacement that falls
/// short of `r` by less than `g + 2`, where `g` is `r / n` rounded up: two
/// ticks for the rounding of the coordinates, and `g` for that of `n`.
pub proof fn lemma_scaled_near(dx: int, dy: int, r: int, n: int, g: int)
    requires
        n > 0,
        n * n >= dx * dx + dy * dy,
        (n - 1) * (n - 1) < dx * dx + dy * dy,
        g * n >= r,
        r >= g + 2,
        g >= 0,
    ensures
        trunc_div(dx * r, n) * trunc_div(dx * r, n) + trunc_div(dy * r, n) * trunc_div(
            dy * r,
            n,
        ) >= (r - g - 2) * (r - g - 2),
{
    let qx = trunc_div(dx * r, n);
    let qy = trunc_div(dy * r, n);
    lemma_trunc_div_scaled(dx * r, n);
    lemma_trunc_div_scaled(dy * r, n);
    // One tick further out along each axis, the displacement is longer than
    // the scaled one.
    let px = magnitude(qx) + 1;
    let py = magnitude(qy) + 1;
    let ux = magnitude(dx * r);
    let uy = magnitude(dy * r);
    assert(px * n > ux >= 0) by (nonlinear_arith)
        requires
            px == magnitude(qx) + 1,
            ux == magnitude(dx * r),
            dx * r >= 0 ==> dx * r < (qx + 1) * n && qx * n >= 0,
            dx * r < 0 ==> dx * r > (qx - 1) * n && qx * n <= 0,
            n > 0,
    ;
    assert(py * n > uy >= 0) by (nonlinear_arith)
        requires
            py == magnitude(qy) + 1,
            uy == magnitude(dy * r),
            dy * r >= 0 ==> dy * r < (qy + 1) * n && qy * n >= 0,
            dy * r < 0 ==> dy * r > (qy - 1) * n && qy * n <= 0,
            n > 0,
    ;
    let y = px * px + py * py;
    let d2 = dx * dx + dy * dy;
    let n2 = n * n;
    let r2 = r * r;
    assert((px * n) * (px * n) > ux * ux) by (nonlinear_arith)
        requires
            px * n > ux >= 0,
    ;
    assert((py * n) * (py * n) > uy * uy) by (nonlinear_arith)
        requires
            py * n > uy >= 0,
    ;
    assert(ux * ux + uy * uy == d2 * r2) by (nonlinear_arith)
        requires
            ux == magnitude(dx * r),
            uy == magnitude(dy * r),
            d2 == dx * dx + dy * dy,
            r2 == r * r,
    ;
    assert((px * n) * (px * n) + (py * n) * (py * n) == y * n2) by (nonlinear_arith)
        requires
            y == px * px + py * py,
            n2 == n * n,
    ;
    // The scaled displacement is at least `r - g` long.
    let s = r - g - 2;
    assert(d2 * r2 >= ((s + 2) * (s + 2)) * n2) by (nonlinear_arith)
        requires
            d2 >= (n - 1) * (n - 1),
            r2 == r * r,
            n2 == n * n,
            g * n >= r,
            s + 2 == r - g,
            s >= 0,
            n >= 1,
            r >= 0,
    ;
    assert(y > (s + 2) * (s + 2)) by (nonlinear_arith)
        requires
            y * n2 > ((s + 2) * (s + 2)) * n2,
            n2 > 0,
    ;
    // Taking the tick back along each axis costs less than two ticks of
    // length.
    let x = qx * qx + qy * qy;
    let t = magnitude(qx) + magnitude(qy);
    assert(y == x + 2 * t + 2 && t * t <= 2 * x && t >= 0) by (nonlinear_arith)
        requires
            y == px * px + py * py,
            px == magnitude(qx) + 1,
            py == magnitude(qy) + 1,
            x == qx * qx + qy * qy,
            t == magnitude(qx) + magnitude(qy),
    ;
    if x < s * s {
        assert(t < 2 * s) by (nonlinear_arith)
            requires
                t * t <= 2 * x,
                x < s * s,
                t >= 0,
                s >= 0,
        ;
        assert(x + 2 * t + 2 < (s + 2) * (s + 2)) by (nonlinear_arith)
            requires
                x < s * s,
                t < 2 * s,
        ;
        assert(false);
    }
}

/// The projection of any point of the world lies in the zone, and in the
/// world: it is no further from the center than the radius, on either axis
/// and as the crow flies.
pub proof fn lemma_projection_covered(zone: Circle, pos: V2)
    requires
        zone.wf(),
        pos.in_world(),
    ensures
        -zone.radius <= zone.reach(pos).0 <= zone.radius,
        -zone.radius <= zone.reach(pos).1 <= zone.radius,
        zone.pos.dist_sq(zone.projection(pos)) == zone.reach(pos).0 * zone.reach(pos).0
            + zone.reach(pos).1 * zone.reach(pos).1,
        zone.covers(zone.projection(pos)),
        zone.projection(pos).in_world(),
{
    let dx = pos.x - zone.pos.x;
    let dy = pos.y - zone.pos.y;
    let r = zone.radius as int;
    let (ox, oy) = zone.reach(pos);
    if dx == 0 && dy == 0 {
        assert(ox * ox + oy * oy <= r * r) by (nonlinear_arith)
            requires
                ox == r,
                oy == 0,
        ;
    } else {
        assert(dx * dx + dy * dy > 0) by (nonlinear_arith)
            requires
                dx != 0 || dy != 0,
        ;
        lemma_ceil_sqrt_positive(dx * dx + dy * dy);
        lemma_scaled_inside(dx, dy, r, isqrt_ceil(dx * dx + dy * dy));
    }
    lemma_component_bounded(ox, oy, r);
    lemma_component_bounded(oy, ox, r);
    let q = zone.projection(pos);
    assert(zone.pos.dist_sq(q) == ox * ox + oy * oy) by (nonlinear_arith)
        requires
            q.x - zone.pos.x == ox,
            q.y - zone.pos.y == oy,
            zone.pos.dist_sq(q) == (zone.pos.x - q.x) * (zone.pos.x - q.x) + (zone.pos.y - q.y)
                * (zone.pos.y - q.y),
    ;
}

/// How far the projection of a point may fall short of the boundary, beyond
/// the two ticks that rounding its coordinates costs: the radius over the
/// point's distance from the center, both rounded up.
pub open spec fn shortfall(zone: Circle, pos: V2) -> int {
    let n = isqrt_ceil(pos.dist_sq(zone.pos));
    (zone.radius + n - 1) / n
}

/// Projecting any point but the center gives a point of the zone whose
/// distance from the center, in whole ticks, is the radius or less, by two
/// ticks and the shortfall at most.
pub proof fn lemma_projection_near_boundary(zone: Circle, pos: V2)
    requires
        zone.wf(),
        pos.in_world(),
        pos != zone.pos,
    ensures
        zone.covers(zone.projection(pos)),
        shortfall(zone, pos) >= 1,
        zone.radius - 2 - shortfall(zone, pos) <= zone.pos.dist(zone.projection(pos))
            <= zone.radius,
{
    let dx = pos.x - zone.pos.x;
    let dy = pos.y - zone.pos.y;
    let r = zone.radius as int;
    lemma_projection_covered(zone, pos);
    let d = zone.pos.dist_sq(zone.projection(pos));
    assert(d >= 0) by (nonlinear_arith)
        requires
            d == zone.reach(pos).0 * zone.reach(pos).0 + zone.reach(pos).1 * zone.reach(pos).1,
    ;
    lemma_isqrt(d);
    let f = isqrt(d);
    assert(f <= r) by (nonlinear_arith)
        requires
            f * f <= d,
            d <= r * r,
            f >= 0,
            r > 0,
    ;
    assert(pos.dist_sq(zone.pos) == dx * dx + dy * dy && dx * dx + dy * dy > 0)
        by (nonlinear_arith)
        requires
            dx == pos.x - zone.pos.x,
            dy == pos.y - zone.pos.y,
            pos.dist_sq(zone.pos) == (pos.x - zone.pos.x) * (pos.x - zone.pos.x) + (pos.y
                - zone.pos.y) * (pos.y - zone.pos.y),
            dx != 0 || dy != 0,
    ;
    let n = isqrt_ceil(dx * dx + dy * dy);
    lemma_ceil_sqrt_positive(dx * dx + dy * dy);
    let g = (r + n - 1) / n;
    assert(g * n >= r && g >= 1) by (nonlinear_arith)
        requires
            g == (r + n - 1) / n,
            n > 0,
            r > 0,
    ;
    if r >= g + 2 {
        lemma_scaled_near(dx, dy, r, n, g);
        assert(f >= r - g - 2) by (nonlinear_arith)
            requires
                (f + 1) * (f + 1) > d,
                d >= (r - g - 2) * (r - g - 2),
                f >= 0,
                r >= g + 2,
        ;
    }
}

/// Projecting a point that lies outside a zone gives a point of the zone
/// whose distance from the center, in whole ticks, is the radius or at most
/// three ticks less.
pub proof fn lemma_projection_on_boundary(zone: Circle, pos: V2)
    requires
        zone.wf(),
        pos.in_world(),
        !zone.covers(pos),
    ensures
        zone.covers(zone.projection(pos)),
        zone.radius - 3 <= zone.pos.dist(zone.projection(pos)) <= zone.radius,
{
    let r = zone.radius as int;
    let far = pos.dist_sq(zone.pos);
    assert(far == zone.pos.dist_sq(pos) && far > 0) by (nonlinear_arith)
        requires
            far == (pos.x - zone.pos.x) * (pos.x - zone.pos.x) + (pos.y - zone.pos.y) * (pos.y
                - zone.pos.y),
            zone.pos.dist_sq(pos) == (zone.pos.x - pos.x) * (zone.pos.x - pos.x) + (zone.pos.y
                - pos.y) * (zone.pos.y - pos.y),
            zone.pos.dist_sq(pos) > r * r,
    ;
    assert(pos != zone.pos) by (nonlinear_arith)
        requires
            far > 0,
            far == (pos.x - zone.pos.x) * (pos.x - zone.pos.x) + (pos.y - zone.pos.y) * (pos.y
                - zone.pos.y),
    ;
    lemma_projection_near_boundary(zone, pos);
    // A point outside is further from the center than the radius, so the
    // shortfall is a single tick.
    let n = isqrt_ceil(far);
    lemma_ceil_sqrt_positive(far);
    assert(n > r) by (nonlinear_arith)
        requires
            n * n >= far,
            far > r * r,
            n > 0,
            r > 0,
    ;
    assert((r + n - 1) / n == 1) by (nonlinear_arith)
        requires
            n > r,
            r > 0,
    ;
}

} // verus!
