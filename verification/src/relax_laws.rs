//! How well one relaxation does: a stretched link is halved toward its
//! length, or brought to it if both its ends are free.

use vstd::prelude::*;
use crate::fixed::{
    in_world, is_floor_sqrt, lemma_isqrt, lemma_root_bounded, magnitude, trunc_div,
};
use crate::rope::{
    correction, gravity_step, is_chain_link, lemma_relaxed_times_keeps_locked, points_wf,
    relaxed_links, relaxed_times, Constraint, Point, RopeView,
};
use crate::vector::V2;

verus! {

/// The sum of two non-negative numbers is less than one and a half times
/// any bound on the root of the sum of their squares.
proof fn lemma_sum_under_root(a: int, b: int, k: int)
    requires
        a >= 0,
        b >= 0,
        k >= 0,
        a * a + b * b < k * k,
    ensures
        2 * (a + b) < 3 * k,
{
    assert((a + b) * (a + b) <= 2 * (a * a + b * b)) by (nonlinear_arith);
    assert(2 * (a + b) < 3 * k) by (nonlinear_arith)
        requires
            (a + b) * (a + b) < 2 * (k * k),
            a + b >= 0,
            k >= 0,
    ;
}

/// One coordinate of a displacement after a share `e` of `a * d / n` was
/// taken from it, `d` being no more than `n`: what is left, times `n`, is
/// `a * (n - d)` or less than `n` more.
proof fn lemma_rest_of_coordinate(a: int, d: int, n: int, e: int)
    requires
        a >= 0,
        0 <= d <= n,
        n > 0,
        e == (a * d) / n,
    ensures
        0 <= e <= a,
        a * (n - d) <= (a - e) * n < a * (n - d) + n,
{
    assert(a * d >= 0) by (nonlinear_arith)
        requires
            a >= 0,
            d >= 0,
    ;
    assert(e * n <= a * d < (e + 1) * n && e >= 0) by (nonlinear_arith)
        requires
            e == (a * d) / n,
            n > 0,
            a * d >= 0,
    ;
    assert(a * d <= a * n) by (nonlinear_arith)
        requires
            a >= 0,
            d <= n,
    ;
    assert(e <= a) by (nonlinear_arith)
        requires
            e * n <= a * n,
            n > 0,
    ;
    assert((a - e) * n == a * n - e * n && a * (n - d) == a * n - a * d
        && (e + 1) * n == e * n + n) by (nonlinear_arith);
}

/// A displacement of length `m`, rounded down, of which one end moves half
/// of the excess over `len` toward the other, has a length between half of
/// `m + len` and two ticks more.
pub proof fn lemma_halved_length(a: int, b: int, m: int, len: int)
    requires
        a >= 0,
        b >= 0,
        m >= 1,
        is_floor_sqrt(a * a + b * b, m),
        0 <= len <= m,
    ensures
        ({
            let u = a - (a * (m - len)) / (2 * m);
            let v = b - (b * (m - len)) / (2 * m);
            let h = (m + len) / 2;
            u >= 0 && v >= 0 && h * h <= u * u + v * v < (h + 3) * (h + 3)
        }),
{
    let d = m - len;
    let n = 2 * m;
    let s = m + len;
    let h = s / 2;
    let u = a - (a * d) / n;
    let v = b - (b * d) / n;
    lemma_rest_of_coordinate(a, d, n, (a * d) / n);
    lemma_rest_of_coordinate(b, d, n, (b * d) / n);
    assert(n - d == s);
    let un = u * n;
    let vn = v * n;
    let sa = a * s;
    let sb = b * s;
    assert(sa >= 0 && sb >= 0) by (nonlinear_arith)
        requires
            sa == a * s,
            sb == b * s,
            a >= 0,
            b >= 0,
            s >= 0,
    ;
    let d2 = a * a + b * b;
    let e2 = u * u + v * v;
    assert(un * un + vn * vn == e2 * (n * n)) by (nonlinear_arith)
        requires
            un == u * n,
            vn == v * n,
            e2 == u * u + v * v,
    ;
    assert(sa * sa + sb * sb == (s * s) * d2) by (nonlinear_arith)
        requires
            sa == a * s,
            sb == b * s,
            d2 == a * a + b * b,
    ;
    // From below: the rest is at least the displacement scaled by s / n.
    assert(un * un >= sa * sa && vn * vn >= sb * sb) by (nonlinear_arith)
        requires
            0 <= sa <= un,
            0 <= sb <= vn,
    ;
    assert((s * s) * d2 >= (s * s) * (m * m)) by (nonlinear_arith)
        requires
            d2 >= m * m,
    ;
    assert(4 * e2 >= s * s) by (nonlinear_arith)
        requires
            e2 * (n * n) >= (s * s) * (m * m),
            n == 2 * m,
            m >= 1,
    ;
    assert(h * h <= e2) by (nonlinear_arith)
        requires
            4 * e2 >= s * s,
            0 <= 2 * h <= s,
    ;
    // From above: each coordinate of the rest is less than one tick more.
    lemma_sum_under_root(a, b, m + 1);
    assert(un * un < (sa + n) * (sa + n) && vn * vn < (sb + n) * (sb + n)) by (nonlinear_arith)
        requires
            0 <= un < sa + n,
            0 <= vn < sb + n,
    ;
    assert((sa + n) * (sa + n) + (sb + n) * (sb + n) == sa * sa + sb * sb + 2 * (n * (sa + sb))
        + 2 * (n * n)) by (nonlinear_arith);
    assert(n * (sa + sb) == (s * n) * (a + b)) by (nonlinear_arith)
        requires
            sa == a * s,
            sb == b * s,
    ;
    let k = s * (m + 1) + 3 * m;
    let t = 2 * (a + b);
    let w = m + 1;
    assert((s * s) * d2 <= (s * s) * (w * w)) by (nonlinear_arith)
        requires
            d2 < w * w,
    ;
    assert((s * n) * t == 2 * ((s * n) * (a + b))) by (nonlinear_arith)
        requires
            t == 2 * (a + b),
    ;
    assert((s * n) * t <= (s * n) * (3 * w)) by (nonlinear_arith)
        requires
            t < 3 * w,
            s >= 0,
            n >= 0,
    ;
    assert((s * s) * (w * w) + (s * n) * (3 * w) + 2 * (n * n) <= k * k) by (nonlinear_arith)
        requires
            n == 2 * m,
            k == s * w + 3 * m,
    ;
    assert(k <= n * (h + 3)) by (nonlinear_arith)
        requires
            k == s * (m + 1) + 3 * m,
            n == 2 * m,
            s <= 2 * h + 1,
            s <= 2 * m,
            m >= 1,
            h >= 0,
    ;
    assert(e2 * (n * n) < k * k);
    assert(e2 < (h + 3) * (h + 3)) by (nonlinear_arith)
        requires
            e2 * (n * n) < k * k,
            0 <= k <= n * (h + 3),
            n > 0,
    ;
}

/// A displacement of length `m`, rounded down, of which both ends move half
/// of the excess over `len` toward each other, has a length between `len`
/// and three ticks more.
pub proof fn lemma_restored_length(a: int, b: int, m: int, len: int)
    requires
        a >= 0,
        b >= 0,
        m >= 1,
        is_floor_sqrt(a * a + b * b, m),
        0 <= len <= m,
    ensures
        ({
            let u = a - 2 * ((a * (m - len)) / (2 * m));
            let v = b - 2 * ((b * (m - len)) / (2 * m));
            u >= 0 && v >= 0 && len * len <= u * u + v * v < (len + 4) * (len + 4)
        }),
{
    let d = m - len;
    let n = 2 * m;
    let ea = (a * d) / n;
    let eb = (b * d) / n;
    let u = a - 2 * ea;
    let v = b - 2 * eb;
    lemma_rest_of_coordinate(a, d, n, ea);
    lemma_rest_of_coordinate(b, d, n, eb);
    let um = u * m;
    let vm = v * m;
    let la = a * len;
    let lb = b * len;
    assert(la <= um < la + n && lb <= vm < lb + n && la >= 0 && lb >= 0) by (nonlinear_arith)
        requires
            a * (n - d) <= (a - ea) * n < a * (n - d) + n,
            b * (n - d) <= (b - eb) * n < b * (n - d) + n,
            n == 2 * m,
            d == m - len,
            um == (a - 2 * ea) * m,
            vm == (b - 2 * eb) * m,
            la == a * len,
            lb == b * len,
            a >= 0,
            b >= 0,
            len >= 0,
    ;
    assert(u >= 0 && v >= 0) by (nonlinear_arith)
        requires
            um == u * m,
            vm == v * m,
            um >= 0,
            vm >= 0,
            m >= 1,
    ;
    let d2 = a * a + b * b;
    let e2 = u * u + v * v;
    assert(um * um + vm * vm == e2 * (m * m)) by (nonlinear_arith)
        requires
            um == u * m,
            vm == v * m,
            e2 == u * u + v * v,
    ;
    assert(la * la + lb * lb == (len * len) * d2) by (nonlinear_arith)
        requires
            la == a * len,
            lb == b * len,
            d2 == a * a + b * b,
    ;
    // From below.
    assert(um * um >= la * la && vm * vm >= lb * lb) by (nonlinear_arith)
        requires
            0 <= la <= um,
            0 <= lb <= vm,
    ;
    assert((len * len) * d2 >= (len * len) * (m * m)) by (nonlinear_arith)
        requires
            d2 >= m * m,
    ;
    assert(e2 >= len * len) by (nonlinear_arith)
        requires
            e2 * (m * m) >= (len * len) * (m * m),
            m >= 1,
    ;
    // From above.
    lemma_sum_under_root(a, b, m + 1);
    assert(um * um < (la + n) * (la + n) && vm * vm < (lb + n) * (lb + n)) by (nonlinear_arith)
        requires
            0 <= um < la + n,
            0 <= vm < lb + n,
    ;
    assert((la + n) * (la + n) + (lb + n) * (lb + n) == la * la + lb * lb + 2 * (n * (la + lb))
        + 2 * (n * n)) by (nonlinear_arith);
    let t = 2 * (a + b);
    let w = m + 1;
    assert(2 * (n * (la + lb)) == (len * n) * t) by (nonlinear_arith)
        requires
            la == a * len,
            lb == b * len,
            t == 2 * (a + b),
    ;
    assert((len * len) * d2 <= (len * len) * (w * w)) by (nonlinear_arith)
        requires
            d2 < w * w,
    ;
    assert((len * n) * t <= (len * n) * (3 * w)) by (nonlinear_arith)
        requires
            t < 3 * w,
            len >= 0,
            n >= 0,
    ;
    let k = len * w + 3 * m;
    assert((len * len) * (w * w) + (len * n) * (3 * w) + 2 * (n * n) <= k * k) by (nonlinear_arith)
        requires
            n == 2 * m,
            k == len * w + 3 * m,
    ;
    assert(k <= m * (len + 4)) by (nonlinear_arith)
        requires
            k == len * w + 3 * m,
            w == m + 1,
            len <= m,
    ;
    assert(e2 * (m * m) < k * k);
    assert(e2 < (len + 4) * (len + 4)) by (nonlinear_arith)
        requires
            e2 * (m * m) < k * k,
            0 <= k <= m * (len + 4),
            m > 0,
    ;
}

/// The truncated quotient of a product by a non-negative factor has the
/// sign of the other factor, and the magnitude of the quotient of the
/// magnitudes.
pub proof fn lemma_trunc_div_signed(x: int, d: int, n: int)
    requires
        d >= 0,
        n > 0,
    ensures
        x >= 0 ==> trunc_div(x * d, n) == (magnitude(x) * d) / n,
        x < 0 ==> trunc_div(x * d, n) == -((magnitude(x) * d) / n),
{
    if x >= 0 {
        assert(x * d >= 0) by (nonlinear_arith)
            requires
                x >= 0,
                d >= 0,
        ;
    } else {
        assert(x * d <= 0 && -(x * d) == (-x) * d) by (nonlinear_arith)
            requires
                x < 0,
                d >= 0,
        ;
        if x * d == 0 {
            assert((-x) * d == 0);
        }
    }
}

/// What a relaxation does to the displacement between the ends of a
/// stretched link: each coordinate shrinks in magnitude by the share of the
/// correction, once for each end that moves, and the moving ends stay
/// between where the two ends were.
proof fn lemma_correction_shrinks(a: V2, b: V2, len: int)
    requires
        a.in_world(),
        b.in_world(),
        0 <= len <= a.dist(b),
        a.dist(b) >= 1,
    ensures
        ({
            let c = correction(a, b, len);
            let m = a.dist(b);
            let ex = (magnitude(a.x - b.x) * (m - len)) / (2 * m);
            let ey = (magnitude(a.y - b.y) * (m - len)) / (2 * m);
            &&& is_floor_sqrt(
                magnitude(a.x - b.x) * magnitude(a.x - b.x) + magnitude(a.y - b.y) * magnitude(
                    a.y - b.y,
                ),
                m,
            )
            &&& magnitude(c.0) == ex
            &&& magnitude(c.1) == ey
            &&& magnitude(a.x - b.x - c.0) == magnitude(a.x - b.x) - ex
            &&& magnitude(a.y - b.y - c.1) == magnitude(a.y - b.y) - ey
            &&& magnitude(a.x - b.x - 2 * c.0) == magnitude(a.x - b.x) - 2 * ex
            &&& magnitude(a.y - b.y - 2 * c.1) == magnitude(a.y - b.y) - 2 * ey
            &&& in_world(a.x - c.0)
            &&& in_world(a.y - c.1)
            &&& in_world(b.x + c.0)
            &&& in_world(b.y + c.1)
        }),
{
    let dx = a.x - b.x;
    let dy = a.y - b.y;
    let m = a.dist(b);
    let d = m - len;
    let n = 2 * m;
    let ax = magnitude(dx);
    let ay = magnitude(dy);
    assert(a.dist_sq(b) == ax * ax + ay * ay && a.dist_sq(b) >= 0) by (nonlinear_arith)
        requires
            a.dist_sq(b) == dx * dx + dy * dy,
            ax == magnitude(dx),
            ay == magnitude(dy),
    ;
    lemma_isqrt(a.dist_sq(b));
    lemma_trunc_div_signed(dx, d, n);
    lemma_trunc_div_signed(dy, d, n);
    lemma_rest_of_coordinate(ax, d, n, (ax * d) / n);
    lemma_rest_of_coordinate(ay, d, n, (ay * d) / n);
    let ex = (ax * d) / n;
    let ey = (ay * d) / n;
    // A share is at most half of its coordinate, so twice a share fits too.
    assert(2 * ex <= ax) by (nonlinear_arith)
        requires
            ax * (n - d) <= (ax - ex) * n,
            n == 2 * m,
            d == m - len,
            len >= 0,
            m >= 1,
            ax >= 0,
            ex >= 0,
    ;
    assert(2 * ey <= ay) by (nonlinear_arith)
        requires
            ay * (n - d) <= (ay - ey) * n,
            n == 2 * m,
            d == m - len,
            len >= 0,
            m >= 1,
            ay >= 0,
            ey >= 0,
    ;
}

/// Relaxing a stretched link of which one end is locked halves the excess,
/// to within two ticks: afterwards the ends are apart by the link's length
/// and at least half of the excess, and at most two ticks more.
pub proof fn lemma_relax_halves(points: Seq<Point>, c: Constraint)
    requires
        c.wf(points.len()),
        points_wf(points),
        points[c.point_a as int].locked != points[c.point_b as int].locked,
        c.excess(points) >= 0,
    ensures
        c.excess(points) / 2 <= c.excess(c.relaxed(points)) <= c.excess(points) / 2 + 2,
{
    let a = points[c.point_a as int];
    let b = points[c.point_b as int];
    assert(a.wf() && b.wf());
    let m = a.pos.dist(b.pos);
    let len = c.length as int;
    let after = c.relaxed(points);
    if m == 0 {
        assert(a.shifted(0, 0) == a);
        assert(b.shifted(0, 0) == b);
        assert(after =~= points);
    } else {
        lemma_correction_shrinks(a.pos, b.pos, len);
        let a2 = after[c.point_a as int];
        let b2 = after[c.point_b as int];
        let ax = magnitude(a.pos.x - b.pos.x);
        let ay = magnitude(a.pos.y - b.pos.y);
        let u = ax - (ax * (m - len)) / (2 * m);
        let v = ay - (ay * (m - len)) / (2 * m);
        lemma_halved_length(ax, ay, m, len);
        assert(magnitude(a2.pos.x - b2.pos.x) == u);
        assert(magnitude(a2.pos.y - b2.pos.y) == v);
        assert(a2.pos.dist_sq(b2.pos) == u * u + v * v) by (nonlinear_arith)
            requires
                a2.pos.dist_sq(b2.pos) == (a2.pos.x - b2.pos.x) * (a2.pos.x - b2.pos.x) + (
                a2.pos.y - b2.pos.y) * (a2.pos.y - b2.pos.y),
                magnitude(a2.pos.x - b2.pos.x) == u,
                magnitude(a2.pos.y - b2.pos.y) == v,
        ;
        let h = (m + len) / 2;
        lemma_isqrt(u * u + v * v);
        lemma_root_bounded(h, u * u + v * v, a2.pos.dist(b2.pos) + 1);
        lemma_root_bounded(a2.pos.dist(b2.pos), u * u + v * v, h + 3);
    }
}

/// Relaxing a stretched link of which both ends are free brings its ends
/// to the link's length, to within three ticks.
pub proof fn lemma_relax_restores(points: Seq<Point>, c: Constraint)
    requires
        c.wf(points.len()),
        points_wf(points),
        !points[c.point_a as int].locked,
        !points[c.point_b as int].locked,
        c.excess(points) >= 0,
    ensures
        0 <= c.excess(c.relaxed(points)) <= 3,
{
    let a = points[c.point_a as int];
    let b = points[c.point_b as int];
    assert(a.wf() && b.wf());
    let m = a.pos.dist(b.pos);
    let len = c.length as int;
    let after = c.relaxed(points);
    if m == 0 {
        assert(a.shifted(0, 0) == a);
        assert(b.shifted(0, 0) == b);
        assert(after =~= points);
    } else {
        lemma_correction_shrinks(a.pos, b.pos, len);
        let a2 = after[c.point_a as int];
        let b2 = after[c.point_b as int];
        let ax = magnitude(a.pos.x - b.pos.x);
        let ay = magnitude(a.pos.y - b.pos.y);
        let u = ax - 2 * ((ax * (m - len)) / (2 * m));
        let v = ay - 2 * ((ay * (m - len)) / (2 * m));
        lemma_restored_length(ax, ay, m, len);
        assert(magnitude(a2.pos.x - b2.pos.x) == u);
        assert(magnitude(a2.pos.y - b2.pos.y) == v);
        assert(a2.pos.dist_sq(b2.pos) == u * u + v * v) by (nonlinear_arith)
            requires
                a2.pos.dist_sq(b2.pos) == (a2.pos.x - b2.pos.x) * (a2.pos.x - b2.pos.x) + (
                a2.pos.y - b2.pos.y) * (a2.pos.y - b2.pos.y),
                magnitude(a2.pos.x - b2.pos.x) == u,
                magnitude(a2.pos.y - b2.pos.y) == v,
        ;
        lemma_isqrt(u * u + v * v);
        lemma_root_bounded(len, u * u + v * v, a2.pos.dist(b2.pos) + 1);
        lemma_root_bounded(a2.pos.dist(b2.pos), u * u + v * v, len + 4);
    }
}

/// `x` halved `t` times over, rounding down each time.
pub open spec fn halved(x: int, t: nat) -> int
    decreases t,
{
    if t == 0 {
        x
    } else {
        halved(x, (t - 1) as nat) / 2
    }
}

/// A stretched rope of one link comes back to its length pass by pass:
/// after `t` passes the link is still no shorter than its length, and its
/// excess is at most the excess it began with, halved `t` times, and four
/// ticks.
pub proof fn lemma_single_link_settles(rope: RopeView, t: nat)
    requires
        rope.wf(),
        rope.len() == 1,
        !rope.points[1].locked,
        rope.constraints[0].excess(rope.points) >= 0,
    ensures
        0 <= rope.constraints[0].excess(relaxed_times(rope.points, rope.constraints, t)) <= halved(
            rope.constraints[0].excess(rope.points),
            t,
        ) + 4,
    decreases t,
{
    let c = rope.constraints[0];
    assert(is_chain_link(c, 0));
    if t > 0 {
        lemma_single_link_settles(rope, (t - 1) as nat);
        let before = relaxed_times(rope.points, rope.constraints, (t - 1) as nat);
        lemma_relaxed_times_keeps_locked(rope.points, rope.constraints, (t - 1) as nat);
        assert(before[0].locked == rope.points[0].locked);
        assert(before[1].locked == rope.points[1].locked);
        assert(relaxed_links(before, rope.constraints, 1) == c.relaxed(
            relaxed_links(before, rope.constraints, 0),
        ));
        lemma_relax_halves(before, c);
    }
}

/// A tick brings a rope of one link back to its length: if the link is
/// stretched once its free end has been advanced, the passes that follow
/// leave it no shorter than its length, with at most the excess it had,
/// halved once in each pass, and four ticks.
pub proof fn lemma_single_link_tick(
    rope: RopeView,
    gravity: V2,
    delta_time: u32,
    iterations: nat,
)
    requires
        rope.wf(),
        rope.len() == 1,
        !rope.points[1].locked,
        rope.constraints[0].excess(rope.integrated(gravity_step(gravity, delta_time)).points) >= 0,
    ensures
        0 <= rope.constraints[0].excess(rope.simulated(gravity, delta_time, iterations).points)
            <= halved(
            rope.constraints[0].excess(rope.integrated(gravity_step(gravity, delta_time)).points),
            iterations,
        ) + 4,
{
    let moved = rope.integrated(gravity_step(gravity, delta_time));
    assert forall|j: int| 0 <= j < moved.points.len() implies (#[trigger] moved.points[j]).wf()
        && moved.points[j].locked == rope.points[j].locked by {
        assert(rope.points[j].wf());
    }
    assert(moved.points[0] == rope.points[0]);
    lemma_single_link_settles(moved, iterations);
}

/// Fifteen halvings divide by 32768.
pub proof fn lemma_halved_fifteen(x: int)
    requires
        x >= 0,
    ensures
        halved(x, 15) == x / 32768,
{
    reveal_with_fuel(halved, 16);
}

} // verus!
