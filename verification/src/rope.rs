//! The rope: point masses held in one arena, the links between them, and
//! the integrator and solver that move them.

use vstd::prelude::*;
use crate::fixed::{
    clamp_to_world, clamp_world, div_toward_zero, lemma_product_bounded, lemma_trunc_div_bounded,
    trunc_div, WORLD_LIMIT,
};
use crate::vector::V2;

verus! {

/// Half a world unit: the reach of a jiggle along each axis.
pub const HALF_UNIT: i64 = 32768;

/// Microseconds in a second, squared: the divisor that turns an acceleration
/// per second squared and a step in microseconds into a displacement.
pub const MICROS_SQUARED: i128 = 1_000_000_000_000;

/// A point mass. Its velocity is implied by the step from `prev_pos` to `pos`.
#[derive(Clone, Copy, Debug, PartialEq, Eq, Structural)]
pub struct Point {
    pub pos: V2,
    pub prev_pos: V2,
    pub locked: bool,
}

/// A rigid link between two points of an arena.
#[derive(Clone, Copy, Debug, PartialEq, Eq, Structural)]
pub struct Constraint {
    pub point_a: usize,
    pub point_b: usize,
    pub length: i64,
}

impl Point {
    /// Both positions lie in the world.
    pub open spec fn wf(self) -> bool {
        self.pos.in_world() && self.prev_pos.in_world()
    }

    /// The free point at rest at `pos`.
    pub open spec fn free(pos: V2) -> Point {
        Point { pos, prev_pos: pos, locked: false }
    }

    /// The locked point at `pos`.
    pub open spec fn fixed(pos: V2) -> Point {
        Point { pos, prev_pos: pos, locked: true }
    }

    /// The point one Verlet step later: it keeps its velocity, gains `accel`,
    /// and stops at the edge of the world. A locked point stays as it is.
    pub open spec fn stepped(self, accel: V2) -> Point {
        if self.locked {
            self
        } else {
            Point {
                pos: V2 {
                    x: clamp_world(self.pos.x + (self.pos.x - self.prev_pos.x) + accel.x) as i64,
                    y: clamp_world(self.pos.y + (self.pos.y - self.prev_pos.y) + accel.y) as i64,
                },
                prev_pos: self.pos,
                locked: self.locked,
            }
        }
    }

    /// The point moved by `(dx, dy)`, stopping at the edge of the world.
    pub open spec fn shifted(self, dx: int, dy: int) -> Point {
        Point {
            pos: V2 {
                x: clamp_world(self.pos.x + dx) as i64,
                y: clamp_world(self.pos.y + dy) as i64,
            },
            prev_pos: self.prev_pos,
            locked: self.locked,
        }
    }

    /// A free point at rest.
    pub fn new(pos: V2) -> (p: Point)
        ensures
            p == Point::free(pos),
    {
        Point { pos, prev_pos: pos, locked: false }
    }

    /// A point that no step and no link moves.
    pub fn locked(pos: V2) -> (p: Point)
        ensures
            p == Point::fixed(pos),
    {
        let mut p = Point::new(pos);
        p.locked = true;
        p
    }

    /// The current position.
    pub fn pos(&self) -> (v: V2)
        ensures
            v == self.pos,
    {
        self.pos
    }

    /// Advances the point by one Verlet step under `accel`, the acceleration
    /// already multiplied by the square of the time step.
    pub fn step(&mut self, accel: V2)
        ensures
            *final(self) == old(self).stepped(accel),
            old(self).wf() ==> final(self).wf(),
    {
        if self.locked {
            return ;
        }
        let prev_pos = self.pos;
        let x: i128 = self.pos.x as i128 + (self.pos.x as i128 - self.prev_pos.x as i128)
            + accel.x as i128;
        let y: i128 = self.pos.y as i128 + (self.pos.y as i128 - self.prev_pos.y as i128)
            + accel.y as i128;
        self.pos = V2 { x: clamp_to_world(x), y: clamp_to_world(y) };
        self.prev_pos = prev_pos;
    }
}

/// The displacement that brings two points half of the way back to the
/// distance `length`: along the line from `b` to `a`, half of the excess of
/// their distance over `length`, each coordinate rounded toward zero. Two
/// points at the same place have no line between them, and none is moved.
pub open spec fn correction(a: V2, b: V2, length: int) -> (int, int) {
    let dx = a.x - b.x;
    let dy = a.y - b.y;
    let m = a.dist(b);
    if m == 0 {
        (0, 0)
    } else {
        (trunc_div(dx * (m - length), 2 * m), trunc_div(dy * (m - length), 2 * m))
    }
}

/// All points of the arena lie in the world.
pub open spec fn points_wf(points: Seq<Point>) -> bool {
    forall|j: int| 0 <= j < points.len() ==> (#[trigger] points[j]).wf()
}

impl Constraint {
    /// The link joins two different points of an arena of `n` points, and its
    /// length is one that two points of the world can be apart.
    pub open spec fn wf(self, n: nat) -> bool {
        &&& self.point_a < n
        &&& self.point_b < n
        &&& self.point_a != self.point_b
        &&& 0 <= self.length <= 3 * WORLD_LIMIT
    }

    /// By how much the ends of the link are further apart than it is long.
    pub open spec fn excess(self, points: Seq<Point>) -> int {
        points[self.point_a as int].pos.dist(points[self.point_b as int].pos) - self.length
    }

    /// The arena after one relaxation of this link: each end that is not
    /// locked moves by the correction, `a` against it and `b` along it.
    pub open spec fn relaxed(self, points: Seq<Point>) -> Seq<Point> {
        let a = points[self.point_a as int];
        let b = points[self.point_b as int];
        let c = correction(a.pos, b.pos, self.length as int);
        let a2 = if a.locked {
            a
        } else {
            a.shifted(-c.0, -c.1)
        };
        let b2 = if b.locked {
            b
        } else {
            b.shifted(c.0, c.1)
        };
        points.update(self.point_a as int, a2).update(self.point_b as int, b2)
    }

    /// Moves the two ends of the link toward the distance `length`.
    pub fn relax(&self, points: &mut Vec<Point>)
        requires
            self.wf(old(points)@.len()),
            points_wf(old(points)@),
        ensures
            final(points)@ == self.relaxed(old(points)@),
            points_wf(final(points)@),
    {
        let a = points[self.point_a];
        let b = points[self.point_b];
        assert(a.wf() && b.wf());
        let m = a.pos.distance(&b.pos);
        if m == 0 {
            assert(points@ =~= self.relaxed(points@));
            return ;
        }
        let dx: i128 = a.pos.x as i128 - b.pos.x as i128;
        let dy: i128 = a.pos.y as i128 - b.pos.y as i128;
        let delta: i128 = m as i128 - self.length as i128;
        let twice: i128 = 2 * (m as i128);
        proof {
            lemma_product_bounded(dx as int, 2 * WORLD_LIMIT, delta as int, 3 * WORLD_LIMIT);
            lemma_product_bounded(dy as int, 2 * WORLD_LIMIT, delta as int, 3 * WORLD_LIMIT);
        }
        let cx = div_toward_zero(dx * delta, twice);
        let cy = div_toward_zero(dy * delta, twice);
        proof {
            lemma_trunc_div_bounded(dx * delta, twice as int, 6 * WORLD_LIMIT * WORLD_LIMIT);
            lemma_trunc_div_bounded(dy * delta, twice as int, 6 * WORLD_LIMIT * WORLD_LIMIT);
        }
        if !a.locked {
            let moved = Point {
                pos: V2 {
                    x: clamp_to_world(a.pos.x as i128 - cx),
                    y: clamp_to_world(a.pos.y as i128 - cy),
                },
                prev_pos: a.prev_pos,
                locked: a.locked,
            };
            points.set(self.point_a, moved);
        }
        if !b.locked {
            let moved = Point {
                pos: V2 {
                    x: clamp_to_world(b.pos.x as i128 + cx),
                    y: clamp_to_world(b.pos.y as i128 + cy),
                },
                prev_pos: b.prev_pos,
                locked: b.locked,
            };
            points.set(self.point_b, moved);
        }
        assert(points@ =~= self.relaxed(old(points)@));
    }
}

/// A chain of points: a locked root and the links appended to it, each from
/// the end of the one before.
#[derive(Debug)]
pub struct Rope {
    root: V2,
    points: Vec<Point>,
    constraints: Vec<Constraint>,
}

/// What a rope is made of: its root, its points from the root to the tail,
/// and its links in the same order.
pub struct RopeView {
    pub root: V2,
    pub points: Seq<Point>,
    pub constraints: Seq<Constraint>,
}

/// Whether `c` can be the `i`-th link of a chain: it joins point `i` to the
/// point after it.
pub open spec fn is_chain_link(c: Constraint, i: int) -> bool {
    c.point_a == i && c.point_b == i + 1 && 0 <= c.length <= 3 * WORLD_LIMIT
}

/// The displacement that the acceleration `gravity`, in ticks per second
/// squared, adds during a step of `delta_time` microseconds: their product
/// by the square of the step, rounded toward zero and kept in the world.
pub open spec fn gravity_step(gravity: V2, delta_time: u32) -> V2 {
    V2 {
        x: clamp_world(trunc_div(gravity.x * (delta_time * delta_time), MICROS_SQUARED as int)) as i64,
        y: clamp_world(trunc_div(gravity.y * (delta_time * delta_time), MICROS_SQUARED as int)) as i64,
    }
}

/// The arena after the first `k` links were relaxed, one after the other.
pub open spec fn relaxed_links(points: Seq<Point>, constraints: Seq<Constraint>, k: nat) -> Seq<
    Point,
>
    decreases k,
{
    if k == 0 {
        points
    } else {
        constraints[k - 1].relaxed(relaxed_links(points, constraints, (k - 1) as nat))
    }
}

/// The arena after `t` passes over all the links.
pub open spec fn relaxed_times(points: Seq<Point>, constraints: Seq<Constraint>, t: nat) -> Seq<
    Point,
>
    decreases t,
{
    if t == 0 {
        points
    } else {
        relaxed_links(
            relaxed_times(points, constraints, (t - 1) as nat),
            constraints,
            constraints.len(),
        )
    }
}

impl RopeView {
    /// The points outnumber the links by one, the first point is the locked
    /// root, link `i` joins point `i` to point `i + 1`, and everything lies
    /// in the world.
    pub open spec fn wf(self) -> bool {
        &&& self.points.len() == self.constraints.len() + 1
        &&& self.points.len() <= usize::MAX
        &&& self.points[0] == Point::fixed(self.root)
        &&& points_wf(self.points)
        &&& forall|i: int|
            0 <= i < self.constraints.len() ==> is_chain_link(#[trigger] self.constraints[i], i)
    }

    /// Number of links.
    pub open spec fn len(self) -> nat {
        self.constraints.len()
    }

    /// Position of the last point: the free end, or the root of a rope
    /// without links.
    pub open spec fn tail(self) -> V2 {
        self.points.last().pos
    }

    /// The rope that is only a root.
    pub open spec fn empty(root: V2) -> RopeView {
        RopeView { root, points: seq![Point::fixed(root)], constraints: Seq::empty() }
    }

    /// The rope with one more link, from the tail to a new free point at
    /// `point`, as long as the two are apart now.
    pub open spec fn added(self, point: V2) -> RopeView {
        RopeView {
            root: self.root,
            points: self.points.push(Point::free(point)),
            constraints: self.constraints.push(
                Constraint {
                    point_a: (self.points.len() - 1) as usize,
                    point_b: self.points.len() as usize,
                    length: self.tail().dist(point) as i64,
                },
            ),
        }
    }

    /// The rope laid from `root` through `links`, one link to each.
    pub open spec fn through(root: V2, links: Seq<V2>) -> RopeView
        decreases links.len(),
    {
        if links.len() == 0 {
            RopeView::empty(root)
        } else {
            RopeView::through(root, links.drop_last()).added(links.last())
        }
    }

    /// The rope with every point but the root moved by its sample, read as
    /// an offset of up to half a unit either way along each axis.
    pub open spec fn jiggled(self, samples: Seq<(u16, u16)>) -> RopeView {
        RopeView {
            root: self.root,
            points: Seq::new(
                self.points.len(),
                |j: int|
                    if j == 0 {
                        self.points[0]
                    } else {
                        self.points[j].shifted(
                            samples[j - 1].0 - HALF_UNIT,
                            samples[j - 1].1 - HALF_UNIT,
                        )
                    },
            ),
            constraints: self.constraints,
        }
    }

    /// The rope after every link has advanced both its ends by one step: a
    /// point between two links advances twice, the two ends of the chain once.
    pub open spec fn integrated(self, accel: V2) -> RopeView {
        RopeView {
            root: self.root,
            points: Seq::new(
                self.points.len(),
                |j: int|
                    if self.constraints.len() == 0 {
                        self.points[j]
                    } else if j == 0 || j == self.constraints.len() {
                        self.points[j].stepped(accel)
                    } else {
                        self.points[j].stepped(accel).stepped(accel)
                    },
            ),
            constraints: self.constraints,
        }
    }

    /// The rope one tick later: integrated under gravity, then relaxed
    /// `iterations` times over.
    pub open spec fn simulated(self, gravity: V2, delta_time: u32, iterations: nat) -> RopeView {
        let moved = self.integrated(gravity_step(gravity, delta_time));
        RopeView {
            root: self.root,
            points: relaxed_times(moved.points, self.constraints, iterations),
            constraints: self.constraints,
        }
    }

    /// Where the links end: the positions of the points after the root.
    pub open spec fn ends(self) -> Seq<V2> {
        Seq::new(self.len(), |i: int| self.points[i + 1].pos)
    }

    /// The rope laid anew through the same positions: at rest, with every
    /// link as long as its ends are apart.
    pub open spec fn rebuilt(self) -> RopeView {
        RopeView::through(self.root, self.ends())
    }

    /// Whether the rope is in equilibrium: every point at rest and every link
    /// as long as its ends are apart.
    pub open spec fn at_rest(self) -> bool {
        &&& forall|j: int|
            0 <= j < self.points.len() ==> (#[trigger] self.points[j]).prev_pos
                == self.points[j].pos
        &&& forall|i: int|
            0 <= i < self.constraints.len() ==> (#[trigger] self.constraints[i]).length
                == self.points[i].pos.dist(self.points[i + 1].pos)
    }

    /// Whether the rope is as `added` leaves it: in equilibrium, with no
    /// point locked but the root.
    pub open spec fn settled(self) -> bool {
        &&& self.at_rest()
        &&& forall|j: int| 1 <= j < self.points.len() ==> !(#[trigger] self.points[j]).locked
    }

    /// The rope after one tick for each entry of `delta_times`, in order.
    pub open spec fn simulated_many(
        self,
        gravity: V2,
        delta_times: Seq<u32>,
        iterations: nat,
    ) -> RopeView
        decreases delta_times.len(),
    {
        if delta_times.len() == 0 {
            self
        } else {
            self.simulated_many(gravity, delta_times.drop_last(), iterations).simulated(
                gravity,
                delta_times.last(),
                iterations,
            )
        }
    }
}

impl View for Rope {
    type V = RopeView;

    closed spec fn view(&self) -> RopeView {
        RopeView { root: self.root, points: self.points@, constraints: self.constraints@ }
    }
}

impl Rope {
    /// The invariant of a rope.
    pub open spec fn wf(&self) -> bool {
        self@.wf()
    }

    /// A rope that is only a root.
    pub fn new(root: V2) -> (rope: Rope)
        requires
            root.in_world(),
        ensures
            rope.wf(),
            rope@ == RopeView::empty(root),
    {
        let mut points: Vec<Point> = Vec::new();
        points.push(Point::locked(root));
        let rope = Rope { root, points, constraints: Vec::new() };
        assert(rope@.points =~= seq![Point::fixed(root)]);
        assert(rope@.constraints =~= Seq::empty());
        rope
    }

    /// The root.
    pub fn root(&self) -> (v: V2)
        ensures
            v == self@.root,
    {
        self.root
    }

    /// Number of links.
    pub fn len(&self) -> (n: usize)
        ensures
            n == self@.len(),
    {
        self.constraints.len()
    }

    /// The points, from the root to the tail.
    pub fn points(&self) -> (points: &Vec<Point>)
        ensures
            points@ == self@.points,
    {
        &self.points
    }

    /// The links, from the root to the tail.
    pub fn constraints(&self) -> (constraints: &Vec<Constraint>)
        ensures
            constraints@ == self@.constraints,
    {
        &self.constraints
    }

    /// Appends a link from the tail to a new free point at `point`. The
    /// link's length is the distance between the two at this moment.
    pub fn add(&mut self, point: V2)
        requires
            old(self).wf(),
            point.in_world(),
        ensures
            final(self).wf(),
            final(self)@ == old(self)@.added(point),
    {
        let n = self.points.len();
        let tail = self.points[n - 1];
        assert(tail.wf());
        let length = tail.pos.distance(&point);
        self.points.push(Point::new(point));
        self.constraints.push(Constraint { point_a: n - 1, point_b: n, length });
        assert(is_chain_link(self.constraints@[n - 1], n - 1));
        assert(self.points@.len() == self.points.len());
    }

    /// Moves the far end of every link by its sample, to break the symmetry
    /// of a rope laid out on a line. A sample is a pair of uniform draws; the
    /// draw `s` moves the point by `s - 32768` ticks, less than half a unit
    /// either way. Positions before the move are kept as the previous ones.
    pub fn jiggle(&mut self, samples: &Vec<(u16, u16)>)
        requires
            old(self).wf(),
            samples@.len() == old(self)@.len(),
        ensures
            final(self).wf(),
            final(self)@ == old(self)@.jiggled(samples@),
            final(self)@.root == old(self)@.root,
            final(self)@.constraints == old(self)@.constraints,
            forall|j: int|
                0 <= j < old(self)@.points.len() ==> {
                    let p = old(self)@.points[j];
                    let q = #[trigger] final(self)@.points[j];
                    &&& -HALF_UNIT <= q.pos.x - p.pos.x <= HALF_UNIT
                    &&& -HALF_UNIT <= q.pos.y - p.pos.y <= HALF_UNIT
                    &&& q.prev_pos == p.prev_pos
                    &&& q.locked == p.locked
                },
    {
        proof {
            crate::rope_laws::lemma_jiggled_nearby(old(self)@, samples@);
        }
        let n = self.constraints.len();
        let mut i: usize = 0;
        while i < n
            invariant
                0 <= i <= n,
                n == self.constraints@.len(),
                samples@.len() == n,
                self.root == old(self).root,
                self.constraints@ == old(self).constraints@,
                self.points@.len() == old(self).points@.len(),
                old(self).wf(),
                forall|j: int|
                    0 <= j < self.points@.len() ==> #[trigger] self.points@[j] == if 1 <= j <= i {
                        old(self).points@[j].shifted(
                            samples@[j - 1].0 - HALF_UNIT,
                            samples@[j - 1].1 - HALF_UNIT,
                        )
                    } else {
                        old(self).points@[j]
                    },
            decreases n - i,
        {
            let link = self.constraints[i];
            assert(is_chain_link(link, i as int));
            let sample = samples[i];
            let p = self.points[link.point_b];
            assert(old(self).points@[i + 1].wf());
            let moved = Point {
                pos: V2 {
                    x: clamp_to_world(p.pos.x as i128 + (sample.0 as i128 - HALF_UNIT as i128)),
                    y: clamp_to_world(p.pos.y as i128 + (sample.1 as i128 - HALF_UNIT as i128)),
                },
                prev_pos: p.prev_pos,
                locked: p.locked,
            };
            self.points.set(link.point_b, moved);
            i = i + 1;
        }
        assert(self@.points =~= old(self)@.jiggled(samples@).points);
    }

    /// Advances the rope by one tick of `delta_time` microseconds under
    /// `gravity`, in ticks per second squared: every link advances both its
    /// ends by one Verlet step, then all links are relaxed in order,
    /// `num_iterations` times over.
    pub fn simulate(&mut self, gravity: V2, delta_time: u32, num_iterations: u32)
        requires
            old(self).wf(),
        ensures
            final(self).wf(),
            final(self)@ == old(self)@.simulated(gravity, delta_time, num_iterations as nat),
            final(self)@.root == old(self)@.root,
            final(self)@.constraints == old(self)@.constraints,
            forall|j: int|
                0 <= j < old(self)@.points.len() && old(self)@.points[j].locked
                    ==> #[trigger] final(self)@.points[j] == old(self)@.points[j],
    {
        proof {
            crate::rope_laws::lemma_simulated_keeps_locked(
                old(self)@,
                gravity,
                delta_time,
                num_iterations as nat,
            );
        }
        let accel = accel_for(gravity, delta_time);
        self.integrate(accel);
        let ghost moved = self@;
        let mut t: u32 = 0;
        while t < num_iterations
            invariant
                0 <= t <= num_iterations,
                moved.wf(),
                self.root == moved.root,
                self.constraints@ == moved.constraints,
                self.wf(),
                self.points@ == relaxed_times(moved.points, moved.constraints, t as nat),
            decreases num_iterations - t,
        {
            self.relax_all();
            t = t + 1;
        }
    }

    /// One Verlet step on both ends of every link, in order.
    fn integrate(&mut self, accel: V2)
        requires
            old(self).wf(),
        ensures
            final(self).wf(),
            final(self)@ == old(self)@.integrated(accel),
    {
        let n = self.constraints.len();
        let mut i: usize = 0;
        while i < n
            invariant
                0 <= i <= n,
                n == self.constraints@.len(),
                self.root == old(self).root,
                self.constraints@ == old(self).constraints@,
                self.points@.len() == old(self).points@.len(),
                old(self).wf(),
                points_wf(self.points@),
                forall|j: int|
                    0 <= j < self.points@.len() ==> #[trigger] self.points@[j] == if i == 0 {
                        old(self).points@[j]
                    } else if j == 0 {
                        old(self).points@[j].stepped(accel)
                    } else if j < i {
                        old(self).points@[j].stepped(accel).stepped(accel)
                    } else if j == i {
                        old(self).points@[j].stepped(accel)
                    } else {
                        old(self).points@[j]
                    },
            decreases n - i,
        {
            let link = self.constraints[i];
            assert(is_chain_link(link, i as int));
            let mut a = self.points[link.point_a];
            assert(self.points@[i as int].wf());
            a.step(accel);
            self.points.set(link.point_a, a);
            let mut b = self.points[link.point_b];
            assert(self.points@[i + 1].wf());
            b.step(accel);
            self.points.set(link.point_b, b);
            assert(old(self).points@[0].stepped(accel).stepped(accel) == old(self).points@[0].stepped(accel));
            i = i + 1;
        }
        assert(self@.points =~= old(self)@.integrated(accel).points);
    }

    /// One relaxation of every link, in order.
    fn relax_all(&mut self)
        requires
            old(self).wf(),
        ensures
            final(self).wf(),
            final(self).root == old(self).root,
            final(self).constraints@ == old(self).constraints@,
            final(self).points@ == relaxed_links(
                old(self).points@,
                old(self).constraints@,
                old(self).constraints@.len(),
            ),
    {
        let n = self.constraints.len();
        let mut i: usize = 0;
        while i < n
            invariant
                0 <= i <= n,
                n == self.constraints@.len(),
                self.root == old(self).root,
                self.constraints@ == old(self).constraints@,
                self.points@.len() == old(self).points@.len(),
                old(self).wf(),
                points_wf(self.points@),
                self.points@ == relaxed_links(old(self).points@, old(self).constraints@, i as nat),
            decreases n - i,
        {
            let link = self.constraints[i];
            assert(is_chain_link(link, i as int));
            link.relax(&mut self.points);
            i = i + 1;
        }
        proof {
            assert forall|k: int| 0 <= k < old(self).constraints@.len() implies (
            #[trigger] old(self).constraints@[k]).wf(old(self).points@.len()) by {
                assert(is_chain_link(old(self).constraints@[k], k));
            }
            lemma_relaxed_links_keeps_locked(old(self).points@, old(self).constraints@, n as nat);
        }
    }

    /// An independent rope through the same positions: at rest, and with
    /// every link as long as its ends are apart now.
    pub fn clone(&self) -> (rope: Rope)
        requires
            self.wf(),
        ensures
            rope.wf(),
            rope@ == self@.rebuilt(),
            rope@.root == self@.root,
            rope@.len() == self@.len(),
            forall|j: int|
                0 <= j < self@.points.len() ==> (#[trigger] rope@.points[j]).pos
                    == self@.points[j].pos,
            self@.settled() ==> rope@ == self@,
    {
        let mut rope = Rope::new(self.root);
        let n = self.constraints.len();
        let mut i: usize = 0;
        while i < n
            invariant
                0 <= i <= n,
                n == self.constraints@.len(),
                self.wf(),
                rope.wf(),
                rope@ == RopeView::through(self.root, self@.ends().take(i as int)),
            decreases n - i,
        {
            let link = self.constraints[i];
            assert(is_chain_link(link, i as int));
            let p = self.points[link.point_b];
            assert(self.points@[i + 1].wf());
            rope.add(p.pos);
            assert(self@.ends().take(i + 1).drop_last() =~= self@.ends().take(i as int));
            i = i + 1;
        }
        proof {
            assert(self@.ends().take(n as int) =~= self@.ends());
            crate::rope_laws::lemma_rebuilt_same_positions(self@);
            if self@.settled() {
                crate::rope_laws::lemma_settled_rebuilt(self@);
            }
        }
        rope
    }

    /// Position of the free end: the far end of the last link, or the root
    /// if there is no link yet.
    pub fn tail(&self) -> (v: V2)
        requires
            self.wf(),
        ensures
            v == self@.tail(),
            v.in_world(),
            self@.len() == 0 ==> v == self@.root,
            self@.len() > 0 ==> v == self@.points[self@.constraints.last().point_b as int].pos,
    {
        let v = self.points[self.points.len() - 1].pos;
        proof {
            assert(self.points@[self.points@.len() - 1].wf());
            if self@.len() > 0 {
                assert(is_chain_link(self@.constraints.last(), self@.len() - 1));
            }
        }
        v
    }
}


/// The step that gravity adds to a free point during `delta_time`
/// microseconds.
pub fn accel_for(gravity: V2, delta_time: u32) -> (accel: V2)
    ensures
        accel == gravity_step(gravity, delta_time),
        accel.in_world(),
{
    let dt: i128 = delta_time as i128;
    assert(0 <= dt * dt <= 0xFFFF_FFFE_0000_0001) by (nonlinear_arith)
        requires
            0 <= dt <= 0xFFFF_FFFF,
    ;
    let dt2: i128 = dt * dt;
    proof {
        lemma_product_bounded(
            gravity.x as int,
            0x8000_0000_0000_0000,
            dt2 as int,
            0xFFFF_FFFE_0000_0001,
        );
        lemma_product_bounded(
            gravity.y as int,
            0x8000_0000_0000_0000,
            dt2 as int,
            0xFFFF_FFFE_0000_0001,
        );
    }
    let x = div_toward_zero(gravity.x as i128 * dt2, MICROS_SQUARED);
    let y = div_toward_zero(gravity.y as i128 * dt2, MICROS_SQUARED);
    V2 { x: clamp_to_world(x), y: clamp_to_world(y) }
}

/// Relaxing a link leaves the arena's size, its locked points and the world
/// bound as they were.
pub proof fn lemma_relaxed_keeps_locked(points: Seq<Point>, c: Constraint)
    requires
        c.wf(points.len()),
        points_wf(points),
    ensures
        c.relaxed(points).len() == points.len(),
        points_wf(c.relaxed(points)),
        forall|j: int|
            0 <= j < points.len() && points[j].locked ==> #[trigger] c.relaxed(points)[j]
                == points[j],
        forall|j: int|
            0 <= j < points.len() ==> (#[trigger] c.relaxed(points)[j]).locked
                == points[j].locked,
{
    assert(points[c.point_a as int].wf());
    assert(points[c.point_b as int].wf());
}

/// Relaxing the links of a chain, any number of them, leaves the arena's
/// size, its locked points and the world bound as they were.
pub proof fn lemma_relaxed_links_keeps_locked(
    points: Seq<Point>,
    constraints: Seq<Constraint>,
    k: nat,
)
    requires
        k <= constraints.len(),
        forall|i: int| 0 <= i < constraints.len() ==> (#[trigger] constraints[i]).wf(points.len()),
        points_wf(points),
    ensures
        relaxed_links(points, constraints, k).len() == points.len(),
        points_wf(relaxed_links(points, constraints, k)),
        forall|j: int|
            0 <= j < points.len() && points[j].locked ==> #[trigger] relaxed_links(
                points,
                constraints,
                k,
            )[j] == points[j],
        forall|j: int|
            0 <= j < points.len() ==> (#[trigger] relaxed_links(points, constraints, k)[j]).locked
                == points[j].locked,
    decreases k,
{
    if k > 0 {
        lemma_relaxed_links_keeps_locked(points, constraints, (k - 1) as nat);
        let before = relaxed_links(points, constraints, (k - 1) as nat);
        assert(constraints[k - 1].wf(points.len()));
        lemma_relaxed_keeps_locked(before, constraints[k - 1]);
        assert forall|j: int| 0 <= j < points.len() && points[j].locked implies #[trigger] relaxed_links(
            points,
            constraints,
            k,
        )[j] == points[j] by {
            assert(before[j] == points[j]);
            assert(before[j].locked);
        }
        assert forall|j: int| 0 <= j < points.len() implies (#[trigger] relaxed_links(
            points,
            constraints,
            k,
        )[j]).locked == points[j].locked by {
            assert(before[j].locked == points[j].locked);
        }
    }
}

/// Any number of passes over the links leaves the arena's size, its locked
/// points and the world bound as they were.
pub proof fn lemma_relaxed_times_keeps_locked(
    points: Seq<Point>,
    constraints: Seq<Constraint>,
    t: nat,
)
    requires
        forall|i: int| 0 <= i < constraints.len() ==> (#[trigger] constraints[i]).wf(points.len()),
        points_wf(points),
    ensures
        relaxed_times(points, constraints, t).len() == points.len(),
        points_wf(relaxed_times(points, constraints, t)),
        forall|j: int|
            0 <= j < points.len() && points[j].locked ==> #[trigger] relaxed_times(
                points,
                constraints,
                t,
            )[j] == points[j],
        forall|j: int|
            0 <= j < points.len() ==> (#[trigger] relaxed_times(points, constraints, t)[j]).locked
                == points[j].locked,
    decreases t,
{
    if t > 0 {
        lemma_relaxed_times_keeps_locked(points, constraints, (t - 1) as nat);
        let before = relaxed_times(points, constraints, (t - 1) as nat);
        lemma_relaxed_links_keeps_locked(before, constraints, constraints.len());
        assert forall|j: int| 0 <= j < points.len() && points[j].locked implies #[trigger] relaxed_times(
            points,
            constraints,
            t,
        )[j] == points[j] by {
            assert(before[j] == points[j]);
            assert(before[j].locked);
        }
        assert forall|j: int| 0 <= j < points.len() implies (#[trigger] relaxed_times(
            points,
            constraints,
            t,
        )[j]).locked == points[j].locked by {
            assert(before[j].locked == points[j].locked);
        }
    }
}

} // verus!
