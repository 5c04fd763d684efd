//! What holds of every rope: the laws that the contracts of the rope's
//! operations imply, proved once.

use vstd::prelude::*;
use crate::rope::{
    correction, gravity_step, is_chain_link, lemma_relaxed_times_keeps_locked, points_wf,
    relaxed_links, relaxed_times, Constraint, Point, RopeView, HALF_UNIT,
};
use crate::vector::{all_in_world, V2};

verus! {

/// The links of a well-formed rope join points of its arena.
pub proof fn lemma_links_in_arena(rope: RopeView)
    requires
        rope.wf(),
    ensures
        forall|i: int|
            0 <= i < rope.constraints.len() ==> (#[trigger] rope.constraints[i]).wf(
                rope.points.len(),
            ),
{
    assert forall|i: int| 0 <= i < rope.constraints.len() implies (#[trigger] rope.constraints[i]).wf(
        rope.points.len(),
    ) by {
        assert(is_chain_link(rope.constraints[i], i));
    }
}

/// A tick keeps a rope well formed, keeps its links, and moves no locked
/// point: the root above all stays where the rope was built.
pub proof fn lemma_simulated_keeps_locked(
    rope: RopeView,
    gravity: V2,
    delta_time: u32,
    iterations: nat,
)
    requires
        rope.wf(),
    ensures
        rope.simulated(gravity, delta_time, iterations).wf(),
        rope.simulated(gravity, delta_time, iterations).root == rope.root,
        rope.simulated(gravity, delta_time, iterations).constraints == rope.constraints,
        rope.simulated(gravity, delta_time, iterations).points.len() == rope.points.len(),
        rope.simulated(gravity, delta_time, iterations).points[0] == Point::fixed(rope.root),
        forall|j: int|
            0 <= j < rope.points.len() && rope.points[j].locked ==> #[trigger] rope.simulated(
                gravity,
                delta_time,
                iterations,
            ).points[j] == rope.points[j],
{
    let accel = gravity_step(gravity, delta_time);
    let moved = rope.integrated(accel);
    assert forall|j: int| 0 <= j < moved.points.len() implies (#[trigger] moved.points[j]).wf()
        && moved.points[j].locked == rope.points[j].locked && (rope.points[j].locked
        ==> moved.points[j] == rope.points[j]) by {
        assert(rope.points[j].wf());
    }
    lemma_links_in_arena(rope);
    lemma_relaxed_times_keeps_locked(moved.points, rope.constraints, iterations);
    let after = rope.simulated(gravity, delta_time, iterations);
    assert forall|j: int| 0 <= j < rope.points.len() && rope.points[j].locked implies #[trigger] after.points[j]
        == rope.points[j] by {
        assert(moved.points[j] == rope.points[j]);
    }
}

/// However many ticks a rope goes through, its root is where the rope was
/// built, to the last bit.
pub proof fn lemma_root_never_moves(
    rope: RopeView,
    gravity: V2,
    delta_times: Seq<u32>,
    iterations: nat,
)
    requires
        rope.wf(),
    ensures
        rope.simulated_many(gravity, delta_times, iterations).wf(),
        rope.simulated_many(gravity, delta_times, iterations).root == rope.root,
        rope.simulated_many(gravity, delta_times, iterations).points[0] == Point::fixed(rope.root),
        rope.simulated_many(gravity, delta_times, iterations).constraints == rope.constraints,
    decreases delta_times.len(),
{
    if delta_times.len() > 0 {
        lemma_root_never_moves(rope, gravity, delta_times.drop_last(), iterations);
        lemma_simulated_keeps_locked(
            rope.simulated_many(gravity, delta_times.drop_last(), iterations),
            gravity,
            delta_times.last(),
            iterations,
        );
    }
}

/// Gravity of zero, or a step of no duration, adds nothing.
pub proof fn lemma_no_gravity_no_step(gravity: V2, delta_time: u32)
    requires
        gravity == (V2 { x: 0, y: 0 }) || delta_time == 0,
    ensures
        gravity_step(gravity, delta_time) == (V2 { x: 0, y: 0 }),
{
    assert(gravity.x * (delta_time * delta_time) == 0) by (nonlinear_arith)
        requires
            gravity.x == 0 || delta_time == 0,
    ;
    assert(gravity.y * (delta_time * delta_time) == 0) by (nonlinear_arith)
        requires
            gravity.y == 0 || delta_time == 0,
    ;
}

/// Two points as far apart as a link is long are not moved by it.
pub proof fn lemma_no_correction(a: V2, b: V2)
    ensures
        correction(a, b, a.dist(b)) == (0int, 0int),
{
    let m = a.dist(b);
    if m != 0 {
        assert((a.x - b.x) * (m - m) == 0) by (nonlinear_arith);
        assert((a.y - b.y) * (m - m) == 0) by (nonlinear_arith);
    }
}

/// A link at its length leaves the arena as it is.
pub proof fn lemma_relaxed_at_length(points: Seq<Point>, c: Constraint)
    requires
        c.wf(points.len()),
        points_wf(points),
        c.length == points[c.point_a as int].pos.dist(points[c.point_b as int].pos),
    ensures
        c.relaxed(points) == points,
{
    let a = points[c.point_a as int];
    let b = points[c.point_b as int];
    lemma_no_correction(a.pos, b.pos);
    assert(a.wf() && b.wf());
    assert(a.shifted(0, 0) == a);
    assert(b.shifted(0, 0) == b);
    assert(c.relaxed(points) =~= points);
}

/// A rope in equilibrium under no gravity stays as it is through a tick:
/// every point where it was, and the ends of every link exactly as far
/// apart as the link is long.
pub proof fn lemma_equilibrium_is_kept(
    rope: RopeView,
    gravity: V2,
    delta_time: u32,
    iterations: nat,
)
    requires
        rope.wf(),
        rope.at_rest(),
        gravity == (V2 { x: 0, y: 0 }) || delta_time == 0,
    ensures
        rope.simulated(gravity, delta_time, iterations) == rope,
        forall|i: int|
            0 <= i < rope.constraints.len() ==> rope.simulated(
                gravity,
                delta_time,
                iterations,
            ).points[i].pos.dist(
                rope.simulated(gravity, delta_time, iterations).points[i + 1].pos,
            ) == (#[trigger] rope.constraints[i]).length,
{
    lemma_no_gravity_no_step(gravity, delta_time);
    let zero = V2 { x: 0, y: 0 };
    let moved = rope.integrated(zero);
    assert forall|j: int| 0 <= j < rope.points.len() implies #[trigger] moved.points[j]
        == rope.points[j] by {
        let p = rope.points[j];
        assert(p.wf());
        assert(p.prev_pos == p.pos);
        assert(p.stepped(zero) == p);
    }
    assert(moved.points =~= rope.points);
    lemma_links_in_arena(rope);
    lemma_passes_at_length(rope, iterations);
}

/// Relaxing the first `k` links of a rope in equilibrium changes nothing.
proof fn lemma_links_at_length(rope: RopeView, k: nat)
    requires
        rope.wf(),
        rope.at_rest(),
        k <= rope.constraints.len(),
    ensures
        relaxed_links(rope.points, rope.constraints, k) == rope.points,
    decreases k,
{
    if k > 0 {
        lemma_links_at_length(rope, (k - 1) as nat);
        let c = rope.constraints[k - 1];
        assert(is_chain_link(c, k - 1));
        lemma_relaxed_at_length(rope.points, c);
    }
}

/// Any number of passes over a rope in equilibrium changes nothing.
proof fn lemma_passes_at_length(rope: RopeView, t: nat)
    requires
        rope.wf(),
        rope.at_rest(),
    ensures
        relaxed_times(rope.points, rope.constraints, t) == rope.points,
    decreases t,
{
    if t > 0 {
        lemma_passes_at_length(rope, (t - 1) as nat);
        lemma_links_at_length(rope, rope.constraints.len());
    }
}

/// A link appended to a well-formed rope leaves it well formed, and settled
/// if it was.
pub proof fn lemma_added_wf(rope: RopeView, point: V2)
    requires
        rope.wf(),
        point.in_world(),
        rope.points.len() < usize::MAX,
    ensures
        rope.added(point).wf(),
        rope.added(point).len() == rope.len() + 1,
        rope.added(point).tail() == point,
        rope.settled() ==> rope.added(point).settled(),
{
    let next = rope.added(point);
    let n = rope.points.len() as int;
    assert(rope.points[n - 1].wf());
    crate::vector::lemma_dist_bounded(rope.tail(), point);
    assert forall|j: int| 0 <= j < next.points.len() implies (#[trigger] next.points[j]).wf() by {
        if j < n {
            assert(rope.points[j].wf());
        }
    }
    assert forall|i: int| 0 <= i < next.constraints.len() implies is_chain_link(
        #[trigger] next.constraints[i],
        i,
    ) by {
        if i < n - 1 {
            assert(is_chain_link(rope.constraints[i], i));
        }
    }
    if rope.settled() {
        assert forall|i: int| 0 <= i < next.constraints.len() implies (#[trigger] next.constraints[i]).length
            == next.points[i].pos.dist(next.points[i + 1].pos) by {
            if i < n - 1 {
                assert(rope.constraints[i].length == rope.points[i].pos.dist(
                    rope.points[i + 1].pos,
                ));
            }
        }
        assert forall|j: int| 0 <= j < next.points.len() implies (#[trigger] next.points[j]).prev_pos
            == next.points[j].pos by {
            if j < n {
                assert(rope.points[j].prev_pos == rope.points[j].pos);
            }
        }
        assert forall|j: int| 1 <= j < next.points.len() implies !(#[trigger] next.points[j]).locked by {
            if j < n {
                assert(!rope.points[j].locked);
            }
        }
    }
}

/// A rope laid through points of the world is well formed and settled, has
/// a link to each of the points, and ends its links at them.
pub proof fn lemma_through_settled(root: V2, links: Seq<V2>)
    requires
        root.in_world(),
        all_in_world(links),
        links.len() < usize::MAX,
    ensures
        RopeView::through(root, links).wf(),
        RopeView::through(root, links).settled(),
        RopeView::through(root, links).root == root,
        RopeView::through(root, links).len() == links.len(),
        RopeView::through(root, links).ends() == links,
    decreases links.len(),
{
    let rope = RopeView::through(root, links);
    if links.len() > 0 {
        let before = links.drop_last();
        assert forall|i: int| 0 <= i < before.len() implies (#[trigger] before[i]).in_world() by {
            assert(links[i].in_world());
        }
        lemma_through_settled(root, before);
        assert(links[links.len() - 1].in_world());
        lemma_added_wf(RopeView::through(root, before), links.last());
        assert forall|i: int| 0 <= i < links.len() implies #[trigger] rope.ends()[i]
            == links[i] by {
            if i < before.len() {
                assert(RopeView::through(root, before).ends()[i] == before[i]);
            }
        }
    }
    assert(rope.ends() =~= links);
}

/// The ends of the links of a well-formed rope lie in the world, and are
/// fewer than can be counted.
pub proof fn lemma_ends_in_world(rope: RopeView)
    requires
        rope.wf(),
    ensures
        rope.root.in_world(),
        rope.ends().len() == rope.len(),
        rope.ends().len() < usize::MAX,
        all_in_world(rope.ends()),
{
    assert(rope.points[0].wf());
    assert forall|i: int| 0 <= i < rope.ends().len() implies (#[trigger] rope.ends()[i]).in_world() by {
        assert(rope.points[i + 1].wf());
    }
}

/// A copy of a rope passes through the same positions from the same root,
/// link by link, and is settled.
pub proof fn lemma_rebuilt_same_positions(rope: RopeView)
    requires
        rope.wf(),
    ensures
        rope.rebuilt().wf(),
        rope.rebuilt().settled(),
        rope.rebuilt().root == rope.root,
        rope.rebuilt().len() == rope.len(),
        forall|j: int|
            0 <= j < rope.points.len() ==> (#[trigger] rope.rebuilt().points[j]).pos
                == rope.points[j].pos,
{
    lemma_ends_in_world(rope);
    lemma_through_settled(rope.root, rope.ends());
    let copy = rope.rebuilt();
    assert forall|j: int| 0 <= j < rope.points.len() implies (#[trigger] copy.points[j]).pos
        == rope.points[j].pos by {
        if j > 0 {
            assert(copy.ends()[j - 1] == rope.ends()[j - 1]);
        }
    }
}

/// The first links of a settled rope, laid anew, are those links.
proof fn lemma_through_prefix(rope: RopeView, k: nat)
    requires
        rope.wf(),
        rope.settled(),
        k <= rope.len(),
    ensures
        RopeView::through(rope.root, rope.ends().take(k as int)) == (RopeView {
            root: rope.root,
            points: rope.points.take(k as int + 1),
            constraints: rope.constraints.take(k as int),
        }),
    decreases k,
{
    let want = RopeView {
        root: rope.root,
        points: rope.points.take(k as int + 1),
        constraints: rope.constraints.take(k as int),
    };
    if k == 0 {
        assert(want.points =~= seq![Point::fixed(rope.root)]);
        assert(want.constraints =~= Seq::empty());
    } else {
        lemma_through_prefix(rope, (k - 1) as nat);
        assert(rope.ends().take(k as int).drop_last() =~= rope.ends().take(k - 1));
        let before = RopeView::through(rope.root, rope.ends().take(k - 1));
        let p = rope.points[k as int];
        assert(p.prev_pos == p.pos);
        assert(!p.locked);
        assert(p == Point::free(p.pos));
        let c = rope.constraints[k - 1];
        assert(is_chain_link(c, k - 1));
        assert(c.length == rope.points[k - 1].pos.dist(rope.points[k as int].pos));
        assert(before.tail() == rope.points[k - 1].pos);
        let got = before.added(p.pos);
        assert(got.points =~= want.points);
        assert(got.constraints[k - 1] == c);
        assert(got.constraints =~= want.constraints);
    }
}

/// Laying a settled rope anew gives the same rope, so a copy of it is exact.
pub proof fn lemma_settled_rebuilt(rope: RopeView)
    requires
        rope.wf(),
        rope.settled(),
    ensures
        rope.rebuilt() == rope,
{
    lemma_through_prefix(rope, rope.len());
    assert(rope.ends().take(rope.len() as int) =~= rope.ends());
    assert(rope.points.take(rope.len() as int + 1) =~= rope.points);
    assert(rope.constraints.take(rope.len() as int) =~= rope.constraints);
}

/// A jiggle keeps a rope well formed, leaves its root and its links alone,
/// and moves no coordinate by more than half a unit.
pub proof fn lemma_jiggled_nearby(rope: RopeView, samples: Seq<(u16, u16)>)
    requires
        rope.wf(),
        samples.len() == rope.len(),
    ensures
        rope.jiggled(samples).wf(),
        rope.jiggled(samples).root == rope.root,
        rope.jiggled(samples).constraints == rope.constraints,
        rope.jiggled(samples).points.len() == rope.points.len(),
        forall|j: int|
            0 <= j < rope.points.len() ==> {
                let p = rope.points[j];
                let q = #[trigger] rope.jiggled(samples).points[j];
                &&& -HALF_UNIT <= q.pos.x - p.pos.x <= HALF_UNIT
                &&& -HALF_UNIT <= q.pos.y - p.pos.y <= HALF_UNIT
                &&& q.prev_pos == p.prev_pos
                &&& q.locked == p.locked
            },
{
    let next = rope.jiggled(samples);
    assert forall|j: int| 0 <= j < rope.points.len() implies {
        let p = rope.points[j];
        let q = #[trigger] next.points[j];
        &&& q.wf()
        &&& -HALF_UNIT <= q.pos.x - p.pos.x <= HALF_UNIT
        &&& -HALF_UNIT <= q.pos.y - p.pos.y <= HALF_UNIT
        &&& q.prev_pos == p.prev_pos
        &&& q.locked == p.locked
    } by {
        assert(rope.points[j].wf());
    }
}

} // verus!
