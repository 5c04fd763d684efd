//! What holds of every session: how touches are counted over a run of
//! ticks, and what the two resets leave behind.

use vstd::prelude::*;
use crate::main_game::{Event, MainGameView, SimStatusView, WinStatus, KEY_R, MAX_HISTORY};
use crate::tracking::{
    bonus, bumped, first_covering, is_first_covering, is_last_covering, lemma_first_covering,
    lemma_touched_after_grows, target_zones, total_touches, touched_after, touching_after,
};
use crate::rope::HALF_UNIT;
use crate::rope_laws::lemma_jiggled_nearby;
use crate::vector::V2;
use crate::zone::{Circle, Target};

verus! {

/// The touch counters and the target being touched after one tick for each
/// entry of `tails`, the tail's place at the end of that tick.
pub open spec fn tracked_along(
    touched: Seq<u8>,
    touching: Option<usize>,
    targets: Seq<Target>,
    tails: Seq<V2>,
) -> (Seq<u8>, Option<usize>)
    decreases tails.len(),
{
    if tails.len() == 0 {
        (touched, touching)
    } else {
        let before = tracked_along(touched, touching, targets, tails.drop_last());
        (
            touched_after(before.0, before.1, targets, tails.last()),
            touching_after(targets, tails.last()),
        )
    }
}

/// Whether the tail at `tail` is in target `k`, and in no target before it.
pub open spec fn enters(targets: Seq<Target>, tail: V2, k: int) -> bool {
    is_first_covering(target_zones(targets), tail, k)
}

/// Whether the tail at `tail` is in no target.
pub open spec fn outside(targets: Seq<Target>, tail: V2) -> bool {
    forall|i: int| 0 <= i < targets.len() ==> !(#[trigger] targets[i]).zone.covers(tail)
}

/// Ticks one after the other are tracked one run after the other.
pub proof fn lemma_tracked_along_concat(
    touched: Seq<u8>,
    touching: Option<usize>,
    targets: Seq<Target>,
    first: Seq<V2>,
    second: Seq<V2>,
)
    ensures
        tracked_along(touched, touching, targets, first + second) == tracked_along(
            tracked_along(touched, touching, targets, first).0,
            tracked_along(touched, touching, targets, first).1,
            targets,
            second,
        ),
    decreases second.len(),
{
    if second.len() == 0 {
        assert(first + second =~= first);
    } else {
        lemma_tracked_along_concat(touched, touching, targets, first, second.drop_last());
        assert((first + second).drop_last() =~= first + second.drop_last());
        assert((first + second).last() == second.last());
    }
}

/// A tail in some target is being tracked; a tail in none is not.
pub proof fn lemma_touching_after(targets: Seq<Target>, tail: V2)
    ensures
        outside(targets, tail) ==> touching_after(targets, tail).is_none()
            && first_covering(target_zones(targets), tail).is_none(),
        !outside(targets, tail) ==> touching_after(targets, tail).is_some()
            && first_covering(target_zones(targets), tail).is_some(),
{
    let zones = target_zones(targets);
    if outside(targets, tail) {
        assert forall|c: int| !is_last_covering(zones, tail, c) by {
            if 0 <= c < zones.len() {
                assert(!targets[c].zone.covers(tail));
            }
        }
        assert forall|c: int| !is_first_covering(zones, tail, c) by {
            if 0 <= c < zones.len() {
                assert(!targets[c].zone.covers(tail));
            }
        }
    } else {
        let i = choose|i: int| 0 <= i < targets.len() && (#[trigger] targets[i]).zone.covers(tail);
        assert(zones[i].covers(tail));
        let l = lemma_greatest_covering(zones, tail, zones.len() as int);
        assert(is_last_covering(zones, tail, l));
        let f = lemma_least_covering(zones, tail, 0);
        assert(is_first_covering(zones, tail, f));
    }
}

/// Among the zones before `n`, if one covers the point, one is the last to.
proof fn lemma_greatest_covering(zones: Seq<Circle>, pos: V2, n: int) -> (l: int)
    requires
        0 <= n <= zones.len(),
        exists|i: int| 0 <= i < n && (#[trigger] zones[i]).covers(pos),
    ensures
        0 <= l < n,
        zones[l].covers(pos),
        forall|j: int| l < j < n ==> !(#[trigger] zones[j]).covers(pos),
    decreases n,
{
    if zones[n - 1].covers(pos) {
        n - 1
    } else {
        let i = choose|i: int| 0 <= i < n && (#[trigger] zones[i]).covers(pos);
        assert(i < n - 1);
        lemma_greatest_covering(zones, pos, n - 1)
    }
}

/// Among the zones from `n` on, if one covers the point, one is the first to.
proof fn lemma_least_covering(zones: Seq<Circle>, pos: V2, n: int) -> (f: int)
    requires
        0 <= n <= zones.len(),
        exists|i: int| n <= i < zones.len() && (#[trigger] zones[i]).covers(pos),
    ensures
        n <= f < zones.len(),
        zones[f].covers(pos),
        forall|j: int| n <= j < f ==> !(#[trigger] zones[j]).covers(pos),
    decreases zones.len() - n,
{
    if zones[n].covers(pos) {
        n
    } else {
        let i = choose|i: int| n <= i < zones.len() && (#[trigger] zones[i]).covers(pos);
        assert(i > n);
        lemma_least_covering(zones, pos, n + 1)
    }
}

/// A dwell counts once. From a state in which no target is being touched,
/// any number of ticks, one at least, that all end with the tail in target
/// `k` raise the counter of `k` by one and leave the others alone.
pub proof fn lemma_dwell_counts_once(
    touched: Seq<u8>,
    targets: Seq<Target>,
    tails: Seq<V2>,
    k: int,
)
    requires
        touched.len() == targets.len(),
        tails.len() >= 1,
        forall|t: int| 0 <= t < tails.len() ==> enters(targets, #[trigger] tails[t], k),
    ensures
        tracked_along(touched, None, targets, tails).0 == touched.update(k, bumped(touched[k])),
        tracked_along(touched, None, targets, tails).1.is_some(),
    decreases tails.len(),
{
    let zones = target_zones(targets);
    let last = tails.last();
    assert(enters(targets, tails[tails.len() - 1], k));
    lemma_first_covering(zones, last, k);
    assert(targets[k].zone.covers(last));
    lemma_touching_after(targets, last);
    if tails.len() == 1 {
        assert(tails.drop_last().len() == 0);
    } else {
        assert forall|t: int| 0 <= t < tails.drop_last().len() implies enters(
            targets,
            #[trigger] tails.drop_last()[t],
            k,
        ) by {
            assert(enters(targets, tails[t], k));
        }
        lemma_dwell_counts_once(touched, targets, tails.drop_last(), k);
    }
}

/// Leaving ends a dwell. Any number of ticks, one at least, that all end
/// with the tail in no target leave every counter alone and no target
/// being touched.
pub proof fn lemma_leaving_releases(
    touched: Seq<u8>,
    touching: Option<usize>,
    targets: Seq<Target>,
    tails: Seq<V2>,
)
    requires
        tails.len() >= 1,
        forall|t: int| 0 <= t < tails.len() ==> outside(targets, #[trigger] tails[t]),
    ensures
        tracked_along(touched, touching, targets, tails).0 == touched,
        tracked_along(touched, touching, targets, tails).1.is_none(),
    decreases tails.len(),
{
    assert(outside(targets, tails[tails.len() - 1]));
    lemma_touching_after(targets, tails.last());
    if tails.len() == 1 {
        assert(tails.drop_last().len() == 0);
    } else {
        assert forall|t: int| 0 <= t < tails.drop_last().len() implies outside(
            targets,
            #[trigger] tails.drop_last()[t],
        ) by {
            assert(outside(targets, tails[t]));
        }
        lemma_leaving_releases(touched, touching, targets, tails.drop_last());
    }
}

/// Entering a target, staying, leaving and entering again counts two
/// touches, however long the tail stays each time.
pub proof fn lemma_two_dwells_count_twice(
    touched: Seq<u8>,
    targets: Seq<Target>,
    stay: Seq<V2>,
    away: Seq<V2>,
    again: Seq<V2>,
    k: int,
)
    requires
        touched.len() == targets.len(),
        stay.len() >= 1,
        away.len() >= 1,
        again.len() >= 1,
        forall|t: int| 0 <= t < stay.len() ==> enters(targets, #[trigger] stay[t], k),
        forall|t: int| 0 <= t < away.len() ==> outside(targets, #[trigger] away[t]),
        forall|t: int| 0 <= t < again.len() ==> enters(targets, #[trigger] again[t], k),
    ensures
        tracked_along(touched, None, targets, stay + away + again).0 == touched.update(
            k,
            bumped(bumped(touched[k])),
        ),
{
    lemma_tracked_along_concat(touched, None, targets, stay + away, again);
    lemma_tracked_along_concat(touched, None, targets, stay, away);
    lemma_dwell_counts_once(touched, targets, stay, k);
    let once = touched.update(k, bumped(touched[k]));
    let held = tracked_along(touched, None, targets, stay).1;
    lemma_leaving_releases(once, held, targets, away);
    assert(enters(targets, stay[0], k));
    lemma_dwell_counts_once(once, targets, again, k);
    assert(once.update(k, bumped(once[k])) =~= touched.update(k, bumped(bumped(touched[k]))));
}

/// A hard reset, from any phase, leaves the session on the level's own rope,
/// in setup, without trail or history, with every counter at zero and no
/// win. A soft reset in setup is a hard one.
pub proof fn lemma_hard_reset(game: MainGameView, soft: bool, samples: Seq<(u16, u16)>)
    requires
        game.wf(),
        !soft || game.sim_status is Setup,
    ensures
        game.reset(soft, samples).wf(),
        game.reset(soft, samples).rope == game.level.init_state,
        game.reset(soft, samples).sim_status is Setup,
        game.reset(soft, samples).prev_trails.len() == 0,
        game.reset(soft, samples).trail.len() == 0,
        game.reset(soft, samples).touched_targets.len() == game.level.targets.len(),
        forall|i: int|
            0 <= i < game.level.targets.len() ==> (#[trigger] game.reset(
                soft,
                samples,
            ).touched_targets[i]) == 0,
        game.reset(soft, samples).win_status is NotYet,
        game.reset(soft, samples).level == game.level,
{
}

/// A soft reset of a released rope leaves the session running from the
/// layout it was released from, every coordinate within half a unit of that
/// layout, the root on it. The trail has gone to the history, which is one
/// longer unless it was full, and the score is cleared.
pub proof fn lemma_soft_reset(game: MainGameView, samples: Seq<(u16, u16)>)
    requires
        game.wf(),
        !(game.sim_status is Setup),
        samples.len() == game.rope.len(),
    ensures
        game.reset(true, samples).wf(),
        game.reset(true, samples).sim_status == (SimStatusView::Running {
            setup: game.sim_status.snapshot().unwrap(),
        }),
        game.reset(true, samples).prev_trails.len() == if game.prev_trails.len() < MAX_HISTORY {
            game.prev_trails.len() + 1
        } else {
            MAX_HISTORY as nat
        },
        game.reset(true, samples).prev_trails.last() == game.trail,
        game.reset(true, samples).trail.len() == 0,
        game.reset(true, samples).rope.root == game.sim_status.snapshot().unwrap().root,
        game.reset(true, samples).rope.constraints == game.sim_status.snapshot().unwrap().constraints,
        game.reset(true, samples).rope.points.len()
            == game.sim_status.snapshot().unwrap().points.len(),
        forall|j: int|
            0 <= j < game.rope.points.len() ==> {
                let p = game.sim_status.snapshot().unwrap().points[j];
                let q = #[trigger] game.reset(true, samples).rope.points[j];
                &&& -HALF_UNIT <= q.pos.x - p.pos.x <= HALF_UNIT
                &&& -HALF_UNIT <= q.pos.y - p.pos.y <= HALF_UNIT
            },
        forall|i: int|
            0 <= i < game.level.targets.len() ==> (#[trigger] game.reset(
                true,
                samples,
            ).touched_targets[i]) == 0,
        game.reset(true, samples).win_status is NotYet,
{
    let setup = game.sim_status.snapshot().unwrap();
    lemma_jiggled_nearby(setup, samples);
    let after = game.reset(true, samples);
    assert(after == game.soft_reset(setup, samples));
    assert(after.rope == setup.jiggled(samples));
}

/// Setting one counter changes the sum of all by as much as that counter.
pub proof fn lemma_total_touches_update(touched: Seq<u8>, i: int, count: u8)
    requires
        0 <= i < touched.len(),
    ensures
        total_touches(touched.update(i, count)) == total_touches(touched) - touched[i] + count,
    decreases touched.len(),
{
    let after = touched.update(i, count);
    if i == touched.len() - 1 {
        assert(after.drop_last() =~= touched.drop_last());
    } else {
        lemma_total_touches_update(touched.drop_last(), i, count);
        assert(after.drop_last() =~= touched.drop_last().update(i, count));
    }
}

/// A session that is won stays won through every tick, and its bonus never
/// goes down: touches after the win add to it.
pub proof fn lemma_won_stays_won(game: MainGameView, delta_time: u32)
    requires
        game.wf(),
        game.win_status is Won,
    ensures
        game.ticked(delta_time).win_status is Won,
        game.ticked(delta_time).win_status == (WinStatus::Won {
            bonuses: bonus(game.ticked(delta_time).touched_targets) as usize,
        }),
        bonus(game.ticked(delta_time).touched_targets) >= bonus(game.touched_targets),
{
    let after = game.ticked(delta_time);
    let tail = after.rope.tail();
    lemma_touched_after_grows(
        game.touched_targets,
        game.touching_target,
        game.level.targets,
        tail,
    );
    let zones = target_zones(game.level.targets);
    if first_covering(zones, tail).is_some() && game.touching_target.is_none() {
        let i = first_covering(zones, tail).unwrap();
        assert(is_first_covering(zones, tail, i));
        lemma_total_touches_update(game.touched_targets, i, bumped(game.touched_targets[i]));
    }
}

/// Nothing but a hard reset takes a released rope back to setup: no tick
/// does, and no event but the reset key with shift held.
pub proof fn lemma_setup_only_by_hard_reset(
    game: MainGameView,
    event: Event,
    samples: Seq<(u16, u16)>,
    delta_time: u32,
)
    requires
        !(game.sim_status is Setup),
    ensures
        !(game.ticked(delta_time).sim_status is Setup),
        game.handled(event, samples).sim_status is Setup ==> event == (Event::KeyUp {
            code: KEY_R,
            shift: true,
        }),
        game.handled(Event::KeyUp { code: KEY_R, shift: true }, samples).sim_status is Setup,
{
}

/// No event but a reset touches the score, and no event at all takes a win
/// back but a reset.
pub proof fn lemma_score_only_cleared_by_reset(
    game: MainGameView,
    event: Event,
    samples: Seq<(u16, u16)>,
)
    requires
        !(event matches Event::KeyUp { code, .. } && code == KEY_R),
    ensures
        game.handled(event, samples).win_status == game.win_status,
        game.handled(event, samples).touched_targets == game.touched_targets,
{
}

} // verus!
