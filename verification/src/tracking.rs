//! Which zone a point is in: where a placement may end, which target the
//! tail touches, and what the touches are worth.

use vstd::prelude::*;
use crate::level::{targets_wf, zones_wf};
use crate::main_game::WinStatus;
use crate::vector::V2;
use crate::zone::{Circle, Target};

verus! {

/// Whether `i` is the first zone of `zones` that covers `pos`.
pub open spec fn is_first_covering(zones: Seq<Circle>, pos: V2, i: int) -> bool {
    &&& 0 <= i < zones.len()
    &&& zones[i].covers(pos)
    &&& forall|j: int| 0 <= j < i ==> !(#[trigger] zones[j]).covers(pos)
}

/// Whether `i` is the last zone of `zones` that covers `pos`.
pub open spec fn is_last_covering(zones: Seq<Circle>, pos: V2, i: int) -> bool {
    &&& 0 <= i < zones.len()
    &&& zones[i].covers(pos)
    &&& forall|j: int| i < j < zones.len() ==> !(#[trigger] zones[j]).covers(pos)
}

/// The first zone that covers `pos`, if any does.
pub open spec fn first_covering(zones: Seq<Circle>, pos: V2) -> Option<int> {
    if exists|i: int| is_first_covering(zones, pos, i) {
        Some(choose|i: int| is_first_covering(zones, pos, i))
    } else {
        None
    }
}

/// The last zone that covers `pos`, if any does.
pub open spec fn last_covering(zones: Seq<Circle>, pos: V2) -> Option<int> {
    if exists|i: int| is_last_covering(zones, pos, i) {
        Some(choose|i: int| is_last_covering(zones, pos, i))
    } else {
        None
    }
}

/// The zones that score: each target's own.
pub open spec fn target_zones(targets: Seq<Target>) -> Seq<Circle> {
    Seq::new(targets.len(), |i: int| targets[i].zone)
}

/// The zones around the targets that are closed to placement.
pub open spec fn closed_zones(targets: Seq<Target>) -> Seq<Circle> {
    Seq::new(targets.len(), |i: int| targets[i].zone.extension(targets[i].closed))
}

/// Where a placement at `pos` ends up: on the boundary of the first
/// forbidden zone that covers it; if none does, on the boundary of the first
/// closed zone that covers it; if none does, at `pos`.
pub open spec fn constrained(red_zones: Seq<Circle>, targets: Seq<Target>, pos: V2) -> V2 {
    match first_covering(red_zones, pos) {
        Some(i) => red_zones[i].projection(pos),
        None => match first_covering(closed_zones(targets), pos) {
            Some(i) => closed_zones(targets)[i].projection(pos),
            None => pos,
        },
    }
}

/// A touch counter after one more touch. It stops at 255.
pub open spec fn bumped(count: u8) -> u8 {
    if count < 255 {
        (count + 1) as u8
    } else {
        count
    }
}

/// The touch counters after a tick that ends with the tail at `tail`: if no
/// target was being touched, the first target that covers the tail is
/// touched once more.
pub open spec fn touched_after(
    touched: Seq<u8>,
    touching: Option<usize>,
    targets: Seq<Target>,
    tail: V2,
) -> Seq<u8> {
    match first_covering(target_zones(targets), tail) {
        Some(i) if touching.is_none() => touched.update(i, bumped(touched[i])),
        _ => touched,
    }
}

/// The target being touched after a tick that ends with the tail at `tail`:
/// the last that covers it.
pub open spec fn touching_after(targets: Seq<Target>, tail: V2) -> Option<usize> {
    match last_covering(target_zones(targets), tail) {
        Some(i) => Some(i as usize),
        None => None,
    }
}

/// Whether every target was touched.
pub open spec fn all_touched(touched: Seq<u8>) -> bool {
    forall|i: int| 0 <= i < touched.len() ==> (#[trigger] touched[i]) >= 1
}

/// Sum of the touch counters.
pub open spec fn total_touches(touched: Seq<u8>) -> nat
    decreases touched.len(),
{
    if touched.len() == 0 {
        0
    } else {
        total_touches(touched.drop_last()) + touched.last() as nat
    }
}

/// Touches beyond the first of each target.
pub open spec fn bonus(touched: Seq<u8>) -> int {
    total_touches(touched) - touched.len()
}

/// The win status after a tick that leaves the counters at `touched`: won,
/// with the bonus of these counters, once every target was touched, and from
/// then on.
pub open spec fn win_after(win: WinStatus, touched: Seq<u8>) -> WinStatus {
    if win is Won || all_touched(touched) {
        WinStatus::Won { bonuses: bonus(touched) as usize }
    } else {
        WinStatus::NotYet
    }
}

/// The first forbidden zone that covers `pos`, if any does.
pub fn find_zone(zones: &Vec<Circle>, pos: V2) -> (found: Option<usize>)
    requires
        zones_wf(zones@),
        pos.in_world(),
    ensures
        match found {
            Some(i) => first_covering(zones@, pos) == Some(i as int) && i < zones@.len(),
            None => first_covering(zones@, pos).is_none(),
        },
{
    let mut i: usize = 0;
    while i < zones.len()
        invariant
            0 <= i <= zones.len(),
            zones_wf(zones@),
            pos.in_world(),
            forall|j: int| 0 <= j < i ==> !(#[trigger] zones@[j]).covers(pos),
        decreases zones.len() - i,
    {
        assert(zones@[i as int].wf());
        if zones[i].contains(pos) {
            proof {
                lemma_first_covering(zones@, pos, i as int);
            }
            return Some(i);
        }
        i = i + 1;
    }
    None
}

/// The first target whose closed zone covers `pos`, if any does.
pub fn find_closed(targets: &Vec<Target>, pos: V2) -> (found: Option<usize>)
    requires
        targets_wf(targets@),
        pos.in_world(),
    ensures
        match found {
            Some(i) => first_covering(closed_zones(targets@), pos) == Some(i as int) && i
                < targets@.len(),
            None => first_covering(closed_zones(targets@), pos).is_none(),
        },
{
    let ghost zones = closed_zones(targets@);
    let mut i: usize = 0;
    while i < targets.len()
        invariant
            0 <= i <= targets.len(),
            targets_wf(targets@),
            pos.in_world(),
            zones == closed_zones(targets@),
            forall|j: int| 0 <= j < i ==> !(#[trigger] zones[j]).covers(pos),
        decreases targets.len() - i,
    {
        assert(targets@[i as int].wf());
        let zone = targets[i].closed_zone();
        assert(zone == zones[i as int]);
        if zone.contains(pos) {
            proof {
                lemma_first_covering(zones, pos, i as int);
            }
            return Some(i);
        }
        i = i + 1;
    }
    None
}

/// The first zone found to cover a point is the one `first_covering` names.
pub proof fn lemma_first_covering(zones: Seq<Circle>, pos: V2, i: int)
    requires
        is_first_covering(zones, pos, i),
    ensures
        first_covering(zones, pos) == Some(i),
{
    let c = choose|c: int| is_first_covering(zones, pos, c);
    if c < i {
        assert(!zones[c].covers(pos));
    } else if i < c {
        assert(!zones[i].covers(pos));
    }
}

/// The last zone found to cover a point is the one `last_covering` names.
pub proof fn lemma_last_covering(zones: Seq<Circle>, pos: V2, i: int)
    requires
        is_last_covering(zones, pos, i),
    ensures
        last_covering(zones, pos) == Some(i),
{
    let c = choose|c: int| is_last_covering(zones, pos, c);
    if c < i {
        assert(!zones[i].covers(pos));
    } else if i < c {
        assert(!zones[c].covers(pos));
    }
}

/// Holds the targets against the tail after a tick. If no target was being
/// touched, the first target that covers the tail is touched once more, and
/// its counter goes up by one, up to 255. Returns the target being touched
/// now: the last that covers the tail, or none.
pub fn track(
    targets: &Vec<Target>,
    touched: &mut Vec<u8>,
    touching: Option<usize>,
    tail: V2,
) -> (now: Option<usize>)
    requires
        targets_wf(targets@),
        old(touched)@.len() == targets@.len(),
        tail.in_world(),
    ensures
        final(touched)@ == touched_after(old(touched)@, touching, targets@, tail),
        now == touching_after(targets@, tail),
        now matches Some(i) ==> i < targets@.len(),
{
    let ghost zones = target_zones(targets@);
    let mut now = touching;
    let mut none_yet = true;
    let ghost mut first: int = 0;
    let mut i: usize = 0;
    while i < targets.len()
        invariant
            0 <= i <= targets.len(),
            targets_wf(targets@),
            touched@.len() == targets@.len(),
            tail.in_world(),
            zones == target_zones(targets@),
            none_yet <==> forall|j: int| 0 <= j < i ==> !(#[trigger] zones[j]).covers(tail),
            none_yet ==> now == touching && touched@ == old(touched)@,
            !none_yet ==> {
                &&& 0 <= first < i
                &&& is_first_covering(zones, tail, first)
                &&& now matches Some(k)
                &&& k < i
                &&& zones[k as int].covers(tail)
                &&& forall|j: int| k < j < i ==> !(#[trigger] zones[j]).covers(tail)
                &&& touched@ == if touching.is_none() {
                    old(touched)@.update(first, bumped(old(touched)@[first]))
                } else {
                    old(touched)@
                }
            },
        decreases targets.len() - i,
    {
        assert(targets@[i as int].wf());
        assert(zones[i as int] == targets@[i as int].zone);
        if targets[i].zone.contains(tail) {
            if now.is_none() {
                let count = touched[i];
                let more: u8 = if count < 255 {
                    count + 1
                } else {
                    count
                };
                touched.set(i, more);
            }
            proof {
                if none_yet {
                    first = i as int;
                }
            }
            now = Some(i);
            none_yet = false;
        }
        i = i + 1;
    }
    if none_yet {
        now = None;
    }
    proof {
        if none_yet {
            assert forall|c: int| !is_first_covering(zones, tail, c) by {
                if 0 <= c < zones.len() {
                    assert(!zones[c].covers(tail));
                }
            }
            assert forall|c: int| !is_last_covering(zones, tail, c) by {
                if 0 <= c < zones.len() {
                    assert(!zones[c].covers(tail));
                }
            }
        } else {
            lemma_first_covering(zones, tail, first);
            lemma_last_covering(zones, tail, now.unwrap() as int);
        }
    }
    now
}

/// The win status that follows from the touch counters: won, with the sum
/// of the counters less one for each target as bonus, if `win` is a win
/// already or every counter is at least one.
pub fn score(touched: &Vec<u8>, win: WinStatus) -> (now: WinStatus)
    requires
        255 * touched@.len() <= usize::MAX,
        win is Won ==> all_touched(touched@),
    ensures
        now == win_after(win, touched@),
        now matches WinStatus::Won { bonuses } ==> all_touched(touched@) && bonuses == bonus(
            touched@,
        ),
{
    let mut all = true;
    let mut sum: usize = 0;
    let mut i: usize = 0;
    while i < touched.len()
        invariant
            0 <= i <= touched.len(),
            255 * touched@.len() <= usize::MAX,
            all <==> all_touched(touched@.take(i as int)),
            sum == total_touches(touched@.take(i as int)),
            sum <= 255 * i,
            all ==> sum >= i,
        decreases touched.len() - i,
    {
        proof {
            assert(touched@.take(i + 1).drop_last() =~= touched@.take(i as int));
            assert(touched@.take(i + 1).last() == touched@[i as int]);
            if all_touched(touched@.take(i + 1)) {
                assert forall|j: int| 0 <= j < i implies (#[trigger] touched@.take(i as int)[j])
                    >= 1 by {
                    assert(touched@.take(i + 1)[j] >= 1);
                }
                assert(touched@.take(i + 1)[i as int] >= 1);
            }
            if all_touched(touched@.take(i as int)) && touched@[i as int] >= 1 {
                assert forall|j: int| 0 <= j < i + 1 implies (#[trigger] touched@.take(i + 1)[j])
                    >= 1 by {
                    if j < i {
                        assert(touched@.take(i as int)[j] >= 1);
                    }
                }
            }
        }
        if touched[i] == 0 {
            all = false;
        }
        sum = sum + touched[i] as usize;
        i = i + 1;
    }
    assert(touched@.take(touched@.len() as int) =~= touched@);
    let won = match win {
        WinStatus::Won { .. } => true,
        WinStatus::NotYet => false,
    };
    if won || all {
        WinStatus::Won { bonuses: sum - touched.len() }
    } else {
        WinStatus::NotYet
    }
}

/// A tick takes no touch back: counters only grow, and counters that were
/// all touched stay so.
pub proof fn lemma_touched_after_grows(
    touched: Seq<u8>,
    touching: Option<usize>,
    targets: Seq<Target>,
    tail: V2,
)
    requires
        touched.len() == targets.len(),
    ensures
        touched_after(touched, touching, targets, tail).len() == touched.len(),
        forall|i: int|
            0 <= i < touched.len() ==> (#[trigger] touched_after(
                touched,
                touching,
                targets,
                tail,
            )[i]) >= touched[i],
        all_touched(touched) ==> all_touched(touched_after(touched, touching, targets, tail)),
{
    let after = touched_after(touched, touching, targets, tail);
    let zones = target_zones(targets);
    if first_covering(zones, tail).is_some() {
        let f = first_covering(zones, tail).unwrap();
        assert(is_first_covering(zones, tail, f));
    }
    if all_touched(touched) {
        assert forall|i: int| 0 <= i < after.len() implies (#[trigger] after[i]) >= 1 by {
            assert(touched[i] >= 1);
        }
    }
}

/// A position that no zone covers is where a placement ends up; a position
/// that a zone covers ends up in the first such zone, and in the world.
pub proof fn lemma_constrained(red_zones: Seq<Circle>, targets: Seq<Target>, pos: V2)
    requires
        zones_wf(red_zones),
        targets_wf(targets),
        pos.in_world(),
    ensures
        constrained(red_zones, targets, pos).in_world(),
        (forall|i: int| 0 <= i < red_zones.len() ==> !(#[trigger] red_zones[i]).covers(pos)) && (
        forall|i: int|
            0 <= i < targets.len() ==> !(#[trigger] closed_zones(targets)[i]).covers(pos))
            ==> constrained(red_zones, targets, pos) == pos,
        first_covering(red_zones, pos) matches Some(i) ==> red_zones[i].covers(
            constrained(red_zones, targets, pos),
        ),
        first_covering(red_zones, pos).is_none() ==> (first_covering(closed_zones(targets), pos)
            matches Some(i) ==> closed_zones(targets)[i].covers(
            constrained(red_zones, targets, pos),
        )),
{
    let closed = closed_zones(targets);
    match first_covering(red_zones, pos) {
        Some(i) => {
            assert(is_first_covering(red_zones, pos, i));
            assert(red_zones[i].wf());
            crate::zone::lemma_projection_covered(red_zones[i], pos);
        },
        None => {
            match first_covering(closed, pos) {
                Some(i) => {
                    assert(is_first_covering(closed, pos, i));
                    assert(targets[i].wf());
                    crate::zone::lemma_projection_covered(closed[i], pos);
                },
                None => {},
            }
        },
    }
}

} // verus!
