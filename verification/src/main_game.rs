//! The session: a level being played. It owns the live rope, the layout the
//! rope was released from, the trails, and the score.

use std::collections::VecDeque;
use vstd::prelude::*;
use crate::level::{Level, LevelView};
use crate::rope::{Rope, RopeView};
use crate::tracking::{
    all_touched, bonus, constrained, find_closed, find_zone, lemma_touched_after_grows, score,
    touched_after, touching_after, track, win_after,
};
use crate::vector::V2;

verus! {

/// Trails kept from earlier runs; the oldest leaves when one more comes.
pub const MAX_HISTORY: usize = 127;

/// Positions kept in the trail of the current run: ten seconds at sixty
/// ticks a second.
pub const MAX_TRAIL: usize = 600;

/// Longest tick that is simulated, in microseconds. A longer one, as after
/// the host slept, counts as none at all.
pub const MAX_DELTA_TIME: u32 = 50_000;

/// Relaxation passes in each tick.
pub const ITERATIONS: u32 = 15;

/// How near to the tail a placement must begin: fifteen units.
pub const GRAB_RADIUS: i64 = 983_040;

/// Key that starts, pauses and resumes the run.
pub const KEY_SPACE: u32 = 32;

/// Key that clears the trails of earlier runs.
pub const KEY_C: u32 = 67;

/// Key that resets: softly, or hard when shift is held.
pub const KEY_R: u32 = 82;

/// The phase of a session. While the rope runs or is paused, `setup` is
/// the layout it was released from.
#[derive(Debug)]
pub enum SimStatus {
    Setup,
    Running { setup: Rope },
    Paused { setup: Rope },
}

/// The phase of a session, over rope views.
pub enum SimStatusView {
    Setup,
    Running { setup: RopeView },
    Paused { setup: RopeView },
}

/// Whether the level is won, and with how many touches to spare.
#[derive(Clone, Copy, Debug, PartialEq, Eq, Structural)]
pub enum WinStatus {
    NotYet,
    Won { bonuses: usize },
}

/// A mouse button.
#[derive(Clone, Copy, Debug, PartialEq, Eq, Structural)]
pub enum MouseButton {
    Left,
    Other,
}

/// What the host reports to a session.
#[derive(Clone, Copy, Debug, PartialEq, Eq, Structural)]
pub enum Event {
    MouseDown { pos: V2 },
    MouseMove { pos: V2 },
    MouseUp { pos: V2, button: MouseButton },
    KeyUp { code: u32, shift: bool },
    Other,
}

/// A level being played.
#[derive(Debug)]
pub struct MainGame {
    rope: Rope,
    sim_status: SimStatus,
    win_status: WinStatus,
    prev_trails: VecDeque<VecDeque<V2>>,
    trail: VecDeque<V2>,
    creating: Option<V2>,
    touched_targets: Vec<u8>,
    touching_target: Option<usize>,
    level: Level,
}

/// What a session holds.
pub struct MainGameView {
    pub rope: RopeView,
    pub sim_status: SimStatusView,
    pub win_status: WinStatus,
    pub prev_trails: Seq<Seq<V2>>,
    pub trail: Seq<V2>,
    pub creating: Option<V2>,
    pub touched_targets: Seq<u8>,
    pub touching_target: Option<usize>,
    pub level: LevelView,
}

impl View for SimStatus {
    type V = SimStatusView;

    open spec fn view(&self) -> SimStatusView {
        match self {
            SimStatus::Setup => SimStatusView::Setup,
            SimStatus::Running { setup } => SimStatusView::Running { setup: setup@ },
            SimStatus::Paused { setup } => SimStatusView::Paused { setup: setup@ },
        }
    }
}

/// A bounded queue after `item` was pushed: the oldest left if there were
/// `cap` already.
pub open spec fn pushed_capped<T>(queue: Seq<T>, item: T, cap: nat) -> Seq<T> {
    if queue.len() + 1 > cap {
        queue.push(item).subrange(1, queue.len() as int + 1)
    } else {
        queue.push(item)
    }
}

/// The duration that is simulated for a tick of `delta_time` microseconds.
pub open spec fn effective_delta(delta_time: u32) -> u32 {
    if delta_time > MAX_DELTA_TIME {
        0
    } else {
        delta_time
    }
}

impl SimStatusView {
    /// The layout the rope was released from, if it was.
    pub open spec fn snapshot(self) -> Option<RopeView> {
        match self {
            SimStatusView::Setup => None,
            SimStatusView::Running { setup } => Some(setup),
            SimStatusView::Paused { setup } => Some(setup),
        }
    }
}

impl MainGameView {
    /// The invariant of a session.
    pub open spec fn wf(self) -> bool {
        &&& self.level.wf()
        &&& self.rope.wf()
        &&& self.touched_targets.len() == self.level.targets.len()
        &&& (self.touching_target matches Some(i) ==> i < self.level.targets.len())
        &&& self.prev_trails.len() <= MAX_HISTORY
        &&& self.trail.len() <= MAX_TRAIL
        &&& match self.sim_status {
            SimStatusView::Setup => self.rope.settled(),
            SimStatusView::Running { setup } | SimStatusView::Paused { setup } => {
                &&& setup.wf()
                &&& setup.settled()
                &&& setup.len() == self.rope.len()
                &&& self.creating.is_none()
            },
        }
        &&& (self.creating matches Some(pos) ==> pos.in_world())
        &&& (self.win_status matches WinStatus::Won { bonuses } ==> all_touched(
            self.touched_targets,
        ) && bonuses == bonus(self.touched_targets))
    }

    /// The session as it starts on `level`: in setup, with the level's rope,
    /// no trail, no touch and no win.
    pub open spec fn initial(level: LevelView) -> MainGameView {
        MainGameView {
            rope: level.init_state,
            sim_status: SimStatusView::Setup,
            win_status: WinStatus::NotYet,
            prev_trails: Seq::empty(),
            trail: Seq::empty(),
            creating: None,
            touched_targets: Seq::new(level.targets.len(), |i: int| 0u8),
            touching_target: None,
            level,
        }
    }

    /// Where a placement at `pos` ends up in this level.
    pub open spec fn constrained(self, pos: V2) -> V2 {
        constrained(self.level.red_zones, self.level.targets, pos)
    }

    /// The session after a placement was begun at `pos`: it is, in setup and
    /// within reach of the tail.
    pub open spec fn began(self, pos: V2) -> MainGameView {
        if self.sim_status is Setup && self.rope.tail().dist_sq(pos) < GRAB_RADIUS * GRAB_RADIUS {
            MainGameView { creating: Some(pos), ..self }
        } else {
            self
        }
    }

    /// The session after the placement in progress, if there is one, was
    /// dragged to `pos`.
    pub open spec fn dragged(self, pos: V2) -> MainGameView {
        if self.creating.is_some() {
            MainGameView { creating: Some(self.constrained(pos)), ..self }
        } else {
            self
        }
    }

    /// The session after the placement in progress, if there is one, was
    /// dropped at `pos`: the rope has one more link.
    pub open spec fn committed(self, pos: V2) -> MainGameView {
        if self.creating.is_some() {
            MainGameView { rope: self.rope.added(self.constrained(pos)), creating: None, ..self }
        } else {
            self
        }
    }

    /// The session after the placement in progress was given up.
    pub open spec fn cancelled(self) -> MainGameView {
        MainGameView { creating: None, ..self }
    }

    /// The session after the run key: released from setup unless a placement
    /// is in progress, paused if it ran, running again if it was paused.
    pub open spec fn toggled(self, samples: Seq<(u16, u16)>) -> MainGameView {
        match self.sim_status {
            SimStatusView::Setup => if self.creating.is_none() {
                MainGameView {
                    rope: self.rope.jiggled(samples),
                    sim_status: SimStatusView::Running { setup: self.rope },
                    ..self
                }
            } else {
                self
            },
            SimStatusView::Running { setup } => MainGameView {
                sim_status: SimStatusView::Paused { setup },
                ..self
            },
            SimStatusView::Paused { setup } => MainGameView {
                sim_status: SimStatusView::Running { setup },
                ..self
            },
        }
    }

    /// The session after a pause was asked for: paused, unless in setup.
    pub open spec fn paused(self) -> MainGameView {
        match self.sim_status {
            SimStatusView::Setup => self,
            SimStatusView::Running { setup } | SimStatusView::Paused { setup } => MainGameView {
                sim_status: SimStatusView::Paused { setup },
                ..self
            },
        }
    }

    /// The session after the trails of earlier runs were cleared.
    pub open spec fn cleared(self) -> MainGameView {
        MainGameView { prev_trails: Seq::empty(), ..self }
    }

    /// The session after a hard reset: as it started on its level, but for
    /// a placement in progress, which goes on, and for the target that the
    /// tail was in, which the next tick looks at again.
    pub open spec fn hard_reset(self) -> MainGameView {
        MainGameView {
            creating: self.creating,
            touching_target: self.touching_target,
            ..MainGameView::initial(self.level)
        }
    }

    /// The session after a soft reset from the layout `setup`: running from
    /// that layout, jiggled anew, with the trail moved to the history and the
    /// score cleared.
    pub open spec fn soft_reset(self, setup: RopeView, samples: Seq<(u16, u16)>) -> MainGameView {
        MainGameView {
            rope: setup.jiggled(samples),
            sim_status: SimStatusView::Running { setup },
            win_status: WinStatus::NotYet,
            prev_trails: pushed_capped(self.prev_trails, self.trail, MAX_HISTORY as nat),
            trail: Seq::empty(),
            touched_targets: Seq::new(self.touched_targets.len(), |i: int| 0u8),
            ..self
        }
    }

    /// The session after a reset: the soft one if `soft` and the rope was
    /// released, else the hard one.
    pub open spec fn reset(self, soft: bool, samples: Seq<(u16, u16)>) -> MainGameView {
        match self.sim_status.snapshot() {
            Some(setup) if soft => self.soft_reset(setup, samples),
            _ => self.hard_reset(),
        }
    }

    /// The session after `event`.
    pub open spec fn handled(self, event: Event, samples: Seq<(u16, u16)>) -> MainGameView {
        match event {
            Event::MouseDown { pos } => self.began(pos),
            Event::MouseMove { pos } => self.dragged(pos),
            Event::MouseUp { pos, button } => if button == MouseButton::Left {
                self.committed(pos)
            } else {
                self
            },
            Event::KeyUp { code, shift } => if code == KEY_SPACE {
                self.toggled(samples)
            } else if code == KEY_C {
                self.cleared()
            } else if code == KEY_R {
                self.reset(!shift, samples)
            } else {
                self
            },
            Event::Other => self,
        }
    }

    /// The session one tick later. A running rope is simulated for the
    /// effective duration, and the place its tail left goes on the trail.
    /// Then, in every phase, the targets are held against the tail.
    pub open spec fn ticked(self, delta_time: u32) -> MainGameView {
        let running = self.sim_status is Running;
        let rope = if running {
            self.rope.simulated(
                self.level.gravity,
                effective_delta(delta_time),
                ITERATIONS as nat,
            )
        } else {
            self.rope
        };
        let trail = if running {
            pushed_capped(self.trail, self.rope.tail(), MAX_TRAIL as nat)
        } else {
            self.trail
        };
        let touched = touched_after(
            self.touched_targets,
            self.touching_target,
            self.level.targets,
            rope.tail(),
        );
        MainGameView {
            rope,
            trail,
            touched_targets: touched,
            touching_target: touching_after(self.level.targets, rope.tail()),
            win_status: win_after(self.win_status, touched),
            ..self
        }
    }
}

impl Event {
    /// The position that the event carries, if any, lies in the world.
    pub open spec fn wf(self) -> bool {
        match self {
            Event::MouseDown { pos } => pos.in_world(),
            Event::MouseMove { pos } => pos.in_world(),
            Event::MouseUp { pos, .. } => pos.in_world(),
            _ => true,
        }
    }

    /// Whether the event comes from the mouse.
    pub open spec fn from_mouse(self) -> bool {
        self is MouseDown || self is MouseMove || self is MouseUp
    }

    /// Tells whether the event comes from the mouse.
    pub fn is_mouse(&self) -> (b: bool)
        ensures
            b == self.from_mouse(),
    {
        match self {
            Event::MouseDown { .. } => true,
            Event::MouseMove { .. } => true,
            Event::MouseUp { .. } => true,
            _ => false,
        }
    }
}

impl View for MainGame {
    type V = MainGameView;

    closed spec fn view(&self) -> MainGameView {
        MainGameView {
            rope: self.rope@,
            sim_status: self.sim_status@,
            win_status: self.win_status,
            prev_trails: Seq::new(self.prev_trails@.len(), |i: int| self.prev_trails@[i]@),
            trail: self.trail@,
            creating: self.creating,
            touched_targets: self.touched_targets@,
            touching_target: self.touching_target,
            level: self.level@,
        }
    }
}

impl MainGame {
    /// The invariant of a session.
    pub open spec fn wf(&self) -> bool {
        self@.wf()
    }

    /// A session on `level`, in setup.
    pub fn new(level: Level) -> (game: MainGame)
        requires
            level.wf(),
        ensures
            game.wf(),
            game@ == MainGameView::initial(level@),
    {
        let rope = level.init_state().clone();
        let touched_targets = zeros(level.targets().len());
        let game = MainGame {
            rope,
            sim_status: SimStatus::Setup,
            win_status: WinStatus::NotYet,
            prev_trails: VecDeque::new(),
            trail: VecDeque::new(),
            creating: None,
            touched_targets,
            touching_target: None,
            level,
        };
        assert(game@.prev_trails =~= Seq::empty());
        assert(game@.touched_targets =~= Seq::new(level@.targets.len(), |i: int| 0u8));
        game
    }

    /// Where a placement at `pos` ends up: a position in a forbidden zone,
    /// or in the closed zone of a target, is moved to the boundary of the
    /// first such zone, so that a drag slides along it.
    pub fn constrain(&self, pos: V2) -> (q: V2)
        requires
            self.wf(),
            pos.in_world(),
        ensures
            q == self@.constrained(pos),
            q.in_world(),
    {
        let red_zones = self.level.red_zones();
        match find_zone(red_zones, pos) {
            Some(i) => {
                assert(red_zones@[i as int].wf());
                return red_zones[i].project(pos);
            },
            None => {},
        }
        let targets = self.level.targets();
        match find_closed(targets, pos) {
            Some(i) => {
                assert(targets@[i as int].wf());
                targets[i].closed_zone().project(pos)
            },
            None => pos,
        }
    }

    /// Begins a placement at `pos`, if the session is in setup and `pos` is
    /// within reach of the tail.
    pub fn begin_placement(&mut self, pos: V2)
        requires
            old(self).wf(),
            pos.in_world(),
        ensures
            final(self).wf(),
            final(self)@ == old(self)@.began(pos),
    {
        let in_setup = match &self.sim_status {
            SimStatus::Setup => true,
            _ => false,
        };
        if in_setup {
            let tail = self.rope.tail();
            let reach: u128 = (GRAB_RADIUS as u128) * (GRAB_RADIUS as u128);
            if tail.distance_squared(&pos) < reach {
                self.creating = Some(pos);
            }
        }
    }

    /// Drags the placement in progress to `pos`, if there is one.
    pub fn update_placement(&mut self, pos: V2)
        requires
            old(self).wf(),
            pos.in_world(),
        ensures
            final(self).wf(),
            final(self)@ == old(self)@.dragged(pos),
    {
        if self.creating.is_some() {
            let q = self.constrain(pos);
            self.creating = Some(q);
        }
    }

    /// Drops the placement in progress at `pos`, if there is one: the rope
    /// gets a link to where `pos` ends up.
    pub fn commit_placement(&mut self, pos: V2)
        requires
            old(self).wf(),
            pos.in_world(),
        ensures
            final(self).wf(),
            final(self)@ == old(self)@.committed(pos),
    {
        if self.creating.is_some() {
            let q = self.constrain(pos);
            let ghost before = self.rope@;
            self.rope.add(q);
            proof {
                crate::rope_laws::lemma_added_wf(before, q);
            }
            self.creating = None;
        }
    }

    /// Gives up the placement in progress.
    pub fn cancel_placement(&mut self)
        requires
            old(self).wf(),
        ensures
            final(self).wf(),
            final(self)@ == old(self)@.cancelled(),
    {
        self.creating = None;
    }

    /// Releases the rope from setup, pauses a running one, resumes a paused
    /// one. The release keeps a copy of the layout and jiggles the live rope
    /// by `samples`; it does not happen while a placement is in progress.
    pub fn toggle_run(&mut self, samples: &Vec<(u16, u16)>)
        requires
            old(self).wf(),
            old(self)@.sim_status is Setup ==> samples@.len() == old(self)@.rope.len(),
        ensures
            final(self).wf(),
            final(self)@ == old(self)@.toggled(samples@),
    {
        let mut status = SimStatus::Setup;
        core::mem::swap(&mut status, &mut self.sim_status);
        match status {
            SimStatus::Setup => {
                if self.creating.is_none() {
                    let setup = self.rope.clone();
                    self.rope.jiggle(samples);
                    self.sim_status = SimStatus::Running { setup };
                }
            },
            SimStatus::Running { setup } => {
                self.sim_status = SimStatus::Paused { setup };
            },
            SimStatus::Paused { setup } => {
                self.sim_status = SimStatus::Running { setup };
            },
        }
    }

    /// Pauses a released rope. In setup nothing happens.
    pub fn pause(&mut self)
        requires
            old(self).wf(),
        ensures
            final(self).wf(),
            final(self)@ == old(self)@.paused(),
    {
        let mut status = SimStatus::Setup;
        core::mem::swap(&mut status, &mut self.sim_status);
        match status {
            SimStatus::Setup => {},
            SimStatus::Running { setup } => {
                self.sim_status = SimStatus::Paused { setup };
            },
            SimStatus::Paused { setup } => {
                self.sim_status = SimStatus::Paused { setup };
            },
        }
    }

    /// Forgets the trails of earlier runs.
    pub fn clear_history(&mut self)
        requires
            old(self).wf(),
        ensures
            final(self).wf(),
            final(self)@ == old(self)@.cleared(),
    {
        self.prev_trails.clear();
        assert(self@.prev_trails =~= Seq::empty());
    }

    /// Goes back to setup on the level's own rope, without trail or history,
    /// and clears the score.
    pub fn hard_reset(&mut self)
        requires
            old(self).wf(),
        ensures
            final(self).wf(),
            final(self)@ == old(self)@.hard_reset(),
    {
        self.win_status = WinStatus::NotYet;
        self.touched_targets = zeros(self.touched_targets.len());
        self.sim_status = SimStatus::Setup;
        self.rope = self.level.init_state().clone();
        self.trail.clear();
        self.prev_trails.clear();
        assert(self@.prev_trails =~= Seq::empty());
    }

    /// Starts the run again from the layout the rope was released from,
    /// jiggled by `samples`, moves the trail to the history, and clears the
    /// score. In setup there is no such layout, and the reset is a hard one.
    pub fn soft_reset(&mut self, samples: &Vec<(u16, u16)>)
        requires
            old(self).wf(),
            !(old(self)@.sim_status is Setup) ==> samples@.len() == old(self)@.rope.len(),
        ensures
            final(self).wf(),
            final(self)@ == old(self)@.reset(true, samples@),
    {
        let mut status = SimStatus::Setup;
        core::mem::swap(&mut status, &mut self.sim_status);
        let setup = match status {
            SimStatus::Setup => {
                self.hard_reset();
                return ;
            },
            SimStatus::Running { setup } => setup,
            SimStatus::Paused { setup } => setup,
        };
        self.win_status = WinStatus::NotYet;
        self.touched_targets = zeros(self.touched_targets.len());
        self.rope = setup.clone();
        self.rope.jiggle(samples);
        let mut trail: VecDeque<V2> = VecDeque::new();
        core::mem::swap(&mut trail, &mut self.trail);
        self.prev_trails.push_back(trail);
        if self.prev_trails.len() > MAX_HISTORY {
            self.prev_trails.pop_front();
        }
        self.sim_status = SimStatus::Running { setup };
        assert(self@.prev_trails =~= pushed_capped(
            old(self)@.prev_trails,
            old(self)@.trail,
            MAX_HISTORY as nat,
        ));
        assert(self@.trail =~= Seq::empty());
    }

    /// Resets the session: softly if `soft`, else hard.
    pub fn reset(&mut self, soft: bool, samples: &Vec<(u16, u16)>)
        requires
            old(self).wf(),
            soft && !(old(self)@.sim_status is Setup) ==> samples@.len() == old(self)@.rope.len(),
        ensures
            final(self).wf(),
            final(self)@ == old(self)@.reset(soft, samples@),
    {
        if soft {
            self.soft_reset(samples);
        } else {
            self.hard_reset();
        }
    }

    /// Applies what the host reports: the mouse places links, space runs and
    /// pauses, `c` clears the history, `r` resets, softly unless shift is
    /// held. `samples` is read only where a rope is jiggled.
    pub fn on_event(&mut self, event: Event, samples: &Vec<(u16, u16)>)
        requires
            old(self).wf(),
            event.wf(),
            event is KeyUp ==> samples@.len() == old(self)@.rope.len(),
        ensures
            final(self).wf(),
            final(self)@ == old(self)@.handled(event, samples@),
    {
        match event {
            Event::MouseDown { pos } => {
                self.begin_placement(pos);
            },
            Event::MouseMove { pos } => {
                self.update_placement(pos);
            },
            Event::MouseUp { pos, button } => {
                if button == MouseButton::Left {
                    self.commit_placement(pos);
                }
            },
            Event::KeyUp { code, shift } => {
                if code == KEY_SPACE {
                    self.toggle_run(samples);
                } else if code == KEY_C {
                    self.clear_history();
                } else if code == KEY_R {
                    self.reset(!shift, samples);
                }
            },
            Event::Other => {},
        }
    }

    /// Advances the session by one tick of `delta_time` microseconds. While
    /// the rope runs, the place of its tail goes on the trail and the rope is
    /// simulated; a tick of more than fifty milliseconds moves nothing. Then
    /// the targets are held against the tail, and the win status follows.
    pub fn on_update(&mut self, delta_time: u32)
        requires
            old(self).wf(),
        ensures
            final(self).wf(),
            final(self)@ == old(self)@.ticked(delta_time),
    {
        let running = match &self.sim_status {
            SimStatus::Running { .. } => true,
            _ => false,
        };
        if running {
            let tail = self.rope.tail();
            let dt: u32 = if delta_time > MAX_DELTA_TIME {
                0
            } else {
                delta_time
            };
            self.rope.simulate(self.level.gravity(), dt, ITERATIONS);
            self.trail.push_back(tail);
            if self.trail.len() > MAX_TRAIL {
                self.trail.pop_front();
            }
            assert(self@.trail =~= pushed_capped(old(self)@.trail, tail, MAX_TRAIL as nat));
        }
        let tail = self.rope.tail();
        let ghost before = self.touched_targets@;
        let touching = track(
            self.level.targets(),
            &mut self.touched_targets,
            self.touching_target,
            tail,
        );
        proof {
            lemma_touched_after_grows(before, self.touching_target, self.level@.targets, tail);
        }
        self.touching_target = touching;
        self.win_status = score(&self.touched_targets, self.win_status);
    }

    /// The live rope.
    pub fn rope(&self) -> (rope: &Rope)
        ensures
            rope@ == self@.rope,
    {
        &self.rope
    }

    /// The phase, with the layout the rope was released from.
    pub fn sim_status(&self) -> (status: &SimStatus)
        ensures
            status@ == self@.sim_status,
    {
        &self.sim_status
    }

    /// Whether the level is won.
    pub fn win_status(&self) -> (status: WinStatus)
        ensures
            status == self@.win_status,
    {
        self.win_status
    }

    /// The trails of earlier runs, oldest first.
    pub fn prev_trails(&self) -> (trails: &VecDeque<VecDeque<V2>>)
        ensures
            trails@.len() == self@.prev_trails.len(),
            forall|i: int| 0 <= i < trails@.len() ==> (#[trigger] trails@[i])@ == self@.prev_trails[i],
    {
        &self.prev_trails
    }

    /// The trail of the current run, oldest position first.
    pub fn trail(&self) -> (trail: &VecDeque<V2>)
        ensures
            trail@ == self@.trail,
    {
        &self.trail
    }

    /// Where the placement in progress is, if there is one.
    pub fn is_placing(&self) -> (pos: Option<V2>)
        ensures
            pos == self@.creating,
    {
        self.creating
    }

    /// How often each target was touched.
    pub fn touched_targets(&self) -> (touched: &Vec<u8>)
        ensures
            touched@ == self@.touched_targets,
    {
        &self.touched_targets
    }

    /// The target that the tail was in at the last tick, if any.
    pub fn touching_target(&self) -> (touching: Option<usize>)
        ensures
            touching == self@.touching_target,
    {
        self.touching_target
    }

    /// How far `pos` is from the tail, rounded down to a whole tick.
    pub fn tail_distance(&self, pos: V2) -> (d: i64)
        requires
            self.wf(),
            pos.in_world(),
        ensures
            d == self@.rope.tail().dist(pos),
    {
        self.rope.tail().distance(&pos)
    }

    /// The level being played.
    pub fn level(&self) -> (level: &Level)
        ensures
            level@ == self@.level,
    {
        &self.level
    }

    /// Ends the session and hands its level back.
    pub fn into_level(self) -> (level: Level)
        ensures
            level@ == self@.level,
            self.wf() ==> level.wf(),
    {
        self.level
    }
}

/// As many counters as asked for, all at zero.
fn zeros(n: usize) -> (v: Vec<u8>)
    ensures
        v@ == Seq::new(n as nat, |i: int| 0u8),
{
    let mut v: Vec<u8> = Vec::new();
    let mut i: usize = 0;
    while i < n
        invariant
            0 <= i <= n,
            v@ == Seq::new(i as nat, |j: int| 0u8),
        decreases n - i,
    {
        v.push(0);
        i = i + 1;
    }
    v
}

} // verus!
