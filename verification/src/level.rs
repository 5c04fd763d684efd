//! Levels: where the rope starts, how it falls, what it must touch and
//! where it may not be extended.

use vstd::prelude::*;
use crate::rope::{Rope, RopeView};
use crate::rope_laws::lemma_added_wf;
use crate::vector::{all_in_world, V2};
use crate::zone::{Circle, Target};

verus! {

/// The levels that come with the library, in the order in which they are
/// played.
#[derive(Clone, Copy, Debug, PartialEq, Eq, Structural)]
pub enum LevelId {
    Tutorial,
    Second,
    Third,
    Fourth,
    Fifth,
    Sixth,
}

/// A level. Once made it does not change: a session copies the rope.
#[derive(Debug)]
pub struct Level {
    init_state: Rope,
    gravity: V2,
    targets: Vec<Target>,
    red_zones: Vec<Circle>,
    tutorial: bool,
    custom_text: Option<&'static str>,
    next_level: Option<LevelId>,
}

/// What a level holds.
pub struct LevelView {
    pub init_state: RopeView,
    pub gravity: V2,
    pub targets: Seq<Target>,
    pub red_zones: Seq<Circle>,
    pub tutorial: bool,
    pub custom_text: Option<Seq<char>>,
    pub next_level: Option<LevelId>,
}

/// Whether all targets are well formed, and few enough for the sum of their
/// touch counters to be counted.
pub open spec fn targets_wf(targets: Seq<Target>) -> bool {
    &&& 255 * targets.len() <= usize::MAX
    &&& forall|i: int| 0 <= i < targets.len() ==> (#[trigger] targets[i]).wf()
}

/// Whether all zones are well formed.
pub open spec fn zones_wf(zones: Seq<Circle>) -> bool {
    forall|i: int| 0 <= i < zones.len() ==> (#[trigger] zones[i]).wf()
}

impl LevelView {
    /// The initial rope is well formed and settled, and so are the zones.
    pub open spec fn wf(self) -> bool {
        &&& self.init_state.wf()
        &&& self.init_state.settled()
        &&& targets_wf(self.targets)
        &&& zones_wf(self.red_zones)
    }

    /// The level with this layout, and nothing else said of it.
    pub open spec fn plain(
        root: V2,
        links: Seq<V2>,
        gravity: V2,
        targets: Seq<Target>,
        red_zones: Seq<Circle>,
    ) -> LevelView {
        LevelView {
            init_state: RopeView::through(root, links),
            gravity,
            targets,
            red_zones,
            tutorial: false,
            custom_text: None,
            next_level: None,
        }
    }
}

impl View for Level {
    type V = LevelView;

    closed spec fn view(&self) -> LevelView {
        LevelView {
            init_state: self.init_state@,
            gravity: self.gravity,
            targets: self.targets@,
            red_zones: self.red_zones@,
            tutorial: self.tutorial,
            custom_text: match self.custom_text {
                Some(text) => Some(text@),
                None => None,
            },
            next_level: self.next_level,
        }
    }
}

/// Tells whether all targets are well formed and few enough.
fn check_targets(targets: &Vec<Target>) -> (b: bool)
    ensures
        b == targets_wf(targets@),
{
    if targets.len() > usize::MAX / 255 {
        return false;
    }
    let mut i: usize = 0;
    while i < targets.len()
        invariant
            0 <= i <= targets.len(),
            forall|j: int| 0 <= j < i ==> (#[trigger] targets@[j]).wf(),
        decreases targets.len() - i,
    {
        if !targets[i].is_wf() {
            return false;
        }
        i = i + 1;
    }
    true
}

/// Tells whether all zones are well formed.
fn check_zones(zones: &Vec<Circle>) -> (b: bool)
    ensures
        b == zones_wf(zones@),
{
    let mut i: usize = 0;
    while i < zones.len()
        invariant
            0 <= i <= zones.len(),
            forall|j: int| 0 <= j < i ==> (#[trigger] zones@[j]).wf(),
        decreases zones.len() - i,
    {
        if !zones[i].is_wf() {
            return false;
        }
        i = i + 1;
    }
    true
}

/// Tells whether all points lie in the world.
fn check_links(links: &Vec<V2>) -> (b: bool)
    ensures
        b == all_in_world(links@),
{
    let mut i: usize = 0;
    while i < links.len()
        invariant
            0 <= i <= links.len(),
            forall|j: int| 0 <= j < i ==> (#[trigger] links@[j]).in_world(),
        decreases links.len() - i,
    {
        if !links[i].is_in_world() {
            return false;
        }
        i = i + 1;
    }
    true
}

impl Level {
    /// The invariant of a level.
    pub open spec fn wf(&self) -> bool {
        self@.wf()
    }

    /// The level whose rope runs from `root` through `links` and falls under
    /// `gravity`, with the given targets and forbidden zones. There is none
    /// if a point lies outside the world, if a zone is not well formed, or if
    /// the targets are more than can be scored.
    pub fn new(
        root: V2,
        links: &Vec<V2>,
        gravity: V2,
        targets: Vec<Target>,
        red_zones: Vec<Circle>,
    ) -> (level: Option<Level>)
        ensures
            level.is_some() <==> root.in_world() && all_in_world(links@) && targets_wf(targets@)
                && zones_wf(red_zones@),
            level matches Some(l) ==> l.wf() && l@ == LevelView::plain(
                root,
                links@,
                gravity,
                targets@,
                red_zones@,
            ),
    {
        if !root.is_in_world() || !check_links(links) || !check_targets(&targets) || !check_zones(
            &red_zones,
        ) {
            return None;
        }
        let mut rope = Rope::new(root);
        let mut i: usize = 0;
        while i < links.len()
            invariant
                0 <= i <= links.len(),
                root.in_world(),
                all_in_world(links@),
                rope.wf(),
                rope@.settled(),
                rope@ == RopeView::through(root, links@.take(i as int)),
            decreases links.len() - i,
        {
            assert(links@[i as int].in_world());
            let ghost before = rope@;
            rope.add(links[i]);
            proof {
                lemma_added_wf(before, links@[i as int]);
                assert(links@.take(i + 1).drop_last() =~= links@.take(i as int));
            }
            i = i + 1;
        }
        assert(links@.take(links@.len() as int) =~= links@);
        Some(
            Level {
                init_state: rope,
                gravity,
                targets,
                red_zones,
                tutorial: false,
                custom_text: None,
                next_level: None,
            },
        )
    }

    /// The same level, followed by `next`.
    pub fn with_next_level(self, next: LevelId) -> (level: Level)
        ensures
            level@ == (LevelView { next_level: Some(next), ..self@ }),
    {
        let mut level = self;
        level.next_level = Some(next);
        level
    }

    /// The same level, shown with `text` above it.
    pub fn with_custom_text(self, text: &'static str) -> (level: Level)
        ensures
            level@ == (LevelView { custom_text: Some(text@), ..self@ }),
    {
        let mut level = self;
        level.custom_text = Some(text);
        level
    }

    /// The same level, played with the tutorial.
    pub fn with_tutorial(self) -> (level: Level)
        ensures
            level@ == (LevelView { tutorial: true, ..self@ }),
    {
        let mut level = self;
        level.tutorial = true;
        level
    }

    /// The rope as the level starts.
    pub fn init_state(&self) -> (rope: &Rope)
        ensures
            rope@ == self@.init_state,
    {
        &self.init_state
    }

    /// The acceleration of every free point, in ticks per second squared.
    pub fn gravity(&self) -> (g: V2)
        ensures
            g == self@.gravity,
    {
        self.gravity
    }

    /// The targets, in the order in which they are scored.
    pub fn targets(&self) -> (targets: &Vec<Target>)
        ensures
            targets@ == self@.targets,
    {
        &self.targets
    }

    /// The zones in which no link may end.
    pub fn red_zones(&self) -> (zones: &Vec<Circle>)
        ensures
            zones@ == self@.red_zones,
    {
        &self.red_zones
    }

    /// Whether the level is played with the tutorial.
    pub fn tutorial(&self) -> (b: bool)
        ensures
            b == self@.tutorial,
    {
        self.tutorial
    }

    /// The text shown above the level, if any.
    pub fn custom_text(&self) -> (text: Option<&'static str>)
        ensures
            match text {
                Some(t) => self@.custom_text == Some(t@),
                None => self@.custom_text.is_none(),
            },
    {
        self.custom_text
    }

    /// The level that follows, if any.
    pub fn next_level(&self) -> (next: Option<LevelId>)
        ensures
            next == self@.next_level,
    {
        self.next_level
    }
}

} // verus!
