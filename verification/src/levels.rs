//! The levels that come with the library.

use vstd::prelude::*;
use crate::level::{Level, LevelId, LevelView};
use crate::vector::V2;
use crate::zone::{Circle, Target};

verus! {

/// The pull of every level but the last: a thousand units per second
/// squared.
pub const GRAVITY: i64 = 65_536_000;

/// The same pull along a diagonal, on each axis.
pub const GRAVITY_DIAGONAL: i64 = 46_340_950;

/// What each of the levels holds.
pub open spec fn level_view(id: LevelId) -> LevelView {
    match id {
        LevelId::Tutorial => LevelView {
            tutorial: true,
            next_level: Some(LevelId::Second),
            ..LevelView::plain(
                V2::at(0, 0),
                seq![V2::at(0, -300)],
                V2 { x: 0, y: GRAVITY },
                seq![Target::at(0, 0, 50, 250)],
                seq![],
            )
        },
        LevelId::Second => LevelView {
            custom_text: Some("you're not limited to two sticks"@),
            next_level: Some(LevelId::Third),
            ..LevelView::plain(
                V2::at(0, 0),
                seq![V2::at(0, -300), V2::at(10, 300)],
                V2 { x: 0, y: GRAVITY },
                seq![Target::at(0, 0, 50, 250)],
                seq![],
            )
        },
        LevelId::Third => LevelView {
            custom_text: Some("soft retries with 'r' lead to win more often than you'd think"@),
            next_level: Some(LevelId::Fourth),
            ..LevelView::plain(
                V2::at(0, 0),
                seq![V2::at(0, -300)],
                V2 { x: 0, y: GRAVITY },
                seq![Target::at(0, 0, 50, 250), Target::at(550, 0, 100, 100)],
                seq![],
            )
        },
        LevelId::Fourth => LevelView {
            custom_text: Some("you can skip this easy level through the settings ->"@),
            next_level: Some(LevelId::Fifth),
            ..LevelView::plain(
                V2::at(0, 0),
                seq![V2::at(0, -300)],
                V2 { x: 0, y: GRAVITY },
                seq![Target::at(-550, 0, 100, 100), Target::at(550, 0, 100, 100)],
                seq![
                    Circle::at(-550, -500, 300),
                    Circle::at(550, -500, 300),
                    Circle::at(-550, 500, 300),
                    Circle::at(550, 500, 300),
                ],
            )
        },
        LevelId::Fifth => LevelView {
            next_level: Some(LevelId::Sixth),
            ..LevelView::plain(
                V2::at(0, 0),
                seq![V2::at(0, -200)],
                V2 { x: 0, y: GRAVITY },
                seq![
                    Target::at(400, -350, 50, 40),
                    Target::at(-400, 350, 50, 40),
                    Target::at(500, 450, 50, 40),
                ],
                seq![Circle::at(-500, -450, 90)],
            )
        },
        LevelId::Sixth => LevelView {
            custom_text: Some("watch your step, gravity is weird"@),
            ..LevelView::plain(
                V2::at(0, 0),
                seq![V2::at(0, -200)],
                V2 { x: GRAVITY_DIAGONAL, y: GRAVITY_DIAGONAL },
                seq![Target::at(-350, -350, 50, 250)],
                seq![],
            )
        },
    }
}

/// What the level for trying things out holds: the layout of the tutorial,
/// without the tutorial and with no level after it.
pub open spec fn test_view() -> LevelView {
    LevelView::plain(
        V2::at(0, 0),
        seq![V2::at(0, -300)],
        V2 { x: 0, y: GRAVITY },
        seq![Target::at(0, 0, 50, 250)],
        seq![],
    )
}

impl Level {
    /// A level for trying things out.
    pub fn test() -> (level: Level)
        ensures
            level.wf(),
            level@ == test_view(),
    {
        let links = vec![V2::from_units(0, -300)];
        let targets = vec![Target::from_units(0, 0, 50, 250)];
        let red_zones: Vec<Circle> = Vec::new();
        assert(links@ =~= seq![V2::at(0, -300)]);
        assert(targets@ =~= seq![Target::at(0, 0, 50, 250)]);
        assert(red_zones@ =~= seq![]);
        Level::new(V2::from_units(0, 0), &links, V2::new(0, GRAVITY), targets, red_zones).unwrap()
    }

    /// The level with the given name.
    pub fn load(id: LevelId) -> (level: Level)
        ensures
            level.wf(),
            level@ == level_view(id),
    {
        match id {
            LevelId::Tutorial => Level::tutorial_level(),
            LevelId::Second => Level::second_level(),
            LevelId::Third => Level::third_level(),
            LevelId::Fourth => Level::fourth_level(),
            LevelId::Fifth => Level::fifth_level(),
            LevelId::Sixth => Level::sixth_level(),
        }
    }

    /// One stick above a target at the root, with the tutorial.
    pub fn tutorial_level() -> (level: Level)
        ensures
            level.wf(),
            level@ == level_view(LevelId::Tutorial),
    {
        let links = vec![V2::from_units(0, -300)];
        let targets = vec![Target::from_units(0, 0, 50, 250)];
        let red_zones: Vec<Circle> = Vec::new();
        assert(links@ =~= seq![V2::at(0, -300)]);
        assert(targets@ =~= seq![Target::at(0, 0, 50, 250)]);
        assert(red_zones@ =~= seq![]);
        let level = Level::new(
            V2::from_units(0, 0),
            &links,
            V2::new(0, GRAVITY),
            targets,
            red_zones,
        );
        level.unwrap().with_tutorial().with_next_level(LevelId::Second)
    }

    /// Two sticks above the same target.
    pub fn second_level() -> (level: Level)
        ensures
            level.wf(),
            level@ == level_view(LevelId::Second),
    {
        let links = vec![V2::from_units(0, -300), V2::from_units(10, 300)];
        let targets = vec![Target::from_units(0, 0, 50, 250)];
        let red_zones: Vec<Circle> = Vec::new();
        assert(links@ =~= seq![V2::at(0, -300), V2::at(10, 300)]);
        assert(targets@ =~= seq![Target::at(0, 0, 50, 250)]);
        assert(red_zones@ =~= seq![]);
        let level = Level::new(
            V2::from_units(0, 0),
            &links,
            V2::new(0, GRAVITY),
            targets,
            red_zones,
        );
        level.unwrap().with_custom_text("you're not limited to two sticks").with_next_level(
            LevelId::Third,
        )
    }

    /// A second target far to the right.
    pub fn third_level() -> (level: Level)
        ensures
            level.wf(),
            level@ == level_view(LevelId::Third),
    {
        let links = vec![V2::from_units(0, -300)];
        let targets = vec![Target::from_units(0, 0, 50, 250), Target::from_units(550, 0, 100, 100)];
        let red_zones: Vec<Circle> = Vec::new();
        assert(links@ =~= seq![V2::at(0, -300)]);
        assert(targets@ =~= seq![Target::at(0, 0, 50, 250), Target::at(550, 0, 100, 100)]);
        assert(red_zones@ =~= seq![]);
        let level = Level::new(
            V2::from_units(0, 0),
            &links,
            V2::new(0, GRAVITY),
            targets,
            red_zones,
        );
        level.unwrap().with_custom_text(
            "soft retries with 'r' lead to win more often than you'd think",
        ).with_next_level(LevelId::Fourth)
    }

    /// A target on either side, and a forbidden zone in every corner.
    pub fn fourth_level() -> (level: Level)
        ensures
            level.wf(),
            level@ == level_view(LevelId::Fourth),
    {
        let links = vec![V2::from_units(0, -300)];
        let targets = vec![
            Target::from_units(-550, 0, 100, 100),
            Target::from_units(550, 0, 100, 100),
        ];
        let red_zones = vec![
            Circle::from_units(-550, -500, 300),
            Circle::from_units(550, -500, 300),
            Circle::from_units(-550, 500, 300),
            Circle::from_units(550, 500, 300),
        ];
        assert(links@ =~= seq![V2::at(0, -300)]);
        assert(targets@ =~= seq![Target::at(-550, 0, 100, 100),
            Target::at(550, 0, 100, 100),]);
        assert(red_zones@ =~= seq![Circle::at(-550, -500, 300),
            Circle::at(550, -500, 300),
            Circle::at(-550, 500, 300),
            Circle::at(550, 500, 300),]);
        let level = Level::new(
            V2::from_units(0, 0),
            &links,
            V2::new(0, GRAVITY),
            targets,
            red_zones,
        );
        level.unwrap().with_custom_text(
            "you can skip this easy level through the settings ->",
        ).with_next_level(LevelId::Fifth)
    }

    /// Three small targets in three corners, a forbidden zone in the fourth.
    pub fn fifth_level() -> (level: Level)
        ensures
            level.wf(),
            level@ == level_view(LevelId::Fifth),
    {
        let links = vec![V2::from_units(0, -200)];
        let targets = vec![
            Target::from_units(400, -350, 50, 40),
            Target::from_units(-400, 350, 50, 40),
            Target::from_units(500, 450, 50, 40),
        ];
        let red_zones = vec![Circle::from_units(-500, -450, 90)];
        assert(links@ =~= seq![V2::at(0, -200)]);
        assert(targets@ =~= seq![Target::at(400, -350, 50, 40),
            Target::at(-400, 350, 50, 40),
            Target::at(500, 450, 50, 40),]);
        assert(red_zones@ =~= seq![Circle::at(-500, -450, 90)]);
        let level = Level::new(
            V2::from_units(0, 0),
            &links,
            V2::new(0, GRAVITY),
            targets,
            red_zones,
        );
        level.unwrap().with_next_level(LevelId::Sixth)
    }

    /// One target up and to the left, and gravity that pulls down and to
    /// the right.
    pub fn sixth_level() -> (level: Level)
        ensures
            level.wf(),
            level@ == level_view(LevelId::Sixth),
    {
        let links = vec![V2::from_units(0, -200)];
        let targets = vec![Target::from_units(-350, -350, 50, 250)];
        let red_zones: Vec<Circle> = Vec::new();
        assert(links@ =~= seq![V2::at(0, -200)]);
        assert(targets@ =~= seq![Target::at(-350, -350, 50, 250)]);
        assert(red_zones@ =~= seq![]);
        let level = Level::new(
            V2::from_units(0, 0),
            &links,
            V2::new(GRAVITY_DIAGONAL, GRAVITY_DIAGONAL),
            targets,
            red_zones,
        );
        level.unwrap().with_custom_text("watch your step, gravity is weird")
    }
}

} // verus!
