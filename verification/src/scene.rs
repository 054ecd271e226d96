//! The scene that the game starts with.
use crate::clock::TimerView;
use crate::components::Entity;
use crate::components::Health;
use crate::components::Velocity;
use crate::target::Target;
use crate::target::TargetBundle;
use crate::tower::Tower;
use crate::vec3::Vec3;
use crate::world::TargetEntity;
use crate::world::TowerView;
use crate::world::World;
use crate::world::WorldView;
use bevy::time::TimerMode;
use vstd::prelude::*;

verus! {

/// The period of the tower of the scene: a tenth of a second.
pub const TOWER_PERIOD_NANOS: u64 = 100_000_000;

/// The health of a target of the scene: ten health points.
pub const TARGET_HEALTH: i64 = 10_000;

/// The speed of a target of the scene: half a world unit per second.
pub const TARGET_SPEED: i64 = 500;

/// The radius of the hitbox of a target of the scene: a fifth of a world
/// unit.
pub const TARGET_HITBOX: u64 = 200_000_000_000;

/// The tower of the scene: it stands at the origin and its bullets appear
/// 1.4 world units above it.
pub open spec fn scene_tower() -> TowerView {
    TowerView {
        entity: Entity { id: 0 },
        position: Vec3 { x: 0, y: 0, z: 0 },
        shooting_timer: TimerView::fresh(TOWER_PERIOD_NANOS as nat, TimerMode::Repeating),
        bullet_spawn_offset: Vec3 { x: 0, y: 1_400_000_000_000, z: 0 },
    }
}

/// A target of the scene: it starts `x` length units along the first axis
/// and moves along that axis.
pub open spec fn scene_target(id: u64, x: i64) -> TargetEntity {
    TargetEntity {
        entity: Entity { id },
        position: Vec3 { x, y: 450_000_000_000, z: 1_500_000_000_000 },
        bundle: TargetBundle {
            velocity: Velocity { val: Vec3 { x: TARGET_SPEED, y: 0, z: 0 } },
            health: Health { val: TARGET_HEALTH },
            target: Target { hitbox: TARGET_HITBOX },
        },
    }
}

/// The store that the game starts with: one tower, and two targets one and
/// two world units behind it that move past it.
pub fn basic_scene() -> (world: World)
    ensures
        world@ == (WorldView {
            towers: seq![scene_tower()],
            targets: seq![
                scene_target(1, -1_000_000_000_000i64),
                scene_target(2, -2_000_000_000_000i64),
            ],
            bullets: Seq::empty(),
            next_id: 3,
        }),
        world.wf(),
{
    let mut world = World::new();
    let tower = Tower::new(TOWER_PERIOD_NANOS, Vec3::new(0, 1_400_000_000_000, 0));
    match tower {
        Some(tower) => {
            world.spawn_tower(Vec3::new(0, 0, 0), tower);
        },
        None => {},
    }
    let bundle = TargetBundle::new(TARGET_HEALTH, Vec3::new(TARGET_SPEED, 0, 0), TARGET_HITBOX);
    world.spawn_target(Vec3::new(-1_000_000_000_000, 450_000_000_000, 1_500_000_000_000), bundle);
    world.spawn_target(Vec3::new(-2_000_000_000_000, 450_000_000_000, 1_500_000_000_000), bundle);
    proof {
        assert(world@.towers =~= seq![scene_tower()]);
        assert(world@.targets =~= seq![
            scene_target(1, -1_000_000_000_000i64),
            scene_target(2, -2_000_000_000_000i64),
        ]);
    }
    world
}

} // verus!
