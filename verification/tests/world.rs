use bevy::time::Timer;
use bevy::time::TimerMode;
use std::time::Duration;
use tower_defense::bullet::BulletBundle;
use tower_defense::components::Entity;
use tower_defense::components::Health;
use tower_defense::components::Lifetime;
use tower_defense::scene::basic_scene;
use tower_defense::scene::TARGET_HEALTH;
use tower_defense::scene::TARGET_HITBOX;
use tower_defense::scene::TARGET_SPEED;
use tower_defense::scene::TOWER_PERIOD_NANOS;
use tower_defense::target::TargetBundle;
use tower_defense::tower::Tower;
use tower_defense::vec3::Vec3;
use tower_defense::vec3::WORLD_LIMIT;
use tower_defense::world::BulletEntity;
use tower_defense::world::TargetEntity;
use tower_defense::world::World;

const UNIT: i64 = 1_000_000_000_000;
const HITBOX: u64 = 200_000_000_000;
const TENTH_OF_A_SECOND: u64 = 100_000_000;

#[test]
fn new_world_is_empty() {
    let world = World::new();
    assert!(world.towers.is_empty());
    assert!(world.targets.is_empty());
    assert!(world.bullets.is_empty());
    assert_eq!(world.next_id, 0);
    assert!(world.is_well_formed());
    assert!(world.can_step(u64::MAX));
}

#[test]
fn spawned_entities_get_the_identifiers_in_turn() {
    let mut world = World::new();
    let tower = Tower::new(TENTH_OF_A_SECOND, Vec3::new(0, UNIT, 0)).unwrap();
    assert_eq!(world.spawn_tower(Vec3::new(1, 2, 3), tower), Some(Entity { id: 0 }));
    let target = TargetBundle::new(3000, Vec3::new(1, 0, 0), HITBOX);
    assert_eq!(world.spawn_target(Vec3::new(4, 5, 6), target), Some(Entity { id: 1 }));
    let bundle = BulletBundle::new(Vec3::new(0, 1, 0), 1000);
    assert_eq!(
        world.spawn_bullet(Vec3::new(7, 8, 9), Lifetime::new(5), bundle),
        Some(Entity { id: 2 })
    );
    assert_eq!(world.spawn_target(Vec3::new(0, 0, 0), target), Some(Entity { id: 3 }));

    assert_eq!(world.next_id, 4);
    assert_eq!(world.towers[0].position, Vec3::new(1, 2, 3));
    assert_eq!(world.towers[0].tower.bullet_spawn_offset, Vec3::new(0, UNIT, 0));
    assert_eq!(
        world.targets[0],
        TargetEntity { entity: Entity { id: 1 }, position: Vec3::new(4, 5, 6), bundle: target }
    );
    assert_eq!(world.targets[1].entity, Entity { id: 3 });
    assert_eq!(world.bullets[0].position, Vec3::new(7, 8, 9));
    assert_eq!(world.bullets[0].bundle, bundle);
    assert_eq!(world.bullets[0].lifetime.timer.duration().as_nanos(), 5);
    assert!(world.is_well_formed());
}

#[test]
fn nothing_is_admitted_outside_the_world() {
    let mut world = World::new();
    let target = TargetBundle::new(3000, Vec3::new(1, 0, 0), HITBOX);
    assert!(world.admits(&Vec3::new(WORLD_LIMIT, -WORLD_LIMIT, 0)));
    assert!(!world.admits(&Vec3::new(WORLD_LIMIT + 1, 0, 0)));
    assert_eq!(world.spawn_target(Vec3::new(0, WORLD_LIMIT + 1, 0), target), None);
    assert_eq!(world.spawn_target(Vec3::new(0, 0, -WORLD_LIMIT - 1), target), None);
    let tower = Tower::new(1, Vec3::new(0, 0, 0)).unwrap();
    assert_eq!(world.spawn_tower(Vec3::new(i64::MIN, 0, 0), tower), None);
    let bundle = BulletBundle::new(Vec3::new(0, 1, 0), 1000);
    assert_eq!(world.spawn_bullet(Vec3::new(0, i64::MAX, 0), Lifetime::new(5), bundle), None);
    assert!(world.targets.is_empty() && world.towers.is_empty() && world.bullets.is_empty());
    assert_eq!(world.next_id, 0);
}

#[test]
fn nothing_is_admitted_when_the_identifiers_are_spent() {
    let mut world = World::new();
    world.next_id = u64::MAX;
    let target = TargetBundle::new(3000, Vec3::new(1, 0, 0), HITBOX);
    assert!(!world.admits(&Vec3::new(0, 0, 0)));
    assert_eq!(world.spawn_target(Vec3::new(0, 0, 0), target), None);
    assert_eq!(world.next_id, u64::MAX);

    world.next_id = u64::MAX - 1;
    assert_eq!(world.spawn_target(Vec3::new(0, 0, 0), target), Some(Entity { id: u64::MAX - 1 }));
    assert!(world.is_well_formed());
}

#[test]
fn well_formedness_is_told() {
    let target = TargetBundle::new(3000, Vec3::new(1, 0, 0), HITBOX);
    let mut world = World::new();
    world.spawn_target(Vec3::new(0, 0, 0), target);
    world.spawn_target(Vec3::new(1, 0, 0), target);
    world.spawn_bullet(Vec3::new(0, 0, 0), Lifetime::new(1), BulletBundle::new(Vec3::new(0, 0, 0), 1));
    assert!(world.is_well_formed());

    world.targets[1].entity = Entity { id: 0 };
    assert!(!world.is_well_formed());
    world.targets[1].entity = Entity { id: 2 };
    assert!(!world.is_well_formed());
    world.targets[1].entity = Entity { id: 3 };
    assert!(!world.is_well_formed());
    world.targets[1].entity = Entity { id: 1 };
    assert!(world.is_well_formed());

    world.targets[0].position.z = WORLD_LIMIT + 1;
    assert!(!world.is_well_formed());
    world.targets[0].position.z = WORLD_LIMIT;
    assert!(world.is_well_formed());

    world.bullets.push(BulletEntity {
        entity: Entity { id: 1 },
        position: Vec3::new(0, 0, 0),
        lifetime: Lifetime::new(1),
        bundle: BulletBundle::new(Vec3::new(0, 0, 0), 1),
    });
    assert!(!world.is_well_formed());
}

#[test]
fn basic_scene_has_one_tower_and_two_targets() {
    let world = basic_scene();
    assert!(world.is_well_formed());
    assert_eq!(world.next_id, 3);
    assert_eq!(world.towers.len(), 1);
    assert_eq!(world.towers[0].entity, Entity { id: 0 });
    assert_eq!(world.towers[0].position, Vec3::new(0, 0, 0));
    assert_eq!(world.towers[0].tower.bullet_spawn_offset, Vec3::new(0, 1_400_000_000_000, 0));
    let timer = &world.towers[0].tower.shooting_timer;
    assert_eq!(timer.duration(), Duration::from_millis(100));
    assert_eq!(timer.duration().as_nanos(), TOWER_PERIOD_NANOS as u128);
    assert_eq!(timer.mode(), TimerMode::Repeating);
    assert_eq!(timer.elapsed(), Duration::ZERO);
    assert!(!timer.finished() && !timer.paused());
    assert_eq!(world.targets.len(), 2);
    let bundle = TargetBundle::new(10_000, Vec3::new(500, 0, 0), 200_000_000_000);
    assert_eq!(bundle, TargetBundle::new(TARGET_HEALTH, Vec3::new(TARGET_SPEED, 0, 0), TARGET_HITBOX));
    assert_eq!(
        world.targets[0],
        TargetEntity {
            entity: Entity { id: 1 },
            position: Vec3::new(-UNIT, 450_000_000_000, 1_500_000_000_000),
            bundle,
        }
    );
    assert_eq!(
        world.targets[1],
        TargetEntity {
            entity: Entity { id: 2 },
            position: Vec3::new(-2 * UNIT, 450_000_000_000, 1_500_000_000_000),
            bundle,
        }
    );
    assert!(world.bullets.is_empty());
}

#[test]
fn frame_fires_flies_and_moves_in_that_order() {
    let mut world = World::new();
    let tower = Tower::new(TENTH_OF_A_SECOND, Vec3::new(0, UNIT, 0)).unwrap();
    world.spawn_tower(Vec3::new(0, 0, 0), tower);
    world.spawn_target(Vec3::new(5 * UNIT, UNIT, 0), TargetBundle::new(3000, Vec3::new(-1000, 0, 0), HITBOX));

    world.step(TENTH_OF_A_SECOND);

    // The bullet spawned in this frame has flown for the frame, before the
    // target moved.
    assert_eq!(world.bullets.len(), 1);
    assert_eq!(world.bullets[0].position, Vec3::new(UNIT / 2, UNIT, 0));
    assert_eq!(world.bullets[0].bundle.velocity.val, Vec3::new(5000, 0, 0));
    assert_eq!(world.bullets[0].lifetime.timer.elapsed().as_nanos(), TENTH_OF_A_SECOND as u128);
    assert_eq!(world.targets[0].position, Vec3::new(5 * UNIT - UNIT / 10, UNIT, 0));
    assert!(world.is_well_formed());
}

#[test]
fn tower_shoots_a_target_down() {
    let mut world = World::new();
    let tower = Tower::new(5 * TENTH_OF_A_SECOND, Vec3::new(0, UNIT, 0)).unwrap();
    world.spawn_tower(Vec3::new(0, 0, 0), tower);
    let target = world
        .spawn_target(Vec3::new(2 * UNIT, UNIT, 0), TargetBundle::new(2000, Vec3::new(0, 0, 0), HITBOX))
        .unwrap();

    let mut frames = 0;
    while !world.targets.is_empty() {
        assert!(frames < 100);
        assert!(world.try_step(TENTH_OF_A_SECOND));
        assert!(world.is_well_formed());
        frames += 1;
        if let Some(left) = world.targets.first() {
            assert_eq!(left.entity, target);
            assert!(left.bundle.health.val > 0);
        }
    }

    // Shots leave in the frames that end 0.5 s and 1 s after the start and
    // fly half a unit in each frame from the one in which they leave: each is
    // at the target, 2 units away, three frames later.
    assert_eq!(frames, 13);
    assert!(world.bullets.is_empty());
    assert_eq!(world.next_id, 4);
}

#[test]
fn tower_is_admitted_with_a_cadence_only() {
    let offset = Vec3::new(0, 0, 0);
    let at = Vec3::new(0, 0, 0);
    let period = Duration::from_nanos(100);
    let mut world = World::new();

    let no_period = Tower { shooting_timer: Timer::new(Duration::ZERO, TimerMode::Repeating), bullet_spawn_offset: offset };
    assert_eq!(world.spawn_tower(at, no_period), None);
    let one_shot = Tower { shooting_timer: Timer::new(period, TimerMode::Once), bullet_spawn_offset: offset };
    assert_eq!(world.spawn_tower(at, one_shot), None);
    let mut paused = Tower { shooting_timer: Timer::new(period, TimerMode::Repeating), bullet_spawn_offset: offset };
    paused.shooting_timer.pause();
    assert_eq!(world.spawn_tower(at, paused), None);
    let mut late = Tower { shooting_timer: Timer::new(period, TimerMode::Repeating), bullet_spawn_offset: offset };
    late.shooting_timer.set_elapsed(period);
    assert_eq!(world.spawn_tower(at, late), None);
    let long = Tower {
        shooting_timer: Timer::new(Duration::from_nanos(u64::MAX) + Duration::from_nanos(1), TimerMode::Repeating),
        bullet_spawn_offset: offset,
    };
    assert_eq!(world.spawn_tower(at, long), None);
    assert!(world.towers.is_empty());
    assert_eq!(world.next_id, 0);

    let mut running = Tower { shooting_timer: Timer::new(period, TimerMode::Repeating), bullet_spawn_offset: offset };
    running.shooting_timer.set_elapsed(Duration::from_nanos(99));
    assert_eq!(world.spawn_tower(at, running), Some(Entity { id: 0 }));
    let longest = Tower { shooting_timer: Timer::new(Duration::from_nanos(u64::MAX), TimerMode::Repeating), bullet_spawn_offset: offset };
    assert_eq!(world.spawn_tower(at, longest), Some(Entity { id: 1 }));
    assert_eq!(world.spawn_tower(at, Tower::default()), None);
    assert!(world.is_well_formed());
}

#[test]
fn bullet_is_admitted_with_a_countdown_only() {
    let at = Vec3::new(0, 0, 0);
    let bundle = BulletBundle::new(Vec3::new(1, 0, 0), 1);
    let span = Duration::from_nanos(100);
    let mut world = World::new();

    let repeating = Lifetime { timer: Timer::new(span, TimerMode::Repeating) };
    assert_eq!(world.spawn_bullet(at, repeating, bundle), None);
    let mut paused = Lifetime::new(100);
    paused.timer.pause();
    assert_eq!(world.spawn_bullet(at, paused, bundle), None);
    let mut finished = Lifetime::new(100);
    finished.timer.tick(span);
    assert_eq!(world.spawn_bullet(at, finished, bundle), None);
    let mut beyond = Lifetime::new(100);
    beyond.timer.set_elapsed(Duration::from_nanos(101));
    assert_eq!(world.spawn_bullet(at, beyond, bundle), None);
    let long = Lifetime { timer: Timer::new(Duration::MAX, TimerMode::Once) };
    assert_eq!(world.spawn_bullet(at, long, bundle), None);
    assert!(world.bullets.is_empty());

    let mut half = Lifetime::new(100);
    half.timer.set_elapsed(Duration::from_nanos(100));
    assert_eq!(world.spawn_bullet(at, half, bundle), Some(Entity { id: 0 }));
    assert_eq!(world.spawn_bullet(at, Lifetime::new(0), bundle), Some(Entity { id: 1 }));
    assert_eq!(world.spawn_bullet(at, Lifetime::new(u64::MAX), bundle), Some(Entity { id: 2 }));
    assert_eq!(world.spawn_bullet(at, Lifetime::default(), bundle), Some(Entity { id: 3 }));
    assert!(world.is_well_formed());

    // Whatever the step, every bullet can be ticked: the first two and the
    // last are removed at once, the third after its time.
    assert!(world.try_step(u64::MAX - 1));
    assert_eq!(world.bullets.len(), 1);
    assert_eq!(world.bullets[0].entity, Entity { id: 2 });
    assert!(world.try_step(1));
    assert!(world.bullets.is_empty());
}

#[test]
fn store_with_an_unsound_timer_is_not_well_formed() {
    let mut world = World::new();
    world.spawn_tower(Vec3::new(0, 0, 0), Tower::new(100, Vec3::new(0, 0, 0)).unwrap());
    world.spawn_bullet(Vec3::new(0, 0, 0), Lifetime::new(100), BulletBundle::new(Vec3::new(0, 0, 0), 1));
    assert!(world.is_well_formed());

    world.towers[0].tower.shooting_timer.pause();
    assert!(!world.is_well_formed());
    assert!(!world.try_step(1));
    world.towers[0].tower.shooting_timer.unpause();
    assert!(world.is_well_formed());

    world.towers[0].tower.shooting_timer.set_mode(TimerMode::Once);
    assert!(!world.is_well_formed());
    world.towers[0].tower.shooting_timer.set_mode(TimerMode::Repeating);
    world.towers[0].tower.shooting_timer.set_duration(Duration::ZERO);
    assert!(!world.is_well_formed());
    assert!(!world.can_step(0));
    world.towers[0].tower.shooting_timer.set_duration(Duration::from_nanos(100));
    assert!(world.is_well_formed());

    world.bullets[0].lifetime.timer.set_mode(TimerMode::Repeating);
    assert!(!world.is_well_formed());
    assert!(!world.try_step(1));
    assert_eq!(world.bullets[0].lifetime.timer.elapsed(), Duration::ZERO);
}

#[test]
fn frame_is_refused_where_the_engine_cannot_count_the_periods() {
    let mut world = World::new();
    world.spawn_tower(Vec3::new(0, 0, 0), Tower::new(1, Vec3::new(0, UNIT, 0)).unwrap());
    let target = TargetBundle::new(1, Vec3::new(1, 0, 0), HITBOX);
    world.spawn_target(Vec3::new(5 * UNIT, UNIT, 0), target);

    // 2^32 periods in one tick are more than the counter of the engine holds.
    assert!(!world.can_step(1 << 32));
    assert!(!world.try_step(1 << 32));
    assert!(!world.can_step(u64::MAX));
    assert!(world.bullets.is_empty());
    assert_eq!(world.targets[0].position, Vec3::new(5 * UNIT, UNIT, 0));
    assert_eq!(world.towers[0].tower.shooting_timer.elapsed(), Duration::ZERO);

    // One period less is counted, and the tower fires once.
    assert!(world.can_step((1 << 32) - 1));
    assert!(world.try_step((1 << 32) - 1));
    assert_eq!(world.towers[0].tower.shooting_timer.times_finished_this_tick(), u32::MAX);
    assert_eq!(world.towers[0].tower.shooting_timer.elapsed(), Duration::ZERO);
    assert_eq!(world.next_id, 3);

    let mut slow = World::new();
    slow.spawn_tower(Vec3::new(0, 0, 0), Tower::new(1000, Vec3::new(0, UNIT, 0)).unwrap());
    slow.towers[0].tower.shooting_timer.set_elapsed(Duration::from_nanos(999));
    assert!(!slow.can_step(4_294_967_296_000 - 999));
    assert!(slow.can_step(4_294_967_296_000 - 1000));
}

#[test]
fn frame_is_refused_where_identifiers_would_run_out() {
    let mut world = World::new();
    world.next_id = u64::MAX - 1;
    world.spawn_tower(Vec3::new(0, 0, 0), Tower::new(1, Vec3::new(0, 0, 0)).unwrap());
    assert_eq!(world.next_id, u64::MAX);
    assert!(!world.can_step(1));
    assert!(!world.try_step(1));

    let mut roomy = World::new();
    roomy.next_id = u64::MAX - 2;
    roomy.spawn_tower(Vec3::new(0, 0, 0), Tower::new(1, Vec3::new(0, 0, 0)).unwrap());
    roomy.spawn_target(Vec3::new(UNIT, 0, 0), TargetBundle { health: Health { val: 1 }, ..Default::default() });
    roomy.next_id = u64::MAX - 1;
    roomy.targets[0].entity = Entity { id: u64::MAX - 3 };
    assert!(roomy.is_well_formed());
    assert!(roomy.try_step(1));
    assert_eq!(roomy.bullets[0].entity, Entity { id: u64::MAX - 1 });
    assert_eq!(roomy.next_id, u64::MAX);
}

#[test]
fn same_frames_give_the_same_world() {
    let run = || {
        let mut world = basic_scene();
        for frame in 0..400u64 {
            assert!(world.try_step(16_000_000 + frame % 7));
        }
        world
    };
    let (a, b) = (run(), run());
    assert_eq!(a.targets, b.targets);
    assert_eq!(a.next_id, b.next_id);
    assert_eq!(a.bullets.len(), b.bullets.len());
    for (x, y) in a.bullets.iter().zip(b.bullets.iter()) {
        assert_eq!(x.entity, y.entity);
        assert_eq!(x.position, y.position);
        assert_eq!(x.bundle, y.bundle);
        assert_eq!(x.lifetime.timer.elapsed(), y.lifetime.timer.elapsed());
    }
    assert!(a.next_id > 3);
}

#[test]
fn frame_is_refused_where_the_store_is_not_well_formed() {
    let mut world = World::new();
    let target = TargetBundle::new(1, Vec3::new(1, 0, 0), HITBOX);
    world.spawn_target(Vec3::new(0, 0, 0), target);
    world.spawn_target(Vec3::new(5, 0, 0), target);
    world.targets[1].entity = world.targets[0].entity;

    assert!(world.can_step(1));
    assert!(!world.try_step(1));
    assert_eq!(world.targets[0].position, Vec3::new(0, 0, 0));
    assert_eq!(world.targets[1].position, Vec3::new(5, 0, 0));

    world.targets[1].entity = Entity { id: 1 };
    assert!(world.try_step(1));
    assert_eq!(world.targets[0].position, Vec3::new(1, 0, 0));
    assert_eq!(world.targets[1].position, Vec3::new(6, 0, 0));
}
