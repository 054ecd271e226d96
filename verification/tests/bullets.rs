use tower_defense::bullet::find_strike;
use tower_defense::bullet::update_bullets;
use tower_defense::bullet::BulletBundle;
use tower_defense::components::Entity;
use tower_defense::components::Health;
use tower_defense::components::Lifetime;
use tower_defense::target::update_targets;
use tower_defense::target::TargetBundle;
use tower_defense::vec3::Vec3;
use tower_defense::vec3::WORLD_LIMIT;
use tower_defense::world::TargetEntity;
use tower_defense::world::World;

const UNIT: i64 = 1_000_000_000_000;
const HITBOX: u64 = 200_000_000_000;
const SECOND: u64 = 1_000_000_000;
const TENTH_OF_A_SECOND: u64 = 100_000_000;

fn still_target(world: &mut World, position: Vec3, health: i64) -> Entity {
    world.spawn_target(position, TargetBundle::new(health, Vec3::new(0, 0, 0), HITBOX)).unwrap()
}

fn bullet(world: &mut World, position: Vec3, velocity: Vec3, damage: u32) -> Entity {
    world
        .spawn_bullet(position, Lifetime::new(10 * SECOND), BulletBundle::new(velocity, damage))
        .unwrap()
}

#[test]
fn bullet_flies_at_its_velocity() {
    let mut world = World::new();
    bullet(&mut world, Vec3::new(0, UNIT, 0), Vec3::new(5000, -3, 0), 1000);

    update_bullets(&mut world, TENTH_OF_A_SECOND);

    assert_eq!(world.bullets.len(), 1);
    assert_eq!(world.bullets[0].position, Vec3::new(UNIT / 2, UNIT - 300_000_000, 0));
    assert_eq!(world.bullets[0].lifetime.timer.elapsed().as_nanos(), TENTH_OF_A_SECOND as u128);
    assert_eq!(world.bullets[0].entity, Entity { id: 0 });
}

#[test]
fn bullet_expires_when_its_lifetime_is_up() {
    let mut world = World::new();
    bullet(&mut world, Vec3::new(0, 0, 0), Vec3::new(1, 0, 0), 1000);

    for _ in 0..99 {
        update_bullets(&mut world, TENTH_OF_A_SECOND);
    }
    assert_eq!(world.bullets.len(), 1);
    assert_eq!(world.bullets[0].position, Vec3::new(9_900_000_000, 0, 0));

    update_bullets(&mut world, TENTH_OF_A_SECOND);
    assert!(world.bullets.is_empty());
}

#[test]
fn bullet_expires_when_one_tick_passes_its_lifetime() {
    let mut world = World::new();
    bullet(&mut world, Vec3::new(0, 0, 0), Vec3::new(1, 0, 0), 1000);
    bullet(&mut world, Vec3::new(0, 0, 0), Vec3::new(1, 0, 0), 1000);

    update_bullets(&mut world, 25 * SECOND);

    assert!(world.bullets.is_empty());
}

#[test]
fn expiring_bullet_strikes_nothing() {
    let mut world = World::new();
    still_target(&mut world, Vec3::new(0, 0, 0), 3000);
    world.spawn_bullet(
        Vec3::new(0, 0, 0),
        Lifetime::new(SECOND),
        BulletBundle::new(Vec3::new(0, 0, 0), 1000),
    );

    update_bullets(&mut world, SECOND);

    assert!(world.bullets.is_empty());
    assert_eq!(world.targets[0].bundle.health, Health { val: 3000 });
}

#[test]
fn bullet_strikes_inside_the_hitbox_only() {
    let mut world = World::new();
    still_target(&mut world, Vec3::new(0, 0, 0), 3000);
    let edge = bullet(&mut world, Vec3::new(HITBOX as i64, 0, 0), Vec3::new(0, 0, 0), 1000);
    bullet(&mut world, Vec3::new(HITBOX as i64 - 1, 0, 0), Vec3::new(0, 0, 0), 700);

    update_bullets(&mut world, TENTH_OF_A_SECOND);

    assert_eq!(world.bullets.len(), 1);
    assert_eq!(world.bullets[0].entity, edge);
    assert_eq!(world.targets[0].bundle.health, Health { val: 2300 });
}

#[test]
fn bullet_strikes_from_where_it_has_flown_to() {
    let mut world = World::new();
    still_target(&mut world, Vec3::new(UNIT, 0, 0), 3000);
    bullet(&mut world, Vec3::new(UNIT / 2, 0, 0), Vec3::new(5000, 0, 0), 1000);

    update_bullets(&mut world, TENTH_OF_A_SECOND);

    assert!(world.bullets.is_empty());
    assert_eq!(world.targets[0].bundle.health, Health { val: 2000 });
    assert_eq!(world.targets[0].position, Vec3::new(UNIT, 0, 0));
}

#[test]
fn bullet_strikes_its_nearest_target_only() {
    let mut world = World::new();
    still_target(&mut world, Vec3::new(HITBOX as i64 / 2, 0, 0), 3000);
    still_target(&mut world, Vec3::new(-(HITBOX as i64) / 4, 0, 0), 3000);
    bullet(&mut world, Vec3::new(0, 0, 0), Vec3::new(0, 0, 0), 1000);

    update_bullets(&mut world, TENTH_OF_A_SECOND);

    assert!(world.bullets.is_empty());
    assert_eq!(world.targets[0].bundle.health, Health { val: 3000 });
    assert_eq!(world.targets[1].bundle.health, Health { val: 2000 });
}

#[test]
fn two_bullets_in_one_frame_take_both_damages() {
    let mut world = World::new();
    still_target(&mut world, Vec3::new(0, 0, 0), 3000);
    bullet(&mut world, Vec3::new(1, 0, 0), Vec3::new(0, 0, 0), 1000);
    bullet(&mut world, Vec3::new(5 * UNIT, 0, 0), Vec3::new(0, 0, 0), 1000);
    bullet(&mut world, Vec3::new(0, 2, 0), Vec3::new(0, 0, 0), 250);

    update_bullets(&mut world, TENTH_OF_A_SECOND);

    assert_eq!(world.bullets.len(), 1);
    assert_eq!(world.bullets[0].entity, Entity { id: 2 });
    assert_eq!(world.targets[0].bundle.health, Health { val: 1750 });
}

#[test]
fn health_goes_below_zero_and_the_target_stays_until_the_target_update() {
    let mut world = World::new();
    still_target(&mut world, Vec3::new(0, 0, 0), 500);
    bullet(&mut world, Vec3::new(0, 0, 0), Vec3::new(0, 0, 0), 1000);

    update_bullets(&mut world, TENTH_OF_A_SECOND);

    assert_eq!(world.targets.len(), 1);
    assert_eq!(world.targets[0].bundle.health, Health { val: -500 });

    update_targets(&mut world, TENTH_OF_A_SECOND);
    assert!(world.targets.is_empty());
}

#[test]
fn three_hits_in_three_frames_destroy_a_target_of_three_health_points() {
    let mut world = World::new();
    let target = still_target(&mut world, Vec3::new(0, 0, 0), 3000);

    for frame in 1..=3 {
        bullet(&mut world, Vec3::new(UNIT / 10, 0, 0), Vec3::new(0, 0, 0), 1000);
        update_bullets(&mut world, TENTH_OF_A_SECOND);
        assert!(world.bullets.is_empty());
        assert_eq!(world.targets.len(), 1);
        assert_eq!(world.targets[0].bundle.health, Health { val: 3000 - 1000 * frame });
        if frame < 3 {
            update_targets(&mut world, TENTH_OF_A_SECOND);
            assert_eq!(world.targets.len(), 1);
            assert_eq!(world.targets[0].entity, target);
        }
    }

    assert_eq!(world.targets[0].bundle.health, Health { val: 0 });
    update_targets(&mut world, TENTH_OF_A_SECOND);
    assert!(world.targets.is_empty());
}

#[test]
fn bullet_without_target_flies_on() {
    let mut world = World::new();
    bullet(&mut world, Vec3::new(0, 0, 0), Vec3::new(0, 0, -2), 1000);

    update_bullets(&mut world, SECOND);
    update_bullets(&mut world, SECOND);

    assert_eq!(world.bullets.len(), 1);
    assert_eq!(world.bullets[0].position, Vec3::new(0, 0, -4_000_000_000));
}

#[test]
fn bullet_stops_at_the_edge_of_the_world() {
    let mut world = World::new();
    bullet(&mut world, Vec3::new(WORLD_LIMIT - 5, 0, 3 - WORLD_LIMIT), Vec3::new(1, 0, -1), 1);

    update_bullets(&mut world, 4);
    assert_eq!(world.bullets[0].position, Vec3::new(WORLD_LIMIT - 1, 0, -WORLD_LIMIT));

    update_bullets(&mut world, 4);
    assert_eq!(world.bullets[0].position, Vec3::new(WORLD_LIMIT, 0, -WORLD_LIMIT));
    assert!(world.is_well_formed());
}

#[test]
fn find_strike_tells_the_target_struck() {
    let near = TargetEntity {
        entity: Entity { id: 7 },
        position: Vec3::new(3, 4, 0),
        bundle: TargetBundle::new(1, Vec3::new(0, 0, 0), 6),
    };
    let far = TargetEntity { position: Vec3::new(30, 40, 0), ..near };
    let targets = vec![far, near];

    assert_eq!(find_strike(&Vec3::new(0, 0, 0), &targets), Some(1));
    assert_eq!(find_strike(&Vec3::new(0, 0, 1), &targets), Some(1));
    assert_eq!(find_strike(&Vec3::new(0, -2, 0), &targets), None);
    assert_eq!(find_strike(&Vec3::new(30, 40, 5), &targets), Some(0));
    assert_eq!(find_strike(&Vec3::new(0, 0, 0), &Vec::new()), None);

    let exact = vec![TargetEntity { bundle: TargetBundle::new(1, Vec3::new(0, 0, 0), 5), ..near }];
    assert_eq!(find_strike(&Vec3::new(0, 0, 0), &exact), None);
    let none = vec![TargetEntity { bundle: TargetBundle::new(1, Vec3::new(0, 0, 0), 0), ..near }];
    assert_eq!(find_strike(&Vec3::new(3, 4, 0), &none), None);
}

#[test]
fn bullet_bundle_holds_what_it_is_given() {
    let bundle = BulletBundle::new(Vec3::new(1, -2, 3), 17);
    assert_eq!(bundle.velocity.val, Vec3::new(1, -2, 3));
    assert_eq!(bundle.bullet.damage, 17);
}
