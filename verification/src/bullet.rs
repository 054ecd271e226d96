//! Bullets: what they carry, and how they fly and strike.
use crate::clock::lemma_countdown_fires_when_duration_is_reached;
use crate::clock::tick;
use crate::components::Velocity;
use crate::components::lemma_damage_adds_up;
use crate::target::lemma_nearest_exists;
use crate::target::nearest_index;
use crate::target::nearest_target;
use crate::target::TargetBundle;
use crate::vec3::Vec3;
use crate::world::bullet_views;
use crate::world::lemma_drawn_stays_below;
use crate::world::lemma_drawn_stays_disjoint;
use crate::world::lemma_filter_map_entities;
use crate::world::positions;
use crate::world::BulletEntity;
use crate::world::BulletView;
use crate::world::TargetEntity;
use crate::world::World;
use crate::world::WorldView;
use vstd::prelude::*;

verus! {

/// Marks an entity as a bullet and holds the damage that it deals, in health
/// units.
#[derive(Clone, Copy, Debug, Default, PartialEq, Eq, Structural)]
pub struct Bullet {
    pub damage: u32,
}

/// What a bullet is given when it is spawned.
#[derive(Clone, Copy, Debug, Default, PartialEq, Eq, Structural)]
pub struct BulletBundle {
    pub velocity: Velocity,
    pub bullet: Bullet,
}

impl BulletBundle {
    /// The bundle of a bullet that flies at `velocity` and deals `damage`.
    pub fn new(velocity: Vec3, damage: u32) -> (bundle: Self)
        ensures
            bundle == (BulletBundle { velocity: Velocity { val: velocity }, bullet: Bullet { damage } }),
    {
        Self { velocity: Velocity { val: velocity }, bullet: Bullet { damage } }
    }
}

/// The index of the target that a bullet at `at` strikes: the target nearest
/// to `at`, if the bullet is closer to it than the radius of its hitbox.
pub open spec fn strike(at: Vec3, targets: Seq<TargetEntity>) -> Option<int> {
    match nearest_index(at, positions(targets)) {
        None => None,
        Some(j) => if at.distance_squared(targets[j].position) < targets[j].bundle.target.hitbox
            * targets[j].bundle.target.hitbox {
            Some(j)
        } else {
            None
        },
    }
}

impl BulletView {
    /// A tick of `dt` nanoseconds ends the lifetime of the bullet.
    pub open spec fn expires(self, dt: nat) -> bool {
        self.lifetime.ticked(dt).just_finished()
    }

    /// The bullet after its lifetime was ticked and it flew at its velocity
    /// for `dt` nanoseconds.
    pub open spec fn flown(self, dt: nat) -> BulletView {
        BulletView {
            position: self.position.moved(self.bundle.velocity.val, dt),
            lifetime: self.lifetime.ticked(dt),
            ..self
        }
    }

    /// The index of the target that the bullet strikes in a pass of `dt`
    /// nanoseconds. A bullet whose lifetime ends in the pass strikes nothing;
    /// another strikes from where it has flown to.
    pub open spec fn struck(self, targets: Seq<TargetEntity>, dt: nat) -> Option<int> {
        if self.expires(dt) {
            None
        } else {
            strike(self.flown(dt).position, targets)
        }
    }

    /// What a bullet update leaves of the bullet: it is removed where its
    /// lifetime ends and where it strikes a target, and has flown on
    /// otherwise.
    pub open spec fn after_update(self, targets: Seq<TargetEntity>, dt: nat) -> Option<BulletView> {
        if self.expires(dt) || self.struck(targets, dt) is Some {
            None
        } else {
            Some(self.flown(dt))
        }
    }
}

/// The bullets that a bullet update of `dt` nanoseconds leaves, in their
/// order.
pub open spec fn bullets_after_update(
    bullets: Seq<BulletView>,
    targets: Seq<TargetEntity>,
    dt: nat,
) -> Seq<BulletView> {
    bullets.filter_map(|b: BulletView| b.after_update(targets, dt))
}

/// The damage that the bullets deal to the target at index `j` in a bullet
/// update of `dt` nanoseconds: the sum of the damage of those that strike it.
pub open spec fn damage_dealt(
    bullets: Seq<BulletView>,
    targets: Seq<TargetEntity>,
    dt: nat,
    j: int,
) -> nat
    decreases bullets.len(),
{
    if bullets.len() == 0 {
        0
    } else {
        damage_dealt(bullets.drop_last(), targets, dt, j) + if bullets.last().struck(targets, dt)
            == Some(j) {
            bullets.last().bundle.bullet.damage as nat
        } else {
            0
        }
    }
}

/// The target after `damage` was taken from its health.
pub open spec fn damaged_target(target: TargetEntity, damage: nat) -> TargetEntity {
    TargetEntity {
        bundle: TargetBundle { health: target.bundle.health.damaged(damage), ..target.bundle },
        ..target
    }
}

/// The targets after a bullet update of `dt` nanoseconds: each has lost the
/// damage dealt to it, and is otherwise as it was.
pub open spec fn targets_after_bullets(
    bullets: Seq<BulletView>,
    targets: Seq<TargetEntity>,
    dt: nat,
) -> Seq<TargetEntity> {
    Seq::new(
        targets.len(),
        |j: int| damaged_target(targets[j], damage_dealt(bullets, targets, dt, j)),
    )
}

/// The store after a bullet update of `dt` nanoseconds.
pub open spec fn after_bullet_update(before: WorldView, dt: nat) -> WorldView {
    WorldView {
        targets: targets_after_bullets(before.bullets, before.targets, dt),
        bullets: bullets_after_update(before.bullets, before.targets, dt),
        ..before
    }
}

/// A bullet update deals with the bullets one after the other.
pub proof fn lemma_bullets_after_update_step(
    bullets: Seq<BulletView>,
    targets: Seq<TargetEntity>,
    dt: nat,
    k: int,
)
    requires
        0 <= k < bullets.len(),
    ensures
        bullets_after_update(bullets.take(k + 1), targets, dt) == bullets_after_update(
            bullets.take(k),
            targets,
            dt,
        ) + match bullets[k].after_update(targets, dt) {
            Some(b) => seq![b],
            None => Seq::empty(),
        },
        forall|j: int|
            damage_dealt(bullets.take(k + 1), targets, dt, j) == damage_dealt(
                bullets.take(k),
                targets,
                dt,
                j,
            ) + if bullets[k].struck(targets, dt) == Some(j) {
                bullets[k].bundle.bullet.damage as nat
            } else {
                0
            },
{
    bullets.lemma_filter_map_take_succ(|b: BulletView| b.after_update(targets, dt), k);
    assert(bullets.take(k + 1).drop_last() =~= bullets.take(k));
}

/// Every bullet that a bullet update leaves is inside the world, and is a
/// bullet of the list before that neither expired nor struck, flown on.
pub proof fn lemma_bullets_after_update_members(
    bullets: Seq<BulletView>,
    targets: Seq<TargetEntity>,
    dt: nat,
    k: int,
)
    requires
        0 <= k < bullets_after_update(bullets, targets, dt).len(),
    ensures
        bullets_after_update(bullets, targets, dt)[k].position.in_world(),
        exists|j: int|
            0 <= j < bullets.len() && (#[trigger] bullets[j]).after_update(targets, dt) == Some(
                bullets_after_update(bullets, targets, dt)[k],
            ),
{
    let f = |b: BulletView| b.after_update(targets, dt);
    let elt = bullets_after_update(bullets, targets, dt)[k];
    assert(bullets.filter_map(f).contains(elt));
    bullets.lemma_filter_map_contains(f, elt);
    let x = choose|x: BulletView| bullets.contains(x) && f(x) == Some(elt);
    let j = choose|j: int| 0 <= j < bullets.len() && bullets[j] == x;
    assert(bullets[j].after_update(targets, dt) == Some(elt));
}

/// A bullet update keeps the store well formed.
pub proof fn lemma_bullet_update_keeps_wf(before: WorldView, dt: nat)
    requires
        before.wf(),
        dt <= u64::MAX,
    ensures
        after_bullet_update(before, dt).wf(),
{
    let after = after_bullet_update(before, dt);
    lemma_filter_map_entities(
        before.bullets,
        |b: BulletView| b.after_update(before.targets, dt),
        |b: BulletView| b.entity,
        |b: BulletView| b.entity,
    );
    assert(after.tower_entities() == before.tower_entities());
    assert(after.target_entities() =~= before.target_entities());
    lemma_drawn_stays_disjoint(
        after.bullet_entities(),
        before.bullet_entities(),
        before.tower_entities(),
    );
    lemma_drawn_stays_disjoint(
        after.bullet_entities(),
        before.bullet_entities(),
        before.target_entities(),
    );
    lemma_drawn_stays_below(after.bullet_entities(), before.bullet_entities(), before.next_id);
    assert forall|i: int| 0 <= i < after.targets.len() implies (
    #[trigger] after.targets[i]).position.in_world() by {
        assert(after.targets[i].position == before.targets[i].position);
    }
    assert forall|i: int| 0 <= i < after.bullets.len() implies (
    #[trigger] after.bullets[i]).position.in_world() && after.bullets[i].lifetime.is_countdown() by {
        lemma_bullets_after_update_members(before.bullets, before.targets, dt, i);
        let j = choose|j: int|
            0 <= j < before.bullets.len() && (#[trigger] before.bullets[j]).after_update(
                before.targets,
                dt,
            ) == Some(after.bullets[i]);
        lemma_countdown_fires_when_duration_is_reached(before.bullets[j].lifetime, dt);
    }
}

/// Removing a bullet from a list removes what it holds from what the list
/// holds.
proof fn lemma_views_remove(bullets: Seq<BulletEntity>, i: int)
    requires
        0 <= i < bullets.len(),
    ensures
        bullet_views(bullets.remove(i)) == bullet_views(bullets).remove(i),
{
    assert(bullet_views(bullets.remove(i)) =~= bullet_views(bullets).remove(i));
}

/// Replacing a bullet of a list replaces what it holds in what the list
/// holds.
proof fn lemma_views_update(bullets: Seq<BulletEntity>, i: int, bullet: BulletEntity)
    requires
        0 <= i < bullets.len(),
    ensures
        bullet_views(bullets.update(i, bullet)) == bullet_views(bullets).update(i, bullet@),
{
    assert(bullet_views(bullets.update(i, bullet)) =~= bullet_views(bullets).update(i, bullet@));
}

/// Tells which target a bullet at `at` strikes, if any.
pub fn find_strike(at: &Vec3, targets: &Vec<TargetEntity>) -> (struck: Option<usize>)
    requires
        at.in_world(),
        forall|i: int| 0 <= i < targets.len() ==> (#[trigger] targets[i]).position.in_world(),
    ensures
        strike(*at, targets@) == match struck {
            Some(j) => Some(j as int),
            None => None,
        },
        struck matches Some(j) ==> j < targets.len(),
{
    match nearest_target(at, targets) {
        None => None,
        Some(j) => {
            assert(positions(targets@)[j as int] == targets[j as int].position);
            let reach: u64 = targets[j].bundle.target.hitbox;
            assert(reach * reach <= u128::MAX) by (nonlinear_arith)
                requires
                    0 <= reach <= 0xffff_ffff_ffff_ffff,
            ;
            let distance_squared: u128 = at.distance_squared_to(&targets[j].position);
            if distance_squared < (reach as u128) * (reach as u128) {
                Some(j)
            } else {
                None
            }
        },
    }
}

/// The bullet update. The lifetime of every bullet is ticked by
/// `delta_nanos` nanoseconds. A bullet whose lifetime ends on this tick,
/// which is when the time elapsed of it reaches its duration, is removed. Every other bullet flies at its velocity for `delta_nanos`
/// nanoseconds; where it is then closer to the nearest target than the
/// radius of that target's hitbox, its damage is taken from the health of
/// that target and the bullet is removed. Towers are left as they are, and
/// no target is moved or removed.
pub fn update_bullets(world: &mut World, delta_nanos: u64)
    requires
        old(world).wf(),
    ensures
        final(world)@ == after_bullet_update(old(world)@, delta_nanos as nat),
        final(world).wf(),
        forall|i: int|
            0 <= i < old(world)@.bullets.len() ==> ((#[trigger] old(world)@.bullets[i]).expires(
                delta_nanos as nat,
            ) <==> old(world)@.bullets[i].lifetime.elapsed + delta_nanos
                >= old(world)@.bullets[i].lifetime.duration),
{
    let ghost before = world@;
    let ghost dt = delta_nanos as nat;
    let ghost mut k: int = 0;
    let mut i: usize = 0;
    proof {
        assert(before.bullets.take(0) =~= Seq::empty());
        assert(before.bullets.skip(0) =~= before.bullets);
        assert(world.targets@ =~= targets_after_bullets(
            before.bullets.take(0),
            before.targets,
            dt,
        ));
    }
    while i < world.bullets.len()
        invariant
            dt == delta_nanos as nat,
            before.wf(),
            0 <= k <= before.bullets.len(),
            i == bullets_after_update(before.bullets.take(k), before.targets, dt).len(),
            world@.bullets == bullets_after_update(before.bullets.take(k), before.targets, dt)
                + before.bullets.skip(k),
            world.targets@ == targets_after_bullets(before.bullets.take(k), before.targets, dt),
            world@.towers == before.towers,
            world@.next_id == before.next_id,
        decreases before.bullets.len() - k,
    {
        let ghost done = bullets_after_update(before.bullets.take(k), before.targets, dt);
        let ghost bullet = before.bullets[k];
        proof {
            lemma_bullets_after_update_step(before.bullets, before.targets, dt, k);
            assert(world@.bullets[i as int] == bullet);
            assert(world.bullets[i as int]@ == bullet);
            assert(positions(world.targets@) =~= positions(before.targets));
            lemma_countdown_fires_when_duration_is_reached(bullet.lifetime, dt);
        }
        let ghost listed = world.bullets@;
        let expired = tick(&mut world.bullets[i].lifetime.timer, delta_nanos);
        proof {
            lemma_views_update(listed, i as int, world.bullets[i as int]);
        }
        if expired {
            proof {
                lemma_views_remove(world.bullets@, i as int);
            }
            world.bullets.remove(i);
            proof {
                assert(world@.bullets =~= done + before.bullets.skip(k + 1));
                assert(world.targets@ =~= targets_after_bullets(
                    before.bullets.take(k + 1),
                    before.targets,
                    dt,
                ));
            }
        } else {
            let velocity = world.bullets[i].bundle.velocity.val;
            let position = world.bullets[i].position.advance(&velocity, delta_nanos);
            let ghost ticked = world.bullets@;
            world.bullets[i].position = position;
            proof {
                lemma_views_update(ticked, i as int, world.bullets[i as int]);
            }
            assert(world.bullets[i as int]@ == bullet.flown(dt));
            assert forall|j: int| 0 <= j < world.targets.len() implies (
            #[trigger] world.targets[j]).position.in_world() by {
                assert(before.targets[j].position.in_world());
            }
            let struck = find_strike(&position, &world.targets);
            proof {
                assert(strike(position, world.targets@) == strike(position, before.targets)) by {
                    assert(positions(world.targets@) =~= positions(before.targets));
                    if let Some(j) = nearest_index(position, positions(before.targets)) {
                        lemma_nearest_exists(position, positions(before.targets));
                        assert(world.targets@[j].position == before.targets[j].position);
                        assert(world.targets@[j].bundle.target == before.targets[j].bundle.target);
                    }
                }
            }
            match struck {
                Some(j) => {
                    let damage = world.bullets[i].bundle.bullet.damage;
                    let ghost targets_now = world.targets@;
                    world.targets[j].bundle.health.hurt(damage);
                    proof {
                        lemma_views_remove(world.bullets@, i as int);
                    }
                    world.bullets.remove(i);
                    proof {
                        assert(world@.bullets =~= done + before.bullets.skip(k + 1));
                        let next = targets_after_bullets(
                            before.bullets.take(k + 1),
                            before.targets,
                            dt,
                        );
                        assert forall|m: int| 0 <= m < next.len() implies world.targets@[m]
                            == next[m] by {
                            lemma_damage_adds_up(
                                before.targets[m].bundle.health,
                                damage_dealt(before.bullets.take(k), before.targets, dt, m),
                                damage as nat,
                            );
                            assert(targets_now[m] == damaged_target(
                                before.targets[m],
                                damage_dealt(before.bullets.take(k), before.targets, dt, m),
                            ));
                        }
                        assert(world.targets@ =~= next);
                    }
                },
                None => {
                    proof {
                        assert(world@.bullets =~= (done + seq![bullet.flown(dt)])
                            + before.bullets.skip(k + 1));
                        assert(world.targets@ =~= targets_after_bullets(
                            before.bullets.take(k + 1),
                            before.targets,
                            dt,
                        ));
                    }
                    i += 1;
                },
            }
        }
        proof {
            k = k + 1;
        }
    }
    proof {
        assert(before.bullets.take(k) =~= before.bullets);
        lemma_bullet_update_keeps_wf(before, dt);
        assert forall|i: int| 0 <= i < before.bullets.len() implies ((
        #[trigger] before.bullets[i]).expires(dt) <==> before.bullets[i].lifetime.elapsed + dt
            >= before.bullets[i].lifetime.duration) by {
            lemma_countdown_fires_when_duration_is_reached(before.bullets[i].lifetime, dt);
        }
    }
}

} // verus!
