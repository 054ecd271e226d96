//! Towers: what they carry, and how they fire.
use crate::bullet::Bullet;
use crate::bullet::BulletBundle;
use crate::clock::cadence_can_tick;
use crate::clock::lemma_cadence_fires_when_period_is_reached;
use crate::clock::new_timer;
use crate::clock::tick;
use crate::clock::timer_view;
use crate::clock::TimerView;
use crate::components::Entity;
use crate::components::Lifetime;
use crate::components::Velocity;
use crate::target::nearest_index;
use crate::target::nearest_target;
use crate::vec3::Vec3;
use crate::world::below;
use crate::world::disjoint;
use crate::world::distinct;
use crate::world::positions;
use crate::world::BulletEntity;
use crate::world::BulletView;
use crate::world::TargetEntity;
use crate::world::TowerView;
use crate::world::World;
use crate::world::WorldView;
use bevy::time::Timer;
use bevy::time::TimerMode;
use vstd::prelude::*;

verus! {

/// The speed of a bullet: five world units per second.
pub const BULLET_SPEED: u32 = 5000;

/// The damage of a bullet: one health point.
pub const BULLET_DAMAGE: u32 = 1000;

/// The time after which a bullet is removed: ten seconds.
pub const BULLET_LIFETIME_NANOS: u64 = 10_000_000_000;

/// Marks an entity as a tower. The timer sets the cadence of its fire; the
/// offset leads from the tower to the point where its bullets appear.
#[derive(Debug, Default)]
pub struct Tower {
    pub shooting_timer: Timer,
    pub bullet_spawn_offset: Vec3,
}

impl Tower {
    /// A tower that fires every `period_nanos` nanoseconds. A cadence needs a
    /// period: there is no tower with a period of zero.
    pub fn new(period_nanos: u64, bullet_spawn_offset: Vec3) -> (tower: Option<Tower>)
        ensures
            tower is Some <==> period_nanos > 0,
            tower matches Some(t) ==> {
                &&& timer_view(t.shooting_timer) == TimerView::fresh(
                    period_nanos as nat,
                    TimerMode::Repeating,
                )
                &&& t.bullet_spawn_offset == bullet_spawn_offset
            },
    {
        if period_nanos == 0 {
            None
        } else {
            Some(
                Tower {
                    shooting_timer: new_timer(period_nanos, TimerMode::Repeating),
                    bullet_spawn_offset,
                },
            )
        }
    }
}

/// A bullet about to be spawned: where it appears and how it flies.
pub struct Shot {
    pub position: Vec3,
    pub velocity: Vec3,
}

/// The velocity of a bullet that leaves `from` toward the nearest target, at
/// the speed of bullets. There is none where there is no target, and none
/// where the nearest target is at `from` itself, for then no direction leads
/// to it.
pub open spec fn aim(from: Vec3, targets: Seq<TargetEntity>) -> Option<Vec3> {
    match nearest_index(from, positions(targets)) {
        None => None,
        Some(j) => {
            let toward = targets[j].position.displacement_from(from);
            if toward.is_zero() {
                None
            } else {
                Some(toward.with_length(BULLET_SPEED as nat))
            }
        },
    }
}

impl TowerView {
    /// The tower after its timer was ticked by `dt` nanoseconds.
    pub open spec fn ticked(self, dt: nat) -> TowerView {
        TowerView { shooting_timer: self.shooting_timer.ticked(dt), ..self }
    }

    /// A tick of `dt` nanoseconds makes the timer of the tower fire.
    pub open spec fn fires(self, dt: nat) -> bool {
        self.shooting_timer.ticked(dt).just_finished()
    }

    /// The point where the bullets of the tower appear.
    pub open spec fn spawn_point(self) -> Vec3 {
        self.position.shifted(self.bullet_spawn_offset)
    }

    /// The bullet that the tower fires in a pass of `dt` nanoseconds: one
    /// where its timer fires and a target can be aimed at, none otherwise.
    pub open spec fn shot(self, targets: Seq<TargetEntity>, dt: nat) -> Option<Shot> {
        if self.fires(dt) {
            match aim(self.spawn_point(), targets) {
                Some(velocity) => Some(Shot { position: self.spawn_point(), velocity }),
                None => None,
            }
        } else {
            None
        }
    }
}

/// The bullets that the towers fire in a pass of `dt` nanoseconds, in the
/// order of the towers.
pub open spec fn volley(towers: Seq<TowerView>, targets: Seq<TargetEntity>, dt: nat) -> Seq<Shot> {
    towers.filter_map(|t: TowerView| t.shot(targets, dt))
}

/// The bullet that the store holds for the `k`th shot of a volley, where
/// `next_id` was the next identifier before the volley.
pub open spec fn spawned_bullet(shot: Shot, next_id: nat, k: int) -> BulletView {
    BulletView {
        entity: Entity { id: (next_id + k) as u64 },
        position: shot.position,
        lifetime: TimerView::fresh(BULLET_LIFETIME_NANOS as nat, TimerMode::Once),
        bundle: BulletBundle {
            velocity: Velocity { val: shot.velocity },
            bullet: Bullet { damage: BULLET_DAMAGE },
        },
    }
}

/// The bullets that the store holds for a volley.
pub open spec fn spawned_bullets(shots: Seq<Shot>, next_id: nat) -> Seq<BulletView> {
    Seq::new(shots.len(), |k: int| spawned_bullet(shots[k], next_id, k))
}

/// The towers after each timer was ticked by `dt` nanoseconds.
pub open spec fn towers_ticked(towers: Seq<TowerView>, dt: nat) -> Seq<TowerView> {
    towers.map_values(|t: TowerView| t.ticked(dt))
}

/// The store after the towers fired in a pass of `dt` nanoseconds: every
/// timer is ticked, and the bullets of the volley stand behind the bullets
/// that were there, with the identifiers that follow `next_id`.
pub open spec fn after_tower_shooting(before: WorldView, dt: nat) -> WorldView {
    let shots = volley(before.towers, before.targets, dt);
    WorldView {
        towers: towers_ticked(before.towers, dt),
        targets: before.targets,
        bullets: before.bullets + spawned_bullets(shots, before.next_id),
        next_id: before.next_id + shots.len(),
    }
}

/// Every tower has a cadence whose periods in a tick of `dt` nanoseconds the
/// engine can count.
pub open spec fn towers_can_tick(towers: Seq<TowerView>, dt: nat) -> bool {
    forall|i: int|
        0 <= i < towers.len() ==> (#[trigger] towers[i]).shooting_timer.is_cadence()
            && towers[i].shooting_timer.counts_periods(dt)
}

/// A volley is fired tower by tower.
pub proof fn lemma_volley_step(towers: Seq<TowerView>, targets: Seq<TargetEntity>, dt: nat, k: int)
    requires
        0 <= k < towers.len(),
    ensures
        volley(towers.take(k + 1), targets, dt) == volley(towers.take(k), targets, dt)
            + match towers[k].shot(targets, dt) {
            Some(s) => seq![s],
            None => Seq::empty(),
        },
{
    towers.lemma_filter_map_take_succ(|t: TowerView| t.shot(targets, dt), k);
}

/// No tower fires twice in a pass: a volley has at most one bullet for each
/// tower.
pub proof fn lemma_volley_len(towers: Seq<TowerView>, targets: Seq<TargetEntity>, dt: nat)
    ensures
        volley(towers, targets, dt).len() <= towers.len(),
    decreases towers.len(),
{
    if towers.len() > 0 {
        let k = towers.len() - 1;
        lemma_volley_len(towers.take(k), targets, dt);
        lemma_volley_step(towers, targets, dt, k);
        assert(towers.take(k + 1) =~= towers);
    }
}

/// Every bullet of a volley appears inside the world.
pub proof fn lemma_volley_in_world(
    towers: Seq<TowerView>,
    targets: Seq<TargetEntity>,
    dt: nat,
    k: int,
)
    requires
        0 <= k < volley(towers, targets, dt).len(),
    ensures
        volley(towers, targets, dt)[k].position.in_world(),
{
    let f = |t: TowerView| t.shot(targets, dt);
    let shot = volley(towers, targets, dt)[k];
    assert(towers.filter_map(f).contains(shot));
    towers.lemma_filter_map_contains(f, shot);
}

/// Firing keeps the store well formed, as long as the engine can count the
/// periods of the tick and there are identifiers left for the bullets.
pub proof fn lemma_tower_shooting_keeps_wf(before: WorldView, dt: nat)
    requires
        before.wf(),
        towers_can_tick(before.towers, dt),
        dt <= u64::MAX,
        before.next_id + before.towers.len() <= u64::MAX,
    ensures
        after_tower_shooting(before, dt).wf(),
{
    let after = after_tower_shooting(before, dt);
    let shots = volley(before.towers, before.targets, dt);
    let fresh = spawned_bullets(shots, before.next_id);
    lemma_volley_len(before.towers, before.targets, dt);
    assert(after.tower_entities() =~= before.tower_entities());
    assert(after.target_entities() == before.target_entities());
    let old_ids = before.bullet_entities();
    let new_ids = after.bullet_entities();
    assert(new_ids.len() == old_ids.len() + shots.len());
    assert forall|i: int| 0 <= i < new_ids.len() implies if i < old_ids.len() {
        new_ids[i] == old_ids[i]
    } else {
        (#[trigger] new_ids[i]).id == before.next_id + (i - old_ids.len())
    } by {
        if i >= old_ids.len() {
            assert(after.bullets[i] == fresh[i - old_ids.len()]);
        } else {
            assert(after.bullets[i] == before.bullets[i]);
        }
    }
    assert(distinct(new_ids)) by {
        assert forall|i: int, j: int| 0 <= i < j < new_ids.len() implies new_ids[i] != new_ids[j] by {
            if j < old_ids.len() {
                assert(old_ids[i] != old_ids[j]);
            } else if i < old_ids.len() {
                assert(old_ids[i].id < before.next_id);
            }
        }
    }
    assert(disjoint(after.tower_entities(), new_ids)) by {
        let ts = before.tower_entities();
        assert forall|i: int, j: int| 0 <= i < ts.len() && 0 <= j < new_ids.len() implies ts[i]
            != new_ids[j] by {
            assert(ts[i].id < before.next_id);
            if j < old_ids.len() {
                assert(ts[i] != old_ids[j]);
            }
        }
    }
    assert(disjoint(after.target_entities(), new_ids)) by {
        let ts = before.target_entities();
        assert forall|i: int, j: int| 0 <= i < ts.len() && 0 <= j < new_ids.len() implies ts[i]
            != new_ids[j] by {
            assert(ts[i].id < before.next_id);
            if j < old_ids.len() {
                assert(ts[i] != old_ids[j]);
            }
        }
    }
    assert(below(new_ids, after.next_id)) by {
        assert forall|i: int| 0 <= i < new_ids.len() implies (#[trigger] new_ids[i]).id
            < after.next_id by {
            if i < old_ids.len() {
                assert(old_ids[i].id < before.next_id);
            }
        }
    }
    assert(below(after.tower_entities(), after.next_id)) by {
        let ts = before.tower_entities();
        assert forall|i: int| 0 <= i < ts.len() implies (#[trigger] ts[i]).id < after.next_id by {
            assert(ts[i].id < before.next_id);
        }
    }
    assert(below(after.target_entities(), after.next_id)) by {
        let ts = before.target_entities();
        assert forall|i: int| 0 <= i < ts.len() implies (#[trigger] ts[i]).id < after.next_id by {
            assert(ts[i].id < before.next_id);
        }
    }
    assert forall|i: int| 0 <= i < after.towers.len() implies (
    #[trigger] after.towers[i]).position.in_world() && after.towers[i].shooting_timer.is_cadence() by {
        assert(after.towers[i].position == before.towers[i].position);
        lemma_cadence_fires_when_period_is_reached(before.towers[i].shooting_timer, dt);
    }
    assert forall|i: int| 0 <= i < after.bullets.len() implies (
    #[trigger] after.bullets[i]).position.in_world() && after.bullets[i].lifetime.is_countdown() by {
        if i < before.bullets.len() {
            assert(after.bullets[i] == before.bullets[i]);
        } else {
            assert(after.bullets[i] == fresh[i - before.bullets.len()]);
            lemma_volley_in_world(before.towers, before.targets, dt, i - before.bullets.len());
        }
    }
}

/// Tells whether the tower update can be run for `delta_nanos` nanoseconds:
/// the engine can count the periods that the tick completes of every tower's
/// cadence, and there are identifiers left for the bullets of a volley.
pub fn can_shoot(world: &World, delta_nanos: u64) -> (b: bool)
    ensures
        b == (towers_can_tick(world@.towers, delta_nanos as nat) && world@.next_id
            + world@.towers.len() <= u64::MAX),
{
    let ghost dt = delta_nanos as nat;
    if world.towers.len() as u128 + world.next_id as u128 > u64::MAX as u128 {
        return false;
    }
    let mut i: usize = 0;
    while i < world.towers.len()
        invariant
            dt == delta_nanos as nat,
            0 <= i <= world.towers.len(),
            forall|j: int|
                0 <= j < i ==> (#[trigger] world@.towers[j]).shooting_timer.is_cadence()
                    && world@.towers[j].shooting_timer.counts_periods(dt),
        decreases world.towers.len() - i,
    {
        if !cadence_can_tick(&world.towers[i].tower.shooting_timer, delta_nanos) {
            assert(!(world@.towers[i as int].shooting_timer.is_cadence()
                && world@.towers[i as int].shooting_timer.counts_periods(dt)));
            return false;
        }
        assert(world@.towers[i as int].shooting_timer.is_cadence()
            && world@.towers[i as int].shooting_timer.counts_periods(dt));
        i += 1;
    }
    true
}

/// The tower update: the timer of every tower is ticked by `delta_nanos`
/// nanoseconds, and every tower whose timer fires on this tick spawns one
/// bullet at its spawn point, flying toward the target nearest to that point.
/// A tower fires exactly when the time elapsed of its period, with
/// `delta_nanos` added, reaches the period; it fires once however many
/// periods the tick covers, and its timer keeps what the time leaves over of
/// a period. Where there is no target, or the nearest target is at the spawn
/// point itself, the tower spawns nothing and its timer stays ticked.
pub fn tower_shooting(world: &mut World, delta_nanos: u64)
    requires
        old(world).wf(),
        towers_can_tick(old(world)@.towers, delta_nanos as nat),
        old(world)@.next_id + old(world)@.towers.len() <= u64::MAX,
    ensures
        final(world)@ == after_tower_shooting(old(world)@, delta_nanos as nat),
        final(world).wf(),
        forall|i: int|
            0 <= i < old(world)@.towers.len() ==> {
                let timer = old(world)@.towers[i].shooting_timer;
                &&& (#[trigger] old(world)@.towers[i]).fires(delta_nanos as nat) <==> timer.elapsed
                    + delta_nanos >= timer.duration
                &&& final(world)@.towers[i].shooting_timer.elapsed == (timer.elapsed
                    + delta_nanos as nat) % timer.duration
            },
{
    let ghost before = world@;
    let ghost dt = delta_nanos as nat;
    let mut i: usize = 0;
    proof {
        assert(before.towers.take(0) =~= Seq::empty());
        assert(world@.bullets =~= before.bullets + spawned_bullets(
            volley(before.towers.take(0), before.targets, dt),
            before.next_id,
        ));
        lemma_volley_len(before.towers.take(0), before.targets, dt);
    }
    while i < world.towers.len()
        invariant
            dt == delta_nanos as nat,
            before.wf(),
            towers_can_tick(before.towers, dt),
            before.next_id + before.towers.len() <= u64::MAX,
            0 <= i <= world.towers.len(),
            world.towers.len() == before.towers.len(),
            forall|j: int| 0 <= j < i ==> (#[trigger] world.towers[j])@ == before.towers[j].ticked(dt),
            forall|j: int|
                i <= j < world.towers.len() ==> (#[trigger] world.towers[j])@ == before.towers[j],
            world.targets@ == before.targets,
            volley(before.towers.take(i as int), before.targets, dt).len() <= i,
            world@.bullets == before.bullets + spawned_bullets(
                volley(before.towers.take(i as int), before.targets, dt),
                before.next_id,
            ),
            world.next_id == before.next_id + volley(
                before.towers.take(i as int),
                before.targets,
                dt,
            ).len(),
        decreases world.towers.len() - i,
    {
        let ghost shots = volley(before.towers.take(i as int), before.targets, dt);
        let ghost bullets_now = world@.bullets;
        proof {
            lemma_volley_step(before.towers, before.targets, dt, i as int);
            assert(world.towers[i as int]@ == before.towers[i as int]);
            lemma_cadence_fires_when_period_is_reached(before.towers[i as int].shooting_timer, dt);
        }
        let fired = tick(&mut world.towers[i].tower.shooting_timer, delta_nanos);
        assert(world.towers[i as int]@ == before.towers[i as int].ticked(dt));
        let mut spawned: bool = false;
        if fired {
            let from = world.towers[i].position.shift(&world.towers[i].tower.bullet_spawn_offset);
            assert(from == before.towers[i as int].spawn_point());
            assert forall|j: int| 0 <= j < world.targets.len() implies (
            #[trigger] world.targets[j]).position.in_world() by {
                assert(before.targets[j].position.in_world());
            }
            if let Some(j) = nearest_target(&from, &world.targets) {
                assert(positions(world.targets@)[j as int] == world.targets[j as int].position);
                let toward = world.targets[j].position.minus(&from);
                if let Some(velocity) = toward.aimed(BULLET_SPEED) {
                    let bullet = BulletEntity {
                        entity: Entity { id: world.next_id },
                        position: from,
                        lifetime: Lifetime::new(BULLET_LIFETIME_NANOS),
                        bundle: BulletBundle::new(velocity, BULLET_DAMAGE),
                    };
                    assert(bullet@ == spawned_bullet(
                        Shot { position: from, velocity },
                        before.next_id,
                        shots.len() as int,
                    ));
                    world.bullets.push(bullet);
                    world.next_id = world.next_id + 1;
                    spawned = true;
                }
            }
        }
        proof {
            let next = volley(before.towers.take(i + 1), before.targets, dt);
            assert(spawned == before.towers[i as int].shot(before.targets, dt).is_some());
            if spawned {
                assert(world@.bullets =~= bullets_now.push(
                    spawned_bullet(next[shots.len() as int], before.next_id, shots.len() as int),
                ));
            }
            assert(world@.bullets =~= before.bullets + spawned_bullets(next, before.next_id));
        }
        i += 1;
    }
    proof {
        assert(before.towers.take(i as int) =~= before.towers);
        assert(world@.towers =~= towers_ticked(before.towers, dt));
        lemma_tower_shooting_keeps_wf(before, dt);
        assert forall|i: int| 0 <= i < before.towers.len() implies {
            let timer = before.towers[i].shooting_timer;
            &&& (#[trigger] before.towers[i]).fires(dt) <==> timer.elapsed + dt >= timer.duration
            &&& world@.towers[i].shooting_timer.elapsed == (timer.elapsed + dt) % timer.duration
        } by {
            lemma_cadence_fires_when_period_is_reached(before.towers[i].shooting_timer, dt);
        }
    }
}

} // verus!
