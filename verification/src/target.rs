//! Targets: what they carry, and how the nearest one is found.
use crate::components::Health;
use crate::components::Velocity;
use crate::vec3::Vec3;
use crate::world::lemma_drawn_stays_below;
use crate::world::lemma_drawn_stays_disjoint;
use crate::world::lemma_filter_map_entities;
use crate::world::positions;
use crate::world::TargetEntity;
use crate::world::World;
use crate::world::WorldView;
use vstd::prelude::*;

verus! {

/// Marks an entity as a target. A bullet closer to the target than `hitbox`
/// length units has struck it.
#[derive(Clone, Copy, Debug, Default, PartialEq, Eq, Structural)]
pub struct Target {
    pub hitbox: u64,
}

/// What a target is given when it is spawned.
#[derive(Clone, Copy, Debug, Default, PartialEq, Eq, Structural)]
pub struct TargetBundle {
    pub velocity: Velocity,
    pub health: Health,
    pub target: Target,
}

impl TargetBundle {
    /// The bundle of a target with the given health, velocity and hitbox
    /// radius.
    pub fn new(health: i64, velocity: Vec3, hitbox: u64) -> (bundle: Self)
        ensures
            bundle == (TargetBundle {
                velocity: Velocity { val: velocity },
                health: Health { val: health },
                target: Target { hitbox },
            }),
    {
        Self {
            velocity: Velocity { val: velocity },
            health: Health { val: health },
            target: Target { hitbox },
        }
    }
}

/// Position `i` is the nearest to `from`: none is nearer, and those before
/// it are farther. Of several positions at the least distance the first is
/// the nearest.
pub open spec fn is_nearest(from: Vec3, positions: Seq<Vec3>, i: int) -> bool {
    &&& 0 <= i < positions.len()
    &&& forall|j: int|
        0 <= j < positions.len() ==> from.distance_squared(positions[i]) <= from.distance_squared(
            #[trigger] positions[j],
        )
    &&& forall|j: int|
        0 <= j < i ==> from.distance_squared(positions[i]) < from.distance_squared(
            #[trigger] positions[j],
        )
}

/// The index of the position nearest to `from`, if there is any position.
pub open spec fn nearest_index(from: Vec3, positions: Seq<Vec3>) -> Option<int> {
    if positions.len() == 0 {
        None
    } else {
        Some(choose|i: int| is_nearest(from, positions, i))
    }
}

/// Only one position is the nearest.
pub proof fn lemma_nearest_unique(from: Vec3, positions: Seq<Vec3>, i: int)
    requires
        is_nearest(from, positions, i),
    ensures
        nearest_index(from, positions) == Some(i),
{
    let k = choose|k: int| is_nearest(from, positions, k);
    assert(is_nearest(from, positions, k));
    if k < i {
        assert(from.distance_squared(positions[i]) < from.distance_squared(positions[k]));
        assert(from.distance_squared(positions[k]) <= from.distance_squared(positions[i]));
    } else if i < k {
        assert(from.distance_squared(positions[k]) < from.distance_squared(positions[i]));
        assert(from.distance_squared(positions[i]) <= from.distance_squared(positions[k]));
    }
}

/// Where there is a position there is a nearest one.
pub proof fn lemma_nearest_exists(from: Vec3, positions: Seq<Vec3>)
    requires
        positions.len() > 0,
    ensures
        nearest_index(from, positions) matches Some(i) && is_nearest(from, positions, i),
    decreases positions.len(),
{
    let last = positions.len() - 1;
    if positions.len() == 1 {
        assert(is_nearest(from, positions, 0));
    } else {
        let front = positions.drop_last();
        lemma_nearest_exists(from, front);
        let b = nearest_index(from, front).unwrap();
        assert(forall|j: int| 0 <= j < front.len() ==> front[j] == positions[j]);
        if from.distance_squared(positions[last]) < from.distance_squared(positions[b]) {
            assert forall|j: int| 0 <= j < positions.len() implies from.distance_squared(
                positions[last],
            ) <= from.distance_squared(#[trigger] positions[j]) by {
                if j < last {
                    assert(from.distance_squared(front[b]) <= from.distance_squared(front[j]));
                }
            }
            assert forall|j: int| 0 <= j < last implies from.distance_squared(positions[last])
                < from.distance_squared(#[trigger] positions[j]) by {
                assert(from.distance_squared(front[b]) <= from.distance_squared(front[j]));
            }
            assert(is_nearest(from, positions, last));
        } else {
            assert forall|j: int| 0 <= j < positions.len() implies from.distance_squared(
                positions[b],
            ) <= from.distance_squared(#[trigger] positions[j]) by {
                if j < last {
                    assert(from.distance_squared(front[b]) <= from.distance_squared(front[j]));
                }
            }
            assert forall|j: int| 0 <= j < b implies from.distance_squared(positions[b])
                < from.distance_squared(#[trigger] positions[j]) by {
                assert(from.distance_squared(front[b]) < from.distance_squared(front[j]));
            }
            assert(is_nearest(from, positions, b));
        }
    }
}

/// Finds the target nearest to `from`: the index of the first target at the
/// least distance, or nothing where there is no target.
pub fn nearest_target(from: &Vec3, targets: &Vec<TargetEntity>) -> (nearest: Option<usize>)
    requires
        from.in_world(),
        forall|i: int| 0 <= i < targets.len() ==> (#[trigger] targets[i]).position.in_world(),
    ensures
        nearest is None <==> targets.len() == 0,
        nearest matches Some(i) ==> is_nearest(*from, positions(targets@), i as int),
        nearest_index(*from, positions(targets@)) == match nearest {
            Some(i) => Some(i as int),
            None => None,
        },
{
    if targets.len() == 0 {
        return None;
    }
    let mut best: usize = 0;
    let mut least: u128 = from.distance_squared_to(&targets[0].position);
    let mut i: usize = 1;
    while i < targets.len()
        invariant
            1 <= i <= targets.len(),
            best < i,
            from.in_world(),
            forall|j: int| 0 <= j < targets.len() ==> (#[trigger] targets[j]).position.in_world(),
            least == from.distance_squared(targets[best as int].position),
            forall|j: int|
                0 <= j < i ==> least <= from.distance_squared((#[trigger] targets[j]).position),
            forall|j: int|
                0 <= j < best ==> least < from.distance_squared((#[trigger] targets[j]).position),
        decreases targets.len() - i,
    {
        let d: u128 = from.distance_squared_to(&targets[i].position);
        if d < least {
            best = i;
            least = d;
        }
        i += 1;
    }
    proof {
        let ps = positions(targets@);
        assert forall|j: int| 0 <= j < ps.len() implies from.distance_squared(ps[best as int])
            <= from.distance_squared(#[trigger] ps[j]) by {
            assert(ps[j] == targets[j].position);
        }
        assert forall|j: int| 0 <= j < best implies from.distance_squared(ps[best as int])
            < from.distance_squared(#[trigger] ps[j]) by {
            assert(ps[j] == targets[j].position);
        }
        lemma_nearest_unique(*from, ps, best as int);
    }
    Some(best)
}

impl TargetEntity {
    /// The target has health left.
    pub open spec fn is_alive(self) -> bool {
        self.bundle.health.is_alive()
    }

    /// The target after it moved at its velocity for `dt` nanoseconds.
    pub open spec fn moved(self, dt: nat) -> TargetEntity {
        TargetEntity { position: self.position.moved(self.bundle.velocity.val, dt), ..self }
    }

    /// What a target update leaves of the target: a target with health left
    /// moves, one without is removed.
    pub open spec fn after_update(self, dt: nat) -> Option<TargetEntity> {
        if self.is_alive() {
            Some(self.moved(dt))
        } else {
            None
        }
    }
}

/// The targets that a target update of `dt` nanoseconds leaves, in their
/// order.
pub open spec fn targets_after_update(targets: Seq<TargetEntity>, dt: nat) -> Seq<TargetEntity> {
    targets.filter_map(|t: TargetEntity| t.after_update(dt))
}

/// A target update deals with the targets one after the other.
pub proof fn lemma_targets_after_update_step(targets: Seq<TargetEntity>, dt: nat, k: int)
    requires
        0 <= k < targets.len(),
    ensures
        targets_after_update(targets.take(k + 1), dt) == targets_after_update(targets.take(k), dt)
            + match targets[k].after_update(dt) {
            Some(t) => seq![t],
            None => Seq::empty(),
        },
{
    targets.lemma_filter_map_take_succ(|t: TargetEntity| t.after_update(dt), k);
}

/// Every target that a target update leaves has health left, is inside the
/// world, and was in the list before.
pub proof fn lemma_targets_after_update_members(targets: Seq<TargetEntity>, dt: nat, k: int)
    requires
        0 <= k < targets_after_update(targets, dt).len(),
    ensures
        targets_after_update(targets, dt)[k].is_alive(),
        targets_after_update(targets, dt)[k].position.in_world(),
        exists|j: int|
            0 <= j < targets.len() && (#[trigger] targets[j]).is_alive() && targets[j].moved(dt)
                == targets_after_update(targets, dt)[k],
{
    let f = |t: TargetEntity| t.after_update(dt);
    let elt = targets_after_update(targets, dt)[k];
    assert(targets.filter_map(f).contains(elt));
    targets.lemma_filter_map_contains(f, elt);
    let x = choose|x: TargetEntity| targets.contains(x) && f(x) == Some(elt);
    let j = choose|j: int| 0 <= j < targets.len() && targets[j] == x;
    assert(targets[j].is_alive() && targets[j].moved(dt) == elt);
}

/// The store after a target update of `dt` nanoseconds.
pub open spec fn after_target_update(before: WorldView, dt: nat) -> WorldView {
    WorldView { targets: targets_after_update(before.targets, dt), ..before }
}

/// A target update keeps the store well formed.
pub proof fn lemma_target_update_keeps_wf(before: WorldView, dt: nat)
    requires
        before.wf(),
    ensures
        after_target_update(before, dt).wf(),
{
    let after = after_target_update(before, dt);
    lemma_filter_map_entities(
        before.targets,
        |t: TargetEntity| t.after_update(dt),
        |t: TargetEntity| t.entity,
        |t: TargetEntity| t.entity,
    );
    assert(after.tower_entities() == before.tower_entities());
    assert(after.bullet_entities() == before.bullet_entities());
    lemma_drawn_stays_disjoint(
        after.target_entities(),
        before.target_entities(),
        before.tower_entities(),
    );
    lemma_drawn_stays_disjoint(
        after.target_entities(),
        before.target_entities(),
        before.bullet_entities(),
    );
    lemma_drawn_stays_below(after.target_entities(), before.target_entities(), before.next_id);
    assert forall|i: int| 0 <= i < after.targets.len() implies (
    #[trigger] after.targets[i]).position.in_world() by {
        lemma_targets_after_update_members(before.targets, dt, i);
    }
}

/// The target update: every target without health left is removed from the
/// store, and every other target moves at its velocity for `delta_nanos`
/// nanoseconds. Towers and bullets are left as they are.
pub fn update_targets(world: &mut World, delta_nanos: u64)
    ensures
        final(world)@ == after_target_update(old(world)@, delta_nanos as nat),
        old(world).wf() ==> final(world).wf(),
{
    let ghost before = world@;
    let ghost dt = delta_nanos as nat;
    let ghost mut k: int = 0;
    let mut i: usize = 0;
    assert(before.targets.take(0) =~= Seq::empty());
    assert(before.targets.skip(0) =~= before.targets);
    while i < world.targets.len()
        invariant
            dt == delta_nanos as nat,
            0 <= k <= before.targets.len(),
            i == targets_after_update(before.targets.take(k), dt).len(),
            world.targets@ == targets_after_update(before.targets.take(k), dt)
                + before.targets.skip(k),
            world@.towers == before.towers,
            world@.bullets == before.bullets,
            world@.next_id == before.next_id,
        decreases before.targets.len() - k,
    {
        proof {
            lemma_targets_after_update_step(before.targets, dt, k);
            assert(world.targets@[i as int] == before.targets[k]);
        }
        if world.targets[i].bundle.health.alive() {
            let velocity = world.targets[i].bundle.velocity.val;
            let position = world.targets[i].position.advance(&velocity, delta_nanos);
            world.targets[i].position = position;
            assert(world.targets@[i as int] == before.targets[k].moved(dt));
            assert(world.targets@ =~= targets_after_update(before.targets.take(k + 1), dt)
                + before.targets.skip(k + 1));
            i += 1;
        } else {
            world.targets.remove(i);
            assert(world.targets@ =~= targets_after_update(before.targets.take(k + 1), dt)
                + before.targets.skip(k + 1));
        }
        proof {
            k = k + 1;
        }
    }
    proof {
        assert(before.targets.take(k) =~= before.targets);
        if before.wf() {
            lemma_target_update_keeps_wf(before, dt);
        }
    }
}

} // verus!
