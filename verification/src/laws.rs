//! What holds of the simulation over several passes and several entities.
//!
//! Each function here is a theorem about the passes of the simulation,
//! proved from what the passes are stated to do.
use crate::bullet::after_bullet_update;
use crate::bullet::damage_dealt;
use crate::bullet::damaged_target;
use crate::bullet::strike;
use crate::bullet::targets_after_bullets;
use crate::clock::lemma_cadence_fires_when_period_is_reached;
use crate::clock::lemma_cadence_follows_periods;
use crate::clock::lemma_countdown_fires_when_duration_is_reached;
use crate::clock::lemma_countdown_fires_when_time_is_up;
use crate::clock::total;
use crate::clock::TimerView;
use crate::components::Health;
use crate::target::after_target_update;
use crate::target::is_nearest;
use crate::target::lemma_nearest_exists;
use crate::target::nearest_index;
use crate::target::targets_after_update;
use crate::target::lemma_targets_after_update_members;
use crate::target::TargetBundle;
use crate::tower::after_tower_shooting;
use crate::tower::aim;
use crate::tower::lemma_volley_len;
use crate::tower::lemma_volley_step;
use crate::tower::volley;
use crate::tower::BULLET_SPEED;
use crate::vec3::Vec3;
use crate::vec3::WORLD_LIMIT;
use crate::world::lemma_filter_map_keeps;
use crate::world::positions;
use crate::world::BulletView;
use crate::world::TargetEntity;
use crate::world::TowerView;
use crate::world::WorldView;
use bevy::time::TimerMode;
use vstd::prelude::*;

verus! {

/// The coordinate `c` moved at `v` for `time` stays inside the world.
pub open spec fn coord_stays_in_world(c: int, v: int, time: nat) -> bool {
    -WORLD_LIMIT <= c + v * time <= WORLD_LIMIT
}

impl Vec3 {
    /// A point that leaves `self` at `velocity` is inside the world after
    /// `time` nanoseconds.
    pub open spec fn stays_in_world(self, velocity: Vec3, time: nat) -> bool {
        &&& coord_stays_in_world(self.x as int, velocity.x as int, time)
        &&& coord_stays_in_world(self.y as int, velocity.y as int, time)
        &&& coord_stays_in_world(self.z as int, velocity.z as int, time)
    }
}

impl TargetEntity {
    /// The target with its health set to `val`.
    pub open spec fn with_health(self, val: i64) -> TargetEntity {
        TargetEntity { bundle: TargetBundle { health: Health { val }, ..self.bundle }, ..self }
    }

    /// What is left of the target after one target update of `dt`
    /// nanoseconds for each entry of `healths`, where the target comes to the
    /// update with that entry as its health, whatever has been done to its
    /// health since the update before.
    pub open spec fn after_updates(self, dt: nat, healths: Seq<i64>) -> Option<TargetEntity>
        decreases healths.len(),
    {
        if healths.len() == 0 {
            Some(self)
        } else {
            match self.after_updates(dt, healths.drop_last()) {
                Some(t) => t.with_health(healths.last()).after_update(dt),
                None => None,
            }
        }
    }
}

/// A coordinate that is inside the world at the start and at the end of a
/// straight path is inside the world on the way, and the path is the sum of
/// its parts.
proof fn lemma_straight_path(c: int, v: int, dt: nat, n: nat)
    requires
        n > 0,
        -WORLD_LIMIT <= c <= WORLD_LIMIT,
        coord_stays_in_world(c, v, n * dt),
    ensures
        coord_stays_in_world(c, v, ((n - 1) * dt) as nat),
        c + v * (((n - 1) * dt) as nat) + v * dt == c + v * (n * dt),
{
    let limit = WORLD_LIMIT as int;
    assert(-limit <= c + v * ((n - 1) * dt) <= limit && v * ((n - 1) * dt) + v * dt == v * (n
        * dt)) by (nonlinear_arith)
        requires
            n > 0,
            dt >= 0,
            -limit <= c <= limit,
            -limit <= c + v * (n * dt) <= limit,
    ;
}

/// Straight motion. A target that has health left at each of `n` target
/// updates of `dt` nanoseconds is, after them, where its velocity has taken
/// it in `n * dt` nanoseconds: at its first position plus its velocity times
/// `n * dt`. This holds wherever that point is inside the world.
pub proof fn lemma_target_moves_in_a_straight_line(target: TargetEntity, dt: nat, healths: Seq<i64>)
    requires
        target.position.in_world(),
        target.position.stays_in_world(target.bundle.velocity.val, healths.len() * dt),
        forall|k: int| 0 <= k < healths.len() ==> #[trigger] healths[k] > 0,
    ensures
        target.after_updates(dt, healths) matches Some(t) && {
            &&& t.position.x == target.position.x + target.bundle.velocity.val.x * (healths.len()
                * dt)
            &&& t.position.y == target.position.y + target.bundle.velocity.val.y * (healths.len()
                * dt)
            &&& t.position.z == target.position.z + target.bundle.velocity.val.z * (healths.len()
                * dt)
            &&& t.entity == target.entity
            &&& t.bundle.velocity == target.bundle.velocity
            &&& t.bundle.target == target.bundle.target
        },
    decreases healths.len(),
{
    let n = healths.len();
    let v = target.bundle.velocity.val;
    let p = target.position;
    if n == 0 {
        assert(v.x * (0 * dt) == 0 && v.y * (0 * dt) == 0 && v.z * (0 * dt) == 0)
            by (nonlinear_arith);
    } else {
        lemma_straight_path(p.x as int, v.x as int, dt, n);
        lemma_straight_path(p.y as int, v.y as int, dt, n);
        lemma_straight_path(p.z as int, v.z as int, dt, n);
        let front = healths.drop_last();
        assert(front.len() * dt == (n - 1) * dt);
        assert forall|k: int| 0 <= k < front.len() implies #[trigger] front[k] > 0 by {
            assert(healths[k] > 0);
        }
        lemma_target_moves_in_a_straight_line(target, dt, front);
    }
}

/// A target without health left is not in the store after the target update.
pub proof fn lemma_spent_target_is_removed(before: WorldView, dt: nat, i: int)
    requires
        before.wf(),
        0 <= i < before.targets.len(),
        !before.targets[i].is_alive(),
    ensures
        !after_target_update(before, dt).contains(before.targets[i].entity),
{
    let after = after_target_update(before, dt);
    let gone = before.targets[i].entity;
    assert(after.tower_entities() == before.tower_entities());
    assert(after.bullet_entities() == before.bullet_entities());
    assert(before.target_entities()[i] == gone);
    if after.target_entities().contains(gone) {
        let k = choose|k: int|
            0 <= k < after.target_entities().len() && after.target_entities()[k] == gone;
        lemma_targets_after_update_members(before.targets, dt, k);
        let j = choose|j: int|
            0 <= j < before.targets.len() && (#[trigger] before.targets[j]).is_alive()
                && before.targets[j].moved(dt) == after.targets[k];
        assert(before.target_entities()[j] == gone);
    }
    if after.tower_entities().contains(gone) {
        let k = choose|k: int|
            0 <= k < before.tower_entities().len() && before.tower_entities()[k] == gone;
        assert(before.tower_entities()[k] != before.target_entities()[i]);
    }
    if after.bullet_entities().contains(gone) {
        let k = choose|k: int|
            0 <= k < before.bullet_entities().len() && before.bullet_entities()[k] == gone;
        assert(before.target_entities()[i] != before.bullet_entities()[k]);
    }
}

/// Every target in the store after a frame has health left: a target whose
/// health a bullet spends is removed in the frame in which it is struck.
pub proof fn lemma_frame_leaves_no_spent_target(before: WorldView, dt: nat, k: int)
    requires
        0 <= k < before.after_step(dt).targets.len(),
    ensures
        before.after_step(dt).targets[k].is_alive(),
{
    let struck = after_bullet_update(after_tower_shooting(before, dt), dt);
    lemma_targets_after_update_members(struck.targets, dt, k);
}

/// A bullet that a bullet update does not leave, because its lifetime has
/// ended or because it has struck a target, is not in the store after that
/// update.
pub proof fn lemma_spent_bullet_is_removed(before: WorldView, dt: nat, i: int)
    requires
        before.wf(),
        0 <= i < before.bullets.len(),
        before.bullets[i].expires(dt) || before.bullets[i].struck(before.targets, dt) is Some,
    ensures
        !after_bullet_update(before, dt).contains(before.bullets[i].entity),
{
    let after = after_bullet_update(before, dt);
    let gone = before.bullets[i].entity;
    let f = |b: BulletView| b.after_update(before.targets, dt);
    assert(after.tower_entities() == before.tower_entities());
    assert(after.target_entities() =~= before.target_entities());
    assert(before.bullet_entities()[i] == gone);
    if after.bullet_entities().contains(gone) {
        let k = choose|k: int|
            0 <= k < after.bullet_entities().len() && after.bullet_entities()[k] == gone;
        let kept = after.bullets[k];
        assert(before.bullets.filter_map(f).contains(kept));
        before.bullets.lemma_filter_map_contains(f, kept);
        let x = choose|x: BulletView| before.bullets.contains(x) && f(x) == Some(kept);
        let j = choose|j: int| 0 <= j < before.bullets.len() && before.bullets[j] == x;
        assert(before.bullet_entities()[j] == gone);
    }
    if after.tower_entities().contains(gone) {
        let k = choose|k: int|
            0 <= k < before.tower_entities().len() && before.tower_entities()[k] == gone;
        assert(before.tower_entities()[k] != before.bullet_entities()[i]);
    }
    if after.target_entities().contains(gone) {
        let k = choose|k: int|
            0 <= k < before.target_entities().len() && before.target_entities()[k] == gone;
        assert(before.target_entities()[k] != before.bullet_entities()[i]);
    }
}

/// A bullet is removed when its lifetime is up, whether it strikes or not. A
/// bullet whose lifetime of `duration` nanoseconds has been ticked through the
/// steps of `spent` without ending ends its lifetime in a bullet update of
/// `dt` nanoseconds exactly when the time ticked in all reaches `duration`.
/// Until then the bullet carries the lifetime ticked through all the steps.
pub proof fn lemma_bullet_expires_when_its_lifetime_is_up(
    bullet: BulletView,
    duration: nat,
    spent: Seq<nat>,
    dt: nat,
)
    requires
        bullet.lifetime == TimerView::fresh(duration, TimerMode::Once).ticked_through(spent),
        spent.len() == 0 || total(spent) < duration,
    ensures
        bullet.expires(dt) <==> total(spent) + dt >= duration,
        !bullet.expires(dt) ==> bullet.flown(dt).lifetime == TimerView::fresh(
            duration,
            TimerMode::Once,
        ).ticked_through(spent.push(dt)),
{
    if spent.len() > 0 {
        if spent.len() > 1 {
            assert(total(spent.drop_last()) <= total(spent));
        }
    }
    lemma_countdown_fires_when_time_is_up(duration, spent);
    assert(spent.push(dt).drop_last() =~= spent);
}

/// A tower fires in exactly those passes in which the time ticked in all
/// completes a period of its timer. This holds of a tower whose timer of
/// period `period` has been ticked through the steps of `spent` and is ticked
/// by `dt` in the pass, as long as no single tick completes 2^32 periods or
/// more.
pub proof fn lemma_tower_fires_when_a_period_is_completed(
    tower: TowerView,
    period: nat,
    spent: Seq<nat>,
    dt: nat,
)
    requires
        period > 0,
        tower.shooting_timer == TimerView::fresh(period, TimerMode::Repeating).ticked_through(
            spent,
        ),
        forall|k: int|
            0 <= k <= spent.len() ==> total(#[trigger] spent.push(dt).take(k + 1)) / period
                - total(spent.push(dt).take(k)) / period < 0x1_0000_0000,
    ensures
        tower.fires(dt) <==> (total(spent) + dt) / period > total(spent) / period,
{
    let all = spent.push(dt);
    lemma_cadence_follows_periods(period, all);
    assert(all.drop_last() =~= spent);
}

/// No tower fires twice in a pass, however long the pass: the tower update
/// adds at most one bullet for each tower.
pub proof fn lemma_one_shot_per_tower(before: WorldView, dt: nat)
    ensures
        after_tower_shooting(before, dt).bullets.len() <= before.bullets.len()
            + before.towers.len(),
        before.towers.len() == 1 ==> volley(before.towers, before.targets, dt).len() == (
        if before.towers[0].shot(before.targets, dt) is Some {
            1nat
        } else {
            0nat
        }),
{
    lemma_volley_len(before.towers, before.targets, dt);
    if before.towers.len() == 1 {
        lemma_volley_step(before.towers, before.targets, dt, 0);
        assert(before.towers.take(1) =~= before.towers);
        assert(before.towers.take(0) =~= Seq::<TowerView>::empty());
    }
}

/// Health never grows: after a bullet update no target has more health than
/// before it, and after a target update every target has the health that it
/// had.
pub proof fn lemma_health_never_grows(before: WorldView, dt: nat)
    ensures
        forall|j: int|
            0 <= j < before.targets.len() ==> (#[trigger] after_bullet_update(
                before,
                dt,
            ).targets[j]).bundle.health.val <= before.targets[j].bundle.health.val,
        forall|k: int|
            0 <= k < after_target_update(before, dt).targets.len() ==> exists|j: int|
                0 <= j < before.targets.len() && (#[trigger] before.targets[j]).bundle.health
                    == (#[trigger] after_target_update(before, dt).targets[k]).bundle.health,
{
    assert forall|k: int| 0 <= k < after_target_update(before, dt).targets.len() implies exists|
        j: int,
    |
        0 <= j < before.targets.len() && (#[trigger] before.targets[j]).bundle.health == (
        #[trigger] after_target_update(before, dt).targets[k]).bundle.health by {
        lemma_targets_after_update_members(before.targets, dt, k);
        let j = choose|j: int|
            0 <= j < before.targets.len() && (#[trigger] before.targets[j]).is_alive()
                && before.targets[j].moved(dt) == after_target_update(before, dt).targets[k];
        assert(before.targets[j].bundle.health == after_target_update(
            before,
            dt,
        ).targets[k].bundle.health);
    }
}

/// The damage dealt by two lists of bullets, one behind the other, is the
/// sum of what each list deals: no hit is lost, however many bullets strike
/// a target in one pass.
pub proof fn lemma_damage_is_summed(
    first: Seq<BulletView>,
    second: Seq<BulletView>,
    targets: Seq<TargetEntity>,
    dt: nat,
    j: int,
)
    ensures
        damage_dealt(first + second, targets, dt, j) == damage_dealt(first, targets, dt, j)
            + damage_dealt(second, targets, dt, j),
    decreases second.len(),
{
    if second.len() == 0 {
        assert(first + second =~= first);
    } else {
        lemma_damage_is_summed(first, second.drop_last(), targets, dt, j);
        assert((first + second).drop_last() =~= first + second.drop_last());
    }
}

/// One bullet alone deals its damage to the target that it strikes and
/// nothing to any other target.
pub proof fn lemma_damage_of_one_bullet(
    bullet: BulletView,
    targets: Seq<TargetEntity>,
    dt: nat,
    j: int,
)
    ensures
        damage_dealt(seq![bullet], targets, dt, j) == if bullet.struck(targets, dt) == Some(j) {
            bullet.bundle.bullet.damage as nat
        } else {
            0
        },
{
    assert(seq![bullet].drop_last() =~= Seq::<BulletView>::empty());
    assert(damage_dealt(Seq::<BulletView>::empty(), targets, dt, j) == 0);
    assert(seq![bullet].last() == bullet);
}

/// A hit takes the damage of the bullet from the health of the target, in
/// the pass in which the bullet strikes. Where one bullet strikes the target
/// at index `j` and no other bullet does, the health of that target after the
/// bullet update is its health before less the damage of the bullet.
pub proof fn lemma_hit_takes_damage(
    bullets: Seq<BulletView>,
    targets: Seq<TargetEntity>,
    dt: nat,
    i: int,
    j: int,
)
    requires
        0 <= i < bullets.len(),
        0 <= j < targets.len(),
        bullets[i].struck(targets, dt) == Some(j),
        forall|k: int|
            0 <= k < bullets.len() && k != i ==> (#[trigger] bullets[k]).struck(targets, dt)
                != Some(j),
        targets[j].bundle.health.val - bullets[i].bundle.bullet.damage >= i64::MIN,
    ensures
        targets_after_bullets(bullets, targets, dt)[j].bundle.health.val
            == targets[j].bundle.health.val - bullets[i].bundle.bullet.damage,
{
    lemma_damage_of_hits(bullets, targets, dt, j, i);
}

/// Two hits on one target in one pass take the sum of their damage. Where
/// two bullets strike the target at index `j` and no other bullet does, the
/// health of that target after the bullet update is its health before less
/// the damage of both.
pub proof fn lemma_two_hits_take_both_damages(
    bullets: Seq<BulletView>,
    targets: Seq<TargetEntity>,
    dt: nat,
    a: int,
    b: int,
    j: int,
)
    requires
        0 <= a < b < bullets.len(),
        0 <= j < targets.len(),
        bullets[a].struck(targets, dt) == Some(j),
        bullets[b].struck(targets, dt) == Some(j),
        forall|k: int|
            0 <= k < bullets.len() && k != a && k != b ==> (#[trigger] bullets[k]).struck(
                targets,
                dt,
            ) != Some(j),
        targets[j].bundle.health.val - bullets[a].bundle.bullet.damage
            - bullets[b].bundle.bullet.damage >= i64::MIN,
    ensures
        targets_after_bullets(bullets, targets, dt)[j].bundle.health.val
            == targets[j].bundle.health.val - bullets[a].bundle.bullet.damage
            - bullets[b].bundle.bullet.damage,
{
    let front = bullets.take(b);
    let back = bullets.skip(b);
    assert(bullets =~= front + back);
    lemma_damage_is_summed(front, back, targets, dt, j);
    assert forall|k: int| 0 <= k < front.len() && k != a implies (#[trigger] front[k]).struck(
        targets,
        dt,
    ) != Some(j) by {
        assert(front[k] == bullets[k]);
    }
    lemma_damage_of_hits(front, targets, dt, j, a);
    assert forall|k: int| 0 <= k < back.len() && k != 0 implies (#[trigger] back[k]).struck(
        targets,
        dt,
    ) != Some(j) by {
        assert(back[k] == bullets[k + b]);
    }
    lemma_damage_of_hits(back, targets, dt, j, 0);
}

/// Where the bullet at index `i` is the only one that strikes the target at
/// index `j`, the damage dealt to that target is the damage of that bullet.
proof fn lemma_damage_of_hits(
    bullets: Seq<BulletView>,
    targets: Seq<TargetEntity>,
    dt: nat,
    j: int,
    i: int,
)
    requires
        0 <= i < bullets.len(),
        bullets[i].struck(targets, dt) == Some(j),
        forall|k: int|
            0 <= k < bullets.len() && k != i ==> (#[trigger] bullets[k]).struck(targets, dt)
                != Some(j),
    ensures
        damage_dealt(bullets, targets, dt, j) == bullets[i].bundle.bullet.damage,
{
    let front = bullets.take(i);
    let rest = bullets.skip(i + 1);
    assert(bullets =~= (front + seq![bullets[i]]) + rest);
    lemma_damage_is_summed(front + seq![bullets[i]], rest, targets, dt, j);
    lemma_damage_is_summed(front, seq![bullets[i]], targets, dt, j);
    lemma_damage_of_one_bullet(bullets[i], targets, dt, j);
    lemma_no_hit_no_damage(front, targets, dt, j);
    lemma_no_hit_no_damage(rest, targets, dt, j);
}

/// Bullets of which none strikes the target at index `j` deal no damage to
/// it.
proof fn lemma_no_hit_no_damage(
    bullets: Seq<BulletView>,
    targets: Seq<TargetEntity>,
    dt: nat,
    j: int,
)
    requires
        forall|k: int|
            0 <= k < bullets.len() ==> (#[trigger] bullets[k]).struck(targets, dt) != Some(j),
    ensures
        damage_dealt(bullets, targets, dt, j) == 0,
    decreases bullets.len(),
{
    if bullets.len() > 0 {
        let front = bullets.drop_last();
        assert forall|k: int| 0 <= k < front.len() implies (#[trigger] front[k]).struck(
            targets,
            dt,
        ) != Some(j) by {
            assert(front[k] == bullets[k]);
        }
        lemma_no_hit_no_damage(front, targets, dt, j);
        assert(bullets.last() == bullets[bullets.len() - 1]);
    }
}

/// Every target with health left moves, whatever the other targets are and
/// wherever it stands among them: after the target update it is in the
/// store, moved at its velocity for `dt` nanoseconds. Where the point that it
/// moves to is inside the world, that point is its position plus its velocity
/// times `dt`.
pub proof fn lemma_live_target_moves(targets: Seq<TargetEntity>, dt: nat, i: int)
    requires
        0 <= i < targets.len(),
        targets[i].is_alive(),
    ensures
        targets_after_update(targets, dt).contains(targets[i].moved(dt)),
        targets[i].position.stays_in_world(targets[i].bundle.velocity.val, dt) ==> {
            let (p, v, q) = (
                targets[i].position,
                targets[i].bundle.velocity.val,
                targets[i].moved(dt).position,
            );
            q.x == p.x + v.x * dt && q.y == p.y + v.y * dt && q.z == p.z + v.z * dt
        },
{
    lemma_filter_map_keeps(targets, |t: TargetEntity| t.after_update(dt), i);
}

/// A tower fires when its period is reached. In a tower update that the
/// store can run, a tower whose timer has `e` elapsed of its period `P` fires
/// exactly when `e + dt >= P`, and its timer holds `(e + dt) mod P`
/// afterwards. It adds a bullet exactly when it fires and a target can be
/// aimed at; otherwise it adds none and its timer is ticked all the same.
pub proof fn lemma_tower_fires_when_its_period_is_reached(before: WorldView, dt: nat, i: int)
    requires
        before.wf(),
        before.can_step(dt),
        dt <= u64::MAX,
        0 <= i < before.towers.len(),
    ensures
        ({
            let tower = before.towers[i];
            let timer = tower.shooting_timer;
            let after = after_tower_shooting(before, dt).towers[i].shooting_timer;
            &&& tower.fires(dt) <==> timer.elapsed + dt >= timer.duration
            &&& after.elapsed == (timer.elapsed + dt) % timer.duration
            &&& timer.elapsed + dt < timer.duration ==> after.elapsed == timer.elapsed + dt
            &&& tower.shot(before.targets, dt) is Some <==> tower.fires(dt) && aim(
                tower.spawn_point(),
                before.targets,
            ) is Some
        }),
{
    lemma_cadence_fires_when_period_is_reached(before.towers[i].shooting_timer, dt);
}

/// A shot is aimed at the nearest target. There is a velocity to aim with
/// exactly when there is a target and the nearest one is not at the point
/// aimed from; it is then the displacement from that point to the nearest
/// target, of the targets at the least distance the first, rescaled to the
/// speed of bullets.
pub proof fn lemma_shot_is_aimed_at_the_nearest_target(from: Vec3, targets: Seq<TargetEntity>)
    requires
        from.in_world(),
        forall|j: int| 0 <= j < targets.len() ==> (#[trigger] targets[j]).position.in_world(),
    ensures
        targets.len() == 0 ==> aim(from, targets) is None,
        targets.len() > 0 ==> exists|j: int|
            {
                &&& #[trigger] is_nearest(from, positions(targets), j)
                &&& forall|k: int|
                    0 <= k < targets.len() ==> from.distance_squared(targets[j].position)
                        <= from.distance_squared((#[trigger] targets[k]).position)
                &&& aim(from, targets) is None <==> targets[j].position == from
                &&& aim(from, targets) matches Some(v) ==> v == targets[j].position.displacement_from(
                    from,
                ).with_length(BULLET_SPEED as nat)
            },
{
    if targets.len() > 0 {
        let ps = positions(targets);
        lemma_nearest_exists(from, ps);
        let j = nearest_index(from, ps).unwrap();
        assert(ps[j] == targets[j].position);
        assert forall|k: int| 0 <= k < targets.len() implies from.distance_squared(
            targets[j].position,
        ) <= from.distance_squared((#[trigger] targets[k]).position) by {
            assert(ps[k] == targets[k].position);
        }
        assert(is_nearest(from, ps, j));
    }
}

/// A bullet whose lifetime is up is removed and does nothing else. In a
/// bullet update in which the lifetime of a bullet reaches its duration, the
/// bullet leaves the store, and every target is dealt the damage that it
/// would be dealt without that bullet, also where the bullet is inside a
/// hitbox.
pub proof fn lemma_expiring_bullet_is_removed_and_deals_nothing(
    before: WorldView,
    dt: nat,
    i: int,
    j: int,
)
    requires
        before.wf(),
        dt <= u64::MAX,
        0 <= i < before.bullets.len(),
        before.bullets[i].lifetime.elapsed + dt >= before.bullets[i].lifetime.duration,
    ensures
        before.bullets[i].expires(dt),
        !after_bullet_update(before, dt).contains(before.bullets[i].entity),
        damage_dealt(before.bullets, before.targets, dt, j) == damage_dealt(
            before.bullets.remove(i),
            before.targets,
            dt,
            j,
        ),
{
    lemma_countdown_fires_when_duration_is_reached(before.bullets[i].lifetime, dt);
    lemma_spent_bullet_is_removed(before, dt, i);
    let bullets = before.bullets;
    let front = bullets.take(i);
    let rest = bullets.skip(i + 1);
    assert(bullets =~= (front + seq![bullets[i]]) + rest);
    assert(bullets.remove(i) =~= front + rest);
    lemma_damage_is_summed(front + seq![bullets[i]], rest, before.targets, dt, j);
    lemma_damage_is_summed(front, seq![bullets[i]], before.targets, dt, j);
    lemma_damage_is_summed(front, rest, before.targets, dt, j);
    lemma_damage_of_one_bullet(bullets[i], before.targets, dt, j);
}

/// A bullet whose lifetime is not up is removed exactly when it strikes. In
/// a bullet update in which the lifetime of a bullet does not reach its
/// duration, the bullet leaves the store if and only if there is a target
/// and the bullet, where it has flown to, is closer to the nearest target
/// than the radius of that target's hitbox. With no target it flies on.
pub proof fn lemma_bullet_is_removed_exactly_when_it_strikes(before: WorldView, dt: nat, i: int)
    requires
        before.wf(),
        dt <= u64::MAX,
        0 <= i < before.bullets.len(),
        before.bullets[i].lifetime.elapsed + dt < before.bullets[i].lifetime.duration,
    ensures
        ({
            let bullet = before.bullets[i];
            let at = bullet.position.moved(bullet.bundle.velocity.val, dt);
            let after = after_bullet_update(before, dt);
            &&& !bullet.expires(dt)
            &&& after.contains(bullet.entity) <==> strike(at, before.targets) is None
            &&& strike(at, before.targets) is None ==> after.bullets.contains(bullet.flown(dt))
            &&& before.targets.len() == 0 ==> strike(at, before.targets) is None
            &&& before.targets.len() > 0 ==> exists|j: int|
                {
                    &&& #[trigger] is_nearest(at, positions(before.targets), j)
                    &&& strike(at, before.targets) is Some <==> at.distance_squared(
                        before.targets[j].position,
                    ) < before.targets[j].bundle.target.hitbox
                        * before.targets[j].bundle.target.hitbox
                }
        }),
{
    let bullet = before.bullets[i];
    let at = bullet.position.moved(bullet.bundle.velocity.val, dt);
    let after = after_bullet_update(before, dt);
    lemma_countdown_fires_when_duration_is_reached(bullet.lifetime, dt);
    assert(at == bullet.flown(dt).position);
    if strike(at, before.targets) is None {
        lemma_filter_map_keeps(
            before.bullets,
            |b: BulletView| b.after_update(before.targets, dt),
            i,
        );
        let k = choose|k: int| 0 <= k < after.bullets.len() && after.bullets[k] == bullet.flown(dt);
        assert(after.bullet_entities()[k] == bullet.entity);
    } else {
        lemma_spent_bullet_is_removed(before, dt, i);
    }
    if before.targets.len() > 0 {
        let ps = positions(before.targets);
        lemma_nearest_exists(at, ps);
        let j = nearest_index(at, ps).unwrap();
        assert(is_nearest(at, ps, j));
    }
}

/// The health of a target after the bullet update is its health before less
/// the damage dealt to it, which is the sum of the damage of the bullets
/// that strike it; the target is otherwise as it was. The health stops at
/// the least value that it can hold.
pub proof fn lemma_health_after_hits(
    bullets: Seq<BulletView>,
    targets: Seq<TargetEntity>,
    dt: nat,
    j: int,
)
    requires
        0 <= j < targets.len(),
    ensures
        ({
            let dealt = damage_dealt(bullets, targets, dt, j);
            let after = targets_after_bullets(bullets, targets, dt)[j];
            &&& after == damaged_target(targets[j], dealt)
            &&& after.entity == targets[j].entity
            &&& after.position == targets[j].position
            &&& targets[j].bundle.health.val - dealt >= i64::MIN ==> after.bundle.health.val
                == targets[j].bundle.health.val - dealt
        }),
{
}

} // verus!
