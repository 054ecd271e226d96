//! The store of entities.
//!
//! Towers, targets and bullets are kept in three lists, each in the order in
//! which its entities were admitted. Every pass of the simulation walks a
//! list from its front, so that what a pass does is a function of the store
//! alone.
use crate::bullet::after_bullet_update;
use crate::bullet::update_bullets;
use crate::bullet::BulletBundle;
use crate::clock::is_cadence;
use crate::clock::is_countdown;
use crate::clock::timer_view;
use crate::clock::TimerView;
use crate::components::Entity;
use crate::components::Lifetime;
use crate::target::after_target_update;
use crate::target::update_targets;
use crate::target::TargetBundle;
use crate::tower::after_tower_shooting;
use crate::tower::can_shoot;
use crate::tower::tower_shooting;
use crate::tower::towers_can_tick;
use crate::tower::Tower;
use crate::vec3::Vec3;
use vstd::prelude::*;

verus! {

/// A tower in the store.
#[derive(Debug, Default)]
pub struct TowerEntity {
    pub entity: Entity,
    pub position: Vec3,
    pub tower: Tower,
}

/// A target in the store.
#[derive(Clone, Copy, Debug, Default, PartialEq, Eq, Structural)]
pub struct TargetEntity {
    pub entity: Entity,
    pub position: Vec3,
    pub bundle: TargetBundle,
}

/// A bullet in the store.
#[derive(Debug, Default)]
pub struct BulletEntity {
    pub entity: Entity,
    pub position: Vec3,
    pub lifetime: Lifetime,
    pub bundle: BulletBundle,
}

/// The store.
#[derive(Debug, Default)]
pub struct World {
    pub towers: Vec<TowerEntity>,
    pub targets: Vec<TargetEntity>,
    pub bullets: Vec<BulletEntity>,
    /// The identifier that the next entity admitted will have.
    pub next_id: u64,
}

/// What a tower in the store holds.
pub struct TowerView {
    pub entity: Entity,
    pub position: Vec3,
    pub shooting_timer: TimerView,
    pub bullet_spawn_offset: Vec3,
}

/// What a bullet in the store holds.
pub struct BulletView {
    pub entity: Entity,
    pub position: Vec3,
    pub lifetime: TimerView,
    pub bundle: BulletBundle,
}

/// What the store holds.
pub struct WorldView {
    pub towers: Seq<TowerView>,
    pub targets: Seq<TargetEntity>,
    pub bullets: Seq<BulletView>,
    pub next_id: nat,
}

impl View for TowerEntity {
    type V = TowerView;

    open spec fn view(&self) -> TowerView {
        TowerView {
            entity: self.entity,
            position: self.position,
            shooting_timer: timer_view(self.tower.shooting_timer),
            bullet_spawn_offset: self.tower.bullet_spawn_offset,
        }
    }
}

impl View for BulletEntity {
    type V = BulletView;

    open spec fn view(&self) -> BulletView {
        BulletView {
            entity: self.entity,
            position: self.position,
            lifetime: self.lifetime@,
            bundle: self.bundle,
        }
    }
}

impl View for World {
    type V = WorldView;

    open spec fn view(&self) -> WorldView {
        WorldView {
            towers: tower_views(self.towers@),
            targets: self.targets@,
            bullets: bullet_views(self.bullets@),
            next_id: self.next_id as nat,
        }
    }
}

/// The towers of a list, each by what it holds.
pub open spec fn tower_views(towers: Seq<TowerEntity>) -> Seq<TowerView> {
    towers.map_values(|t: TowerEntity| t@)
}

/// The bullets of a list, each by what it holds.
pub open spec fn bullet_views(bullets: Seq<BulletEntity>) -> Seq<BulletView> {
    bullets.map_values(|b: BulletEntity| b@)
}

/// The positions of the targets of a list.
pub open spec fn positions(targets: Seq<TargetEntity>) -> Seq<Vec3> {
    targets.map_values(|t: TargetEntity| t.position)
}

/// No identifier occurs twice in `s`.
pub open spec fn distinct(s: Seq<Entity>) -> bool {
    forall|i: int, j: int| 0 <= i < j < s.len() ==> s[i] != s[j]
}

/// No identifier occurs in both `a` and `b`.
pub open spec fn disjoint(a: Seq<Entity>, b: Seq<Entity>) -> bool {
    forall|i: int, j: int| 0 <= i < a.len() && 0 <= j < b.len() ==> a[i] != b[j]
}

/// Every identifier in `s` was given out before `next_id`.
pub open spec fn below(s: Seq<Entity>, next_id: nat) -> bool {
    forall|i: int| 0 <= i < s.len() ==> (#[trigger] s[i]).id < next_id
}

/// Every identifier in `r` occurs in `s`.
pub open spec fn drawn_from(r: Seq<Entity>, s: Seq<Entity>) -> bool {
    forall|k: int| 0 <= k < r.len() ==> s.contains(#[trigger] r[k])
}

impl WorldView {
    /// The identifiers of the towers, in their order.
    pub open spec fn tower_entities(self) -> Seq<Entity> {
        self.towers.map_values(|t: TowerView| t.entity)
    }

    /// The identifiers of the targets, in their order.
    pub open spec fn target_entities(self) -> Seq<Entity> {
        self.targets.map_values(|t: TargetEntity| t.entity)
    }

    /// The identifiers of the bullets, in their order.
    pub open spec fn bullet_entities(self) -> Seq<Entity> {
        self.bullets.map_values(|b: BulletView| b.entity)
    }

    /// No two entities have the same identifier, and every identifier was
    /// given out before `next_id`.
    pub open spec fn identifiers_are_unique(self) -> bool {
        &&& distinct(self.tower_entities())
        &&& distinct(self.target_entities())
        &&& distinct(self.bullet_entities())
        &&& disjoint(self.tower_entities(), self.target_entities())
        &&& disjoint(self.tower_entities(), self.bullet_entities())
        &&& disjoint(self.target_entities(), self.bullet_entities())
        &&& below(self.tower_entities(), self.next_id)
        &&& below(self.target_entities(), self.next_id)
        &&& below(self.bullet_entities(), self.next_id)
    }

    /// Every entity is at a position inside the world.
    pub open spec fn positions_are_in_world(self) -> bool {
        &&& forall|i: int| 0 <= i < self.towers.len() ==> (#[trigger] self.towers[i]).position.in_world()
        &&& forall|i: int|
            0 <= i < self.targets.len() ==> (#[trigger] self.targets[i]).position.in_world()
        &&& forall|i: int|
            0 <= i < self.bullets.len() ==> (#[trigger] self.bullets[i]).position.in_world()
    }

    /// Every tower has a cadence for its timer and every bullet a countdown
    /// for its lifetime.
    pub open spec fn timers_are_sound(self) -> bool {
        &&& forall|i: int|
            0 <= i < self.towers.len() ==> (#[trigger] self.towers[i]).shooting_timer.is_cadence()
        &&& forall|i: int|
            0 <= i < self.bullets.len() ==> (#[trigger] self.bullets[i]).lifetime.is_countdown()
    }

    /// The store is well formed.
    pub open spec fn wf(self) -> bool {
        &&& self.identifiers_are_unique()
        &&& self.positions_are_in_world()
        &&& self.timers_are_sound()
    }

    /// A frame of `dt` nanoseconds is defined: the engine can count the
    /// periods that the frame completes of every tower's timer, and there are
    /// identifiers left for the bullets of a volley. A frame shorter than
    /// 2^32 nanoseconds is defined wherever identifiers are left.
    pub open spec fn can_step(self, dt: nat) -> bool {
        &&& towers_can_tick(self.towers, dt)
        &&& self.next_id + self.towers.len() <= u64::MAX
    }

    /// The store after a frame of `dt` nanoseconds: the towers fire, then the
    /// bullets fly and strike, then the targets move and those without health
    /// left are removed. A bullet spawned in a frame flies in that frame, and
    /// a target whose health a bullet has spent is removed in that frame.
    pub open spec fn after_step(self, dt: nat) -> WorldView {
        after_target_update(after_bullet_update(after_tower_shooting(self, dt), dt), dt)
    }

    /// An entity with the identifier `entity` is in the store.
    pub open spec fn contains(self, entity: Entity) -> bool {
        ||| self.tower_entities().contains(entity)
        ||| self.target_entities().contains(entity)
        ||| self.bullet_entities().contains(entity)
    }
}

/// Identifiers drawn from a list that shares none with `b` share none with
/// `b`.
pub proof fn lemma_drawn_stays_disjoint(r: Seq<Entity>, s: Seq<Entity>, b: Seq<Entity>)
    requires
        drawn_from(r, s),
    ensures
        disjoint(s, b) ==> disjoint(r, b),
        disjoint(b, s) ==> disjoint(b, r),
{
    if disjoint(s, b) {
        assert forall|i: int, j: int| 0 <= i < r.len() && 0 <= j < b.len() implies r[i] != b[j] by {
            assert(s.contains(r[i]));
            let m = choose|m: int| 0 <= m < s.len() && s[m] == r[i];
            assert(s[m] != b[j]);
        }
    }
    if disjoint(b, s) {
        assert forall|i: int, j: int| 0 <= i < b.len() && 0 <= j < r.len() implies b[i] != r[j] by {
            assert(s.contains(r[j]));
            let m = choose|m: int| 0 <= m < s.len() && s[m] == r[j];
            assert(b[i] != s[m]);
        }
    }
}

/// Identifiers drawn from a list given out before `next_id` were given out
/// before `next_id`.
pub proof fn lemma_drawn_stays_below(r: Seq<Entity>, s: Seq<Entity>, next_id: nat)
    requires
        drawn_from(r, s),
        below(s, next_id),
    ensures
        below(r, next_id),
{
    assert forall|i: int| 0 <= i < r.len() implies (#[trigger] r[i]).id < next_id by {
        assert(s.contains(r[i]));
        let m = choose|m: int| 0 <= m < s.len() && s[m] == r[i];
        assert(s[m].id < next_id);
    }
}

/// A list from which entities were dropped and in which the others kept
/// their identifiers draws its identifiers from the list before, and has none
/// twice if the list before had none twice.
pub proof fn lemma_filter_map_entities<A, B>(
    s: Seq<A>,
    f: spec_fn(A) -> Option<B>,
    key_a: spec_fn(A) -> Entity,
    key_b: spec_fn(B) -> Entity,
)
    requires
        forall|a: A| (#[trigger] f(a)) matches Some(b) ==> key_b(b) == key_a(a),
    ensures
        drawn_from(s.filter_map(f).map_values(key_b), s.map_values(key_a)),
        distinct(s.map_values(key_a)) ==> distinct(s.filter_map(f).map_values(key_b)),
    decreases s.len(),
{
    let r = s.filter_map(f).map_values(key_b);
    let keys = s.map_values(key_a);
    if s.len() > 0 {
        let front = s.drop_last();
        let front_r = front.filter_map(f).map_values(key_b);
        let front_keys = front.map_values(key_a);
        lemma_filter_map_entities(front, f, key_a, key_b);
        assert forall|k: int| 0 <= k < front_r.len() implies keys.contains(
            #[trigger] front_r[k],
        ) by {
            assert(front_keys.contains(front_r[k]));
            let m = choose|m: int| 0 <= m < front_keys.len() && front_keys[m] == front_r[k];
            assert(keys[m] == front_r[k]);
        }
        assert(keys[s.len() - 1] == key_a(s.last()));
        match f(s.last()) {
            Some(b) => {
                assert(r =~= front_r.push(key_b(b)));
            },
            None => {
                assert(r =~= front_r);
            },
        }
        if distinct(keys) {
            assert(distinct(front_keys)) by {
                assert forall|i: int, j: int| 0 <= i < j < front_keys.len() implies front_keys[i]
                    != front_keys[j] by {
                    assert(keys[i] != keys[j]);
                }
            }
            assert forall|i: int, j: int| 0 <= i < j < r.len() implies r[i] != r[j] by {
                if j == front_r.len() {
                    assert(front_keys.contains(front_r[i]));
                    let m = choose|m: int| 0 <= m < front_keys.len() && front_keys[m] == front_r[i];
                    assert(keys[m] != keys[s.len() - 1]);
                }
            }
        }
    }
}

/// What is made of an element that is not dropped is in the list that is
/// left.
pub proof fn lemma_filter_map_keeps<A, B>(s: Seq<A>, f: spec_fn(A) -> Option<B>, i: int)
    requires
        0 <= i < s.len(),
        f(s[i]) is Some,
    ensures
        s.filter_map(f).contains(f(s[i]).unwrap()),
    decreases s.len(),
{
    let kept = f(s[i]).unwrap();
    let front = s.drop_last();
    let rest = front.filter_map(f);
    if i == s.len() - 1 {
        let r = s.filter_map(f);
        assert(r == rest + seq![kept]);
        assert(r[r.len() - 1] == kept);
    } else {
        lemma_filter_map_keeps(front, f, i);
        let k = choose|k: int| 0 <= k < rest.len() && rest[k] == kept;
        let r = s.filter_map(f);
        match f(s.last()) {
            Some(b) => {
                assert(r == rest + seq![b]);
                assert(r[k] == kept);
            },
            None => {
                assert(r == rest);
                assert(r[k] == kept);
            },
        }
    }
}

/// A list that has no identifier twice, all given out before `entity`, has
/// none twice after `entity` was put behind it, all given out before the
/// identifier that follows.
proof fn lemma_admitted_is_new(before: Seq<Entity>, after: Seq<Entity>, entity: Entity)
    requires
        after =~= before.push(entity),
        distinct(before),
        below(before, entity.id as nat),
    ensures
        distinct(after),
        below(after, entity.id as nat + 1),
{
    assert forall|i: int, j: int| 0 <= i < j < after.len() implies after[i] != after[j] by {
        if j < before.len() {
            assert(before[i] != before[j]);
        } else {
            assert(before[i].id < entity.id);
        }
    }
    assert forall|i: int| 0 <= i < after.len() implies (#[trigger] after[i]).id < entity.id + 1 by {
        if i < before.len() {
            assert(before[i].id < entity.id);
        }
    }
}

/// A list given out before `entity` shares no identifier with a list that
/// `entity` was put behind, if it shared none before.
proof fn lemma_others_stay_apart(others: Seq<Entity>, after: Seq<Entity>, entity: Entity)
    requires
        below(others, entity.id as nat),
        after.len() > 0,
        after.last() == entity,
        disjoint(others, after.drop_last()) || disjoint(after.drop_last(), others),
    ensures
        disjoint(others, after),
        disjoint(after, others),
        below(others, entity.id as nat + 1),
{
    let front = after.drop_last();
    assert forall|i: int, j: int| 0 <= i < others.len() && 0 <= j < after.len() implies others[i]
        != after[j] by {
        assert(others[i].id < entity.id);
        if j < front.len() {
            assert(front[j] == after[j]);
            assert(others[i] != front[j]);
        }
    }
    assert forall|i: int| 0 <= i < others.len() implies (#[trigger] others[i]).id < entity.id
        + 1 by {
        assert(others[i].id < entity.id);
    }
}

/// Three lists have no identifier twice among them all exactly when none has
/// one twice and no two share one; and all their identifiers were given out
/// before `next_id` exactly when those of each were.
proof fn lemma_identifiers_of_three_lists(a: Seq<Entity>, b: Seq<Entity>, c: Seq<Entity>, next_id: nat)
    ensures
        distinct(a + b + c) <==> distinct(a) && distinct(b) && distinct(c) && disjoint(a, b)
            && disjoint(a, c) && disjoint(b, c),
        below(a + b + c, next_id) <==> below(a, next_id) && below(b, next_id) && below(c, next_id),
{
    let all = a + b + c;
    let (m, n) = (a.len() as int, (a.len() + b.len()) as int);
    if distinct(all) {
        assert forall|i: int, j: int| 0 <= i < j < a.len() implies a[i] != a[j] by {
            assert(all[i] != all[j]);
        }
        assert forall|i: int, j: int| 0 <= i < j < b.len() implies b[i] != b[j] by {
            assert(all[m + i] != all[m + j]);
        }
        assert forall|i: int, j: int| 0 <= i < j < c.len() implies c[i] != c[j] by {
            assert(all[n + i] != all[n + j]);
        }
        assert forall|i: int, j: int| 0 <= i < a.len() && 0 <= j < b.len() implies a[i] != b[j] by {
            assert(all[i] != all[m + j]);
        }
        assert forall|i: int, j: int| 0 <= i < a.len() && 0 <= j < c.len() implies a[i] != c[j] by {
            assert(all[i] != all[n + j]);
        }
        assert forall|i: int, j: int| 0 <= i < b.len() && 0 <= j < c.len() implies b[i] != c[j] by {
            assert(all[m + i] != all[n + j]);
        }
    }
    if distinct(a) && distinct(b) && distinct(c) && disjoint(a, b) && disjoint(a, c) && disjoint(
        b,
        c,
    ) {
        assert forall|i: int, j: int| 0 <= i < j < all.len() implies all[i] != all[j] by {
            if j < m {
                assert(a[i] != a[j]);
            } else if j < n {
                if i < m {
                    assert(a[i] != b[j - m]);
                } else {
                    assert(b[i - m] != b[j - m]);
                }
            } else {
                if i < m {
                    assert(a[i] != c[j - n]);
                } else if i < n {
                    assert(b[i - m] != c[j - n]);
                } else {
                    assert(c[i - n] != c[j - n]);
                }
            }
        }
    }
    if below(all, next_id) {
        assert forall|i: int| 0 <= i < a.len() implies (#[trigger] a[i]).id < next_id by {
            assert(all[i].id < next_id);
        }
        assert forall|i: int| 0 <= i < b.len() implies (#[trigger] b[i]).id < next_id by {
            assert(all[m + i].id < next_id);
        }
        assert forall|i: int| 0 <= i < c.len() implies (#[trigger] c[i]).id < next_id by {
            assert(all[n + i].id < next_id);
        }
    }
    if below(a, next_id) && below(b, next_id) && below(c, next_id) {
        assert forall|i: int| 0 <= i < all.len() implies (#[trigger] all[i]).id < next_id by {
            if i < m {
                assert(a[i].id < next_id);
            } else if i < n {
                assert(b[i - m].id < next_id);
            } else {
                assert(c[i - n].id < next_id);
            }
        }
    }
}

/// Tells whether no identifier occurs twice in `ids` and each was given out
/// before `next_id`.
fn identifiers_are_new(ids: &Vec<Entity>, next_id: u64) -> (b: bool)
    ensures
        b == (distinct(ids@) && below(ids@, next_id as nat)),
{
    let mut j: usize = 0;
    while j < ids.len()
        invariant
            0 <= j <= ids.len(),
            forall|a: int, b: int| 0 <= a < b < j ==> ids[a] != ids[b],
            forall|a: int| 0 <= a < j ==> (#[trigger] ids[a]).id < next_id,
        decreases ids.len() - j,
    {
        if ids[j].id >= next_id {
            return false;
        }
        let mut i: usize = 0;
        while i < j
            invariant
                0 <= i <= j < ids.len(),
                forall|a: int| 0 <= a < i ==> ids[a] != ids[j as int],
            decreases j - i,
        {
            if ids[i].id == ids[j].id {
                return false;
            }
            i += 1;
        }
        j += 1;
    }
    true
}

impl World {
    /// The store is well formed.
    pub open spec fn wf(&self) -> bool {
        self@.wf()
    }

    /// The empty store.
    pub fn new() -> (world: World)
        ensures
            world@ == (WorldView {
                towers: Seq::empty(),
                targets: Seq::empty(),
                bullets: Seq::empty(),
                next_id: 0,
            }),
            world.wf(),
    {
        let world = World { towers: Vec::new(), targets: Vec::new(), bullets: Vec::new(), next_id: 0 };
        assert(world@.towers =~= Seq::empty());
        assert(world@.bullets =~= Seq::empty());
        world
    }

    /// Tells whether the store is well formed.
    pub fn is_well_formed(&self) -> (b: bool)
        ensures
            b == self.wf(),
    {
        let mut ids: Vec<Entity> = Vec::new();
        let mut i: usize = 0;
        while i < self.towers.len()
            invariant
                0 <= i <= self.towers.len(),
                ids@ == self@.tower_entities().take(i as int),
                forall|j: int| 0 <= j < i ==> (#[trigger] self@.towers[j]).position.in_world(),
                forall|j: int| 0 <= j < i ==> (#[trigger] self@.towers[j]).shooting_timer.is_cadence(),
            decreases self.towers.len() - i,
        {
            if !self.towers[i].position.is_in_world() {
                assert(!self@.towers[i as int].position.in_world());
                return false;
            }
            if !is_cadence(&self.towers[i].tower.shooting_timer) {
                assert(!self@.towers[i as int].shooting_timer.is_cadence());
                return false;
            }
            assert(self@.towers[i as int].shooting_timer.is_cadence());
            ids.push(self.towers[i].entity);
            assert(ids@ =~= self@.tower_entities().take(i + 1));
            i += 1;
        }
        assert(ids@ =~= self@.tower_entities());
        let mut i: usize = 0;
        while i < self.targets.len()
            invariant
                0 <= i <= self.targets.len(),
                ids@ == self@.tower_entities() + self@.target_entities().take(i as int),
                forall|j: int| 0 <= j < i ==> (#[trigger] self@.targets[j]).position.in_world(),
                forall|j: int|
                    0 <= j < self.towers.len() ==> (
                    #[trigger] self@.towers[j]).shooting_timer.is_cadence(),
            decreases self.targets.len() - i,
        {
            if !self.targets[i].position.is_in_world() {
                assert(!self@.targets[i as int].position.in_world());
                return false;
            }
            ids.push(self.targets[i].entity);
            assert(ids@ =~= self@.tower_entities() + self@.target_entities().take(i + 1));
            i += 1;
        }
        assert(ids@ =~= self@.tower_entities() + self@.target_entities());
        let mut i: usize = 0;
        while i < self.bullets.len()
            invariant
                0 <= i <= self.bullets.len(),
                ids@ == self@.tower_entities() + self@.target_entities()
                    + self@.bullet_entities().take(i as int),
                forall|j: int| 0 <= j < i ==> (#[trigger] self@.bullets[j]).position.in_world(),
                forall|j: int| 0 <= j < i ==> (#[trigger] self@.bullets[j]).lifetime.is_countdown(),
                forall|j: int|
                    0 <= j < self.towers.len() ==> (
                    #[trigger] self@.towers[j]).shooting_timer.is_cadence(),
            decreases self.bullets.len() - i,
        {
            if !self.bullets[i].position.is_in_world() {
                assert(!self@.bullets[i as int].position.in_world());
                return false;
            }
            if !is_countdown(&self.bullets[i].lifetime.timer) {
                assert(!self@.bullets[i as int].lifetime.is_countdown());
                return false;
            }
            assert(self@.bullets[i as int].lifetime.is_countdown());
            ids.push(self.bullets[i].entity);
            assert(ids@ =~= self@.tower_entities() + self@.target_entities()
                + self@.bullet_entities().take(i + 1));
            i += 1;
        }
        assert(ids@ =~= self@.tower_entities() + self@.target_entities() + self@.bullet_entities());
        proof {
            lemma_identifiers_of_three_lists(
                self@.tower_entities(),
                self@.target_entities(),
                self@.bullet_entities(),
                self.next_id as nat,
            );
        }
        identifiers_are_new(&ids, self.next_id)
    }

    /// Tells whether the store can admit an entity at `position`: the
    /// position is inside the world and an identifier is left.
    pub fn admits(&self, position: &Vec3) -> (b: bool)
        ensures
            b == (position.in_world() && self.next_id < u64::MAX),
    {
        position.is_in_world() && self.next_id < u64::MAX
    }

    /// Admits a tower at `position`, behind the towers that are there, and
    /// returns its identifier. A tower is admitted only with a cadence for
    /// its timer. Where the store cannot admit it, the store is left as it
    /// is.
    pub fn spawn_tower(&mut self, position: Vec3, tower: Tower) -> (entity: Option<Entity>)
        requires
            old(self).wf(),
        ensures
            entity is Some <==> position.in_world() && old(self).next_id < u64::MAX && timer_view(
                tower.shooting_timer,
            ).is_cadence(),
            entity matches Some(e) ==> e.id == old(self).next_id && final(self)@ == (WorldView {
                towers: old(self)@.towers.push(
                    TowerView {
                        entity: e,
                        position,
                        shooting_timer: timer_view(tower.shooting_timer),
                        bullet_spawn_offset: tower.bullet_spawn_offset,
                    },
                ),
                next_id: old(self)@.next_id + 1,
                ..old(self)@
            }),
            entity is None ==> final(self)@ == old(self)@,
            final(self).wf(),
    {
        if !self.admits(&position) || !is_cadence(&tower.shooting_timer) {
            return None;
        }
        let ghost before = self@;
        let entity = Entity { id: self.next_id };
        let admitted = TowerEntity { entity, position, tower };
        proof {
            assert(tower_views(self.towers@.push(admitted)) =~= before.towers.push(admitted@));
        }
        self.towers.push(admitted);
        self.next_id = self.next_id + 1;
        proof {
            assert(self@.tower_entities() =~= before.tower_entities().push(entity));
            assert(self@.tower_entities().drop_last() =~= before.tower_entities());
            lemma_admitted_is_new(before.tower_entities(), self@.tower_entities(), entity);
            lemma_others_stay_apart(before.target_entities(), self@.tower_entities(), entity);
            lemma_others_stay_apart(before.bullet_entities(), self@.tower_entities(), entity);
            assert(self@.target_entities() == before.target_entities());
            assert(self@.bullet_entities() == before.bullet_entities());
            assert forall|i: int| 0 <= i < self@.towers.len() implies (
            #[trigger] self@.towers[i]).position.in_world() && self@.towers[i].shooting_timer.is_cadence() by {
                if i < before.towers.len() {
                    assert(self@.towers[i] == before.towers[i]);
                }
            }
            assert(self@.bullets == before.bullets);
        }
        Some(entity)
    }

    /// Admits a target at `position`, behind the targets that are there, and
    /// returns its identifier. Where the store cannot admit it, the store is
    /// left as it is.
    pub fn spawn_target(&mut self, position: Vec3, bundle: TargetBundle) -> (entity: Option<Entity>)
        requires
            old(self).wf(),
        ensures
            entity is Some <==> position.in_world() && old(self).next_id < u64::MAX,
            entity matches Some(e) ==> e.id == old(self).next_id && final(self)@ == (WorldView {
                targets: old(self)@.targets.push(TargetEntity { entity: e, position, bundle }),
                next_id: old(self)@.next_id + 1,
                ..old(self)@
            }),
            entity is None ==> final(self)@ == old(self)@,
            final(self).wf(),
    {
        if !self.admits(&position) {
            return None;
        }
        let ghost before = self@;
        let entity = Entity { id: self.next_id };
        self.targets.push(TargetEntity { entity, position, bundle });
        self.next_id = self.next_id + 1;
        proof {
            lemma_admitted_is_new(before.target_entities(), self@.target_entities(), entity);
            lemma_others_stay_apart(before.tower_entities(), self@.target_entities(), entity);
            lemma_others_stay_apart(before.bullet_entities(), self@.target_entities(), entity);
            assert(self@.tower_entities() == before.tower_entities());
            assert(self@.bullet_entities() == before.bullet_entities());
            assert forall|i: int| 0 <= i < self@.targets.len() implies (
            #[trigger] self@.targets[i]).position.in_world() by {
                if i < before.targets.len() {
                    assert(self@.targets[i] == before.targets[i]);
                }
            }
            assert(self@.towers == before.towers);
            assert(self@.bullets == before.bullets);
        }
        Some(entity)
    }

    /// Admits a bullet at `position`, behind the bullets that are there, and
    /// returns its identifier. A bullet is admitted only with a countdown for
    /// its lifetime. Where the store cannot admit it, the store is left as it
    /// is.
    pub fn spawn_bullet(&mut self, position: Vec3, lifetime: Lifetime, bundle: BulletBundle) -> (entity:
        Option<Entity>)
        requires
            old(self).wf(),
        ensures
            entity is Some <==> position.in_world() && old(self).next_id < u64::MAX && lifetime@.is_countdown(),
            entity matches Some(e) ==> e.id == old(self).next_id && final(self)@ == (WorldView {
                bullets: old(self)@.bullets.push(
                    BulletView { entity: e, position, lifetime: lifetime@, bundle },
                ),
                next_id: old(self)@.next_id + 1,
                ..old(self)@
            }),
            entity is None ==> final(self)@ == old(self)@,
            final(self).wf(),
    {
        if !self.admits(&position) || !is_countdown(&lifetime.timer) {
            return None;
        }
        let ghost before = self@;
        let entity = Entity { id: self.next_id };
        let admitted = BulletEntity { entity, position, lifetime, bundle };
        proof {
            assert(bullet_views(self.bullets@.push(admitted)) =~= before.bullets.push(admitted@));
        }
        self.bullets.push(admitted);
        self.next_id = self.next_id + 1;
        proof {
            assert(self@.bullet_entities() =~= before.bullet_entities().push(entity));
            assert(self@.bullet_entities().drop_last() =~= before.bullet_entities());
            lemma_admitted_is_new(before.bullet_entities(), self@.bullet_entities(), entity);
            lemma_others_stay_apart(before.tower_entities(), self@.bullet_entities(), entity);
            lemma_others_stay_apart(before.target_entities(), self@.bullet_entities(), entity);
            assert(self@.tower_entities() == before.tower_entities());
            assert(self@.target_entities() == before.target_entities());
            assert forall|i: int| 0 <= i < self@.bullets.len() implies (
            #[trigger] self@.bullets[i]).position.in_world() && self@.bullets[i].lifetime.is_countdown() by {
                if i < before.bullets.len() {
                    assert(self@.bullets[i] == before.bullets[i]);
                }
            }
            assert(self@.towers == before.towers);
        }
        Some(entity)
    }

    /// Tells whether a frame of `delta_nanos` nanoseconds is defined.
    pub fn can_step(&self, delta_nanos: u64) -> (b: bool)
        ensures
            b == self@.can_step(delta_nanos as nat),
    {
        can_shoot(self, delta_nanos)
    }

    /// Runs one frame of `delta_nanos` nanoseconds: the tower update, then
    /// the bullet update, then the target update.
    pub fn step(&mut self, delta_nanos: u64)
        requires
            old(self).wf(),
            old(self)@.can_step(delta_nanos as nat),
        ensures
            final(self)@ == old(self)@.after_step(delta_nanos as nat),
            final(self).wf(),
    {
        tower_shooting(self, delta_nanos);
        update_bullets(self, delta_nanos);
        update_targets(self, delta_nanos);
    }

    /// Runs one frame of `delta_nanos` nanoseconds if the store is well
    /// formed and that frame is defined, and tells whether it did. Otherwise
    /// the store is left as it is.
    pub fn try_step(&mut self, delta_nanos: u64) -> (stepped: bool)
        ensures
            stepped == (old(self).wf() && old(self)@.can_step(delta_nanos as nat)),
            stepped ==> final(self)@ == old(self)@.after_step(delta_nanos as nat),
            !stepped ==> final(self)@ == old(self)@,
            old(self).wf() ==> final(self).wf(),
    {
        if self.is_well_formed() && self.can_step(delta_nanos) {
            self.step(delta_nanos);
            true
        } else {
            false
        }
    }
}

} // verus!
