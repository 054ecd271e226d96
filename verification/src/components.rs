//! Data shared by the kinds of entity.
use crate::clock::new_timer;
use crate::clock::timer_view;
use crate::clock::TimerView;
use crate::vec3::Vec3;
use bevy::time::Timer;
use bevy::time::TimerMode;
use vstd::prelude::*;

verus! {

/// The number of health units in one health point. Health and damage are
/// counted in thousandths of a point.
pub const HEALTH_UNITS_PER_POINT: i64 = 1000;

/// The identifier of an entity. The store gives each entity that it admits an
/// identifier that no other entity has or had.
#[derive(Clone, Copy, Debug, Default, PartialEq, Eq, Structural, Hash)]
pub struct Entity {
    pub id: u64,
}

/// The time that an entity has left, as a countdown.
#[derive(Debug, Default)]
pub struct Lifetime {
    pub timer: Timer,
}

impl View for Lifetime {
    type V = TimerView;

    open spec fn view(&self) -> TimerView {
        timer_view(self.timer)
    }
}

impl Lifetime {
    /// A one-shot countdown of `nanos` nanoseconds that has not started.
    pub fn new(nanos: u64) -> (lifetime: Lifetime)
        ensures
            lifetime@ == TimerView::fresh(nanos as nat, TimerMode::Once),
    {
        Lifetime { timer: new_timer(nanos, TimerMode::Once) }
    }
}

/// The health of an entity, in health units. It may be negative.
#[derive(Clone, Copy, Debug, Default, PartialEq, Eq, Structural)]
pub struct Health {
    pub val: i64,
}

impl Health {
    /// There is health left.
    pub open spec fn is_alive(self) -> bool {
        self.val > 0
    }

    /// The health after `damage` was taken from it. It is not held at zero;
    /// it stops only at the least value that the type has.
    pub open spec fn damaged(self, damage: nat) -> Health {
        Health {
            val: if self.val - damage < i64::MIN {
                i64::MIN
            } else {
                (self.val - damage) as i64
            },
        }
    }

    /// Tells whether there is health left.
    pub fn alive(&self) -> (b: bool)
        ensures
            b == self.is_alive(),
    {
        self.val > 0
    }

    /// Takes `damage` from the health.
    pub fn hurt(&mut self, damage: u32)
        ensures
            *final(self) == old(self).damaged(damage as nat),
    {
        let left: i128 = self.val as i128 - damage as i128;
        self.val = if left < i64::MIN as i128 {
            i64::MIN
        } else {
            left as i64
        };
    }
}

/// The velocity of an entity, in length units per nanosecond.
#[derive(Clone, Copy, Debug, Default, PartialEq, Eq, Structural)]
pub struct Velocity {
    pub val: Vec3,
}

/// Damage taken in two parts is damage taken at once.
pub proof fn lemma_damage_adds_up(health: Health, first: nat, second: nat)
    ensures
        health.damaged(first).damaged(second) == health.damaged(first + second),
{
}

} // verus!
