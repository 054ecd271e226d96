//! The rules of a small tower-defense game, verified.
//!
//! Towers stand still and fire at a cadence; each shot is a bullet aimed at
//! the target nearest to the point where it appears. Bullets fly straight,
//! strike the nearest target once they are inside its hitbox, and are removed
//! when they strike or when their lifetime is up. Targets move straight and
//! are removed when they have no health left.
//!
//! A frame is three passes over the store of entities, in this order: the
//! tower update ([`tower::tower_shooting`]), the bullet update
//! ([`bullet::update_bullets`]) and the target update
//! ([`target::update_targets`]); [`world::World::step`] runs all three. Each
//! pass is stated as a function from the store before it to the store after
//! it, and [`laws`] proves what follows for several passes and several
//! entities.
//!
//! All quantities are integers (see [`vec3`]), so that the same frames give
//! the same store on every machine. Timers are the engine's own
//! ([`clock`]); what a tick does to one is taken from the engine's source on
//! trust, and is the only thing here that is not proved.
pub mod bullet;
pub mod clock;
pub mod components;
pub mod gap_timer;
pub mod laws;
pub mod scene;
pub mod selection;
pub mod target;
pub mod tower;
pub mod vec3;
pub mod world;
