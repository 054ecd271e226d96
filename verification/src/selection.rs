//! Picking entities with the mouse, making the picked one blink, and pausing.
//!
//! Each function here decides what one system does in one frame. What the
//! system has to read from the engine comes in as plain values, and what it
//! has to write to the engine goes out as the result; times come from the
//! clock that keeps running while the simulation is paused.
use crate::components::Entity;
use crate::gap_timer::GapTimer;
use vstd::prelude::*;

verus! {

/// The gap that debounces a key or a button: a fifth of a second.
pub const DEBOUNCE_GAP_NANOS: u128 = 200_000_000;

/// Whether an entity is shown.
#[derive(Clone, Copy, Debug, PartialEq, Eq, Structural)]
pub enum Visibility {
    /// Shown if the parent is shown.
    Inherited,
    /// Not shown.
    Hidden,
    /// Shown.
    Visible,
}

impl Default for Visibility {
    fn default() -> (visibility: Visibility)
        ensures
            visibility == Visibility::Inherited,
    {
        Visibility::Inherited
    }
}

/// The entity under the mouse that is made to blink.
#[derive(Clone, Copy, Debug, PartialEq, Eq, Structural)]
pub struct MousedOverBlinker {
    pub entity: Option<Entity>,
    pub original_visibility: Visibility,
    pub timer: GapTimer,
}

impl Default for MousedOverBlinker {
    fn default() -> (blinker: MousedOverBlinker)
        ensures
            blinker == (MousedOverBlinker {
                entity: None,
                original_visibility: Visibility::Inherited,
                timer: GapTimer { last: 0, gap: 0 },
            }),
    {
        MousedOverBlinker {
            entity: None,
            original_visibility: Visibility::Inherited,
            timer: GapTimer::new(0),
        }
    }
}

/// The entity under the mouse.
#[derive(Clone, Copy, Debug, PartialEq, Eq, Structural)]
pub struct MousedOverEntity {
    pub entity: Option<Entity>,
}

impl Default for MousedOverEntity {
    fn default() -> (moused_over: MousedOverEntity)
        ensures
            moused_over == (MousedOverEntity { entity: None }),
    {
        MousedOverEntity { entity: None }
    }
}

/// The entity that was picked with the mouse.
#[derive(Clone, Copy, Debug, PartialEq, Eq, Structural)]
pub struct SelectedEntity {
    pub entity: Option<Entity>,
    pub debounce: GapTimer,
    pub blinker: GapTimer,
    pub original_visibility: Visibility,
}

impl Default for SelectedEntity {
    fn default() -> (selected: SelectedEntity)
        ensures
            selected == (SelectedEntity {
                entity: None,
                debounce: GapTimer { last: 0, gap: DEBOUNCE_GAP_NANOS },
                blinker: GapTimer { last: 0, gap: 0 },
                original_visibility: Visibility::Inherited,
            }),
    {
        SelectedEntity {
            entity: None,
            debounce: GapTimer::new(DEBOUNCE_GAP_NANOS),
            blinker: GapTimer::new(0),
            original_visibility: Visibility::Inherited,
        }
    }
}

/// The debounce of the key that pauses.
#[derive(Clone, Copy, Debug, PartialEq, Eq, Structural)]
pub struct SpacebarTimer {
    pub debounce: GapTimer,
}

impl Default for SpacebarTimer {
    fn default() -> (timer: SpacebarTimer)
        ensures
            timer == (SpacebarTimer { debounce: GapTimer { last: 0, gap: DEBOUNCE_GAP_NANOS } }),
    {
        SpacebarTimer { debounce: GapTimer::new(DEBOUNCE_GAP_NANOS) }
    }
}

/// What a ray cast from the mouse into the scene has met.
#[derive(Clone, Copy, Debug, PartialEq, Eq, Structural)]
pub enum Pick {
    /// No collider.
    Nothing,
    /// A collider that belongs to no entity.
    Stray,
    /// A collider that belongs to the given entity.
    PartOf(Entity),
}

/// The pause switch. While the key is held and the debounce tells of a gap,
/// the simulation is paused if it was running and set running if it was
/// paused. Returns whether the simulation is paused from now on.
pub fn pause(pressed: bool, timer: &mut SpacebarTimer, now: u128, paused: bool) -> (now_paused: bool)
    requires
        pressed ==> old(timer).debounce.can_tick(now),
    ensures
        !pressed ==> *final(timer) == *old(timer) && now_paused == paused,
        pressed ==> final(timer).debounce == old(timer).debounce.ticked(now) && now_paused == (
        if old(timer).debounce.gaps_at(now) == 0 {
            paused
        } else {
            !paused
        }),
{
    if !pressed {
        return paused;
    }
    if timer.debounce.tick(now) == 0 {
        return paused;
    }
    !paused
}

/// Follows the mouse. With no cursor in the window the entity under the mouse
/// stays what it was. Otherwise it is the entity to which the collider under
/// the cursor belongs; it stays what it was where that collider belongs to
/// none, and is nothing where there is no collider.
pub fn moused_over_entity(moused_over: &mut MousedOverEntity, cursor_in_window: bool, pick: Pick)
    ensures
        final(moused_over).entity == if !cursor_in_window {
            old(moused_over).entity
        } else {
            match pick {
                Pick::Nothing => None,
                Pick::Stray => old(moused_over).entity,
                Pick::PartOf(entity) => Some(entity),
            }
        },
{
    if !cursor_in_window {
        return ;
    }
    match pick {
        Pick::Nothing => {
            moused_over.entity = None;
        },
        Pick::Stray => {},
        Pick::PartOf(entity) => {
            moused_over.entity = Some(entity);
        },
    }
}

impl SelectedEntity {
    /// A press of the button at `now` picks the entity under the mouse: the
    /// debounce tells of a gap and that entity is not the one picked.
    pub open spec fn picks(self, moused_over: MousedOverEntity, now: u128) -> bool {
        self.debounce.gaps_at(now) != 0 && self.entity != moused_over.entity
    }
}

/// Picks the entity under the mouse. While the button is held and the
/// debounce tells of a gap, the entity under the mouse becomes the picked
/// one, unless it is that already. Returns the entity that was picked before,
/// if there was one, with the visibility that it is to have again; an entity
/// that is no longer there is passed over by the caller.
pub fn select_moused_over(
    pressed: bool,
    moused_over: &MousedOverEntity,
    selected: &mut SelectedEntity,
    now: u128,
) -> (restore: Option<(Entity, Visibility)>)
    requires
        pressed ==> old(selected).debounce.can_tick(now),
    ensures
        !pressed ==> *final(selected) == *old(selected) && restore is None,
        pressed ==> *final(selected) == (SelectedEntity {
            debounce: old(selected).debounce.ticked(now),
            entity: if old(selected).picks(*moused_over, now) {
                moused_over.entity
            } else {
                old(selected).entity
            },
            ..*old(selected)
        }),
        pressed ==> restore == (if old(selected).picks(*moused_over, now) {
            match old(selected).entity {
                Some(entity) => Some((entity, old(selected).original_visibility)),
                None => None,
            }
        } else {
            None
        }),
{
    if !pressed {
        return None;
    }
    if selected.debounce.tick(now) == 0 {
        return None;
    }
    if same_entity(selected.entity, moused_over.entity) {
        return None;
    }
    let restore = match selected.entity {
        Some(entity) => Some((entity, selected.original_visibility)),
        None => None,
    };
    selected.entity = moused_over.entity;
    restore
}

/// The visibility that a blink gives to an entity that has `visibility`:
/// a hidden entity is shown as it was at first, any other is hidden.
pub open spec fn blinked(visibility: Visibility, original: Visibility) -> Visibility {
    if visibility == Visibility::Hidden {
        original
    } else {
        Visibility::Hidden
    }
}

/// Makes the picked entity blink. `visibility` is the visibility of the
/// picked entity, or nothing where no entity is picked or the picked one is
/// no longer there. The blinker is ticked in any case; when it tells of a gap
/// and the picked entity is there, the visibility that the entity is to have
/// is returned.
pub fn update_selected_entity(
    selected: &mut SelectedEntity,
    now: u128,
    visibility: Option<Visibility>,
) -> (shown: Option<Visibility>)
    requires
        old(selected).blinker.can_tick(now),
    ensures
        *final(selected) == (SelectedEntity {
            blinker: old(selected).blinker.ticked(now),
            ..*old(selected)
        }),
        shown == (if old(selected).blinker.gaps_at(now) != 0 && old(selected).entity is Some {
            match visibility {
                Some(v) => Some(blinked(v, old(selected).original_visibility)),
                None => None,
            }
        } else {
            None
        }),
{
    if selected.blinker.tick(now) == 0 {
        return None;
    }
    if selected.entity.is_none() {
        return None;
    }
    match visibility {
        None => None,
        Some(Visibility::Hidden) => Some(selected.original_visibility),
        Some(_) => Some(Visibility::Hidden),
    }
}

impl MousedOverBlinker {
    /// The entity whose visibility a blink of the entity under the mouse
    /// reads: the blinking entity, or else the entity under the mouse.
    pub open spec fn subject_of(self, moused_over: MousedOverEntity) -> Option<Entity> {
        match self.entity {
            Some(entity) => Some(entity),
            None => moused_over.entity,
        }
    }

    /// The blinker after a frame at `now`, where `visibility` is the
    /// visibility of its subject, or nothing where the subject is not there.
    pub open spec fn after_blink(
        self,
        moused_over: MousedOverEntity,
        now: u128,
        visibility: Option<Visibility>,
    ) -> MousedOverBlinker {
        match self.entity {
            None => match (moused_over.entity, visibility) {
                (Some(entity), Some(v)) => MousedOverBlinker {
                    entity: Some(entity),
                    original_visibility: v,
                    ..self
                },
                _ => self,
            },
            Some(entity) => {
                let ticked = MousedOverBlinker { timer: self.timer.ticked(now), ..self };
                if self.timer.gaps_at(now) == 0 {
                    ticked
                } else {
                    match visibility {
                        None => MousedOverBlinker { entity: None, ..ticked },
                        Some(v) => if v == Visibility::Hidden || moused_over.entity == Some(entity) {
                            ticked
                        } else {
                            MousedOverBlinker { entity: None, ..ticked }
                        },
                    }
                }
            },
        }
    }

    /// The visibility that a frame at `now` gives to the subject of the
    /// blinker, if it gives it any.
    pub open spec fn shown_after_blink(
        self,
        moused_over: MousedOverEntity,
        now: u128,
        visibility: Option<Visibility>,
    ) -> Option<Visibility> {
        match (self.entity, visibility) {
            (Some(entity), Some(v)) => if self.timer.gaps_at(now) == 0 {
                None
            } else if v == Visibility::Hidden {
                Some(self.original_visibility)
            } else if moused_over.entity == Some(entity) {
                Some(Visibility::Hidden)
            } else {
                Some(self.original_visibility)
            },
            _ => None,
        }
    }
}

/// Tells whose visibility `blink_moused_over` is to be given.
pub fn blink_subject(moused_over: &MousedOverEntity, blinker: &MousedOverBlinker) -> (subject: Option<
    Entity,
>)
    ensures
        subject == blinker.subject_of(*moused_over),
{
    match blinker.entity {
        Some(entity) => Some(entity),
        None => moused_over.entity,
    }
}

/// Makes the entity under the mouse blink. `visibility` is the visibility of
/// the subject of the blinker, or nothing where there is no subject or it is
/// no longer there.
///
/// While nothing blinks, the entity under the mouse, if it is there, becomes
/// the blinking one and its visibility is kept. While an entity blinks, the
/// timer is ticked; when it tells of a gap, a blinking entity that is no
/// longer there is let go, a hidden one is shown as it was at first, a shown
/// one under the mouse is hidden, and a shown one that the mouse has left is
/// shown as it was at first and let go. Returns the visibility that the
/// subject is to have, if it is to have another.
pub fn blink_moused_over(
    moused_over: &MousedOverEntity,
    blinker: &mut MousedOverBlinker,
    now: u128,
    visibility: Option<Visibility>,
) -> (shown: Option<Visibility>)
    requires
        old(blinker).entity is Some ==> old(blinker).timer.can_tick(now),
    ensures
        *final(blinker) == old(blinker).after_blink(*moused_over, now, visibility),
        shown == old(blinker).shown_after_blink(*moused_over, now, visibility),
{
    let entity = match blinker.entity {
        Some(entity) => entity,
        None => {
            if let Some(new_entity) = moused_over.entity {
                if let Some(v) = visibility {
                    blinker.entity = Some(new_entity);
                    blinker.original_visibility = v;
                }
            }
            return None;
        },
    };
    if blinker.timer.tick(now) == 0 {
        return None;
    }
    let current = match visibility {
        Some(v) => v,
        None => {
            blinker.entity = None;
            return None;
        },
    };
    if is_hidden(current) {
        return Some(blinker.original_visibility);
    }
    if same_entity(Some(entity), moused_over.entity) {
        return Some(Visibility::Hidden);
    }
    blinker.entity = None;
    Some(blinker.original_visibility)
}

fn is_hidden(visibility: Visibility) -> (b: bool)
    ensures
        b == (visibility == Visibility::Hidden),
{
    match visibility {
        Visibility::Hidden => true,
        _ => false,
    }
}

fn same_entity(a: Option<Entity>, b: Option<Entity>) -> (same: bool)
    ensures
        same == (a == b),
{
    match (a, b) {
        (Some(x), Some(y)) => x.id == y.id,
        (None, None) => true,
        _ => false,
    }
}

} // verus!
