//! The component types that entities carry.

use vstd::prelude::*;

use crate::ai::AIComponent;
use crate::geometry::{Motion, Point};
use crate::tiles::TileId;
use crate::world::Entity;

verus! {

/// Models turn order. An entity's initiative ticks down by 1 every turn; when it reaches
/// 0 the entity is ready to act and the count starts over from its initial value.
#[derive(Clone, Copy, Debug, PartialEq, Eq, Structural)]
pub struct Initiative {
    pub current: i32,
    pub initial: i32,
}

impl Initiative {
    /// The invariant: a positive period, and a count that can still be decremented.
    pub open spec fn wf(self) -> bool {
        self.initial > 0 && self.current > i32::MIN
    }

    /// The next tick makes the entity ready.
    pub open spec fn fires(self) -> bool {
        self.current - 1 <= 0
    }

    /// The initiative after one tick.
    pub open spec fn ticked(self) -> Initiative {
        if self.fires() {
            Initiative { current: self.initial, initial: self.initial }
        } else {
            Initiative { current: (self.current - 1) as i32, initial: self.initial }
        }
    }

    pub fn new(initial: i32) -> (r: Initiative)
        requires
            initial > 0,
        ensures
            r.current == initial,
            r.initial == initial,
            r.wf(),
    {
        Initiative { current: initial, initial }
    }

    /// Ticks down the count. Returns true if the entity is ready, i.e. the count reached
    /// 0; the count is then reset to its initial value.
    pub fn tick(&mut self) -> (ready: bool)
        requires
            old(self).wf(),
        ensures
            ready == old(self).fires(),
            *final(self) == old(self).ticked(),
            final(self).wf(),
            ready ==> final(self).current == old(self).initial,
            !ready ==> final(self).current == old(self).current - 1 && final(self).current > 0,
    {
        self.current = self.current - 1;
        if self.current <= 0 {
            self.current = self.initial;
            true
        } else {
            false
        }
    }
}

/// Marks an entity whose initiative has elapsed and which may act this tick.
#[derive(Clone, Copy, Debug, PartialEq, Eq, Structural)]
pub struct Ready;

/// The human-readable name of something, lowercase by convention.
#[derive(Clone, Debug)]
pub struct Name {
    pub name: String,
}

/// The position of an entity in the world.
#[derive(Clone, Copy, Debug, PartialEq, Eq, Structural)]
pub struct Position(pub Point);

/// Other entities cannot move onto the cell of an entity with this tag.
#[derive(Clone, Copy, Debug, PartialEq, Eq, Structural)]
pub struct BlocksMovement;

/// The entity is drawn with this sprite.
#[derive(Clone, Copy, Debug, PartialEq, Eq, Structural)]
pub struct Visible {
    pub tile_id: TileId,
}

/// The entity attacks the target this turn. Resolved by the attack system.
#[derive(Clone, Copy, Debug, PartialEq, Eq, Structural)]
pub struct AttackIntent {
    pub target: Entity,
}

/// The entity moves by this displacement this turn. Resolved by the movement system.
#[derive(Clone, Copy, Debug, PartialEq, Eq, Structural)]
pub struct MoveIntent(pub Motion);

/// Health and attack strength. `hp` may go non-positive until the death system reaps
/// the entity.
#[derive(Clone, Copy, Debug, PartialEq, Eq, Structural)]
pub struct CombatStats {
    pub max_hp: i32,
    pub hp: i32,
    pub attack: i32,
}

/// Damage queued against an entity this turn, summed (saturating at the bounds of
/// `i32`). Applied and cleared by the damage system.
#[derive(Clone, Copy, Debug, PartialEq, Eq, Structural)]
pub struct QueuedDamage(pub i32);

/// The full set of components one entity can carry, one optional slot per type.
#[derive(Clone, Copy, Debug)]
pub struct Components {
    pub position: Option<Position>,
    pub visible: Option<Visible>,
    pub initiative: Option<Initiative>,
    pub ready: Option<Ready>,
    pub blocks_movement: Option<BlocksMovement>,
    pub ai: Option<AIComponent>,
    pub combat_stats: Option<CombatStats>,
    pub move_intent: Option<MoveIntent>,
    pub attack_intent: Option<AttackIntent>,
    pub queued_damage: Option<QueuedDamage>,
}

/// A row with no component at all.
pub open spec fn no_components() -> Components {
    Components {
        position: None,
        visible: None,
        initiative: None,
        ready: None,
        blocks_movement: None,
        ai: None,
        combat_stats: None,
        move_intent: None,
        attack_intent: None,
        queued_damage: None,
    }
}

impl Components {
    /// A row with no component at all.
    pub fn none() -> (r: Components)
        ensures
            r == no_components(),
    {
        Components {
            position: None,
            visible: None,
            initiative: None,
            ready: None,
            blocks_movement: None,
            ai: None,
            combat_stats: None,
            move_intent: None,
            attack_intent: None,
            queued_damage: None,
        }
    }
}

} // verus!
