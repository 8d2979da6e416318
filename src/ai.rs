//! How entities decide what to do on their turn. A decision is either an action or
//! nothing, which means the entity is not ready to act.

use vstd::prelude::*;

use crate::engine::Action;
use crate::geometry::{sign, signum, within_reach, Motion};
use crate::world::{Entity, World, WorldView};

verus! {

/// Decides what an entity wants to do next. Deciding nothing means the entity is not
/// ready to act at the moment.
pub trait AI {
    /// The decision, as a function of the world and the deciding entity.
    spec fn decision(&self, w: WorldView, me: Entity) -> Option<Action>;

    fn decide(&self, world: &World, me: Entity) -> (r: Option<Action>)
        ensures
            r == self.decision(world@, me),
    ;
}

/// Moves towards its target as fast as possible, and attacks it once adjacent.
#[derive(Clone, Copy, Debug, PartialEq, Eq, Structural)]
pub struct Swarm {
    pub target: Entity,
}

/// Acts on the action the player has submitted, if any.
#[derive(Clone, Copy, Debug, PartialEq, Eq, Structural)]
pub struct PlayerAI;

/// The action the player wants to take next, set whenever the player issues a command.
#[derive(Clone, Copy, Debug, PartialEq, Eq, Structural)]
pub struct PlayerAction(pub Action);

/// The decision maker of an entity.
#[derive(Clone, Copy, Debug, PartialEq, Eq, Structural)]
pub enum AIComponent {
    Swarm(Swarm),
    Player(PlayerAI),
}

impl AI for Swarm {
    /// Attack the target when it is within one step on both axes; otherwise step towards
    /// it on each axis. Without both positions (the target is gone) there is nothing to do.
    open spec fn decision(&self, w: WorldView, me: Entity) -> Option<Action> {
        match (w.position_of(self.target), w.position_of(me)) {
            (Some(t), Some(m)) => if within_reach(m, t) {
                Some(Action::Attack { target: self.target })
            } else {
                Some(
                    Action::Move {
                        motion: Motion {
                            x: sign(t.x - m.x) as i32,
                            y: sign(t.y - m.y) as i32,
                        },
                    },
                )
            },
            _ => None,
        }
    }

    fn decide(&self, world: &World, me: Entity) -> (r: Option<Action>) {
        match (world.position(self.target), world.position(me)) {
            (Some(t), Some(m)) => {
                let dx: i64 = t.x as i64 - m.x as i64;
                let dy: i64 = t.y as i64 - m.y as i64;
                if -1 <= dx && dx <= 1 && -1 <= dy && dy <= 1 {
                    Some(Action::Attack { target: self.target })
                } else {
                    Some(Action::Move { motion: Motion { x: signum(dx), y: signum(dy) } })
                }
            },
            _ => None,
        }
    }
}

impl AI for PlayerAI {
    /// The action the player has submitted, if any.
    open spec fn decision(&self, w: WorldView, me: Entity) -> Option<Action> {
        w.player_action
    }

    fn decide(&self, world: &World, me: Entity) -> (r: Option<Action>) {
        match world.player_action {
            Some(a) => Some(a.0),
            None => None,
        }
    }
}

impl AI for AIComponent {
    open spec fn decision(&self, w: WorldView, me: Entity) -> Option<Action> {
        match self {
            AIComponent::Swarm(s) => s.decision(w, me),
            AIComponent::Player(p) => p.decision(w, me),
        }
    }

    /// What does this entity want to do next? `None` means it has nothing it wants to do
    /// at the moment.
    fn decide(&self, world: &World, me: Entity) -> (r: Option<Action>) {
        match self {
            AIComponent::Swarm(s) => s.decide(world, me),
            AIComponent::Player(p) => p.decide(world, me),
        }
    }
}

/// A swarmer within one step of its target on both axes attacks it; farther away it
/// moves by the sign of the offset on each axis, each component in {-1, 0, 1}.
pub proof fn lemma_swarm_decision(s: Swarm, w: WorldView, me: Entity)
    requires
        w.position_of(s.target) is Some,
        w.position_of(me) is Some,
    ensures
        ({
            let t = w.position_of(s.target)->Some_0;
            let m = w.position_of(me)->Some_0;
            if within_reach(m, t) {
                s.decision(w, me) == Some(Action::Attack { target: s.target })
            } else {
                &&& s.decision(w, me) matches Some(Action::Move { motion })
                &&& motion.x == sign(t.x - m.x)
                &&& motion.y == sign(t.y - m.y)
                &&& -1 <= motion.x <= 1
                &&& -1 <= motion.y <= 1
            }
        }),
{
}

} // verus!
