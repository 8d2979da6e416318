//! The engine: the world plus the turn loop that drives it.

use vstd::prelude::*;

use crate::ai::{PlayerAction, AI};
use crate::components::{AttackIntent, Components, MoveIntent};
use crate::geometry::Motion;
use crate::event_log::LOG_CAPACITY;
use crate::map::{TileMap, TileType};
use crate::systems::{
    lemma_deaths_keep_rows, AttackSystem, DamageSystem, DeathSystem, InitiativeSystem,
    MapUpdateSystem, MovementSystem,
};
use crate::world::{lemma_wf_frame, Entity, Slot, World, WorldView};

verus! {

/// The width of the map that `Engine::new` builds.
pub const MAP_WIDTH: i32 = 80;

/// The height of the map that `Engine::new` builds.
pub const MAP_HEIGHT: i32 = 40;

/// The most pipeline steps one call of `tick` runs before it hands control back.
pub const MAX_STEPS_PER_TICK: u32 = 10000;

/// Which entity is the player.
#[derive(Clone, Copy, Debug, PartialEq, Eq, Structural)]
pub struct PlayerId(pub Entity);

/// Something an entity does on its turn.
#[derive(Clone, Copy, Debug, PartialEq, Eq, Structural)]
pub enum Action {
    Move { motion: Motion },
    Attack { target: Entity },
}

/// The phase of the turn loop.
#[derive(Clone, Copy, Debug, PartialEq, Eq, Structural)]
pub enum LoopState {
    Looping,
    WaitingForPlayer,
    GameOver,
}

/// The outcome of looking for an entity to act.
pub enum Scan {
    /// This ready entity decided on this action.
    Found(Entity, Action),
    /// The ready player was reached with nothing to do.
    WaitForPlayer,
    /// No ready entity wants to act.
    Nobody,
}

/// Scans slots `k..` in order for a ready entity with a decision maker that decides on
/// an action. Reaching the player without an action stops the scan.
pub open spec fn scan_from(w: WorldView, k: int) -> Scan
    decreases w.slots.len() - k,
{
    if k < 0 || k >= w.slots.len() {
        Scan::Nobody
    } else {
        let s = w.slots[k];
        match s.components.ai {
            Some(ai) if s.alive && s.components.ready is Some => match ai.decision(
                w,
                w.entity(k),
            ) {
                Some(a) => Scan::Found(w.entity(k), a),
                None => if w.player == Some(w.entity(k)) {
                    Scan::WaitForPlayer
                } else {
                    scan_from(w, k + 1)
                },
            },
            _ => scan_from(w, k + 1),
        }
    }
}

/// The world after `find_actor`.
pub open spec fn after_scan(w: WorldView) -> WorldView {
    match scan_from(w, 0) {
        Scan::WaitForPlayer => WorldView { loop_state: LoopState::WaitingForPlayer, ..w },
        _ => w,
    }
}

/// The player's command as it will be carried out: a move onto a cell held by a blocker
/// becomes an attack on that blocker; anything else stands.
pub open spec fn normalized(w: WorldView, action: Action) -> Action {
    match (action, w.player) {
        (Action::Move { motion }, Some(p)) => match w.position_of(p) {
            Some(pos) => {
                let x = pos.x + motion.x;
                let y = pos.y + motion.y;
                if w.map.in_bounds(x, y) && w.map.blockers[w.map.index_of(x, y)] is Some {
                    Action::Attack { target: w.map.blockers[w.map.index_of(x, y)]->Some_0 }
                } else {
                    action
                }
            },
            None => action,
        },
        _ => action,
    }
}

/// The world after `entity` performs `action`: the player's pending action is consumed
/// and the loop resumes; a living actor loses its `Ready` tag and gains the intent.
pub open spec fn performed(w: WorldView, entity: Entity, action: Action) -> WorldView {
    let w1 = if w.player == Some(entity) {
        WorldView { player_action: None, loop_state: LoopState::Looping, ..w }
    } else {
        w
    };
    if w1.live(entity) {
        let s = w1.slots[entity.index as int];
        let c = Components { ready: None, ..s.components };
        let c2 = match action {
            Action::Move { motion } => Components { move_intent: Some(MoveIntent(motion)), ..c },
            Action::Attack { target } => Components {
                attack_intent: Some(AttackIntent { target }),
                ..c
            },
        };
        WorldView { slots: w1.slots.update(entity.index as int, Slot { components: c2, ..s }), ..w1 }
    } else {
        w1
    }
}

/// One pass of the pipeline: scheduler, actor selection and perform, then movement,
/// attack, damage, death, the synchronization point and the map update. The occupancy
/// index is also refreshed right before movement. Nothing happens once the game is over.
pub open spec fn stepped(w: WorldView) -> WorldView {
    if w.loop_state == LoopState::GameOver {
        w
    } else {
        let w1 = w.initiative_ticked();
        let w2 = match scan_from(w1, 0) {
            Scan::Found(e, a) => performed(w1, e, a),
            _ => after_scan(w1),
        };
        w2.map_updated().moved().attacked().damaged().reaped().maintained().map_updated()
    }
}

/// Runs pipeline steps until the loop stops running (waiting for the player or game
/// over), or `fuel` steps have run.
pub open spec fn run_steps(w: WorldView, fuel: nat) -> WorldView
    decreases fuel,
{
    if fuel == 0 || w.loop_state == LoopState::GameOver {
        w
    } else {
        let w1 = stepped(w);
        if w1.loop_state != LoopState::Looping {
            w1
        } else {
            run_steps(w1, (fuel - 1) as nat)
        }
    }
}

pub struct Engine {
    pub world: World,
}

impl Engine {
    pub open spec fn wf(&self) -> bool {
        self.world@.wf()
    }

    /// An empty world on an all-floor map of `MAP_WIDTH` by `MAP_HEIGHT` cells, looping.
    pub fn new() -> (r: Engine)
        ensures
            r.wf(),
            r.world@.slots.len() == 0,
            r.world@.map.width == MAP_WIDTH,
            r.world@.map.height == MAP_HEIGHT,
            forall|i: int|
                0 <= i < r.world@.map.cells() ==> r.world@.map.tiles[i] == TileType::Floor,
            r.world@.map == r.world@.map.cleared(),
            r.world@.to_delete.len() == 0,
            r.world@.log.events.len() == 0,
            r.world@.log.capacity == LOG_CAPACITY,
            r.world@.loop_state == LoopState::Looping,
            r.world@.player is None,
            r.world@.player_action is None,
    {
        Engine { world: World::new(TileMap::new(MAP_WIDTH, MAP_HEIGHT)) }
    }

    /// An empty world on the given map, looping.
    pub fn with_map(map: TileMap) -> (r: Engine)
        requires
            map@.wf(),
        ensures
            r.wf(),
            r.world@.slots.len() == 0,
            r.world@.map == map@,
            r.world@.to_delete.len() == 0,
            r.world@.log.events.len() == 0,
            r.world@.log.capacity == LOG_CAPACITY,
            r.world@.loop_state == LoopState::Looping,
            r.world@.player is None,
            r.world@.player_action is None,
    {
        Engine { world: World::new(map) }
    }

    pub fn loop_state(&self) -> (r: LoopState)
        ensures
            r == self.world@.loop_state,
    {
        self.world.loop_state
    }

    /// Pins which entity is the player.
    pub fn set_player(&mut self, player: Entity)
        requires
            old(self).wf(),
        ensures
            final(self).wf(),
            final(self).world@ == (WorldView { player: Some(player), ..old(self).world@ }),
    {
        self.world.player = Some(PlayerId(player));
        proof {
            lemma_wf_frame(old(self).world@, self.world@);
        }
    }

    /// Turns the player's high-level action into the one carried out: moving into a
    /// blocker attacks it.
    fn normalize_action(&self, action: Action) -> (r: Action)
        requires
            self.wf(),
        ensures
            r == normalized(self.world@, action),
    {
        match (action, self.world.player) {
            (Action::Move { motion }, Some(p)) => match self.world.position(p.0) {
                Some(pos) => {
                    let x: i64 = pos.x as i64 + motion.x as i64;
                    let y: i64 = pos.y as i64 + motion.y as i64;
                    if self.world.map.contains(x, y) {
                        match self.world.map.blockers(crate::geometry::Point::new(x as i32, y as i32)) {
                            Some(b) => Action::Attack { target: b },
                            None => action,
                        }
                    } else {
                        action
                    }
                },
                None => action,
            },
            _ => action,
        }
    }

    /// Submits the player's next action, normalized. Once the game is over nothing
    /// changes.
    pub fn set_action(&mut self, action: Action)
        requires
            old(self).wf(),
        ensures
            final(self).wf(),
            old(self).world@.loop_state == LoopState::GameOver ==> final(self).world@ == old(
                self,
            ).world@,
            old(self).world@.loop_state != LoopState::GameOver ==> final(self).world@ == (
            WorldView {
                player_action: Some(normalized(old(self).world@, action)),
                ..old(self).world@
            }),
    {
        if self.world.loop_state == LoopState::GameOver {
            return;
        }
        let a = self.normalize_action(action);
        self.world.player_action = Some(PlayerAction(a));
        proof {
            lemma_wf_frame(old(self).world@, self.world@);
        }
    }

    /// Has `entity` carry out `action` by attaching the matching intent, which the
    /// systems resolve afterwards.
    pub fn perform(&mut self, entity: Entity, action: Action)
        requires
            old(self).wf(),
        ensures
            final(self).wf(),
            final(self).world@ == performed(old(self).world@, entity, action),
    {
        if self.world.player == Some(PlayerId(entity)) {
            // The player's action is about to be carried out, and we no longer wait.
            self.world.player_action = None;
            self.world.loop_state = LoopState::Looping;
        }
        proof {
            lemma_wf_frame(old(self).world@, self.world@);
        }
        if self.world.is_alive(entity) {
            let ghost before = self.world@;
            let s = self.world.slots[entity.index];
            let mut c = s.components;
            c.ready = None;
            match action {
                Action::Move { motion } => {
                    c.move_intent = Some(MoveIntent(motion));
                },
                Action::Attack { target } => {
                    c.attack_intent = Some(AttackIntent { target });
                },
            }
            self.world.slots.set(entity.index, Slot { components: c, ..s });
            proof {
                assert forall|k: int|
                    0 <= k < self.world@.slots.len() implies #[trigger] self.world@.slot_ok(k) by {
                    assert(before.slot_ok(k));
                }
            }
        }
    }

    /// Finds the first ready entity, in slot order, that decides on an action. Reaching
    /// the ready player without an action switches the loop to waiting for the player.
    fn find_actor(&mut self) -> (r: Option<(Entity, Action)>)
        requires
            old(self).wf(),
        ensures
            final(self).wf(),
            final(self).world@ == after_scan(old(self).world@),
            match scan_from(old(self).world@, 0) {
                Scan::Found(e, a) => r == Some((e, a)),
                _ => r is None,
            },
    {
        let ghost w = self.world@;
        let n = self.world.slots.len();
        let mut i: usize = 0;
        while i < n
            invariant
                self.world@ == w,
                w == old(self).world@,
                w.wf(),
                n == w.slots.len(),
                i <= n,
                scan_from(w, 0) == scan_from(w, i as int),
            decreases n - i,
        {
            let s = self.world.slots[i];
            if s.alive && s.components.ready.is_some() {
                if let Some(ai) = s.components.ai {
                    let me = Entity { index: i, generation: s.generation };
                    match ai.decide(&self.world, me) {
                        Some(action) => {
                            proof {
                                assert(scan_from(w, i as int) == Scan::Found(me, action));
                            }
                            return Some((me, action));
                        },
                        None => {
                            if self.world.player == Some(PlayerId(me)) {
                                self.world.loop_state = LoopState::WaitingForPlayer;
                                proof {
                                    lemma_wf_frame(w, self.world@);
                                }
                                return None;
                            }
                        },
                    }
                }
            }
            i = i + 1;
        }
        None
    }

    /// One pass of the pipeline (see `stepped`).
    fn step(&mut self)
        requires
            old(self).wf(),
        ensures
            final(self).wf(),
            final(self).world@ == stepped(old(self).world@),
    {
        if self.world.loop_state == LoopState::GameOver {
            return;
        }
        InitiativeSystem.run(&mut self.world);
        if let Some((entity, action)) = self.find_actor() {
            self.perform(entity, action);
        }
        MapUpdateSystem.run(&mut self.world);
        MovementSystem.run(&mut self.world);
        AttackSystem.run(&mut self.world);
        DamageSystem.run(&mut self.world);
        DeathSystem.run(&mut self.world);
        self.world.maintain();
        MapUpdateSystem.run(&mut self.world);
    }

    /// Advances the simulation until the loop waits for the player or the game is over,
    /// so that several ready entities can act within one frame. Runs at most
    /// `MAX_STEPS_PER_TICK` steps per call; a later call carries on. Calling it again
    /// while blocked is harmless.
    pub fn tick(&mut self)
        requires
            old(self).wf(),
        ensures
            final(self).wf(),
            final(self).world@ == run_steps(old(self).world@, MAX_STEPS_PER_TICK as nat),
    {
        let mut fuel: u32 = MAX_STEPS_PER_TICK;
        while fuel > 0
            invariant
                self.wf(),
                run_steps(self.world@, fuel as nat) == run_steps(
                    old(self).world@,
                    MAX_STEPS_PER_TICK as nat,
                ),
            decreases fuel,
        {
            if self.world.loop_state == LoopState::GameOver {
                return;
            }
            self.step();
            if self.world.loop_state != LoopState::Looping {
                return;
            }
            fuel = fuel - 1;
        }
    }
}

/// Once the game is over, pipeline steps and ticks change nothing. (`set_action` states
/// the same of itself.)
pub proof fn lemma_game_over_is_final(w: WorldView, fuel: nat)
    requires
        w.loop_state == LoopState::GameOver,
    ensures
        stepped(w) == w,
        run_steps(w, fuel) == w,
{
}

/// The death pass ends the game when it finds the player alive at zero hp or below.
pub proof fn lemma_player_death_ends_game(w: WorldView, i: int)
    requires
        0 <= i < w.slots.len(),
        w.slots[i].alive,
        w.slots[i].components.combat_stats is Some,
        w.slots[i].components.combat_stats->Some_0.hp <= 0,
        w.player == Some(w.entity(i)),
    ensures
        w.reaped().loop_state == LoopState::GameOver,
{
    lemma_deaths_keep_rows(w, w.slots.len());
    lemma_deaths_end_game(w, w.slots.len(), i);
}

proof fn lemma_deaths_end_game(w: WorldView, k: nat, i: int)
    requires
        0 <= i < k <= w.slots.len(),
        w.slots[i].alive,
        w.slots[i].components.combat_stats is Some,
        w.slots[i].components.combat_stats->Some_0.hp <= 0,
        w.player == Some(w.entity(i)),
    ensures
        w.deaths_upto(k).loop_state == LoopState::GameOver,
    decreases k,
{
    lemma_deaths_keep_rows(w, (k - 1) as nat);
    if i < k - 1 {
        lemma_deaths_end_game(w, (k - 1) as nat, i);
    }
}

/// A player move towards a cell held by a blocker is submitted as an attack on that
/// blocker, not as a move.
pub proof fn lemma_move_into_blocker_attacks(w: WorldView, motion: Motion, blocker: Entity)
    requires
        w.player is Some,
        w.position_of(w.player->Some_0) is Some,
        ({
            let pos = w.position_of(w.player->Some_0)->Some_0;
            let x = pos.x + motion.x;
            let y = pos.y + motion.y;
            w.map.in_bounds(x, y) && w.map.blockers[w.map.index_of(x, y)] == Some(blocker)
        }),
    ensures
        normalized(w, (Action::Move { motion })) == (Action::Attack { target: blocker }),
{
}

/// With slot `a` the only one holding an attack intent, the attack pass amounts to
/// handling slot `a` alone.
proof fn lemma_single_attacker(w: WorldView, a: int, k: nat)
    requires
        0 <= a < w.slots.len(),
        k <= w.slots.len(),
        forall|i: int|
            0 <= i < w.slots.len() && i != a ==> (#[trigger] w.slots[i]).components.attack_intent
                is None,
    ensures
        k <= a ==> w.attacks_upto(k) == w,
        k > a ==> w.attacks_upto(k) == w.attack_step(a),
    decreases k,
{
    if k > 0 {
        let j = k - 1;
        lemma_single_attacker(w, a, j as nat);
        if j > a {
            let v = w.attack_step(a);
            assert(v.slots[j].components.attack_intent == w.slots[j].components.attack_intent);
        }
    }
}

/// When the player carries out an attack it submitted (a move into a blocker is submitted
/// as one), and no other entity holds an attack intent, the movement pass leaves the
/// player where it was, and the attack pass logs exactly one line: the player's damage
/// line against the target, named as before the pass.
pub proof fn lemma_player_attack_logged(w: WorldView, p: Entity, b: Entity)
    requires
        w.live(p),
        w.slots[p.index as int].components.combat_stats is Some,
        w.slots[p.index as int].components.move_intent is None,
        forall|i: int|
            0 <= i < w.slots.len() && i != p.index ==> (#[trigger] w.slots[i]).components.attack_intent
                is None,
    ensures
        ({
            let moved = performed(w, p, (Action::Attack { target: b })).map_updated().moved();
            let attack = w.slots[p.index as int].components.combat_stats->Some_0.attack;
            &&& moved.position_of(p) == w.position_of(p)
            &&& moved.attacked().log == moved.log.pushed(
                crate::event_log::damage_text(w, p, b, attack as int),
            )
        }),
{
    let w1 = performed(w, p, (Action::Attack { target: b }));
    let moved = w1.map_updated().moved();
    let a = p.index as int;
    assert forall|i: int|
        0 <= i < moved.slots.len() && i != a implies (#[trigger] moved.slots[i]).components.attack_intent
        is None by {
        assert(w.slots[i] == w1.slots[i]);
    }
    lemma_single_attacker(moved, a, moved.slots.len());
    assert(moved.entity(a) == p);
    assert forall|e: Entity| #[trigger] moved.name_of(e) == w.name_of(e) by {
        if e.index < w.slots.len() {
            assert(moved.slots[e.index as int].alive == w.slots[e.index as int].alive);
            assert(moved.slots[e.index as int].generation == w.slots[e.index as int].generation);
        }
    }
    assert(crate::event_log::label(moved, p) == crate::event_log::label(w, p));
    assert(crate::event_log::label(moved, b) == crate::event_log::label(w, b));
}

} // verus!
