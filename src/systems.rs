//! The systems of the turn pipeline. Each one runs over all entities in slot order.

use vstd::prelude::*;

use crate::components::{Components, MoveIntent, Position, QueuedDamage, Ready};
use crate::engine::LoopState;
use crate::event_log::{damage_text, death_text, Event};
use crate::geometry::Point;
use crate::map::{TileMapView, TileType};
use crate::world::{Entity, Slot, World, WorldView};

verus! {

/// An integer clamped to the range of `i32`.
pub open spec fn clamp_i32(v: int) -> i32 {
    if v > i32::MAX {
        i32::MAX
    } else if v < i32::MIN {
        i32::MIN
    } else {
        v as i32
    }
}

fn clamp_i64(v: i64) -> (r: i32)
    ensures
        r == clamp_i32(v as int),
{
    if v > i32::MAX as i64 {
        i32::MAX
    } else if v < i32::MIN as i64 {
        i32::MIN
    } else {
        v as i32
    }
}

/// The slot after one scheduler tick: a living entity with an initiative ticks it down,
/// and becomes ready when it fires.
pub open spec fn initiative_slot(s: Slot) -> Slot {
    match s.components.initiative {
        Some(ini) if s.alive => Slot {
            components: Components {
                initiative: Some(ini.ticked()),
                ready: if ini.fires() {
                    Some(Ready)
                } else {
                    s.components.ready
                },
                ..s.components
            },
            ..s
        },
        _ => s,
    }
}

/// Where a move intent leads, and whether the move happens: the destination must lie on
/// the map and not be blocked.
pub open spec fn move_allowed(map: TileMapView, p: Point, m: crate::geometry::Motion) -> bool {
    map.in_bounds(p.x + m.x, p.y + m.y) && !map.blocked(p.x + m.x, p.y + m.y)
}

/// The slot after the movement system: a permitted move shifts the position by exactly
/// the motion; the move intent is cleared in any case.
pub open spec fn moved_slot(map: TileMapView, s: Slot) -> Slot {
    let c = s.components;
    let cleared = Components { move_intent: None, ..c };
    Slot {
        components: match (c.move_intent, c.position) {
            (Some(MoveIntent(m)), Some(Position(p))) if s.alive && move_allowed(map, p, m) => Components {
                position: Some(Position(Point { x: (p.x + m.x) as i32, y: (p.y + m.y) as i32 })),
                ..cleared
            },
            _ => cleared,
        },
        ..s
    }
}

/// The slot after the damage system: queued damage is taken off `hp` (clamped to the
/// range of `i32`) and the queue is cleared.
pub open spec fn damaged_slot(s: Slot) -> Slot {
    let c = s.components;
    let cleared = Components { queued_damage: None, ..c };
    Slot {
        components: match (c.combat_stats, c.queued_damage) {
            (Some(st), Some(q)) => Components {
                combat_stats: Some(
                    crate::components::CombatStats { hp: clamp_i32(st.hp - q.0), ..st },
                ),
                ..cleared
            },
            _ => cleared,
        },
        ..s
    }
}

impl WorldView {
    /// The world after the scheduler runs: nothing changes unless the loop is running.
    pub open spec fn initiative_ticked(self) -> WorldView {
        if self.loop_state != LoopState::Looping {
            self
        } else {
            WorldView {
                slots: Seq::new(self.slots.len(), |i: int| initiative_slot(self.slots[i])),
                ..self
            }
        }
    }

    pub open spec fn moved(self) -> WorldView {
        WorldView {
            slots: Seq::new(self.slots.len(), |i: int| moved_slot(self.map, self.slots[i])),
            ..self
        }
    }

    pub open spec fn damaged(self) -> WorldView {
        WorldView { slots: Seq::new(self.slots.len(), |i: int| damaged_slot(self.slots[i])), ..self }
    }
}

/// Counts down every entity's initiative and marks those whose count elapsed as ready.
/// Does nothing while the loop is not running, e.g. while waiting for the player.
pub struct InitiativeSystem;

impl InitiativeSystem {
    pub fn run(&self, world: &mut World)
        requires
            old(world)@.wf(),
        ensures
            final(world)@ == old(world)@.initiative_ticked(),
            final(world)@.wf(),
    {
        if world.loop_state != LoopState::Looping {
            return;
        }
        let ghost w = world@;
        let n = world.slots.len();
        let mut i: usize = 0;
        while i < n
            invariant
                w.wf(),
                w.loop_state == LoopState::Looping,
                n == w.slots.len(),
                i <= n,
                world@ == (WorldView { slots: world@.slots, ..w }),
                world@.slots.len() == n,
                forall|k: int|
                    0 <= k < n ==> #[trigger] world@.slots[k] == if k < i {
                        initiative_slot(w.slots[k])
                    } else {
                        w.slots[k]
                    },
            decreases n - i,
        {
            let s = world.slots[i];
            if s.alive {
                if let Some(mut ini) = s.components.initiative {
                    proof {
                        assert(w.slot_ok(i as int));
                    }
                    let fired = ini.tick();
                    let mut c = s.components;
                    c.initiative = Some(ini);
                    if fired {
                        c.ready = Some(Ready);
                    }
                    world.slots.set(i, Slot { components: c, ..s });
                }
            }
            i = i + 1;
        }
        proof {
            assert(world@.slots =~= w.initiative_ticked().slots);
            assert forall|k: int| 0 <= k < n implies #[trigger] world@.slot_ok(k) by {
                assert(w.slot_ok(k));
            }
        }
    }
}

/// Carries out move intents: a move onto a cell that is off the map, solid or held by a
/// blocker is dropped; any other move shifts the position by the motion. All move
/// intents are cleared.
pub struct MovementSystem;

impl MovementSystem {
    pub fn run(&self, world: &mut World)
        requires
            old(world)@.wf(),
        ensures
            final(world)@ == old(world)@.moved(),
            final(world)@.wf(),
    {
        let ghost w = world@;
        let n = world.slots.len();
        let mut i: usize = 0;
        while i < n
            invariant
                w.wf(),
                n == w.slots.len(),
                i <= n,
                world@ == (WorldView { slots: world@.slots, ..w }),
                world@.slots.len() == n,
                forall|k: int|
                    0 <= k < n ==> #[trigger] world@.slots[k] == if k < i {
                        moved_slot(w.map, w.slots[k])
                    } else {
                        w.slots[k]
                    },
            decreases n - i,
        {
            let s = world.slots[i];
            let mut c = s.components;
            c.move_intent = None;
            if s.alive {
                if let (Some(MoveIntent(m)), Some(Position(p))) = (
                    s.components.move_intent,
                    s.components.position,
                ) {
                    proof {
                        assert(w.slot_ok(i as int));
                    }
                    let x: i64 = p.x as i64 + m.x as i64;
                    let y: i64 = p.y as i64 + m.y as i64;
                    if world.map.contains(x, y) {
                        let dest = Point { x: x as i32, y: y as i32 };
                        if !world.map.is_blocked(dest) {
                            c.position = Some(Position(dest));
                        }
                    }
                }
            }
            world.slots.set(i, Slot { components: c, ..s });
            i = i + 1;
        }
        proof {
            assert(world@.slots =~= w.moved().slots);
            assert forall|k: int| 0 <= k < n implies #[trigger] world@.slot_ok(k) by {
                assert(w.slot_ok(k));
            }
        }
    }
}

/// Takes each entity's queued damage off its health, then clears all queues.
pub struct DamageSystem;

impl DamageSystem {
    pub fn run(&self, world: &mut World)
        requires
            old(world)@.wf(),
        ensures
            final(world)@ == old(world)@.damaged(),
            final(world)@.wf(),
    {
        let ghost w = world@;
        let n = world.slots.len();
        let mut i: usize = 0;
        while i < n
            invariant
                w.wf(),
                n == w.slots.len(),
                i <= n,
                world@ == (WorldView { slots: world@.slots, ..w }),
                world@.slots.len() == n,
                forall|k: int|
                    0 <= k < n ==> #[trigger] world@.slots[k] == if k < i {
                        damaged_slot(w.slots[k])
                    } else {
                        w.slots[k]
                    },
            decreases n - i,
        {
            let s = world.slots[i];
            let mut c = s.components;
            c.queued_damage = None;
            if let (Some(st), Some(q)) = (s.components.combat_stats, s.components.queued_damage) {
                let mut st2 = st;
                st2.hp = clamp_i64(st.hp as i64 - q.0 as i64);
                c.combat_stats = Some(st2);
            }
            world.slots.set(i, Slot { components: c, ..s });
            i = i + 1;
        }
        proof {
            assert(world@.slots =~= w.damaged().slots);
            assert forall|k: int| 0 <= k < n implies #[trigger] world@.slot_ok(k) by {
                assert(w.slot_ok(k));
            }
        }
    }
}

/// The slot after `amount` more damage is queued against it.
pub open spec fn add_damage(s: Slot, amount: i32) -> Slot {
    let prev = match s.components.queued_damage {
        Some(q) => q.0 as int,
        None => 0,
    };
    Slot {
        components: Components {
            queued_damage: Some(QueuedDamage(clamp_i32(prev + amount))),
            ..s.components
        },
        ..s
    }
}

impl WorldView {
    /// The world after the attack system has handled slot `i`: its attack intent is
    /// cleared; if it has combat stats, its attack is queued against a living target and
    /// a damage line is logged.
    pub open spec fn attack_step(self, i: int) -> WorldView {
        let s = self.slots[i];
        match s.components.attack_intent {
            Some(intent) if s.alive => {
                let cleared = self.slots.update(
                    i,
                    Slot { components: Components { attack_intent: None, ..s.components }, ..s },
                );
                let t = intent.target;
                match s.components.combat_stats {
                    Some(st) => WorldView {
                        slots: if self.live(t) {
                            cleared.update(
                                t.index as int,
                                add_damage(cleared[t.index as int], st.attack),
                            )
                        } else {
                            cleared
                        },
                        log: self.log.pushed(
                            damage_text(self, self.entity(i), t, st.attack as int),
                        ),
                        ..self
                    },
                    None => WorldView { slots: cleared, ..self },
                }
            },
            _ => self,
        }
    }

    /// The world after the attack system has handled the first `k` slots.
    pub open spec fn attacks_upto(self, k: nat) -> WorldView
        decreases k,
    {
        if k == 0 {
            self
        } else {
            self.attacks_upto((k - 1) as nat).attack_step(k - 1)
        }
    }

    pub open spec fn attacked(self) -> WorldView {
        self.attacks_upto(self.slots.len())
    }

    /// The world after the death system has handled slot `i`: a living entity with
    /// non-positive `hp` is scheduled for deletion and a death line is logged; if it is
    /// the player, the game is over.
    pub open spec fn death_step(self, i: int) -> WorldView {
        let s = self.slots[i];
        match s.components.combat_stats {
            Some(st) if s.alive && st.hp <= 0 => WorldView {
                to_delete: self.to_delete.push(self.entity(i)),
                log: self.log.pushed(death_text(self, self.entity(i))),
                loop_state: if self.player == Some(self.entity(i)) {
                    LoopState::GameOver
                } else {
                    self.loop_state
                },
                ..self
            },
            _ => self,
        }
    }

    pub open spec fn deaths_upto(self, k: nat) -> WorldView
        decreases k,
    {
        if k == 0 {
            self
        } else {
            self.deaths_upto((k - 1) as nat).death_step(k - 1)
        }
    }

    pub open spec fn reaped(self) -> WorldView {
        self.deaths_upto(self.slots.len())
    }

    /// The occupancy index built from the first `k` slots, in slot order: each living
    /// entity with a position is listed at its cell, and becomes the cell's blocker if
    /// it blocks movement.
    pub open spec fn map_upto(self, k: nat) -> TileMapView
        decreases k,
    {
        if k == 0 {
            self.map.cleared()
        } else {
            let m = self.map_upto((k - 1) as nat);
            let s = self.slots[k - 1];
            match s.components.position {
                Some(Position(p)) if s.alive => m.with_entity(
                    p.x as int,
                    p.y as int,
                    self.entity(k - 1),
                    s.components.blocks_movement is Some,
                ),
                _ => m,
            }
        }
    }

    pub open spec fn map_updated(self) -> WorldView {
        WorldView { map: self.map_upto(self.slots.len()), ..self }
    }
}

/// Resolves attack intents: each attacker's attack is queued as damage against its
/// target and logged. All attack intents are cleared.
pub struct AttackSystem;

impl AttackSystem {
    pub fn run(&self, world: &mut World)
        requires
            old(world)@.wf(),
        ensures
            final(world)@ == old(world)@.attacked(),
            final(world)@.wf(),
    {
        let ghost w = world@;
        let n = world.slots.len();
        let mut i: usize = 0;
        while i < n
            invariant
                n == w.slots.len(),
                i <= n,
                world@ == w.attacks_upto(i as nat),
                world@.wf(),
                world@.slots.len() == n,
            decreases n - i,
        {
            let ghost before = world@;
            let s = world.slots[i];
            if s.alive {
                if let Some(intent) = s.components.attack_intent {
                    let mut c = s.components;
                    c.attack_intent = None;
                    world.slots.set(i, Slot { components: c, ..s });
                    if let Some(st) = s.components.combat_stats {
                        let t = intent.target;
                        if world.is_alive(t) {
                            let ts = world.slots[t.index];
                            let prev: i64 = match ts.components.queued_damage {
                                Some(q) => q.0 as i64,
                                None => 0,
                            };
                            let mut tc = ts.components;
                            tc.queued_damage = Some(
                                QueuedDamage(clamp_i64(prev + st.attack as i64)),
                            );
                            world.slots.set(t.index, Slot { components: tc, ..ts });
                        }
                        proof {
                            assert forall|k: int| 0 <= k < n implies #[trigger] world@.slot_ok(
                                k,
                            ) by {
                                assert(before.slot_ok(k));
                            }
                            assert forall|e: Entity| #[trigger]
                                world@.name_of(e) == before.name_of(e) by {
                                if e.index < n {
                                    assert(world@.slots[e.index as int].alive
                                        == before.slots[e.index as int].alive);
                                }
                            }
                        }
                        let ev = Event::Damage {
                            from: Entity { index: i, generation: s.generation },
                            to: t,
                            amount: st.attack,
                        };
                        let text = ev.format(world);
                        world.log.log(text);
                    }
                }
            }
            proof {
                assert(world@ == before.attack_step(i as int));
                assert forall|k: int| 0 <= k < n implies #[trigger] world@.slot_ok(k) by {
                    assert(before.slot_ok(k));
                }
            }
            i = i + 1;
        }
    }
}

/// Reaps dead entities: each living entity with non-positive `hp` is scheduled for
/// deletion and its death is logged; the player's death ends the game.
pub struct DeathSystem;

impl DeathSystem {
    pub fn run(&self, world: &mut World)
        requires
            old(world)@.wf(),
        ensures
            final(world)@ == old(world)@.reaped(),
            final(world)@.wf(),
    {
        let ghost w = world@;
        let n = world.slots.len();
        let mut i: usize = 0;
        while i < n
            invariant
                n == w.slots.len(),
                i <= n,
                world@ == w.deaths_upto(i as nat),
                world@.wf(),
                world@.slots.len() == n,
            decreases n - i,
        {
            let ghost before = world@;
            let s = world.slots[i];
            if s.alive {
                if let Some(st) = s.components.combat_stats {
                    if st.hp <= 0 {
                        let who = Entity { index: i, generation: s.generation };
                        world.to_delete.push(who);
                        if world.player == Some(crate::engine::PlayerId(who)) {
                            world.loop_state = LoopState::GameOver;
                        }
                        proof {
                            assert forall|k: int| 0 <= k < n implies #[trigger] world@.slot_ok(
                                k,
                            ) by {
                                assert(before.slot_ok(k));
                            }
                        }
                        let text = Event::Death { who }.format(world);
                        world.log.log(text);
                    }
                }
            }
            proof {
                assert(world@ == before.death_step(i as int));
                assert forall|k: int| 0 <= k < n implies #[trigger] world@.slot_ok(k) by {
                    assert(before.slot_ok(k));
                }
            }
            i = i + 1;
        }
    }
}

/// Rebuilds the occupancy index of the map from the current positions.
pub struct MapUpdateSystem;

impl MapUpdateSystem {
    pub fn run(&self, world: &mut World)
        requires
            old(world)@.wf(),
        ensures
            final(world)@ == old(world)@.map_updated(),
            final(world)@.wf(),
    {
        let ghost w = world@;
        world.map.clear_entities();
        let n = world.slots.len();
        let mut i: usize = 0;
        while i < n
            invariant
                w.wf(),
                n == w.slots.len(),
                i <= n,
                world@ == (WorldView { map: world@.map, ..w }),
                world@.map == w.map_upto(i as nat),
                world@.map.wf(),
                world@.map.width == w.map.width,
                world@.map.height == w.map.height,
            decreases n - i,
        {
            let s = world.slots[i];
            if s.alive {
                if let Some(Position(p)) = s.components.position {
                    proof {
                        assert(w.slot_ok(i as int));
                    }
                    world.map.add_entity(
                        p,
                        Entity { index: i, generation: s.generation },
                        s.components.blocks_movement.is_some(),
                    );
                }
            }
            i = i + 1;
        }
        proof {
            assert forall|k: int| 0 <= k < n implies #[trigger] world@.slot_ok(k) by {
                assert(w.slot_ok(k));
            }
        }
    }
}

/// While the loop runs, each scheduler pass drops a living entity's initiative count by
/// exactly one, except when the count would reach zero or below: then it starts over
/// from its initial value and the entity is marked ready.
pub proof fn lemma_initiative_counts_down(w: WorldView, i: int)
    requires
        w.loop_state == LoopState::Looping,
        0 <= i < w.slots.len(),
        w.slots[i].alive,
        w.slots[i].components.initiative is Some,
    ensures
        ({
            let before = w.slots[i].components;
            let after = w.initiative_ticked().slots[i].components;
            let ini = before.initiative->Some_0;
            &&& after.initiative is Some
            &&& after.initiative->Some_0.initial == ini.initial
            &&& if ini.current - 1 <= 0 {
                after.initiative->Some_0.current == ini.initial && after.ready is Some
            } else {
                after.initiative->Some_0.current == ini.current - 1 && after.ready == before.ready
            }
        }),
{
}

/// While the loop is not running (waiting for the player, or game over), the scheduler
/// changes nothing at all.
pub proof fn lemma_scheduler_idle(w: WorldView)
    requires
        w.loop_state != LoopState::Looping,
    ensures
        w.initiative_ticked() == w,
{
}

/// The map update keeps the tiles and the size of the map, and leaves it well formed.
pub proof fn lemma_map_upto_shape(w: WorldView, k: nat)
    requires
        w.wf(),
        k <= w.slots.len(),
    ensures
        w.map_upto(k).wf(),
        w.map_upto(k).width == w.map.width,
        w.map_upto(k).height == w.map.height,
        w.map_upto(k).tiles == w.map.tiles,
    decreases k,
{
    assert(w.map.cells() >= 0) by (nonlinear_arith)
        requires
            w.map.width >= 0,
            w.map.height >= 0,
    ;
    if k > 0 {
        lemma_map_upto_shape(w, (k - 1) as nat);
        let s = w.slots[k - 1];
        let prev = w.map_upto((k - 1) as nat);
        if let Some(Position(p)) = s.components.position {
            if s.alive {
                assert(w.slot_ok(k - 1));
                crate::map::lemma_index_in_range(prev, p.x as int, p.y as int);
                let cur = prev.with_entity(
                    p.x as int,
                    p.y as int,
                    w.entity(k - 1),
                    s.components.blocks_movement is Some,
                );
                assert(cur.entities.len() == prev.entities.len());
                assert(cur.blockers.len() == prev.blockers.len());
            }
        }
    } else {
        assert(w.map_upto(0).entities.len() == w.map.cells());
        assert(w.map_upto(0).blockers.len() == w.map.cells());
    }
}

/// Slot `j` holds a living entity that blocks movement and stands on cell (x, y).
pub open spec fn blocks_at(w: WorldView, j: int, x: int, y: int) -> bool {
    &&& 0 <= j < w.slots.len()
    &&& w.slots[j].alive
    &&& w.slots[j].components.blocks_movement is Some
    &&& w.slots[j].components.position matches Some(Position(p)) && p.x == x && p.y == y
}

/// Two cells of a map with the same index are the same cell.
pub proof fn lemma_index_injective(m: TileMapView, x1: int, y1: int, x2: int, y2: int)
    requires
        m.in_bounds(x1, y1),
        m.in_bounds(x2, y2),
        m.index_of(x1, y1) == m.index_of(x2, y2),
    ensures
        x1 == x2,
        y1 == y2,
{
    let w = m.width;
    assert(y1 == y2) by (nonlinear_arith)
        requires
            w * y1 + x1 == w * y2 + x2,
            0 <= x1 < w,
            0 <= x2 < w,
            0 <= y1,
            0 <= y2,
    {
        if y1 < y2 {
            assert(w * y2 >= w * (y1 + 1));
        } else if y2 < y1 {
            assert(w * y1 >= w * (y2 + 1));
        }
    }
}

/// In the occupancy index built from the first `k` slots, a cell has a blocker exactly
/// when one of those slots holds a living entity that blocks movement and stands there.
pub proof fn lemma_blockers_match(w: WorldView, k: nat, x: int, y: int)
    requires
        w.wf(),
        k <= w.slots.len(),
        w.map.in_bounds(x, y),
    ensures
        (w.map_upto(k).blockers[w.map.index_of(x, y)] is Some) <==> (exists|j: int|
            0 <= j < k && #[trigger] blocks_at(w, j, x, y)),
    decreases k,
{
    let c = w.map.index_of(x, y);
    crate::map::lemma_index_in_range(w.map, x, y);
    if k > 0 {
        let j = k - 1;
        let m = w.map_upto(j as nat);
        lemma_blockers_match(w, j as nat, x, y);
        lemma_map_upto_shape(w, j as nat);
        assert(w.slot_ok(j));
        let s = w.slots[j];
        if blocks_at(w, j, x, y) {
            assert(w.map_upto(k).blockers[c] == Some(w.entity(j)));
            assert(exists|i: int| 0 <= i < k && #[trigger] blocks_at(w, i, x, y));
        } else {
            if let Some(Position(p)) = s.components.position {
                if s.alive {
                    crate::map::lemma_index_in_range(w.map, p.x as int, p.y as int);
                    if w.map.index_of(p.x as int, p.y as int) == c {
                        lemma_index_injective(w.map, p.x as int, p.y as int, x, y);
                    }
                }
            }
            assert(w.map_upto(k).blockers[c] == m.blockers[c]);
            if exists|i: int| 0 <= i < k && #[trigger] blocks_at(w, i, x, y) {
                let i = choose|i: int| 0 <= i < k && #[trigger] blocks_at(w, i, x, y);
                assert(0 <= i < j && blocks_at(w, i, x, y));
            }
            if exists|i: int| 0 <= i < j && #[trigger] blocks_at(w, i, x, y) {
                let i = choose|i: int| 0 <= i < j && #[trigger] blocks_at(w, i, x, y);
                assert(0 <= i < k && blocks_at(w, i, x, y));
            }
        }
    }
}

/// With the occupancy index in step with the entities, as the map update leaves it, a
/// move onto a wall, or onto a cell where a living entity that blocks movement stands,
/// leaves the mover where it is.
pub proof fn lemma_blocked_move_stays(w: WorldView, i: int, j: int)
    requires
        w.wf(),
        w.map == w.map_upto(w.slots.len()),
        0 <= i < w.slots.len(),
        w.slots[i].alive,
        w.slots[i].components.move_intent is Some,
        w.slots[i].components.position is Some,
        ({
            let p = w.slots[i].components.position->Some_0.0;
            let m = w.slots[i].components.move_intent->Some_0.0;
            let (x, y) = (p.x + m.x, p.y + m.y);
            ||| w.map.in_bounds(x, y) && w.map.tiles[w.map.index_of(x, y)] == TileType::Wall
            ||| blocks_at(w, j, x, y)
        }),
    ensures
        w.moved().slots[i].components.position == w.slots[i].components.position,
{
    let p = w.slots[i].components.position->Some_0.0;
    let m = w.slots[i].components.move_intent->Some_0.0;
    let (x, y) = (p.x + m.x, p.y + m.y);
    if blocks_at(w, j, x, y) {
        assert(w.slot_ok(j));
        lemma_blockers_match(w, w.slots.len(), x, y);
    }
}

/// With the occupancy index in step with the entities, a move onto a floor cell of the
/// map where no living entity that blocks movement stands shifts the mover by exactly
/// the motion.
pub proof fn lemma_free_move_shifts(w: WorldView, i: int)
    requires
        w.wf(),
        w.map == w.map_upto(w.slots.len()),
        0 <= i < w.slots.len(),
        w.slots[i].alive,
        w.slots[i].components.move_intent is Some,
        w.slots[i].components.position is Some,
        ({
            let p = w.slots[i].components.position->Some_0.0;
            let m = w.slots[i].components.move_intent->Some_0.0;
            let (x, y) = (p.x + m.x, p.y + m.y);
            &&& w.map.in_bounds(x, y)
            &&& w.map.tiles[w.map.index_of(x, y)] == TileType::Floor
            &&& forall|j: int| !(#[trigger] blocks_at(w, j, x, y))
        }),
    ensures
        ({
            let p = w.slots[i].components.position->Some_0.0;
            let m = w.slots[i].components.move_intent->Some_0.0;
            w.moved().slots[i].components.position == Some(
                Position(Point { x: (p.x + m.x) as i32, y: (p.y + m.y) as i32 }),
            )
        }),
{
    let p = w.slots[i].components.position->Some_0.0;
    let m = w.slots[i].components.move_intent->Some_0.0;
    lemma_blockers_match(w, w.slots.len(), p.x + m.x, p.y + m.y);
}

/// The death pass changes no row, name or map.
pub proof fn lemma_deaths_keep_rows(w: WorldView, k: nat)
    requires
        k <= w.slots.len(),
    ensures
        w.deaths_upto(k).slots == w.slots,
        w.deaths_upto(k).names == w.names,
        w.deaths_upto(k).map == w.map,
        w.deaths_upto(k).player == w.player,
    decreases k,
{
    if k > 0 {
        lemma_deaths_keep_rows(w, (k - 1) as nat);
    }
}

impl WorldView {
    /// Slot `i` holds a living entity with combat stats and `hp` at zero or below.
    pub open spec fn dying(self, i: int) -> bool {
        &&& self.slots[i].alive
        &&& self.slots[i].components.combat_stats is Some
        &&& self.slots[i].components.combat_stats->Some_0.hp <= 0
    }

    /// The dying entities among the first `k` slots, in slot order.
    pub open spec fn dying_entities(self, k: nat) -> Seq<Entity>
        decreases k,
    {
        if k == 0 {
            Seq::empty()
        } else {
            let prev = self.dying_entities((k - 1) as nat);
            if self.dying(k - 1) {
                prev.push(self.entity(k - 1))
            } else {
                prev
            }
        }
    }

    /// One death line for each dying entity among the first `k` slots, in slot order.
    pub open spec fn death_lines(self, k: nat) -> Seq<Seq<char>>
        decreases k,
    {
        if k == 0 {
            Seq::empty()
        } else {
            let prev = self.death_lines((k - 1) as nat);
            if self.dying(k - 1) {
                prev.push(death_text(self, self.entity(k - 1)))
            } else {
                prev
            }
        }
    }
}

/// What the death pass adds over the first `k` slots: the dying entities to the deletion
/// schedule, and their death lines to the log, in slot order.
pub proof fn lemma_deaths_upto(w: WorldView, k: nat)
    requires
        k <= w.slots.len(),
    ensures
        w.deaths_upto(k).to_delete == w.to_delete + w.dying_entities(k),
        w.deaths_upto(k).log == w.log.pushed_all(w.death_lines(k)),
    decreases k,
{
    if k == 0 {
        assert(w.to_delete + Seq::<Entity>::empty() =~= w.to_delete);
    } else {
        let j = k - 1;
        lemma_deaths_upto(w, j as nat);
        lemma_deaths_keep_rows(w, j as nat);
        let prev = w.deaths_upto(j as nat);
        assert(prev.entity(j) == w.entity(j));
        assert(death_text(prev, w.entity(j)) == death_text(w, w.entity(j)));
        if w.dying(j) {
            let d = w.dying_entities(j as nat);
            assert(w.to_delete + d.push(w.entity(j)) =~= (w.to_delete + d).push(w.entity(j)));
            let lines = w.death_lines(j as nat).push(death_text(w, w.entity(j)));
            assert(lines.drop_last() =~= w.death_lines(j as nat));
        }
    }
}

proof fn lemma_dying_listed(w: WorldView, k: nat, i: int)
    requires
        0 <= i < k <= w.slots.len(),
        w.dying(i),
    ensures
        w.dying_entities(k).contains(w.entity(i)),
    decreases k,
{
    let j = k - 1;
    if i < j {
        lemma_dying_listed(w, j as nat, i);
        let prev = w.dying_entities(j as nat);
        let t = choose|t: int| 0 <= t < prev.len() && prev[t] == w.entity(i);
        if w.dying(j) {
            assert(prev.push(w.entity(j))[t] == w.entity(i));
        }
    } else {
        let prev = w.dying_entities(j as nat);
        assert(prev.push(w.entity(j))[prev.len() as int] == w.entity(i));
    }
}

/// An entity whose `hp` has dropped to zero or below is gone once the death pass and the
/// synchronization point after it have run: its handle no longer refers to a living
/// entity and it has no components. The death pass logs exactly one death line per such
/// entity, named as before the deletion, in slot order.
pub proof fn lemma_dead_entity_removed(w: WorldView, i: int)
    requires
        w.wf(),
        0 <= i < w.slots.len(),
        w.dying(i),
    ensures
        !w.reaped().maintained().live(w.entity(i)),
        w.reaped().maintained().components_of(w.entity(i)) is None,
        w.reaped().log == w.log.pushed_all(w.death_lines(w.slots.len())),
{
    let n = w.slots.len();
    lemma_deaths_upto(w, n);
    lemma_deaths_keep_rows(w, n);
    lemma_dying_listed(w, n, i);
    let r = w.reaped();
    let d = w.dying_entities(n);
    let t = choose|t: int| 0 <= t < d.len() && d[t] == w.entity(i);
    assert(r.to_delete[w.to_delete.len() + t] == r.entity(i));
    assert(r.doomed(i));
}

} // verus!
