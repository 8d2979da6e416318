//! The component store: an arena of entities, each with a row of components, plus the
//! resources shared by all systems (the map, the log, the loop state, the player).

use vstd::prelude::*;

use crate::ai::PlayerAction;
use crate::components::{no_components, Components, Name};
use crate::engine::{Action, LoopState, PlayerId};
use crate::event_log::{label, EventLog, EventLogView, LOG_CAPACITY};
use crate::geometry::Point;
use crate::map::{TileMap, TileMapView};

verus! {

/// A handle to an entity: its slot in the arena and the generation of that slot when
/// the entity was created. A handle whose generation no longer matches is stale.
#[derive(Clone, Copy, Debug, PartialEq, Eq, Structural, Hash)]
pub struct Entity {
    pub index: usize,
    pub generation: u32,
}

/// One slot of the arena.
#[derive(Clone, Copy, Debug)]
pub struct Slot {
    pub generation: u32,
    pub alive: bool,
    pub components: Components,
}

/// The slot after its entity is destroyed: no components, and a new generation so that
/// old handles no longer match (a slot whose generation is exhausted keeps it).
pub open spec fn killed(s: Slot) -> Slot {
    Slot {
        generation: if s.generation < u32::MAX {
            (s.generation + 1) as u32
        } else {
            s.generation
        },
        alive: false,
        components: no_components(),
    }
}

pub struct World {
    pub slots: Vec<Slot>,
    /// The `Name` of each slot's entity; kept apart from the rows since it owns a string.
    pub names: Vec<Option<Name>>,
    /// Entities to destroy at the next synchronization point.
    pub to_delete: Vec<Entity>,
    pub map: TileMap,
    pub log: EventLog,
    pub loop_state: LoopState,
    pub player: Option<PlayerId>,
    pub player_action: Option<PlayerAction>,
}

/// The mathematical model of a `World`.
pub struct WorldView {
    pub slots: Seq<Slot>,
    pub names: Seq<Option<Seq<char>>>,
    pub to_delete: Seq<Entity>,
    pub map: TileMapView,
    pub log: EventLogView,
    pub loop_state: LoopState,
    pub player: Option<Entity>,
    pub player_action: Option<Action>,
}

impl View for World {
    type V = WorldView;

    open spec fn view(&self) -> WorldView {
        WorldView {
            slots: self.slots@,
            names: self.names@.map_values(
                |n: Option<Name>|
                    match n {
                        Some(n) => Some(n.name@),
                        None => None,
                    },
            ),
            to_delete: self.to_delete@,
            map: self.map@,
            log: self.log@,
            loop_state: self.loop_state,
            player: match self.player {
                Some(p) => Some(p.0),
                None => None,
            },
            player_action: match self.player_action {
                Some(a) => Some(a.0),
                None => None,
            },
        }
    }
}

impl WorldView {
    /// The handle of the entity currently in slot `i`.
    pub open spec fn entity(self, i: int) -> Entity {
        Entity { index: i as usize, generation: self.slots[i].generation }
    }

    /// The handle refers to a living entity.
    pub open spec fn live(self, e: Entity) -> bool {
        &&& e.index < self.slots.len()
        &&& self.slots[e.index as int].alive
        &&& self.slots[e.index as int].generation == e.generation
    }

    pub open spec fn components_of(self, e: Entity) -> Option<Components> {
        if self.live(e) {
            Some(self.slots[e.index as int].components)
        } else {
            None
        }
    }

    pub open spec fn position_of(self, e: Entity) -> Option<Point> {
        if self.live(e) {
            match self.slots[e.index as int].components.position {
                Some(p) => Some(p.0),
                None => None,
            }
        } else {
            None
        }
    }

    pub open spec fn name_of(self, e: Entity) -> Option<Seq<char>> {
        if self.live(e) {
            self.names[e.index as int]
        } else {
            None
        }
    }

    /// What the invariant asks of slot `i`: a living entity stands on the map and has a
    /// well-formed initiative; a dead slot holds nothing.
    pub open spec fn slot_ok(self, i: int) -> bool {
        let s = self.slots[i];
        if s.alive {
            &&& (s.components.position matches Some(p) ==> self.map.in_bounds(
                p.0.x as int,
                p.0.y as int,
            ))
            &&& (s.components.initiative matches Some(ini) ==> ini.wf())
        } else {
            s.components == no_components() && self.names[i] is None
        }
    }

    pub open spec fn wf(self) -> bool {
        &&& self.names.len() == self.slots.len()
        &&& self.map.wf()
        &&& self.log.wf()
        &&& forall|i: int| 0 <= i < self.slots.len() ==> #[trigger] self.slot_ok(i)
    }

    /// Slot `i` holds a living entity that is scheduled for deletion.
    pub open spec fn doomed(self, i: int) -> bool {
        &&& self.slots[i].alive
        &&& exists|j: int| 0 <= j < self.to_delete.len() && self.to_delete[j] == self.entity(i)
    }

    /// The world after the synchronization point: scheduled entities are destroyed and
    /// the schedule is emptied.
    pub open spec fn maintained(self) -> WorldView {
        WorldView {
            slots: Seq::new(
                self.slots.len(),
                |i: int|
                    if self.doomed(i) {
                        killed(self.slots[i])
                    } else {
                        self.slots[i]
                    },
            ),
            names: Seq::new(
                self.names.len(),
                |i: int|
                    if self.doomed(i) {
                        None
                    } else {
                        self.names[i]
                    },
            ),
            to_delete: Seq::empty(),
            ..self
        }
    }

    /// The components that a new entity may start with.
    pub open spec fn admissible(self, c: Components) -> bool {
        &&& (c.position matches Some(p) ==> self.map.in_bounds(p.0.x as int, p.0.y as int))
        &&& (c.initiative matches Some(ini) ==> ini.wf())
    }
}

/// The invariant depends on the rows, the names, the map and the log alone.
pub proof fn lemma_wf_frame(a: WorldView, b: WorldView)
    requires
        a.wf(),
        a.slots == b.slots,
        a.names == b.names,
        a.map == b.map,
        a.log == b.log,
    ensures
        b.wf(),
{
    assert forall|i: int| 0 <= i < b.slots.len() implies #[trigger] b.slot_ok(i) by {
        assert(a.slot_ok(i));
    }
}

impl World {
    /// An empty world on the given map, looping, with no player yet.
    pub fn new(map: TileMap) -> (r: World)
        requires
            map@.wf(),
        ensures
            r@.wf(),
            r@.slots.len() == 0,
            r@.to_delete.len() == 0,
            r@.map == map@,
            r@.log.events.len() == 0,
            r@.log.capacity == LOG_CAPACITY,
            r@.loop_state == LoopState::Looping,
            r@.player is None,
            r@.player_action is None,
    {
        let r = World {
            slots: Vec::new(),
            names: Vec::new(),
            to_delete: Vec::new(),
            map,
            log: EventLog::new(),
            loop_state: LoopState::Looping,
            player: None,
            player_action: None,
        };
        assert(r@.names =~= Seq::<Option<Seq<char>>>::empty());
        r
    }

    /// Creates an entity with the given name and components. Returns `None`, and changes
    /// nothing, when the components are not admissible (a position off the map, an
    /// initiative that is not positive) or the arena is full.
    pub fn create_entity(&mut self, name: Option<Name>, components: Components) -> (r: Option<
        Entity,
    >)
        requires
            old(self)@.wf(),
        ensures
            final(self)@.wf(),
            ({
                let w = old(self)@;
                let n = w.slots.len();
                match r {
                    Some(e) => {
                        &&& w.admissible(components)
                        &&& n < usize::MAX
                        &&& e == Entity { index: n as usize, generation: 0 }
                        &&& final(self)@ == (WorldView {
                            slots: w.slots.push(
                                Slot { generation: 0, alive: true, components: components },
                            ),
                            names: w.names.push(
                                match name {
                                    Some(nm) => Some(nm.name@),
                                    None => None,
                                },
                            ),
                            ..w
                        })
                    },
                    None => {
                        &&& (!w.admissible(components) || n == usize::MAX)
                        &&& final(self)@ == w
                    },
                }
            }),
    {
        let n = self.slots.len();
        if n == usize::MAX {
            return None;
        }
        if let Some(p) = components.position {
            if !self.map.contains(p.0.x as i64, p.0.y as i64) {
                return None;
            }
        }
        if let Some(ini) = components.initiative {
            if !(ini.initial > 0 && ini.current > i32::MIN) {
                return None;
            }
        }
        self.slots.push(Slot { generation: 0, alive: true, components });
        self.names.push(name);
        let e = Entity { index: n, generation: 0 };
        proof {
            let w = old(self)@;
            assert(self@.names =~= w.names.push(
                match name {
                    Some(nm) => Some(nm.name@),
                    None => None,
                },
            ));
            assert forall|i: int| 0 <= i < self@.slots.len() implies #[trigger] self@.slot_ok(
                i,
            ) by {
                if i < n {
                    assert(w.slot_ok(i));
                }
            }
        }
        Some(e)
    }

    /// Whether the handle refers to a living entity.
    pub fn is_alive(&self, e: Entity) -> (r: bool)
        ensures
            r == self@.live(e),
    {
        e.index < self.slots.len() && self.slots[e.index].alive && self.slots[e.index].generation
            == e.generation
    }

    /// The handle of the entity in slot `i`.
    pub fn entity_at(&self, i: usize) -> (r: Entity)
        requires
            i < self@.slots.len(),
        ensures
            r == self@.entity(i as int),
    {
        Entity { index: i, generation: self.slots[i].generation }
    }

    /// The components of a living entity.
    pub fn components(&self, e: Entity) -> (r: Option<Components>)
        ensures
            r == self@.components_of(e),
    {
        if self.is_alive(e) {
            Some(self.slots[e.index].components)
        } else {
            None
        }
    }

    /// The position of a living entity that has one.
    pub fn position(&self, e: Entity) -> (r: Option<Point>)
        ensures
            r == self@.position_of(e),
    {
        if self.is_alive(e) {
            match self.slots[e.index].components.position {
                Some(p) => Some(p.0),
                None => None,
            }
        } else {
            None
        }
    }

    /// The name of a living entity that has one.
    pub fn name(&self, e: Entity) -> (r: Option<String>)
        requires
            self@.wf(),
        ensures
            match r {
                Some(s) => self@.name_of(e) == Some(s@),
                None => self@.name_of(e) is None,
            },
    {
        if self.is_alive(e) {
            match &self.names[e.index] {
                Some(n) => Some(n.name.clone()),
                None => None,
            }
        } else {
            None
        }
    }

    /// How the entity is called in the log: its name, or a stand-in without one.
    pub fn label(&self, e: Entity) -> (r: String)
        requires
            self@.wf(),
        ensures
            r@ == label(self@, e),
    {
        match self.name(e) {
            Some(n) => n,
            None => {
                proof {
                    reveal_strlit("an unnamed bug");
                }
                "an unnamed bug".to_owned()
            },
        }
    }

    /// Schedules an entity for destruction at the next synchronization point. Until then
    /// it stays in the world.
    pub fn delete(&mut self, e: Entity)
        requires
            old(self)@.wf(),
        ensures
            final(self)@ == (WorldView { to_delete: old(self)@.to_delete.push(e), ..old(self)@ }),
            final(self)@.wf(),
    {
        self.to_delete.push(e);
        proof {
            assert forall|i: int| 0 <= i < self@.slots.len() implies #[trigger] self@.slot_ok(
                i,
            ) by {
                assert(old(self)@.slot_ok(i));
            }
        }
    }

    /// The synchronization point: destroys every entity scheduled for deletion that is
    /// still alive, and empties the schedule.
    pub fn maintain(&mut self)
        requires
            old(self)@.wf(),
        ensures
            final(self)@ == old(self)@.maintained(),
            final(self)@.wf(),
    {
        let ghost w = self@;
        let n = self.slots.len();
        let m = self.to_delete.len();
        let mut j: usize = 0;
        while j < m
            invariant
                w.wf(),
                n == w.slots.len(),
                m == w.to_delete.len(),
                j <= m,
                self@ == (WorldView { slots: self@.slots, names: self@.names, ..w }),
                self@.slots.len() == n,
                self@.names.len() == n,
                forall|i: int|
                    #![trigger self@.slots[i]]
                    #![trigger self@.names[i]]
                    0 <= i < n ==> {
                        let d = w.slots[i].alive && exists|k: int|
                            0 <= k < j && w.to_delete[k] == w.entity(i);
                        &&& self@.slots[i] == (if d {
                            killed(w.slots[i])
                        } else {
                            w.slots[i]
                        })
                        &&& self@.names[i] == (if d {
                            None
                        } else {
                            w.names[i]
                        })
                    },
            decreases m - j,
        {
            let e = self.to_delete[j];
            if self.is_alive(e) {
                let old_slot = self.slots[e.index];
                let generation = if old_slot.generation < u32::MAX {
                    old_slot.generation + 1
                } else {
                    old_slot.generation
                };
                self.slots.set(
                    e.index,
                    Slot { generation, alive: false, components: Components::none() },
                );
                self.names.set(e.index, None);
                proof {
                    assert(w.to_delete[j as int] == w.entity(e.index as int));
                }
            }
            proof {
                assert forall|i: int|
                    #![trigger self@.slots[i]]
                    #![trigger self@.names[i]]
                    0 <= i < n implies {
                    let d = w.slots[i].alive && exists|k: int|
                        0 <= k < j + 1 && w.to_delete[k] == w.entity(i);
                    &&& self@.slots[i] == (if d {
                        killed(w.slots[i])
                    } else {
                        w.slots[i]
                    })
                    &&& self@.names[i] == (if d {
                        None
                    } else {
                        w.names[i]
                    })
                } by {
                    let d0 = w.slots[i].alive && exists|k: int|
                        0 <= k < j && w.to_delete[k] == w.entity(i);
                    if w.to_delete[j as int] == w.entity(i) && w.slots[i].alive {
                        assert(exists|k: int| 0 <= k < j + 1 && w.to_delete[k] == w.entity(i));
                    }
                    if d0 {
                        let k0 = choose|k: int| 0 <= k < j && w.to_delete[k] == w.entity(i);
                        assert(0 <= k0 < j + 1 && w.to_delete[k0] == w.entity(i));
                    }
                }
            }
            j = j + 1;
        }
        self.to_delete.clear();
        proof {
            let t = w.maintained();
            assert(self@.slots =~= t.slots);
            assert(self@.names =~= t.names);
            assert forall|i: int| 0 <= i < n implies #[trigger] self@.slot_ok(i) by {
                assert(w.slot_ok(i));
            }
        }
    }
}

} // verus!
