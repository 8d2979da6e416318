//! The tile grid, plus the per-cell occupancy index that is rebuilt every tick.

use vstd::prelude::*;

use crate::geometry::Point;
use crate::world::Entity;

verus! {

#[derive(Clone, Copy, Debug, PartialEq, Eq, Structural)]
pub enum TileType {
    Floor,
    Wall,
}

impl TileType {
    pub open spec fn solid(self) -> bool {
        self is Wall
    }

    /// Whether the tile should be considered solid for pathfinding purposes.
    pub fn is_solid(&self) -> (r: bool)
        ensures
            r == self.solid(),
    {
        match self {
            TileType::Floor => false,
            TileType::Wall => true,
        }
    }
}

/// The map. All per-cell vectors are stored in row-major order: cell 0 is the top-left
/// corner and cell 1 lies to its right.
pub struct TileMap {
    pub width: i32,
    pub height: i32,
    /// The tile at each cell.
    pub tiles: Vec<TileType>,
    /// All entities located at each cell.
    pub entities: Vec<Vec<Entity>>,
    /// For each cell with a blocking entity on it, that entity.
    pub blockers: Vec<Option<Entity>>,
}

/// The mathematical model of a `TileMap`.
pub struct TileMapView {
    pub width: int,
    pub height: int,
    pub tiles: Seq<TileType>,
    pub entities: Seq<Seq<Entity>>,
    pub blockers: Seq<Option<Entity>>,
}

impl TileMapView {
    pub open spec fn cells(self) -> int {
        self.width * self.height
    }

    pub open spec fn wf(self) -> bool {
        &&& self.width >= 0
        &&& self.height >= 0
        &&& self.width * self.height <= i32::MAX
        &&& self.tiles.len() == self.cells()
        &&& self.entities.len() == self.cells()
        &&& self.blockers.len() == self.cells()
    }

    pub open spec fn in_bounds(self, x: int, y: int) -> bool {
        0 <= x < self.width && 0 <= y < self.height
    }

    /// The row-major index of a cell.
    pub open spec fn index_of(self, x: int, y: int) -> int {
        self.width * y + x
    }

    /// Movement onto the cell is blocked by its tile or by an entity on it.
    pub open spec fn blocked(self, x: int, y: int) -> bool {
        let i = self.index_of(x, y);
        self.tiles[i].solid() || self.blockers[i] is Some
    }

    /// The same map with the occupancy index emptied.
    pub open spec fn cleared(self) -> TileMapView {
        TileMapView {
            entities: Seq::new(self.cells() as nat, |i: int| Seq::<Entity>::empty()),
            blockers: Seq::new(self.cells() as nat, |i: int| None::<Entity>),
            ..self
        }
    }

    /// The map after recording `e` at cell (x, y), as a blocker if `blocks`.
    pub open spec fn with_entity(self, x: int, y: int, e: Entity, blocks: bool) -> TileMapView {
        let i = self.index_of(x, y);
        TileMapView {
            entities: self.entities.update(i, self.entities[i].push(e)),
            blockers: if blocks {
                self.blockers.update(i, Some(e))
            } else {
                self.blockers
            },
            ..self
        }
    }
}

/// A cell inside a map has an index inside the cell vectors.
pub proof fn lemma_index_in_range(m: TileMapView, x: int, y: int)
    requires
        m.width >= 0,
        m.height >= 0,
        m.in_bounds(x, y),
    ensures
        0 <= m.index_of(x, y) < m.cells(),
{
    assert(0 <= m.width * y + x < m.width * m.height) by (nonlinear_arith)
        requires
            0 <= x < m.width,
            0 <= y < m.height,
    ;
}

impl View for TileMap {
    type V = TileMapView;

    open spec fn view(&self) -> TileMapView {
        TileMapView {
            width: self.width as int,
            height: self.height as int,
            tiles: self.tiles@,
            entities: self.entities@.map_values(|v: Vec<Entity>| v@),
            blockers: self.blockers@,
        }
    }
}

impl TileMap {
    /// A map of the given size where every cell is floor and holds no entity.
    pub fn new(width: i32, height: i32) -> (r: TileMap)
        requires
            width >= 0,
            height >= 0,
            width * height <= i32::MAX,
        ensures
            r@.wf(),
            r@.width == width,
            r@.height == height,
            forall|i: int| 0 <= i < r@.cells() ==> r@.tiles[i] == TileType::Floor,
            r@ == r@.cleared(),
    {
        let n: usize = (width * height) as usize;
        let mut tiles: Vec<TileType> = Vec::new();
        let mut entities: Vec<Vec<Entity>> = Vec::new();
        let mut blockers: Vec<Option<Entity>> = Vec::new();
        let mut i: usize = 0;
        while i < n
            invariant
                i <= n,
                tiles@.len() == i,
                entities@.len() == i,
                blockers@.len() == i,
                forall|j: int| 0 <= j < i ==> tiles@[j] == TileType::Floor,
                forall|j: int| 0 <= j < i ==> (#[trigger] entities@[j])@ == Seq::<Entity>::empty(),
                forall|j: int| 0 <= j < i ==> blockers@[j] is None,
            decreases n - i,
        {
            tiles.push(TileType::Floor);
            entities.push(Vec::new());
            blockers.push(None);
            i = i + 1;
        }
        let r = TileMap { width, height, tiles, entities, blockers };
        assert(r@.entities =~= r@.cleared().entities);
        assert(r@.blockers =~= r@.cleared().blockers);
        r
    }

    /// The number of cells.
    pub fn size(&self) -> (r: usize)
        requires
            self@.wf(),
        ensures
            r == self@.cells(),
    {
        (self.width * self.height) as usize
    }

    /// The row-major index of an in-bounds cell.
    pub fn idx(&self, point: Point) -> (r: usize)
        requires
            self@.wf(),
            self@.in_bounds(point.x as int, point.y as int),
        ensures
            r == self@.index_of(point.x as int, point.y as int),
            r < self@.cells(),
    {
        proof {
            lemma_index_in_range(self@, point.x as int, point.y as int);
        }
        (self.width * point.y + point.x) as usize
    }

    /// Whether the point lies on the map.
    pub fn contains(&self, x: i64, y: i64) -> (r: bool)
        ensures
            r == self@.in_bounds(x as int, y as int),
    {
        0 <= x && x < self.width as i64 && 0 <= y && y < self.height as i64
    }

    /// Replaces the tile at an in-bounds cell.
    pub fn set_tile(&mut self, point: Point, tile: TileType)
        requires
            old(self)@.wf(),
            old(self)@.in_bounds(point.x as int, point.y as int),
        ensures
            final(self)@ == (TileMapView {
                tiles: old(self)@.tiles.update(
                    old(self)@.index_of(point.x as int, point.y as int),
                    tile,
                ),
                ..old(self)@
            }),
    {
        let i = self.idx(point);
        self.tiles.set(i, tile);
    }

    /// Clears out all entities, including the cached blocking information. The tiles
    /// themselves are kept.
    pub fn clear_entities(&mut self)
        requires
            old(self)@.wf(),
        ensures
            final(self)@ == old(self)@.cleared(),
            final(self)@.wf(),
    {
        let n = self.size();
        let mut blockers: Vec<Option<Entity>> = Vec::new();
        let mut entities: Vec<Vec<Entity>> = Vec::new();
        let mut i: usize = 0;
        while i < n
            invariant
                i <= n,
                entities@.len() == i,
                blockers@.len() == i,
                forall|j: int| 0 <= j < i ==> (#[trigger] entities@[j])@ == Seq::<Entity>::empty(),
                forall|j: int| 0 <= j < i ==> blockers@[j] is None,
            decreases n - i,
        {
            entities.push(Vec::new());
            blockers.push(None);
            i = i + 1;
        }
        self.blockers = blockers;
        self.entities = entities;
        assert(self@.entities =~= old(self)@.cleared().entities);
        assert(self@.blockers =~= old(self)@.cleared().blockers);
    }

    /// Records `entity` at an in-bounds cell, as that cell's blocker if `blocks`.
    pub fn add_entity(&mut self, point: Point, entity: Entity, blocks: bool)
        requires
            old(self)@.wf(),
            old(self)@.in_bounds(point.x as int, point.y as int),
        ensures
            final(self)@ == old(self)@.with_entity(point.x as int, point.y as int, entity, blocks),
            final(self)@.wf(),
    {
        let idx = self.idx(point);
        if blocks {
            self.blockers.set(idx, Some(entity));
        }
        let mut here: Vec<Entity> = Vec::new();
        self.entities.set_and_swap(idx, &mut here);
        here.push(entity);
        self.entities.set(idx, here);
        assert(self@.entities =~= old(self)@.with_entity(
            point.x as int,
            point.y as int,
            entity,
            blocks,
        ).entities);
    }

    /// Is movement onto this in-bounds cell blocked?
    pub fn is_blocked(&self, point: Point) -> (r: bool)
        requires
            self@.wf(),
            self@.in_bounds(point.x as int, point.y as int),
        ensures
            r == self@.blocked(point.x as int, point.y as int),
    {
        let idx = self.idx(point);
        self.tiles[idx].is_solid() || self.blockers[idx].is_some()
    }

    /// The entity that blocks movement onto this in-bounds cell, if any. This can be
    /// `None` while `is_blocked` holds, where the tile itself is solid.
    pub fn blockers(&self, point: Point) -> (r: Option<Entity>)
        requires
            self@.wf(),
            self@.in_bounds(point.x as int, point.y as int),
        ensures
            r == self@.blockers[self@.index_of(point.x as int, point.y as int)],
    {
        let idx = self.idx(point);
        self.blockers[idx]
    }
}

} // verus!
