//! The hexagonal grid: which tiles exist, which are occupied, and which tiles
//! lie next to which.
//!
//! Tiles are addressed by axial coordinates. A map of a given width and
//! height holds the tiles whose `x` is below the width and whose `y` is below
//! the height.

use crate::table::{table_contents, Key, Table};
use vstd::prelude::*;

verus! {

/// The position of a tile on the grid.
#[derive(Clone, Copy, Debug, PartialEq, Eq, Hash, Structural)]
pub struct TilePos {
    /// The first axial coordinate.
    pub x: u32,
    /// The second axial coordinate.
    pub y: u32,
}

/// The number of directions in which a hexagonal tile has a neighbor.
pub const DIRECTIONS: u8 = 6;

/// The change of `x` when stepping in `direction`. Directions are numbered
/// counter-clockwise, starting in the east.
pub open spec fn offset_x(direction: int) -> int {
    if direction == 0 || direction == 5 {
        1
    } else if direction == 1 || direction == 4 {
        0
    } else {
        -1
    }
}

/// The change of `y` when stepping in `direction`.
pub open spec fn offset_y(direction: int) -> int {
    if direction == 1 || direction == 2 {
        1
    } else if direction == 0 || direction == 3 {
        0
    } else {
        -1
    }
}

impl TilePos {
    /// The key under which tables store this position.
    pub open spec fn spec_key(self) -> Key {
        (self.x as u64, self.y as u64)
    }

    /// Whether `key` is the key of some position.
    pub open spec fn is_key(key: Key) -> bool {
        key.0 <= u32::MAX && key.1 <= u32::MAX
    }

    /// The position that `key` stands for.
    pub open spec fn spec_from_key(key: Key) -> TilePos {
        TilePos { x: key.0 as u32, y: key.1 as u32 }
    }

    /// The key under which tables store this position.
    pub fn key(self) -> (key: Key)
        ensures
            key == self.spec_key(),
            TilePos::is_key(key),
            TilePos::spec_from_key(key) == self,
    {
        (self.x as u64, self.y as u64)
    }

    /// The position that `key` stands for, if it stands for one.
    pub fn from_key(key: Key) -> (pos: Option<TilePos>)
        ensures
            pos is Some <==> TilePos::is_key(key),
            pos matches Some(p) ==> p == TilePos::spec_from_key(key) && p.spec_key() == key,
    {
        if key.0 <= u32::MAX as u64 && key.1 <= u32::MAX as u64 {
            Some(TilePos { x: key.0 as u32, y: key.1 as u32 })
        } else {
            None
        }
    }

    /// The tiles of the map that lie next to this one, counter-clockwise from
    /// the east.
    pub fn neighbors(&self, map_geometry: &MapGeometry) -> (tiles: Vec<TilePos>)
        ensures
            tiles@ == map_geometry.neighbors_of(*self),
    {
        let mut tiles: Vec<TilePos> = Vec::new();
        let mut direction: u8 = 0;
        while direction < DIRECTIONS
            invariant
                direction <= DIRECTIONS,
                tiles@ == map_geometry.neighbors_upto(*self, direction as int),
            decreases DIRECTIONS - direction,
        {
            if let Some(tile) = map_geometry.neighbor(*self, direction) {
                tiles.push(tile);
            }
            direction += 1;
        }
        tiles
    }

    /// The tiles of the map that lie next to this one and are not occupied,
    /// counter-clockwise from the east.
    pub fn empty_neighbors(&self, map_geometry: &MapGeometry) -> (tiles: Vec<TilePos>)
        ensures
            tiles@ == map_geometry.empty_neighbors_of(*self),
    {
        let mut tiles: Vec<TilePos> = Vec::new();
        let mut direction: u8 = 0;
        while direction < DIRECTIONS
            invariant
                direction <= DIRECTIONS,
                tiles@ == map_geometry.empty_neighbors_upto(*self, direction as int),
            decreases DIRECTIONS - direction,
        {
            if let Some(tile) = map_geometry.neighbor(*self, direction) {
                if !map_geometry.is_occupied(tile) {
                    tiles.push(tile);
                }
            }
            direction += 1;
        }
        tiles
    }
}

/// The extent of the map and the tiles on it that are occupied.
#[derive(Debug)]
pub struct MapGeometry {
    width: u32,
    height: u32,
    occupied: Table,
}

impl MapGeometry {
    /// The number of columns of the map.
    pub closed spec fn spec_width(&self) -> nat {
        self.width as nat
    }

    /// The number of rows of the map.
    pub closed spec fn spec_height(&self) -> nat {
        self.height as nat
    }

    /// Whether something stands on `pos`.
    pub closed spec fn occupied(&self, pos: TilePos) -> bool {
        table_contents(self.occupied).contains_key(pos.spec_key()) && table_contents(
            self.occupied,
        )[pos.spec_key()] != 0
    }

    /// Whether `pos` is a tile of the map.
    pub open spec fn on_map(&self, pos: TilePos) -> bool {
        pos.x < self.spec_width() && pos.y < self.spec_height()
    }

    /// Whether `pos` is a tile of the map on which nothing stands.
    pub open spec fn is_empty(&self, pos: TilePos) -> bool {
        self.on_map(pos) && !self.occupied(pos)
    }

    /// The tile next to `pos` in `direction`, if both are tiles of the map.
    pub open spec fn spec_neighbor(&self, pos: TilePos, direction: int) -> Option<TilePos> {
        let x = pos.x + offset_x(direction);
        let y = pos.y + offset_y(direction);
        if 0 <= direction < 6 && self.on_map(pos) && 0 <= x < self.spec_width() && 0 <= y
            < self.spec_height() {
            Some(TilePos { x: x as u32, y: y as u32 })
        } else {
            None
        }
    }

    /// The neighbors of `pos` in the directions below `direction`, in order.
    pub open spec fn neighbors_upto(&self, pos: TilePos, direction: int) -> Seq<TilePos>
        decreases direction,
    {
        if direction <= 0 {
            Seq::empty()
        } else {
            let before = self.neighbors_upto(pos, direction - 1);
            match self.spec_neighbor(pos, direction - 1) {
                Some(tile) => before.push(tile),
                None => before,
            }
        }
    }

    /// The neighbors of `pos`, counter-clockwise from the east.
    pub open spec fn neighbors_of(&self, pos: TilePos) -> Seq<TilePos> {
        self.neighbors_upto(pos, 6)
    }

    /// The unoccupied neighbors of `pos` in the directions below `direction`,
    /// in order.
    pub open spec fn empty_neighbors_upto(&self, pos: TilePos, direction: int) -> Seq<TilePos>
        decreases direction,
    {
        if direction <= 0 {
            Seq::empty()
        } else {
            let before = self.empty_neighbors_upto(pos, direction - 1);
            match self.spec_neighbor(pos, direction - 1) {
                Some(tile) => if self.occupied(tile) {
                    before
                } else {
                    before.push(tile)
                },
                None => before,
            }
        }
    }

    /// The unoccupied neighbors of `pos`, counter-clockwise from the east.
    pub open spec fn empty_neighbors_of(&self, pos: TilePos) -> Seq<TilePos> {
        self.empty_neighbors_upto(pos, 6)
    }

    /// A map of the given extent on which nothing stands.
    pub fn new(width: u32, height: u32) -> (map_geometry: MapGeometry)
        ensures
            map_geometry.spec_width() == width,
            map_geometry.spec_height() == height,
            forall|pos: TilePos| !map_geometry.occupied(pos),
    {
        MapGeometry { width, height, occupied: Table::new() }
    }

    /// The number of columns of the map.
    pub fn width(&self) -> (width: u32)
        ensures
            width == self.spec_width(),
    {
        self.width
    }

    /// The number of rows of the map.
    pub fn height(&self) -> (height: u32)
        ensures
            height == self.spec_height(),
    {
        self.height
    }

    /// Whether `pos` is a tile of the map.
    pub fn is_valid(&self, pos: TilePos) -> (valid: bool)
        ensures
            valid == self.on_map(pos),
    {
        pos.x < self.width && pos.y < self.height
    }

    /// Whether something stands on `pos`.
    pub fn is_occupied(&self, pos: TilePos) -> (occupied: bool)
        ensures
            occupied == self.occupied(pos),
    {
        match self.occupied.get(pos.key()) {
            Some(count) => count != 0,
            None => false,
        }
    }

    /// Records that something stands on `pos`.
    pub fn occupy(&mut self, pos: TilePos)
        ensures
            final(self).spec_width() == old(self).spec_width(),
            final(self).spec_height() == old(self).spec_height(),
            forall|other: TilePos|
                final(self).occupied(other) == (other == pos || old(self).occupied(other)),
    {
        self.occupied.insert(pos.key(), 1);
    }

    /// Records that nothing stands on `pos`.
    pub fn vacate(&mut self, pos: TilePos)
        ensures
            final(self).spec_width() == old(self).spec_width(),
            final(self).spec_height() == old(self).spec_height(),
            forall|other: TilePos|
                final(self).occupied(other) == (other != pos && old(self).occupied(other)),
    {
        self.occupied.insert(pos.key(), 0);
    }

    /// The tile next to `pos` in `direction`, if both are tiles of the map.
    pub fn neighbor(&self, pos: TilePos, direction: u8) -> (tile: Option<TilePos>)
        ensures
            tile == self.spec_neighbor(pos, direction as int),
    {
        if direction >= DIRECTIONS || !self.is_valid(pos) {
            return None;
        }
        let step_x: i64 = if direction == 0 || direction == 5 {
            1
        } else if direction == 1 || direction == 4 {
            0
        } else {
            -1
        };
        let step_y: i64 = if direction == 1 || direction == 2 {
            1
        } else if direction == 0 || direction == 3 {
            0
        } else {
            -1
        };
        let x: i64 = pos.x as i64 + step_x;
        let y: i64 = pos.y as i64 + step_y;
        if 0 <= x && x < self.width as i64 && 0 <= y && y < self.height as i64 {
            Some(TilePos { x: x as u32, y: y as u32 })
        } else {
            None
        }
    }

    /// Whether `tile` lies next to `pos` in one of the directions below
    /// `direction`.
    pub open spec fn adjacent_upto(&self, pos: TilePos, tile: TilePos, direction: int) -> bool {
        exists|d: int| 0 <= d < direction && #[trigger] self.spec_neighbor(pos, d) == Some(tile)
    }

    /// Whether `tile` lies next to `pos`, both being tiles of the map.
    pub open spec fn adjacent(&self, pos: TilePos, tile: TilePos) -> bool {
        self.adjacent_upto(pos, tile, 6)
    }

    /// Stepping in two different directions leads to two different tiles.
    pub proof fn lemma_directions_differ(&self, pos: TilePos, first: int, second: int)
        ensures
            self.spec_neighbor(pos, first) is Some && self.spec_neighbor(pos, first)
                == self.spec_neighbor(pos, second) ==> first == second,
    {
    }

    /// Stepping back from a neighbor, in the opposite direction, leads to the
    /// tile one came from.
    pub proof fn lemma_step_back(&self, pos: TilePos, tile: TilePos, direction: int)
        requires
            self.spec_neighbor(pos, direction) == Some(tile),
        ensures
            self.spec_neighbor(tile, (direction + 3) % 6) == Some(pos),
    {
    }

    /// Lying next to each other is mutual.
    pub proof fn lemma_adjacent_is_mutual(&self, pos: TilePos, tile: TilePos)
        ensures
            self.adjacent(pos, tile) == self.adjacent(tile, pos),
    {
        if self.adjacent(pos, tile) {
            let d = choose|d: int| 0 <= d < 6 && #[trigger] self.spec_neighbor(pos, d) == Some(tile);
            self.lemma_step_back(pos, tile, d);
        }
        if self.adjacent(tile, pos) {
            let d = choose|d: int| 0 <= d < 6 && #[trigger] self.spec_neighbor(tile, d) == Some(pos);
            self.lemma_step_back(tile, pos, d);
        }
    }

    /// The list of neighbors holds exactly the adjacent tiles, each once.
    pub proof fn lemma_neighbors_upto(&self, pos: TilePos, direction: int)
        requires
            0 <= direction <= 6,
        ensures
            self.neighbors_upto(pos, direction).len() <= direction,
            self.neighbors_upto(pos, direction).no_duplicates(),
            forall|tile: TilePos|
                #![trigger self.neighbors_upto(pos, direction).contains(tile)]
                #![trigger self.adjacent_upto(pos, tile, direction)]
                self.neighbors_upto(pos, direction).contains(tile) <==> self.adjacent_upto(
                    pos,
                    tile,
                    direction,
                ),
        decreases direction,
    {
        let list = self.neighbors_upto(pos, direction);
        if direction > 0 {
            self.lemma_neighbors_upto(pos, direction - 1);
            let before = self.neighbors_upto(pos, direction - 1);
            assert forall|tile: TilePos| list.contains(tile) <==> self.adjacent_upto(
                pos,
                tile,
                direction,
            ) by {
                if self.adjacent_upto(pos, tile, direction) {
                    let d = choose|d: int|
                        0 <= d < direction && #[trigger] self.spec_neighbor(pos, d) == Some(tile);
                    if d < direction - 1 {
                        assert(self.adjacent_upto(pos, tile, direction - 1));
                        let i = choose|i: int| 0 <= i < before.len() && before[i] == tile;
                        assert(list[i] == tile);
                    } else {
                        assert(list[list.len() - 1] == tile);
                    }
                }
            }
            assert forall|i: int, j: int| 0 <= i < j < list.len() implies list[i] != list[j] by {
                if j >= before.len() {
                    assert(before.contains(list[i]));
                }
            }
        }
    }

    /// The list of unoccupied neighbors holds exactly the adjacent tiles that
    /// are not occupied, each once.
    pub proof fn lemma_empty_neighbors_upto(&self, pos: TilePos, direction: int)
        requires
            0 <= direction <= 6,
        ensures
            self.empty_neighbors_upto(pos, direction).len() <= direction,
            self.empty_neighbors_upto(pos, direction).no_duplicates(),
            forall|tile: TilePos|
                #![trigger self.empty_neighbors_upto(pos, direction).contains(tile)]
                #![trigger self.adjacent_upto(pos, tile, direction)]
                self.empty_neighbors_upto(pos, direction).contains(tile) <==> self.adjacent_upto(
                    pos,
                    tile,
                    direction,
                ) && !self.occupied(tile),
        decreases direction,
    {
        let list = self.empty_neighbors_upto(pos, direction);
        if direction > 0 {
            self.lemma_empty_neighbors_upto(pos, direction - 1);
            let before = self.empty_neighbors_upto(pos, direction - 1);
            assert forall|tile: TilePos|
                list.contains(tile) <==> self.adjacent_upto(pos, tile, direction) && !self.occupied(
                    tile,
                ) by {
                if list.contains(tile) {
                    let i = choose|i: int| 0 <= i < list.len() && list[i] == tile;
                    if i < before.len() {
                        assert(before.contains(tile));
                    }
                }
                if self.adjacent_upto(pos, tile, direction) && !self.occupied(tile) {
                    let d = choose|d: int|
                        0 <= d < direction && #[trigger] self.spec_neighbor(pos, d) == Some(tile);
                    if d < direction - 1 {
                        assert(self.adjacent_upto(pos, tile, direction - 1));
                        let i = choose|i: int| 0 <= i < before.len() && before[i] == tile;
                        assert(list[i] == tile);
                    } else {
                        assert(list[list.len() - 1] == tile);
                    }
                }
            }
            assert forall|i: int, j: int| 0 <= i < j < list.len() implies list[i] != list[j] by {
                if j >= before.len() {
                    assert(before.contains(list[i]));
                }
            }
        }
    }

    /// What the two lists of neighbors hold: the adjacent tiles, and those of
    /// them that are not occupied; each at most six, and none twice. A tile
    /// with a neighbor on the map in each direction has six neighbors.
    pub proof fn lemma_neighbors(&self, pos: TilePos)
        ensures
            self.neighbors_of(pos).len() <= 6,
            (forall|direction: int|
                0 <= direction < 6 ==> (#[trigger] self.spec_neighbor(pos, direction)) is Some)
                ==> self.neighbors_of(pos).len() == 6,
            self.neighbors_of(pos).no_duplicates(),
            self.empty_neighbors_of(pos).len() <= 6,
            self.empty_neighbors_of(pos).no_duplicates(),
            forall|tile: TilePos|
                #![trigger self.neighbors_of(pos).contains(tile)]
                #![trigger self.adjacent(pos, tile)]
                self.neighbors_of(pos).contains(tile) <==> self.adjacent(pos, tile),
            forall|tile: TilePos|
                #![trigger self.empty_neighbors_of(pos).contains(tile)]
                #![trigger self.adjacent(pos, tile)]
                self.empty_neighbors_of(pos).contains(tile) <==> self.adjacent(pos, tile)
                    && !self.occupied(tile),
            forall|tile: TilePos| #[trigger]
                self.adjacent(pos, tile) ==> self.on_map(pos) && self.on_map(tile) && tile != pos,
    {
        self.lemma_neighbors_upto(pos, 6);
        self.lemma_empty_neighbors_upto(pos, 6);
        if forall|direction: int|
            0 <= direction < 6 ==> (#[trigger] self.spec_neighbor(pos, direction)) is Some {
            reveal_with_fuel(MapGeometry::neighbors_upto, 7);
            assert(self.spec_neighbor(pos, 0) is Some);
            assert(self.spec_neighbor(pos, 1) is Some);
            assert(self.spec_neighbor(pos, 2) is Some);
            assert(self.spec_neighbor(pos, 3) is Some);
            assert(self.spec_neighbor(pos, 4) is Some);
            assert(self.spec_neighbor(pos, 5) is Some);
        }
    }
}

} // verus!
