use vstd::prelude::*;

verus! {

/// Number of tiles along each side of the map.
pub const GRID_DIM: i64 = 8;

/// Number of tiles in the map.
pub const GRID_CELLS: usize = 64;

/// Side of one tile in world units.
pub const CELL_SIZE: i64 = 64;

/// Whether the tile at a linear index is a wall; indices outside the map are open.
pub open spec fn wall_at(cells: Seq<bool>, index: int) -> bool {
    0 <= index < cells.len() && cells[index]
}

/// Whether the tile at (row, col) is a wall; coordinates outside the map are open.
pub open spec fn wall_at_cell(cells: Seq<bool>, row: int, col: int) -> bool {
    0 <= row < GRID_DIM && 0 <= col < GRID_DIM && cells[row * GRID_DIM + col]
}

/// The built-in layout: a wall border around an interior with a few inner walls.
pub open spec fn reference_layout() -> Seq<bool> {
    let codes = seq![
        1u8, 1, 1, 1, 1, 1, 1, 1,
        1, 0, 1, 0, 0, 0, 0, 1,
        1, 0, 1, 0, 0, 0, 0, 1,
        1, 0, 1, 0, 0, 0, 0, 1,
        1, 0, 0, 0, 0, 1, 0, 1,
        1, 0, 0, 0, 0, 0, 0, 1,
        1, 0, 0, 0, 0, 0, 0, 1,
        1, 1, 1, 1, 1, 1, 1, 1,
    ];
    Seq::new(64, |i: int| codes[i] == 1)
}

/// A fixed 8x8 occupancy grid, stored row-major; immutable once built.
pub struct TileMap {
    pub map: [bool; 64],
}

impl View for TileMap {
    type V = Seq<bool>;

    open spec fn view(&self) -> Seq<bool> {
        self.map@
    }
}

impl TileMap {
    /// Builds a map from one flag per tile, row-major.
    pub fn new(map: [bool; 64]) -> (r: TileMap)
        ensures
            r@ == map@,
    {
        TileMap { map }
    }

    /// Builds a map from numeric tile codes: a tile is a wall exactly when its code is 1.
    pub fn from_codes(codes: &[u32; 64]) -> (r: TileMap)
        ensures
            r@.len() == 64,
            forall|i: int| 0 <= i < 64 ==> r@[i] == (codes@[i] == 1),
    {
        let mut map: [bool; 64] = [false; 64];
        let mut i: usize = 0;
        while i < GRID_CELLS
            invariant
                i <= 64,
                map@.len() == 64,
                forall|j: int| 0 <= j < i ==> map@[j] == (codes@[j] == 1),
            decreases 64 - i,
        {
            map[i] = codes[i] == 1;
            i = i + 1;
        }
        TileMap { map }
    }

    /// The built-in layout.
    pub fn reference() -> (r: TileMap)
        ensures
            r@ == reference_layout(),
    {
        let codes: [u32; 64] = [
            1, 1, 1, 1, 1, 1, 1, 1,
            1, 0, 1, 0, 0, 0, 0, 1,
            1, 0, 1, 0, 0, 0, 0, 1,
            1, 0, 1, 0, 0, 0, 0, 1,
            1, 0, 0, 0, 0, 1, 0, 1,
            1, 0, 0, 0, 0, 0, 0, 1,
            1, 0, 0, 0, 0, 0, 0, 1,
            1, 1, 1, 1, 1, 1, 1, 1,
        ];
        let r = TileMap::from_codes(&codes);
        assert(r@ =~= reference_layout());
        r
    }

    /// Whether the tile at (row, col) is a wall; false outside the map.
    pub fn is_wall(&self, row: i64, col: i64) -> (r: bool)
        ensures
            r == wall_at_cell(self@, row as int, col as int),
    {
        if 0 <= row && row < GRID_DIM && 0 <= col && col < GRID_DIM {
            self.map[(row * GRID_DIM + col) as usize]
        } else {
            false
        }
    }

    /// Whether the tile at a linear index is a wall; false outside `[0, 64)`.
    pub fn is_wall_at_index(&self, index: i64) -> (r: bool)
        ensures
            r == wall_at(self@, index as int),
    {
        if 0 <= index && index < GRID_CELLS as i64 {
            self.map[index as usize]
        } else {
            false
        }
    }
}

} // verus!
