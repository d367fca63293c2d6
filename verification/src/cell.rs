//! World positions, grid cells and the hash that buckets the cells.
//!
//! Positions are handed to the grid as whole numbers of a unit that the
//! caller chooses, fine enough for its purpose. The world is cut into square
//! cells, each as wide as the largest distance that a neighbour query asks
//! for. A cell is addressed by a pair of signed integers; the hash folds
//! such a pair into one machine word, and the key reduces the hash to a slot
//! of a table with a given number of slots.

use vstd::prelude::*;
use vstd::arithmetic::div_mod::{
    lemma_div_is_ordered,
    lemma_div_plus_one,
    lemma_fundamental_div_mod,
    lemma_fundamental_div_mod_converse,
};

verus! {

/// Multiplier of the horizontal cell coordinate in the hash.
pub const HASH_FACTOR_X: u64 = 15823;

/// Multiplier of the vertical cell coordinate in the hash.
pub const HASH_FACTOR_Y: u64 = 9737333;

/// A position in the world, in whole units of the caller's resolution.
#[derive(Clone, Copy, Debug, PartialEq, Eq, Structural)]
pub struct WorldPos {
    pub x: i32,
    pub y: i32,
}

/// Integer coordinates of one grid cell.
#[derive(Clone, Copy, Debug, PartialEq, Eq, Structural)]
pub struct CellPos {
    pub x: i32,
    pub y: i32,
}

/// The cell of the position `world_pos` where cells are `cell_size` wide:
/// each coordinate divided by the width, rounded down.
pub open spec fn cell_of(world_pos: WorldPos, cell_size: int) -> CellPos
    recommends
        cell_size > 0,
{
    CellPos {
        x: (world_pos.x as int / cell_size) as i32,
        y: (world_pos.y as int / cell_size) as i32,
    }
}

/// The positions `a` and `b` are no farther apart than `radius`.
pub open spec fn within(a: WorldPos, b: WorldPos, radius: int) -> bool {
    &&& radius >= 0
    &&& (a.x - b.x) * (a.x - b.x) + (a.y - b.y) * (a.y - b.y) <= radius * radius
}

/// The hash of the cell at `(x, y)`: the weighted sum of the coordinates,
/// reduced to a 64-bit word. Negative sums wrap around, as two's complement
/// arithmetic does.
pub open spec fn cell_hash(x: int, y: int) -> int {
    (x * HASH_FACTOR_X + y * HASH_FACTOR_Y) % 0x1_0000_0000_0000_0000
}

/// The slot of the cell at `(x, y)` in a table of `table_size` slots.
pub open spec fn cell_key(x: int, y: int, table_size: int) -> int
    recommends
        table_size > 0,
{
    cell_hash(x, y) % table_size
}

/// Whether `a` lies in the block of three by three cells centred on `b`.
pub open spec fn adjacent(a: CellPos, b: CellPos) -> bool {
    &&& -1 <= a.x - b.x <= 1
    &&& -1 <= a.y - b.y <= 1
}

/// A hash is a 64-bit word, and a key is a valid slot.
pub proof fn lemma_cell_key_bounds(x: int, y: int, table_size: int)
    requires
        table_size > 0,
    ensures
        0 <= cell_hash(x, y) < 0x1_0000_0000_0000_0000,
        0 <= cell_key(x, y, table_size) < table_size,
{
}

/// The cell coordinate of a coordinate is no farther from zero than the
/// coordinate, so the cell of a position is a cell.
pub proof fn lemma_cell_coordinate_range(coordinate: int, cell_size: int)
    requires
        cell_size > 0,
        i32::MIN <= coordinate <= i32::MAX,
    ensures
        i32::MIN <= coordinate / cell_size <= i32::MAX,
{
    lemma_fundamental_div_mod(coordinate, cell_size);
    let q = coordinate / cell_size;
    let r = coordinate % cell_size;
    assert(i32::MIN <= q <= i32::MAX) by (nonlinear_arith)
        requires
            coordinate == cell_size * q + r,
            0 <= r < cell_size,
            cell_size > 0,
            i32::MIN <= coordinate <= i32::MAX,
    ;
}

/// Coordinates that differ by no more than a cell's width lie in the same
/// cell or in neighbouring cells.
pub proof fn lemma_close_coordinates(a: int, b: int, cell_size: int)
    requires
        cell_size > 0,
        -cell_size <= a - b <= cell_size,
    ensures
        -1 <= a / cell_size - b / cell_size <= 1,
{
    lemma_div_is_ordered(a, cell_size + b, cell_size);
    lemma_div_plus_one(b, cell_size);
    lemma_div_is_ordered(b, cell_size + a, cell_size);
    lemma_div_plus_one(a, cell_size);
}

/// Two positions no farther apart than a cell's width lie in cells of one
/// block: the cell of each is among the nine cells around the cell of the
/// other.
pub proof fn lemma_near_positions_share_a_block(
    a: WorldPos,
    b: WorldPos,
    cell_size: int,
    radius: int,
)
    requires
        radius <= cell_size,
        within(a, b, radius),
    ensures
        adjacent(cell_of(a, cell_size), cell_of(b, cell_size)),
{
    let dx = a.x - b.x;
    let dy = a.y - b.y;
    assert(-radius <= dx <= radius && -radius <= dy <= radius) by (nonlinear_arith)
        requires
            dx * dx + dy * dy <= radius * radius,
            0 <= radius,
    ;
    if cell_size > 0 {
        lemma_close_coordinates(a.x as int, b.x as int, cell_size);
        lemma_close_coordinates(a.y as int, b.y as int, cell_size);
        lemma_cell_coordinate_range(a.x as int, cell_size);
        lemma_cell_coordinate_range(a.y as int, cell_size);
        lemma_cell_coordinate_range(b.x as int, cell_size);
        lemma_cell_coordinate_range(b.y as int, cell_size);
    }
}

/// Divides a coordinate by the width of a cell, rounding down.
fn floor_div(coordinate: i32, cell_size: i32) -> (cell: i32)
    requires
        cell_size > 0,
    ensures
        cell == coordinate as int / cell_size as int,
{
    if coordinate >= 0 {
        ((coordinate as u32) / (cell_size as u32)) as i32
    } else {
        // The cells below zero: the coordinates from -cell_size to -1 make
        // the cell -1, and so on down.
        let below: u32 = (-(coordinate as i64) - 1) as u32;
        let steps: u32 = below / (cell_size as u32);
        proof {
            let m = below as int;
            let d = cell_size as int;
            lemma_fundamental_div_mod(m, d);
            assert(coordinate == d * (-steps - 1) + (d - 1 - m % d)) by (nonlinear_arith)
                requires
                    m == d * (m / d) + m % d,
                    steps == m / d,
                    coordinate == -m - 1,
            ;
            lemma_fundamental_div_mod_converse(coordinate as int, d, -steps - 1, d - 1 - m % d);
        }
        -(steps as i32) - 1
    }
}

/// Computes the cell of a position where cells are `cell_size` wide.
pub fn world_pos_to_cell_pos(world_pos: WorldPos, cell_size: i32) -> (cell_pos: CellPos)
    requires
        cell_size > 0,
    ensures
        cell_pos == cell_of(world_pos, cell_size as int),
{
    CellPos { x: floor_div(world_pos.x, cell_size), y: floor_div(world_pos.y, cell_size) }
}

/// Tells whether two positions are no farther apart than `radius`.
pub fn is_within(a: WorldPos, b: WorldPos, radius: i32) -> (near: bool)
    ensures
        near == within(a, b, radius as int),
{
    if radius < 0 {
        return false;
    }
    let dx: i128 = a.x as i128 - b.x as i128;
    let dy: i128 = a.y as i128 - b.y as i128;
    let reach: i128 = radius as i128;
    assert(0 <= dx * dx <= 0x1_0000_0000_0000_0000) by (nonlinear_arith)
        requires
            -0x1_0000_0000 <= dx <= 0x1_0000_0000,
    ;
    assert(0 <= dy * dy <= 0x1_0000_0000_0000_0000) by (nonlinear_arith)
        requires
            -0x1_0000_0000 <= dy <= 0x1_0000_0000,
    ;
    assert(0 <= reach * reach <= 0x1_0000_0000_0000_0000) by (nonlinear_arith)
        requires
            0 <= reach <= 0x1_0000_0000,
    ;
    dx * dx + dy * dy <= reach * reach
}

/// Hash of coordinates that may lie one step outside the range of a cell,
/// as those of a neighbour of an outermost cell do.
pub(crate) fn hash_coords(x: i64, y: i64) -> (hash: u64)
    requires
        -0x1_0000_0000 <= x <= 0x1_0000_0000,
        -0x1_0000_0000 <= y <= 0x1_0000_0000,
    ensures
        hash == cell_hash(x as int, y as int),
{
    let across: i64 = HASH_FACTOR_X as i64;
    let along: i64 = HASH_FACTOR_Y as i64;
    assert(-0x4000_0000_0000_0000 <= x * across <= 0x4000_0000_0000_0000) by (nonlinear_arith)
        requires
            -0x1_0000_0000 <= x <= 0x1_0000_0000,
            across == 15823,
    ;
    assert(-0x4000_0000_0000_0000 <= y * along <= 0x4000_0000_0000_0000) by (nonlinear_arith)
        requires
            -0x1_0000_0000 <= y <= 0x1_0000_0000,
            along == 9737333,
    ;
    let sum: i64 = x * across + y * along;
    if sum >= 0 {
        sum as u64
    } else {
        u64::MAX - ((-(sum + 1)) as u64)
    }
}

/// Slot of the cell at `(x, y)` in a table of `table_size` slots.
pub(crate) fn key_of_coords(x: i64, y: i64, table_size: usize) -> (key: usize)
    requires
        -0x1_0000_0000 <= x <= 0x1_0000_0000,
        -0x1_0000_0000 <= y <= 0x1_0000_0000,
        table_size > 0,
    ensures
        key == cell_key(x as int, y as int, table_size as int),
        key < table_size,
{
    let hash: u64 = hash_coords(x, y);
    (hash % (table_size as u64)) as usize
}

/// Computes the hash of a cell.
pub fn create_cell_hash(cell_pos: CellPos) -> (hash: u64)
    ensures
        hash == cell_hash(cell_pos.x as int, cell_pos.y as int),
{
    hash_coords(cell_pos.x as i64, cell_pos.y as i64)
}

impl WorldPos {
    /// Makes the position at `(x, y)`.
    pub fn new(x: i32, y: i32) -> (world_pos: WorldPos)
        ensures
            world_pos == (WorldPos { x, y }),
    {
        WorldPos { x, y }
    }
}

impl CellPos {
    /// Makes the cell at `(x, y)`.
    pub fn new(x: i32, y: i32) -> (cell: CellPos)
        ensures
            cell == (CellPos { x, y }),
    {
        CellPos { x, y }
    }

    /// The slot of this cell in a table of `table_size` slots.
    pub open spec fn key_spec(self, table_size: int) -> int {
        cell_key(self.x as int, self.y as int, table_size)
    }

    /// Computes the slot of this cell in a table of `table_size` slots.
    pub fn key(&self, table_size: usize) -> (key: usize)
        requires
            table_size > 0,
        ensures
            key == self.key_spec(table_size as int),
            key < table_size,
    {
        key_of_coords(self.x as i64, self.y as i64, table_size)
    }
}

} // verus!
