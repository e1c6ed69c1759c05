use vstd::prelude::*;
use std::collections::HashMap;
use crate::constants::{PARTS_PER_RAW_STEP, SQUARES_PER_CELL};
use crate::world_gen::cell::{blank_cell, OpenmwCell};

verus! {

broadcast use vstd::std_specs::hash::group_hash_axioms;

/// The contents of a world: the cells that exist, by cell coordinate, each with
/// its samples in storage order.
pub type Cells = Map<(int, int), Seq<i64>>;

/// The cell that holds a square of the seamless grid: floor division on each axis.
pub open spec fn cell_of(x: int, y: int) -> (int, int) {
    (x / 64, y / 64)
}

/// Where a square of the seamless grid stands in the storage of its cell.
pub open spec fn index_in_cell(x: int, y: int) -> int {
    x % 64 + (y % 64) * 64
}

/// The elevation stored for a square, in 139ths of a metre. A square whose cell
/// does not exist reads as zero, as a freshly made cell would.
pub open spec fn stored_at(cells: Cells, x: int, y: int) -> int {
    if cells.contains_key(cell_of(x, y)) {
        cells[cell_of(x, y)][index_in_cell(x, y)] as int
    } else {
        0
    }
}

/// The contents after one write: the cell of the square is made if it was
/// missing, and the one sample is replaced.
pub open spec fn with_sample(cells: Cells, x: int, y: int, parts: i64) -> Cells {
    let cell = cell_of(x, y);
    let before = if cells.contains_key(cell) {
        cells[cell]
    } else {
        blank_cell()
    };
    cells.insert(cell, before.update(index_in_cell(x, y), parts))
}

/// A raw fragment height in stored parts: the ratio of the two units is 16 to 1.
pub open spec fn parts_of_raw(raw: int) -> int {
    raw * PARTS_PER_RAW_STEP
}

/// A stored elevation in raw fragment units: the quotient by 16, rounded towards
/// zero, and held to the range of `i32`.
pub open spec fn raw_of_parts(parts: int) -> int {
    let quotient = if parts >= 0 {
        parts / (PARTS_PER_RAW_STEP as int)
    } else {
        -((-parts) / (PARTS_PER_RAW_STEP as int))
    };
    if quotient < i32::MIN {
        i32::MIN as int
    } else if quotient > i32::MAX {
        i32::MAX as int
    } else {
        quotient
    }
}

/// The elevation of a square in raw fragment units.
pub open spec fn raw_at(cells: Cells, x: int, y: int) -> int {
    raw_of_parts(stored_at(cells, x, y))
}

/// Every cell of the contents holds one sample per square.
pub open spec fn cells_well_formed(cells: Cells) -> bool {
    forall|c: (int, int)| #[trigger] cells.contains_key(c) ==> cells[c].len() == 4096
}

/// A height that is stored in raw units reads back unchanged.
pub proof fn lemma_raw_survives_storage(raw: int)
    requires
        i32::MIN <= raw <= i32::MAX,
    ensures
        raw_of_parts(parts_of_raw(raw)) == raw,
{
}

/// A write is seen at the square it was made to and nowhere else: that square
/// reads as the height that was written, and every other square as before.
pub proof fn lemma_read_after_write(
    cells: Cells,
    x: int,
    y: int,
    raw: int,
    other_x: int,
    other_y: int,
)
    requires
        cells_well_formed(cells),
        i32::MIN <= raw <= i32::MAX,
    ensures
        raw_at(with_sample(cells, x, y, parts_of_raw(raw) as i64), other_x, other_y) == if other_x
            == x && other_y == y {
            raw
        } else {
            raw_at(cells, other_x, other_y)
        },
        cells_well_formed(with_sample(cells, x, y, parts_of_raw(raw) as i64)),
{
    if cell_of(other_x, other_y) == cell_of(x, y) {
        if index_in_cell(other_x, other_y) == index_in_cell(x, y) {
            assert(other_x == x && other_y == y);
        }
    }
}

/// The map key under which a cell is kept: the two coordinates side by side in
/// one 64-bit integer.
pub closed spec fn cell_key(cx: int, cy: int) -> int {
    cx * 0x1_0000_0000 + (cy + 0x8000_0000)
}

spec fn is_coordinate(v: int) -> bool {
    i32::MIN <= v <= i32::MAX
}

proof fn lemma_cell_key_injective(ax: int, ay: int, bx: int, by: int)
    requires
        is_coordinate(ax),
        is_coordinate(ay),
        is_coordinate(bx),
        is_coordinate(by),
    ensures
        i64::MIN <= cell_key(ax, ay) <= i64::MAX,
        cell_key(ax, ay) == cell_key(bx, by) <==> (ax == bx && ay == by),
{
}

/// A sparse grid of cells that together hold one seamless elevation field.
#[derive(Debug, Clone)]
pub struct OpenmwWorld {
    overworld_cells: HashMap<i64, OpenmwCell>,
}

impl View for OpenmwWorld {
    type V = Cells;

    /// The cells of the world by their coordinates.
    closed spec fn view(&self) -> Cells {
        cells_of(self.overworld_cells@)
    }
}

spec fn cells_of(kept: Map<i64, OpenmwCell>) -> Cells {
    Map::new(
        |c: (int, int)|
            is_coordinate(c.0) && is_coordinate(c.1) && kept.contains_key(cell_key(c.0, c.1) as i64),
        |c: (int, int)| kept[cell_key(c.0, c.1) as i64]@,
    )
}

impl OpenmwWorld {
    /// Whatever was written, every cell of a world holds one sample per square.
    pub proof fn lemma_well_formed(&self)
        ensures
            cells_well_formed(self@),
    {
        assert forall|c: (int, int)| #[trigger] self@.contains_key(c) implies self@[c].len()
            == 4096 by {
            self.overworld_cells@[cell_key(c.0, c.1) as i64].lemma_len();
        }
    }

    /// A world without cells.
    pub fn new() -> (world: Self)
        ensures
            world@ == Map::<(int, int), Seq<i64>>::empty(),
    {
        let world = OpenmwWorld { overworld_cells: HashMap::new() };
        assert(world@ =~= Map::<(int, int), Seq<i64>>::empty());
        world
    }

    /// Stores a height given in raw fragment units at a square of the seamless
    /// grid, making the cell of that square if it does not exist yet.
    pub fn set_elevation_canonical(&mut self, square: [i32; 2], value: i32)
        ensures
            final(self)@ == with_sample(
                old(self)@,
                square[0] as int,
                square[1] as int,
                parts_of_raw(value as int) as i64,
            ),
    {
        let square_within_cell = get_coords_within_a_cell(square);
        let ghost before: Map<i64, OpenmwCell> = self.overworld_cells@;
        let ghost cx: int = square[0] as int / 64;
        let ghost cy: int = square[1] as int / 64;
        let parts: i64 = value as i64 * PARTS_PER_RAW_STEP;
        let cell = get_cell(&mut self.overworld_cells, square);
        cell.set_elevation(square_within_cell, parts);
        proof {
            let after = self.overworld_cells@;
            let expected = with_sample(
                cells_of(before),
                square[0] as int,
                square[1] as int,
                parts,
            );
            assert forall|c: (int, int)| #[trigger] expected.contains_key(c) <==> cells_of(
                after,
            ).contains_key(c) by {
                if is_coordinate(c.0) && is_coordinate(c.1) {
                    lemma_cell_key_injective(c.0, c.1, cx, cy);
                }
            }
            assert forall|c: (int, int)| #[trigger] expected.contains_key(c) implies expected[c]
                == cells_of(after)[c] by {
                lemma_cell_key_injective(c.0, c.1, cx, cy);
            }
            assert(cells_of(after) =~= expected);
        }
    }

    /// The stored elevation of a square, in 139ths of a metre; zero where no
    /// cell exists. Reading makes no cell.
    pub fn get_elevation(&self, square: [i32; 2]) -> (value: i64)
        ensures
            value == stored_at(self@, square[0] as int, square[1] as int),
    {
        let cell = get_cell_grid_coords(square);
        let square_within_cell = get_coords_within_a_cell(square);
        let key = key_of(cell);
        match self.overworld_cells.get(&key) {
            Some(found) => found.get_elevation(square_within_cell),
            None => 0,
        }
    }

    /// The elevation of a square in raw fragment units: the stored value divided
    /// by 16, rounded towards zero and held to the range of the result.
    pub fn get_elevation_canonical(&self, square: [i32; 2]) -> (value: i32)
        ensures
            value == raw_at(self@, square[0] as int, square[1] as int),
    {
        let ele = self.get_elevation(square);
        let quotient: i64 = ele / PARTS_PER_RAW_STEP;
        if quotient < i32::MIN as i64 {
            i32::MIN
        } else if quotient > i32::MAX as i64 {
            i32::MAX
        } else {
            quotient as i32
        }
    }
}

/// The coordinates of the cell that holds a square: Euclidean division by the
/// edge length, so that squares left of or below the origin fall into the cells
/// with negative coordinates.
pub fn get_cell_grid_coords(square: [i32; 2]) -> (cell: [i32; 2])
    ensures
        (cell[0] as int, cell[1] as int) == cell_of(square[0] as int, square[1] as int),
        cell[0] * 64 <= square[0] < cell[0] * 64 + 64,
        cell[1] * 64 <= square[1] < cell[1] * 64 + 64,
{
    let edge: i32 = SQUARES_PER_CELL as i32;
    let cx: i32 = match square[0].checked_div_euclid(edge) {
        Some(quotient) => quotient,
        None => 0,
    };
    let cy: i32 = match square[1].checked_div_euclid(edge) {
        Some(quotient) => quotient,
        None => 0,
    };
    [cx, cy]
}

/// The position of a square inside its cell: the remainder of that division,
/// never negative and always below the edge length.
pub fn get_coords_within_a_cell(square: [i32; 2]) -> (local: [u32; 2])
    ensures
        local[0] == square[0] as int % 64,
        local[1] == square[1] as int % 64,
        local[0] < 64,
        local[1] < 64,
        local[0] + local[1] * 64 == index_in_cell(square[0] as int, square[1] as int),
        square[0] == (square[0] as int / 64) * 64 + local[0],
        square[1] == (square[1] as int / 64) * 64 + local[1],
{
    let cell = get_cell_grid_coords(square);
    let edge: i64 = SQUARES_PER_CELL as i64;
    let x: i64 = square[0] as i64 - cell[0] as i64 * edge;
    let y: i64 = square[1] as i64 - cell[1] as i64 * edge;
    [x as u32, y as u32]
}

fn key_of(cell: [i32; 2]) -> (key: i64)
    ensures
        key == cell_key(cell[0] as int, cell[1] as int),
{
    (cell[0] as i64) * 0x1_0000_0000 + (cell[1] as i64 + 0x8000_0000)
}

/// The cell that holds a square, made blank first if the map has none for it.
fn get_cell(overworld_cells: &mut HashMap<i64, OpenmwCell>, square: [i32; 2]) -> (cell:
    &mut OpenmwCell)
    ensures
        ({
            let key = cell_key(square[0] as int / 64, square[1] as int / 64) as i64;
            &&& old(overworld_cells)@.contains_key(key) ==> *cell == old(overworld_cells)@[key]
            &&& !old(overworld_cells)@.contains_key(key) ==> cell@ == blank_cell()
            &&& final(overworld_cells)@ == old(overworld_cells)@.insert(key, *final(cell))
        }),
{
    let cell = get_cell_grid_coords(square);
    let key = key_of(cell);
    overworld_cells.entry(key).or_insert(OpenmwCell::new())
}

} // verus!
