use vstd::prelude::*;
use crate::constants::{
    GRID_MAX, GRID_MIN, LANDSCAPE_HEIGHT_DATA_SIZE, OFFSET_MAX, OFFSET_MIN, SQUARES_PER_CELL,
    VERTICES_PER_EDGE,
};
use crate::encoding::Base64Fault;
use crate::world_gen::world::{
    cell_of, cells_well_formed, index_in_cell, parts_of_raw, raw_at, with_sample, Cells,
    OpenmwWorld,
};

verus! {

/// Why a landscape fragment could not be read or written.
#[derive(Debug, Clone, Copy, PartialEq, Eq, Structural)]
pub enum LandscapeError {
    /// The fragment does not hold one delta per vertex.
    WrongLength { expected: usize, actual: usize },
    /// The text of the fragment is not base64.
    Undecodable(Base64Fault),
    /// Two neighbouring elevations differ by more than one signed byte can
    /// hold: the step between them, and the least and the greatest step that fits.
    GradientTooLarge { delta: i64, min: i8, max: i8 },
}

/// The signed step that one byte of a fragment stands for.
pub open spec fn delta_of_byte(byte: u8) -> int {
    if byte < 128 {
        byte as int
    } else {
        byte as int - 256
    }
}

/// The byte that stands for a signed step between -128 and 127.
pub open spec fn byte_of_delta(delta: int) -> u8 {
    if delta >= 0 {
        delta as u8
    } else {
        (delta + 256) as u8
    }
}

/// The step stored for vertex `(ix, iy)` of a fragment: the deltas lie row by
/// row, 65 to a row.
pub open spec fn delta_at(data: Seq<u8>, ix: int, iy: int) -> int {
    delta_of_byte(data[iy * 65 + ix])
}

/// The height of the first vertex of row `iy`: the offset and the first deltas
/// of all rows up to this one, added up.
pub open spec fn row_anchor(offset: int, data: Seq<u8>, iy: int) -> int
    decreases iy + 1,
{
    if iy < 0 {
        offset
    } else {
        row_anchor(offset, data, iy - 1) + delta_at(data, 0, iy)
    }
}

/// The height of vertex `(ix, iy)` of a fragment, in raw units: the anchor of
/// its row and the deltas along the row up to the vertex, added up.
pub open spec fn fragment_height(offset: int, data: Seq<u8>, ix: int, iy: int) -> int
    decreases ix,
{
    if ix <= 0 {
        row_anchor(offset, data, iy)
    } else {
        fragment_height(offset, data, ix - 1, iy) + delta_at(data, ix, iy)
    }
}

/// The cell coordinates of a record as a pair of integers.
pub open spec fn grid_pair(grid: [i32; 2]) -> (int, int) {
    (grid[0] as int, grid[1] as int)
}

/// The cells whose squares a fragment lies on all fit the coordinate type: the
/// last vertex of a row or column lies 64 squares beyond the first.
pub open spec fn grid_in_range(grid: [i32; 2]) -> bool {
    &&& GRID_MIN <= grid[0] <= GRID_MAX
    &&& GRID_MIN <= grid[1] <= GRID_MAX
}

/// No height of a fragment with this offset leaves the range of `i32`: its 129
/// steps from the offset to the far corner move it by at most 128 each.
pub open spec fn offset_in_range(offset: int) -> bool {
    OFFSET_MIN <= offset <= OFFSET_MAX
}

/// Whether a square of the seamless grid is a vertex of the fragment at `grid`.
pub open spec fn in_footprint(grid: (int, int), x: int, y: int) -> bool {
    &&& grid.0 * 64 <= x <= grid.0 * 64 + 64
    &&& grid.1 * 64 <= y <= grid.1 * 64 + 64
}

/// Whether a fragment at `grid` has a vertex in cell `c`: its own cell and the
/// three neighbours that share its far edges.
pub open spec fn touches(grid: (int, int), c: (int, int)) -> bool {
    &&& grid.0 <= c.0 <= grid.0 + 1
    &&& grid.1 <= c.1 <= grid.1 + 1
}

/// The contents of a world after one fragment is written into it: every vertex
/// of the fragment holds the fragment's height, every other square what it held.
pub open spec fn ingested(cells: Cells, grid: (int, int), offset: int, data: Seq<u8>) -> Cells {
    Map::new(
        |c: (int, int)| cells.contains_key(c) || touches(grid, c),
        |c: (int, int)|
            Seq::new(
                4096,
                |i: int|
                    {
                        let x = c.0 * 64 + i % 64;
                        let y = c.1 * 64 + i / 64;
                        if in_footprint(grid, x, y) {
                            parts_of_raw(
                                fragment_height(offset, data, x - grid.0 * 64, y - grid.1 * 64),
                            ) as i64
                        } else if cells.contains_key(c) {
                            cells[c][i]
                        } else {
                            0i64
                        }
                    },
            ),
    )
}

/// The contents after the first `count` vertices of a fragment, in row-major
/// order, are written.
spec fn ingested_upto(cells: Cells, grid: (int, int), offset: int, data: Seq<u8>, count: int)
    -> Cells {
    Map::new(
        |c: (int, int)|
            cells.contains_key(c) || (touches(grid, c) && (c.1 - grid.1) * 4160 + (c.0 - grid.0)
                * 64 < count),
        |c: (int, int)|
            Seq::new(
                4096,
                |i: int|
                    {
                        let x = c.0 * 64 + i % 64;
                        let y = c.1 * 64 + i / 64;
                        if in_footprint(grid, x, y) && (y - grid.1 * 64) * 65 + (x - grid.0 * 64)
                            < count {
                            parts_of_raw(
                                fragment_height(offset, data, x - grid.0 * 64, y - grid.1 * 64),
                            ) as i64
                        } else if cells.contains_key(c) {
                            cells[c][i]
                        } else {
                            0i64
                        }
                    },
            ),
    )
}

proof fn lemma_ingested_none(cells: Cells, grid: (int, int), offset: int, data: Seq<u8>)
    requires
        cells_well_formed(cells),
    ensures
        ingested_upto(cells, grid, offset, data, 0) == cells,
{
    let start = ingested_upto(cells, grid, offset, data, 0);
    assert forall|c: (int, int)| #[trigger] start.contains_key(c) implies start[c] == cells[c] by {
        assert(start[c] =~= cells[c]);
    }
    assert(start =~= cells);
}

proof fn lemma_ingested_all(cells: Cells, grid: (int, int), offset: int, data: Seq<u8>)
    ensures
        ingested_upto(cells, grid, offset, data, 4225) == ingested(cells, grid, offset, data),
{
    let a = ingested_upto(cells, grid, offset, data, 4225);
    let b = ingested(cells, grid, offset, data);
    assert forall|c: (int, int)| #[trigger] a.contains_key(c) implies a[c] == b[c] by {
        assert(a[c] =~= b[c]);
    }
    assert(a =~= b);
}

/// Writing vertex number `count` of a fragment takes the contents after
/// `count` vertices to the contents after `count + 1`.
proof fn lemma_ingested_step(
    cells: Cells,
    grid: (int, int),
    offset: int,
    data: Seq<u8>,
    ix: int,
    iy: int,
)
    requires
        cells_well_formed(cells),
        0 <= ix <= 64,
        0 <= iy <= 64,
    ensures
        with_sample(
            ingested_upto(cells, grid, offset, data, iy * 65 + ix),
            grid.0 * 64 + ix,
            grid.1 * 64 + iy,
            parts_of_raw(fragment_height(offset, data, ix, iy)) as i64,
        ) == ingested_upto(cells, grid, offset, data, iy * 65 + ix + 1),
{
    let count = iy * 65 + ix;
    let before = ingested_upto(cells, grid, offset, data, count);
    let x = grid.0 * 64 + ix;
    let y = grid.1 * 64 + iy;
    let parts = parts_of_raw(fragment_height(offset, data, ix, iy)) as i64;
    let a = with_sample(before, x, y, parts);
    let b = ingested_upto(cells, grid, offset, data, count + 1);
    let target = cell_of(x, y);
    assert(target == (grid.0 + ix / 64, grid.1 + iy / 64));
    assert(index_in_cell(x, y) == ix % 64 + (iy % 64) * 64);
    assert forall|c: (int, int)| a.contains_key(c) <==> b.contains_key(c) by {
    }
    assert forall|c: (int, int)| #[trigger] a.contains_key(c) implies a[c] == b[c] by {
        assert(a[c] =~= b[c]);
    }
    assert(a =~= b);
}

/// The anchors of a fragment stay within 128 per row of its offset.
pub proof fn lemma_row_anchor_bounds(offset: int, data: Seq<u8>, iy: int)
    requires
        -1 <= iy,
    ensures
        offset - 128 * (iy + 1) <= row_anchor(offset, data, iy) <= offset + 127 * (iy + 1),
    decreases iy + 1,
{
    if iy >= 0 {
        lemma_row_anchor_bounds(offset, data, iy - 1);
    }
}

/// The heights of a fragment stay within 128 per step of its offset.
pub proof fn lemma_fragment_height_bounds(offset: int, data: Seq<u8>, ix: int, iy: int)
    requires
        0 <= ix,
        0 <= iy,
    ensures
        offset - 128 * (iy + 1 + ix) <= fragment_height(offset, data, ix, iy) <= offset + 127 * (iy
            + 1 + ix),
    decreases ix,
{
    if ix <= 0 {
        lemma_row_anchor_bounds(offset, data, iy);
    } else {
        lemma_fragment_height_bounds(offset, data, ix - 1, iy);
    }
}

/// The signed step that a byte stands for.
pub fn delta_from_byte(byte: u8) -> (delta: i8)
    ensures
        delta == delta_of_byte(byte),
{
    if byte < 128 {
        byte as i8
    } else {
        (byte as i16 - 256) as i8
    }
}

/// The byte that stands for a signed step.
pub fn delta_to_byte(delta: i8) -> (byte: u8)
    ensures
        byte == byte_of_delta(delta as int),
        delta_of_byte(byte) == delta,
{
    if delta >= 0 {
        delta as u8
    } else {
        (delta as i16 + 256) as u8
    }
}

/// Writes one fragment into the world as absolute elevations.
///
/// The deltas are taken row by row. The first delta of a row moves the row's
/// anchor, which starts at the offset; each further delta moves the height
/// along the row. Every height is stored at the square `(64 * grid + (ix, iy))`
/// of the seamless grid, so the last vertex of a row or column lands on the
/// first square of the neighbouring cell. A fragment of any other length than
/// 4225 is refused and the world is left as it was.
pub fn decode_landscape(world: &mut OpenmwWorld, grid: [i32; 2], offset: i32, data: &[u8]) -> (result:
    Result<(), LandscapeError>)
    requires
        grid_in_range(grid),
        offset_in_range(offset as int),
    ensures
        match result {
            Ok(()) => {
                &&& data@.len() == 4225
                &&& final(world)@ == ingested(old(world)@, grid_pair(grid), offset as int, data@)
            },
            Err(error) => {
                &&& data@.len() != 4225
                &&& error == (LandscapeError::WrongLength { expected: 4225, actual: data.len() })
                &&& final(world)@ == old(world)@
            },
        },
{
    if data.len() != LANDSCAPE_HEIGHT_DATA_SIZE {
        return Err(
            LandscapeError::WrongLength { expected: LANDSCAPE_HEIGHT_DATA_SIZE, actual: data.len() },
        );
    }
    let ghost before: Cells = world@;
    let ghost pair: (int, int) = grid_pair(grid);
    let edge: i32 = SQUARES_PER_CELL as i32;
    let base_x: i32 = grid[0] * edge;
    let base_y: i32 = grid[1] * edge;
    proof {
        world.lemma_well_formed();
        lemma_ingested_none(before, pair, offset as int, data@);
    }
    let mut row_start: i64 = offset as i64;
    let mut iy: usize = 0;
    while iy < VERTICES_PER_EDGE
        invariant
            0 <= iy <= 65,
            data@.len() == 4225,
            grid_in_range(grid),
            offset_in_range(offset as int),
            pair == grid_pair(grid),
            base_x == grid[0] * 64,
            base_y == grid[1] * 64,
            cells_well_formed(before),
            row_start == row_anchor(offset as int, data@, iy - 1),
            world@ == ingested_upto(before, pair, offset as int, data@, iy * 65),
        decreases 65 - iy,
    {
        let mut height: i64 = row_start;
        let mut ix: usize = 0;
        while ix < VERTICES_PER_EDGE
            invariant
                0 <= ix <= 65,
                0 <= iy < 65,
                data@.len() == 4225,
                grid_in_range(grid),
                offset_in_range(offset as int),
                pair == grid_pair(grid),
                base_x == grid[0] * 64,
                base_y == grid[1] * 64,
                cells_well_formed(before),
                row_start == row_anchor(offset as int, data@, if ix == 0 {
                    iy - 1
                } else {
                    iy as int
                }),
                height == if ix == 0 {
                    row_anchor(offset as int, data@, iy - 1)
                } else {
                    fragment_height(offset as int, data@, ix - 1, iy as int)
                },
                world@ == ingested_upto(before, pair, offset as int, data@, iy * 65 + ix),
            decreases 65 - ix,
        {
            let delta: i64 = delta_from_byte(data[iy * VERTICES_PER_EDGE + ix]) as i64;
            proof {
                lemma_fragment_height_bounds(offset as int, data@, ix as int, iy as int);
                if ix > 0 {
                    lemma_fragment_height_bounds(offset as int, data@, ix - 1, iy as int);
                } else {
                    lemma_row_anchor_bounds(offset as int, data@, iy - 1);
                }
            }
            if ix == 0 {
                row_start = row_start + delta;
                height = row_start;
            } else {
                height = height + delta;
            }
            assert(height == fragment_height(offset as int, data@, ix as int, iy as int));
            world.set_elevation_canonical([base_x + ix as i32, base_y + iy as i32], height as i32);
            proof {
                lemma_ingested_step(before, pair, offset as int, data@, ix as int, iy as int);
            }
            ix = ix + 1;
        }
        iy = iy + 1;
    }
    proof {
        lemma_ingested_all(before, pair, offset as int, data@);
    }
    Ok(())
}

/// The elevation, in raw units, that the world holds for vertex `(ix, iy)` of
/// the fragment at `grid`.
pub open spec fn sample(cells: Cells, grid: (int, int), ix: int, iy: int) -> int {
    raw_at(cells, grid.0 * 64 + ix, grid.1 * 64 + iy)
}

/// The delta that the world's elevations give for vertex `(ix, iy)` of the
/// fragment at `grid`: along a row the step from the vertex to its left, at the
/// start of a row the step from the start of the row below, and nothing for the
/// first vertex, whose elevation becomes the offset.
pub open spec fn derived_delta(cells: Cells, grid: (int, int), ix: int, iy: int) -> int {
    if ix > 0 {
        sample(cells, grid, ix, iy) - sample(cells, grid, ix - 1, iy)
    } else if iy > 0 {
        sample(cells, grid, 0, iy) - sample(cells, grid, 0, iy - 1)
    } else {
        0
    }
}

/// Whether a step can be stored as one signed byte.
pub open spec fn delta_fits(delta: int) -> bool {
    -128 <= delta <= 127
}

/// The first vertex at or after number `from`, in row-major order, whose delta
/// cannot be stored; 4225 if every delta from there on can.
pub open spec fn first_steep(cells: Cells, grid: (int, int), from: int) -> int
    decreases 4225 - from,
{
    if from >= 4225 {
        4225
    } else if !delta_fits(derived_delta(cells, grid, from % 65, from / 65)) {
        from
    } else {
        first_steep(cells, grid, from + 1)
    }
}

/// The deltas that the world's elevations give for the fragment at `grid`, as bytes.
pub open spec fn derived_data(cells: Cells, grid: (int, int)) -> Seq<u8> {
    Seq::new(4225, |k: int| byte_of_delta(derived_delta(cells, grid, k % 65, k / 65)))
}

/// What the world's elevations give for the fragment at `grid`: the offset and
/// the deltas if every delta can be stored, and else the first delta, in
/// row-major order, that cannot.
pub open spec fn derived_fragment(cells: Cells, grid: (int, int)) -> Result<
    (int, Seq<u8>),
    LandscapeError,
> {
    let steep = first_steep(cells, grid, 0);
    if steep >= 4225 {
        Ok((sample(cells, grid, 0, 0), derived_data(cells, grid)))
    } else {
        Err(
            LandscapeError::GradientTooLarge {
                delta: derived_delta(cells, grid, steep % 65, steep / 65) as i64,
                min: i8::MIN,
                max: i8::MAX,
            },
        )
    }
}

/// Derives the fragment of the cell at `grid` from the elevations that the
/// world holds.
///
/// The elevation of the first vertex becomes the offset. Every other vertex
/// gets the step from its predecessor: along a row from the vertex before it,
/// at the start of a row from the start of the row before. The first step that
/// does not fit a signed byte ends the work with that step as the error; no
/// delta is ever cut down to fit.
pub fn encode_landscape(world: &OpenmwWorld, grid: [i32; 2]) -> (result: Result<
    (i32, Vec<u8>),
    LandscapeError,
>)
    requires
        grid_in_range(grid),
    ensures
        match result {
            Ok((offset, data)) => derived_fragment(world@, grid_pair(grid)) == Ok::<
                (int, Seq<u8>),
                LandscapeError,
            >((offset as int, data@)),
            Err(error) => derived_fragment(world@, grid_pair(grid)) == Err::<
                (int, Seq<u8>),
                LandscapeError,
            >(error),
        },
{
    let ghost cells: Cells = world@;
    let ghost pair: (int, int) = grid_pair(grid);
    let edge: i32 = SQUARES_PER_CELL as i32;
    let base_x: i32 = grid[0] * edge;
    let base_y: i32 = grid[1] * edge;
    let first: i32 = world.get_elevation_canonical([base_x, base_y]);
    let mut last_pixel: i64 = first as i64;
    let mut last_row: i64 = first as i64;
    let mut data: Vec<u8> = Vec::new();
    let mut iy: usize = 0;
    while iy < VERTICES_PER_EDGE
        invariant
            0 <= iy <= 65,
            grid_in_range(grid),
            cells == world@,
            pair == grid_pair(grid),
            base_x == grid[0] * 64,
            base_y == grid[1] * 64,
            first == sample(cells, pair, 0, 0),
            last_row == sample(cells, pair, 0, if iy == 0 {
                0
            } else {
                iy - 1
            }),
            data@.len() == iy * 65,
            forall|k: int|
                0 <= k < iy * 65 ==> #[trigger] data@[k] == byte_of_delta(
                    derived_delta(cells, pair, k % 65, k / 65),
                ),
            first_steep(cells, pair, 0) == first_steep(cells, pair, iy * 65),
        decreases 65 - iy,
    {
        let mut ix: usize = 0;
        while ix < VERTICES_PER_EDGE
            invariant
                0 <= ix <= 65,
                0 <= iy < 65,
                grid_in_range(grid),
                cells == world@,
                pair == grid_pair(grid),
                base_x == grid[0] * 64,
                base_y == grid[1] * 64,
                first == sample(cells, pair, 0, 0),
                last_row == sample(cells, pair, 0, if ix == 0 {
                    if iy == 0 {
                        0
                    } else {
                        iy - 1
                    }
                } else {
                    iy as int
                }),
                ix > 0 ==> last_pixel == sample(cells, pair, ix - 1, iy as int),
                data@.len() == iy * 65 + ix,
                forall|k: int|
                    0 <= k < iy * 65 + ix ==> #[trigger] data@[k] == byte_of_delta(
                        derived_delta(cells, pair, k % 65, k / 65),
                    ),
                first_steep(cells, pair, 0) == first_steep(cells, pair, iy * 65 + ix),
            decreases 65 - ix,
        {
            let elevation: i64 = world.get_elevation_canonical(
                [base_x + ix as i32, base_y + iy as i32],
            ) as i64;
            let delta: i64;
            if ix == 0 {
                delta = elevation - last_row;
                last_row = elevation;
                last_pixel = elevation;
            } else {
                delta = elevation - last_pixel;
                last_pixel = elevation;
            }
            let ghost k: int = iy * 65 + ix;
            assert(k % 65 == ix && k / 65 == iy);
            assert(delta == derived_delta(cells, pair, ix as int, iy as int));
            if delta > 127 || delta < -128 {
                return Err(LandscapeError::GradientTooLarge { delta, min: i8::MIN, max: i8::MAX });
            }
            data.push(delta_to_byte(delta as i8));
            ix = ix + 1;
        }
        iy = iy + 1;
    }
    assert(data@ =~= derived_data(cells, pair));
    Ok((first, data))
}

} // verus!
