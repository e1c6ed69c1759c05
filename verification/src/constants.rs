use vstd::prelude::*;

verus! {

/// Edge length of one cell, in elevation squares.
pub const SQUARES_PER_CELL: usize = 64;

/// Number of elevation samples that one cell stores: one per square.
pub const SAMPLES_PER_CELL: usize = 4096;

/// Number of height samples along one edge of a landscape fragment. The last
/// sample of a row or column lies on the first square of the neighbouring cell.
pub const VERTICES_PER_EDGE: usize = 65;

/// Number of height deltas that one landscape fragment carries.
pub const LANDSCAPE_HEIGHT_DATA_SIZE: usize = 4225;

/// Height of one raw step of a landscape fragment, in game units.
pub const LAND_RECORD_SCALER: i64 = 8;

/// Twice the number of game units in one metre: a metre is 69.5 game units.
pub const TODD_UNIT_DOUBLED: i64 = 139;

/// Stored elevations count parts of a metre, as many to the metre as there
/// are half game units in it. That keeps every converted height an integer.
pub const PARTS_PER_METRE: i64 = TODD_UNIT_DOUBLED;

/// One raw step in stored parts: 8 / 69.5 m is 16 parts of 139 to the metre.
pub const PARTS_PER_RAW_STEP: i64 = 2 * LAND_RECORD_SCALER;

/// The least cell coordinate of a landscape record: the squares of the cell
/// still have coordinates of 32 bits.
pub const GRID_MIN: i32 = -33554432;

/// The greatest cell coordinate of a landscape record: the squares of the
/// cell, and the first squares of the cell after it, still have coordinates of
/// 32 bits.
pub const GRID_MAX: i32 = 33554430;

/// The least offset of a landscape record: 129 steps down, each the largest
/// that a delta can make, still end at a height of 32 bits.
pub const OFFSET_MIN: i32 = -2147467136;

/// The greatest offset of a landscape record: 129 steps up, each the largest
/// that a delta can make, still end at a height of 32 bits.
pub const OFFSET_MAX: i32 = 2147467264;

} // verus!
