use vstd::prelude::*;
use crate::landscape::{
    delta_at, delta_fits, derived_data, derived_delta, derived_fragment, first_steep,
    fragment_height, grid_pair, in_footprint, ingested, lemma_fragment_height_bounds,
    offset_in_range, row_anchor, sample, LandscapeError,
};
use crate::records::{
    first_unfit, fragment_of, ingest_pass, offset_of, reconcile_failure, reconciled_world,
    LandscapeRecord,
};
use crate::world_gen::world::{
    cell_of, cells_well_formed, index_in_cell, parts_of_raw, raw_at, raw_of_parts, stored_at, Cells,
};

verus! {

/// Writing a fragment leaves every cell with one sample per square.
pub proof fn lemma_ingested_well_formed(
    cells: Cells,
    grid: (int, int),
    offset: int,
    data: Seq<u8>,
)
    requires
        cells_well_formed(cells),
    ensures
        cells_well_formed(ingested(cells, grid, offset, data)),
{
}

/// After a fragment is written, the world holds the fragment's height at each
/// of its vertices.
pub proof fn lemma_ingested_inside(
    cells: Cells,
    grid: (int, int),
    offset: int,
    data: Seq<u8>,
    ix: int,
    iy: int,
)
    requires
        offset_in_range(offset),
        0 <= ix <= 64,
        0 <= iy <= 64,
    ensures
        sample(ingested(cells, grid, offset, data), grid, ix, iy) == fragment_height(
            offset,
            data,
            ix,
            iy,
        ),
{
    let after = ingested(cells, grid, offset, data);
    let x = grid.0 * 64 + ix;
    let y = grid.1 * 64 + iy;
    let c = cell_of(x, y);
    let i = index_in_cell(x, y);
    assert(c == (grid.0 + ix / 64, grid.1 + iy / 64));
    assert(i == ix % 64 + (iy % 64) * 64);
    assert(c.0 * 64 + i % 64 == x);
    assert(c.1 * 64 + i / 64 == y);
    lemma_fragment_height_bounds(offset, data, ix, iy);
    let height = fragment_height(offset, data, ix, iy);
    assert(after[c][i] == parts_of_raw(height) as i64);
    assert(raw_of_parts(parts_of_raw(height)) == height);
}

/// Writing a fragment changes no square that is not one of its vertices.
pub proof fn lemma_ingested_outside(
    cells: Cells,
    grid: (int, int),
    offset: int,
    data: Seq<u8>,
    x: int,
    y: int,
)
    requires
        cells_well_formed(cells),
        !in_footprint(grid, x, y),
    ensures
        stored_at(ingested(cells, grid, offset, data), x, y) == stored_at(cells, x, y),
{
    let c = cell_of(x, y);
    let i = index_in_cell(x, y);
    assert(c.0 * 64 + i % 64 == x);
    assert(c.1 * 64 + i / 64 == y);
}

/// Right after a fragment is written, the deltas that the world gives for its
/// cell are the fragment's own, but for the first: that one has gone into the offset.
proof fn lemma_deltas_of_ingested(
    cells: Cells,
    grid: (int, int),
    offset: int,
    data: Seq<u8>,
    ix: int,
    iy: int,
)
    requires
        offset_in_range(offset),
        0 <= ix <= 64,
        0 <= iy <= 64,
    ensures
        derived_delta(ingested(cells, grid, offset, data), grid, ix, iy) == if ix == 0 && iy == 0 {
            0
        } else {
            delta_at(data, ix, iy)
        },
{
    lemma_ingested_inside(cells, grid, offset, data, ix, iy);
    if ix > 0 {
        lemma_ingested_inside(cells, grid, offset, data, ix - 1, iy);
    } else if iy > 0 {
        lemma_ingested_inside(cells, grid, offset, data, 0, iy - 1);
    }
}

proof fn lemma_no_steep_after_ingest(
    cells: Cells,
    grid: (int, int),
    offset: int,
    data: Seq<u8>,
    from: int,
)
    requires
        offset_in_range(offset),
        0 <= from,
    ensures
        first_steep(ingested(cells, grid, offset, data), grid, from) == 4225,
    decreases 4225 - from,
{
    if from < 4225 {
        lemma_deltas_of_ingested(cells, grid, offset, data, from % 65, from / 65);
        lemma_no_steep_after_ingest(cells, grid, offset, data, from + 1);
    }
}

/// Decoding a fragment and encoding its cell again, with nothing written in
/// between, gives the same fragment in its normal form: the first delta is
/// added to the offset and becomes zero, and every other delta comes back
/// byte for byte.
pub proof fn lemma_decode_then_encode(cells: Cells, grid: (int, int), offset: int, data: Seq<u8>)
    requires
        offset_in_range(offset),
        data.len() == 4225,
    ensures
        derived_fragment(ingested(cells, grid, offset, data), grid) == Ok::<
            (int, Seq<u8>),
            LandscapeError,
        >((offset + delta_at(data, 0, 0), data.update(0, 0u8))),
{
    let after = ingested(cells, grid, offset, data);
    lemma_no_steep_after_ingest(cells, grid, offset, data, 0);
    lemma_ingested_inside(cells, grid, offset, data, 0, 0);
    assert(fragment_height(offset, data, 0, 0) == offset + delta_at(data, 0, 0)) by {
        assert(row_anchor(offset, data, 0) == row_anchor(offset, data, -1) + delta_at(data, 0, 0));
    }
    assert forall|k: int| 0 <= k < 4225 implies derived_data(after, grid)[k] == data.update(
        0,
        0u8,
    )[k] by {
        lemma_deltas_of_ingested(cells, grid, offset, data, k % 65, k / 65);
    }
    assert(derived_data(after, grid) =~= data.update(0, 0u8));
}

/// A fragment whose first delta is zero comes back unchanged, offset and
/// deltas, when it is decoded and its cell is encoded again with nothing
/// written in between.
pub proof fn lemma_round_trip(cells: Cells, grid: (int, int), offset: int, data: Seq<u8>)
    requires
        offset_in_range(offset),
        data.len() == 4225,
        data[0] == 0,
    ensures
        derived_fragment(ingested(cells, grid, offset, data), grid) == Ok::<
            (int, Seq<u8>),
            LandscapeError,
        >((offset, data)),
{
    lemma_decode_then_encode(cells, grid, offset, data);
    assert(data.update(0, 0u8) =~= data);
}

proof fn lemma_all_fit(cells: Cells, grid: (int, int), from: int, k: int)
    requires
        0 <= from <= k < 4225,
        first_steep(cells, grid, from) >= 4225,
    ensures
        delta_fits(derived_delta(cells, grid, k % 65, k / 65)),
    decreases k - from,
{
    if from < k {
        lemma_all_fit(cells, grid, from + 1, k);
    }
}

/// Where the world's elevations give a fragment, every one of its deltas is
/// the step between two neighbouring elevations, fits a signed byte and is
/// stored without loss.
pub proof fn lemma_delta_of_derived(cells: Cells, grid: (int, int), ix: int, iy: int)
    requires
        derived_fragment(cells, grid) is Ok,
        0 <= ix <= 64,
        0 <= iy <= 64,
    ensures
        delta_fits(derived_delta(cells, grid, ix, iy)),
        delta_at(derived_fragment(cells, grid)->Ok_0.1, ix, iy) == derived_delta(
            cells,
            grid,
            ix,
            iy,
        ),
        derived_fragment(cells, grid)->Ok_0.1.len() == 4225,
        derived_fragment(cells, grid)->Ok_0.0 == sample(cells, grid, 0, 0),
{
    let k = iy * 65 + ix;
    assert(k % 65 == ix && k / 65 == iy);
    lemma_all_fit(cells, grid, 0, k);
}

proof fn lemma_anchor_of_derived(cells: Cells, grid: (int, int), iy: int)
    requires
        derived_fragment(cells, grid) is Ok,
        0 <= iy <= 64,
    ensures
        row_anchor(
            derived_fragment(cells, grid)->Ok_0.0,
            derived_fragment(cells, grid)->Ok_0.1,
            iy,
        ) == sample(cells, grid, 0, iy),
    decreases iy,
{
    let offset = derived_fragment(cells, grid)->Ok_0.0;
    let data = derived_fragment(cells, grid)->Ok_0.1;
    lemma_delta_of_derived(cells, grid, 0, iy);
    if iy > 0 {
        lemma_anchor_of_derived(cells, grid, iy - 1);
    } else {
        assert(row_anchor(offset, data, -1) == offset);
    }
}

/// Encoding the cell of a fragment loses nothing: the heights of the derived
/// fragment are the elevations that the world holds at its vertices.
pub proof fn lemma_encode_then_decode(cells: Cells, grid: (int, int), ix: int, iy: int)
    requires
        derived_fragment(cells, grid) is Ok,
        0 <= ix <= 64,
        0 <= iy <= 64,
    ensures
        fragment_height(
            derived_fragment(cells, grid)->Ok_0.0,
            derived_fragment(cells, grid)->Ok_0.1,
            ix,
            iy,
        ) == sample(cells, grid, ix, iy),
    decreases ix,
{
    if ix > 0 {
        lemma_delta_of_derived(cells, grid, ix, iy);
        lemma_encode_then_decode(cells, grid, ix - 1, iy);
    } else {
        lemma_anchor_of_derived(cells, grid, iy);
    }
}

/// What the encoder gives is in normal form: written back into any world and
/// encoded again, it comes back unchanged.
pub proof fn lemma_derived_fragment_is_stable(cells: Cells, grid: (int, int), other: Cells)
    requires
        derived_fragment(cells, grid) is Ok,
        offset_in_range(derived_fragment(cells, grid)->Ok_0.0),
    ensures
        derived_fragment(
            ingested(
                other,
                grid,
                derived_fragment(cells, grid)->Ok_0.0,
                derived_fragment(cells, grid)->Ok_0.1,
            ),
            grid,
        ) == derived_fragment(cells, grid),
{
    let offset = derived_fragment(cells, grid)->Ok_0.0;
    let data = derived_fragment(cells, grid)->Ok_0.1;
    lemma_decode_then_encode(other, grid, offset, data);
    assert(data[0] == 0);
    assert(data.update(0, 0u8) =~= data);
}

/// A step between two neighbouring elevations of a cell that does not fit a
/// signed byte makes the encoding of that cell fail: no fragment is given.
pub proof fn lemma_steep_step_is_refused(cells: Cells, grid: (int, int), ix: int, iy: int)
    requires
        0 <= ix <= 64,
        0 <= iy <= 64,
        !delta_fits(derived_delta(cells, grid, ix, iy)),
    ensures
        derived_fragment(cells, grid) is Err,
{
    let k = iy * 65 + ix;
    assert(k % 65 == ix && k / 65 == iy);
    if first_steep(cells, grid, 0) >= 4225 {
        lemma_all_fit(cells, grid, 0, k);
    }
}

/// Encoding fails fast: where a step does not fit a signed byte and every step
/// before it, in row-major order, does, the encoding fails with that step.
pub proof fn lemma_first_steep_step_is_reported(cells: Cells, grid: (int, int), at: int)
    requires
        0 <= at < 4225,
        !delta_fits(derived_delta(cells, grid, at % 65, at / 65)),
        forall|k: int|
            0 <= k < at ==> delta_fits(#[trigger] derived_delta(cells, grid, k % 65, k / 65)),
    ensures
        first_steep(cells, grid, 0) == at,
        derived_fragment(cells, grid) == Err::<(int, Seq<u8>), LandscapeError>(
            LandscapeError::GradientTooLarge {
                delta: derived_delta(cells, grid, at % 65, at / 65) as i64,
                min: i8::MIN,
                max: i8::MAX,
            },
        ),
{
    lemma_first_steep(cells, grid, 0);
    let steep = first_steep(cells, grid, 0);
    if steep < at {
        assert(delta_fits(derived_delta(cells, grid, steep % 65, steep / 65)));
    }
}

/// The error of an encoding names a step that does not fit a signed byte.
pub proof fn lemma_refusal_names_a_steep_step(cells: Cells, grid: (int, int))
    requires
        derived_fragment(cells, grid) is Err,
    ensures
        derived_fragment(cells, grid)->Err_0 is GradientTooLarge,
        ({
            let steep = first_steep(cells, grid, 0);
            &&& 0 <= steep < 4225
            &&& !delta_fits(derived_delta(cells, grid, steep % 65, steep / 65))
            &&& forall|k: int|
                0 <= k < steep ==> delta_fits(
                    #[trigger] derived_delta(cells, grid, k % 65, k / 65),
                )
        }),
{
    lemma_first_steep(cells, grid, 0);
}

proof fn lemma_first_steep(cells: Cells, grid: (int, int), from: int)
    requires
        0 <= from <= 4225,
    ensures
        from <= first_steep(cells, grid, from) <= 4225,
        first_steep(cells, grid, from) < 4225 ==> !delta_fits(
            derived_delta(
                cells,
                grid,
                first_steep(cells, grid, from) % 65,
                first_steep(cells, grid, from) / 65,
            ),
        ),
        forall|k: int|
            from <= k < first_steep(cells, grid, from) ==> delta_fits(
                #[trigger] derived_delta(cells, grid, k % 65, k / 65),
            ),
    decreases 4225 - from,
{
    if from < 4225 && delta_fits(derived_delta(cells, grid, from % 65, from / 65)) {
        lemma_first_steep(cells, grid, from + 1);
    }
}

/// The last vertex of a row of a fragment is stored in the cell to the east,
/// at the start of the same row; the last row of a fragment in the cell to the
/// north, at the start of the same column.
pub proof fn lemma_far_edges_lie_in_the_next_cells(grid: (int, int), along: int)
    requires
        0 <= along < 64,
    ensures
        cell_of(grid.0 * 64 + 64, grid.1 * 64 + along) == (grid.0 + 1, grid.1),
        index_in_cell(grid.0 * 64 + 64, grid.1 * 64 + along) == index_in_cell(0, along),
        cell_of(grid.0 * 64 + along, grid.1 * 64 + 64) == (grid.0, grid.1 + 1),
        index_in_cell(grid.0 * 64 + along, grid.1 * 64 + 64) == index_in_cell(along, 0),
        cell_of(grid.0 * 64 + 64, grid.1 * 64 + 64) == (grid.0 + 1, grid.1 + 1),
        index_in_cell(grid.0 * 64 + 64, grid.1 * 64 + 64) == 0,
{
}

/// The last vertex of a row of one cell is the first vertex of the same row of
/// the cell to its east: both read the same square of the world.
pub proof fn lemma_shared_edge_east(cells: Cells, grid: (int, int), iy: int)
    ensures
        sample(cells, grid, 64, iy) == sample(cells, (grid.0 + 1, grid.1), 0, iy),
{
}

/// The last vertex of a column of one cell is the first vertex of the same
/// column of the cell to its north: both read the same square of the world.
pub proof fn lemma_shared_edge_north(cells: Cells, grid: (int, int), ix: int)
    ensures
        sample(cells, grid, ix, 64) == sample(cells, (grid.0, grid.1 + 1), ix, 0),
{
}

/// The far corner of one cell is the first vertex of the cell diagonally
/// across: both read the same square of the world.
pub proof fn lemma_shared_corner(cells: Cells, grid: (int, int))
    ensures
        sample(cells, grid, 64, 64) == sample(cells, (grid.0 + 1, grid.1 + 1), 0, 0),
{
}

/// Fragments derived from one world for two cells side by side have the same
/// heights along the edge that they share.
pub proof fn lemma_derived_neighbours_agree_east(cells: Cells, grid: (int, int), iy: int)
    requires
        derived_fragment(cells, grid) is Ok,
        derived_fragment(cells, (grid.0 + 1, grid.1)) is Ok,
        0 <= iy <= 64,
    ensures
        ({
            let west = derived_fragment(cells, grid)->Ok_0;
            let east = derived_fragment(cells, (grid.0 + 1, grid.1))->Ok_0;
            fragment_height(west.0, west.1, 64, iy) == fragment_height(east.0, east.1, 0, iy)
        }),
{
    lemma_encode_then_decode(cells, grid, 64, iy);
    lemma_encode_then_decode(cells, (grid.0 + 1, grid.1), 0, iy);
}

/// Fragments derived from one world for two cells one above the other have
/// the same heights along the edge that they share.
pub proof fn lemma_derived_neighbours_agree_north(cells: Cells, grid: (int, int), ix: int)
    requires
        derived_fragment(cells, grid) is Ok,
        derived_fragment(cells, (grid.0, grid.1 + 1)) is Ok,
        0 <= ix <= 64,
    ensures
        ({
            let south = derived_fragment(cells, grid)->Ok_0;
            let north = derived_fragment(cells, (grid.0, grid.1 + 1))->Ok_0;
            fragment_height(south.0, south.1, ix, 64) == fragment_height(north.0, north.1, ix, 0)
        }),
{
    lemma_encode_then_decode(cells, grid, ix, 64);
    lemma_encode_then_decode(cells, (grid.0, grid.1 + 1), ix, 0);
}

/// The world only grows: writing a fragment removes no cell.
pub proof fn lemma_ingested_keeps_cells(
    cells: Cells,
    grid: (int, int),
    offset: int,
    data: Seq<u8>,
    c: (int, int),
)
    requires
        cells.contains_key(c),
    ensures
        ingested(cells, grid, offset, data).contains_key(c),
{
}

/// Whatever records are written, every cell of the world holds one sample per square.
pub proof fn lemma_ingest_pass_well_formed(
    start: Cells,
    records: Seq<LandscapeRecord>,
    count: int,
)
    requires
        cells_well_formed(start),
        ingest_pass(start, records, count) is Ok,
    ensures
        cells_well_formed(ingest_pass(start, records, count)->Ok_0),
    decreases count,
{
    if count > 0 {
        lemma_ingest_pass_well_formed(start, records, count - 1);
    }
}

/// A square that no fragment covers holds after the ingest pass what it held before.
pub proof fn lemma_uncovered_square_is_kept(
    start: Cells,
    records: Seq<LandscapeRecord>,
    count: int,
    x: int,
    y: int,
)
    requires
        cells_well_formed(start),
        0 <= count <= records.len(),
        ingest_pass(start, records, count) is Ok,
        forall|k: int|
            0 <= k < count ==> !in_footprint(grid_pair(#[trigger] records[k].grid), x, y),
    ensures
        stored_at(ingest_pass(start, records, count)->Ok_0, x, y) == stored_at(start, x, y),
    decreases count,
{
    if count > 0 {
        let last = records[count - 1];
        lemma_uncovered_square_is_kept(start, records, count - 1, x, y);
        lemma_ingest_pass_well_formed(start, records, count - 1);
        lemma_ingested_outside(
            ingest_pass(start, records, count - 1)->Ok_0,
            grid_pair(last.grid),
            offset_of(last),
            fragment_of(last)->Ok_0,
            x,
            y,
        );
    }
}

/// The last writer decides. After the ingest pass, a square holds the height
/// that the last record covering it gives: the record latest in the list
/// among those whose fragment has a vertex there.
pub proof fn lemma_last_writer_wins(
    start: Cells,
    records: Seq<LandscapeRecord>,
    count: int,
    last: int,
    x: int,
    y: int,
)
    requires
        cells_well_formed(start),
        0 <= last < count <= records.len(),
        ingest_pass(start, records, count) is Ok,
        offset_in_range(offset_of(records[last])),
        in_footprint(grid_pair(records[last].grid), x, y),
        forall|k: int|
            last < k < count ==> !in_footprint(grid_pair(#[trigger] records[k].grid), x, y),
    ensures
        raw_at(ingest_pass(start, records, count)->Ok_0, x, y) == fragment_height(
            offset_of(records[last]),
            fragment_of(records[last])->Ok_0,
            x - records[last].grid[0] * 64,
            y - records[last].grid[1] * 64,
        ),
    decreases count,
{
    let record = records[count - 1];
    let before = ingest_pass(start, records, count - 1)->Ok_0;
    let grid = grid_pair(record.grid);
    if last == count - 1 {
        lemma_ingested_inside(
            before,
            grid,
            offset_of(record),
            fragment_of(record)->Ok_0,
            x - grid.0 * 64,
            y - grid.1 * 64,
        );
    } else {
        lemma_last_writer_wins(start, records, count - 1, last, x, y);
        lemma_ingest_pass_well_formed(start, records, count - 1);
        lemma_ingested_outside(before, grid, offset_of(record), fragment_of(record)->Ok_0, x, y);
    }
}

proof fn lemma_first_unfit(cells: Cells, records: Seq<LandscapeRecord>, from: int, k: int)
    requires
        0 <= from <= k < records.len(),
        first_unfit(cells, records, from) >= records.len(),
    ensures
        derived_fragment(cells, grid_pair(records[k].grid)) is Ok,
    decreases k - from,
{
    if from < k {
        lemma_first_unfit(cells, records, from + 1, k);
    }
}

/// Where reconciliation succeeds, the world's elevations give a fragment for
/// every record.
pub proof fn lemma_reconciled_all_derived(records: Seq<LandscapeRecord>, k: int)
    requires
        reconcile_failure(records) is None,
        0 <= k < records.len(),
    ensures
        reconciled_world(records) is Ok,
        derived_fragment(reconciled_world(records)->Ok_0, grid_pair(records[k].grid)) is Ok,
{
    lemma_first_unfit(reconciled_world(records)->Ok_0, records, 0, k);
}

/// After a successful reconciliation, two records whose cells lie side by
/// side carry the same heights along the edge that they share, whatever each
/// of them held there before: the heights that the world holds there.
pub proof fn lemma_reconciled_seam_east(
    records: Seq<LandscapeRecord>,
    west: int,
    east: int,
    iy: int,
)
    requires
        reconcile_failure(records) is None,
        0 <= west < records.len(),
        0 <= east < records.len(),
        records[east].grid[0] == records[west].grid[0] + 1,
        records[east].grid[1] == records[west].grid[1],
        0 <= iy <= 64,
    ensures
        ({
            let cells = reconciled_world(records)->Ok_0;
            let a = derived_fragment(cells, grid_pair(records[west].grid))->Ok_0;
            let b = derived_fragment(cells, grid_pair(records[east].grid))->Ok_0;
            &&& fragment_height(a.0, a.1, 64, iy) == fragment_height(b.0, b.1, 0, iy)
            &&& fragment_height(a.0, a.1, 64, iy) == sample(
                cells,
                grid_pair(records[west].grid),
                64,
                iy,
            )
        }),
{
    let cells = reconciled_world(records)->Ok_0;
    lemma_reconciled_all_derived(records, west);
    lemma_reconciled_all_derived(records, east);
    lemma_encode_then_decode(cells, grid_pair(records[west].grid), 64, iy);
    lemma_encode_then_decode(cells, grid_pair(records[east].grid), 0, iy);
}

/// After a successful reconciliation, two records whose cells lie one above
/// the other carry the same heights along the edge that they share: the
/// heights that the world holds there.
pub proof fn lemma_reconciled_seam_north(
    records: Seq<LandscapeRecord>,
    south: int,
    north: int,
    ix: int,
)
    requires
        reconcile_failure(records) is None,
        0 <= south < records.len(),
        0 <= north < records.len(),
        records[north].grid[0] == records[south].grid[0],
        records[north].grid[1] == records[south].grid[1] + 1,
        0 <= ix <= 64,
    ensures
        ({
            let cells = reconciled_world(records)->Ok_0;
            let a = derived_fragment(cells, grid_pair(records[south].grid))->Ok_0;
            let b = derived_fragment(cells, grid_pair(records[north].grid))->Ok_0;
            &&& fragment_height(a.0, a.1, ix, 64) == fragment_height(b.0, b.1, ix, 0)
            &&& fragment_height(a.0, a.1, ix, 64) == sample(
                cells,
                grid_pair(records[south].grid),
                ix,
                64,
            )
        }),
{
    let cells = reconciled_world(records)->Ok_0;
    lemma_reconciled_all_derived(records, south);
    lemma_reconciled_all_derived(records, north);
    lemma_encode_then_decode(cells, grid_pair(records[south].grid), ix, 64);
    lemma_encode_then_decode(cells, grid_pair(records[north].grid), ix, 0);
}

/// A single record whose fragment starts with a zero delta is reconciled to
/// itself: its offset and its deltas come back byte for byte.
pub proof fn lemma_single_record_round_trip(record: LandscapeRecord)
    requires
        fragment_of(record) is Ok,
        fragment_of(record)->Ok_0[0] == 0,
        offset_in_range(offset_of(record)),
    ensures
        reconcile_failure(seq![record]) is None,
        derived_fragment(reconciled_world(seq![record])->Ok_0, grid_pair(record.grid)) == Ok::<
            (int, Seq<u8>),
            LandscapeError,
        >((offset_of(record), fragment_of(record)->Ok_0)),
{
    let records = seq![record];
    let data = fragment_of(record)->Ok_0;
    assert(records[0] == record);
    assert(ingest_pass(Map::empty(), records, 0) == Ok::<Cells, LandscapeError>(Map::empty()));
    assert(reconciled_world(records) == ingest_pass(Map::empty(), records, 1));
    lemma_round_trip(Map::empty(), grid_pair(record.grid), offset_of(record), data);
    let cells = reconciled_world(records)->Ok_0;
    assert(first_unfit(cells, records, 1) == 1);
    assert(first_unfit(cells, records, 0) == 1);
}

} // verus!
