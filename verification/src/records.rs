use vstd::prelude::*;
use crate::constants::{GRID_MAX, GRID_MIN, LANDSCAPE_HEIGHT_DATA_SIZE, OFFSET_MAX, OFFSET_MIN};
use crate::encoding::{base64_decode, base64_decoded, base64_encode, base64_encoded, Base64Fault};
use crate::landscape::{
    decode_landscape, derived_fragment, encode_landscape, grid_in_range, grid_pair, ingested,
    offset_in_range, LandscapeError,
};
use crate::world_gen::world::{Cells, OpenmwWorld};

verus! {

/// What the elevation logic reads and writes of one landscape record.
#[derive(Debug, Clone)]
pub struct LandscapeRecord {
    /// The coordinates of the record's cell.
    pub grid: [i32; 2],
    /// The height of the fragment's starting point in raw units, where the record gives one.
    pub offset: Option<i32>,
    /// The fragment's 4225 deltas, row by row, as base64 text.
    pub data: String,
}

/// The starting height of a record: zero where it gives none.
pub open spec fn offset_of(record: LandscapeRecord) -> int {
    match record.offset {
        Some(offset) => offset as int,
        None => 0,
    }
}

/// The deltas of a fragment from what the base64 decoder made of its text:
/// the decoder's fault is passed on, and bytes are accepted only if there is
/// one for each vertex.
pub open spec fn checked_fragment(decoded: Result<Seq<u8>, Base64Fault>) -> Result<
    Seq<u8>,
    LandscapeError,
> {
    match decoded {
        Err(fault) => Err(LandscapeError::Undecodable(fault)),
        Ok(bytes) => if bytes.len() == 4225 {
            Ok(bytes)
        } else {
            Err(LandscapeError::WrongLength { expected: 4225, actual: bytes.len() as usize })
        },
    }
}

/// The deltas that a record carries, or why it carries none.
pub open spec fn fragment_of(record: LandscapeRecord) -> Result<Seq<u8>, LandscapeError> {
    checked_fragment(base64_decoded(record.data@))
}

/// The starting height of a record, zero where it gives none.
pub fn height_offset(record: &LandscapeRecord) -> (offset: i32)
    ensures
        offset == offset_of(*record),
{
    match record.offset {
        Some(offset) => offset,
        None => 0,
    }
}

/// What a base64 decoder has answered, with the bytes as a sequence.
pub open spec fn decoded_view(decoded: Result<Vec<u8>, Base64Fault>) -> Result<
    Seq<u8>,
    Base64Fault,
> {
    match decoded {
        Ok(bytes) => Ok(bytes@),
        Err(fault) => Err(fault),
    }
}

/// Accepts what a base64 decoder has answered as the deltas of a fragment if
/// it is bytes, and exactly 4225 of them.
pub fn fragment_from_decoded(decoded: Result<Vec<u8>, Base64Fault>) -> (result: Result<
    Vec<u8>,
    LandscapeError,
>)
    ensures
        match result {
            Ok(bytes) => checked_fragment(decoded_view(decoded)) == Ok::<Seq<u8>, LandscapeError>(
                bytes@,
            ),
            Err(error) => checked_fragment(decoded_view(decoded)) == Err::<
                Seq<u8>,
                LandscapeError,
            >(error),
        },
{
    match decoded {
        Err(fault) => Err(LandscapeError::Undecodable(fault)),
        Ok(bytes) => {
            if bytes.len() == LANDSCAPE_HEIGHT_DATA_SIZE {
                Ok(bytes)
            } else {
                Err(
                    LandscapeError::WrongLength {
                        expected: LANDSCAPE_HEIGHT_DATA_SIZE,
                        actual: bytes.len(),
                    },
                )
            }
        },
    }
}

/// Reads the deltas of a record from its base64 text.
pub fn read_fragment(record: &LandscapeRecord) -> (result: Result<Vec<u8>, LandscapeError>)
    ensures
        match result {
            Ok(bytes) => fragment_of(*record) == Ok::<Seq<u8>, LandscapeError>(bytes@),
            Err(error) => fragment_of(*record) == Err::<Seq<u8>, LandscapeError>(error),
        },
{
    fragment_from_decoded(base64_decode(record.data.as_str()))
}

/// Whether the heights of a record fit the machine's integers: the squares
/// that its fragment lies on have coordinates of the grid, and no height of it
/// leaves the range of `i32`.
pub open spec fn record_in_range(record: LandscapeRecord) -> bool {
    grid_in_range(record.grid) && offset_in_range(offset_of(record))
}

/// Tells whether the heights of a record fit the machine's integers.
pub fn is_record_in_range(record: &LandscapeRecord) -> (fits: bool)
    ensures
        fits == record_in_range(*record),
{
    let offset: i32 = height_offset(record);
    GRID_MIN <= record.grid[0] && record.grid[0] <= GRID_MAX && GRID_MIN <= record.grid[1]
        && record.grid[1] <= GRID_MAX && OFFSET_MIN <= offset && offset <= OFFSET_MAX
}

/// The world after the first `count` records are written into `start`, in the
/// order of the sequence, or the error of the first of them that carries no
/// fragment. A later record overwrites what an earlier one left on the squares
/// that both cover.
pub open spec fn ingest_pass(start: Cells, records: Seq<LandscapeRecord>, count: int) -> Result<
    Cells,
    LandscapeError,
>
    decreases count,
{
    if count <= 0 {
        Ok(start)
    } else {
        match ingest_pass(start, records, count - 1) {
            Err(error) => Err(error),
            Ok(cells) => match fragment_of(records[count - 1]) {
                Err(error) => Err(error),
                Ok(data) => Ok(
                    ingested(
                        cells,
                        grid_pair(records[count - 1].grid),
                        offset_of(records[count - 1]),
                        data,
                    ),
                ),
            },
        }
    }
}

/// The first record at or after number `from` whose fragment the world's
/// elevations do not give; the number of records if they give them all.
pub open spec fn first_unfit(cells: Cells, records: Seq<LandscapeRecord>, from: int) -> int
    decreases records.len() - from,
{
    if from >= records.len() {
        records.len() as int
    } else if derived_fragment(cells, grid_pair(records[from].grid)) is Err {
        from
    } else {
        first_unfit(cells, records, from + 1)
    }
}

/// Why the fragments of a list of records cannot all be derived from a world,
/// if they cannot: the error of the first record whose fragment the world's
/// elevations do not give.
pub open spec fn derive_failure(cells: Cells, records: Seq<LandscapeRecord>) -> Option<
    LandscapeError,
> {
    let unfit = first_unfit(cells, records, 0);
    if unfit < records.len() {
        Some(derived_fragment(cells, grid_pair(records[unfit].grid))->Err_0)
    } else {
        None
    }
}

/// The world that reconciliation reads the records back from: an empty world
/// with all of them written into it.
pub open spec fn reconciled_world(records: Seq<LandscapeRecord>) -> Result<Cells, LandscapeError> {
    ingest_pass(Map::empty(), records, records.len() as int)
}

/// Why a list of records cannot be reconciled, if it cannot: the error of the
/// first record that carries no fragment, or, where all carry one, the error
/// of the first record whose fragment the finished world does not give.
pub open spec fn reconcile_failure(records: Seq<LandscapeRecord>) -> Option<LandscapeError> {
    match reconciled_world(records) {
        Err(error) => Some(error),
        Ok(cells) => derive_failure(cells, records),
    }
}

/// Whether `after` is `before` with the offset and the deltas that the world
/// gives for its cell, and nothing else changed.
pub open spec fn rederived(cells: Cells, before: LandscapeRecord, after: LandscapeRecord) -> bool {
    match derived_fragment(cells, grid_pair(before.grid)) {
        Ok((offset, data)) => {
            &&& after.grid == before.grid
            &&& after.offset == Some(offset as i32)
            &&& after.data@ == base64_encoded(data)
        },
        Err(_) => false,
    }
}

/// The first record at or after number `from` that carries no fragment; the
/// number of records if all from there on carry one.
pub open spec fn first_unreadable(records: Seq<LandscapeRecord>, from: int) -> int
    decreases records.len() - from,
{
    if from >= records.len() {
        records.len() as int
    } else if fragment_of(records[from]) is Err {
        from
    } else {
        first_unreadable(records, from + 1)
    }
}

proof fn lemma_ingest_failure_stays(
    start: Cells,
    records: Seq<LandscapeRecord>,
    at: int,
    count: int,
)
    requires
        0 <= at <= count,
        ingest_pass(start, records, at) is Err,
    ensures
        ingest_pass(start, records, count) == ingest_pass(start, records, at),
    decreases count - at,
{
    if at < count {
        lemma_ingest_failure_stays(start, records, at, count - 1);
    }
}

/// The ingest pass: writes every record's fragment into the world, in the
/// order of the list. The first record that carries no fragment ends the pass
/// with its error; the records before it have been written by then.
pub fn ingest_landscapes(world: &mut OpenmwWorld, records: &Vec<LandscapeRecord>) -> (result:
    Result<(), LandscapeError>)
    requires
        forall|i: int| 0 <= i < records@.len() ==> record_in_range(#[trigger] records@[i]),
    ensures
        match result {
            Ok(()) => ingest_pass(old(world)@, records@, records@.len() as int) == Ok::<
                Cells,
                LandscapeError,
            >(final(world)@),
            Err(error) => {
                let unreadable = first_unreadable(records@, 0);
                &&& ingest_pass(old(world)@, records@, records@.len() as int) == Err::<
                    Cells,
                    LandscapeError,
                >(error)
                &&& 0 <= unreadable < records@.len()
                &&& fragment_of(records@[unreadable]) == Err::<Seq<u8>, LandscapeError>(error)
                &&& ingest_pass(old(world)@, records@, unreadable) == Ok::<Cells, LandscapeError>(
                    final(world)@,
                )
            },
        },
{
    let ghost start: Cells = world@;
    let mut i: usize = 0;
    while i < records.len()
        invariant
            0 <= i <= records@.len(),
            start == old(world)@,
            forall|j: int| 0 <= j < records@.len() ==> record_in_range(#[trigger] records@[j]),
            ingest_pass(start, records@, i as int) == Ok::<Cells, LandscapeError>(world@),
            first_unreadable(records@, 0) == first_unreadable(records@, i as int),
        decreases records@.len() - i,
    {
        let record = &records[i];
        let offset: i32 = height_offset(record);
        match read_fragment(record) {
            Err(error) => {
                proof {
                    assert(ingest_pass(start, records@, i + 1) == Err::<Cells, LandscapeError>(
                        error,
                    ));
                    lemma_ingest_failure_stays(start, records@, i + 1, records@.len() as int);
                }
                return Err(error);
            },
            Ok(data) => {
                let written = decode_landscape(world, record.grid, offset, data.as_slice());
                assert(written is Ok);
            },
        }
        i = i + 1;
    }
    Ok(())
}

/// The derive pass: gives every record the offset and the deltas that the
/// world holds for its cell, and leaves the world as it is. The first record
/// whose deltas do not all fit a signed byte ends the pass with its error.
pub fn derive_landscapes(world: &OpenmwWorld, records: &Vec<LandscapeRecord>) -> (result: Result<
    Vec<LandscapeRecord>,
    LandscapeError,
>)
    requires
        forall|i: int| 0 <= i < records@.len() ==> grid_in_range(#[trigger] records@[i].grid),
    ensures
        match result {
            Ok(fresh) => {
                &&& derive_failure(world@, records@) is None
                &&& fresh@.len() == records@.len()
                &&& forall|i: int|
                    0 <= i < records@.len() ==> rederived(world@, records@[i], #[trigger] fresh@[i])
            },
            Err(error) => derive_failure(world@, records@) == Some(error),
        },
{
    let ghost cells: Cells = world@;
    let mut fresh: Vec<LandscapeRecord> = Vec::new();
    let mut i: usize = 0;
    while i < records.len()
        invariant
            0 <= i <= records@.len(),
            cells == world@,
            forall|j: int| 0 <= j < records@.len() ==> grid_in_range(#[trigger] records@[j].grid),
            fresh@.len() == i,
            forall|j: int| 0 <= j < i ==> rederived(cells, records@[j], #[trigger] fresh@[j]),
            first_unfit(cells, records@, 0) == first_unfit(cells, records@, i as int),
        decreases records@.len() - i,
    {
        let grid: [i32; 2] = records[i].grid;
        match encode_landscape(world, grid) {
            Err(error) => {
                assert(first_unfit(cells, records@, i as int) == i);
                return Err(error);
            },
            Ok((offset, data)) => {
                let text = base64_encode(data.as_slice());
                fresh.push(LandscapeRecord { grid, offset: Some(offset), data: text });
            },
        }
        i = i + 1;
    }
    Ok(fresh)
}

/// Reconciles the elevations of all landscape records of one build.
///
/// First every record's fragment is written into one empty world, in the
/// order of the list; where two records cover the same square, the later one
/// decides. Only then is each record's offset and delta text derived again
/// from that world, so that records that share an edge agree on it. On success
/// every record holds its derived offset and deltas and is otherwise unchanged.
/// If any record carries no fragment, or any derived delta does not fit a
/// signed byte, the error of the first such record is returned and no record
/// is changed.
pub fn validate_records_together(records: &mut Vec<LandscapeRecord>) -> (result: Result<
    (),
    LandscapeError,
>)
    requires
        forall|i: int| 0 <= i < old(records)@.len() ==> record_in_range(#[trigger] old(records)@[i]),
    ensures
        match result {
            Ok(()) => {
                &&& reconcile_failure(old(records)@) is None
                &&& final(records)@.len() == old(records)@.len()
                &&& forall|i: int|
                    0 <= i < old(records)@.len() ==> rederived(
                        reconciled_world(old(records)@)->Ok_0,
                        old(records)@[i],
                        #[trigger] final(records)@[i],
                    )
            },
            Err(error) => {
                &&& reconcile_failure(old(records)@) == Some(error)
                &&& final(records)@ == old(records)@
            },
        },
{
    let mut openmw_world = OpenmwWorld::new();
    match ingest_landscapes(&mut openmw_world, records) {
        Err(error) => {
            return Err(error);
        },
        Ok(()) => {},
    }
    match derive_landscapes(&openmw_world, records) {
        Err(error) => Err(error),
        Ok(fresh) => {
            *records = fresh;
            Ok(())
        },
    }
}

} // verus!
