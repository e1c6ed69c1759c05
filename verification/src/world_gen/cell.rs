use vstd::prelude::*;
use crate::constants::{SAMPLES_PER_CELL, SQUARES_PER_CELL};

verus! {

/// A dense block of elevation samples for one cell of the world grid: one
/// sample per square, stored row by row, in 139ths of a metre.
#[derive(Debug)]
pub struct OpenmwCell {
    elevations: [i64; SAMPLES_PER_CELL],
}

impl View for OpenmwCell {
    type V = Seq<i64>;

    /// The samples in storage order: the sample of square `(x, y)` stands at `x + 64 * y`.
    closed spec fn view(&self) -> Seq<i64> {
        self.elevations@
    }
}

/// The contents of a cell that nothing was written to.
pub open spec fn blank_cell() -> Seq<i64> {
    Seq::new(4096, |i: int| 0i64)
}

impl Clone for OpenmwCell {
    /// A copy with the same samples.
    fn clone(&self) -> (copy: Self)
        ensures
            copy@ == self@,
    {
        OpenmwCell { elevations: self.elevations }
    }
}

impl OpenmwCell {
    /// Every cell holds exactly one sample per square.
    pub proof fn lemma_len(&self)
        ensures
            self@.len() == 4096,
    {
    }

    /// A cell with every elevation at zero.
    pub fn new() -> (cell: Self)
        ensures
            cell@ == blank_cell(),
    {
        let cell = OpenmwCell { elevations: [0; SAMPLES_PER_CELL] };
        assert(cell@ =~= blank_cell());
        cell
    }

    /// The stored elevation of one square. The two coordinates address the
    /// row-major storage directly, so a pair is accepted as long as it falls
    /// inside the block.
    pub fn get_elevation(&self, square_within_cell: [u32; 2]) -> (value: i64)
        requires
            square_within_cell[0] + square_within_cell[1] * 64 < 4096,
        ensures
            value == self@[square_within_cell[0] + square_within_cell[1] * 64],
    {
        let x: usize = square_within_cell[0] as usize;
        let y: usize = square_within_cell[1] as usize;
        self.elevations[x + y * SQUARES_PER_CELL]
    }

    /// Overwrites the stored elevation of one square and leaves the others as they were.
    pub fn set_elevation(&mut self, square_within_cell: [u32; 2], value: i64)
        requires
            square_within_cell[0] + square_within_cell[1] * 64 < 4096,
        ensures
            final(self)@ == old(self)@.update(
                square_within_cell[0] + square_within_cell[1] * 64,
                value,
            ),
    {
        let x: usize = square_within_cell[0] as usize;
        let y: usize = square_within_cell[1] as usize;
        self.elevations[x + y * SQUARES_PER_CELL] = value;
    }
}

} // verus!
