//! The raw network output tensor: an owned row-major 2D grid of fixed-point
//! numbers, one row per anchor/candidate, with bounds-checked access.
//!
//! Shape: numRows x (5 + numClasses). Columns are
//! [centerX, centerY, width, height, objectness, classScore_0, ...], all in
//! fixed-point units of `FIXED_ONE`.
use vstd::prelude::*;

use crate::CELL_LIMIT;

verus! {

/// A raw output tensor. `cols` is the common row width; rows are appended
/// one at a time and always hold exactly `cols` cells.
pub struct RawTensor {
    pub cols: usize,
    pub rows: Vec<Vec<i64>>,
}

impl View for RawTensor {
    type V = Seq<Seq<i64>>;

    open spec fn view(&self) -> Seq<Seq<i64>> {
        self.rows@.map_values(|r: Vec<i64>| r@)
    }
}

impl RawTensor {
    /// Well-formed: at least one class-score column, every row has exactly
    /// `cols` cells, and every cell is a fixed-point value in [0, CELL_LIMIT].
    pub open spec fn wf(&self) -> bool {
        &&& self.cols >= 6
        &&& forall|i: int| 0 <= i < self@.len() ==> (#[trigger] self@[i]).len() == self.cols
        &&& forall|i: int, j: int|
            0 <= i < self@.len() && 0 <= j < self@[i].len() ==> 0 <= #[trigger] self@[i][j]
                <= CELL_LIMIT
    }

    /// An empty tensor with `cols` columns (so `cols - 5` classes).
    pub fn new(cols: usize) -> (t: RawTensor)
        requires
            cols >= 6,
        ensures
            t.wf(),
            t@.len() == 0,
            t.cols == cols,
    {
        let t = RawTensor { cols, rows: Vec::new() };
        proof {
            assert(t@ =~= Seq::<Seq<i64>>::empty());
        }
        t
    }

    /// Appends one anchor row.
    pub fn push_row(&mut self, row: Vec<i64>)
        requires
            old(self).wf(),
            row@.len() == old(self).cols,
            forall|j: int| 0 <= j < row@.len() ==> 0 <= #[trigger] row@[j] <= CELL_LIMIT,
        ensures
            final(self).wf(),
            final(self).cols == old(self).cols,
            final(self)@ == old(self)@.push(row@),
    {
        let ghost r = row@;
        self.rows.push(row);
        proof {
            assert(self@ =~= old(self)@.push(r));
        }
    }

    pub fn num_rows(&self) -> (n: usize)
        ensures
            n == self@.len(),
    {
        self.rows.len()
    }

    pub fn num_cols(&self) -> (n: usize)
        ensures
            n == self.cols,
    {
        self.cols
    }

    /// Bounds-checked cell access.
    pub fn at(&self, i: usize, j: usize) -> (v: i64)
        requires
            i < self@.len(),
            j < self@[i as int].len(),
        ensures
            v == self@[i as int][j as int],
    {
        self.rows[i][j]
    }
}

} // verus!
