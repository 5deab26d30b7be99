//! Full matrices, column by column.
use vstd::prelude::*;

use crate::scalar::Real;

verus! {

use crate::scalar::is_zero;

/// A full matrix.
#[derive(Debug)]
pub struct Mat<T> {
    nrows: usize,
    columns: Vec<Vec<T>>,
}

impl<T> Mat<T> {
    /// The number of rows.
    pub closed spec fn rows(self) -> nat {
        self.nrows as nat
    }

    /// The number of columns.
    pub closed spec fn cols(self) -> nat {
        self.columns@.len()
    }

    /// The entry in row `i` and column `j`.
    pub closed spec fn at(self, i: int, j: int) -> T {
        self.columns@[j]@[i]
    }

    /// The matrices have equally many rows and equally many columns.
    pub open spec fn same_shape(self, other: Mat<T>) -> bool {
        self.rows() == other.rows() && self.cols() == other.cols()
    }

    /// The matrices have the same shape and hold the same entries.
    pub open spec fn same_entries(self, other: Mat<T>) -> bool {
        &&& self.same_shape(other)
        &&& forall|i: int, j: int|
            self.covers(i, j) ==> #[trigger] self.at(i, j) == other.at(i, j)
    }

    /// Row `i` and column `j` are within the matrix.
    pub open spec fn covers(self, i: int, j: int) -> bool {
        0 <= i < self.rows() && 0 <= j < self.cols()
    }

    #[verifier::type_invariant]
    spec fn wf(self) -> bool {
        forall|j: int|
            0 <= j < self.columns@.len() ==> (#[trigger] self.columns@[j])@.len() == self.nrows
    }

    /// The matrix without rows and columns.
    pub fn empty() -> (m: Self)
        ensures
            m.rows() == 0,
            m.cols() == 0,
    {
        Mat { nrows: 0, columns: Vec::new() }
    }

    /// The number of rows.
    pub fn nrows(&self) -> (n: usize)
        ensures
            n == self.rows(),
    {
        self.nrows
    }

    /// The number of columns.
    pub fn ncols(&self) -> (n: usize)
        ensures
            n == self.cols(),
    {
        self.columns.len()
    }

    /// Stores `value` in row `i` and column `j`.
    pub fn set(&mut self, i: usize, j: usize, value: T)
        requires
            old(self).covers(i as int, j as int),
        ensures
            final(self).same_shape(*old(self)),
            forall|r: int, c: int|
                old(self).covers(r, c) ==> #[trigger] final(self).at(r, c) == (if r == i && c == j {
                    value
                } else {
                    old(self).at(r, c)
                }),
    {
        proof {
            use_type_invariant(&*self);
        }
        let mut columns: Vec<Vec<T>> = Vec::new();
        std::mem::swap(&mut columns, &mut self.columns);
        columns[j][i] = value;
        self.columns = columns;
    }
}

impl<T: Copy> Mat<T> {
    /// The matrix of the given shape that holds `value` everywhere.
    pub fn filled(nrows: usize, ncols: usize, value: T) -> (m: Self)
        ensures
            m.rows() == nrows,
            m.cols() == ncols,
            forall|i: int, j: int| m.covers(i, j) ==> #[trigger] m.at(i, j) == value,
    {
        let mut columns: Vec<Vec<T>> = Vec::new();
        let mut j: usize = 0;
        while j < ncols
            invariant
                j <= ncols,
                columns@.len() == j,
                forall|c: int|
                    0 <= c < j ==> {
                        &&& (#[trigger] columns@[c])@.len() == nrows
                        &&& forall|r: int| 0 <= r < nrows ==> columns@[c]@[r] == value
                    },
            decreases ncols - j,
        {
            let mut column: Vec<T> = Vec::new();
            let mut i: usize = 0;
            while i < nrows
                invariant
                    i <= nrows,
                    column@.len() == i,
                    forall|r: int| 0 <= r < i ==> column@[r] == value,
                decreases nrows - i,
            {
                column.push(value);
                i = i + 1;
            }
            columns.push(column);
            j = j + 1;
        }
        Mat { nrows, columns }
    }

    /// Stores `value` everywhere.
    pub fn fill(&mut self, value: T)
        ensures
            final(self).same_shape(*old(self)),
            forall|i: int, j: int|
                final(self).covers(i, j) ==> #[trigger] final(self).at(i, j) == value,
    {
        let nrows: usize = self.nrows();
        let ncols: usize = self.ncols();
        let mut j: usize = 0;
        while j < ncols
            invariant
                j <= ncols,
                self.rows() == nrows,
                self.cols() == ncols,
                self.same_shape(*old(self)),
                forall|r: int, c: int|
                    0 <= r < nrows && 0 <= c < j ==> #[trigger] self.at(r, c) == value,
            decreases ncols - j,
        {
            let mut i: usize = 0;
            while i < nrows
                invariant
                    j < ncols,
                    i <= nrows,
                    self.rows() == nrows,
                    self.cols() == ncols,
                    self.same_shape(*old(self)),
                    forall|r: int, c: int|
                        0 <= r < nrows && 0 <= c < j ==> #[trigger] self.at(r, c) == value,
                    forall|r: int| 0 <= r < i ==> #[trigger] self.at(r, j as int) == value,
                decreases nrows - i,
            {
                self.set(i, j, value);
                i = i + 1;
            }
            j = j + 1;
        }
    }

    /// The entry in row `i` and column `j`.
    pub fn get(&self, i: usize, j: usize) -> (value: T)
        requires
            self.covers(i as int, j as int),
        ensures
            value == self.at(i as int, j as int),
    {
        proof {
            use_type_invariant(self);
        }
        self.columns[j][i]
    }

    /// A matrix with the same shape and the same entries.
    pub fn duplicate(&self) -> (m: Self)
        ensures
            m.same_entries(*self),
    {
        proof {
            use_type_invariant(self);
        }
        let mut columns: Vec<Vec<T>> = Vec::new();
        let ncols: usize = self.columns.len();
        let mut j: usize = 0;
        while j < ncols
            invariant
                j <= ncols,
                ncols == self.columns@.len(),
                columns@.len() == j,
                forall|c: int|
                    0 <= c < ncols ==> (#[trigger] self.columns@[c])@.len() == self.nrows,
                forall|c: int|
                    0 <= c < j ==> (#[trigger] columns@[c])@ == self.columns@[c]@,
            decreases ncols - j,
        {
            let mut column: Vec<T> = Vec::new();
            let mut i: usize = 0;
            while i < self.nrows
                invariant
                    j < ncols,
                    ncols == self.columns@.len(),
                    self.columns@[j as int]@.len() == self.nrows,
                    i <= self.nrows,
                    column@ == self.columns@[j as int]@.take(i as int),
                decreases self.nrows - i,
            {
                column.push(self.columns[j][i]);
                i = i + 1;
                assert(column@ =~= self.columns@[j as int]@.take(i as int));
            }
            assert(column@ =~= self.columns@[j as int]@);
            columns.push(column);
            j = j + 1;
        }
        Mat { nrows: self.nrows, columns }
    }

    /// Copies the leading entries of `source` over those of this matrix, as far as both
    /// reach.
    pub fn copy_leading(&mut self, source: &Mat<T>)
        ensures
            final(self).same_shape(*old(self)),
            forall|i: int, j: int|
                final(self).covers(i, j) ==> #[trigger] final(self).at(i, j) == (
                if source.covers(i, j) {
                    source.at(i, j)
                } else {
                    old(self).at(i, j)
                }),
    {
        let nrows: usize = if self.nrows() < source.nrows() {
            self.nrows()
        } else {
            source.nrows()
        };
        let ncols: usize = if self.ncols() < source.ncols() {
            self.ncols()
        } else {
            source.ncols()
        };
        let mut j: usize = 0;
        while j < ncols
            invariant
                j <= ncols,
                nrows <= source.rows(),
                ncols <= source.cols(),
                nrows <= self.rows(),
                ncols <= self.cols(),
                self.same_shape(*old(self)),
                forall|r: int, c: int|
                    self.covers(r, c) ==> #[trigger] self.at(r, c) == (if r < nrows && c < j {
                        source.at(r, c)
                    } else {
                        old(self).at(r, c)
                    }),
            decreases ncols - j,
        {
            let mut i: usize = 0;
            while i < nrows
                invariant
                    j < ncols,
                    i <= nrows,
                    nrows <= source.rows(),
                    ncols <= source.cols(),
                    nrows <= self.rows(),
                    ncols <= self.cols(),
                    self.same_shape(*old(self)),
                    forall|r: int, c: int|
                        self.covers(r, c) ==> #[trigger] self.at(r, c) == (if r < nrows && c < j
                            || r < i && c == j {
                            source.at(r, c)
                        } else {
                            old(self).at(r, c)
                        }),
                decreases nrows - i,
            {
                self.set(i, j, source.get(i, j));
                i = i + 1;
            }
            j = j + 1;
        }
    }
}

/// The matrix holds a zero everywhere.
pub open spec fn is_zero_matrix<T: Real>(m: Mat<T>) -> bool {
    exists|zero: T| #[trigger]
        is_zero(zero) && forall|i: int, j: int| m.covers(i, j) ==> #[trigger] m.at(i, j) == zero
}

impl<T: Real> Mat<T> {
    /// The matrix of the given shape that holds a zero everywhere.
    pub fn zeros(nrows: usize, ncols: usize) -> (m: Self)
        ensures
            m.rows() == nrows,
            m.cols() == ncols,
            is_zero_matrix(m),
    {
        let zero: T = T::zero();
        assert(is_zero(zero));
        Mat::filled(nrows, ncols, zero)
    }
}

} // verus!
