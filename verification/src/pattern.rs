//! Sparsity patterns, and values laid out over them.
//!
//! Patterns are faer's own column-compressed index structure; this module states
//! what the engine reads from one.
use vstd::prelude::*;

use faer::sparse::SymbolicSparseColMat;

verus! {

/// faer's wrapper around the owned and the borrowed form of a pattern.
#[verifier::external_type_specification]
#[verifier::external_body]
#[verifier::reject_recursive_types(Inner)]
pub struct ExSymbolicSparseColMat<Inner>(
    faer::sparse::csc_symbolic::generic::SymbolicSparseColMat<Inner>,
);

/// faer's owned form of a pattern.
#[verifier::external_type_specification]
#[verifier::external_body]
#[verifier::reject_recursive_types(I)]
#[verifier::reject_recursive_types(Rows)]
#[verifier::reject_recursive_types(Cols)]
pub struct ExSymbolicOwn<I, Rows, Cols>(faer::sparse::csc_symbolic::Own<I, Rows, Cols>);

/// The number of rows that a pattern holds.
pub uninterp spec fn pattern_nrows(s: SymbolicSparseColMat<usize>) -> usize;

/// The number of columns that a pattern holds.
pub uninterp spec fn pattern_ncols(s: SymbolicSparseColMat<usize>) -> usize;

/// The column pointers that a pattern holds: where each column's entries begin.
pub uninterp spec fn pattern_col_ptr(s: SymbolicSparseColMat<usize>) -> Seq<usize>;

/// The entry counts per column that a pattern holds, if it is not compressed.
pub uninterp spec fn pattern_col_nnz(s: SymbolicSparseColMat<usize>) -> Option<Seq<usize>>;

/// The row indices that a pattern holds, column after column.
pub uninterp spec fn pattern_row_idx(s: SymbolicSparseColMat<usize>) -> Seq<usize>;

/// `SymbolicSparseColMat::nrows`: the number of rows, as stored.
#[verifier::external_body]
pub(crate) fn nrows(s: &SymbolicSparseColMat<usize>) -> (n: usize)
    ensures
        n == pattern_nrows(*s),
{
    s.nrows()
}

/// `SymbolicSparseColMat::ncols`: the number of columns, as stored.
#[verifier::external_body]
pub(crate) fn ncols(s: &SymbolicSparseColMat<usize>) -> (n: usize)
    ensures
        n == pattern_ncols(*s),
{
    s.ncols()
}

/// `SymbolicSparseColMat::col_ptr`: the column pointers, as stored. There is one
/// more of them than there are columns.
#[verifier::external_body]
pub(crate) fn col_ptr(s: &SymbolicSparseColMat<usize>) -> (p: &[usize])
    ensures
        p@ == pattern_col_ptr(*s),
        p@.len() == pattern_ncols(*s) + 1,
{
    s.col_ptr()
}

/// `SymbolicSparseColMat::col_nnz`: the entry counts per column, as stored, if the
/// pattern is not compressed.
#[verifier::external_body]
fn col_nnz(s: &SymbolicSparseColMat<usize>) -> (counts: Option<&[usize]>)
    ensures
        match counts {
            Some(c) => pattern_col_nnz(*s) == Some(c@),
            None => pattern_col_nnz(*s) is None,
        },
{
    s.col_nnz()
}

/// `SymbolicSparseColMat::row_idx`: the row indices, as stored.
#[verifier::external_body]
pub(crate) fn row_idx(s: &SymbolicSparseColMat<usize>) -> (r: &[usize])
    ensures
        r@ == pattern_row_idx(*s),
{
    s.row_idx()
}

/// `SymbolicSparseColMat::col_range`: where the entries of column `j` begin and
/// end. A column begins at its pointer. It ends at the next column's pointer, or,
/// in a pattern with entry counts, after that many entries. The range lies within
/// the row indices, and every row index in it is below the number of rows.
#[verifier::external_body]
pub(crate) fn col_range(s: &SymbolicSparseColMat<usize>, j: usize) -> (range: (usize, usize))
    requires
        j < pattern_ncols(*s),
    ensures
        range.0 == pattern_col_ptr(*s)[j as int],
        range.1 == match pattern_col_nnz(*s) {
            Some(counts) => range.0 + counts[j as int],
            None => pattern_col_ptr(*s)[j + 1] as int,
        },
        range.0 <= range.1 <= pattern_row_idx(*s).len(),
        forall|k: int|
            range.0 <= k < range.1 ==> #[trigger] pattern_row_idx(*s)[k] < pattern_nrows(*s),
{
    let range = s.col_range(j);
    (range.start, range.end)
}

/// The numbers of rows and columns of a pattern.
pub fn shape(s: &SymbolicSparseColMat<usize>) -> (shape: (usize, usize))
    ensures
        shape == (pattern_nrows(*s), pattern_ncols(*s)),
{
    (nrows(s), ncols(s))
}

/// The number of row indices of a pattern, which is the number of values that a matrix
/// with this pattern has.
pub fn n_indices(s: &SymbolicSparseColMat<usize>) -> (n: usize)
    ensures
        n == pattern_row_idx(*s).len(),
{
    row_idx(s).len()
}

/// Two patterns hold the same.
pub open spec fn same_pattern(a: SymbolicSparseColMat<usize>, b: SymbolicSparseColMat<usize>) -> bool {
    &&& pattern_nrows(a) == pattern_nrows(b)
    &&& pattern_ncols(a) == pattern_ncols(b)
    &&& pattern_col_ptr(a) == pattern_col_ptr(b)
    &&& pattern_col_nnz(a) == pattern_col_nnz(b)
    &&& pattern_row_idx(a) == pattern_row_idx(b)
}

/// Whether two slices hold the same.
fn same_words(a: &[usize], b: &[usize]) -> (same: bool)
    ensures
        same == (a@ == b@),
{
    if a.len() != b.len() {
        return false;
    }
    let mut i: usize = 0;
    while i < a.len()
        invariant
            i <= a@.len(),
            a@.len() == b@.len(),
            forall|k: int| 0 <= k < i ==> a@[k] == b@[k],
        decreases a@.len() - i,
    {
        if a[i] != b[i] {
            return false;
        }
        i = i + 1;
    }
    assert(a@ =~= b@);
    true
}

/// Whether two patterns hold the same.
pub fn patterns_agree(a: &SymbolicSparseColMat<usize>, b: &SymbolicSparseColMat<usize>) -> (agree:
    bool)
    ensures
        agree == same_pattern(*a, *b),
{
    let same_counts: bool = match (col_nnz(a), col_nnz(b)) {
        (Some(x), Some(y)) => same_words(x, y),
        (None, None) => true,
        _ => false,
    };
    nrows(a) == nrows(b) && ncols(a) == ncols(b) && same_counts && same_words(
        col_ptr(a),
        col_ptr(b),
    ) && same_words(row_idx(a), row_idx(b))
}

/// `SymbolicSparseColMat::clone`: a pattern that holds the same.
#[verifier::external_body]
pub(crate) fn clone_pattern(s: &SymbolicSparseColMat<usize>) -> (copy: SymbolicSparseColMat<usize>)
    ensures
        same_pattern(copy, *s),
{
    s.clone()
}

/// Where the entries of column `j` begin.
pub open spec fn col_start(s: SymbolicSparseColMat<usize>, j: int) -> int {
    pattern_col_ptr(s)[j] as int
}

/// Where the entries of column `j` end.
pub open spec fn col_end(s: SymbolicSparseColMat<usize>, j: int) -> int {
    match pattern_col_nnz(s) {
        Some(counts) => col_start(s, j) + counts[j],
        None => pattern_col_ptr(s)[j + 1] as int,
    }
}

/// Within each column the row indices increase.
pub open spec fn sorted_columns(s: SymbolicSparseColMat<usize>) -> bool {
    forall|j: int| 0 <= j < pattern_ncols(s) ==> #[trigger] sorted_column(s, j)
}

/// The row indices of column `j` increase.
pub open spec fn sorted_column(s: SymbolicSparseColMat<usize>, j: int) -> bool {
    forall|k: int, l: int|
        col_start(s, j) <= k < l < col_end(s, j) ==> #[trigger] pattern_row_idx(s)[k]
            < #[trigger] pattern_row_idx(s)[l]
}

/// Whether the row indices increase within each column.
pub fn has_sorted_columns(s: &SymbolicSparseColMat<usize>) -> (sorted: bool)
    ensures
        sorted == sorted_columns(*s),
{
    let rows: &[usize] = row_idx(s);
    let n: usize = ncols(s);
    let mut j: usize = 0;
    while j < n
        invariant
            j <= n,
            n == pattern_ncols(*s),
            rows@ == pattern_row_idx(*s),
            forall|c: int| 0 <= c < j ==> #[trigger] sorted_column(*s, c),
        decreases n - j,
    {
        let range: (usize, usize) = col_range(s, j);
        let mut k: usize = range.0;
        while k < range.1
            invariant
                j < n,
                n == pattern_ncols(*s),
                rows@ == pattern_row_idx(*s),
                range.0 == col_start(*s, j as int),
                range.1 == col_end(*s, j as int),
                range.0 <= k <= range.1 <= rows@.len(),
                forall|a: int, b: int| range.0 <= a < b < k ==> rows@[a] < rows@[b],
            decreases range.1 - k,
        {
            if k > range.0 && rows[k - 1] >= rows[k] {
                proof {
                    assert(pattern_row_idx(*s)[k - 1] >= pattern_row_idx(*s)[k as int]);
                    assert(!sorted_column(*s, j as int));
                }
                return false;
            }
            k = k + 1;
        }
        assert(sorted_column(*s, j as int));
        j = j + 1;
    }
    true
}

/// What row `i` holds once the entries from `lo` to `hi` were written over
/// `default`: the last of them that is stored for row `i`, if there is one.
pub open spec fn last_written<T>(
    rows: Seq<usize>,
    values: Seq<T>,
    lo: int,
    hi: int,
    i: int,
    default: T,
) -> T
    decreases hi - lo,
{
    if hi <= lo {
        default
    } else if rows[hi - 1] == i {
        values[hi - 1]
    } else {
        last_written(rows, values, lo, hi - 1, i, default)
    }
}

/// The entry in row `i` and column `j` of the matrix with this pattern and these
/// values; `zero` stands where nothing is stored.
pub open spec fn matrix_entry<T>(
    s: SymbolicSparseColMat<usize>,
    values: Seq<T>,
    zero: T,
    i: int,
    j: int,
) -> T {
    last_written(pattern_row_idx(s), values, col_start(s, j), col_end(s, j), i, zero)
}

/// A sparse matrix, borrowed: a pattern with one value for each of its row indices.
pub struct SparseView<'a, T> {
    /// Where the entries are.
    pub symbolic: &'a SymbolicSparseColMat<usize>,
    /// What they are.
    pub values: &'a [T],
}

impl<'a, T> SparseView<'a, T> {
    /// There is one value for each row index.
    pub open spec fn wf(self) -> bool {
        self.values@.len() == pattern_row_idx(*self.symbolic).len()
    }

    /// The matrix with this pattern and these values.
    pub fn new(symbolic: &'a SymbolicSparseColMat<usize>, values: &'a [T]) -> (view: Self)
        requires
            values@.len() == pattern_row_idx(*symbolic).len(),
        ensures
            view.symbolic == symbolic,
            view.values == values,
            view.wf(),
    {
        SparseView { symbolic, values }
    }
}

/// A pattern together with the values over it.
#[derive(Debug)]
pub struct Pattern<T> {
    /// Where the entries are.
    pub symbolic: SymbolicSparseColMat<usize>,
    /// What they are.
    pub values: Vec<T>,
}

impl<T: Clone> Clone for Pattern<T> {
    fn clone(&self) -> (copy: Self)
        ensures
            same_pattern(copy.symbolic, self.symbolic),
            copy.values@.len() == self.values@.len(),
            forall|k: int|
                0 <= k < self.values@.len() ==> cloned::<T>(
                    #[trigger] self.values@[k],
                    copy.values@[k],
                ),
    {
        Pattern { symbolic: clone_pattern(&self.symbolic), values: self.values.clone() }
    }
}

impl<T> Pattern<T> {
    /// The sparse matrix that the pattern and the values make up.
    pub fn attach_values(&self) -> (view: SparseView<'_, T>)
        requires
            self.values@.len() == pattern_row_idx(self.symbolic).len(),
        ensures
            *view.symbolic == self.symbolic,
            view.values@ == self.values@,
            view.wf(),
    {
        SparseView::new(&self.symbolic, self.values.as_slice())
    }

    /// The values, for writing.
    pub fn values_mut(&mut self) -> (values: &mut [T])
        ensures
            values@ == old(self).values@,
            final(self).values@ == final(values)@,
            final(self).symbolic == old(self).symbolic,
    {
        self.values.as_mut_slice()
    }
}

/// Storage for a sparse Jacobian: a pattern that stays, and values that change.
///
/// An implementation says what [`JacobianCache::pattern`] and [`JacobianCache::entries`]
/// are; where it says nothing, they are left open.
pub trait JacobianCache<T> {
    /// The pattern that is stored.
    closed spec fn pattern(&self) -> SymbolicSparseColMat<usize> {
        arbitrary()
    }

    /// The values that are stored.
    closed spec fn entries(&self) -> Seq<T> {
        arbitrary()
    }

    /// Where the entries are.
    fn symbolic(&self) -> (s: &SymbolicSparseColMat<usize>)
        ensures
            *s == self.pattern(),
    ;

    /// What the entries are.
    fn values(&self) -> (v: &[T])
        ensures
            v@ == self.entries(),
    ;

    /// The entries, for writing.
    fn values_mut(&mut self) -> (v: &mut [T])
        ensures
            v@ == old(self).entries(),
            final(self).entries() == final(v)@,
            final(self).pattern() == old(self).pattern(),
    ;

    /// The sparse matrix that is stored.
    fn attach(&self) -> (view: SparseView<'_, T>)
        requires
            self.entries().len() == pattern_row_idx(self.pattern()).len(),
        ensures
            *view.symbolic == self.pattern(),
            view.values@ == self.entries(),
            view.wf(),
    {
        SparseView::new(self.symbolic(), self.values())
    }
}

} // verus!
