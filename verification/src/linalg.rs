//! The linear solvers.
//!
//! A sparse factorization has a symbolic half, which depends on the sparsity pattern
//! alone, and a numeric half. The solvers here keep the symbolic half for as long as the
//! pattern stays, and run the numeric half through the traits of [`crate::numeric`].
use vstd::prelude::*;

use faer::sparse::linalg::lu::SymbolicLu;
use faer::sparse::linalg::solvers::SymbolicQr;
use faer::sparse::FaerError;
use faer::sparse::SymbolicSparseColMat;

use crate::dense::Mat;
use crate::error::{Failure, SolverError, SolverResult};
use crate::matching::find_transversal;
use crate::numeric::{DenseNumeric, LuNumeric, QrNumeric};
use crate::pattern::{clone_pattern, ncols, nrows, patterns_agree, SparseView};
use crate::signature::{pattern_sig, PatternSig};
use crate::system::LinearSolver;

verus! {

use crate::matching::{has_transversal, lemma_transversal_of_copy};
use crate::numeric::{dense_keeps_shape, lu_keeps_shape, qr_keeps_shape};
use crate::pattern::{
    pattern_col_nnz,
    pattern_col_ptr,
    pattern_ncols,
    pattern_nrows,
    pattern_row_idx,
    same_pattern,
    sorted_columns,
};
use crate::signature::signature;
use crate::solver::fails;

/// faer's symbolic sparse LU factorization.
#[verifier::external_type_specification]
#[verifier::external_body]
#[verifier::reject_recursive_types(I)]
pub struct ExSymbolicLu<I>(faer::sparse::linalg::lu::SymbolicLu<I>);

/// faer's symbolic sparse QR factorization.
#[verifier::external_type_specification]
#[verifier::external_body]
#[verifier::reject_recursive_types(I)]
pub struct ExSymbolicQr<I>(faer::sparse::linalg::solvers::SymbolicQr<I>);

/// faer's error of a sparse algorithm.
#[verifier::external_type_specification]
#[verifier::external_body]
pub struct ExFaerError(faer::sparse::FaerError);

/// The symbolic LU factorization that faer computes for a pattern with these parts.
pub uninterp spec fn faer_symbolic_lu(
    nrows: usize,
    ncols: usize,
    col_ptr: Seq<usize>,
    col_nnz: Option<Seq<usize>>,
    row_idx: Seq<usize>,
) -> SymbolicLu<usize>;

/// The symbolic LU factorization that faer computes for a pattern with these parts, when it
/// is asked for the simplicial form.
pub uninterp spec fn faer_simplicial_lu(
    nrows: usize,
    ncols: usize,
    col_ptr: Seq<usize>,
    col_nnz: Option<Seq<usize>>,
    row_idx: Seq<usize>,
) -> SymbolicLu<usize>;

/// The symbolic QR factorization that faer computes for a pattern with these parts.
pub uninterp spec fn faer_symbolic_qr(
    nrows: usize,
    ncols: usize,
    col_ptr: Seq<usize>,
    col_nnz: Option<Seq<usize>>,
    row_idx: Seq<usize>,
) -> SymbolicQr<usize>;

/// The symbolic LU factorization of a pattern: in the form that faer picks, or, for a
/// pattern without a transversal, in the simplicial form.
pub open spec fn lu_of(s: SymbolicSparseColMat<usize>) -> SymbolicLu<usize> {
    if has_transversal(s) {
        faer_symbolic_lu(
            pattern_nrows(s),
            pattern_ncols(s),
            pattern_col_ptr(s),
            pattern_col_nnz(s),
            pattern_row_idx(s),
        )
    } else {
        faer_simplicial_lu(
            pattern_nrows(s),
            pattern_ncols(s),
            pattern_col_ptr(s),
            pattern_col_nnz(s),
            pattern_row_idx(s),
        )
    }
}

/// The symbolic QR factorization of a pattern.
pub open spec fn qr_of(s: SymbolicSparseColMat<usize>) -> SymbolicQr<usize> {
    faer_symbolic_qr(
        pattern_nrows(s),
        pattern_ncols(s),
        pattern_col_ptr(s),
        pattern_col_nnz(s),
        pattern_row_idx(s),
    )
}

/// `factorize_symbolic_lu` with default parameters, which asks for a square pattern whose
/// row indices increase within each column. It is also asked for a transversal: without
/// one, a count by which faer picks the form of the factorization can drop below zero. What
/// it computes is determined by the pattern. It fails when memory runs out or an index gets
/// too large; which patterns that happens for is left unsaid.
#[verifier::external_body]
fn analyse_lu(s: &SymbolicSparseColMat<usize>) -> (outcome: Result<SymbolicLu<usize>, FaerError>)
    requires
        pattern_nrows(*s) == pattern_ncols(*s),
        sorted_columns(*s),
        has_transversal(*s),
    ensures
        outcome matches Ok(lu) ==> lu == faer_symbolic_lu(
            pattern_nrows(*s),
            pattern_ncols(*s),
            pattern_col_ptr(*s),
            pattern_col_nnz(*s),
            pattern_row_idx(*s),
        ),
{
    faer::sparse::linalg::lu::factorize_symbolic_lu(s.as_ref(), Default::default())
}

/// `factorize_symbolic_lu` with the simplicial form asked for, which asks for a square
/// pattern whose row indices increase within each column. What it computes is determined by
/// the pattern, and differs from what it computes with default parameters where faer would
/// pick the supernodal form. It fails when memory runs out or an index gets too large; which
/// patterns that happens for is left unsaid.
#[verifier::external_body]
fn analyse_lu_simplicial(s: &SymbolicSparseColMat<usize>) -> (outcome: Result<
    SymbolicLu<usize>,
    FaerError,
>)
    requires
        pattern_nrows(*s) == pattern_ncols(*s),
        sorted_columns(*s),
    ensures
        outcome matches Ok(lu) ==> lu == faer_simplicial_lu(
            pattern_nrows(*s),
            pattern_ncols(*s),
            pattern_col_ptr(*s),
            pattern_col_nnz(*s),
            pattern_row_idx(*s),
        ),
{
    faer::sparse::linalg::lu::factorize_symbolic_lu(
        s.as_ref(),
        faer::sparse::linalg::lu::LuSymbolicParams {
            supernodal_flop_ratio_threshold:
                faer::sparse::linalg::SupernodalThreshold::FORCE_SIMPLICIAL,
            ..Default::default()
        },
    )
}

/// `SymbolicQr::try_new`, which asks for at least as many rows as columns, and for row
/// indices that increase within each column. What it computes is determined by the
/// pattern. It fails when memory runs out or an index gets too large; which patterns that
/// happens for is left unsaid.
#[verifier::external_body]
fn analyse_qr(s: &SymbolicSparseColMat<usize>) -> (outcome: Result<SymbolicQr<usize>, FaerError>)
    requires
        pattern_nrows(*s) >= pattern_ncols(*s),
        sorted_columns(*s),
    ensures
        outcome matches Ok(qr) ==> qr == faer_symbolic_qr(
            pattern_nrows(*s),
            pattern_ncols(*s),
            pattern_col_ptr(*s),
            pattern_col_nnz(*s),
            pattern_row_idx(*s),
        ),
{
    SymbolicQr::try_new(s.as_ref())
}

/// The analysis of the pattern for LU can fail.
pub closed spec fn lu_analysis_can_fail(s: SymbolicSparseColMat<usize>) -> bool {
    if has_transversal(s) {
        exists|e: FaerError| #[trigger]
            call_ensures(analyse_lu, (&s,), Err::<SymbolicLu<usize>, FaerError>(e))
    } else {
        exists|e: FaerError| #[trigger]
            call_ensures(analyse_lu_simplicial, (&s,), Err::<SymbolicLu<usize>, FaerError>(e))
    }
}

/// The analysis of the pattern for QR can fail.
pub closed spec fn qr_analysis_can_fail(s: SymbolicSparseColMat<usize>) -> bool {
    exists|e: FaerError| #[trigger]
        call_ensures(analyse_qr, (&s,), Err::<SymbolicQr<usize>, FaerError>(e))
}

/// What is kept of the analysis of a pattern.
struct Analysed<S> {
    sym: S,
    pattern: SymbolicSparseColMat<usize>,
    sig: PatternSig,
}

impl<S> Analysed<S> {
    /// The signature is that of the pattern.
    spec fn wf(self) -> bool {
        self.sig == signature(self.pattern)
    }

    /// The symbolic factorization, and the pattern.
    spec fn kept(self) -> (S, SymbolicSparseColMat<usize>) {
        (self.sym, self.pattern)
    }

    /// What is to be kept of the analysis of `s`.
    fn new(sym: S, s: &SymbolicSparseColMat<usize>) -> (a: Self)
        ensures
            a.wf(),
            a.sym == sym,
            same_pattern(a.pattern, *s),
    {
        let pattern = clone_pattern(s);
        let sig = pattern_sig(&pattern);
        Analysed { sym, pattern, sig }
    }

    /// Whether `s` holds the same as the pattern that was analysed. Signatures tell most
    /// patterns apart.
    fn is_of(&self, s: &SymbolicSparseColMat<usize>) -> (same: bool)
        requires
            self.wf(),
        ensures
            same == same_pattern(self.pattern, *s),
    {
        self.sig == pattern_sig(s) && patterns_agree(&self.pattern, s)
    }
}

/// `seen` is the symbolic factorization `sym`, kept for a pattern that holds the same as
/// `s`.
pub open spec fn is_kept_for<S>(
    seen: Option<(S, SymbolicSparseColMat<usize>)>,
    sym: S,
    s: SymbolicSparseColMat<usize>,
) -> bool {
    seen matches Some((kept, pattern)) && kept == sym && same_pattern(pattern, s)
}

/// A sparse LU solver: the pattern it analysed last with its symbolic factorization, and
/// the numeric half `N`.
///
/// A solver is changed by every factorization, so it is not for sharing between
/// threads. Give each worker its own and keep it for many solves.
pub struct FaerLu<N> {
    seen: Option<Analysed<SymbolicLu<usize>>>,
    num: N,
    ready: bool,
}

impl<N: Default> Default for FaerLu<N> {
    /// A solver that has seen no pattern.
    fn default() -> (lu: Self)
        ensures
            lu.seen() is None,
            !lu.ready(),
            call_ensures(N::default, (), lu.numeric()),
    {
        FaerLu { seen: None, num: N::default(), ready: false }
    }
}

impl<N> FaerLu<N> {
    /// The symbolic factorization of the pattern that was analysed last, and that pattern.
    pub closed spec fn seen(self) -> Option<(SymbolicLu<usize>, SymbolicSparseColMat<usize>)> {
        match self.seen {
            Some(a) => Some(a.kept()),
            None => None,
        }
    }

    /// The numeric half.
    pub closed spec fn numeric(self) -> N {
        self.num
    }

    /// The last factorization succeeded.
    pub closed spec fn ready(self) -> bool {
        self.ready
    }

    /// The pattern that was analysed last holds the same as `s`.
    pub open spec fn knows(self, s: SymbolicSparseColMat<usize>) -> bool {
        self.seen() matches Some((_, pattern)) && same_pattern(pattern, s)
    }

    /// The symbolic factorization is the one of the pattern that it is kept for.
    pub open spec fn consistent(self) -> bool {
        self.seen() matches Some((sym, pattern)) ==> sym == lu_of(pattern)
    }

    #[verifier::type_invariant]
    spec fn wf(self) -> bool {
        &&& self.consistent()
        &&& self.seen matches Some(a) ==> a.wf()
        &&& self.ready ==> self.seen is Some
    }

    /// Whether the pattern `s` has to be analysed: it is not the one seen last.
    pub fn needs_analysis(&self, s: &SymbolicSparseColMat<usize>) -> (needed: bool)
        ensures
            needed == !self.knows(*s),
    {
        proof {
            use_type_invariant(self);
        }
        match &self.seen {
            None => true,
            Some(a) => !a.is_of(s),
        }
    }

    /// Runs the numeric half `num` on `a`, whose pattern was analysed.
    fn complete<T>(&mut self, num: N, a: &SparseView<'_, T>) -> (r: SolverResult<()>) where
        N: LuNumeric<T>,

        requires
            a.wf(),
            old(self).knows(*a.symbolic),
        ensures
            final(self).seen() == old(self).seen(),
            final(self).ready() == (r is Ok),
            lu_completed(num, lu_of(*a.symbolic), *a, final(self).numeric(), r),
    {
        proof {
            use_type_invariant(&*self);
        }
        match &self.seen {
            None => Err(SolverError::new(Failure::LuNotFactorized)),
            Some(seen) => {
                proof {
                    lemma_transversal_of_copy(seen.pattern, *a.symbolic);
                }
                let (after, ok): (N, bool) = num.factorize(&seen.sym, a);
                assert(call_ensures(N::factorize, (num, &seen.sym, a), (after, ok)));
                self.num = after;
                self.ready = ok;
                if ok {
                    Ok(())
                } else {
                    Err(SolverError::new(Failure::NumericLu))
                }
            },
        }
    }

    /// Factorizes `a`, given what the analysis of its pattern came to. If that failed,
    /// nothing changes. Otherwise the symbolic factorization is kept, and the numeric half
    /// gets a new workspace before it runs.
    pub fn factor_with<T: Copy>(
        &mut self,
        a: &SparseView<'_, T>,
        outcome: Result<SymbolicLu<usize>, FaerError>,
    ) -> (r: SolverResult<()>) where N: LuNumeric<T>
        requires
            a.wf(),
            outcome matches Ok(lu) ==> lu == lu_of(*a.symbolic),
        ensures
            match outcome {
                Err(_) => r == fails::<()>(Failure::SymbolicLu) && *final(self) == *old(self),
                Ok(lu) => {
                    &&& is_kept_for(final(self).seen(), lu, *a.symbolic)
                    &&& final(self).ready() == (r is Ok)
                    &&& exists|num: N| #[trigger]
                        call_ensures(N::with_scratch, (old(self).numeric(), &lu), num)
                            && lu_completed(num, lu, *a, final(self).numeric(), r)
                },
            },
    {
        match outcome {
            Err(_) => Err(SolverError::new(Failure::SymbolicLu)),
            Ok(lu) => {
                proof {
                    use_type_invariant(&*self);
                }
                let mut num: N = N::default();
                std::mem::swap(&mut num, &mut self.num);
                let ready: N = num.with_scratch(&lu);
                assert(call_ensures(N::with_scratch, (num, &lu), ready));
                let seen = Analysed::new(lu, a.symbolic);
                proof {
                    lemma_transversal_of_copy(seen.pattern, *a.symbolic);
                }
                self.seen = Some(seen);
                self.complete(ready, a)
            },
        }
    }
}

/// With the symbolic factorization `sym`, the numeric factorization of `a` took the
/// numeric half from `num` to `after`, and the factorization came to `outcome`.
pub open spec fn lu_completed<T, N: LuNumeric<T>>(
    num: N,
    sym: SymbolicLu<usize>,
    a: SparseView<'_, T>,
    after: N,
    outcome: SolverResult<()>,
) -> bool {
    exists|ok: bool| #[trigger]
        call_ensures(N::factorize, (num, &sym, &a), (after, ok)) && outcome == (if ok {
            Ok::<(), SolverError>(())
        } else {
            fails::<()>(Failure::NumericLu)
        })
}

impl<'a, T: Copy, N: LuNumeric<T>> LinearSolver<T, SparseView<'a, T>> for FaerLu<N> {
    /// The matrix is square, with a value for each row index, and with row indices that
    /// increase within each column.
    open spec fn factorable(a: SparseView<'a, T>) -> bool {
        &&& a.wf()
        &&& pattern_nrows(*a.symbolic) == pattern_ncols(*a.symbolic)
        &&& sorted_columns(*a.symbolic)
    }

    open spec fn accepts(a: SparseView<'a, T>, rows: nat, cols: nat) -> bool {
        &&& pattern_nrows(*a.symbolic) == rows
        &&& pattern_ncols(*a.symbolic) == cols
        &&& rows == cols
        &&& lu_keeps_shape::<T, N>()
    }

    /// Anything, unless the last factorization succeeded; then, matrices of one shape with as
    /// many rows as the matrix that was factorized.
    open spec fn serves(&self, rhs: Mat<T>, out: Mat<T>) -> bool {
        self.ready() ==> {
            &&& self.seen() matches Some((_, pattern)) && rhs.rows() == pattern_nrows(pattern)
            &&& out.same_shape(rhs)
            &&& lu_keeps_shape::<T, N>()
        }
    }

    /// A pattern that was analysed last is not analysed again: only the numeric half
    /// runs. Any other pattern is analysed, and the numeric half gets a new workspace
    /// before it runs. If the analysis fails, nothing changes.
    open spec fn factored(
        pre: Self,
        a: SparseView<'a, T>,
        post: Self,
        outcome: SolverResult<()>,
    ) -> bool {
        let sym = lu_of(*a.symbolic);
        &&& outcome is Ok ==> is_kept_for(post.seen(), sym, *a.symbolic)
        &&& if pre.knows(*a.symbolic) {
            &&& post.seen() == pre.seen()
            &&& post.ready() == (outcome is Ok)
            &&& lu_completed(pre.numeric(), sym, a, post.numeric(), outcome)
        } else {
            ||| outcome == fails::<()>(Failure::SymbolicLu) && lu_analysis_can_fail(*a.symbolic)
                && post == pre
            ||| is_kept_for(post.seen(), sym, *a.symbolic) && post.ready() == (outcome is Ok)
                && exists|num: N| #[trigger]
                call_ensures(N::with_scratch, (pre.numeric(), &sym), num) && lu_completed(
                    num,
                    sym,
                    a,
                    post.numeric(),
                    outcome,
                )
        }
    }

    /// The right-hand side is copied to the output and solved there. An error unless the
    /// last factorization succeeded.
    open spec fn solved(
        pre: Self,
        rhs: Mat<T>,
        before: Mat<T>,
        post: Self,
        after: Mat<T>,
        outcome: SolverResult<()>,
    ) -> bool {
        if !pre.ready() {
            &&& outcome == fails::<()>(Failure::LuNotFactorized)
            &&& post == pre
            &&& after == before
        } else {
            &&& outcome == Ok::<(), SolverError>(())
            &&& post.seen() == pre.seen()
            &&& post.ready()
            &&& pre.seen() matches Some((sym, _)) && exists|m: Mat<T>|
                m.same_entries(rhs) && #[trigger] call_ensures(
                    N::solve_in_place,
                    (pre.numeric(), &sym, m),
                    (post.numeric(), after),
                )
        }
    }

    fn factor(&mut self, a: &SparseView<'a, T>) -> (outcome: SolverResult<()>) {
        proof {
            use_type_invariant(&*self);
        }
        if !self.needs_analysis(a.symbolic) {
            proof {
                if let Some((_, pattern)) = self.seen() {
                    lemma_transversal_of_copy(pattern, *a.symbolic);
                }
            }
            let mut num: N = N::default();
            std::mem::swap(&mut num, &mut self.num);
            self.complete(num, a)
        } else {
            let regular: bool = find_transversal(a.symbolic);
            let outcome = if regular {
                analyse_lu(a.symbolic)
            } else {
                analyse_lu_simplicial(a.symbolic)
            };
            proof {
                if let Err(e) = outcome {
                    if regular {
                        assert(call_ensures(analyse_lu, (a.symbolic,), outcome));
                    } else {
                        assert(call_ensures(analyse_lu_simplicial, (a.symbolic,), outcome));
                    }
                    assert(lu_analysis_can_fail(*a.symbolic));
                }
            }
            self.factor_with(a, outcome)
        }
    }

    fn solve_into(&mut self, rhs: &Mat<T>, out: &mut Mat<T>) -> (outcome: SolverResult<()>) {
        proof {
            use_type_invariant(&*self);
        }
        if !self.ready {
            return Err(SolverError::new(Failure::LuNotFactorized));
        }
        match &self.seen {
            None => Err(SolverError::new(Failure::LuNotFactorized)),
            Some(seen) => {
                let mut num: N = N::default();
                std::mem::swap(&mut num, &mut self.num);
                let mut work: Mat<T> = Mat::empty();
                std::mem::swap(&mut work, out);
                work.copy_leading(rhs);
                let (after, solution): (N, Mat<T>) = num.solve_in_place(&seen.sym, work);
                assert(work.same_entries(*rhs));
                self.num = after;
                *out = solution;
                assert(call_ensures(
                    N::solve_in_place,
                    (old(self).numeric(), &seen.sym, work),
                    (self.numeric(), *out),
                ));
                Ok(())
            },
        }
    }
}

/// How a least-squares solve gets by with the output buffer it is given.
#[derive(Clone, Copy, Debug, PartialEq, Eq, Structural)]
pub enum QrPlan {
    /// The output has as many rows as the right-hand side: solve in place.
    InPlace,
    /// Solve in a buffer with the shape of the right-hand side, and copy the leading
    /// rows of it to the output, as many as both have.
    Workspace,
}

/// A factorization together with the numbers of rows and columns of the matrix.
pub struct Factorized<N> {
    /// The factorization.
    pub num: N,
    /// The number of rows.
    pub nrows: usize,
    /// The number of columns.
    pub ncols: usize,
}

/// A sparse QR solver: the pattern it analysed last with its symbolic factorization, and
/// the numeric half `N` for the matrix it factorized last.
pub struct SparseQr<N> {
    seen: Option<Analysed<SymbolicQr<usize>>>,
    qr: Option<Factorized<N>>,
}

impl<N> Default for SparseQr<N> {
    /// A solver that has seen no pattern.
    fn default() -> (qr: Self)
        ensures
            qr.seen() is None,
            qr.factorized() is None,
    {
        SparseQr { seen: None, qr: None }
    }
}

impl<N> SparseQr<N> {
    /// The symbolic factorization of the pattern that was analysed last, and that pattern.
    pub closed spec fn seen(self) -> Option<(SymbolicQr<usize>, SymbolicSparseColMat<usize>)> {
        match self.seen {
            Some(a) => Some(a.kept()),
            None => None,
        }
    }

    /// The factorization of the matrix that was factorized last.
    pub closed spec fn factorized(self) -> Option<Factorized<N>> {
        self.qr
    }

    /// The pattern that was analysed last holds the same as `s`.
    pub open spec fn knows(self, s: SymbolicSparseColMat<usize>) -> bool {
        self.seen() matches Some((_, pattern)) && same_pattern(pattern, s)
    }

    /// The symbolic factorization is the one of the pattern that it is kept for.
    pub open spec fn consistent(self) -> bool {
        self.seen() matches Some((sym, pattern)) ==> sym == qr_of(pattern)
    }

    #[verifier::type_invariant]
    spec fn wf(self) -> bool {
        &&& self.consistent()
        &&& self.seen matches Some(a) ==> a.wf()
    }

    /// Whether the pattern `s` has to be analysed: it is not the one seen last.
    pub fn needs_analysis(&self, s: &SymbolicSparseColMat<usize>) -> (needed: bool)
        ensures
            needed == !self.knows(*s),
    {
        proof {
            use_type_invariant(self);
        }
        match &self.seen {
            None => true,
            Some(a) => !a.is_of(s),
        }
    }

    /// Runs the numeric half on `a`, whose pattern was analysed.
    fn complete<T>(&mut self, a: &SparseView<'_, T>) -> (r: SolverResult<()>) where
        N: QrNumeric<T>,

        requires
            a.wf(),
            old(self).knows(*a.symbolic),
        ensures
            final(self).seen() == old(self).seen(),
            qr_completed(
                old(self).factorized(),
                qr_of(*a.symbolic),
                *a,
                final(self).factorized(),
                r,
            ),
    {
        proof {
            use_type_invariant(&*self);
        }
        match &self.seen {
            None => Err(SolverError::new(Failure::QrNotFactorized)),
            Some(seen) => {
                let made: Option<N> = N::try_new(&seen.sym, a);
                assert(call_ensures(N::try_new, (&seen.sym, a), made));
                match made {
                    Some(num) => {
                        self.qr = Some(
                            Factorized { num, nrows: nrows(a.symbolic), ncols: ncols(a.symbolic) },
                        );
                        Ok(())
                    },
                    None => Err(SolverError::new(Failure::NumericQr)),
                }
            },
        }
    }

    /// Factorizes `a`, given what the analysis of its pattern came to. If that failed,
    /// nothing changes. Otherwise the symbolic factorization is kept, and the numeric half
    /// runs.
    pub fn factor_with<T: Copy>(
        &mut self,
        a: &SparseView<'_, T>,
        outcome: Result<SymbolicQr<usize>, FaerError>,
    ) -> (r: SolverResult<()>) where N: QrNumeric<T>
        requires
            a.wf(),
            outcome matches Ok(qr) ==> qr == qr_of(*a.symbolic),
        ensures
            match outcome {
                Err(_) => r == fails::<()>(Failure::SymbolicQr) && *final(self) == *old(self),
                Ok(qr) => {
                    &&& is_kept_for(final(self).seen(), qr, *a.symbolic)
                    &&& qr_completed(
                        old(self).factorized(),
                        qr,
                        *a,
                        final(self).factorized(),
                        r,
                    )
                },
            },
    {
        match outcome {
            Err(_) => Err(SolverError::new(Failure::SymbolicQr)),
            Ok(qr) => {
                self.seen = Some(Analysed::new(qr, a.symbolic));
                self.complete(a)
            },
        }
    }

    /// What a solve for a right-hand side of `rhs_rows` rows and `rhs_cols` columns
    /// does with an output of `out_rows` rows and `out_cols` columns. The output
    /// needs a row for each unknown and a column for each right-hand side.
    pub fn plan_solve(
        &self,
        rhs_rows: usize,
        rhs_cols: usize,
        out_rows: usize,
        out_cols: usize,
    ) -> (r: SolverResult<QrPlan>)
        ensures
            match self.factorized() {
                None => r == fails::<QrPlan>(Failure::QrNotFactorized),
                Some(qr) => if out_rows < qr.ncols || out_cols != rhs_cols {
                    r == fails::<QrPlan>(Failure::QrOutputTooSmall)
                } else if out_rows == rhs_rows {
                    r == Ok::<QrPlan, SolverError>(QrPlan::InPlace)
                } else {
                    r == Ok::<QrPlan, SolverError>(QrPlan::Workspace)
                },
            },
    {
        match &self.qr {
            None => Err(SolverError::new(Failure::QrNotFactorized)),
            Some(qr) => {
                if out_rows < qr.ncols || out_cols != rhs_cols {
                    Err(SolverError::new(Failure::QrOutputTooSmall))
                } else if out_rows == rhs_rows {
                    Ok(QrPlan::InPlace)
                } else {
                    Ok(QrPlan::Workspace)
                }
            },
        }
    }
}

/// With the symbolic factorization `sym`, the numeric factorization of `a` replaced
/// `before` by `after`, and the factorization came to `outcome`. A failure leaves the
/// factorization before it in force.
pub open spec fn qr_completed<T, N: QrNumeric<T>>(
    before: Option<Factorized<N>>,
    sym: SymbolicQr<usize>,
    a: SparseView<'_, T>,
    after: Option<Factorized<N>>,
    outcome: SolverResult<()>,
) -> bool {
    exists|made: Option<N>| #[trigger]
        call_ensures(N::try_new, (&sym, &a), made) && match made {
            Some(num) => {
                &&& outcome == Ok::<(), SolverError>(())
                &&& after == Some(
                    Factorized {
                        num,
                        nrows: pattern_nrows(*a.symbolic),
                        ncols: pattern_ncols(*a.symbolic),
                    },
                )
            },
            None => outcome == fails::<()>(Failure::NumericQr) && after == before,
        }
}

impl<'a, T: Copy, N: QrNumeric<T>> LinearSolver<T, SparseView<'a, T>> for SparseQr<N> {
    /// The matrix has no more columns than rows, a value for each row index, and row
    /// indices that increase within each column.
    open spec fn factorable(a: SparseView<'a, T>) -> bool {
        &&& a.wf()
        &&& pattern_nrows(*a.symbolic) >= pattern_ncols(*a.symbolic)
        &&& sorted_columns(*a.symbolic)
    }

    open spec fn accepts(a: SparseView<'a, T>, rows: nat, cols: nat) -> bool {
        &&& pattern_nrows(*a.symbolic) == rows
        &&& pattern_ncols(*a.symbolic) == cols
        &&& rows >= cols
        &&& qr_keeps_shape::<T, N>()
    }

    /// Before the first factorization, and for an output that cannot hold the solution,
    /// anything; otherwise, a right-hand side with as many rows as the matrix that was
    /// factorized.
    open spec fn serves(&self, rhs: Mat<T>, out: Mat<T>) -> bool {
        self.factorized() matches Some(qr) ==> {
            ||| out.rows() < qr.ncols
            ||| out.cols() != rhs.cols()
            ||| rhs.rows() == qr.nrows && qr_keeps_shape::<T, N>()
        }
    }

    /// A pattern that was analysed last is not analysed again: only the numeric half
    /// runs. Any other pattern is analysed before that. If the analysis fails, nothing
    /// changes.
    open spec fn factored(
        pre: Self,
        a: SparseView<'a, T>,
        post: Self,
        outcome: SolverResult<()>,
    ) -> bool {
        let sym = qr_of(*a.symbolic);
        &&& outcome is Ok ==> is_kept_for(post.seen(), sym, *a.symbolic)
        &&& if pre.knows(*a.symbolic) {
            &&& post.seen() == pre.seen()
            &&& qr_completed(pre.factorized(), sym, a, post.factorized(), outcome)
        } else {
            ||| outcome == fails::<()>(Failure::SymbolicQr) && qr_analysis_can_fail(*a.symbolic)
                && post == pre
            ||| is_kept_for(post.seen(), sym, *a.symbolic) && qr_completed(
                pre.factorized(),
                sym,
                a,
                post.factorized(),
                outcome,
            )
        }
    }

    /// The right-hand side is solved in a copy, whose leading rows the output gets, as many
    /// as it has; further rows of the output stay. An error before the first
    /// factorization, or if the output cannot hold the solution.
    open spec fn solved(
        pre: Self,
        rhs: Mat<T>,
        before: Mat<T>,
        post: Self,
        after: Mat<T>,
        outcome: SolverResult<()>,
    ) -> bool {
        &&& post == pre
        &&& match pre.factorized() {
            None => outcome == fails::<()>(Failure::QrNotFactorized) && after == before,
            Some(qr) => if before.rows() < qr.ncols || before.cols() != rhs.cols() {
                outcome == fails::<()>(Failure::QrOutputTooSmall) && after == before
            } else {
                &&& outcome == Ok::<(), SolverError>(())
                &&& exists|m: Mat<T>, solution: Mat<T>|
                    {
                        &&& m.same_entries(rhs)
                        &&& #[trigger] call_ensures(
                            N::solve_lstsq_in_place,
                            (&qr.num, m),
                            solution,
                        )
                        &&& forall|i: int, j: int|
                            after.covers(i, j) ==> #[trigger] after.at(i, j) == (if i < rhs.rows() {
                                solution.at(i, j)
                            } else {
                                before.at(i, j)
                            })
                    }
            },
        }
    }

    fn factor(&mut self, a: &SparseView<'a, T>) -> (outcome: SolverResult<()>) {
        proof {
            use_type_invariant(&*self);
        }
        if !self.needs_analysis(a.symbolic) {
            self.complete(a)
        } else {
            let outcome = analyse_qr(a.symbolic);
            proof {
                if let Err(e) = outcome {
                    assert(call_ensures(analyse_qr, (a.symbolic,), outcome));
                    assert(qr_analysis_can_fail(*a.symbolic));
                }
            }
            self.factor_with(a, outcome)
        }
    }

    fn solve_into(&mut self, rhs: &Mat<T>, out: &mut Mat<T>) -> (outcome: SolverResult<()>) {
        let plan: QrPlan = match self.plan_solve(
            rhs.nrows(),
            rhs.ncols(),
            out.nrows(),
            out.ncols(),
        ) {
            Ok(plan) => plan,
            Err(e) => {
                return Err(e);
            },
        };
        match &self.qr {
            None => Err(SolverError::new(Failure::QrNotFactorized)),
            Some(qr) => {
                match plan {
                    QrPlan::InPlace => {
                        let mut work: Mat<T> = Mat::empty();
                        std::mem::swap(&mut work, out);
                        work.copy_leading(rhs);
                        assert(work.same_entries(*rhs));
                        let solution: Mat<T> = qr.num.solve_lstsq_in_place(work);
                        assert(call_ensures(
                            N::solve_lstsq_in_place,
                            (&qr.num, work),
                            solution,
                        ));
                        *out = solution;
                    },
                    QrPlan::Workspace => {
                        let work: Mat<T> = rhs.duplicate();
                        let solution: Mat<T> = qr.num.solve_lstsq_in_place(work);
                        assert(call_ensures(
                            N::solve_lstsq_in_place,
                            (&qr.num, work),
                            solution,
                        ));
                        out.copy_leading(&solution);
                    },
                }
                Ok(())
            },
        }
    }
}

/// A dense LU solver: the factorization `N` of the matrix it was given last.
pub struct DenseLu<N> {
    lu: Option<Factorized<N>>,
}

impl<N> Default for DenseLu<N> {
    /// A solver that has factorized nothing.
    fn default() -> (lu: Self)
        ensures
            lu.factorized() is None,
    {
        DenseLu { lu: None }
    }
}

impl<N> DenseLu<N> {
    /// The factorization of the matrix that was factorized last.
    pub closed spec fn factorized(self) -> Option<Factorized<N>> {
        self.lu
    }
}

impl<T: Copy, N: DenseNumeric<T>> LinearSolver<T, Mat<T>> for DenseLu<N> {
    /// Any matrix can be factorized.
    open spec fn factorable(a: Mat<T>) -> bool {
        true
    }

    /// Only a square matrix can be solved with.
    open spec fn accepts(a: Mat<T>, rows: nat, cols: nat) -> bool {
        a.rows() == rows && a.cols() == cols && rows == cols && dense_keeps_shape::<T, N>()
    }

    /// Before the first factorization, anything; then, matrices of one shape with as many
    /// rows as the matrix that was factorized, which has to be square.
    open spec fn serves(&self, rhs: Mat<T>, out: Mat<T>) -> bool {
        self.factorized() matches Some(lu) ==> {
            &&& lu.nrows == lu.ncols
            &&& rhs.rows() == lu.nrows
            &&& out.same_shape(rhs)
            &&& dense_keeps_shape::<T, N>()
        }
    }

    /// The factorization always succeeds.
    open spec fn factored(pre: Self, a: Mat<T>, post: Self, outcome: SolverResult<()>) -> bool {
        &&& outcome == Ok::<(), SolverError>(())
        &&& post.factorized() matches Some(lu) && {
            &&& call_ensures(N::new, (&a,), lu.num)
            &&& lu.nrows == a.rows()
            &&& lu.ncols == a.cols()
        }
    }

    /// The output gets the solution. An error before the first factorization.
    open spec fn solved(
        pre: Self,
        rhs: Mat<T>,
        before: Mat<T>,
        post: Self,
        after: Mat<T>,
        outcome: SolverResult<()>,
    ) -> bool {
        &&& post == pre
        &&& match pre.factorized() {
            None => outcome == fails::<()>(Failure::DenseNotFactorized) && after == before,
            Some(lu) => {
                &&& outcome == Ok::<(), SolverError>(())
                &&& exists|solution: Mat<T>| #[trigger]
                    call_ensures(N::solve, (&lu.num, &rhs), solution) && after.same_entries(
                        solution,
                    )
            },
        }
    }

    fn factor(&mut self, a: &Mat<T>) -> (outcome: SolverResult<()>) {
        self.lu = Some(Factorized { num: N::new(a), nrows: a.nrows(), ncols: a.ncols() });
        Ok(())
    }

    fn solve_into(&mut self, rhs: &Mat<T>, out: &mut Mat<T>) -> (outcome: SolverResult<()>) {
        match &self.lu {
            None => Err(SolverError::new(Failure::DenseNotFactorized)),
            Some(lu) => {
                let solution: Mat<T> = lu.num.solve(rhs);
                assert(call_ensures(N::solve, (&lu.num, rhs), solution));
                out.copy_leading(&solution);
                Ok(())
            },
        }
    }
}

/// A solver that knows a pattern knows every pattern that holds the same, wherever it is
/// stored, and keeps for it the symbolic factorization that an analysis would give.
pub proof fn law_copies_are_known<N, Q>(
    lu: FaerLu<N>,
    qr: SparseQr<Q>,
    a: SymbolicSparseColMat<usize>,
    b: SymbolicSparseColMat<usize>,
)
    requires
        same_pattern(a, b),
    ensures
        lu.knows(a) == lu.knows(b),
        lu_of(a) == lu_of(b),
        qr.knows(a) == qr.knows(b),
        qr_of(a) == qr_of(b),
{
    lemma_transversal_of_copy(a, b);
}

} // verus!
