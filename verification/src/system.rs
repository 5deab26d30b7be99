//! What a model and a linear solver have to offer the engine.
//!
//! Contracts speak of a model or a solver through the spec functions of these traits. An
//! implementation says what they are; where it says nothing, they are left open.
use vstd::prelude::*;

use crate::dense::Mat;
use crate::error::SolverResult;
use crate::pattern::{col_range, ncols, JacobianCache};
use crate::scalar::Real;

verus! {

use crate::pattern::{
    col_start,
    last_written,
    matrix_entry,
    pattern_ncols,
    pattern_nrows,
    pattern_row_idx,
};
use crate::scalar::is_zero;

/// The size and the indexing of a problem.
pub trait RowMap {
    /// The kinds of unknowns.
    type Var: Copy + Eq;

    /// The number of unknowns.
    closed spec fn variables(&self) -> nat {
        arbitrary()
    }

    /// The number of equations.
    closed spec fn residuals(&self) -> nat {
        arbitrary()
    }

    /// The number of unknowns.
    fn n_variables(&self) -> (n: usize)
        ensures
            n == self.variables(),
    ;

    /// The number of equations.
    fn n_residuals(&self) -> (n: usize)
        ensures
            n == self.residuals(),
    ;

    /// The row of an unknown, if it has one.
    fn row(&self, bus: usize, var: Self::Var) -> Option<usize>;
}

/// A system of nonlinear equations with a sparse Jacobian.
pub trait NonlinearSystem: Sized {
    /// The scalars of the problem.
    type Real: Real;

    /// The size and the indexing of the problem.
    type Layout: RowMap;

    /// Where the Jacobian is kept.
    type Jacobian: JacobianCache<Self::Real>;

    /// The layout that [`NonlinearSystem::layout`] hands out.
    closed spec fn layout_of(&self) -> Self::Layout {
        arbitrary()
    }

    /// The cache that [`NonlinearSystem::jacobian`] hands out.
    closed spec fn jacobian_of(&self) -> Self::Jacobian {
        arbitrary()
    }

    /// The residual vector at `x`.
    closed spec fn residual_at(&self, x: Seq<Self::Real>) -> Seq<Self::Real> {
        arbitrary()
    }

    /// `post` is what [`NonlinearSystem::refresh_jacobian`] at `x` makes of the model.
    closed spec fn refreshed(&self, x: Seq<Self::Real>, post: Self) -> bool {
        arbitrary()
    }

    /// The size and the indexing of the problem.
    fn layout(&self) -> (l: &Self::Layout)
        ensures
            *l == self.layout_of(),
    ;

    /// The Jacobian.
    fn jacobian(&self) -> (j: &Self::Jacobian)
        ensures
            *j == self.jacobian_of(),
    ;

    /// The Jacobian, for writing.
    fn jacobian_mut(&mut self) -> (j: &mut Self::Jacobian)
        ensures
            *j == old(self).jacobian_of(),
            final(self).jacobian_of() == *final(j),
            final(self).layout_of() == old(self).layout_of(),
    ;

    /// Writes the residual vector at `x` to `out`.
    fn residual(&self, x: &[Self::Real], out: &mut [Self::Real])
        requires
            x@.len() == self.layout_of().variables(),
            old(out)@.len() == self.layout_of().residuals(),
        ensures
            final(out)@ == self.residual_at(x@),
            final(out)@.len() == old(out)@.len(),
    ;

    /// Updates the values of the Jacobian to those at `x`. The pattern and the size
    /// of the problem stay.
    fn refresh_jacobian(&mut self, x: &[Self::Real])
        requires
            x@.len() == old(self).layout_of().variables(),
        ensures
            old(self).refreshed(x@, *final(self)),
            same_size(final(self).layout_of(), old(self).layout_of()),
            same_structure::<Self::Real, Self::Jacobian>(
                final(self).jacobian_of(),
                old(self).jacobian_of(),
            ),
    ;

    /// Updates the Jacobian to `x`, and writes it to `jac` as a full matrix.
    fn jacobian_dense(&mut self, x: &[Self::Real], jac: &mut Mat<Self::Real>)
        requires
            x@.len() == old(self).layout_of().variables(),
            has_values::<Self::Real, Self::Jacobian>(old(self).jacobian_of()),
            fits_in::<Self::Real, Self::Jacobian>(
                old(self).jacobian_of(),
                old(jac).rows(),
                old(jac).cols(),
            ),
        ensures
            old(self).refreshed(x@, *final(self)),
            same_size(final(self).layout_of(), old(self).layout_of()),
            same_structure::<Self::Real, Self::Jacobian>(
                final(self).jacobian_of(),
                old(self).jacobian_of(),
            ),
            final(jac).same_shape(*old(jac)),
            is_dense_form::<Self::Real, Self::Jacobian>(final(self).jacobian_of(), *final(jac)),
    {
        self.refresh_jacobian(x);
        let zero: Self::Real = Self::Real::zero();
        jac.fill(zero);
        let sparse = self.jacobian().attach();
        let rows: &[usize] = crate::pattern::row_idx(sparse.symbolic);
        let n: usize = ncols(sparse.symbolic);
        let mut col: usize = 0;
        let ghost s = *sparse.symbolic;
        let ghost values = sparse.values@;
        while col < n
            invariant
                col <= n,
                n == pattern_ncols(s),
                *sparse.symbolic == s,
                sparse.values@ == values,
                rows@ == pattern_row_idx(s),
                values.len() == pattern_row_idx(s).len(),
                jac.same_shape(*old(jac)),
                pattern_nrows(s) <= jac.rows(),
                pattern_ncols(s) <= jac.cols(),
                forall|i: int, j: int|
                    jac.covers(i, j) ==> #[trigger] jac.at(i, j) == (if j < col {
                        matrix_entry(s, values, zero, i, j)
                    } else {
                        zero
                    }),
            decreases n - col,
        {
            let range: (usize, usize) = col_range(sparse.symbolic, col);
            let ghost start = *jac;
            let mut idx: usize = range.0;
            while idx < range.1
                invariant
                    col < n,
                    n == pattern_ncols(s),
                    sparse.values@ == values,
                    rows@ == pattern_row_idx(s),
                    values.len() == pattern_row_idx(s).len(),
                    range.0 == col_start(s, col as int),
                    range.0 <= idx <= range.1 <= pattern_row_idx(s).len(),
                    forall|k: int|
                        range.0 <= k < range.1 ==> #[trigger] pattern_row_idx(s)[k]
                            < pattern_nrows(s),
                    jac.same_shape(start),
                    pattern_nrows(s) <= jac.rows(),
                    pattern_ncols(s) <= jac.cols(),
                    forall|i: int, j: int|
                        jac.covers(i, j) ==> #[trigger] jac.at(i, j) == (if j == col {
                            last_written(
                                pattern_row_idx(s),
                                values,
                                range.0 as int,
                                idx as int,
                                i,
                                start.at(i, j),
                            )
                        } else {
                            start.at(i, j)
                        }),
                decreases range.1 - idx,
            {
                jac.set(rows[idx], col, sparse.values[idx]);
                idx = idx + 1;
            }
            col = col + 1;
        }
        assert(is_zero(zero));
    }
}

/// The two layouts have equally many unknowns and equally many equations.
pub open spec fn same_size<L: RowMap>(a: L, b: L) -> bool {
    a.variables() == b.variables() && a.residuals() == b.residuals()
}

/// The two Jacobians have the same pattern and equally many values.
pub open spec fn same_structure<T, J: JacobianCache<T>>(a: J, b: J) -> bool {
    a.pattern() == b.pattern() && a.entries().len() == b.entries().len()
}

/// The Jacobian has one value for each row index of its pattern.
pub open spec fn has_values<T, J: JacobianCache<T>>(j: J) -> bool {
    j.entries().len() == pattern_row_idx(j.pattern()).len()
}

/// The Jacobian has no more than this many rows and no more than this many columns.
pub open spec fn fits_in<T, J: JacobianCache<T>>(j: J, nrows: nat, ncols: nat) -> bool {
    pattern_nrows(j.pattern()) <= nrows && pattern_ncols(j.pattern()) <= ncols
}

/// `m` is the Jacobian as a full matrix, with a zero wherever the Jacobian stores
/// nothing.
pub open spec fn is_dense_form<T: Real, J: JacobianCache<T>>(jac: J, m: Mat<T>) -> bool {
    exists|zero: T| #[trigger]
        is_zero(zero) && forall|i: int, j: int|
            m.covers(i, j) ==> #[trigger] m.at(i, j) == (if j < pattern_ncols(jac.pattern()) {
                matrix_entry(jac.pattern(), jac.entries(), zero, i, j)
            } else {
                zero
            })
}

/// A solver of linear systems whose matrix is an `M`.
pub trait LinearSolver<T, M>: Sized {
    /// The matrix can be handed to [`LinearSolver::factor`].
    closed spec fn factorable(a: M) -> bool {
        arbitrary()
    }

    /// The matrix has this many rows and columns, and once it is factorized there is a
    /// solution for a right-hand side of as many rows.
    closed spec fn accepts(a: M, rows: nat, cols: nat) -> bool {
        arbitrary()
    }

    /// The matrices can be handed to [`LinearSolver::solve_into`].
    closed spec fn serves(&self, rhs: Mat<T>, out: Mat<T>) -> bool {
        arbitrary()
    }

    /// Factorizing `a` took the solver from `pre` to `post` and gave `outcome`.
    closed spec fn factored(pre: Self, a: M, post: Self, outcome: SolverResult<()>) -> bool {
        arbitrary()
    }

    /// Solving for `rhs` took the solver from `pre` to `post` and the output from
    /// `before` to `after`, and gave `outcome`.
    closed spec fn solved(
        pre: Self,
        rhs: Mat<T>,
        before: Mat<T>,
        post: Self,
        after: Mat<T>,
        outcome: SolverResult<()>,
    ) -> bool {
        arbitrary()
    }

    /// Factorizes `a`, for the solves that follow.
    fn factor(&mut self, a: &M) -> (outcome: SolverResult<()>)
        requires
            Self::factorable(*a),
        ensures
            Self::factored(*old(self), *a, *final(self), outcome),
            outcome is Ok ==> forall|rows: nat, cols: nat, rhs: Mat<T>, out: Mat<T>|
                #![trigger Self::accepts(*a, rows, cols), final(self).serves(rhs, out)]
                Self::accepts(*a, rows, cols) && rhs.rows() == rows && out.rows() == cols
                    && rhs.cols() == out.cols() ==> final(self).serves(rhs, out),
    ;

    /// Solves the system with the matrix that was factorized last and the right-hand
    /// side `rhs`, and writes the solution to `out`, whose shape stays.
    fn solve_into(&mut self, rhs: &Mat<T>, out: &mut Mat<T>) -> (outcome: SolverResult<()>)
        requires
            old(self).serves(*rhs, *old(out)),
        ensures
            Self::solved(*old(self), *rhs, *old(out), *final(self), *final(out), outcome),
            final(out).same_shape(*old(out)),
    ;
}

} // verus!
