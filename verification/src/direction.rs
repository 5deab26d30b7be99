//! Newton directions: the solution of the linearized system.
use vstd::prelude::*;

use crate::dense::Mat;
use crate::error::SolverResult;
use crate::pattern::{JacobianCache, SparseView};
use crate::scalar::Real;
use crate::system::{LinearSolver, NonlinearSystem, RowMap};

verus! {

use crate::dense::is_zero_matrix;
use crate::scalar::is_negation;
use crate::system::{fits_in, has_values, is_dense_form, same_size, same_structure};

/// How the direction of a Newton step is computed with a linear solver `L`.
pub trait Direction<M: NonlinearSystem, L>: Sized {
    /// The buffers have the size that the model asks for, and the Jacobian can be
    /// handed to the solver.
    spec fn ready(&self, m: M) -> bool;

    /// The direction at `x`, where the residual vector is `f`, came out as `dir`, or
    /// `outcome` is an error; meanwhile the model, the solver and the buffers went
    /// from `m`, `l` and `pre` to `m1`, `l1` and `post`.
    spec fn computed(
        pre: Self,
        m: M,
        l: L,
        x: Seq<M::Real>,
        f: Seq<M::Real>,
        post: Self,
        m1: M,
        l1: L,
        dir: Seq<M::Real>,
        outcome: SolverResult<()>,
    ) -> bool;

    /// Computes the direction at `x`, where the residual vector is `f`.
    fn compute(
        &mut self,
        model: &mut M,
        lin: &mut L,
        x: &[M::Real],
        f: &[M::Real],
        dir: &mut Vec<M::Real>,
    ) -> (outcome: SolverResult<()>)
        requires
            old(self).ready(*old(model)),
            x@.len() == old(model).layout_of().variables(),
            f@.len() == old(model).layout_of().residuals(),
            old(dir)@.len() == old(model).layout_of().variables(),
        ensures
            Self::computed(
                *old(self),
                *old(model),
                *old(lin),
                x@,
                f@,
                *final(self),
                *final(model),
                *final(lin),
                final(dir)@,
                outcome,
            ),
            final(self).ready(*final(model)),
            same_size(final(model).layout_of(), old(model).layout_of()),
            same_structure::<M::Real, M::Jacobian>(
                final(model).jacobian_of(),
                old(model).jacobian_of(),
            ),
            final(dir)@.len() == old(dir)@.len(),
    ;
}

/// `column` is a single column, and it holds the negated entries of `f`.
pub open spec fn is_negated_column<R: Real>(f: Seq<R>, column: Mat<R>) -> bool {
    &&& column.rows() == f.len()
    &&& column.cols() == 1
    &&& forall|i: int| 0 <= i < f.len() ==> is_negation(f[i], #[trigger] column.at(i, 0))
}

/// `dir` holds the entries of the first column of `m`.
pub open spec fn is_first_column<R: Real>(m: Mat<R>, dir: Seq<R>) -> bool {
    &&& dir.len() == m.rows()
    &&& forall|i: int| 0 <= i < dir.len() ==> #[trigger] dir[i] == m.at(i, 0)
}

/// The system with the matrix `a` and the right-hand side `-f` was handed to the
/// solver `l`, which became `l1`: first the matrix, then, unless that failed, the
/// right-hand side. The solution is `dir`, or `outcome` is the error of the half that
/// failed. `before` and `after` are the output buffer before and after.
pub open spec fn linear_solve<R: Real, A, L: LinearSolver<R, A>>(
    l: L,
    a: A,
    f: Seq<R>,
    rhs: Mat<R>,
    before: Mat<R>,
    after: Mat<R>,
    l1: L,
    dir: Seq<R>,
    outcome: SolverResult<()>,
) -> bool {
    exists|mid: L, factored: SolverResult<()>| #[trigger]
        L::factored(l, a, mid, factored) && match factored {
            Err(e) => outcome == factored && l1 == mid,
            Ok(_) => {
                &&& is_negated_column(f, rhs)
                &&& L::solved(mid, rhs, before, l1, after, outcome)
                &&& outcome is Ok ==> is_first_column(after, dir)
            },
        }
}

/// A solver of the kind `L` can solve with every matrix that has the pattern of the
/// Jacobian of `m`, for as many equations and unknowns as the problem has.
pub open spec fn sparse_solvable<M, L>(m: M) -> bool where
    M: NonlinearSystem,
    L: for<'a> LinearSolver<M::Real, SparseView<'a, M::Real>>,
 {
    forall|a: SparseView<'_, M::Real>|
        #![trigger L::factorable(a)]
        #![trigger L::accepts(a, m.layout_of().residuals(), m.layout_of().variables())]
        *a.symbolic == m.jacobian_of().pattern() && a.wf() ==> L::factorable(a) && L::accepts(
            a,
            m.layout_of().residuals(),
            m.layout_of().variables(),
        )
}

/// A solver of the kind `L` can solve with every full matrix that has a row for each
/// equation and a column for each unknown.
pub open spec fn dense_solvable<M, L>(m: M) -> bool where
    M: NonlinearSystem,
    L: LinearSolver<M::Real, Mat<M::Real>>,
 {
    forall|a: Mat<M::Real>|
        #![trigger L::factorable(a)]
        #![trigger L::accepts(a, m.layout_of().residuals(), m.layout_of().variables())]
        a.rows() == m.layout_of().residuals() && a.cols() == m.layout_of().variables()
            ==> L::factorable(a) && L::accepts(
            a,
            m.layout_of().residuals(),
            m.layout_of().variables(),
        )
}

/// Negates the entries of `f` into the only column of `rhs`.
fn negate_into<R: Real>(f: &[R], rhs: &mut Mat<R>)
    requires
        old(rhs).rows() == f@.len(),
        old(rhs).cols() == 1,
    ensures
        is_negated_column(f@, *final(rhs)),
{
    let n: usize = f.len();
    let mut i: usize = 0;
    while i < n
        invariant
            i <= n,
            n == f@.len(),
            rhs.rows() == n,
            rhs.cols() == 1,
            forall|k: int| 0 <= k < i ==> is_negation(f@[k], #[trigger] rhs.at(k, 0)),
        decreases n - i,
    {
        let negative: R = f[i].negated();
        rhs.set(i, 0, negative);
        i = i + 1;
    }
}

/// Copies the first column of `m` to `dir`.
fn read_column<R: Real>(m: &Mat<R>, dir: &mut Vec<R>)
    requires
        old(dir)@.len() == m.rows(),
        m.cols() == 1,
    ensures
        is_first_column(*m, final(dir)@),
{
    let n: usize = dir.len();
    let mut i: usize = 0;
    while i < n
        invariant
            i <= n,
            n == m.rows(),
            m.cols() == 1,
            dir@.len() == n,
            forall|k: int| 0 <= k < i ==> #[trigger] dir@[k] == m.at(k, 0),
        decreases n - i,
    {
        dir[i] = m.get(i, 0);
        i = i + 1;
    }
}

/// Hands the system with the matrix `a` and the right-hand side `-f` to the solver.
fn solve_linear<R: Real, A, L: LinearSolver<R, A>>(
    lin: &mut L,
    a: &A,
    f: &[R],
    rhs: &mut Mat<R>,
    out: &mut Mat<R>,
    dir: &mut Vec<R>,
) -> (outcome: SolverResult<()>)
    requires
        old(rhs).rows() == f@.len(),
        old(rhs).cols() == 1,
        old(out).rows() == old(dir)@.len(),
        old(out).cols() == 1,
        L::factorable(*a),
        L::accepts(*a, f@.len(), old(dir)@.len()),
    ensures
        linear_solve(
            *old(lin),
            *a,
            f@,
            *final(rhs),
            *old(out),
            *final(out),
            *final(lin),
            final(dir)@,
            outcome,
        ),
        final(rhs).same_shape(*old(rhs)),
        final(out).same_shape(*old(out)),
        final(dir)@.len() == old(dir)@.len(),
{
    let factored: SolverResult<()> = lin.factor(a);
    let ghost mid = *lin;
    assert(L::factored(*old(lin), *a, mid, factored));
    if factored.is_err() {
        return factored;
    }
    negate_into(f, rhs);
    assert(lin.serves(*rhs, *out));
    let outcome: SolverResult<()> = lin.solve_into(rhs, out);
    if outcome.is_ok() {
        read_column(out, dir);
    }
    outcome
}

/// Directions through a sparse Jacobian.
pub struct SparseDirection<R> {
    /// The right-hand side of the linear system.
    pub rhs: Mat<R>,
    /// Its solution.
    pub out: Mat<R>,
}

impl<R: Real> SparseDirection<R> {
    /// The buffers are those of a system of the given size, and hold zeros.
    pub open spec fn is_new(self, n_residuals: nat, n_variables: nat) -> bool {
        &&& self.rhs.rows() == n_residuals
        &&& self.rhs.cols() == 1
        &&& self.out.rows() == n_variables
        &&& self.out.cols() == 1
        &&& is_zero_matrix(self.rhs)
        &&& is_zero_matrix(self.out)
    }

    /// Buffers for a system of the given size.
    pub fn new(n_residuals: usize, n_variables: usize) -> (d: Self)
        ensures
            d.is_new(n_residuals as nat, n_variables as nat),
    {
        SparseDirection { rhs: Mat::zeros(n_residuals, 1), out: Mat::zeros(n_variables, 1) }
    }
}

impl<M, L> Direction<M, L> for SparseDirection<M::Real> where
    M: NonlinearSystem,
    L: for<'a> LinearSolver<M::Real, SparseView<'a, M::Real>>,
 {
    open spec fn ready(&self, m: M) -> bool {
        &&& self.rhs.rows() == m.layout_of().residuals()
        &&& self.rhs.cols() == 1
        &&& self.out.rows() == m.layout_of().variables()
        &&& self.out.cols() == 1
        &&& has_values::<M::Real, M::Jacobian>(m.jacobian_of())
        &&& sparse_solvable::<M, L>(m)
    }

    /// The model refreshes its Jacobian at `x`, and the solver gets that matrix.
    open spec fn computed(
        pre: Self,
        m: M,
        l: L,
        x: Seq<M::Real>,
        f: Seq<M::Real>,
        post: Self,
        m1: M,
        l1: L,
        dir: Seq<M::Real>,
        outcome: SolverResult<()>,
    ) -> bool {
        &&& m.refreshed(x, m1)
        &&& same_structure::<M::Real, M::Jacobian>(m1.jacobian_of(), m.jacobian_of())
        &&& post.out.same_shape(pre.out)
        &&& exists|a: SparseView<'_, M::Real>|
            {
                &&& *a.symbolic == m1.jacobian_of().pattern()
                &&& a.values@ == m1.jacobian_of().entries()
                &&& #[trigger] linear_solve(l, a, f, post.rhs, pre.out, post.out, l1, dir, outcome)
            }
    }

    fn compute(
        &mut self,
        model: &mut M,
        lin: &mut L,
        x: &[M::Real],
        f: &[M::Real],
        dir: &mut Vec<M::Real>,
    ) -> (outcome: SolverResult<()>) {
        model.refresh_jacobian(x);
        let a = model.jacobian().attach();
        assert(L::factorable(a));
        let outcome = solve_linear(lin, &a, f, &mut self.rhs, &mut self.out, dir);
        assert(linear_solve(
            *old(lin),
            a,
            f@,
            self.rhs,
            old(self).out,
            self.out,
            *lin,
            dir@,
            outcome,
        ));
        outcome
    }
}

/// Directions through a full Jacobian.
pub struct DenseDirection<R> {
    /// The Jacobian.
    pub jac: Mat<R>,
    /// The right-hand side of the linear system.
    pub rhs: Mat<R>,
    /// Its solution.
    pub out: Mat<R>,
}

impl<R: Real> DenseDirection<R> {
    /// The buffers are those of a system of the given size, and hold zeros.
    pub open spec fn is_new(self, n_residuals: nat, n_variables: nat) -> bool {
        &&& self.jac.rows() == n_residuals
        &&& self.jac.cols() == n_variables
        &&& self.rhs.rows() == n_residuals
        &&& self.rhs.cols() == 1
        &&& self.out.rows() == n_variables
        &&& self.out.cols() == 1
        &&& is_zero_matrix(self.jac)
        &&& is_zero_matrix(self.rhs)
        &&& is_zero_matrix(self.out)
    }

    /// Buffers for a system of the given size.
    pub fn new(n_residuals: usize, n_variables: usize) -> (d: Self)
        ensures
            d.is_new(n_residuals as nat, n_variables as nat),
    {
        DenseDirection {
            jac: Mat::zeros(n_residuals, n_variables),
            rhs: Mat::zeros(n_residuals, 1),
            out: Mat::zeros(n_variables, 1),
        }
    }
}

impl<M, L> Direction<M, L> for DenseDirection<M::Real> where
    M: NonlinearSystem,
    L: LinearSolver<M::Real, Mat<M::Real>>,
 {
    open spec fn ready(&self, m: M) -> bool {
        &&& self.jac.rows() == m.layout_of().residuals()
        &&& self.jac.cols() == m.layout_of().variables()
        &&& self.rhs.rows() == m.layout_of().residuals()
        &&& self.rhs.cols() == 1
        &&& self.out.rows() == m.layout_of().variables()
        &&& self.out.cols() == 1
        &&& has_values::<M::Real, M::Jacobian>(m.jacobian_of())
        &&& fits_in::<M::Real, M::Jacobian>(
            m.jacobian_of(),
            m.layout_of().residuals(),
            m.layout_of().variables(),
        )
        &&& dense_solvable::<M, L>(m)
    }

    /// The model refreshes its Jacobian at `x`, and the solver gets that matrix in
    /// full.
    open spec fn computed(
        pre: Self,
        m: M,
        l: L,
        x: Seq<M::Real>,
        f: Seq<M::Real>,
        post: Self,
        m1: M,
        l1: L,
        dir: Seq<M::Real>,
        outcome: SolverResult<()>,
    ) -> bool {
        &&& m.refreshed(x, m1)
        &&& same_structure::<M::Real, M::Jacobian>(m1.jacobian_of(), m.jacobian_of())
        &&& post.jac.same_shape(pre.jac)
        &&& post.out.same_shape(pre.out)
        &&& is_dense_form::<M::Real, M::Jacobian>(m1.jacobian_of(), post.jac)
        &&& linear_solve(l, post.jac, f, post.rhs, pre.out, post.out, l1, dir, outcome)
    }

    fn compute(
        &mut self,
        model: &mut M,
        lin: &mut L,
        x: &[M::Real],
        f: &[M::Real],
        dir: &mut Vec<M::Real>,
    ) -> (outcome: SolverResult<()>) {
        model.jacobian_dense(x, &mut self.jac);
        assert(L::factorable(self.jac));
        solve_linear(lin, &self.jac, f, &mut self.rhs, &mut self.out, dir)
    }
}

} // verus!
