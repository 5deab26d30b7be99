//! Why a solve can fail.
use vstd::prelude::*;

verus! {

/// The step at which a solve gave up.
#[derive(Clone, Copy, Debug, PartialEq, Eq, Structural)]
pub enum Failure {
    /// The progress callback asked to stop.
    Cancelled,
    /// The residual blew up and no trial step of the line search reduced it.
    LineSearchFailed,
    /// The residual stayed above the tolerance for this many iterations.
    NotConverged(usize),
    /// The symbolic LU factorization failed.
    SymbolicLu,
    /// The numeric LU factorization failed.
    NumericLu,
    /// A sparse LU was asked to solve without a factorization that succeeded.
    LuNotFactorized,
    /// The symbolic QR factorization failed.
    SymbolicQr,
    /// The numeric QR factorization failed.
    NumericQr,
    /// A sparse QR was asked to solve before it was factorized.
    QrNotFactorized,
    /// The output buffer cannot hold the least-squares solution.
    QrOutputTooSmall,
    /// A dense LU was asked to solve before it was factorized.
    DenseNotFactorized,
    /// A linear solver failed for a reason of its own.
    Unspecified,
}

/// The error of every fallible operation of the engine.
#[derive(Clone, Copy, Debug, PartialEq, Eq, Structural)]
pub struct SolverError {
    /// What went wrong.
    pub reason: Failure,
}

/// The result of a fallible operation of the engine.
pub type SolverResult<T> = Result<T, SolverError>;

impl SolverError {
    /// The error with the given reason.
    pub fn new(reason: Failure) -> (e: SolverError)
        ensures
            e.reason == reason,
    {
        SolverError { reason }
    }

    /// The text that the error is shown as.
    pub fn message(&self) -> (text: &'static str)
        ensures
            text@ == "solver error"@,
    {
        "solver error"
    }
}

} // verus!
