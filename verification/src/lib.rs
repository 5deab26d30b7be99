//! A Newton engine for systems of nonlinear equations with sparse Jacobians.
//!
//! The engine does not know the equations. A model implements [`NonlinearSystem`]: it
//! gives the residual vector at a point, and refreshes the values of a Jacobian whose
//! sparsity pattern stays. A [`LinearSolver`] solves the linearized system. The engine
//! iterates, controls the step, watches for divergence, and reports its progress.
//!
//! - [`scalar`], [`order`]: the arithmetic that is asked of a scalar, and what it takes for
//!   scalars to be ordered.
//! - [`system`]: the models and the linear solvers.
//! - [`pattern`], [`dense`]: sparse and full matrices.
//! - [`config`], [`error`]: settings, progress reports and failures.
//! - [`damping`], [`search`]: the step control.
//! - [`direction`], [`solver`], [`drivers`]: the iteration and its entry points.
//! - [`signature`], [`matching`], [`numeric`], [`linalg`]: the linear solvers, which use a
//!   symbolic factorization again for as long as the pattern stays.
//! - [`parallel`]: the number of threads.
//! - [`history`], [`laws`], [`bounds`], [`failures`], [`convergence`]: what happens in every
//!   iteration, what holds of every solve, where its damping stays, why it fails, when it is
//!   over and what it depends on.
//! - [`stepping`], [`searching`], [`linearized`]: what the step control, a line search and the
//!   directions come to, in terms of the operations on scalars.
//! - [`entries`], [`preparing`]: what the entry points run, and what they accept.
//! - [`reuse`], [`renewal`], [`solutions`], [`solving`], [`storage`]: what a linear solver keeps
//!   from one solve to the next, that it answers as a new one would, that it answers right,
//!   what it hands to the numerical library, and what matrices and patterns hold.
pub mod bounds;
pub mod config;
pub mod convergence;
pub mod damping;
pub mod dense;
pub mod direction;
pub mod drivers;
pub mod entries;
pub mod error;
pub mod failures;
pub mod history;
pub mod laws;
pub mod linalg;
pub mod linearized;
pub mod matching;
pub mod numeric;
pub mod order;
pub mod parallel;
pub mod pattern;
pub mod preparing;
pub mod renewal;
pub mod reuse;
pub mod scalar;
pub mod search;
pub mod searching;
pub mod signature;
pub mod solutions;
pub mod solver;
pub mod solving;
pub mod stepping;
pub mod storage;
pub mod system;

pub use config::{Control, IterationStats, Iterations, MatrixFormat, NewtonCfg};
pub use dense::Mat;
pub use drivers::{solve, solve_cb, solve_dense_cb, solve_sparse_cb};
pub use error::{Failure, SolverError, SolverResult};
pub use linalg::{DenseLu, FaerLu, SparseQr};
pub use numeric::{DenseNumeric, LuNumeric, Numerics, QrNumeric};
pub use parallel::{
    current_parallelism, init_global_parallelism, start_threads, with_started_threads, Parallelism,
};
pub use pattern::{JacobianCache, Pattern, SparseView};
pub use scalar::Real;
pub use system::{LinearSolver, NonlinearSystem, RowMap};
