# newton-faer

A verified Newton engine for systems of nonlinear equations with sparse Jacobians, on top of
[faer]'s sparse linear algebra.

The engine does not know the equations. A model implements `NonlinearSystem`: `residual`
gives the residual vector at a point, `refresh_jacobian` updates the values of a Jacobian
whose sparsity pattern stays. The engine iterates, controls the step, watches for
divergence, reports its progress, and can be cancelled from the progress callback.

## Layout

- `src/` is the library. Everything in it is verified with Verus.
- `app/` puts floating-point numbers and faer's numeric factorizations under it, starts the
  thread pool, and turns failures into error reports.
- `tests/` runs the library, with faer for the arithmetic where that matters.

## What is proved

The arithmetic of a scalar (`Real`), the equations of a model (`NonlinearSystem`) and the
numeric half of a factorization (`LuNumeric`, `QrNumeric`, `DenseNumeric`) are left open:
contracts speak of what those operations gave, whatever that was. Around them, the
contracts are exact.

- `newton_iterate` and the entry points `solve`, `solve_cb`, `solve_sparse_cb` and
  `solve_dense_cb` return what `solves_to` relates to where they started: which iterations
  are taken, what the callback is told, where the point goes, and how the solve ends.
- A solve that succeeds ends at a point whose largest residual is below the tolerance; where
  the scalars are ordered as numbers are, so is every residual.
- A solve fails for a cause that the error names.
- A cancellation is honoured.
- With `0 < min_damping <= damping <= max_damping`, `grow >= 1`, and `shrink` and
  `ls_backtrack` above 0 and at most 1, every damping of a solve stays between its bounds.
- A line search that succeeds ends at a smaller residual than it started from.
- A sparse solver analyses a pattern once, and keeps the symbolic factorization from one
  solve to the next for as long as the pattern stays, wherever it is stored. It answers as a
  new solver would.
- A linear solver hands over what the numerical library found.

What is taken on trust are the few calls into faer and rayon in `src/pattern.rs`,
`src/linalg.rs` and `src/parallel.rs`; each says in its comment what is assumed.

## Choosing a linear solver

Square systems are solved by LU, with a full matrix or a sparse one as `MatrixFormat` says.
Others are solved in the least-squares sense by sparse QR, which takes no fewer equations
than unknowns. A sparse LU solver analyses a pattern without a transversal in faer's
simplicial form; whether such a matrix can be factorized, the numeric half finds out.

## Step control

With `NewtonCfg::with_adaptive(true)` the damping grows by `grow` after an iteration that
reduced the residual, up to `max_damping`, and shrinks by `shrink` after one that did not,
down to `min_damping`. A residual that grew by more than `divergence_ratio` starts a line
search, which shortens the step by `ls_backtrack` up to `ls_max_steps` times.

## Threads

`NewtonCfg::with_threads` sets how many threads are asked for, and `start_threads` starts the
pool with them, the first time; `with_started_threads` does both. Zero stands for all that the machine offers. The entry
points in `app/` start the pool before they solve.

[faer]: https://github.com/sarah-quinones/faer-rs
