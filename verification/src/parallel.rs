use vstd::prelude::*;
use crate::error::MatrixError;
use crate::matrix::cell_has_slot;
use crate::matrix::slot_names_a_cell;
use crate::matrix::Grid;
use crate::matrix::Matrix;
use crate::matrix::ZERO;
use crate::product::dot;
use crate::product::dot_is;
use crate::product::is_product;
use crate::product::total;

verus! {

/// rayon's thread pool, carried as an opaque value.
#[verifier::external_type_specification]
#[verifier::external_body]
pub struct ExThreadPool(rayon::ThreadPool);

/// rayon's reason for not starting a pool, carried as an opaque value.
#[verifier::external_type_specification]
#[verifier::external_body]
pub struct ExThreadPoolBuildError(rayon::ThreadPoolBuildError);

/// rayon's handle for spawning jobs that end before the scope does, carried
/// as an opaque value.
#[verifier::external_type_specification]
#[verifier::external_body]
pub struct ExScope<'scope>(rayon::Scope<'scope>);

/// `r` is the dot product that belongs at buffer position `slot` of the
/// product of `a` and `b`: that of row `slot / b.cols` and column
/// `slot % b.cols`.
pub open spec fn cell_is<F: Fn(u64, u64, u64) -> u64>(step: F, a: Grid, b: Grid, slot: int, r: u64) -> bool {
    dot_is(step, a, b, slot / b.cols as int, slot % b.cols as int, a.cols, r)
}

/// A buffer whose every position holds the dot product that belongs there is
/// a product of `a` and `b`.
pub proof fn cells_make_product<F: Fn(u64, u64, u64) -> u64>(step: F, a: Grid, b: Grid, cells: Seq<u64>)
    requires
        cells.len() == a.rows * b.cols,
        forall|slot: int| 0 <= slot < cells.len() ==> cell_is(step, a, b, slot, #[trigger] cells[slot]),
    ensures
        is_product(step, a, b, Grid { rows: a.rows, cols: b.cols, cells }),
{
    let p = Grid { rows: a.rows, cols: b.cols, cells };
    assert forall|i: int, j: int| p.has(i, j) implies dot_is(
        step,
        a,
        b,
        i,
        j,
        a.cols,
        #[trigger] p.at(i, j),
    ) by {
        crate::matrix::offset_in_bounds(p, i, j);
        cell_has_slot(p, i, j);
        assert(cell_is(step, a, b, p.offset(i, j), cells[p.offset(i, j)]));
    }
}

/// Where an operand has no cells or no inner terms, the zero-filled buffer is
/// already the product.
pub proof fn zeros_are_empty_product<F: Fn(u64, u64, u64) -> u64>(step: F, a: Grid, b: Grid)
    requires
        a.rows == 0 || a.cols == 0 || b.cols == 0,
    ensures
        is_product(step, a, b, Grid::zeros(a.rows, b.cols)),
{
    let p = Grid::zeros(a.rows, b.cols);
    assert(a.rows * b.cols == 0 || a.cols == 0) by (nonlinear_arith)
        requires
            a.rows == 0 || a.cols == 0 || b.cols == 0,
    ;
    assert forall|i: int, j: int| p.has(i, j) implies dot_is(
        step,
        a,
        b,
        i,
        j,
        a.cols,
        #[trigger] p.at(i, j),
    ) by {
        crate::matrix::offset_in_bounds(p, i, j);
    }
}

/// Computes the dot product that belongs at buffer position `slot` of the
/// product and stores it in `cell`.
fn fill_cell<F: Fn(u64, u64, u64) -> u64>(cell: &mut u64, a: &Matrix, b: &Matrix, slot: usize, step: &F)
    requires
        total(*step),
        a@.cols == b@.rows,
        slot < a@.rows * b@.cols,
    ensures
        cell_is(*step, a@, b@, slot as int, *final(cell)),
{
    let rows: usize = a.rows();
    let cols: usize = b.cols();
    proof {
        let shape = Grid::zeros(rows as nat, cols as nat);
        slot_names_a_cell(shape, slot as int);
    }
    let row: usize = slot / cols;
    let col: usize = slot % cols;
    let sum: u64 = dot(a, b, row, col, step);
    *cell = sum;
}

/// Hands one cell to the scope as a job of its own.
///
/// Calls `rayon::Scope::spawn`. The job is one call of `fill_cell` on the
/// borrowed cell. rayon runs every job of a scope before the scope ends, and
/// the borrow keeps the cell out of everyone else's reach until then. The
/// contract is not proved: it says of the value the cell is left with what
/// `fill_cell` ensures of it.
#[verifier::external_body]
fn spawn_cell<'s, F: Fn(u64, u64, u64) -> u64 + Sync>(
    scope: &rayon::Scope<'s>,
    cell: &'s mut u64,
    a: &'s Matrix,
    b: &'s Matrix,
    slot: usize,
    step: &'s F,
)
    requires
        total(*step),
        a@.cols == b@.rows,
        slot < a@.rows * b@.cols,
    ensures
        cell_is(*step, a@, b@, slot as int, *final(cell)),
{
    scope.spawn(move |_| fill_cell(cell, a, b, slot, step));
}

/// Submits one job per cell of `cells`, which are the buffer positions from
/// `first` on. The buffer is split into disjoint halves until single cells
/// remain, so no two jobs ever hold the same cell.
fn submit<'s, F: Fn(u64, u64, u64) -> u64 + Sync>(
    scope: &rayon::Scope<'s>,
    cells: &'s mut [u64],
    first: usize,
    a: &'s Matrix,
    b: &'s Matrix,
    step: &'s F,
)
    requires
        total(*step),
        a@.cols == b@.rows,
        first + old(cells)@.len() <= a@.rows * b@.cols,
        a@.rows * b@.cols <= usize::MAX,
    ensures
        final(cells)@.len() == old(cells)@.len(),
        forall|k: int|
            0 <= k < old(cells)@.len() ==> cell_is(*step, a@, b@, first + k, #[trigger] final(cells)@[k]),
    decreases old(cells)@.len(),
{
    let n: usize = cells.len();
    if n == 1 {
        match cells.first_mut() {
            Some(cell) => {
                spawn_cell(scope, cell, a, b, first, step);
            },
            None => {},
        }
    } else if n > 1 {
        let mid: usize = n / 2;
        let (left, right) = cells.split_at_mut(mid);
        submit(scope, left, first, a, b, step);
        submit(scope, right, first + mid, a, b, step);
    }
}

/// Runs the jobs for all cells of `out` on the pool's threads.
///
/// Calls `rayon::ThreadPool::scope`, whose closure is one call of `submit`.
/// rayon returns from a scope only after every job spawned into it has
/// finished, and hands on the panic of a job that panicked. The contract is
/// not proved: it says of `out` what `submit` ensures of its cells.
#[verifier::external_body]
fn run_scope<F: Fn(u64, u64, u64) -> u64 + Sync>(
    threads: &rayon::ThreadPool,
    out: &mut Vec<u64>,
    a: &Matrix,
    b: &Matrix,
    step: &F,
)
    requires
        total(*step),
        a@.cols == b@.rows,
        old(out)@.len() == a@.rows * b@.cols,
    ensures
        final(out)@.len() == old(out)@.len(),
        forall|slot: int|
            0 <= slot < old(out)@.len() ==> cell_is(*step, a@, b@, slot, #[trigger] final(out)@[slot]),
{
    threads.scope(|s| submit(s, out.as_mut_slice(), 0, a, b, step))
}

/// Asks rayon for a pool of `workers` threads.
///
/// Calls `rayon::ThreadPoolBuilder::build` on a new builder whose only
/// setting is `num_threads`. Whether the threads can be started depends on
/// the machine, so nothing is claimed of the outcome.
#[verifier::external_body]
fn build_pool(workers: usize) -> (r: Result<rayon::ThreadPool, rayon::ThreadPoolBuildError>) {
    rayon::ThreadPoolBuilder::new().num_threads(workers).build()
}

/// A fixed set of worker threads that parallel products run on. It is meant
/// to be built once and used for many products.
///
/// A pool of no workers holds no threads and runs no job.
pub struct WorkerPool {
    workers: usize,
    threads: Option<rayon::ThreadPool>,
}

impl WorkerPool {
    #[verifier::type_invariant]
    spec fn inv(&self) -> bool {
        self.workers == 0 <==> self.threads is None
    }

    /// The number of workers the pool was made for.
    pub closed spec fn size(&self) -> nat {
        self.workers as nat
    }

    /// The pool of no workers.
    pub fn idle() -> (pool: WorkerPool)
        ensures
            pool.size() == 0,
    {
        WorkerPool { workers: 0, threads: None }
    }

    /// Wraps the outcome of starting `workers` threads: the pool if they
    /// started, `PoolUnavailable` if they did not. A pool of no workers
    /// keeps no thread, whatever was started.
    pub fn adopt(workers: usize, built: Result<rayon::ThreadPool, rayon::ThreadPoolBuildError>) -> (r:
        Result<WorkerPool, MatrixError>)
        ensures
            workers == 0 || built is Ok ==> r is Ok && r->Ok_0.size() == workers,
            workers > 0 && built is Err ==> r is Err && r->Err_0 == MatrixError::PoolUnavailable,
    {
        if workers == 0 {
            return Ok(WorkerPool::idle());
        }
        match built {
            Ok(threads) => Ok(WorkerPool { workers, threads: Some(threads) }),
            Err(_) => Err(MatrixError::PoolUnavailable),
        }
    }

    /// Starts a pool of `workers` threads. No thread is started for a pool
    /// of no workers, which therefore cannot fail.
    pub fn new(workers: usize) -> (r: Result<WorkerPool, MatrixError>)
        ensures
            workers == 0 ==> r is Ok,
            r is Ok ==> r->Ok_0.size() == workers,
            r is Err ==> r->Err_0 == MatrixError::PoolUnavailable,
    {
        if workers == 0 {
            Ok(WorkerPool::idle())
        } else {
            WorkerPool::adopt(workers, build_pool(workers))
        }
    }

    /// The number of workers the pool was made for.
    pub fn workers(&self) -> (n: usize)
        ensures
            n == self.size(),
    {
        self.workers
    }
}

impl Matrix {
    /// The product of `self` and `other`, one job per cell, on the threads
    /// of `pool`.
    ///
    /// Fails exactly when the columns of `self` and the rows of `other`
    /// disagree. Each job writes the one cell it was given, and the call
    /// returns when all jobs have finished. No job is submitted where an
    /// operand is empty or the pool has no workers: the result is then the
    /// zero-filled buffer.
    pub fn multiply_on<F: Fn(u64, u64, u64) -> u64 + Sync>(
        &self,
        other: &Matrix,
        pool: &WorkerPool,
        step: F,
    ) -> (r: Result<Matrix, MatrixError>)
        requires
            total(step),
            self@.rows * other@.cols <= usize::MAX,
        ensures
            self@.cols != other@.rows ==> r == Err::<Matrix, MatrixError>(
                MatrixError::DimensionMismatch,
            ),
            self@.cols == other@.rows ==> r is Ok,
            r is Ok && pool.size() == 0 ==> r->Ok_0@ == Grid::zeros(self@.rows, other@.cols),
            r is Ok && pool.size() > 0 ==> is_product(step, self@, other@, r->Ok_0@),
    {
        if self.cols() != other.rows() {
            return Err(MatrixError::DimensionMismatch);
        }
        let rows: usize = self.rows();
        let inner: usize = self.cols();
        let cols: usize = other.cols();
        let count: usize = rows * cols;
        let mut out: Vec<u64> = vec![ZERO; count];
        assert(out@ =~= Grid::zeros(rows as nat, cols as nat).cells);
        proof {
            use_type_invariant(pool);
        }
        match &pool.threads {
            Some(threads) => {
                if count > 0 && inner > 0 {
                    run_scope(threads, &mut out, self, other, &step);
                    proof {
                        cells_make_product(step, self@, other@, out@);
                    }
                } else {
                    proof {
                        assert(rows == 0 || cols == 0 || inner == 0) by (nonlinear_arith)
                            requires
                                count == rows * cols,
                                !(count > 0 && inner > 0),
                        ;
                        zeros_are_empty_product(step, self@, other@);
                    }
                }
            },
            None => {},
        }
        Matrix::new(rows, cols, out)
    }

    /// The product of `self` and `other`, one job per cell, on a pool of
    /// `worker_count` threads that lives for this call.
    ///
    /// Fails with `DimensionMismatch` exactly when the columns of `self` and
    /// the rows of `other` disagree. With no workers, or with an empty
    /// operand, no pool is started and the zero-filled buffer is returned at
    /// once. Otherwise the call fails only if the threads cannot be started.
    pub fn multiply_parallel<F: Fn(u64, u64, u64) -> u64 + Sync>(
        &self,
        other: &Matrix,
        worker_count: usize,
        step: F,
    ) -> (r: Result<Matrix, MatrixError>)
        requires
            total(step),
            self@.rows * other@.cols <= usize::MAX,
        ensures
            self@.cols != other@.rows ==> r == Err::<Matrix, MatrixError>(
                MatrixError::DimensionMismatch,
            ),
            self@.cols == other@.rows && (worker_count == 0 || self@.rows == 0 || self@.cols == 0
                || other@.cols == 0) ==> r is Ok && r->Ok_0@ == Grid::zeros(
                self@.rows,
                other@.cols,
            ),
            self@.cols == other@.rows && r is Err ==> r->Err_0 == MatrixError::PoolUnavailable,
            r is Ok && worker_count > 0 ==> is_product(step, self@, other@, r->Ok_0@),
    {
        if self.cols() != other.rows() {
            return Err(MatrixError::DimensionMismatch);
        }
        let rows: usize = self.rows();
        let cols: usize = other.cols();
        if worker_count == 0 || rows == 0 || cols == 0 || self.cols() == 0 {
            proof {
                if rows == 0 || cols == 0 || self@.cols == 0 {
                    zeros_are_empty_product(step, self@, other@);
                }
            }
            return Ok(Matrix::zeros(rows, cols));
        }
        match WorkerPool::new(worker_count) {
            Ok(pool) => self.multiply_on(other, &pool, step),
            Err(e) => Err(e),
        }
    }
}

} // verus!
