use vstd::prelude::*;
use crate::error::MatrixError;
use crate::matrix::offset_in_bounds;
use crate::matrix::offset_is_injective;
use crate::matrix::Grid;
use crate::matrix::Matrix;
use crate::matrix::ZERO;

verus! {

/// `step` may be called on every accumulator and every pair of elements.
///
/// A step takes the running sum and one element of each operand and gives the
/// next running sum; for doubles it is `acc + x * y`.
pub open spec fn total<F: Fn(u64, u64, u64) -> u64>(step: F) -> bool {
    forall|acc: u64, x: u64, y: u64| call_requires(step, (acc, x, y))
}

/// `step` gives the same sum whenever it is given the same arguments.
pub open spec fn deterministic<F: Fn(u64, u64, u64) -> u64>(step: F) -> bool {
    forall|acc: u64, x: u64, y: u64, r1: u64, r2: u64|
        call_ensures(step, (acc, x, y), r1) && call_ensures(step, (acc, x, y), r2) ==> r1 == r2
}

/// The answers of `step` as a relation: whether `step`, given the running
/// sum `acc` and the elements `x` and `y`, may give `r`.
pub open spec fn answers<F: Fn(u64, u64, u64) -> u64>(step: F) -> spec_fn(u64, u64, u64, u64) -> bool {
    |acc: u64, x: u64, y: u64, r: u64| call_ensures(step, (acc, x, y), r)
}

/// `r` is what the relation `next` makes of the first `k` terms of row `i`
/// of `a` and column `j` of `b`: one accumulator, started at `ZERO`, fed the
/// terms in increasing order of their index.
pub open spec fn folds_to(
    next: spec_fn(u64, u64, u64, u64) -> bool,
    a: Grid,
    b: Grid,
    i: int,
    j: int,
    k: nat,
    r: u64,
) -> bool
    decreases k,
{
    if k == 0 {
        r == ZERO
    } else {
        exists|prev: u64|
            folds_to(next, a, b, i, j, (k - 1) as nat, prev) && #[trigger] next(
                prev,
                a.at(i, k - 1),
                b.at(k - 1, j),
                r,
            )
    }
}

/// `r` is what `step` makes of the first `k` terms of row `i` of `a` and
/// column `j` of `b`, taken in increasing order from a sum of `ZERO`.
pub open spec fn dot_is<F: Fn(u64, u64, u64) -> u64>(
    step: F,
    a: Grid,
    b: Grid,
    i: int,
    j: int,
    k: nat,
    r: u64,
) -> bool {
    folds_to(answers(step), a, b, i, j, k, r)
}

/// `p` is a product of `a` and `b` under `step`: it has the rows of `a`, the
/// columns of `b`, and each cell holds the full dot product of its row and
/// its column.
pub open spec fn is_product<F: Fn(u64, u64, u64) -> u64>(step: F, a: Grid, b: Grid, p: Grid) -> bool {
    &&& p.rows == a.rows
    &&& p.cols == b.cols
    &&& p.wf()
    &&& forall|i: int, j: int| p.has(i, j) ==> dot_is(step, a, b, i, j, a.cols, #[trigger] p.at(i, j))
}

/// One more call of `step` carries a dot product over `k` terms to one over
/// `k + 1` terms.
pub proof fn dot_extends<F: Fn(u64, u64, u64) -> u64>(
    step: F,
    a: Grid,
    b: Grid,
    i: int,
    j: int,
    k: nat,
    prev: u64,
    r: u64,
)
    requires
        dot_is(step, a, b, i, j, k, prev),
        call_ensures(step, (prev, a.at(i, k as int), b.at(k as int, j)), r),
    ensures
        dot_is(step, a, b, i, j, k + 1, r),
{
    let next = answers(step);
    let upto = (k + 1) as nat;
    assert((upto - 1) as nat == k);
    assert(next(prev, a.at(i, upto - 1), b.at(upto - 1, j), r));
}

/// Folds `step` over row `row` of `a` and column `col` of `b`, in increasing
/// order of the inner index, from an accumulator that starts at `ZERO`.
pub fn dot<F: Fn(u64, u64, u64) -> u64>(a: &Matrix, b: &Matrix, row: usize, col: usize, step: &F) -> (r: u64)
    requires
        total(*step),
        a@.cols == b@.rows,
        row < a@.rows,
        col < b@.cols,
    ensures
        dot_is(*step, a@, b@, row as int, col as int, a@.cols, r),
{
    let n: usize = a.cols();
    let mut sum: u64 = ZERO;
    let mut k: usize = 0;
    while k < n
        invariant
            k <= n,
            n == a@.cols,
            a@.cols == b@.rows,
            row < a@.rows,
            col < b@.cols,
            total(*step),
            dot_is(*step, a@, b@, row as int, col as int, k as nat, sum),
        decreases n - k,
    {
        let x: u64 = a.get(row, k);
        let y: u64 = b.get(k, col);
        let next: u64 = step(sum, x, y);
        proof {
            dot_extends(*step, a@, b@, row as int, col as int, k as nat, sum, next);
        }
        sum = next;
        k += 1;
    }
    sum
}

impl Matrix {
    /// The product of `self` and `other`, one cell after another on the
    /// calling thread.
    ///
    /// Fails exactly when the columns of `self` and the rows of `other`
    /// disagree. The result must be addressable: its cell count has to fit
    /// the machine word.
    pub fn multiply<F: Fn(u64, u64, u64) -> u64>(&self, other: &Matrix, step: F) -> (r: Result<
        Matrix,
        MatrixError,
    >)
        requires
            total(step),
            self@.rows * other@.cols <= usize::MAX,
        ensures
            self@.cols != other@.rows ==> r == Err::<Matrix, MatrixError>(
                MatrixError::DimensionMismatch,
            ),
            self@.cols == other@.rows ==> r is Ok && is_product(step, self@, other@, r->Ok_0@),
    {
        if self.cols() != other.rows() {
            return Err(MatrixError::DimensionMismatch);
        }
        let rows: usize = self.rows();
        let cols: usize = other.cols();
        let mut result: Matrix = Matrix::zeros(rows, cols);
        let mut i: usize = 0;
        while i < rows
            invariant
                i <= rows,
                rows == self@.rows,
                cols == other@.cols,
                self@.cols == other@.rows,
                total(step),
                result@.rows == rows,
                result@.cols == cols,
                result@.wf(),
                forall|r: int, c: int|
                    0 <= r < i && 0 <= c < cols ==> dot_is(
                        step,
                        self@,
                        other@,
                        r,
                        c,
                        self@.cols,
                        #[trigger] result@.at(r, c),
                    ),
            decreases rows - i,
        {
            let mut j: usize = 0;
            while j < cols
                invariant
                    i < rows,
                    j <= cols,
                    rows == self@.rows,
                    cols == other@.cols,
                    self@.cols == other@.rows,
                    total(step),
                    result@.rows == rows,
                    result@.cols == cols,
                    result@.wf(),
                    forall|r: int, c: int|
                        (0 <= r < i && 0 <= c < cols) || (r == i && 0 <= c < j) ==> dot_is(
                            step,
                            self@,
                            other@,
                            r,
                            c,
                            self@.cols,
                            #[trigger] result@.at(r, c),
                        ),
                decreases cols - j,
            {
                let sum: u64 = dot(self, other, i, j, &step);
                let ghost before = result@;
                result.set(i, j, sum);
                assert forall|r: int, c: int|
                    (0 <= r < i && 0 <= c < cols) || (r == i && 0 <= c < j + 1) implies dot_is(
                    step,
                    self@,
                    other@,
                    r,
                    c,
                    self@.cols,
                    #[trigger] result@.at(r, c),
                ) by {
                    offset_in_bounds(before, r, c);
                    offset_in_bounds(before, i as int, j as int);
                    if r == i && c == j {
                    } else {
                        if before.offset(r, c) == before.offset(i as int, j as int) {
                            offset_is_injective(before, r, c, i as int, j as int);
                        }
                        assert(result@.at(r, c) == before.at(r, c));
                    }
                }
                j += 1;
            }
            i += 1;
        }
        Ok(result)
    }
}

} // verus!
