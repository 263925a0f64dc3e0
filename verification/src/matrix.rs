use vstd::prelude::*;
use crate::error::MatrixError;

verus! {

/// Bit pattern of the double `+0.0`, the value every accumulator and every
/// freshly allocated buffer starts from.
pub const ZERO: u64 = 0;

/// Bit pattern of the double `1.0`.
pub const ONE: u64 = 0x3FF0_0000_0000_0000;

/// The mathematical content of a matrix: its dimensions and its elements in
/// row-major order. Each element is the 64-bit pattern of a double.
pub struct Grid {
    pub rows: nat,
    pub cols: nat,
    pub cells: Seq<u64>,
}

impl Grid {
    /// The buffer holds exactly one element per cell.
    pub open spec fn wf(self) -> bool {
        self.cells.len() == self.rows * self.cols
    }

    /// Whether (`row`, `col`) names a cell of the grid.
    pub open spec fn has(self, row: int, col: int) -> bool {
        0 <= row < self.rows && 0 <= col < self.cols
    }

    /// Position of (`row`, `col`) in the row-major buffer.
    pub open spec fn offset(self, row: int, col: int) -> int {
        row * self.cols + col
    }

    /// The element at (`row`, `col`).
    pub open spec fn at(self, row: int, col: int) -> u64 {
        self.cells[self.offset(row, col)]
    }

    /// Whether `value` is the element of some cell.
    pub open spec fn holds(self, value: u64) -> bool {
        self.cells.contains(value)
    }

    /// Whether the grid is square with `ONE` on the diagonal and `ZERO`
    /// everywhere else.
    pub open spec fn is_identity(self) -> bool {
        &&& self.wf()
        &&& self.rows == self.cols
        &&& forall|i: int, j: int|
            self.has(i, j) ==> #[trigger] self.at(i, j) == if i == j {
                ONE
            } else {
                ZERO
            }
    }

    /// The grid of the given dimensions whose cells all hold `ZERO`.
    pub open spec fn zeros(rows: nat, cols: nat) -> Grid {
        Grid { rows, cols, cells: Seq::new(rows * cols, |i: int| ZERO) }
    }
}

/// Every cell of a well-formed grid has its own position inside the buffer.
pub proof fn offset_in_bounds(g: Grid, row: int, col: int)
    requires
        g.wf(),
        g.has(row, col),
    ensures
        0 <= row * g.cols <= g.offset(row, col) < g.cells.len(),
{
    assert(row * g.cols + col < g.rows * g.cols) by (nonlinear_arith)
        requires
            0 <= row < g.rows,
            0 <= col < g.cols,
    ;
    assert(0 <= row * g.cols) by (nonlinear_arith)
        requires
            0 <= row,
            0 <= g.cols,
    ;
}

/// The element of a cell is held by the grid.
pub proof fn cell_is_held(g: Grid, row: int, col: int)
    requires
        g.wf(),
        g.has(row, col),
    ensures
        g.holds(g.at(row, col)),
{
    offset_in_bounds(g, row, col);
    assert(g.cells[g.offset(row, col)] == g.at(row, col));
}

/// Two cells of a grid share a buffer position only if they are the same
/// cell, so a write to one cell never reaches another.
pub proof fn offset_is_injective(g: Grid, r1: int, c1: int, r2: int, c2: int)
    requires
        g.has(r1, c1),
        g.has(r2, c2),
        g.offset(r1, c1) == g.offset(r2, c2),
    ensures
        r1 == r2,
        c1 == c2,
{
    let w = g.cols as int;
    assert(r1 == r2) by (nonlinear_arith)
        requires
            r1 * w + c1 == r2 * w + c2,
            0 <= c1 < w,
            0 <= c2 < w,
    ;
}

/// Every buffer position of a well-formed grid belongs to exactly one cell:
/// the one in row `slot / cols` and column `slot % cols`.
pub proof fn slot_names_a_cell(g: Grid, slot: int)
    requires
        g.wf(),
        0 <= slot < g.cells.len(),
    ensures
        g.cols > 0,
        g.has(slot / g.cols as int, slot % g.cols as int),
        g.offset(slot / g.cols as int, slot % g.cols as int) == slot,
{
    let w = g.cols as int;
    let h = g.rows as int;
    assert(w > 0) by (nonlinear_arith)
        requires
            0 <= slot < h * w,
            0 <= w,
    ;
    vstd::arithmetic::div_mod::lemma_fundamental_div_mod(slot, w);
    let q = slot / w;
    let r = slot % w;
    assert(0 <= r < w);
    assert(w * q == q * w) by (nonlinear_arith);
    assert(0 <= q < h) by (nonlinear_arith)
        requires
            slot == q * w + r,
            0 <= r < w,
            0 <= slot < h * w,
    ;
}

/// The cell (`row`, `col`) is the one that its own buffer position names.
pub proof fn cell_has_slot(g: Grid, row: int, col: int)
    requires
        g.has(row, col),
    ensures
        g.offset(row, col) / g.cols as int == row,
        g.offset(row, col) % g.cols as int == col,
{
    vstd::arithmetic::div_mod::lemma_fundamental_div_mod_converse(
        g.offset(row, col),
        g.cols as int,
        row,
        col,
    );
}

/// Whether every row is as long as the first.
pub open spec fn rectangular(rows: Seq<Vec<u64>>) -> bool {
    forall|i: int| 0 <= i < rows.len() ==> (#[trigger] rows[i])@.len() == row_width(rows)
}

/// The length of the first row; none where there is no row.
pub open spec fn row_width(rows: Seq<Vec<u64>>) -> nat {
    if rows.len() == 0 {
        0
    } else {
        rows[0]@.len()
    }
}

/// A dense matrix of doubles, stored row-major. Elements are held as their
/// 64-bit patterns, so two matrices are equal exactly when their dimensions
/// agree and every element agrees bit for bit.
#[derive(Debug)]
pub struct Matrix {
    rows: usize,
    cols: usize,
    data: Vec<u64>,
}

impl View for Matrix {
    type V = Grid;

    closed spec fn view(&self) -> Grid {
        Grid { rows: self.rows as nat, cols: self.cols as nat, cells: self.data@ }
    }
}

impl Clone for Matrix {
    /// A copy with the same dimensions and the same elements.
    fn clone(&self) -> (r: Matrix)
        ensures
            r@ == self@,
    {
        proof {
            use_type_invariant(self);
        }
        let data: Vec<u64> = self.data.clone();
        assert(data@ =~= self.data@);
        Matrix { rows: self.rows, cols: self.cols, data }
    }
}

impl PartialEq for Matrix {
    /// Whether the dimensions agree and every element agrees bit for bit.
    fn eq(&self, other: &Matrix) -> (r: bool) {
        proof {
            use_type_invariant(self);
            use_type_invariant(other);
        }
        if self.rows != other.rows || self.cols != other.cols {
            return false;
        }
        let n: usize = self.data.len();
        let mut i: usize = 0;
        while i < n
            invariant
                i <= n,
                n == self.data@.len(),
                n == other.data@.len(),
                forall|k: int| 0 <= k < i ==> self.data@[k] == other.data@[k],
            decreases n - i,
        {
            if self.data[i] != other.data[i] {
                return false;
            }
            i += 1;
        }
        assert(self.data@ =~= other.data@);
        true
    }
}

impl vstd::std_specs::cmp::PartialEqSpecImpl for Matrix {
    open spec fn obeys_eq_spec() -> bool {
        true
    }

    open spec fn eq_spec(&self, other: &Matrix) -> bool {
        self@ == other@
    }
}

impl Matrix {
    #[verifier::type_invariant]
    spec fn inv(&self) -> bool {
        self.data.len() == self.rows * self.cols
    }

    /// Builds a matrix from its dimensions and its elements in row-major order.
    pub fn new(rows: usize, cols: usize, data: Vec<u64>) -> (r: Result<Matrix, MatrixError>)
        ensures
            data@.len() == rows * cols ==> r is Ok && r->Ok_0@ == (Grid {
                rows: rows as nat,
                cols: cols as nat,
                cells: data@,
            }),
            data@.len() != rows * cols ==> r == Err::<Matrix, MatrixError>(
                MatrixError::DimensionMismatch,
            ),
    {
        let len: usize = data.len();
        match rows.checked_mul(cols) {
            Some(n) => {
                if len == n {
                    Ok(Matrix { rows, cols, data })
                } else {
                    Err(MatrixError::DimensionMismatch)
                }
            },
            None => Err(MatrixError::DimensionMismatch),
        }
    }

    /// Builds a matrix from its rows, which must all be as long as the
    /// first. No rows make the matrix without rows and columns.
    pub fn from_rows(rows: &[Vec<u64>]) -> (r: Result<Matrix, MatrixError>)
        ensures
            rectangular(rows@) ==> r is Ok && r->Ok_0@.wf() && r->Ok_0@.rows == rows@.len()
                && r->Ok_0@.cols == row_width(rows@) && forall|i: int, j: int|
                r->Ok_0@.has(i, j) ==> #[trigger] r->Ok_0@.at(i, j) == rows@[i]@[j],
            !rectangular(rows@) ==> r == Err::<Matrix, MatrixError>(MatrixError::DimensionMismatch),
    {
        let height: usize = rows.len();
        let wide: usize = if height == 0 {
            0
        } else {
            rows[0].len()
        };
        let mut data: Vec<u64> = Vec::new();
        let mut i: usize = 0;
        while i < height
            invariant
                i <= height,
                height == rows@.len(),
                wide == row_width(rows@),
                data.len() == i * wide,
                forall|r: int| 0 <= r < i ==> (#[trigger] rows@[r])@.len() == wide,
                forall|slot: int|
                    0 <= slot < data.len() ==> #[trigger] data@[slot] == rows@[slot / wide as int]@[slot
                        % wide as int],
            decreases height - i,
        {
            let row: &Vec<u64> = &rows[i];
            if row.len() != wide {
                return Err(MatrixError::DimensionMismatch);
            }
            let mut j: usize = 0;
            while j < wide
                invariant
                    j <= wide,
                    i < height,
                    height == rows@.len(),
                    row@ == rows@[i as int]@,
                    row@.len() == wide,
                    data.len() == i * wide + j,
                    forall|slot: int|
                        0 <= slot < data.len() ==> #[trigger] data@[slot] == rows@[slot / wide as int]@[slot
                            % wide as int],
                decreases wide - j,
            {
                let ghost before = data@;
                data.push(row[j]);
                proof {
                    let shape = Grid { rows: (i + 1) as nat, cols: wide as nat, cells: Seq::empty() };
                    cell_has_slot(shape, i as int, j as int);
                    assert forall|slot: int| 0 <= slot < data.len() implies #[trigger] data@[slot]
                        == rows@[slot / wide as int]@[slot % wide as int] by {
                        if slot < before.len() {
                            assert(data@[slot] == before[slot]);
                        }
                    }
                }
                j += 1;
            }
            proof {
                assert(i * wide + wide == (i + 1) * wide) by (nonlinear_arith);
            }
            i += 1;
        }
        proof {
            let m = Grid { rows: height as nat, cols: wide as nat, cells: data@ };
            assert forall|r: int, c: int| m.has(r, c) implies #[trigger] m.at(r, c) == rows@[r]@[c] by {
                offset_in_bounds(m, r, c);
                cell_has_slot(m, r, c);
            }
        }
        Matrix::new(height, wide, data)
    }

    /// A matrix of the given dimensions whose elements are drawn one after
    /// another from `draw`.
    pub fn random<D: Fn() -> u64>(rows: usize, cols: usize, draw: D) -> (m: Matrix)
        requires
            rows * cols <= usize::MAX,
            call_requires(draw, ()),
        ensures
            m@.wf(),
            m@.rows == rows,
            m@.cols == cols,
            forall|slot: int| 0 <= slot < m@.cells.len() ==> call_ensures(draw, (), #[trigger] m@.cells[slot]),
    {
        let count: usize = rows * cols;
        let mut data: Vec<u64> = Vec::new();
        let mut i: usize = 0;
        while i < count
            invariant
                i <= count,
                data.len() == i,
                call_requires(draw, ()),
                forall|slot: int| 0 <= slot < i ==> call_ensures(draw, (), #[trigger] data@[slot]),
            decreases count - i,
        {
            let value: u64 = draw();
            data.push(value);
            i += 1;
        }
        Matrix { rows, cols, data }
    }

    /// The elements in row-major order.
    pub fn cells(&self) -> (r: &[u64])
        ensures
            r@ == self@.cells,
            self@.wf(),
    {
        proof {
            use_type_invariant(self);
        }
        self.data.as_slice()
    }

    /// The matrix of the given dimensions whose elements are all `ZERO`.
    pub fn zeros(rows: usize, cols: usize) -> (m: Matrix)
        requires
            rows * cols <= usize::MAX,
        ensures
            m@ == Grid::zeros(rows as nat, cols as nat),
            m@.wf(),
    {
        let n: usize = rows * cols;
        let data: Vec<u64> = vec![ZERO; n];
        assert(data@ =~= Grid::zeros(rows as nat, cols as nat).cells);
        Matrix { rows, cols, data }
    }

    /// Number of rows.
    pub fn rows(&self) -> (r: usize)
        ensures
            r == self@.rows,
            self@.wf(),
    {
        proof {
            use_type_invariant(self);
        }
        self.rows
    }

    /// Number of columns.
    pub fn cols(&self) -> (r: usize)
        ensures
            r == self@.cols,
            self@.wf(),
    {
        proof {
            use_type_invariant(self);
        }
        self.cols
    }

    /// The element at (`row`, `col`). Indices outside the matrix are excluded
    /// by the precondition.
    pub fn get(&self, row: usize, col: usize) -> (r: u64)
        requires
            self@.has(row as int, col as int),
        ensures
            r == self@.at(row as int, col as int),
    {
        proof {
            use_type_invariant(self);
            offset_in_bounds(self@, row as int, col as int);
        }
        self.data[row * self.cols + col]
    }

    /// Overwrites the element at (`row`, `col`) and leaves every other
    /// element and both dimensions as they were.
    pub fn set(&mut self, row: usize, col: usize, value: u64)
        requires
            old(self)@.has(row as int, col as int),
        ensures
            final(self)@ == (Grid {
                rows: old(self)@.rows,
                cols: old(self)@.cols,
                cells: old(self)@.cells.update(old(self)@.offset(row as int, col as int), value),
            }),
            final(self)@.wf(),
    {
        proof {
            use_type_invariant(&*self);
            offset_in_bounds(self@, row as int, col as int);
        }
        let at: usize = row * self.cols + col;
        self.data[at] = value;
    }
}

} // verus!
