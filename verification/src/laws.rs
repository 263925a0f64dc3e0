use vstd::prelude::*;
use crate::matrix::cell_is_held;
use crate::matrix::slot_names_a_cell;
use crate::matrix::Grid;
use crate::matrix::ONE;
use crate::matrix::ZERO;
use crate::product::answers;
use crate::product::deterministic;
use crate::product::dot_is;
use crate::product::folds_to;
use crate::product::is_product;

verus! {

/// A deterministic step leaves one value only for a dot product over given
/// terms.
pub proof fn dot_is_unique<F: Fn(u64, u64, u64) -> u64>(
    step: F,
    a: Grid,
    b: Grid,
    i: int,
    j: int,
    k: nat,
    r1: u64,
    r2: u64,
)
    requires
        deterministic(step),
        dot_is(step, a, b, i, j, k, r1),
        dot_is(step, a, b, i, j, k, r2),
    ensures
        r1 == r2,
    decreases k,
{
    if k > 0 {
        let next = answers(step);
        let x = a.at(i, k - 1);
        let y = b.at(k - 1, j);
        let before1 = choose|prev: u64| folds_to(next, a, b, i, j, (k - 1) as nat, prev) && #[trigger] next(prev, x, y, r1);
        let before2 = choose|prev: u64| folds_to(next, a, b, i, j, (k - 1) as nat, prev) && #[trigger] next(prev, x, y, r2);
        dot_is_unique(step, a, b, i, j, (k - 1) as nat, before1, before2);
    }
}

/// The sequential and the parallel product agree bit for bit: under a
/// deterministic step any two products of the same operands are the same
/// grid, whichever way and in whichever order their cells were computed.
pub proof fn product_is_unique<F: Fn(u64, u64, u64) -> u64>(step: F, a: Grid, b: Grid, p: Grid, q: Grid)
    requires
        deterministic(step),
        is_product(step, a, b, p),
        is_product(step, a, b, q),
    ensures
        p == q,
{
    assert forall|slot: int| 0 <= slot < p.cells.len() implies p.cells[slot] == q.cells[slot] by {
        slot_names_a_cell(p, slot);
        let i = slot / p.cols as int;
        let j = slot % p.cols as int;
        assert(p.at(i, j) == p.cells[slot]);
        assert(q.at(i, j) == q.cells[slot]);
        dot_is_unique(step, a, b, i, j, a.cols, p.at(i, j), q.at(i, j));
    }
    assert(p.cells =~= q.cells);
}

/// A product one of whose operands contributes no rows or no columns has
/// the dimensions of any other product and holds no element.
pub proof fn empty_product_is_empty<F: Fn(u64, u64, u64) -> u64>(step: F, a: Grid, b: Grid, p: Grid)
    requires
        is_product(step, a, b, p),
        a.rows == 0 || b.cols == 0,
    ensures
        p == (Grid { rows: a.rows, cols: b.cols, cells: Seq::<u64>::empty() }),
{
    assert(a.rows * b.cols == 0) by (nonlinear_arith)
        requires
            a.rows == 0 || b.cols == 0,
    ;
    assert(p.cells =~= Seq::<u64>::empty());
}

/// On the elements of `m`, a term with a `ZERO` factor on the left leaves
/// the sum as it is, and a `ONE` factor on the left added to a `ZERO` sum
/// gives the other factor.
pub open spec fn left_unit_on<F: Fn(u64, u64, u64) -> u64>(step: F, m: Grid) -> bool {
    &&& forall|acc: u64, y: u64, r: u64|
        (acc == ZERO || m.holds(acc)) && m.holds(y) && #[trigger] call_ensures(step, (acc, ZERO, y), r)
            ==> r == acc
    &&& forall|y: u64, r: u64| m.holds(y) && #[trigger] call_ensures(step, (ZERO, ONE, y), r) ==> r == y
}

/// On the elements of `m`, a term with a `ZERO` factor on the right leaves
/// the sum as it is, and a `ONE` factor on the right added to a `ZERO` sum
/// gives the other factor.
pub open spec fn right_unit_on<F: Fn(u64, u64, u64) -> u64>(step: F, m: Grid) -> bool {
    &&& forall|acc: u64, x: u64, r: u64|
        (acc == ZERO || m.holds(acc)) && m.holds(x) && #[trigger] call_ensures(step, (acc, x, ZERO), r)
            ==> r == acc
    &&& forall|x: u64, r: u64| m.holds(x) && #[trigger] call_ensures(step, (ZERO, x, ONE), r) ==> r == x
}

proof fn identity_row_picks<F: Fn(u64, u64, u64) -> u64>(
    step: F,
    e: Grid,
    m: Grid,
    i: int,
    j: int,
    k: nat,
    r: u64,
)
    requires
        e.is_identity(),
        m.wf(),
        e.cols == m.rows,
        m.has(i, j),
        k <= e.cols,
        left_unit_on(step, m),
        dot_is(step, e, m, i, j, k, r),
    ensures
        r == if k > i {
            m.at(i, j)
        } else {
            ZERO
        },
    decreases k,
{
    if k > 0 {
        let t = k - 1;
        let x = e.at(i, t);
        let y = m.at(t, j);
        let next = answers(step);
        let prev = choose|prev: u64| folds_to(next, e, m, i, j, (k - 1) as nat, prev) && #[trigger] next(prev, x, y, r);
        identity_row_picks(step, e, m, i, j, (k - 1) as nat, prev);
        assert(e.has(i, t));
        cell_is_held(m, t, j);
        cell_is_held(m, i, j);
    }
}

proof fn identity_col_picks<F: Fn(u64, u64, u64) -> u64>(
    step: F,
    m: Grid,
    e: Grid,
    i: int,
    j: int,
    k: nat,
    r: u64,
)
    requires
        e.is_identity(),
        m.wf(),
        m.cols == e.rows,
        m.has(i, j),
        k <= m.cols,
        right_unit_on(step, m),
        dot_is(step, m, e, i, j, k, r),
    ensures
        r == if k > j {
            m.at(i, j)
        } else {
            ZERO
        },
    decreases k,
{
    if k > 0 {
        let t = k - 1;
        let x = m.at(i, t);
        let y = e.at(t, j);
        let next = answers(step);
        let prev = choose|prev: u64| folds_to(next, m, e, i, j, (k - 1) as nat, prev) && #[trigger] next(prev, x, y, r);
        identity_col_picks(step, m, e, i, j, (k - 1) as nat, prev);
        assert(e.has(t, j));
        cell_is_held(m, i, t);
        cell_is_held(m, i, j);
    }
}

/// Multiplying by the identity on the left gives the matrix back, wherever
/// the step treats `ZERO` and `ONE` factors as exact arithmetic does.
pub proof fn identity_is_left_unit<F: Fn(u64, u64, u64) -> u64>(step: F, e: Grid, m: Grid, p: Grid)
    requires
        e.is_identity(),
        m.wf(),
        e.cols == m.rows,
        left_unit_on(step, m),
        is_product(step, e, m, p),
    ensures
        p == m,
{
    assert forall|slot: int| 0 <= slot < p.cells.len() implies p.cells[slot] == m.cells[slot] by {
        slot_names_a_cell(p, slot);
        let i = slot / p.cols as int;
        let j = slot % p.cols as int;
        assert(p.at(i, j) == p.cells[slot]);
        assert(m.at(i, j) == m.cells[slot]);
        identity_row_picks(step, e, m, i, j, e.cols, p.at(i, j));
    }
    assert(p.cells =~= m.cells);
}

/// Multiplying by the identity on the right gives the matrix back, wherever
/// the step treats `ZERO` and `ONE` factors as exact arithmetic does.
pub proof fn identity_is_right_unit<F: Fn(u64, u64, u64) -> u64>(step: F, m: Grid, e: Grid, p: Grid)
    requires
        e.is_identity(),
        m.wf(),
        m.cols == e.rows,
        right_unit_on(step, m),
        is_product(step, m, e, p),
    ensures
        p == m,
{
    assert forall|slot: int| 0 <= slot < p.cells.len() implies p.cells[slot] == m.cells[slot] by {
        slot_names_a_cell(p, slot);
        let i = slot / p.cols as int;
        let j = slot % p.cols as int;
        assert(p.at(i, j) == p.cells[slot]);
        assert(m.at(i, j) == m.cells[slot]);
        identity_col_picks(step, m, e, i, j, m.cols, p.at(i, j));
    }
    assert(p.cells =~= m.cells);
}

} // verus!
