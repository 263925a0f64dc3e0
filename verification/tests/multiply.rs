use matmul::Matrix;
use matmul::MatrixError;
use matmul::WorkerPool;
use matmul::ONE;
use matmul::ZERO;

fn step(acc: u64, x: u64, y: u64) -> u64 {
    (f64::from_bits(acc) + f64::from_bits(x) * f64::from_bits(y)).to_bits()
}

fn matrix(rows: usize, cols: usize, values: &[f64]) -> Matrix {
    Matrix::new(rows, cols, values.iter().map(|v| v.to_bits()).collect()).unwrap()
}

fn random_matrix(rows: usize, cols: usize) -> Matrix {
    Matrix::random(rows, cols, || rand::random::<f64>().to_bits())
}

#[test]
fn mul_identity() {
    let a = matrix(2, 2, &[1.0, 0.0, 0.0, 1.0]);
    let b = matrix(2, 2, &[1.0, 4.0, 2.0, 3.0]);
    let expected = matrix(2, 2, &[1.0, 4.0, 2.0, 3.0]);

    assert_eq!(a.multiply(&b, step), Ok(expected));
}

#[test]
fn mul_identity_par() {
    let a = matrix(2, 2, &[1.0, 0.0, 0.0, 1.0]);
    let b = matrix(2, 2, &[1.0, 4.0, 2.0, 3.0]);
    let expected = matrix(2, 2, &[1.0, 4.0, 2.0, 3.0]);

    let pool = WorkerPool::new(4).unwrap();
    let c = a.multiply_on(&b, &pool, step);

    assert_eq!(c, Ok(expected));
}

#[test]
fn mul_not_squared() {
    let a = matrix(1, 2, &[1.0, 0.0]);
    let b = matrix(2, 1, &[1.0, 2.0]);
    let expected = matrix(1, 1, &[1.0]);

    assert_eq!(a.multiply(&b, step), Ok(expected));
}

#[test]
fn mul_not_squared_par() {
    let a = matrix(1, 2, &[1.0, 0.0]);
    let b = matrix(2, 1, &[1.0, 2.0]);
    let expected = matrix(1, 1, &[1.0]);

    let pool = WorkerPool::new(4).unwrap();
    let c = a.multiply_on(&b, &pool, step);

    assert_eq!(c, Ok(expected));
}

#[test]
fn mul_squared() {
    let a = matrix(2, 2, &[1.0, 2.0, 3.0, 4.0]);
    let b = matrix(2, 2, &[1.0, 2.0, 3.0, 4.0]);
    let expected = matrix(2, 2, &[7.0, 10.0, 15.0, 22.0]);

    assert_eq!(a.multiply(&b, step), Ok(expected));
}

#[test]
fn mul_squared_par() {
    let a = matrix(2, 2, &[1.0, 2.0, 3.0, 4.0]);
    let b = matrix(2, 2, &[1.0, 2.0, 3.0, 4.0]);
    let expected = matrix(2, 2, &[7.0, 10.0, 15.0, 22.0]);

    let pool = WorkerPool::new(4).unwrap();
    let c = a.multiply_on(&b, &pool, step);

    assert_eq!(c, Ok(expected));
}

#[test]
fn mul_squared_on_a_pool_of_its_own() {
    let a = matrix(2, 2, &[1.0, 2.0, 3.0, 4.0]);
    let expected = matrix(2, 2, &[7.0, 10.0, 15.0, 22.0]);
    assert_eq!(a.multiply_parallel(&a, 4, step), Ok(expected));
}

#[test]
fn wide_times_tall() {
    let a = matrix(2, 3, &[1.0, 2.0, 3.0, 4.0, 5.0, 6.0]);
    let b = matrix(3, 2, &[7.0, 8.0, 9.0, 10.0, 11.0, 12.0]);
    let expected = matrix(2, 2, &[58.0, 64.0, 139.0, 154.0]);
    assert_eq!(a.multiply(&b, step), Ok(expected.clone()));
    assert_eq!(a.multiply_parallel(&b, 3, step), Ok(expected));
}

#[test]
fn terms_are_added_in_increasing_order() {
    // (0 + 1e16) + 1 loses the 1; any other order of the three terms keeps it.
    let a = matrix(1, 3, &[1e16, 1.0, -1e16]);
    let b = matrix(3, 1, &[1.0, 1.0, 1.0]);
    let expected = matrix(1, 1, &[0.0]);
    assert_eq!(a.multiply(&b, step), Ok(expected.clone()));
    assert_eq!(a.multiply_parallel(&b, 2, step), Ok(expected));
}

#[test]
fn mismatch_is_reported() {
    let a = matrix(2, 3, &[1.0; 6]);
    let b = matrix(2, 3, &[1.0; 6]);
    let pool = WorkerPool::new(2).unwrap();
    assert_eq!(a.multiply(&b, step), Err(MatrixError::DimensionMismatch));
    assert_eq!(a.multiply_on(&b, &pool, step), Err(MatrixError::DimensionMismatch));
    assert_eq!(a.multiply_parallel(&b, 4, step), Err(MatrixError::DimensionMismatch));
    assert_eq!(a.multiply_parallel(&b, 0, step), Err(MatrixError::DimensionMismatch));
}

#[test]
fn mismatch_is_reported_for_empty_operands() {
    let a = matrix(0, 3, &[]);
    let b = matrix(2, 0, &[]);
    assert_eq!(a.multiply(&b, step), Err(MatrixError::DimensionMismatch));
    assert_eq!(a.multiply_parallel(&b, 4, step), Err(MatrixError::DimensionMismatch));
}

#[test]
fn no_rows_give_no_elements() {
    let a = matrix(0, 3, &[]);
    let b = matrix(3, 4, &[1.0; 12]);
    let expected = matrix(0, 4, &[]);
    assert_eq!(a.multiply(&b, step), Ok(expected.clone()));
    for workers in [1usize, 2, 4, 64, 100_000] {
        assert_eq!(a.multiply_parallel(&b, workers, step), Ok(expected.clone()));
    }
    let pool = WorkerPool::new(3).unwrap();
    assert_eq!(a.multiply_on(&b, &pool, step), Ok(expected));
}

#[test]
fn no_columns_give_no_elements() {
    let a = matrix(4, 3, &[1.0; 12]);
    let b = matrix(3, 0, &[]);
    let expected = matrix(4, 0, &[]);
    assert_eq!(a.multiply(&b, step), Ok(expected.clone()));
    for workers in [1usize, 2, 4, 64, 100_000] {
        assert_eq!(a.multiply_parallel(&b, workers, step), Ok(expected.clone()));
    }
    let pool = WorkerPool::new(3).unwrap();
    assert_eq!(a.multiply_on(&b, &pool, step), Ok(expected));
}

#[test]
fn no_inner_terms_give_zeros() {
    let a = matrix(2, 0, &[]);
    let b = matrix(0, 3, &[]);
    let expected = matrix(2, 3, &[0.0; 6]);
    assert_eq!(a.multiply(&b, step), Ok(expected.clone()));
    assert_eq!(a.multiply_parallel(&b, 100_000, step), Ok(expected.clone()));
    let pool = WorkerPool::new(2).unwrap();
    assert_eq!(a.multiply_on(&b, &pool, step), Ok(expected));
}

#[test]
fn no_workers_leave_the_zeroed_buffer() {
    let a = matrix(2, 2, &[1.0, 2.0, 3.0, 4.0]);
    let zeros = Matrix::new(2, 2, vec![ZERO; 4]).unwrap();
    assert_eq!(a.multiply_parallel(&a, 0, step), Ok(zeros.clone()));
    assert_eq!(a.multiply_on(&a, &WorkerPool::idle(), step), Ok(zeros));
}

#[test]
fn more_workers_than_cells() {
    let a = matrix(2, 2, &[1.0, 2.0, 3.0, 4.0]);
    let expected = matrix(2, 2, &[7.0, 10.0, 15.0, 22.0]);
    assert_eq!(a.multiply_parallel(&a, 64, step), Ok(expected));
}

#[test]
fn a_single_cell_is_one_job() {
    let a = matrix(1, 1, &[3.0]);
    let b = matrix(1, 1, &[0.5]);
    let pool = WorkerPool::new(1).unwrap();
    assert_eq!(a.multiply_on(&b, &pool, step), Ok(matrix(1, 1, &[1.5])));
}

#[test]
fn both_paths_agree_on_random_operands() {
    let pool = WorkerPool::new(4).unwrap();
    for (n, m, k) in [(1, 1, 1), (1, 7, 1), (3, 5, 2), (17, 4, 9), (40, 33, 21), (64, 64, 64)] {
        let a = random_matrix(n, m);
        let b = random_matrix(m, k);
        let sequential = a.multiply(&b, step).unwrap();
        let parallel = a.multiply_on(&b, &pool, step).unwrap();
        assert_eq!(sequential.rows(), n);
        assert_eq!(sequential.cols(), k);
        assert_eq!(sequential, parallel);
    }
}

#[test]
fn identity_is_a_unit_on_both_sides() {
    let n = 12;
    let mut eye = Matrix::zeros(n, n);
    for i in 0..n {
        eye.set(i, i, ONE);
    }
    let m = random_matrix(n, n);
    assert_eq!(eye.multiply(&m, step), Ok(m.clone()));
    assert_eq!(m.multiply(&eye, step), Ok(m.clone()));
    assert_eq!(eye.multiply_parallel(&m, 4, step), Ok(m.clone()));
    assert_eq!(m.multiply_parallel(&eye, 4, step), Ok(m));
}

#[test]
fn repeated_parallel_runs_never_differ() {
    let a = random_matrix(40, 8);
    let b = random_matrix(8, 50);
    let expected = a.multiply(&b, step).unwrap();
    for workers in [1usize, 2, 4] {
        let pool = WorkerPool::new(workers).unwrap();
        for _ in 0..100 {
            assert_eq!(a.multiply_on(&b, &pool, step).unwrap(), expected);
        }
    }
}

#[test]
fn the_step_decides_the_arithmetic() {
    let a = Matrix::new(1, 2, vec![2, 3]).unwrap();
    let b = Matrix::new(2, 1, vec![5, 7]).unwrap();
    let integers = |acc: u64, x: u64, y: u64| acc + x * y;
    assert_eq!(a.multiply(&b, integers), Ok(Matrix::new(1, 1, vec![31]).unwrap()));
    assert_eq!(a.multiply_parallel(&b, 2, integers), Ok(Matrix::new(1, 1, vec![31]).unwrap()));
}

#[test]
fn identity_changes_what_arithmetic_does_not_keep() {
    // 0.0 + 1.0 * -0.0 is +0.0, which differs from -0.0 in its sign bit.
    let eye = matrix(1, 1, &[1.0]);
    let m = matrix(1, 1, &[-0.0]);
    assert_eq!(eye.multiply(&m, step), Ok(matrix(1, 1, &[0.0])));
    assert_ne!(eye.multiply(&m, step), Ok(m));
}
