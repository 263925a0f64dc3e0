use matmul::Matrix;
use matmul::MatrixError;
use matmul::ONE;
use matmul::ZERO;

fn bits(values: &[f64]) -> Vec<u64> {
    values.iter().map(|v| v.to_bits()).collect()
}

#[test]
fn new_keeps_dimensions_and_elements() {
    let m = Matrix::new(2, 3, bits(&[1.0, 2.0, 3.0, 4.0, 5.0, 6.0])).unwrap();
    assert_eq!(m.rows(), 2);
    assert_eq!(m.cols(), 3);
    assert_eq!(m.cells(), bits(&[1.0, 2.0, 3.0, 4.0, 5.0, 6.0]).as_slice());
}

#[test]
fn new_refuses_a_buffer_of_the_wrong_length() {
    assert_eq!(Matrix::new(2, 2, bits(&[1.0, 2.0, 3.0])), Err(MatrixError::DimensionMismatch));
    assert_eq!(Matrix::new(2, 2, bits(&[1.0; 5])), Err(MatrixError::DimensionMismatch));
    assert_eq!(Matrix::new(0, 3, bits(&[1.0])), Err(MatrixError::DimensionMismatch));
}

#[test]
fn new_refuses_dimensions_beyond_the_machine_word() {
    assert_eq!(Matrix::new(usize::MAX, 2, Vec::new()), Err(MatrixError::DimensionMismatch));
    assert_eq!(Matrix::new(usize::MAX, usize::MAX, vec![0]), Err(MatrixError::DimensionMismatch));
}

#[test]
fn new_accepts_empty_matrices() {
    let m = Matrix::new(0, 0, Vec::new()).unwrap();
    assert_eq!((m.rows(), m.cols(), m.cells().len()), (0, 0, 0));
    let m = Matrix::new(0, 7, Vec::new()).unwrap();
    assert_eq!((m.rows(), m.cols(), m.cells().len()), (0, 7, 0));
    let m = Matrix::new(usize::MAX, 0, Vec::new()).unwrap();
    assert_eq!((m.rows(), m.cols(), m.cells().len()), (usize::MAX, 0, 0));
}

#[test]
fn get_follows_the_row_major_layout() {
    let m = Matrix::new(2, 3, bits(&[1.0, 2.0, 3.0, 4.0, 5.0, 6.0])).unwrap();
    assert_eq!(f64::from_bits(m.get(0, 0)), 1.0);
    assert_eq!(f64::from_bits(m.get(0, 2)), 3.0);
    assert_eq!(f64::from_bits(m.get(1, 0)), 4.0);
    assert_eq!(f64::from_bits(m.get(1, 2)), 6.0);
}

#[test]
fn set_changes_one_element_only() {
    let mut m = Matrix::new(2, 3, bits(&[1.0, 2.0, 3.0, 4.0, 5.0, 6.0])).unwrap();
    m.set(1, 1, 9.5f64.to_bits());
    assert_eq!(m.cells(), bits(&[1.0, 2.0, 3.0, 4.0, 9.5, 6.0]).as_slice());
    assert_eq!((m.rows(), m.cols()), (2, 3));
    m.set(0, 2, (-1.0f64).to_bits());
    assert_eq!(m.cells(), bits(&[1.0, 2.0, -1.0, 4.0, 9.5, 6.0]).as_slice());
}

#[test]
fn zeros_hold_positive_zero() {
    let m = Matrix::zeros(3, 2);
    assert_eq!((m.rows(), m.cols()), (3, 2));
    assert_eq!(m.cells(), [ZERO; 6].as_slice());
    assert_eq!(ZERO, 0.0f64.to_bits());
    assert_eq!(ONE, 1.0f64.to_bits());
}

#[test]
fn equality_needs_equal_dimensions() {
    let a = Matrix::new(2, 3, bits(&[0.0; 6])).unwrap();
    let b = Matrix::new(3, 2, bits(&[0.0; 6])).unwrap();
    let c = Matrix::new(1, 6, bits(&[0.0; 6])).unwrap();
    assert_ne!(a, b);
    assert_ne!(a, c);
    assert_eq!(a, a.clone());
    assert_ne!(Matrix::zeros(0, 3), Matrix::zeros(3, 0));
    assert_eq!(Matrix::zeros(0, 3), Matrix::zeros(0, 3));
}

#[test]
fn equality_is_bit_for_bit() {
    let a = Matrix::new(1, 2, bits(&[1.0, 2.0])).unwrap();
    let b = Matrix::new(1, 2, bits(&[1.0, 2.0000000000000004])).unwrap();
    assert_ne!(a, b);
    let plus = Matrix::new(1, 1, bits(&[0.0])).unwrap();
    let minus = Matrix::new(1, 1, bits(&[-0.0])).unwrap();
    assert_ne!(plus, minus);
    let nan = Matrix::new(1, 1, bits(&[f64::NAN])).unwrap();
    assert_eq!(nan, nan.clone());
}

#[test]
fn from_rows_flattens_row_by_row() {
    let m = Matrix::from_rows(&[bits(&[1.0, 2.0, 3.0]), bits(&[4.0, 5.0, 6.0])]).unwrap();
    assert_eq!(m, Matrix::new(2, 3, bits(&[1.0, 2.0, 3.0, 4.0, 5.0, 6.0])).unwrap());
    let column = Matrix::from_rows(&[bits(&[1.0]), bits(&[2.0])]).unwrap();
    assert_eq!(column, Matrix::new(2, 1, bits(&[1.0, 2.0])).unwrap());
}

#[test]
fn from_rows_of_nothing_is_the_empty_matrix() {
    assert_eq!(Matrix::from_rows(&[]), Ok(Matrix::zeros(0, 0)));
    assert_eq!(Matrix::from_rows(&[Vec::new(), Vec::new()]), Ok(Matrix::zeros(2, 0)));
}

#[test]
fn from_rows_refuses_ragged_rows() {
    let ragged = [bits(&[1.0, 2.0]), bits(&[3.0])];
    assert_eq!(Matrix::from_rows(&ragged), Err(MatrixError::DimensionMismatch));
    let ragged = [bits(&[1.0]), bits(&[2.0, 3.0])];
    assert_eq!(Matrix::from_rows(&ragged), Err(MatrixError::DimensionMismatch));
}

#[test]
fn random_draws_every_element() {
    let counter = std::cell::Cell::new(0u64);
    let m = Matrix::random(2, 3, || {
        counter.set(counter.get() + 1);
        counter.get()
    });
    assert_eq!((m.rows(), m.cols()), (2, 3));
    assert_eq!(m.cells(), [1u64, 2, 3, 4, 5, 6].as_slice());
}

#[test]
fn random_doubles_lie_in_the_unit_interval() {
    let m = Matrix::random(20, 30, || rand::random::<f64>().to_bits());
    assert_eq!(m.cells().len(), 600);
    for cell in m.cells() {
        let value = f64::from_bits(*cell);
        assert!((0.0..1.0).contains(&value));
    }
    assert_eq!(Matrix::random(0, 5, || 1).cells().len(), 0);
}
