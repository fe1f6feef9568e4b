use gemmars::fixed::Fixed;
use gemmars::tensor::matmul;
use gemmars::tensor::matmul_into;
use gemmars::tensor::EngineError;
use gemmars::tensor::Matrix;

fn fx(units: i64) -> Fixed {
    Fixed { v: units * 1_000_000 }
}

fn mat(vals: &[i64], rows: usize, cols: usize) -> Matrix<Fixed> {
    let data: Vec<Fixed> = vals.iter().map(|&v| fx(v)).collect();
    Matrix::new(data, rows, cols)
}

#[test]
fn function_test_matmul() {
    let a = mat(&[1, 2, 3, 4, 5, 6], 3, 2);
    let b = mat(&[1, -1, 0, 2], 2, 2);
    let output = matmul(&a, &b).unwrap();
    assert_eq!(output.get(2, 0), fx(5));
}

#[test]
fn function_test_trans() {
    let mut a = mat(&[1, 2, 3, 4, 5, 6, 7, 8, 9], 3, 3);
    a.transpose();
    assert_eq!(a.get(2, 1), fx(6));
    assert_eq!(a.get(1, 2), fx(8));
}

#[test]
fn model_test_matmul() {
    let a = mat(&[1, 2, 3, 4, 5, 6], 3, 2);
    let b = mat(&[1, -1, 0, 2], 2, 2);
    let mut output: Matrix<Fixed> = Matrix::new_empty(3, 2);
    matmul_into(&mut output, &a, &b).unwrap();
    assert_eq!(output.get(2, 0), fx(5));
}

#[test]
fn model_test_trans() {
    let mut a = mat(&[1, 2, 3, 4, 5, 6, 7, 8, 9], 3, 3);
    a.transpose();
    assert_eq!(a.get(2, 1), fx(6));
}

#[test]
fn matmul_shape_and_row() {
    // A 3x2 by 2x2 product has shape (3, 2); with the second factor
    // [[1, 0], [-1, 2]], row 2 is [5*1 + 6*(-1), 5*0 + 6*2] = [-1, 12].
    let a = mat(&[1, 2, 3, 4, 5, 6], 3, 2);
    let b = mat(&[1, 0, -1, 2], 2, 2);
    let output = matmul(&a, &b).unwrap();
    assert_eq!(output.n_row, 3);
    assert_eq!(output.n_col, 2);
    assert_eq!(output.get(2, 0), fx(-1));
    assert_eq!(output.get(2, 1), fx(12));
}

#[test]
fn matmul_dimension_mismatch() {
    let a = mat(&[1, 2, 3, 4, 5, 6], 3, 2);
    let b = mat(&[1, 2, 3, 4, 5, 6], 3, 2);
    let err = matmul(&a, &b).unwrap_err();
    assert_eq!(
        err,
        EngineError::DimensionMismatch { a_rows: 3, a_cols: 2, b_rows: 3, b_cols: 2 }
    );
}

#[test]
fn transpose_involution() {
    let vals = [3, 1, 4, 1, 5, 9, 2, 6];
    let mut a = mat(&vals, 2, 4);
    a.transpose();
    a.transpose();
    assert_eq!(a.n_row, 2);
    assert_eq!(a.n_col, 4);
    for r in 0..2 {
        for c in 0..4 {
            assert_eq!(a.get(r, c), fx(vals[r * 4 + c]));
        }
    }
}

#[test]
fn new_empty_is_zero() {
    let m: Matrix<Fixed> = Matrix::new_empty(2, 3);
    assert_eq!(m.n_row, 2);
    assert_eq!(m.n_col, 3);
    for r in 0..2 {
        for c in 0..3 {
            assert_eq!(m.get(r, c), fx(0));
        }
    }
}

#[test]
fn set_and_get() {
    let mut m: Matrix<Fixed> = Matrix::new_empty(2, 2);
    m.set(1, 0, fx(7));
    assert_eq!(m.get(1, 0), fx(7));
    assert_eq!(m.get(0, 0), fx(0));
}

#[test]
fn concat_rows() {
    let mut a = mat(&[1, 2], 1, 2);
    let b = mat(&[3, 4, 5, 6], 2, 2);
    a.concat(b, 0).unwrap();
    assert_eq!(a.n_row, 3);
    assert_eq!(a.n_col, 2);
    assert_eq!(a.get(2, 1), fx(6));
}

#[test]
fn concat_cols_interleaves_rows() {
    let mut a = mat(&[1, 2], 2, 1);
    let b = mat(&[3, 4], 2, 1);
    a.concat(b, 1).unwrap();
    assert_eq!(a.n_row, 2);
    assert_eq!(a.n_col, 2);
    assert_eq!(a.get(0, 0), fx(1));
    assert_eq!(a.get(0, 1), fx(3));
    assert_eq!(a.get(1, 0), fx(2));
    assert_eq!(a.get(1, 1), fx(4));
}

#[test]
fn concat_mismatch_is_rejected() {
    let mut a = mat(&[1, 2], 1, 2);
    let b = mat(&[3, 4, 5], 1, 3);
    let err = a.concat(b, 0).unwrap_err();
    assert_eq!(
        err,
        EngineError::DimensionMismatch { a_rows: 1, a_cols: 2, b_rows: 1, b_cols: 3 }
    );
    assert_eq!(a.n_col, 2);
}

#[test]
fn scale_by_multiplies_elements() {
    let mut a = mat(&[1, -2, 3], 1, 3);
    a.scale_by(fx(2));
    assert_eq!(a.get(0, 0), fx(2));
    assert_eq!(a.get(0, 1), fx(-4));
    assert_eq!(a.get(0, 2), fx(6));
}

#[test]
fn softmax_rows_sum_to_one() {
    let mut a = mat(&[1, 2, 3, 4], 1, 4);
    a.softmax().unwrap();
    let sum: i64 = (0..4).map(|c| a.get(0, c).v).sum();
    // Within fixed-point tolerance: one truncation step per element.
    assert!((1_000_000 - sum).abs() <= 4, "row sums to {sum}");
}

#[test]
fn softmax_translation_invariance() {
    let mut a = mat(&[1, 2, 3, 4], 1, 4);
    let mut b = mat(&[6, 7, 8, 9], 1, 4);
    a.softmax().unwrap();
    b.softmax().unwrap();
    for c in 0..4 {
        assert_eq!(a.get(0, c), b.get(0, c));
    }
}

#[test]
fn softmax_empty_row_is_rejected() {
    let mut a: Matrix<Fixed> = Matrix::new(Vec::new(), 2, 0);
    let err = a.softmax().unwrap_err();
    assert_eq!(err, EngineError::InvalidInput { value: 0 });
}

#[test]
fn gelu_fixes_zero_and_is_monotone_on_samples() {
    let mut m = Matrix::new(
        vec![
            Fixed { v: -500_000 },
            Fixed { v: 0 },
            Fixed { v: 500_000 },
            Fixed { v: 1_000_000 },
            Fixed { v: 2_000_000 },
        ],
        1,
        5,
    );
    gemmars::tensor::gelu(&mut m);
    assert_eq!(m.get(0, 1), fx(0));
    for c in 0..4 {
        assert!(m.get(0, c).v <= m.get(0, c + 1).v);
    }
}
