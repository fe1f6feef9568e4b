use gemmars::fixed::Fixed;
use gemmars::nn::Embedding;
use gemmars::nn::GemmaMLP;
use gemmars::nn::Linear;
use gemmars::nn::RMSNorm;
use gemmars::tensor::EngineError;
use gemmars::tensor::Matrix;

fn fx(units: i64) -> Fixed {
    Fixed { v: units * 1_000_000 }
}

#[test]
fn model_test_linear() {
    let mut output: Matrix<Fixed> = Matrix::new_empty(1024, 5);
    let input = Matrix::new(vec![fx(1); 1024 * 3], 1024, 3);
    // Every weight is 3.14; each output element is 3 * 3.14 = 9.42.
    let l = Linear::new(vec![Fixed { v: 3_140_000 }; 15], 3, 5).unwrap();
    l.forward_into(&mut output, &input).unwrap();
    assert_eq!(output.get(300, 4), Fixed { v: 9_420_000 });
}

#[test]
fn nn_test_linear() {
    let input = Matrix::new(vec![fx(1); 1024 * 3], 1024, 3);
    let l = Linear::new(vec![Fixed { v: 3_140_000 }; 15], 3, 5).unwrap();
    let output = l.forward(&input).unwrap();
    assert_eq!(output.get(300, 4), Fixed { v: 9_420_000 });
}

#[test]
fn linear_transposes_weight() {
    // Weight declared (out=2, in=3) row-major [[1,2,3],[4,5,6]]; the
    // stored transpose is 3x2, and forward([1,0,0]) picks column 0 of
    // the natural weight: [1, 4].
    let w: Vec<Fixed> = [1, 2, 3, 4, 5, 6].iter().map(|&v| fx(v)).collect();
    let l = Linear::new(w, 3, 2).unwrap();
    assert_eq!(l.weight_t.n_row, 3);
    assert_eq!(l.weight_t.n_col, 2);
    let x = Matrix::new(vec![fx(1), fx(0), fx(0)], 1, 3);
    let y = l.forward(&x).unwrap();
    assert_eq!(y.get(0, 0), fx(1));
    assert_eq!(y.get(0, 1), fx(4));
}

#[test]
fn linear_size_mismatch() {
    let err = Linear::new(vec![fx(1); 14], 3, 5).unwrap_err();
    assert_eq!(err, EngineError::SizeMismatch { expected: 15, got: 14 });
}

#[test]
fn linear_input_width_mismatch() {
    let l = Linear::new(vec![fx(1); 15], 3, 5).unwrap();
    let x = Matrix::new(vec![fx(1); 4], 1, 4);
    assert!(l.forward(&x).is_err());
}

#[test]
fn mlp_forward_matrix_gating() {
    // hidden = 2, intermediate = 1, all weights one. For x = [1, 2]:
    // gate = gelu(3) = 3 under the saturating tanh, up = 3, the fuse is
    // the 1x1 matrix product [9], and down projects it to [9, 9].
    let mlp = GemmaMLP::new(vec![fx(1); 6], 2, 1).unwrap();
    let x = Matrix::new(vec![fx(1), fx(2)], 1, 2);
    let y = mlp.forward(&x).unwrap();
    assert_eq!(y.n_row, 1);
    assert_eq!(y.n_col, 2);
    assert_eq!(y.get(0, 0), fx(9));
    assert_eq!(y.get(0, 1), fx(9));
}

#[test]
fn mlp_size_mismatch() {
    let err = GemmaMLP::new(vec![fx(1); 5], 2, 1).unwrap_err();
    assert_eq!(err, EngineError::SizeMismatch { expected: 6, got: 5 });
}

#[test]
fn mlp_fuse_shape_error() {
    let mlp = GemmaMLP::new(vec![fx(1); 12], 2, 2).unwrap();
    let x = Matrix::new(vec![fx(1), fx(2)], 1, 2);
    let err = mlp.forward(&x).unwrap_err();
    assert_eq!(
        err,
        EngineError::DimensionMismatch { a_rows: 1, a_cols: 2, b_rows: 1, b_cols: 2 }
    );
}

#[test]
fn embedding_looks_up_rows_by_id() {
    let w: Vec<Fixed> = (0..6).map(fx).collect();
    let e = Embedding::new(w, 3, 2).unwrap();
    let out = e.forward(&vec![2u32, 0u32]).unwrap();
    assert_eq!(out.n_row, 2);
    assert_eq!(out.n_col, 2);
    assert_eq!(out.get(0, 0), fx(4));
    assert_eq!(out.get(0, 1), fx(5));
    assert_eq!(out.get(1, 0), fx(0));
    assert_eq!(out.get(1, 1), fx(1));
}

#[test]
fn embedding_rejects_out_of_range_id() {
    let w: Vec<Fixed> = (0..6).map(fx).collect();
    let e = Embedding::new(w, 3, 2).unwrap();
    let err = e.forward(&vec![1u32, 3u32]).unwrap_err();
    assert_eq!(err, EngineError::InvalidInput { value: 3 });
}

#[test]
fn embedding_size_mismatch() {
    let err = Embedding::new(vec![fx(0); 5], 3, 2).unwrap_err();
    assert_eq!(err, EngineError::SizeMismatch { expected: 6, got: 5 });
}

#[test]
fn rmsnorm_constant_row() {
    // Zero-initialized gains behave as identity scaling (each stored
    // gain is 0 + 1). A constant row of 3.0 has mean square 9.0, so each
    // element becomes 3 / sqrt(9 + eps) = 1.0 at this resolution, and
    // the gain contraction sums the row: 4.0.
    let norm = RMSNorm::new(vec![fx(0); 4], 4).unwrap();
    let mut x = Matrix::new(vec![fx(3); 4], 1, 4);
    let y = norm.forward(&mut x).unwrap();
    for c in 0..4 {
        assert_eq!(x.get(0, c), fx(1));
    }
    assert_eq!(y.n_row, 1);
    assert_eq!(y.n_col, 1);
    assert_eq!(y.get(0, 0), fx(4));
}

#[test]
fn rmsnorm_rejects_empty_row() {
    let norm = RMSNorm::new(vec![fx(0); 4], 4).unwrap();
    let mut x: Matrix<Fixed> = Matrix::new(Vec::new(), 1, 0);
    let err = norm.forward(&mut x).unwrap_err();
    assert_eq!(err, EngineError::InvalidInput { value: 0 });
}

#[test]
fn rmsnorm_size_mismatch() {
    let err = RMSNorm::new(vec![fx(0); 3], 4).unwrap_err();
    assert_eq!(err, EngineError::SizeMismatch { expected: 4, got: 3 });
}
