use gemmars::attention::apply_rope;
use gemmars::attention::GemmaAttention;
use gemmars::fixed::Fixed;
use gemmars::tensor::EngineError;
use gemmars::tensor::Matrix;

fn fx(units: i64) -> Fixed {
    Fixed { v: units * 1_000_000 }
}

fn small_attention() -> GemmaAttention<Fixed> {
    // num_heads = 2, num_kv_heads = 1, head_dim = 2, hidden_size = 4:
    // q_size = 4, kv_size = 2, and the weight buffer holds
    // 2*(4*4) + 2*(4*2) = 48 values.
    GemmaAttention::new(vec![fx(1); 48], 2, 1, 2, 4, 4).unwrap()
}

#[test]
fn rope_at_position_zero_is_identity() {
    let vals = [fx(1), fx(2), fx(3), fx(4)];
    let mut x = Matrix::new(vals.to_vec(), 1, 4);
    apply_rope(&mut x, 0, 2, 2);
    for c in 0..4 {
        assert_eq!(x.get(0, c), vals[c]);
    }
}

#[test]
fn attention_scaling_factor() {
    // 1 / sqrt(query_pre_attn_scalar) with the scalar 4 is exactly 0.5.
    let attn = small_attention();
    assert_eq!(attn.scaling, Fixed { v: 500_000 });
    assert_eq!(attn.q_size, 4);
    assert_eq!(attn.kv_size, 2);
    assert_eq!(attn.num_queries_per_kv, 2);
}

#[test]
fn attention_size_mismatch() {
    let err = match GemmaAttention::<Fixed>::new(vec![fx(1); 47], 2, 1, 2, 4, 4) {
        Err(e) => e,
        Ok(_) => panic!("expected a size mismatch"),
    };
    assert_eq!(err, EngineError::SizeMismatch { expected: 48, got: 47 });
}

#[test]
fn attention_head_count_must_divide() {
    let err = match GemmaAttention::<Fixed>::new(vec![fx(1); 48], 3, 2, 2, 4, 4) {
        Err(e) => e,
        Ok(_) => panic!("expected invalid input"),
    };
    assert_eq!(err, EngineError::InvalidInput { value: 2 });
    let err0 = match GemmaAttention::<Fixed>::new(vec![fx(1); 48], 2, 0, 2, 4, 4) {
        Err(e) => e,
        Ok(_) => panic!("expected invalid input"),
    };
    assert_eq!(err0, EngineError::InvalidInput { value: 0 });
}

#[test]
fn cache_grows_by_one_per_forward() {
    let attn = small_attention();
    let mut k_cache: Vec<Matrix<Fixed>> = Vec::new();
    let mut v_cache: Vec<Matrix<Fixed>> = Vec::new();
    // A fresh session's cache starts empty.
    assert_eq!(k_cache.len(), 0);
    assert_eq!(v_cache.len(), 0);
    for pos in 0..3 {
        let input = Matrix::new(vec![fx(1); 4], 1, 4);
        let out = attn.forward(&input, pos, &mut k_cache, &mut v_cache).unwrap();
        assert_eq!(out.n_row, 1);
        assert_eq!(out.n_col, 4);
        // After k forward calls the key cache holds exactly k entries.
        assert_eq!(k_cache.len(), pos + 1);
        assert_eq!(v_cache.len(), pos + 1);
    }
    // Keys are cached as kv_size x 1 columns, values as 1 x kv_size rows.
    assert_eq!(k_cache[0].n_row, 2);
    assert_eq!(k_cache[0].n_col, 1);
    assert_eq!(v_cache[0].n_row, 1);
    assert_eq!(v_cache[0].n_col, 2);
}

#[test]
fn attention_output_values_single_step() {
    // With every weight one and input of ones, each projection gives a
    // row of fours; at position zero the rotation is the identity, the
    // query is scaled by 0.5 to twos, each head scores 2*4 + 2*4 = 16
    // against the single cached column, softmax over one score is one,
    // and the head output is the cached value row [4, 4].
    let attn = small_attention();
    let mut k_cache: Vec<Matrix<Fixed>> = Vec::new();
    let mut v_cache: Vec<Matrix<Fixed>> = Vec::new();
    let input = Matrix::new(vec![fx(1); 4], 1, 4);
    let out = attn.forward(&input, 0, &mut k_cache, &mut v_cache).unwrap();
    for c in 0..4 {
        assert_eq!(out.get(0, c), fx(4));
    }
    assert_eq!(k_cache[0].get(0, 0), fx(4));
    assert_eq!(v_cache[0].get(0, 1), fx(4));
}
