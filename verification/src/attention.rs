//! Grouped-query attention with rotary position encoding and a growing
//! key/value cache.
//!
//! One forward call processes one new token at an absolute position: it
//! projects the input row to query, key and value, rotates query and key
//! by position, appends the rotated key and the raw value to the caches —
//! extending the attention window by exactly one position — and computes
//! scaled-dot-product attention per head, each query head sharing the
//! cached history of its key/value head.
//!
//! The cache holds one key entry and one value entry per forward call,
//! and every head attends over the full cached history of its shared
//! key/value head. The declared output projection `o_proj` is applied by
//! the caller, so the output row has width `q_size` (`num_heads *
//! head_dim`).

use vstd::prelude::*;
use vstd::pervasive::unreached;

use crate::scalar::Scalar;
use crate::tensor::EngineError;
use crate::tensor::MatView;
use crate::tensor::Matrix;
use crate::tensor::lemma_flat_index;
use crate::tensor::lemma_flat_decode;
use crate::tensor::mat_mul_s;
use crate::tensor::matmul;
use crate::tensor::scale_s;
use crate::tensor::softmax_s;
use crate::tensor::transpose_s;
use crate::nn::Linear;
use crate::nn::subvec;

verus! {

/// The rotary image of one element of a `1 x (num_heads * head_dim)` row:
/// within each head-sized chunk, the pair `(x[2j], x[2j+1])` is rotated
/// by the angle of dimension pair `j` at `pos`; a trailing unpaired
/// element of an odd-width head is left in place.
pub open spec fn rope_elem_s<T: Scalar>(m: MatView<T>, pos: int, head_dim: int, n: int) -> T {
    if head_dim <= 0 {
        m.elems[n]
    } else {
        let off = n % head_dim;
        let j = off / 2;
        if off < 2 * (head_dim / 2) {
            if off % 2 == 0 {
                T::rope_cos_s(pos, j, head_dim).times_s(m.elems[n]).minus_s(
                    T::rope_sin_s(pos, j, head_dim).times_s(m.elems[n + 1]),
                )
            } else {
                T::rope_sin_s(pos, j, head_dim).times_s(m.elems[n - 1]).plus_s(
                    T::rope_cos_s(pos, j, head_dim).times_s(m.elems[n]),
                )
            }
        } else {
            m.elems[n]
        }
    }
}

/// The rotary position encoding applied to every head-sized chunk of a
/// single row.
pub open spec fn rope_s<T: Scalar>(m: MatView<T>, pos: int, head_dim: int) -> MatView<T> {
    MatView {
        rows: m.rows,
        cols: m.cols,
        elems: Seq::new(m.elems.len() as nat, |n: int| rope_elem_s(m, pos, head_dim, n)),
    }
}

/// At position zero every rotary angle is zero, so the encoding is the
/// identity transform for every head and dimension pair.
pub proof fn lemma_rope_identity_at_origin<T: Scalar>(m: MatView<T>, head_dim: int)
    ensures
        rope_s(m, 0, head_dim) == m,
{
    assert forall|n: int| 0 <= n < m.elems.len() implies rope_s(m, 0, head_dim).elems[n]
        == m.elems[n] by {
        if head_dim > 0 {
            let off = n % head_dim;
            let j = off / 2;
            T::lemma_rope_origin(j, head_dim);
            if off < 2 * (head_dim / 2) {
                if off % 2 == 0 {
                    T::lemma_units(m.elems[n]);
                    T::lemma_units(m.elems[n + 1]);
                    assert(T::one_s().times_s(m.elems[n]) == m.elems[n]);
                    assert(T::zero_s().times_s(m.elems[n + 1]) == T::zero_s());
                    assert(m.elems[n].minus_s(T::zero_s()) == m.elems[n]);
                } else {
                    T::lemma_units(m.elems[n]);
                    T::lemma_units(m.elems[n - 1]);
                    assert(T::zero_s().times_s(m.elems[n - 1]) == T::zero_s());
                    assert(T::one_s().times_s(m.elems[n]) == m.elems[n]);
                    assert(T::zero_s().plus_s(m.elems[n]) == m.elems[n]);
                }
            }
        }
    }
    assert(rope_s(m, 0, head_dim).elems =~= m.elems);
}

/// Apply the rotary position encoding in place to a `1 x (num_heads *
/// head_dim)` row: each head-sized chunk is rotated pairwise by the
/// angles of `pos`.
pub fn apply_rope<T: Scalar>(x: &mut Matrix<T>, pos: usize, num_heads: usize, head_dim: usize)
    requires
        old(x)@.wf(),
        old(x).n_row == 1,
        old(x).n_col == num_heads * head_dim,
    ensures
        final(x)@ == rope_s(old(x)@, pos as int, head_dim as int),
        final(x)@.wf(),
{
    let ghost target = rope_s(x@, pos as int, head_dim as int);
    if head_dim == 0 {
        proof {
            assert(x@.elems.len() == 1 * (num_heads * 0));
            assert(1 * (num_heads * 0) == 0) by (nonlinear_arith);
            assert(target.elems =~= x@.elems);
        }
        return ;
    }
    let len = x.data.len();
    let mut new_data: Vec<T> = Vec::new();
    proof {
        assert(2 * ((head_dim as int) / 2) <= head_dim as int) by (nonlinear_arith)
            requires
                head_dim as int > 0;
    }
    for n in 0..len
        invariant
            x@ == old(x)@,
            x@.wf(),
            x.n_row == 1,
            x.n_col == num_heads * head_dim,
            head_dim > 0,
            len == x.data@.len(),
            target == rope_s(x@, pos as int, head_dim as int),
            new_data@.len() == n,
            forall|k: int| 0 <= k < n ==> new_data@[k] == target.elems[k],
    {
        let off = n % head_dim;
        let j = off / 2;
        proof {
            assert(2 * ((head_dim as int) / 2) <= head_dim as int) by (nonlinear_arith)
                requires
                    head_dim as int > 0;
            assert(0 <= (n as int) % (head_dim as int) < head_dim as int) by (nonlinear_arith)
                requires
                    head_dim as int > 0,
                    n as int >= 0;
        }
        let v = if off < 2 * (head_dim / 2) {
            let cos = T::rope_cos(pos, j, head_dim);
            let sin = T::rope_sin(pos, j, head_dim);
            if off % 2 == 0 {
                proof {
                    assert(x@.elems.len() == (num_heads as int) * (head_dim as int))
                        by (nonlinear_arith)
                        requires
                            x@.elems.len() == x@.rows * x@.cols,
                            x@.rows == 1,
                            x@.cols == num_heads * head_dim;
                    assert(off + 1 < head_dim) by (nonlinear_arith)
                        requires
                            off == (n as int) % (head_dim as int),
                            off % 2 == 0,
                            off < 2 * ((head_dim as int) / 2),
                            head_dim as int > 0;
                    lemma_flat_decode(n as int, num_heads as int, head_dim as int);
                    lemma_flat_index(
                        (n as int) / (head_dim as int),
                        off + 1,
                        num_heads as int,
                        head_dim as int,
                    );
                    assert((n as int) + 1 == ((n as int) / (head_dim as int)) * (head_dim as int)
                        + off + 1);
                    assert((n as int) + 1 < x.data@.len());
                }
                cos.times(x.data[n]).minus(sin.times(x.data[n + 1]))
            } else {
                proof {
                    assert(n as int >= 1) by (nonlinear_arith)
                        requires
                            (n as int) % (head_dim as int) >= 1,
                            n as int >= 0,
                            head_dim as int > 0;
                }
                sin.times(x.data[n - 1]).plus(cos.times(x.data[n]))
            }
        } else {
            x.data[n]
        };
        proof {
            assert(target.elems[n as int] == rope_elem_s(x@, pos as int, head_dim as int, n as int));
            assert(v == target.elems[n as int]);
        }
        new_data.push(v);
    }
    proof {
        assert(new_data@ =~= target.elems);
    }
    x.data = new_data;
    proof {
        assert(x@.elems =~= target.elems);
    }
}

/// The views of a sequence of matrices.
pub open spec fn views_of<T>(s: Seq<Matrix<T>>) -> Seq<MatView<T>> {
    Seq::new(s.len(), |i: int| s[i]@)
}

/// Head chunk `i` of a single row: columns `i * head_dim .. (i + 1) *
/// head_dim`.
pub open spec fn q_chunk_s<T>(q: MatView<T>, i: int, head_dim: int) -> MatView<T> {
    MatView {
        rows: 1,
        cols: head_dim as nat,
        elems: q.elems.subrange(i * head_dim, i * head_dim + head_dim),
    }
}

/// The cached keys of key/value head `g`, gathered as a `head_dim x
/// len` matrix: column `t` is the head-`g` chunk of the key cached at
/// position `t`. Each cache entry is a `kv_size x 1` column.
pub open spec fn gather_keys_s<T>(ks: Seq<MatView<T>>, g: int, head_dim: int) -> MatView<T> {
    MatView {
        rows: head_dim as nat,
        cols: ks.len(),
        elems: Seq::new(
            (head_dim as nat) * ks.len(),
            |n: int|
                {
                    let t = n % (ks.len() as int);
                    let d = n / (ks.len() as int);
                    ks[t].idx(g * head_dim + d, 0)
                },
        ),
    }
}

/// The cached values of key/value head `g`, gathered as a `len x
/// head_dim` matrix: row `t` is the head-`g` chunk of the value cached
/// at position `t`. Each cache entry is a `1 x kv_size` row.
pub open spec fn gather_values_s<T>(vs: Seq<MatView<T>>, g: int, head_dim: int) -> MatView<T> {
    MatView {
        rows: vs.len(),
        cols: head_dim as nat,
        elems: Seq::new(
            vs.len() * (head_dim as nat),
            |n: int| vs[n / (head_dim as int)].idx(0, g * head_dim + n % (head_dim as int)),
        ),
    }
}

/// The output row of query head `i`: its scaled rotated query chunk
/// against the full cached history of its shared key/value head —
/// scores, the stable softmax, then the value contraction.
pub open spec fn head_output_s<T: Scalar>(
    q: MatView<T>,
    ks: Seq<MatView<T>>,
    vs: Seq<MatView<T>>,
    i: int,
    num_queries_per_kv: int,
    head_dim: int,
) -> MatView<T> {
    let g = i / num_queries_per_kv;
    mat_mul_s(
        softmax_s(mat_mul_s(q_chunk_s(q, i, head_dim), gather_keys_s(ks, g, head_dim))),
        gather_values_s(vs, g, head_dim),
    )
}

/// Grouped-query attention: `num_queries_per_kv` query heads share one
/// key/value head. Four dense projections are sliced from one flat
/// weight buffer in the fixed order `q`, `k`, `v`, `o`.
#[derive(Debug)]
pub struct GemmaAttention<T> {
    pub num_heads: usize,
    pub num_kv_heads: usize,
    pub num_queries_per_kv: usize,
    pub hidden_size: usize,
    pub head_dim: usize,
    pub q_size: usize,
    pub kv_size: usize,
    pub scaling: T,
    pub q_proj: Linear<T>,
    pub k_proj: Linear<T>,
    pub v_proj: Linear<T>,
    pub o_proj: Linear<T>,
}

impl<T: Scalar> GemmaAttention<T> {
    /// The derived sizes agree with the head counts and the four
    /// projections have their declared shapes.
    pub open spec fn wf(self) -> bool {
        &&& self.num_kv_heads > 0
        &&& self.num_heads == self.num_kv_heads * self.num_queries_per_kv
        &&& self.q_size == self.num_heads * self.head_dim
        &&& self.kv_size == self.num_kv_heads * self.head_dim
        &&& self.q_proj.wf()
        &&& self.q_proj.in_features == self.hidden_size
        &&& self.q_proj.out_features == self.q_size
        &&& self.k_proj.wf()
        &&& self.k_proj.in_features == self.hidden_size
        &&& self.k_proj.out_features == self.kv_size
        &&& self.v_proj.wf()
        &&& self.v_proj.in_features == self.hidden_size
        &&& self.v_proj.out_features == self.kv_size
        &&& self.o_proj.wf()
        &&& self.o_proj.in_features == self.q_size
        &&& self.o_proj.out_features == self.hidden_size
    }

    /// Every cache entry of a `kv_size`-wide layer: keys are stored as
    /// `kv_size x 1` columns, values as `1 x kv_size` rows.
    pub open spec fn cache_wf(self, ks: Seq<Matrix<T>>, vs: Seq<Matrix<T>>) -> bool {
        &&& ks.len() == vs.len()
        &&& forall|t: int|
            0 <= t < ks.len() ==> (#[trigger] ks[t])@.wf() && ks[t]@.rows == self.kv_size
                && ks[t]@.cols == 1
        &&& forall|t: int|
            0 <= t < vs.len() ==> (#[trigger] vs[t])@.wf() && vs[t]@.rows == 1 && vs[t]@.cols
                == self.kv_size
    }

    /// Slice one flat buffer into the `q`, `k`, `v`, `o` projection
    /// weights, in that fixed order. `num_kv_heads` must divide
    /// `num_heads` evenly — anything else is invalid input — and the
    /// buffer length must equal the exact sum of the four slice sizes,
    /// else it is rejected with both sizes. The query scaling factor is
    /// `1 / sqrt(query_pre_attn_scalar)`.
    pub fn new(
        weight_data: Vec<T>,
        num_heads: usize,
        num_kv_heads: usize,
        head_dim: usize,
        query_pre_attn_scalar: usize,
        hidden_size: usize,
    ) -> (r: Result<GemmaAttention<T>, EngineError>)
        requires
            num_heads * head_dim <= usize::MAX,
            num_kv_heads * head_dim <= usize::MAX,
            2 * (hidden_size * (num_heads * head_dim)) + 2 * (hidden_size * (num_kv_heads
                * head_dim)) <= usize::MAX,
        ensures
            r is Ok <==> (num_kv_heads > 0 && num_heads % num_kv_heads == 0 && weight_data@.len()
                == 2 * (hidden_size * (num_heads * head_dim)) + 2 * (hidden_size * (num_kv_heads
                * head_dim))),
            r is Ok ==> ({
                let a = r->Ok_0;
                let q_size = (num_heads * head_dim) as int;
                let kv_size = (num_kv_heads * head_dim) as int;
                let qw = (hidden_size as int) * q_size;
                let kvw = (hidden_size as int) * kv_size;
                &&& a.wf()
                &&& a.num_heads == num_heads
                &&& a.num_kv_heads == num_kv_heads
                &&& a.head_dim == head_dim
                &&& a.hidden_size == hidden_size
                &&& a.q_size == num_heads * head_dim
                &&& a.kv_size == num_kv_heads * head_dim
                &&& a.num_queries_per_kv == num_heads / num_kv_heads
                &&& a.scaling == T::one_s().divide_s(
                    T::from_count_s(query_pre_attn_scalar as int).sqrt_s(),
                )
                &&& a.q_proj.weight_t@ == transpose_s(
                    MatView {
                        elems: weight_data@.subrange(0, qw),
                        rows: (num_heads * head_dim) as nat,
                        cols: hidden_size as nat,
                    },
                )
                &&& a.k_proj.weight_t@ == transpose_s(
                    MatView {
                        elems: weight_data@.subrange(qw, qw + kvw),
                        rows: (num_kv_heads * head_dim) as nat,
                        cols: hidden_size as nat,
                    },
                )
                &&& a.v_proj.weight_t@ == transpose_s(
                    MatView {
                        elems: weight_data@.subrange(qw + kvw, qw + 2 * kvw),
                        rows: (num_kv_heads * head_dim) as nat,
                        cols: hidden_size as nat,
                    },
                )
                &&& a.o_proj.weight_t@ == transpose_s(
                    MatView {
                        elems: weight_data@.subrange(qw + 2 * kvw, 2 * qw + 2 * kvw),
                        rows: hidden_size as nat,
                        cols: (num_heads * head_dim) as nat,
                    },
                )
            }),
            r is Err && !(num_kv_heads > 0 && num_heads % num_kv_heads == 0) ==> r->Err_0 == (
            EngineError::InvalidInput { value: num_kv_heads }),
            r is Err && (num_kv_heads > 0 && num_heads % num_kv_heads == 0) ==> r->Err_0 == (
            EngineError::SizeMismatch {
                expected: (2 * (hidden_size * (num_heads * head_dim)) + 2 * (hidden_size * (
                num_kv_heads * head_dim))) as usize,
                got: weight_data.len(),
            }),
    {
        if num_kv_heads == 0 || num_heads % num_kv_heads != 0 {
            return Err(EngineError::InvalidInput { value: num_kv_heads });
        }
        let num_queries_per_kv = num_heads / num_kv_heads;
        let q_size = num_heads * head_dim;
        let kv_size = num_kv_heads * head_dim;
        proof {
            assert(hidden_size * (num_heads * head_dim) == (hidden_size as int) * (q_size as int))
                by (nonlinear_arith)
                requires
                    q_size == num_heads * head_dim;
            assert(hidden_size * (num_kv_heads * head_dim) == (hidden_size as int) * (
            kv_size as int)) by (nonlinear_arith)
                requires
                    kv_size == num_kv_heads * head_dim;
        }
        let qw = hidden_size * q_size;
        let kvw = hidden_size * kv_size;
        let total = 2 * qw + 2 * kvw;
        if weight_data.len() != total {
            return Err(EngineError::SizeMismatch { expected: total, got: weight_data.len() });
        }
        let scaling = T::one().divide(T::from_count(query_pre_attn_scalar).sqrt());
        proof {
            assert(q_size * hidden_size == hidden_size * q_size) by (nonlinear_arith);
            assert(kv_size * hidden_size == hidden_size * kv_size) by (nonlinear_arith);
        }
        let q_proj = match Linear::new(subvec(&weight_data, 0, qw), hidden_size, q_size) {
            Ok(l) => l,
            Err(_) => unreached(),
        };
        let k_proj = match Linear::new(subvec(&weight_data, qw, qw + kvw), hidden_size, kv_size) {
            Ok(l) => l,
            Err(_) => unreached(),
        };
        let v_proj = match Linear::new(
            subvec(&weight_data, qw + kvw, qw + 2 * kvw),
            hidden_size,
            kv_size,
        ) {
            Ok(l) => l,
            Err(_) => unreached(),
        };
        let o_proj = match Linear::new(
            subvec(&weight_data, qw + 2 * kvw, 2 * qw + 2 * kvw),
            q_size,
            hidden_size,
        ) {
            Ok(l) => l,
            Err(_) => unreached(),
        };
        proof {
            vstd::arithmetic::div_mod::lemma_fundamental_div_mod(
                num_heads as int,
                num_kv_heads as int,
            );
            assert(num_heads == num_kv_heads * num_queries_per_kv) by (nonlinear_arith)
                requires
                    num_kv_heads > 0,
                    num_heads % num_kv_heads == 0,
                    num_queries_per_kv == num_heads / num_kv_heads,
                    num_heads as int == (num_heads as int / num_kv_heads as int) * (
                    num_kv_heads as int) + (num_heads as int % num_kv_heads as int);
        }
        Ok(
            GemmaAttention {
                num_heads,
                num_kv_heads,
                num_queries_per_kv,
                hidden_size,
                head_dim,
                q_size,
                kv_size,
                scaling,
                q_proj,
                k_proj,
                v_proj,
                o_proj,
            },
        )
    }
}

/// Gather the cached keys of key/value head `g` into a `head_dim x len`
/// matrix: column `t` is the head-`g` chunk of the key cached at
/// position `t`.
fn gather_keys<T: Scalar>(cache: &Vec<Matrix<T>>, g: usize, head_dim: usize, kv_size: usize) -> (m:
    Matrix<T>)
    requires
        forall|t: int|
            0 <= t < cache@.len() ==> (#[trigger] cache@[t])@.wf() && cache@[t]@.rows == kv_size
                && cache@[t]@.cols == 1,
        (g + 1) * head_dim <= kv_size,
    ensures
        m@ == gather_keys_s(views_of(cache@), g as int, head_dim as int),
        m@.wf(),
        m.n_row == head_dim,
        m.n_col == cache@.len(),
{
    let ghost target = gather_keys_s(views_of(cache@), g as int, head_dim as int);
    let t_len = cache.len();
    let mut data: Vec<T> = Vec::new();
    // seed the zero-length entry of the loop's length invariant
    assert(data@.len() == 0);
    assert(0 * (t_len as int) == 0);
    for d in 0..head_dim
        invariant
            forall|t: int|
                0 <= t < cache@.len() ==> (#[trigger] cache@[t])@.wf() && cache@[t]@.rows
                    == kv_size && cache@[t]@.cols == 1,
            (g + 1) * head_dim <= kv_size,
            t_len == cache@.len(),
            target == gather_keys_s(views_of(cache@), g as int, head_dim as int),
            data@.len() == d * t_len,
            forall|n: int| 0 <= n < data@.len() ==> data@[n] == target.elems[n],
    {
        for t in 0..t_len
            invariant
                forall|tt: int|
                    0 <= tt < cache@.len() ==> (#[trigger] cache@[tt])@.wf() && cache@[tt]@.rows
                        == kv_size && cache@[tt]@.cols == 1,
                (g + 1) * head_dim <= kv_size,
                d < head_dim,
                t_len == cache@.len(),
                target == gather_keys_s(views_of(cache@), g as int, head_dim as int),
                data@.len() == d * t_len + t,
                forall|n: int| 0 <= n < data@.len() ==> data@[n] == target.elems[n],
        {
            proof {
                assert((g as int) * (head_dim as int) + d < kv_size as int) by (nonlinear_arith)
                    requires
                        ((g as int) + 1) * (head_dim as int) <= kv_size as int,
                        0 <= d < head_dim as int,
                        g as int >= 0;
            }
            let v = cache[t].get(g * head_dim + d, 0);
            proof {
                lemma_flat_index(d as int, t as int, head_dim as int, t_len as int);
                assert(target.elems.len() == (head_dim as int) * (t_len as int));
                assert(target.elems[(d as int) * (t_len as int) + t] == cache@[t as int]@.idx(
                    (g as int) * (head_dim as int) + d,
                    0,
                ));
            }
            data.push(v);
        }
        proof {
            assert((d + 1) * t_len == d * t_len + t_len) by (nonlinear_arith);
        }
    }
    proof {
        assert(data@ =~= target.elems);
    }
    Matrix::new(data, head_dim, t_len)
}

/// Gather the cached values of key/value head `g` into a `len x
/// head_dim` matrix: row `t` is the head-`g` chunk of the value cached
/// at position `t`.
fn gather_values<T: Scalar>(cache: &Vec<Matrix<T>>, g: usize, head_dim: usize, kv_size: usize) -> (
    m: Matrix<T>)
    requires
        forall|t: int|
            0 <= t < cache@.len() ==> (#[trigger] cache@[t])@.wf() && cache@[t]@.rows == 1
                && cache@[t]@.cols == kv_size,
        (g + 1) * head_dim <= kv_size,
    ensures
        m@ == gather_values_s(views_of(cache@), g as int, head_dim as int),
        m@.wf(),
        m.n_row == cache@.len(),
        m.n_col == head_dim,
{
    let ghost target = gather_values_s(views_of(cache@), g as int, head_dim as int);
    let t_len = cache.len();
    let mut data: Vec<T> = Vec::new();
    // seed the zero-length entry of the loop's length invariant
    assert(data@.len() == 0);
    assert(0 * (head_dim as int) == 0);
    for t in 0..t_len
        invariant
            forall|tt: int|
                0 <= tt < cache@.len() ==> (#[trigger] cache@[tt])@.wf() && cache@[tt]@.rows == 1
                    && cache@[tt]@.cols == kv_size,
            (g + 1) * head_dim <= kv_size,
            t_len == cache@.len(),
            target == gather_values_s(views_of(cache@), g as int, head_dim as int),
            data@.len() == t * head_dim,
            forall|n: int| 0 <= n < data@.len() ==> data@[n] == target.elems[n],
    {
        for d in 0..head_dim
            invariant
                forall|tt: int|
                    0 <= tt < cache@.len() ==> (#[trigger] cache@[tt])@.wf() && cache@[tt]@.rows
                        == 1 && cache@[tt]@.cols == kv_size,
                (g + 1) * head_dim <= kv_size,
                t < t_len,
                t_len == cache@.len(),
                target == gather_values_s(views_of(cache@), g as int, head_dim as int),
                data@.len() == t * head_dim + d,
                forall|n: int| 0 <= n < data@.len() ==> data@[n] == target.elems[n],
        {
            proof {
                assert((g as int) * (head_dim as int) + d < kv_size as int) by (nonlinear_arith)
                    requires
                        ((g as int) + 1) * (head_dim as int) <= kv_size as int,
                        0 <= d < head_dim as int,
                        g as int >= 0;
            }
            let v = cache[t].get(0, g * head_dim + d);
            proof {
                lemma_flat_index(t as int, d as int, t_len as int, head_dim as int);
                assert(target.elems.len() == (t_len as int) * (head_dim as int));
                assert(target.elems[(t as int) * (head_dim as int) + d] == cache@[t as int]@.idx(
                    0,
                    (g as int) * (head_dim as int) + d,
                ));
            }
            data.push(v);
        }
        proof {
            assert((t + 1) * head_dim == t * head_dim + head_dim) by (nonlinear_arith);
        }
    }
    proof {
        assert(data@ =~= target.elems);
    }
    Matrix::new(data, t_len, head_dim)
}

impl<T: Scalar> GemmaAttention<T> {
    /// One decoding step at absolute position `position`: project the
    /// input row to query, key and value; rotate query and key by the
    /// position's angles; scale the query; append the rotated key (as a
    /// column) and the raw value to the caches — the attention window
    /// grows by exactly one position and earlier entries are never
    /// touched; then, for every query head, score its chunk against the
    /// full cached history of its shared key/value head, soften the
    /// scores with the stable softmax and contract them against the
    /// cached values. The head outputs are concatenated column-wise into
    /// one row of width `q_size`; the declared output projection is the
    /// caller's to apply.
    pub fn forward(
        &self,
        new_input: &Matrix<T>,
        position: usize,
        k_cache: &mut Vec<Matrix<T>>,
        v_cache: &mut Vec<Matrix<T>>,
    ) -> (r: Result<Matrix<T>, EngineError>)
        requires
            self.wf(),
            new_input@.wf(),
            new_input.n_row == 1,
            new_input.n_col == self.hidden_size,
            self.cache_wf(old(k_cache)@, old(v_cache)@),
        ensures
            r is Ok,
            final(k_cache)@.len() == old(k_cache)@.len() + 1,
            final(v_cache)@.len() == old(v_cache)@.len() + 1,
            forall|t: int| 0 <= t < old(k_cache)@.len() ==> final(k_cache)@[t] == old(k_cache)@[t],
            forall|t: int| 0 <= t < old(v_cache)@.len() ==> final(v_cache)@[t] == old(v_cache)@[t],
            final(k_cache)@[old(k_cache)@.len() as int]@ == transpose_s(
                rope_s(
                    mat_mul_s(new_input@, self.k_proj.weight_t@),
                    position as int,
                    self.head_dim as int,
                ),
            ),
            final(v_cache)@[old(v_cache)@.len() as int]@ == mat_mul_s(
                new_input@,
                self.v_proj.weight_t@,
            ),
            self.cache_wf(final(k_cache)@, final(v_cache)@),
            ({
                let q = scale_s(
                    rope_s(
                        mat_mul_s(new_input@, self.q_proj.weight_t@),
                        position as int,
                        self.head_dim as int,
                    ),
                    self.scaling,
                );
                let ks = views_of(final(k_cache)@);
                let vs = views_of(final(v_cache)@);
                let out = r->Ok_0;
                &&& out@.wf()
                &&& out@.rows == 1
                &&& out@.cols == self.q_size
                &&& forall|i: int|
                    0 <= i < self.num_heads ==> out@.elems.subrange(
                        i * self.head_dim,
                        (i + 1) * self.head_dim,
                    ) == head_output_s(
                        q,
                        ks,
                        vs,
                        i,
                        self.num_queries_per_kv as int,
                        self.head_dim as int,
                    ).elems
            }),
    {
        let mut xq = match self.q_proj.forward(new_input) {
            Ok(m) => m,
            Err(_) => unreached(),
        };
        apply_rope(&mut xq, position, self.num_heads, self.head_dim);
        let mut xk = match self.k_proj.forward(new_input) {
            Ok(m) => m,
            Err(_) => unreached(),
        };
        apply_rope(&mut xk, position, self.num_kv_heads, self.head_dim);
        let xv = match self.v_proj.forward(new_input) {
            Ok(m) => m,
            Err(_) => unreached(),
        };
        xk.transpose();
        xq.scale_by(self.scaling);
        let ghost q = xq@;
        k_cache.push(xk);
        v_cache.push(xv);
        let ghost kc = k_cache@;
        let ghost vc = v_cache@;
        let ghost ks = views_of(kc);
        let ghost vs = views_of(vc);
        proof {
            assert forall|t: int| 0 <= t < kc.len() implies (#[trigger] kc[t])@.wf() && kc[t]@.rows
                == self.kv_size && kc[t]@.cols == 1 by {
                if t < kc.len() - 1 {
                    assert(kc[t] == old(k_cache)@[t]);
                }
            }
            assert forall|t: int| 0 <= t < vc.len() implies (#[trigger] vc[t])@.wf() && vc[t]@.rows
                == 1 && vc[t]@.cols == self.kv_size by {
                if t < vc.len() - 1 {
                    assert(vc[t] == old(v_cache)@[t]);
                }
            }
        }
        let t_len = k_cache.len();
        let hd = self.head_dim;
        let mut out_data: Vec<T> = Vec::new();
        // seed the zero-length entry of the loop's length invariant
        assert(out_data@.len() == 0);
        assert(0 * (hd as int) == 0);
        for i in 0..self.num_heads
            invariant
                self.wf(),
                xq@ == q,
                xq@.wf(),
                xq.n_row == 1,
                xq.n_col == self.q_size,
                k_cache@ == kc,
                v_cache@ == vc,
                ks == views_of(kc),
                vs == views_of(vc),
                self.cache_wf(kc, vc),
                t_len == kc.len(),
                t_len >= 1,
                hd == self.head_dim,
                out_data@.len() == i * hd,
                forall|ii: int|
                    0 <= ii < i ==> out_data@.subrange(ii * hd, (ii + 1) * hd) == head_output_s(
                        q,
                        ks,
                        vs,
                        ii,
                        self.num_queries_per_kv as int,
                        hd as int,
                    ).elems,
        {
            proof {
                assert(self.num_queries_per_kv > 0) by (nonlinear_arith)
                    requires
                        self.num_heads as int == (self.num_kv_heads as int) * (
                        self.num_queries_per_kv as int),
                        self.num_heads as int > i as int >= 0;
            }
            let g = i / self.num_queries_per_kv;
            proof {
                assert((g as int) < self.num_kv_heads as int && ((g as int) + 1) * (hd as int)
                    <= self.kv_size as int && (i as int) * (hd as int) + hd <= self.q_size as int)
                    by (nonlinear_arith)
                    requires
                        g as int == (i as int) / (self.num_queries_per_kv as int),
                        self.num_queries_per_kv as int > 0,
                        0 <= (i as int) < (self.num_heads as int),
                        self.num_heads as int == (self.num_kv_heads as int) * (
                        self.num_queries_per_kv as int),
                        self.q_size as int == (self.num_heads as int) * (hd as int),
                        self.kv_size as int == (self.num_kv_heads as int) * (hd as int),
                        hd as int >= 0;
                assert(xq.data@.len() == self.q_size as int) by (nonlinear_arith)
                    requires
                        xq.data@.len() == (1 as int) * (self.q_size as int);
            }
            let start = i * hd;
            let chunk = subvec(&xq.data, start, start + hd);
            proof {
                assert(chunk@.len() == (1 as int) * (hd as int)) by (nonlinear_arith)
                    requires
                        chunk@.len() == hd as int;
            }
            let q_i = Matrix::new(chunk, 1, hd);
            proof {
                assert(q_i@ == q_chunk_s(q, i as int, hd as int));
            }
            let kk = gather_keys(k_cache, g, hd, self.kv_size);
            let mut score = match matmul(&q_i, &kk) {
                Ok(m) => m,
                Err(_) => unreached(),
            };
            match score.softmax() {
                Ok(u) => u,
                Err(_) => unreached(),
            };
            let vv = gather_values(v_cache, g, hd, self.kv_size);
            let head_out = match matmul(&score, &vv) {
                Ok(m) => m,
                Err(_) => unreached(),
            };
            let ghost ho = head_out@;
            proof {
                assert(ho == head_output_s(
                    q,
                    ks,
                    vs,
                    i as int,
                    self.num_queries_per_kv as int,
                    hd as int,
                ));
                assert(ho.elems.len() == ho.rows * ho.cols);
            }
            let ghost pre = out_data@;
            let mut ho_m = head_out;
            out_data.append(&mut ho_m.data);
            proof {
                assert(ho.elems.len() == hd as int) by (nonlinear_arith)
                    requires
                        ho.elems.len() == ho.rows * ho.cols,
                        ho.rows == 1,
                        ho.cols == hd as int;
                assert(out_data@ == pre + ho.elems);
                assert forall|ii: int| 0 <= ii < i implies out_data@.subrange(
                    ii * hd,
                    (ii + 1) * hd,
                ) == head_output_s(
                    q,
                    ks,
                    vs,
                    ii,
                    self.num_queries_per_kv as int,
                    hd as int,
                ).elems by {
                    assert(0 <= ii * (hd as int) && ii * (hd as int) <= (ii + 1) * (hd as int)
                        && (ii + 1) * (hd as int) <= (i as int) * (hd as int)) by (nonlinear_arith)
                        requires
                            0 <= ii < (i as int),
                            hd as int >= 0;
                    assert(out_data@.subrange(ii * hd, (ii + 1) * hd) =~= pre.subrange(
                        ii * hd,
                        (ii + 1) * hd,
                    ));
                }
                assert((i + 1) * hd == i * hd + hd) by (nonlinear_arith);
                assert(out_data@.subrange((i as int) * (hd as int), ((i as int) + 1) * (hd as int))
                    =~= ho.elems);
            }
        }
        proof {
            assert(out_data@.len() == (self.num_heads as int) * (hd as int));
            assert(out_data@.len() == (1 as int) * (self.q_size as int)) by (nonlinear_arith)
                requires
                    out_data@.len() == (self.num_heads as int) * (hd as int),
                    self.q_size as int == (self.num_heads as int) * (hd as int);
        }
        Ok(Matrix::new(out_data, 1, self.q_size))
    }
}

} // verus!
