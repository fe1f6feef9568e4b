//! The neural layers of the engine: the dense projection, the gated
//! feed-forward block, the embedding table and the root-mean-square norm.
//!
//! Each layer owns its weight tensors, built once from a flat weight
//! buffer at construction; a buffer whose length does not match the
//! declared hyperparameters is rejected with the expected and actual
//! sizes. Each `forward` states its exact result as a composition of the
//! tensor images from [`crate::tensor`].

use vstd::prelude::*;
use vstd::pervasive::unreached;

use crate::scalar::Scalar;
use crate::tensor::EngineError;
use crate::tensor::MatView;
use crate::tensor::Matrix;
use crate::tensor::gelu;
use crate::tensor::gelu_map_s;
use crate::tensor::mat_mul_s;
use crate::tensor::matmul;
use crate::tensor::matmul_into;
use crate::tensor::transpose_s;

verus! {

/// Copy the elements of `v` at positions `a .. b` into a fresh buffer.
pub(crate) fn subvec<T: Scalar>(v: &Vec<T>, a: usize, b: usize) -> (r: Vec<T>)
    requires
        a <= b <= v@.len(),
    ensures
        r@ == v@.subrange(a as int, b as int),
{
    let mut r: Vec<T> = Vec::new();
    let mut i = a;
    while i < b
        invariant
            a <= i <= b <= v@.len(),
            r@ == v@.subrange(a as int, i as int),
        decreases b - i,
    {
        r.push(v[i]);
        proof {
            assert(v@.subrange(a as int, i + 1 as int) =~= v@.subrange(a as int, i as int).push(
                v@[i as int],
            ));
        }
        i = i + 1;
    }
    r
}

/// A dense projection. The natural `(out_features, in_features)` weight
/// is transposed once at construction, so that `forward` is a single
/// matrix product `input x weight_t` with no per-call transposition.
#[derive(Debug)]
pub struct Linear<T> {
    pub weight_t: Matrix<T>,
    pub in_features: usize,
    pub out_features: usize,
}

impl<T: Scalar> Linear<T> {
    /// The stored weight is the transpose of the declared shape.
    pub open spec fn wf(self) -> bool {
        &&& self.weight_t@.wf()
        &&& self.weight_t@.rows == self.in_features
        &&& self.weight_t@.cols == self.out_features
    }

    /// Build the layer from a flat `(out_features, in_features)` weight
    /// buffer; a buffer of any other length is rejected with both sizes.
    pub fn new(weight_data: Vec<T>, in_features: usize, out_features: usize) -> (r: Result<
        Linear<T>,
        EngineError,
    >)
        requires
            in_features * out_features <= usize::MAX,
        ensures
            r is Ok <==> weight_data@.len() == in_features * out_features,
            r is Ok ==> (r->Ok_0).wf() && (r->Ok_0).in_features == in_features && (
            r->Ok_0).out_features == out_features && (r->Ok_0).weight_t@ == transpose_s(
                MatView { elems: weight_data@, rows: out_features as nat, cols: in_features as nat },
            ),
            r is Err ==> r->Err_0 == (EngineError::SizeMismatch {
                expected: (in_features * out_features) as usize,
                got: weight_data.len(),
            }),
    {
        if weight_data.len() != in_features * out_features {
            return Err(
                EngineError::SizeMismatch {
                    expected: in_features * out_features,
                    got: weight_data.len(),
                },
            );
        }
        proof {
            assert(in_features * out_features == out_features * in_features) by (nonlinear_arith);
        }
        let mut weight_t = Matrix::new(weight_data, out_features, in_features);
        weight_t.transpose();
        Ok(Linear { weight_t, in_features, out_features })
    }

    /// Project the input: the result is exactly `input x weight_t`. An
    /// input whose width is not `in_features` is rejected with both
    /// shapes.
    pub fn forward(&self, input: &Matrix<T>) -> (r: Result<Matrix<T>, EngineError>)
        requires
            self.wf(),
            input@.wf(),
        ensures
            r is Ok <==> input.n_col == self.in_features,
            r is Ok ==> (r->Ok_0)@ == mat_mul_s(input@, self.weight_t@) && (r->Ok_0)@.wf() && (
            r->Ok_0)@.rows == input@.rows && (r->Ok_0)@.cols == self.out_features,
            r is Err ==> r->Err_0 == (EngineError::DimensionMismatch {
                a_rows: input.n_row,
                a_cols: input.n_col,
                b_rows: self.weight_t.n_row,
                b_cols: self.weight_t.n_col,
            }),
    {
        matmul(input, &self.weight_t)
    }

    /// Project the input into an existing output tensor of shape
    /// `(input.rows, out_features)`.
    pub fn forward_into(&self, output: &mut Matrix<T>, input: &Matrix<T>) -> (r: Result<
        (),
        EngineError,
    >)
        requires
            self.wf(),
            old(output)@.wf(),
            input@.wf(),
        ensures
            r is Ok <==> (old(output).n_row == input.n_row && old(output).n_col
                == self.out_features && input.n_col == self.in_features),
            r is Ok ==> final(output)@ == mat_mul_s(input@, self.weight_t@),
            r is Err ==> final(output)@ == old(output)@ && r->Err_0 == (
            EngineError::DimensionMismatch {
                a_rows: input.n_row,
                a_cols: input.n_col,
                b_rows: self.weight_t.n_row,
                b_cols: self.weight_t.n_col,
            }),
    {
        matmul_into(output, input, &self.weight_t)
    }
}

/// The gated feed-forward block: three dense projections sliced from one
/// flat weight buffer, in the order `down`, `gate`, `up`.
#[derive(Debug)]
pub struct GemmaMLP<T> {
    pub gate_proj: Linear<T>,
    pub up_proj: Linear<T>,
    pub down_proj: Linear<T>,
}

impl<T: Scalar> GemmaMLP<T> {
    /// The three projections share one hidden size and one intermediate
    /// size.
    pub open spec fn wf(self) -> bool {
        &&& self.gate_proj.wf()
        &&& self.up_proj.wf()
        &&& self.down_proj.wf()
        &&& self.up_proj.in_features == self.gate_proj.in_features
        &&& self.up_proj.out_features == self.gate_proj.out_features
        &&& self.down_proj.in_features == self.gate_proj.out_features
        &&& self.down_proj.out_features == self.gate_proj.in_features
    }

    /// The block's hidden width.
    pub open spec fn hidden_size(self) -> usize {
        self.gate_proj.in_features
    }

    /// The block's intermediate width.
    pub open spec fn intermediate_size(self) -> usize {
        self.gate_proj.out_features
    }

    /// Slice one flat buffer into the three projection weights, in the
    /// order `down`, `gate`, `up` — the order of the external weight
    /// file. A buffer whose length is not three equal chunks of
    /// `hidden_size * intermediate_size` is rejected with both sizes.
    pub fn new(weight_data: Vec<T>, hidden_size: usize, intermediate_size: usize) -> (r: Result<
        GemmaMLP<T>,
        EngineError,
    >)
        requires
            3 * (hidden_size * intermediate_size) <= usize::MAX,
        ensures
            r is Ok <==> weight_data@.len() == 3 * (hidden_size * intermediate_size),
            r is Ok ==> (r->Ok_0).wf() && (r->Ok_0).hidden_size() == hidden_size && (
            r->Ok_0).intermediate_size() == intermediate_size && ({
                let len = (hidden_size * intermediate_size) as int;
                &&& (r->Ok_0).down_proj.weight_t@ == transpose_s(
                    MatView {
                        elems: weight_data@.subrange(0, len),
                        rows: hidden_size as nat,
                        cols: intermediate_size as nat,
                    },
                )
                &&& (r->Ok_0).gate_proj.weight_t@ == transpose_s(
                    MatView {
                        elems: weight_data@.subrange(len, 2 * len),
                        rows: intermediate_size as nat,
                        cols: hidden_size as nat,
                    },
                )
                &&& (r->Ok_0).up_proj.weight_t@ == transpose_s(
                    MatView {
                        elems: weight_data@.subrange(2 * len, 3 * len),
                        rows: intermediate_size as nat,
                        cols: hidden_size as nat,
                    },
                )
            }),
            r is Err ==> r->Err_0 == (EngineError::SizeMismatch {
                expected: (3 * (hidden_size * intermediate_size)) as usize,
                got: weight_data.len(),
            }),
    {
        let len = hidden_size * intermediate_size;
        if weight_data.len() != 3 * len {
            return Err(
                EngineError::SizeMismatch { expected: 3 * len, got: weight_data.len() },
            );
        }
        proof {
            assert(hidden_size * intermediate_size == intermediate_size * hidden_size)
                by (nonlinear_arith);
        }
        let down = match Linear::new(subvec(&weight_data, 0, len), intermediate_size, hidden_size) {
            Ok(l) => l,
            Err(_) => unreached(),
        };
        let gate = match Linear::new(
            subvec(&weight_data, len, 2 * len),
            hidden_size,
            intermediate_size,
        ) {
            Ok(l) => l,
            Err(_) => unreached(),
        };
        let up = match Linear::new(
            subvec(&weight_data, 2 * len, 3 * len),
            hidden_size,
            intermediate_size,
        ) {
            Ok(l) => l,
            Err(_) => unreached(),
        };
        Ok(GemmaMLP { gate_proj: gate, up_proj: up, down_proj: down })
    }

    /// One pass of the block: `gate = gelu(gate_proj(x))`, `up = up_proj(x)`,
    /// `fuse = gate x up` — a matrix product, not an element-wise one —
    /// and `down_proj(fuse)`. The first shape that does not line up is
    /// reported; the product `gate x up` lines up exactly when the
    /// intermediate size equals the input's row count.
    pub fn forward(&self, x: &Matrix<T>) -> (r: Result<Matrix<T>, EngineError>)
        requires
            self.wf(),
            x@.wf(),
        ensures
            r is Ok <==> (x.n_col == self.hidden_size() && self.intermediate_size() == x.n_row),
            r is Ok ==> (r->Ok_0)@ == mat_mul_s(
                mat_mul_s(
                    gelu_map_s(mat_mul_s(x@, self.gate_proj.weight_t@)),
                    mat_mul_s(x@, self.up_proj.weight_t@),
                ),
                self.down_proj.weight_t@,
            ),
            r is Err && x.n_col != self.hidden_size() ==> r->Err_0 == (
            EngineError::DimensionMismatch {
                a_rows: x.n_row,
                a_cols: x.n_col,
                b_rows: self.gate_proj.weight_t.n_row,
                b_cols: self.gate_proj.weight_t.n_col,
            }),
            r is Err && x.n_col == self.hidden_size() ==> r->Err_0 == (
            EngineError::DimensionMismatch {
                a_rows: x.n_row,
                a_cols: self.intermediate_size(),
                b_rows: x.n_row,
                b_cols: self.intermediate_size(),
            }),
    {
        let mut gate = match self.gate_proj.forward(x) {
            Ok(g) => g,
            Err(e) => {
                return Err(e);
            },
        };
        gelu(&mut gate);
        let up = match self.up_proj.forward(x) {
            Ok(u) => u,
            Err(_) => unreached(),
        };
        let fuse = match matmul(&gate, &up) {
            Ok(f) => f,
            Err(e) => {
                return Err(e);
            },
        };
        let outputs = match self.down_proj.forward(&fuse) {
            Ok(o) => o,
            Err(_) => unreached(),
        };
        Ok(outputs)
    }
}

/// The image of an embedding lookup: row `r` of the result is row
/// `ids[r]` of the weight table.
pub open spec fn embed_s<T: Scalar>(w: MatView<T>, ids: Seq<u32>, dim: nat) -> MatView<T> {
    MatView {
        rows: ids.len(),
        cols: dim,
        elems: Seq::new(
            ids.len() * dim,
            |n: int| w.idx(ids[n / (dim as int)] as int, n % (dim as int)),
        ),
    }
}

/// The embedding table: a `(num_embeddings, embedding_dim)` weight whose
/// rows are looked up by integer id.
#[derive(Debug)]
pub struct Embedding<T> {
    pub weight: Matrix<T>,
    pub num_embeddings: usize,
    pub embedding_dim: usize,
}

impl<T: Scalar> Embedding<T> {
    /// The weight table has one row per id.
    pub open spec fn wf(self) -> bool {
        &&& self.weight@.wf()
        &&& self.weight@.rows == self.num_embeddings
        &&& self.weight@.cols == self.embedding_dim
    }

    /// Reshape a flat buffer to `(num_embeddings, embedding_dim)`; a
    /// buffer of any other length is rejected with both sizes.
    pub fn new(weight_data: Vec<T>, num_embeddings: usize, embedding_dim: usize) -> (r: Result<
        Embedding<T>,
        EngineError,
    >)
        requires
            num_embeddings * embedding_dim <= usize::MAX,
        ensures
            r is Ok <==> weight_data@.len() == num_embeddings * embedding_dim,
            r is Ok ==> (r->Ok_0).wf() && (r->Ok_0).num_embeddings == num_embeddings && (
            r->Ok_0).embedding_dim == embedding_dim && (r->Ok_0).weight@.elems == weight_data@,
            r is Err ==> r->Err_0 == (EngineError::SizeMismatch {
                expected: (num_embeddings * embedding_dim) as usize,
                got: weight_data.len(),
            }),
    {
        if weight_data.len() != num_embeddings * embedding_dim {
            return Err(
                EngineError::SizeMismatch {
                    expected: num_embeddings * embedding_dim,
                    got: weight_data.len(),
                },
            );
        }
        Ok(Embedding { weight: Matrix::new(weight_data, num_embeddings, embedding_dim), num_embeddings, embedding_dim })
    }

    /// Look up the weight row of each id and stack the rows. An id with
    /// no row in the table is rejected as invalid input, reporting the
    /// first offending id.
    pub fn forward(&self, input_ids: &Vec<u32>) -> (r: Result<Matrix<T>, EngineError>)
        requires
            self.wf(),
            input_ids@.len() * self.embedding_dim <= usize::MAX,
        ensures
            r is Ok <==> (forall|i: int|
                0 <= i < input_ids@.len() ==> (input_ids@[i] as int) < self.num_embeddings),
            r is Ok ==> (r->Ok_0)@ == embed_s(
                self.weight@,
                input_ids@,
                self.embedding_dim as nat,
            ) && (r->Ok_0)@.wf(),
            r is Err ==> (exists|i: int|
                0 <= i < input_ids@.len() && (input_ids@[i] as int) >= self.num_embeddings && (
                forall|j: int| 0 <= j < i ==> (input_ids@[j] as int) < self.num_embeddings)
                    && r->Err_0 == (EngineError::InvalidInput { value: input_ids@[i] as usize })),
    {
        let ghost target = embed_s(self.weight@, input_ids@, self.embedding_dim as nat);
        let dim = self.embedding_dim;
        let count = input_ids.len();
        let mut data: Vec<T> = Vec::new();
        // seed the zero-length entry of the loop's length invariant
        assert(data@.len() == 0);
        assert(0 * (dim as int) == 0);
        for r in 0..count
            invariant
                self.wf(),
                dim == self.embedding_dim,
                count == input_ids@.len(),
                count * dim <= usize::MAX,
                target == embed_s(self.weight@, input_ids@, dim as nat),
                data@.len() == r * dim,
                forall|n: int| 0 <= n < data@.len() ==> data@[n] == target.elems[n],
                forall|j: int| 0 <= j < r ==> (input_ids@[j] as int) < self.num_embeddings,
        {
            let id = input_ids[r];
            if id as usize >= self.num_embeddings {
                proof {
                    let bad = r as int;
                    assert(0 <= bad < input_ids@.len() && (input_ids@[bad] as int)
                        >= self.num_embeddings && (forall|j: int|
                        0 <= j < bad ==> (input_ids@[j] as int) < self.num_embeddings));
                }
                return Err(EngineError::InvalidInput { value: id as usize });
            }
            for c in 0..dim
                invariant
                    self.wf(),
                    dim == self.embedding_dim,
                    count == input_ids@.len(),
                    r < count,
                    id == input_ids@[r as int],
                    (id as int) < self.num_embeddings,
                    target == embed_s(self.weight@, input_ids@, dim as nat),
                    data@.len() == r * dim + c,
                    forall|n: int| 0 <= n < data@.len() ==> data@[n] == target.elems[n],
            {
                let v = self.weight.get(id as usize, c);
                proof {
                    crate::tensor::lemma_flat_index(r as int, c as int, count as int, dim as int);
                    assert(target.elems.len() == (count as int) * (dim as int));
                    assert(target.elems[r * dim + c] == self.weight@.idx(id as int, c as int));
                }
                data.push(v);
            }
            proof {
                assert((r + 1) * dim == r * dim + dim) by (nonlinear_arith);
            }
        }
        proof {
            assert(data@ =~= target.elems);
            assert(count * dim == data@.len());
        }
        Ok(Matrix::new(data, count, dim))
    }
}

/// The running sum of squares of the first `k` elements of row `r`.
pub open spec fn row_sumsq_s<T: Scalar>(m: MatView<T>, r: int, k: int) -> T
    decreases k,
{
    if k <= 0 {
        T::zero_s()
    } else {
        row_sumsq_s(m, r, k - 1).plus_s(m.idx(r, k - 1).times_s(m.idx(r, k - 1)))
    }
}

/// The denominator of the root-mean-square norm of row `r`:
/// `sqrt(mean_of_squares + eps)`.
pub open spec fn row_denom_s<T: Scalar>(m: MatView<T>, r: int) -> T {
    row_sumsq_s(m, r, m.cols as int).divide_s(T::from_count_s(m.cols as int)).plus_s(
        T::eps_s(),
    ).sqrt_s()
}

/// The normalization image: every element of row `r` divided by that
/// row's root-mean-square denominator.
pub open spec fn rms_norm_s<T: Scalar>(m: MatView<T>) -> MatView<T> {
    MatView {
        rows: m.rows,
        cols: m.cols,
        elems: Seq::new(
            m.elems.len() as nat,
            |n: int|
                m.idx(n / (m.cols as int), n % (m.cols as int)).divide_s(
                    row_denom_s(m, n / (m.cols as int)),
                ),
        ),
    }
}

/// The root-mean-square norm layer: rescale each row by its
/// root-mean-square magnitude, then contract against a learned
/// `(dim, 1)` gain column.
#[derive(Debug)]
pub struct RMSNorm<T> {
    pub weight: Matrix<T>,
    pub dim: usize,
    pub eps: T,
}

impl<T: Scalar> RMSNorm<T> {
    /// The gain is a `(dim, 1)` column and the bias under the square
    /// root is the engine's epsilon.
    pub open spec fn wf(self) -> bool {
        &&& self.weight@.wf()
        &&& self.weight@.rows == self.dim
        &&& self.weight@.cols == 1
        &&& self.eps == T::eps_s()
    }

    /// Build the layer from a flat gain buffer of length `dim`, adding a
    /// learned bias of one to every stored gain — a zero-initialized
    /// buffer behaves as identity scaling. Any other length is rejected
    /// with both sizes.
    pub fn new(weight_data: Vec<T>, dim: usize) -> (r: Result<RMSNorm<T>, EngineError>)
        ensures
            r is Ok <==> weight_data@.len() == dim,
            r is Ok ==> (r->Ok_0).wf() && (r->Ok_0).dim == dim && (r->Ok_0).weight@.rows == dim && (
            r->Ok_0).weight@.cols == 1 && (forall|i: int|
                0 <= i < dim ==> (r->Ok_0).weight@.elems[i] == weight_data@[i].plus_s(T::one_s())),
            r is Err ==> r->Err_0 == (EngineError::SizeMismatch {
                expected: dim,
                got: weight_data.len(),
            }),
    {
        if weight_data.len() != dim {
            return Err(EngineError::SizeMismatch { expected: dim, got: weight_data.len() });
        }
        let mut gains: Vec<T> = Vec::new();
        let mut i: usize = 0;
        while i < dim
            invariant
                i <= dim,
                dim == weight_data@.len(),
                gains@.len() == i,
                forall|n: int| 0 <= n < i ==> gains@[n] == weight_data@[n].plus_s(T::one_s()),
            decreases dim - i,
        {
            gains.push(weight_data[i].plus(T::one()));
            i = i + 1;
        }
        proof {
            assert(gains@.len() == dim * 1) by (nonlinear_arith)
                requires
                    gains@.len() == dim;
        }
        Ok(RMSNorm { weight: Matrix::new(gains, dim, 1), dim, eps: T::eps() })
    }

    /// Rescale every row of `x` in place by its root-mean-square
    /// denominator.
    fn norm(&self, x: &mut Matrix<T>)
        requires
            old(x)@.wf(),
        ensures
            final(x)@ == rms_norm_s(old(x)@),
            final(x)@.wf(),
    {
        let ghost target = rms_norm_s(x@);
        let rows = x.n_row;
        let cols = x.n_col;
        let mut new_data: Vec<T> = Vec::new();
        // seed the zero-length entry of the loop's length invariant
        assert(new_data@.len() == 0);
        assert(0 * (cols as int) == 0);
        for r in 0..rows
            invariant
                x@ == old(x)@,
                x@.wf(),
                rows == x.n_row,
                cols == x.n_col,
                target == rms_norm_s(x@),
                new_data@.len() == r * cols,
                forall|n: int| 0 <= n < new_data@.len() ==> new_data@[n] == target.elems[n],
        {
            let mut sumsq = T::zero();
            for c in 0..cols
                invariant
                    x@ == old(x)@,
                    x@.wf(),
                    rows == x.n_row,
                    cols == x.n_col,
                    r < rows,
                    sumsq == row_sumsq_s(x@, r as int, c as int),
            {
                let v = x.get(r, c);
                sumsq = sumsq.plus(v.times(v));
            }
            let denom = sumsq.divide(T::from_count(cols)).plus(T::eps()).sqrt();
            for c in 0..cols
                invariant
                    x@ == old(x)@,
                    x@.wf(),
                    rows == x.n_row,
                    cols == x.n_col,
                    r < rows,
                    denom == row_denom_s(x@, r as int),
                    target == rms_norm_s(x@),
                    new_data@.len() == r * cols + c,
                    forall|n: int| 0 <= n < new_data@.len() ==> new_data@[n] == target.elems[n],
            {
                let e = x.get(r, c).divide(denom);
                proof {
                    crate::tensor::lemma_flat_index(r as int, c as int, rows as int, cols as int);
                    assert(target.elems.len() == x@.elems.len());
                    assert(target.elems[r * cols + c] == x@.idx(r as int, c as int).divide_s(
                        row_denom_s(x@, r as int),
                    ));
                }
                new_data.push(e);
            }
            proof {
                assert((r + 1) * cols == r * cols + cols) by (nonlinear_arith);
            }
        }
        proof {
            assert(new_data@ =~= target.elems);
        }
        x.data = new_data;
        proof {
            assert(x@.elems =~= target.elems);
        }
    }

    /// Normalize `x` in place, then contract the normalized rows against
    /// the `(dim, 1)` gain column. An empty row is rejected as invalid
    /// input, a width other than `dim` with both shapes; either error
    /// leaves `x` untouched.
    pub fn forward(&self, x: &mut Matrix<T>) -> (r: Result<Matrix<T>, EngineError>)
        requires
            self.wf(),
            old(x)@.wf(),
        ensures
            r is Ok <==> (old(x).n_col == self.dim && !(old(x).n_row > 0 && old(x).n_col == 0)),
            r is Ok ==> final(x)@ == rms_norm_s(old(x)@) && (r->Ok_0)@ == mat_mul_s(
                rms_norm_s(old(x)@),
                self.weight@,
            ),
            r is Err ==> final(x)@ == old(x)@,
            r is Err && old(x).n_row > 0 && old(x).n_col == 0 ==> r->Err_0 == (
            EngineError::InvalidInput { value: 0 }),
            r is Err && !(old(x).n_row > 0 && old(x).n_col == 0) ==> r->Err_0 == (
            EngineError::DimensionMismatch {
                a_rows: old(x).n_row,
                a_cols: old(x).n_col,
                b_rows: self.weight.n_row,
                b_cols: self.weight.n_col,
            }),
    {
        if x.n_row > 0 && x.n_col == 0 {
            return Err(EngineError::InvalidInput { value: 0 });
        }
        if x.n_col != self.dim {
            return Err(
                EngineError::DimensionMismatch {
                    a_rows: x.n_row,
                    a_cols: x.n_col,
                    b_rows: self.weight.n_row,
                    b_cols: self.weight.n_col,
                },
            );
        }
        self.norm(x);
        match matmul(x, &self.weight) {
            Ok(m) => Ok(m),
            Err(_) => unreached(),
        }
    }
}

} // verus!
