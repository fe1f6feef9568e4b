//! The dense tensor: a flat, row-major 2-D buffer with explicit row and
//! column counts, and the operations every layer of the engine is built
//! from — transpose, concatenation, scaling, matrix multiplication, the
//! numerically stable row softmax and the gating nonlinearity.
//!
//! Each operation's contract is stated against [`MatView`], the
//! mathematical image of a matrix: its element sequence and its two
//! dimensions. Element `(r, c)` of a matrix lives at position
//! `r * cols + c` of the buffer.

use vstd::prelude::*;
use vstd::arithmetic::div_mod::lemma_fundamental_div_mod;
use vstd::arithmetic::div_mod::lemma_fundamental_div_mod_converse;

use crate::scalar::Scalar;
use crate::scalar::gelu_s;

verus! {

/// An unrecoverable fault of the numeric core. Each variant carries the
/// concrete offending dimensions or sizes.
#[derive(Clone, Copy, Debug, PartialEq, Eq, Structural)]
pub enum EngineError {
    /// A shape-incompatible tensor operation; carries both shapes.
    DimensionMismatch { a_rows: usize, a_cols: usize, b_rows: usize, b_cols: usize },
    /// A constructor weight buffer whose length does not match the
    /// declared hyperparameters.
    SizeMismatch { expected: usize, got: usize },
    /// A value outside the operation's domain, such as an empty softmax
    /// row or an out-of-range embedding id; carries the value.
    InvalidInput { value: usize },
}

/// The mathematical image of a [`Matrix`]: the flat element sequence and
/// the two dimensions.
pub struct MatView<T> {
    pub elems: Seq<T>,
    pub rows: nat,
    pub cols: nat,
}

impl<T> MatView<T> {
    /// The buffer holds exactly `rows * cols` elements.
    pub open spec fn wf(self) -> bool {
        self.elems.len() == self.rows * self.cols
    }

    /// Element `(r, c)`, at flat position `r * cols + c`.
    pub open spec fn idx(self, r: int, c: int) -> T {
        self.elems[r * self.cols + c]
    }
}

/// A flat, row-major 2-D buffer with explicit row and column counts.
#[derive(Debug)]
pub struct Matrix<T> {
    pub data: Vec<T>,
    pub n_row: usize,
    pub n_col: usize,
}

impl<T> View for Matrix<T> {
    type V = MatView<T>;

    open spec fn view(&self) -> MatView<T> {
        MatView { elems: self.data@, rows: self.n_row as nat, cols: self.n_col as nat }
    }
}

/// Row-major addressing is injective: position `r * cols + c` of an
/// `rows x cols` buffer is in range and decodes back to `(r, c)`.
pub proof fn lemma_flat_index(r: int, c: int, rows: int, cols: int)
    requires
        0 <= r < rows,
        0 <= c < cols,
    ensures
        0 <= r * cols + c < rows * cols,
        (r * cols + c) / cols == r,
        (r * cols + c) % cols == c,
{
    lemma_fundamental_div_mod_converse(r * cols + c, cols, r, c);
    assert(0 <= r * cols + c && r * cols + c < rows * cols) by (nonlinear_arith)
        requires
            0 <= r < rows,
            0 <= c < cols;
}

/// Every flat position of an `rows x cols` buffer decodes to a row and a
/// column in range, and re-encodes to itself.
pub proof fn lemma_flat_decode(n: int, rows: int, cols: int)
    requires
        0 < cols,
        0 <= n < rows * cols,
    ensures
        0 <= n / cols < rows,
        0 <= n % cols < cols,
        n == (n / cols) * cols + n % cols,
{
    lemma_fundamental_div_mod(n, cols);
    assert(0 <= n / cols < rows && 0 <= n % cols < cols && n == (n / cols) * cols + n % cols)
        by (nonlinear_arith)
        requires
            0 < cols,
            0 <= n < rows * cols;
}

/// The transpose image: dimensions swapped, element `(r, c)` moved to
/// `(c, r)`.
pub open spec fn transpose_s<T>(m: MatView<T>) -> MatView<T> {
    MatView {
        rows: m.cols,
        cols: m.rows,
        elems: Seq::new(m.rows * m.cols, |n: int| m.idx(n % (m.rows as int), n / (m.rows as int))),
    }
}

/// Transposing twice gives back the original matrix, element for element.
pub proof fn lemma_transpose_involution<T>(m: MatView<T>)
    requires
        m.wf(),
    ensures
        transpose_s(transpose_s(m)) == m,
{
    let t = transpose_s(m);
    let u = transpose_s(t);
    assert(u.elems.len() == m.elems.len()) by (nonlinear_arith)
        requires
            u.elems.len() == t.rows * t.cols,
            m.elems.len() == m.rows * m.cols,
            t.rows == m.cols,
            t.cols == m.rows;
    assert forall|n: int| 0 <= n < m.elems.len() implies u.elems[n] == m.elems[n] by {
        let rows = m.rows as int;
        let cols = m.cols as int;
        assert(rows > 0 && cols > 0) by (nonlinear_arith)
            requires
                rows >= 0,
                cols >= 0,
                0 <= n < rows * cols;
        lemma_flat_decode(n, rows, cols);
        let r = n / cols;
        let c = n % cols;
        // `u` reads `t` at `(c, r)`, which is `t.elems[c * rows + r]`.
        assert(u.elems[n] == t.idx(n % cols, n / cols));
        lemma_flat_index(c, r, cols, rows);
        let k = c * rows + r;
        // `t` reads `m` at `(r, c)` for that position.
        assert(t.elems[k] == m.idx(k % rows, k / rows));
        assert(u.elems[n] == m.idx(r, c));
        assert(m.idx(r, c) == m.elems[n]);
    }
    assert(u.elems =~= m.elems);
}

impl<T: Scalar> Matrix<T> {
    /// Wrap a flat buffer whose length matches the declared dimensions.
    pub fn new(data: Vec<T>, n_row: usize, n_col: usize) -> (m: Matrix<T>)
        requires
            data@.len() == n_row * n_col,
        ensures
            m@ == (MatView { elems: data@, rows: n_row as nat, cols: n_col as nat }),
            m@.wf(),
    {
        Matrix { data, n_row, n_col }
    }

    /// An `n_row x n_col` matrix of zeros.
    pub fn new_empty(n_row: usize, n_col: usize) -> (m: Matrix<T>)
        requires
            n_row * n_col <= usize::MAX,
        ensures
            m@.wf(),
            m@.rows == n_row,
            m@.cols == n_col,
            forall|n: int| 0 <= n < m@.elems.len() ==> m@.elems[n] == T::zero_s(),
    {
        let len = n_row * n_col;
        let mut data: Vec<T> = Vec::new();
        while data.len() < len
            invariant
                data@.len() <= len,
                forall|n: int| 0 <= n < data@.len() ==> data@[n] == T::zero_s(),
            decreases len - data@.len(),
        {
            data.push(T::zero());
        }
        Matrix { data, n_row, n_col }
    }

    /// Element `(r, c)`.
    pub fn get(&self, r: usize, c: usize) -> (v: T)
        requires
            self@.wf(),
            r < self.n_row,
            c < self.n_col,
        ensures
            v == self@.idx(r as int, c as int),
    {
        proof {
            lemma_flat_index(r as int, c as int, self.n_row as int, self.n_col as int);
        }
        // the buffer length bounds the flat index within usize
        let len = self.data.len();
        self.data[r * self.n_col + c]
    }

    /// Overwrite element `(r, c)`.
    pub fn set(&mut self, r: usize, c: usize, val: T)
        requires
            old(self)@.wf(),
            r < old(self).n_row,
            c < old(self).n_col,
        ensures
            final(self)@.rows == old(self)@.rows,
            final(self)@.cols == old(self)@.cols,
            final(self)@.elems == old(self)@.elems.update(
                r as int * old(self)@.cols + c as int,
                val,
            ),
            final(self)@.wf(),
    {
        proof {
            lemma_flat_index(r as int, c as int, self.n_row as int, self.n_col as int);
        }
        // the buffer length bounds the flat index within usize
        let len = self.data.len();
        let i = r * self.n_col + c;
        self.data.set(i, val);
    }

    /// Replace the buffer by its transpose and swap the dimensions. The
    /// new buffer is built in full before it replaces the old one.
    pub fn transpose(&mut self)
        requires
            old(self)@.wf(),
        ensures
            final(self)@ == transpose_s(old(self)@),
            final(self)@.wf(),
    {
        let ghost t = transpose_s(old(self)@);
        let mut new_data: Vec<T> = Vec::new();
        let rows = self.n_row;
        let cols = self.n_col;
        for rr in 0..cols
            invariant
                self@ == old(self)@,
                self@.wf(),
                rows == self.n_row,
                cols == self.n_col,
                t == transpose_s(self@),
                new_data@.len() == rr * rows,
                forall|n: int| 0 <= n < new_data@.len() ==> new_data@[n] == t.elems[n],
        {
            for cc in 0..rows
                invariant
                    self@ == old(self)@,
                    self@.wf(),
                    rows == self.n_row,
                    cols == self.n_col,
                    rr < cols,
                    t == transpose_s(self@),
                    new_data@.len() == rr * rows + cc,
                    forall|n: int| 0 <= n < new_data@.len() ==> new_data@[n] == t.elems[n],
            {
                let v = self.get(cc, rr);
                proof {
                    lemma_flat_index(rr as int, cc as int, cols as int, rows as int);
                    assert((cols as int) * (rows as int) == (rows as int) * (cols as int))
                        by (nonlinear_arith);
                    assert(t.elems.len() == (rows as int) * (cols as int));
                    assert((rr as int) * (rows as int) + (cc as int) < t.elems.len());
                    assert(t.elems[rr * rows + cc] == self@.idx(cc as int, rr as int));
                }
                new_data.push(v);
            }
            proof {
                assert((rr + 1) * rows == rr * rows + rows) by (nonlinear_arith);
            }
        }
        proof {
            assert(new_data@.len() == cols * rows);
            assert(t.elems.len() == rows * cols) by (nonlinear_arith)
                requires
                    t.elems.len() == self@.rows * self@.cols,
                    self@.rows == rows,
                    self@.cols == cols;
            assert(cols * rows == rows * cols) by (nonlinear_arith);
            assert(new_data@ =~= t.elems);
        }
        self.data = new_data;
        let tmp = self.n_col;
        self.n_col = self.n_row;
        self.n_row = tmp;
        proof {
            assert(self@.elems =~= t.elems);
        }
    }
}

/// The dot product of row `i` of `a` with column `j` of `b`, accumulated
/// from zero in the order `k = 0 .. k_end` — the exact order the engine
/// uses.
pub open spec fn dot_s<T: Scalar>(a: MatView<T>, b: MatView<T>, i: int, j: int, k_end: int) -> T
    decreases k_end,
{
    if k_end <= 0 {
        T::zero_s()
    } else {
        dot_s(a, b, i, j, k_end - 1).plus_s(a.idx(i, k_end - 1).times_s(b.idx(k_end - 1, j)))
    }
}

/// The matrix product image: shape `(a.rows, b.cols)`, element `(i, j)`
/// the dot product of row `i` of `a` with column `j` of `b`.
pub open spec fn mat_mul_s<T: Scalar>(a: MatView<T>, b: MatView<T>) -> MatView<T> {
    MatView {
        rows: a.rows,
        cols: b.cols,
        elems: Seq::new(
            a.rows * b.cols,
            |n: int| dot_s(a, b, n / (b.cols as int), n % (b.cols as int), a.cols as int),
        ),
    }
}

/// Every element multiplied by `s`.
pub open spec fn scale_s<T: Scalar>(m: MatView<T>, s: T) -> MatView<T> {
    MatView {
        rows: m.rows,
        cols: m.cols,
        elems: Seq::new(m.elems.len() as nat, |n: int| m.elems[n].times_s(s)),
    }
}

/// Rows stacked below rows: equal column counts, element sequences
/// appended.
pub open spec fn concat_rows_s<T>(m: MatView<T>, o: MatView<T>) -> MatView<T> {
    MatView { rows: m.rows + o.rows, cols: m.cols, elems: m.elems + o.elems }
}

/// Columns grown to the right: equal row counts, each row of `m` followed
/// by the same row of `o`.
pub open spec fn concat_cols_s<T>(m: MatView<T>, o: MatView<T>) -> MatView<T> {
    MatView {
        rows: m.rows,
        cols: m.cols + o.cols,
        elems: Seq::new(
            m.rows * (m.cols + o.cols),
            |n: int|
                {
                    let w = m.cols as int + o.cols as int;
                    if n % w < m.cols {
                        m.idx(n / w, n % w)
                    } else {
                        o.idx(n / w, n % w - m.cols)
                    }
                },
        ),
    }
}

/// The running maximum of the first `k` elements of row `r`, folded from
/// the row's first element.
pub open spec fn row_max_s<T: Scalar>(m: MatView<T>, r: int, k: int) -> T
    decreases k,
{
    if k <= 1 {
        m.idx(r, 0)
    } else {
        row_max_s(m, r, k - 1).max_s(m.idx(r, k - 1))
    }
}

/// The running sum of `exp(x - row_max)` over the first `k` elements of
/// row `r`, accumulated from zero.
pub open spec fn row_expsum_s<T: Scalar>(m: MatView<T>, r: int, k: int) -> T
    decreases k,
{
    if k <= 0 {
        T::zero_s()
    } else {
        row_expsum_s(m, r, k - 1).plus_s(
            m.idx(r, k - 1).minus_s(row_max_s(m, r, m.cols as int)).exp_s(),
        )
    }
}

/// The numerically stable per-row softmax image: each element becomes
/// `exp(x - row_max) / row_expsum`.
pub open spec fn softmax_s<T: Scalar>(m: MatView<T>) -> MatView<T> {
    MatView {
        rows: m.rows,
        cols: m.cols,
        elems: Seq::new(
            m.elems.len() as nat,
            |n: int|
                {
                    let r = n / (m.cols as int);
                    m.idx(r, n % (m.cols as int)).minus_s(row_max_s(m, r, m.cols as int)).exp_s()
                        .divide_s(row_expsum_s(m, r, m.cols as int))
                },
        ),
    }
}

/// The gating nonlinearity applied element-wise.
pub open spec fn gelu_map_s<T: Scalar>(m: MatView<T>) -> MatView<T> {
    MatView {
        rows: m.rows,
        cols: m.cols,
        elems: Seq::new(m.elems.len() as nat, |n: int| gelu_s(m.elems[n])),
    }
}

/// The matrix product `a x b`. Requires `a.cols == b.rows`; a
/// shape-incompatible pair is reported with all four dimensions. Element
/// `(i, j)` of the result is the dot product of row `i` of `a` with
/// column `j` of `b`, accumulated in the order `k = 0 .. a.cols`.
pub fn matmul<T: Scalar>(a: &Matrix<T>, b: &Matrix<T>) -> (r: Result<Matrix<T>, EngineError>)
    requires
        a@.wf(),
        b@.wf(),
    ensures
        r is Ok <==> a.n_col == b.n_row,
        r is Ok ==> (r->Ok_0)@ == mat_mul_s(a@, b@) && (r->Ok_0)@.wf(),
        r is Err ==> r->Err_0 == (EngineError::DimensionMismatch {
            a_rows: a.n_row,
            a_cols: a.n_col,
            b_rows: b.n_row,
            b_cols: b.n_col,
        }),
{
    if a.n_col != b.n_row {
        return Err(
            EngineError::DimensionMismatch {
                a_rows: a.n_row,
                a_cols: a.n_col,
                b_rows: b.n_row,
                b_cols: b.n_col,
            },
        );
    }
    let ghost mm = mat_mul_s(a@, b@);
    let rows = a.n_row;
    let cols = b.n_col;
    let mut data: Vec<T> = Vec::new();
    // seed the zero-length entry of the loop's length invariant
    assert(data@.len() == 0);
    assert(0 * (cols as int) == 0);
    for i in 0..rows
        invariant
            a@.wf(),
            b@.wf(),
            a.n_col == b.n_row,
            rows == a.n_row,
            cols == b.n_col,
            mm == mat_mul_s(a@, b@),
            data@.len() == i * cols,
            forall|n: int| 0 <= n < data@.len() ==> data@[n] == mm.elems[n],
    {
        for j in 0..cols
            invariant
                a@.wf(),
                b@.wf(),
                a.n_col == b.n_row,
                rows == a.n_row,
                cols == b.n_col,
                i < rows,
                mm == mat_mul_s(a@, b@),
                data@.len() == i * cols + j,
                forall|n: int| 0 <= n < data@.len() ==> data@[n] == mm.elems[n],
        {
            let mut acc = T::zero();
            for k in 0..a.n_col
                invariant
                    a@.wf(),
                    b@.wf(),
                    a.n_col == b.n_row,
                    i < a.n_row,
                    j < b.n_col,
                    acc == dot_s(a@, b@, i as int, j as int, k as int),
            {
                acc = acc.plus(a.get(i, k).times(b.get(k, j)));
            }
            proof {
                lemma_flat_index(i as int, j as int, rows as int, cols as int);
                assert(mm.elems.len() == (rows as int) * (cols as int));
                assert(mm.elems[i * cols + j] == dot_s(a@, b@, i as int, j as int, a.n_col as int));
            }
            data.push(acc);
        }
        proof {
            assert((i + 1) * cols == i * cols + cols) by (nonlinear_arith);
        }
    }
    proof {
        assert(data@ =~= mm.elems);
    }
    Ok(Matrix { data, n_row: rows, n_col: cols })
}

/// The matrix product written into an existing output tensor. The output
/// must already have shape `(a.rows, b.cols)`, and `a.cols` must equal
/// `b.rows`; otherwise the shapes are reported and the output is left
/// untouched.
pub fn matmul_into<T: Scalar>(output: &mut Matrix<T>, a: &Matrix<T>, b: &Matrix<T>) -> (r: Result<
    (),
    EngineError,
>)
    requires
        old(output)@.wf(),
        a@.wf(),
        b@.wf(),
    ensures
        r is Ok <==> (old(output).n_row == a.n_row && old(output).n_col == b.n_col && a.n_col
            == b.n_row),
        r is Ok ==> final(output)@ == mat_mul_s(a@, b@) && final(output)@.wf(),
        r is Err ==> final(output)@ == old(output)@ && r->Err_0 == (
        EngineError::DimensionMismatch {
            a_rows: a.n_row,
            a_cols: a.n_col,
            b_rows: b.n_row,
            b_cols: b.n_col,
        }),
{
    if !(output.n_row == a.n_row && output.n_col == b.n_col && a.n_col == b.n_row) {
        return Err(
            EngineError::DimensionMismatch {
                a_rows: a.n_row,
                a_cols: a.n_col,
                b_rows: b.n_row,
                b_cols: b.n_col,
            },
        );
    }
    let m = match matmul(a, b) {
        Ok(m) => m,
        Err(e) => {
            return Err(e);
        },
    };
    output.data = m.data;
    output.n_row = m.n_row;
    output.n_col = m.n_col;
    Ok(())
}

impl<T: Scalar> Matrix<T> {
    /// Append `other` along the given axis: `0` stacks rows (equal column
    /// counts required), `1` grows every row to the right (equal row
    /// counts required). A mismatch is reported with both shapes and
    /// leaves the tensor untouched. The buffer is re-laid-out, never
    /// aliased.
    pub fn concat(&mut self, other: Matrix<T>, axis: usize) -> (r: Result<(), EngineError>)
        requires
            old(self)@.wf(),
            other@.wf(),
            axis == 0 || axis == 1,
            old(self).n_row + other.n_row <= usize::MAX,
            old(self).n_col + other.n_col <= usize::MAX,
        ensures
            r is Ok <==> (if axis == 0 {
                old(self)@.cols == other@.cols
            } else {
                old(self)@.rows == other@.rows
            }),
            axis == 0 && r is Ok ==> final(self)@ == concat_rows_s(old(self)@, other@),
            axis == 1 && r is Ok ==> final(self)@ == concat_cols_s(old(self)@, other@),
            r is Ok ==> final(self)@.wf(),
            r is Err ==> final(self)@ == old(self)@ && r->Err_0 == (
            EngineError::DimensionMismatch {
                a_rows: old(self).n_row,
                a_cols: old(self).n_col,
                b_rows: other.n_row,
                b_cols: other.n_col,
            }),
    {
        if axis == 0 {
            if other.n_col != self.n_col {
                return Err(
                    EngineError::DimensionMismatch {
                        a_rows: self.n_row,
                        a_cols: self.n_col,
                        b_rows: other.n_row,
                        b_cols: other.n_col,
                    },
                );
            }
            let mut o = other;
            self.data.append(&mut o.data);
            self.n_row = self.n_row + o.n_row;
            proof {
                let r1 = old(self)@.rows;
                let r2 = other@.rows;
                let cw = old(self)@.cols;
                assert((r1 + r2) * cw == r1 * cw + r2 * cw) by (nonlinear_arith);
            }
            Ok(())
        } else {
            if other.n_row != self.n_row {
                return Err(
                    EngineError::DimensionMismatch {
                        a_rows: self.n_row,
                        a_cols: self.n_col,
                        b_rows: other.n_row,
                        b_cols: other.n_col,
                    },
                );
            }
            let ghost cc = concat_cols_s(self@, other@);
            let rows = self.n_row;
            let w = self.n_col + other.n_col;
            let mut new_data: Vec<T> = Vec::new();
            // seed the zero-length entry of the loop's length invariant
            assert(new_data@.len() == 0);
            assert(0 * (w as int) == 0);
            for r in 0..rows
                invariant
                    self@ == old(self)@,
                    self@.wf(),
                    other@.wf(),
                    rows == self.n_row,
                    rows == other.n_row,
                    w == self.n_col + other.n_col,
                    cc == concat_cols_s(self@, other@),
                    new_data@.len() == r * w,
                    forall|n: int| 0 <= n < new_data@.len() ==> new_data@[n] == cc.elems[n],
            {
                for c in 0..self.n_col
                    invariant
                        self@ == old(self)@,
                        self@.wf(),
                        other@.wf(),
                        rows == self.n_row,
                        rows == other.n_row,
                        r < rows,
                        w == self.n_col + other.n_col,
                        cc == concat_cols_s(self@, other@),
                        new_data@.len() == r * w + c,
                        forall|n: int| 0 <= n < new_data@.len() ==> new_data@[n] == cc.elems[n],
                {
                    let v = self.get(r, c);
                    proof {
                        lemma_flat_index(r as int, c as int, rows as int, w as int);
                        assert(cc.elems.len() == (rows as int) * (w as int));
                        assert(cc.elems[r * w + c] == self@.idx(r as int, c as int));
                    }
                    new_data.push(v);
                }
                for c in 0..other.n_col
                    invariant
                        self@ == old(self)@,
                        self@.wf(),
                        other@.wf(),
                        rows == self.n_row,
                        rows == other.n_row,
                        r < rows,
                        w == self.n_col + other.n_col,
                        cc == concat_cols_s(self@, other@),
                        new_data@.len() == r * w + self.n_col + c,
                        forall|n: int| 0 <= n < new_data@.len() ==> new_data@[n] == cc.elems[n],
                {
                    let v = other.get(r, c);
                    proof {
                        let p = (r as int) * (w as int) + self.n_col + c;
                        lemma_flat_index(r as int, (self.n_col + c) as int, rows as int, w as int);
                        assert(cc.elems.len() == (rows as int) * (w as int));
                        assert(cc.elems[p] == other@.idx(r as int, c as int));
                    }
                    new_data.push(v);
                }
                proof {
                    assert((r + 1) * w == r * w + w) by (nonlinear_arith);
                }
            }
            proof {
                assert(new_data@ =~= cc.elems);
            }
            self.data = new_data;
            self.n_col = w;
            Ok(())
        }
    }

    /// Multiply every element by `scaler`.
    pub fn scale_by(&mut self, scaler: T)
        requires
            old(self)@.wf(),
        ensures
            final(self)@ == scale_s(old(self)@, scaler),
            final(self)@.wf(),
    {
        let len = self.data.len();
        for i in 0..len
            invariant
                self@.wf(),
                self.n_row == old(self).n_row,
                self.n_col == old(self).n_col,
                len == self.data@.len(),
                len == old(self)@.elems.len(),
                forall|n: int| 0 <= n < i ==> self.data@[n] == old(self)@.elems[n].times_s(scaler),
                forall|n: int| i <= n < len ==> self.data@[n] == old(self)@.elems[n],
        {
            let v = self.data[i];
            let w = v.times(scaler);
            self.data.set(i, w);
        }
        proof {
            assert(self@.elems =~= scale_s(old(self)@, scaler).elems);
        }
    }

    /// The numerically stable per-row softmax: subtract the row maximum,
    /// exponentiate, normalize by the row's sum of exponentials. A matrix
    /// with rows of length zero is rejected as invalid input and left
    /// untouched.
    pub fn softmax(&mut self) -> (res: Result<(), EngineError>)
        requires
            old(self)@.wf(),
        ensures
            res is Ok <==> !(old(self).n_row > 0 && old(self).n_col == 0),
            res is Ok ==> final(self)@ == softmax_s(old(self)@),
            res is Err ==> final(self)@ == old(self)@ && res->Err_0 == (
            EngineError::InvalidInput { value: old(self).n_col }),
    {
        if self.n_row > 0 && self.n_col == 0 {
            return Err(EngineError::InvalidInput { value: self.n_col });
        }
        let ghost target = softmax_s(self@);
        let rows = self.n_row;
        let cols = self.n_col;
        let mut new_data: Vec<T> = Vec::new();
        // seed the zero-length entry of the loop's length invariant
        assert(new_data@.len() == 0);
        assert(0 * (cols as int) == 0);
        for r in 0..rows
            invariant
                self@ == old(self)@,
                self@.wf(),
                rows == self.n_row,
                cols == self.n_col,
                rows > 0 ==> cols > 0,
                target == softmax_s(self@),
                new_data@.len() == r * cols,
                forall|n: int| 0 <= n < new_data@.len() ==> new_data@[n] == target.elems[n],
        {
            let mut mx = self.get(r, 0);
            for c in 1..cols
                invariant
                    self@ == old(self)@,
                    self@.wf(),
                    rows == self.n_row,
                    cols == self.n_col,
                    r < rows,
                    cols > 0,
                    mx == row_max_s(self@, r as int, c as int),
            {
                mx = mx.max_of(self.get(r, c));
            }
            let mut sum = T::zero();
            for c in 0..cols
                invariant
                    self@ == old(self)@,
                    self@.wf(),
                    rows == self.n_row,
                    cols == self.n_col,
                    r < rows,
                    cols > 0,
                    mx == row_max_s(self@, r as int, cols as int),
                    sum == row_expsum_s(self@, r as int, c as int),
            {
                sum = sum.plus(self.get(r, c).minus(mx).exp());
            }
            for c in 0..cols
                invariant
                    self@ == old(self)@,
                    self@.wf(),
                    rows == self.n_row,
                    cols == self.n_col,
                    r < rows,
                    cols > 0,
                    mx == row_max_s(self@, r as int, cols as int),
                    sum == row_expsum_s(self@, r as int, cols as int),
                    target == softmax_s(self@),
                    new_data@.len() == r * cols + c,
                    forall|n: int| 0 <= n < new_data@.len() ==> new_data@[n] == target.elems[n],
            {
                let e = self.get(r, c).minus(mx).exp().divide(sum);
                proof {
                    lemma_flat_index(r as int, c as int, rows as int, cols as int);
                    assert(target.elems.len() == self@.elems.len());
                    assert(target.elems[r * cols + c] == self@.idx(r as int, c as int).minus_s(
                        row_max_s(self@, r as int, cols as int),
                    ).exp_s().divide_s(row_expsum_s(self@, r as int, cols as int)));
                }
                new_data.push(e);
            }
            proof {
                assert((r + 1) * cols == r * cols + cols) by (nonlinear_arith);
            }
        }
        proof {
            assert(new_data@ =~= target.elems);
        }
        self.data = new_data;
        Ok(())
    }
}

/// The gating nonlinearity applied to every element of the tensor.
pub fn gelu<T: Scalar>(x: &mut Matrix<T>)
    requires
        old(x)@.wf(),
    ensures
        final(x)@ == gelu_map_s(old(x)@),
        final(x)@.wf(),
{
    let len = x.data.len();
    for i in 0..len
        invariant
            x@.wf(),
            x.n_row == old(x).n_row,
            x.n_col == old(x).n_col,
            len == x.data@.len(),
            len == old(x)@.elems.len(),
            forall|n: int| 0 <= n < i ==> x.data@[n] == gelu_s(old(x)@.elems[n]),
            forall|n: int| i <= n < len ==> x.data@[n] == old(x)@.elems[n],
    {
        let v = x.data[i];
        let cube = v.times(v).times(v);
        let inner = T::gelu_root().times(v.plus(T::gelu_cubic().times(cube)));
        let w = T::half().times(v).times(T::one().plus(inner.tanh()));
        proof {
            assert(w == gelu_s(v));
        }
        x.data.set(i, w);
    }
    proof {
        assert(x@.elems =~= gelu_map_s(old(x)@).elems);
    }
}

} // verus!
