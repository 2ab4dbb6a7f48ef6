//! Dense 2-D fixed-point matrices.
//!
//! A matrix has a fixed row and column count, set at construction; every
//! operation returns a new matrix, and any operation whose operands'
//! declared dimensions disagree fails with `ShapeMismatch` rather than
//! truncate or pad. Contracts speak of [`MatModel`], the mathematical view
//! of a matrix: its dimensions and its flat row-major sequence of values.

use vstd::prelude::*;
use vstd::arithmetic::div_mod::lemma_fundamental_div_mod_converse;
use crate::errors::NeuralError;
use crate::fixed::{ints_of, qadd_s, qsub_s, qmul_s, qadd, qsub, qmul};

verus! {

/// The engine's capacity bound on each matrix dimension.
pub const MAX_DIM: usize = 32768;

/// The mathematical view of a matrix: dimensions and a flat row-major
/// sequence of fixed-point values.
#[verifier::ext_equal]
pub struct MatModel {
    pub rows: nat,
    pub cols: nat,
    pub d: Seq<int>,
}

/// Element `(r, c)` of a matrix model.
pub open spec fn mat_at(m: MatModel, r: int, c: int) -> int {
    m.d[r * m.cols + c]
}

/// Well-formedness: positive dimensions within capacity, and exactly
/// `rows * cols` stored values.
pub open spec fn mm_wf(m: MatModel) -> bool {
    &&& 1 <= m.rows <= MAX_DIM as int
    &&& 1 <= m.cols <= MAX_DIM as int
    &&& m.d.len() == m.rows * m.cols
}

/// The all-zero matrix model.
pub open spec fn mm_zeros(rows: nat, cols: nat) -> MatModel {
    MatModel { rows, cols, d: Seq::new(rows * cols, |i: int| 0) }
}

/// The saturating dot product of row `r` of `a` with column `c` of `b`,
/// over the first `k` terms.
pub open spec fn dot_s(a: MatModel, b: MatModel, r: int, c: int, k: int) -> int
    decreases k,
{
    if k <= 0 {
        0
    } else {
        qadd_s(dot_s(a, b, r, c, k - 1), qmul_s(mat_at(a, r, k - 1), mat_at(b, k - 1, c)))
    }
}

/// The matrix product.
pub open spec fn mm_mul(a: MatModel, b: MatModel) -> MatModel {
    MatModel {
        rows: a.rows,
        cols: b.cols,
        d: Seq::new(
            a.rows * b.cols,
            |i: int| dot_s(a, b, i / (b.cols as int), i % (b.cols as int), a.cols as int),
        ),
    }
}

/// Elementwise saturating sum.
pub open spec fn mm_add(a: MatModel, b: MatModel) -> MatModel {
    MatModel { rows: a.rows, cols: a.cols, d: Seq::new(a.d.len(), |i: int| qadd_s(a.d[i], b.d[i])) }
}

/// Elementwise saturating difference.
pub open spec fn mm_sub(a: MatModel, b: MatModel) -> MatModel {
    MatModel { rows: a.rows, cols: a.cols, d: Seq::new(a.d.len(), |i: int| qsub_s(a.d[i], b.d[i])) }
}

/// Elementwise saturating product.
pub open spec fn mm_hadamard(a: MatModel, b: MatModel) -> MatModel {
    MatModel { rows: a.rows, cols: a.cols, d: Seq::new(a.d.len(), |i: int| qmul_s(a.d[i], b.d[i])) }
}

/// A single-column bias added to every column of `a`.
pub open spec fn mm_add_bias(a: MatModel, b: MatModel) -> MatModel {
    MatModel {
        rows: a.rows,
        cols: a.cols,
        d: Seq::new(a.d.len(), |i: int| qadd_s(a.d[i], b.d[i / (a.cols as int)])),
    }
}

/// The transpose.
pub open spec fn mm_transpose(a: MatModel) -> MatModel {
    MatModel {
        rows: a.cols,
        cols: a.rows,
        d: Seq::new(a.d.len(), |i: int| mat_at(a, i % (a.rows as int), i / (a.rows as int))),
    }
}

/// Every element scaled by the fixed-point factor `k`.
pub open spec fn mm_scale(a: MatModel, k: int) -> MatModel {
    MatModel { rows: a.rows, cols: a.cols, d: Seq::new(a.d.len(), |i: int| qmul_s(k, a.d[i])) }
}

/// The gradient step `a - k * g`, elementwise.
pub open spec fn mm_sub_scaled(a: MatModel, g: MatModel, k: int) -> MatModel {
    MatModel {
        rows: a.rows,
        cols: a.cols,
        d: Seq::new(a.d.len(), |i: int| qsub_s(a.d[i], qmul_s(k, g.d[i]))),
    }
}

/// Column `c` of a matrix model, as a vector.
pub open spec fn col_s(m: MatModel, c: int) -> Seq<int> {
    Seq::new(m.rows, |r: int| mat_at(m, r, c))
}

/// A plain vector seen as a single-column matrix model.
pub open spec fn col_model(v: Seq<i64>) -> MatModel {
    MatModel { rows: v.len(), cols: 1, d: ints_of(v) }
}

/// Flat row-major indexing: its bounds and its inversion by division.
pub proof fn lemma_flat_index(r: int, c: int, rows: int, cols: int)
    requires
        0 <= r < rows,
        0 <= c < cols,
    ensures
        0 <= r * cols + c < rows * cols,
        (r * cols + c) / cols == r,
        (r * cols + c) % cols == c,
{
    assert(0 <= r * cols + c < rows * cols) by (nonlinear_arith)
        requires
            0 <= r < rows,
            0 <= c < cols,
    ;
    lemma_fundamental_div_mod_converse(r * cols + c, cols, r, c);
}

/// A dense fixed-point matrix.
#[derive(Clone, Debug)]
pub struct Matrix {
    pub rows: usize,
    pub cols: usize,
    pub data: Vec<i64>,
}

impl View for Matrix {
    type V = MatModel;

    open spec fn view(&self) -> MatModel {
        MatModel { rows: self.rows as nat, cols: self.cols as nat, d: ints_of(self.data@) }
    }
}

impl Matrix {
    /// Well-formedness of the live matrix.
    pub open spec fn wf(&self) -> bool {
        mm_wf(self@)
    }

    /// The row count.
    pub fn get_rows(&self) -> (r: usize)
        ensures
            r as int == self@.rows,
    {
        self.rows
    }

    /// The column count.
    pub fn get_cols(&self) -> (r: usize)
        ensures
            r as int == self@.cols,
    {
        self.cols
    }

    /// One element.
    pub fn get(&self, r: usize, c: usize) -> (v: i64)
        requires
            self.wf(),
            r < self@.rows,
            c < self@.cols,
        ensures
            v as int == mat_at(self@, r as int, c as int),
    {
        proof {
            lemma_flat_index(r as int, c as int, self@.rows as int, self@.cols as int);
            assert((r as int) * (self.cols as int) + (c as int) < 0x40000000int)
                by (nonlinear_arith)
                requires
                    0 <= (r as int) < 32768,
                    0 < (self.cols as int) <= 32768,
                    0 <= (c as int) < (self.cols as int),
            ;
        }
        self.data[r * self.cols + c]
    }

    /// An element-for-element copy.
    pub fn clone_mat(&self) -> (r: Matrix)
        ensures
            r@ == self@,
    {
        let data = self.flat();
        let r = Matrix { rows: self.rows, cols: self.cols, data };
        proof {
            assert(r@ =~= self@);
        }
        r
    }

    /// The flat row-major contents.
    pub fn flat(&self) -> (v: Vec<i64>)
        ensures
            ints_of(v@) == self@.d,
    {
        let mut v: Vec<i64> = Vec::new();
        let mut i: usize = 0;
        while i < self.data.len()
            invariant
                0 <= i <= self.data@.len(),
                v@.len() == i,
                forall|j: int| 0 <= j < i ==> v@[j] == self.data@[j],
            decreases self.data@.len() - i,
        {
            v.push(self.data[i]);
            i = i + 1;
        }
        proof {
            assert(ints_of(v@) =~= self@.d);
        }
        v
    }

    /// The all-zero matrix of the given shape; refused when a dimension is
    /// zero or above capacity.
    pub fn zeros(rows: usize, cols: usize) -> (res: Result<Matrix, NeuralError>)
        ensures
            match res {
                Ok(m) => {
                    &&& 1 <= rows <= MAX_DIM && 1 <= cols <= MAX_DIM
                    &&& m@ =~= mm_zeros(rows as nat, cols as nat)
                    &&& m.wf()
                },
                Err(e) => {
                    &&& !(1 <= rows <= MAX_DIM && 1 <= cols <= MAX_DIM)
                    &&& e == NeuralError::ShapeMismatch
                },
            },
    {
        if rows < 1 || rows > MAX_DIM || cols < 1 || cols > MAX_DIM {
            return Err(NeuralError::ShapeMismatch);
        }
        proof {
            assert((rows as int) * (cols as int) <= 0x40000000int) by (nonlinear_arith)
                requires
                    0 < (rows as int) <= 32768,
                    0 < (cols as int) <= 32768,
            ;
        }
        let n = rows * cols;
        let mut data: Vec<i64> = Vec::new();
        let mut i: usize = 0;
        while i < n
            invariant
                0 <= i <= n,
                data@.len() == i,
                forall|j: int| 0 <= j < i ==> data@[j] == 0i64,
            decreases n - i,
        {
            data.push(0);
            i = i + 1;
        }
        let m = Matrix { rows, cols, data };
        proof {
            assert(m@ =~= mm_zeros(rows as nat, cols as nat));
        }
        Ok(m)
    }

    /// Builds a matrix from rows of equal length; ragged, empty, or
    /// over-capacity input is refused.
    pub fn from_rows(rd: Vec<Vec<i64>>) -> (res: Result<Matrix, NeuralError>)
        ensures
            match res {
                Ok(m) => {
                    &&& rect_ok(rd@)
                    &&& m.wf()
                    &&& m@.rows == rd@.len()
                    &&& m@.cols == rd@[0]@.len()
                    &&& forall|r: int, c: int|
                        0 <= r < rd@.len() && 0 <= c < rd@[0]@.len()
                            ==> mat_at(m@, r, c) == rd@[r]@[c] as int
                },
                Err(e) => !rect_ok(rd@) && e == NeuralError::ShapeMismatch,
            },
    {
        if rd.len() < 1 || rd.len() > MAX_DIM {
            return Err(NeuralError::ShapeMismatch);
        }
        let cols = rd[0].len();
        if cols < 1 || cols > MAX_DIM {
            return Err(NeuralError::ShapeMismatch);
        }
        let rows = rd.len();
        let mut data: Vec<i64> = Vec::new();
        let mut r: usize = 0;
        while r < rows
            invariant
                0 <= r <= rows,
                rows == rd@.len(),
                1 <= rows <= MAX_DIM,
                1 <= cols <= MAX_DIM,
                cols == rd@[0]@.len(),
                data@.len() == r * cols,
                forall|j: int| 0 <= j < r ==> rd@[j]@.len() == cols,
                forall|i: int| 0 <= i < data@.len()
                    ==> data@[i] == rd@[i / (cols as int)]@[i % (cols as int)],
            decreases rows - r,
    {
            let row = &rd[r];
            if row.len() != cols {
                return Err(NeuralError::ShapeMismatch);
            }
            let mut c: usize = 0;
            while c < cols
                invariant
                    0 <= c <= cols,
                    r < rows,
                    rows == rd@.len(),
                    1 <= rows <= MAX_DIM,
                    1 <= cols <= MAX_DIM,
                    cols == rd@[0]@.len(),
                    rd@[r as int]@.len() == cols,
                    data@.len() == r * cols + c,
                    forall|j: int| 0 <= j < r ==> rd@[j]@.len() == cols,
                    forall|i: int| 0 <= i < data@.len()
                        ==> data@[i] == rd@[i / (cols as int)]@[i % (cols as int)],
                decreases cols - c,
            {
                proof {
                    lemma_flat_index(r as int, c as int, rows as int, cols as int);
                    assert(data@.len() == (r as int) * (cols as int) + (c as int));
                }
                data.push(rd[r][c]);
                c = c + 1;
            }
            proof {
                assert(data@.len() == (r + 1) * (cols as int)) by (nonlinear_arith)
                    requires
                        data@.len() == (r as int) * (cols as int) + (cols as int),
                ;
            }
            r = r + 1;
        }
        let m = Matrix { rows, cols, data };
        proof {
            assert forall|rr: int, cc: int|
                0 <= rr < rd@.len() && 0 <= cc < rd@[0]@.len()
                    implies mat_at(m@, rr, cc) == rd@[rr]@[cc] as int by {
                lemma_flat_index(rr, cc, rows as int, cols as int);
                assert(data@[rr * (cols as int) + cc]
                    == rd@[(rr * (cols as int) + cc) / (cols as int)]@[
                        (rr * (cols as int) + cc) % (cols as int)]);
            }
        }
        Ok(m)
    }

    /// The matrix product; refused when the inner dimensions disagree.
    pub fn multiply(&self, other: &Matrix) -> (res: Result<Matrix, NeuralError>)
        requires
            self.wf(),
            other.wf(),
        ensures
            match res {
                Ok(m) => {
                    &&& self@.cols == other@.rows
                    &&& m@ =~= mm_mul(self@, other@)
                    &&& m.wf()
                },
                Err(e) => self@.cols != other@.rows && e == NeuralError::ShapeMismatch,
            },
    {
        if self.cols != other.rows {
            return Err(NeuralError::ShapeMismatch);
        }
        let rows = self.rows;
        let cols = other.cols;
        let kk = self.cols;
        let mut data: Vec<i64> = Vec::new();
        let mut r: usize = 0;
        while r < rows
            invariant
                0 <= r <= rows,
                self.wf(),
                other.wf(),
                self@.cols == other@.rows,
                rows == self@.rows,
                cols == other@.cols,
                kk == self@.cols,
                data@.len() == r * cols,
                forall|i: int| 0 <= i < data@.len()
                    ==> data@[i] as int == mm_mul(self@, other@).d[i],
            decreases rows - r,
        {
            let mut c: usize = 0;
            while c < cols
                invariant
                    0 <= c <= cols,
                    r < rows,
                    self.wf(),
                    other.wf(),
                    self@.cols == other@.rows,
                    rows == self@.rows,
                    cols == other@.cols,
                    kk == self@.cols,
                    data@.len() == r * cols + c,
                    forall|i: int| 0 <= i < data@.len()
                        ==> data@[i] as int == mm_mul(self@, other@).d[i],
                decreases cols - c,
            {
                let mut acc: i64 = 0;
                let mut k: usize = 0;
                while k < kk
                    invariant
                        0 <= k <= kk,
                        r < rows,
                        c < cols,
                        self.wf(),
                        other.wf(),
                        self@.cols == other@.rows,
                        rows == self@.rows,
                        cols == other@.cols,
                        kk == self@.cols,
                        acc as int == dot_s(self@, other@, r as int, c as int, k as int),
                    decreases kk - k,
                {
                    let a = self.get(r, k);
                    let b = other.get(k, c);
                    acc = qadd(acc, qmul(a, b));
                    k = k + 1;
                }
                proof {
                    lemma_flat_index(r as int, c as int, rows as int, cols as int);
                }
                data.push(acc);
                c = c + 1;
            }
            proof {
                assert(data@.len() == (r + 1) * (cols as int)) by (nonlinear_arith)
                    requires
                        data@.len() == (r as int) * (cols as int) + (cols as int),
                ;
            }
            r = r + 1;
        }
        proof {
            assert(data@.len() == (rows as int) * (cols as int));
        }
        let m = Matrix { rows, cols, data };
        proof {
            assert(m@ =~= mm_mul(self@, other@));
        }
        Ok(m)
    }

    /// Elementwise saturating sum; refused when the shapes differ.
    pub fn add(&self, other: &Matrix) -> (res: Result<Matrix, NeuralError>)
        requires
            self.wf(),
            other.wf(),
        ensures
            match res {
                Ok(m) => {
                    &&& self@.rows == other@.rows && self@.cols == other@.cols
                    &&& m@ =~= mm_add(self@, other@)
                    &&& m.wf()
                },
                Err(e) => {
                    &&& !(self@.rows == other@.rows && self@.cols == other@.cols)
                    &&& e == NeuralError::ShapeMismatch
                },
            },
    {
        if self.rows != other.rows || self.cols != other.cols {
            return Err(NeuralError::ShapeMismatch);
        }
        let n = self.data.len();
        let mut data: Vec<i64> = Vec::new();
        let mut i: usize = 0;
        while i < n
            invariant
                0 <= i <= n,
                n == self@.d.len(),
                self@.d.len() == other@.d.len(),
                data@.len() == i,
                forall|j: int| 0 <= j < i
                    ==> data@[j] as int == qadd_s(self@.d[j], other@.d[j]),
            decreases n - i,
        {
            data.push(qadd(self.data[i], other.data[i]));
            i = i + 1;
        }
        let m = Matrix { rows: self.rows, cols: self.cols, data };
        proof {
            assert(m@ =~= mm_add(self@, other@));
        }
        Ok(m)
    }

    /// Elementwise saturating difference; refused when the shapes differ.
    pub fn subtract(&self, other: &Matrix) -> (res: Result<Matrix, NeuralError>)
        requires
            self.wf(),
            other.wf(),
        ensures
            match res {
                Ok(m) => {
                    &&& self@.rows == other@.rows && self@.cols == other@.cols
                    &&& m@ =~= mm_sub(self@, other@)
                    &&& m.wf()
                },
                Err(e) => {
                    &&& !(self@.rows == other@.rows && self@.cols == other@.cols)
                    &&& e == NeuralError::ShapeMismatch
                },
            },
    {
        if self.rows != other.rows || self.cols != other.cols {
            return Err(NeuralError::ShapeMismatch);
        }
        let n = self.data.len();
        let mut data: Vec<i64> = Vec::new();
        let mut i: usize = 0;
        while i < n
            invariant
                0 <= i <= n,
                n == self@.d.len(),
                self@.d.len() == other@.d.len(),
                data@.len() == i,
                forall|j: int| 0 <= j < i
                    ==> data@[j] as int == qsub_s(self@.d[j], other@.d[j]),
            decreases n - i,
        {
            data.push(qsub(self.data[i], other.data[i]));
            i = i + 1;
        }
        let m = Matrix { rows: self.rows, cols: self.cols, data };
        proof {
            assert(m@ =~= mm_sub(self@, other@));
        }
        Ok(m)
    }

    /// Elementwise saturating product; refused when the shapes differ.
    pub fn hadamard(&self, other: &Matrix) -> (res: Result<Matrix, NeuralError>)
        requires
            self.wf(),
            other.wf(),
        ensures
            match res {
                Ok(m) => {
                    &&& self@.rows == other@.rows && self@.cols == other@.cols
                    &&& m@ =~= mm_hadamard(self@, other@)
                    &&& m.wf()
                },
                Err(e) => {
                    &&& !(self@.rows == other@.rows && self@.cols == other@.cols)
                    &&& e == NeuralError::ShapeMismatch
                },
            },
    {
        if self.rows != other.rows || self.cols != other.cols {
            return Err(NeuralError::ShapeMismatch);
        }
        let n = self.data.len();
        let mut data: Vec<i64> = Vec::new();
        let mut i: usize = 0;
        while i < n
            invariant
                0 <= i <= n,
                n == self@.d.len(),
                self@.d.len() == other@.d.len(),
                data@.len() == i,
                forall|j: int| 0 <= j < i
                    ==> data@[j] as int == qmul_s(self@.d[j], other@.d[j]),
            decreases n - i,
        {
            data.push(qmul(self.data[i], other.data[i]));
            i = i + 1;
        }
        let m = Matrix { rows: self.rows, cols: self.cols, data };
        proof {
            assert(m@ =~= mm_hadamard(self@, other@));
        }
        Ok(m)
    }

    /// Adds a single-column bias to every column; refused unless the bias
    /// has one column and as many rows as `self`.
    pub fn add_bias(&self, bias: &Matrix) -> (res: Result<Matrix, NeuralError>)
        requires
            self.wf(),
            bias.wf(),
        ensures
            match res {
                Ok(m) => {
                    &&& bias@.rows == self@.rows && bias@.cols == 1
                    &&& m@ =~= mm_add_bias(self@, bias@)
                    &&& m.wf()
                },
                Err(e) => {
                    &&& !(bias@.rows == self@.rows && bias@.cols == 1)
                    &&& e == NeuralError::ShapeMismatch
                },
            },
    {
        if bias.rows != self.rows || bias.cols != 1 {
            return Err(NeuralError::ShapeMismatch);
        }
        let n = self.data.len();
        let cols = self.cols;
        let mut data: Vec<i64> = Vec::new();
        let mut i: usize = 0;
        while i < n
            invariant
                0 <= i <= n,
                self.wf(),
                bias.wf(),
                n == self@.d.len(),
                cols == self@.cols,
                bias@.rows == self@.rows,
                bias@.cols == 1,
                data@.len() == i,
                forall|j: int| 0 <= j < i
                    ==> data@[j] as int == qadd_s(self@.d[j], bias@.d[j / (cols as int)]),
            decreases n - i,
        {
            proof {
                let ii = i as int;
                let ci = cols as int;
                let ri = self@.rows as int;
                assert(ci * (ii / ci) + (ii % ci) == ii && 0 <= ii % ci < ci) by {
                    vstd::arithmetic::div_mod::lemma_fundamental_div_mod(ii, ci);
                }
                assert(ii / ci < ri) by (nonlinear_arith)
                    requires
                        ci * (ii / ci) <= ii,
                        ii < ri * ci,
                        ci > 0,
                ;
            }
            data.push(qadd(self.data[i], bias.data[i / cols]));
            i = i + 1;
        }
        let m = Matrix { rows: self.rows, cols: self.cols, data };
        proof {
            assert(m@ =~= mm_add_bias(self@, bias@));
        }
        Ok(m)
    }

    /// The transpose.
    pub fn transpose(&self) -> (m: Matrix)
        requires
            self.wf(),
        ensures
            m@ =~= mm_transpose(self@),
            m.wf(),
    {
        let rows = self.rows;
        let cols = self.cols;
        let mut data: Vec<i64> = Vec::new();
        let mut c: usize = 0;
        while c < cols
            invariant
                0 <= c <= cols,
                self.wf(),
                rows == self@.rows,
                cols == self@.cols,
                data@.len() == c * rows,
                forall|i: int| 0 <= i < data@.len()
                    ==> data@[i] as int == mm_transpose(self@).d[i],
            decreases cols - c,
        {
            let mut r: usize = 0;
            while r < rows
                invariant
                    0 <= r <= rows,
                    c < cols,
                    self.wf(),
                    rows == self@.rows,
                    cols == self@.cols,
                    data@.len() == c * rows + r,
                    forall|i: int| 0 <= i < data@.len()
                        ==> data@[i] as int == mm_transpose(self@).d[i],
                decreases rows - r,
            {
                proof {
                    lemma_flat_index(c as int, r as int, cols as int, rows as int);
                }
                data.push(self.get(r, c));
                r = r + 1;
            }
            proof {
                assert(data@.len() == (c + 1) * (rows as int)) by (nonlinear_arith)
                    requires
                        data@.len() == (c as int) * (rows as int) + (rows as int),
                ;
            }
            c = c + 1;
        }
        let m = Matrix { rows: cols, cols: rows, data };
        proof {
            assert((cols as int) * (rows as int) == (rows as int) * (cols as int))
                by (nonlinear_arith);
            assert(m@ =~= mm_transpose(self@));
        }
        m
    }

    /// Every element scaled by the fixed-point factor `k`.
    pub fn scale(&self, k: i64) -> (m: Matrix)
        requires
            self.wf(),
        ensures
            m@ =~= mm_scale(self@, k as int),
            m.wf(),
    {
        let n = self.data.len();
        let mut data: Vec<i64> = Vec::new();
        let mut i: usize = 0;
        while i < n
            invariant
                0 <= i <= n,
                n == self@.d.len(),
                data@.len() == i,
                forall|j: int| 0 <= j < i ==> data@[j] as int == qmul_s(k as int, self@.d[j]),
            decreases n - i,
        {
            data.push(qmul(k, self.data[i]));
            i = i + 1;
        }
        let m = Matrix { rows: self.rows, cols: self.cols, data };
        proof {
            assert(m@ =~= mm_scale(self@, k as int));
        }
        m
    }

    /// The gradient step `self - k * g`; used by training to update weights
    /// and biases in place.
    pub fn sub_scaled(&self, g: &Matrix, k: i64) -> (res: Result<Matrix, NeuralError>)
        requires
            self.wf(),
            g.wf(),
        ensures
            match res {
                Ok(m) => {
                    &&& self@.rows == g@.rows && self@.cols == g@.cols
                    &&& m@ =~= mm_sub_scaled(self@, g@, k as int)
                    &&& m.wf()
                },
                Err(e) => {
                    &&& !(self@.rows == g@.rows && self@.cols == g@.cols)
                    &&& e == NeuralError::ShapeMismatch
                },
            },
    {
        if self.rows != g.rows || self.cols != g.cols {
            return Err(NeuralError::ShapeMismatch);
        }
        let n = self.data.len();
        let mut data: Vec<i64> = Vec::new();
        let mut i: usize = 0;
        while i < n
            invariant
                0 <= i <= n,
                n == self@.d.len(),
                self@.d.len() == g@.d.len(),
                data@.len() == i,
                forall|j: int| 0 <= j < i
                    ==> data@[j] as int == qsub_s(self@.d[j], qmul_s(k as int, g@.d[j])),
            decreases n - i,
        {
            data.push(qsub(self.data[i], qmul(k, g.data[i])));
            i = i + 1;
        }
        let m = Matrix { rows: self.rows, cols: self.cols, data };
        proof {
            assert(m@ =~= mm_sub_scaled(self@, g@, k as int));
        }
        Ok(m)
    }

    /// Column `c` as a plain vector.
    pub fn get_col(&self, c: usize) -> (v: Vec<i64>)
        requires
            self.wf(),
            c < self@.cols,
        ensures
            ints_of(v@) == col_s(self@, c as int),
    {
        let rows = self.rows;
        let mut v: Vec<i64> = Vec::new();
        let mut r: usize = 0;
        while r < rows
            invariant
                0 <= r <= rows,
                self.wf(),
                c < self@.cols,
                rows == self@.rows,
                v@.len() == r,
                forall|j: int| 0 <= j < r ==> v@[j] as int == mat_at(self@, j, c as int),
            decreases rows - r,
        {
            v.push(self.get(r, c));
            r = r + 1;
        }
        proof {
            assert(ints_of(v@) =~= col_s(self@, c as int));
        }
        v
    }

    /// A plain vector as a single-column matrix; refused when empty or over
    /// capacity.
    pub fn from_col(v: &Vec<i64>) -> (res: Result<Matrix, NeuralError>)
        ensures
            match res {
                Ok(m) => {
                    &&& 1 <= v@.len() <= MAX_DIM
                    &&& m@ =~= col_model(v@)
                    &&& m.wf()
                },
                Err(e) => !(1 <= v@.len() <= MAX_DIM) && e == NeuralError::ShapeMismatch,
            },
    {
        if v.len() < 1 || v.len() > MAX_DIM {
            return Err(NeuralError::ShapeMismatch);
        }
        let n = v.len();
        let mut data: Vec<i64> = Vec::new();
        let mut i: usize = 0;
        while i < n
            invariant
                0 <= i <= n,
                n == v@.len(),
                data@.len() == i,
                forall|j: int| 0 <= j < i ==> data@[j] == v@[j],
            decreases n - i,
        {
            data.push(v[i]);
            i = i + 1;
        }
        let m = Matrix { rows: n, cols: 1, data };
        proof {
            assert(m@ =~= col_model(v@));
        }
        Ok(m)
    }
}

/// Rows of equal positive length within the capacity bound.
pub open spec fn rect_ok(rs: Seq<Vec<i64>>) -> bool {
    &&& 1 <= rs.len() <= MAX_DIM as int
    &&& 1 <= rs[0]@.len() <= MAX_DIM as int
    &&& forall|i: int| 0 <= i < rs.len() ==> #[trigger] rs[i]@.len() == rs[0]@.len()
}

} // verus!
