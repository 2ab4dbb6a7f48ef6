//! One dense layer: an affine transform followed by an activation.
//!
//! A layer owns its weight matrix (`out_size x in_size`), its bias column
//! (`out_size x 1`) and an activation descriptor, and — between a forward
//! pass and the matching backward pass — the cached pre-activation and
//! output matrices that gradient computation needs.

use vstd::prelude::*;
use crate::activation::{ActivationArgu, ActivationKind, act_calc_elem_s, act_deriv_elem_s, coef_of};
use crate::errors::NeuralError;
use crate::matrix::{
    Matrix, MatModel, col_s, lemma_flat_index, mat_at, mm_add_bias, mm_mul, mm_sub_scaled,
    mm_transpose, mm_hadamard, mm_wf, mm_zeros, MAX_DIM,
};

verus! {

/// The mathematical view of a layer: weight and bias models, the
/// activation tag and coefficient, and the cached forward-pass matrices.
#[verifier::ext_equal]
pub struct LayerModel {
    pub w: MatModel,
    pub b: MatModel,
    pub kind: ActivationKind,
    pub argu: Seq<i64>,
    pub z: Option<MatModel>,
    pub out: Option<MatModel>,
}

/// Layer well-formedness: both matrices well formed, the bias a single
/// column with one row per output.
pub open spec fn lm_wf(l: LayerModel) -> bool {
    &&& mm_wf(l.w)
    &&& mm_wf(l.b)
    &&& l.b.rows == l.w.rows
    &&& l.b.cols == 1
    &&& match l.z {
        Some(z) => mm_wf(z) && z.rows == l.w.rows,
        None => true,
    }
    &&& match l.out {
        Some(o) => mm_wf(o),
        None => true,
    }
}

/// Whether a backward pass is shape-compatible with the cached forward
/// pass: a cached single-column pre-activation, a matching single-column
/// error signal, and the single-column input that fed the forward pass.
pub open spec fn bw_ok(l: LayerModel, err: MatModel, inp: MatModel) -> bool {
    match l.z {
        Some(z) => {
            &&& err.rows == z.rows
            &&& err.cols == 1
            &&& z.cols == 1
            &&& inp.rows == l.w.cols
            &&& inp.cols == 1
        },
        None => false,
    }
}

/// The backpropagation step of one layer, around an explicit
/// pre-activation `z`: the local gradient is the error signal times the
/// activation derivative at `z`; the weights move against the local
/// gradient times the transposed input, the bias against the local
/// gradient itself; the value handed to the previous layer is the
/// (pre-update) transposed weights times the local gradient.
pub open spec fn layer_bw_core_s(l: LayerModel, z: MatModel, err: MatModel, inp: MatModel, lr: int)
    -> (LayerModel, MatModel) {
    let delta = mm_hadamard(err, act_deriv_mat_s(l.kind, lcoef(l), z));
    let wg = mm_mul(delta, mm_transpose(inp));
    let ret = mm_mul(mm_transpose(l.w), delta);
    (
        LayerModel {
            w: mm_sub_scaled(l.w, wg, lr),
            b: mm_sub_scaled(l.b, delta, lr),
            kind: l.kind,
            argu: l.argu,
            z: l.z,
            out: l.out,
        },
        ret,
    )
}

/// The backpropagation step against the cached pre-activation.
pub open spec fn layer_backward_s(l: LayerModel, err: MatModel, inp: MatModel, lr: int)
    -> (LayerModel, MatModel) {
    layer_bw_core_s(l, l.z->Some_0, err, inp, lr)
}

/// An activation applied to a matrix, column by column.
pub open spec fn act_mat_s(kind: ActivationKind, coef: int, z: MatModel) -> MatModel {
    MatModel {
        rows: z.rows,
        cols: z.cols,
        d: Seq::new(
            z.d.len(),
            |i: int| act_calc_elem_s(kind, coef, col_s(z, i % (z.cols as int)), i / (z.cols as int)),
        ),
    }
}

/// An activation's derivative applied to a matrix, column by column.
pub open spec fn act_deriv_mat_s(kind: ActivationKind, coef: int, z: MatModel) -> MatModel {
    MatModel {
        rows: z.rows,
        cols: z.cols,
        d: Seq::new(
            z.d.len(),
            |i: int| act_deriv_elem_s(kind, coef, col_s(z, i % (z.cols as int)), i / (z.cols as int)),
        ),
    }
}

/// The auxiliary coefficient of a layer's activation.
pub open spec fn lcoef(l: LayerModel) -> int {
    coef_of(l.argu)
}

/// The pre-activation of a layer on an input: `w * x + b`, the bias added
/// to every column.
pub open spec fn layer_z_s(l: LayerModel, x: MatModel) -> MatModel {
    mm_add_bias(mm_mul(l.w, x), l.b)
}

/// The output of a layer on an input: the activation of the
/// pre-activation.
pub open spec fn layer_out_s(l: LayerModel, x: MatModel) -> MatModel {
    act_mat_s(l.kind, lcoef(l), layer_z_s(l, x))
}

/// The deterministic initial weight at flat index `idx`: a hash-like
/// spread of small fixed-point values in `(-1, 1)` that breaks the
/// symmetry gradient descent cannot break on its own.
pub open spec fn init_w_s(idx: int) -> int {
    (((idx * 2654435761) % 131072) - 65536) * 65536
}

/// One dense layer.
#[derive(Clone, Debug)]
pub struct NeuralLayer {
    pub weights: Matrix,
    pub bias: Matrix,
    pub activation: ActivationArgu,
    pub cached_z: Option<Matrix>,
    pub cached_output: Option<Matrix>,
}

impl View for NeuralLayer {
    type V = LayerModel;

    open spec fn view(&self) -> LayerModel {
        LayerModel {
            w: self.weights@,
            b: self.bias@,
            kind: self.activation.kind,
            argu: self.activation.argu@,
            z: match self.cached_z {
                Some(ref m) => Some(m@),
                None => None,
            },
            out: match self.cached_output {
                Some(ref m) => Some(m@),
                None => None,
            },
        }
    }
}

/// Applies an activation or its derivative to every column of a matrix.
fn apply_act(act: &ActivationArgu, m: &Matrix, deriv: bool) -> (r: Matrix)
    requires
        m.wf(),
    ensures
        r.wf(),
        !deriv ==> r@ =~= act_mat_s(act.kind, coef_of(act.argu@), m@),
        deriv ==> r@ =~= act_deriv_mat_s(act.kind, coef_of(act.argu@), m@),
{
    let rows = m.get_rows();
    let cols = m.get_cols();
    let mut outs: Vec<Vec<i64>> = Vec::new();
    let mut c: usize = 0;
    while c < cols
        invariant
            0 <= c <= cols,
            m.wf(),
            rows == m@.rows,
            cols == m@.cols,
            outs@.len() == c,
            forall|cc: int| 0 <= cc < c ==> #[trigger] outs@[cc]@.len() == rows,
            !deriv ==> forall|cc: int, k: int| 0 <= cc < c && 0 <= k < rows
                ==> #[trigger] outs@[cc]@[k] as int
                    == act_calc_elem_s(act.kind, coef_of(act.argu@), col_s(m@, cc), k),
            deriv ==> forall|cc: int, k: int| 0 <= cc < c && 0 <= k < rows
                ==> #[trigger] outs@[cc]@[k] as int
                    == act_deriv_elem_s(act.kind, coef_of(act.argu@), col_s(m@, cc), k),
        decreases cols - c,
    {
        let col = m.get_col(c);
        proof {
            assert(crate::fixed::ints_of(col@).len() == col@.len());
            assert(col_s(m@, c as int).len() == m@.rows);
        }
        let o = if deriv {
            act.derivative(&col)
        } else {
            act.calc(&col)
        };
        outs.push(o);
        c = c + 1;
    }
    let mut data: Vec<i64> = Vec::new();
    let mut r: usize = 0;
    while r < rows
        invariant
            0 <= r <= rows,
            m.wf(),
            rows == m@.rows,
            cols == m@.cols,
            outs@.len() == cols,
            forall|cc: int| 0 <= cc < cols ==> #[trigger] outs@[cc]@.len() == rows,
            !deriv ==> forall|cc: int, k: int| 0 <= cc < cols && 0 <= k < rows
                ==> #[trigger] outs@[cc]@[k] as int
                    == act_calc_elem_s(act.kind, coef_of(act.argu@), col_s(m@, cc), k),
            deriv ==> forall|cc: int, k: int| 0 <= cc < cols && 0 <= k < rows
                ==> #[trigger] outs@[cc]@[k] as int
                    == act_deriv_elem_s(act.kind, coef_of(act.argu@), col_s(m@, cc), k),
            data@.len() == r * cols,
            !deriv ==> forall|i: int| 0 <= i < data@.len()
                ==> data@[i] as int == act_mat_s(act.kind, coef_of(act.argu@), m@).d[i],
            deriv ==> forall|i: int| 0 <= i < data@.len()
                ==> data@[i] as int == act_deriv_mat_s(act.kind, coef_of(act.argu@), m@).d[i],
        decreases rows - r,
    {
        let mut c2: usize = 0;
        while c2 < cols
            invariant
                0 <= c2 <= cols,
                r < rows,
                m.wf(),
                rows == m@.rows,
                cols == m@.cols,
                outs@.len() == cols,
                forall|cc: int| 0 <= cc < cols ==> #[trigger] outs@[cc]@.len() == rows,
                !deriv ==> forall|cc: int, k: int| 0 <= cc < cols && 0 <= k < rows
                    ==> #[trigger] outs@[cc]@[k] as int
                        == act_calc_elem_s(act.kind, coef_of(act.argu@), col_s(m@, cc), k),
                deriv ==> forall|cc: int, k: int| 0 <= cc < cols && 0 <= k < rows
                    ==> #[trigger] outs@[cc]@[k] as int
                        == act_deriv_elem_s(act.kind, coef_of(act.argu@), col_s(m@, cc), k),
                data@.len() == r * cols + c2,
                !deriv ==> forall|i: int| 0 <= i < data@.len()
                    ==> data@[i] as int == act_mat_s(act.kind, coef_of(act.argu@), m@).d[i],
                deriv ==> forall|i: int| 0 <= i < data@.len()
                    ==> data@[i] as int == act_deriv_mat_s(act.kind, coef_of(act.argu@), m@).d[i],
            decreases cols - c2,
        {
            proof {
                lemma_flat_index(r as int, c2 as int, rows as int, cols as int);
            }
            data.push(outs[c2][r]);
            c2 = c2 + 1;
        }
        proof {
            assert(data@.len() == (r + 1) * (cols as int)) by (nonlinear_arith)
                requires
                    data@.len() == (r as int) * (cols as int) + (cols as int),
            ;
        }
        r = r + 1;
    }
    let res = Matrix { rows, cols, data };
    proof {
        if deriv {
            assert(res@ =~= act_deriv_mat_s(act.kind, coef_of(act.argu@), m@));
        } else {
            assert(res@ =~= act_mat_s(act.kind, coef_of(act.argu@), m@));
        }
    }
    res
}

impl NeuralLayer {
    /// Layer well-formedness.
    pub open spec fn wf(&self) -> bool {
        lm_wf(self@)
    }

    /// Builds a layer of the given shape with deterministically spread
    /// small initial weights, a zero bias, and the given activation;
    /// refused when a dimension is zero or above capacity.
    pub fn new(out_size: usize, in_size: usize, activation: ActivationArgu) -> (res: Result<
        NeuralLayer,
        NeuralError,
    >)
        ensures
            match res {
                Ok(l) => {
                    &&& 1 <= out_size <= MAX_DIM && 1 <= in_size <= MAX_DIM
                    &&& l.wf()
                    &&& l@.w.rows == out_size
                    &&& l@.w.cols == in_size
                    &&& forall|i: int| 0 <= i < l@.w.d.len() ==> l@.w.d[i] == init_w_s(i)
                    &&& l@.b =~= mm_zeros(out_size as nat, 1)
                    &&& l@.kind == activation.kind
                    &&& l@.argu == activation.argu@
                    &&& l@.z is None
                    &&& l@.out is None
                },
                Err(e) => {
                    &&& !(1 <= out_size <= MAX_DIM && 1 <= in_size <= MAX_DIM)
                    &&& e == NeuralError::ShapeMismatch
                },
            },
    {
        if out_size < 1 || out_size > MAX_DIM || in_size < 1 || in_size > MAX_DIM {
            return Err(NeuralError::ShapeMismatch);
        }
        proof {
            assert((out_size as int) * (in_size as int) <= 0x40000000int) by (nonlinear_arith)
                requires
                    0 < (out_size as int) <= 32768,
                    0 < (in_size as int) <= 32768,
            ;
        }
        let n = out_size * in_size;
        let mut data: Vec<i64> = Vec::new();
        let mut i: usize = 0;
        while i < n
            invariant
                0 <= i <= n,
                n <= 0x40000000,
                data@.len() == i,
                forall|j: int| 0 <= j < i ==> data@[j] as int == init_w_s(j),
            decreases n - i,
        {
            let h: u64 = ((i as u64) * 2654435761) % 131072;
            let w: i64 = ((h as i64) - 65536) * 65536;
            data.push(w);
            i = i + 1;
        }
        let weights = Matrix { rows: out_size, cols: in_size, data };
        let bias = match Matrix::zeros(out_size, 1) {
            Ok(b) => b,
            Err(e) => {
                return Err(e);
            },
        };
        Ok(NeuralLayer {
            weights,
            bias,
            activation,
            cached_z: None,
            cached_output: None,
        })
    }

    /// Builds a layer from explicit weights, bias and activation; refused
    /// unless the bias is a single column with one row per weight row.
    pub fn from_parts(weights: Matrix, bias: Matrix, activation: ActivationArgu) -> (res: Result<
        NeuralLayer,
        NeuralError,
    >)
        requires
            weights.wf(),
            bias.wf(),
        ensures
            match res {
                Ok(l) => {
                    &&& bias@.rows == weights@.rows && bias@.cols == 1
                    &&& l.wf()
                    &&& l@.w == weights@
                    &&& l@.b == bias@
                    &&& l@.kind == activation.kind
                    &&& l@.argu == activation.argu@
                    &&& l@.z is None
                    &&& l@.out is None
                },
                Err(e) => {
                    &&& !(bias@.rows == weights@.rows && bias@.cols == 1)
                    &&& e == NeuralError::ShapeMismatch
                },
            },
    {
        if bias.get_rows() != weights.get_rows() || bias.get_cols() != 1 {
            return Err(NeuralError::ShapeMismatch);
        }
        Ok(NeuralLayer {
            weights,
            bias,
            activation,
            cached_z: None,
            cached_output: None,
        })
    }

    /// The layer's output on an input, caching the pre-activation and the
    /// output for the following backward pass. Fails with `ShapeMismatch`
    /// exactly when the input's row count differs from the weight column
    /// count; a failed call leaves the layer unchanged.
    pub fn forward(&mut self, input: &Matrix) -> (res: Result<Matrix, NeuralError>)
        requires
            old(self).wf(),
            input.wf(),
        ensures
            match res {
                Ok(out) => {
                    &&& input@.rows == old(self)@.w.cols
                    &&& out@ == layer_out_s(old(self)@, input@)
                    &&& out.wf()
                    &&& out@.rows == old(self)@.w.rows
                    &&& out@.cols == input@.cols
                    &&& final(self)@.w == old(self)@.w
                    &&& final(self)@.b == old(self)@.b
                    &&& final(self)@.kind == old(self)@.kind
                    &&& final(self)@.argu == old(self)@.argu
                    &&& final(self)@.z == Some(layer_z_s(old(self)@, input@))
                    &&& final(self)@.out == Some(out@)
                    &&& final(self).wf()
                },
                Err(e) => {
                    &&& input@.rows != old(self)@.w.cols
                    &&& e == NeuralError::ShapeMismatch
                    &&& *final(self) == *old(self)
                },
            },
    {
        let z0 = match self.weights.multiply(input) {
            Ok(m) => m,
            Err(e) => {
                return Err(e);
            },
        };
        let z = match z0.add_bias(&self.bias) {
            Ok(m) => m,
            Err(e) => {
                return Err(e);
            },
        };
        let out = apply_act(&self.activation, &z, false);
        self.cached_z = Some(z);
        self.cached_output = Some(out.clone_mat());
        Ok(out)
    }

    /// One backpropagation step: consumes the error signal arriving at
    /// this layer and the input that fed the matching forward pass,
    /// updates the weights and bias in place with the given learning rate,
    /// and returns the error signal for the previous layer. Fails with
    /// `StaleState` when no forward pass is cached, and with
    /// `ShapeMismatch` when the shapes disagree with the cached pass; a
    /// failed call leaves the layer unchanged.
    pub fn backward(&mut self, error: &Matrix, input: &Matrix, learning_rate: i64) -> (res: Result<
        Matrix,
        NeuralError,
    >)
        requires
            old(self).wf(),
            error.wf(),
            input.wf(),
        ensures
            match res {
                Ok(ret) => {
                    &&& bw_ok(old(self)@, error@, input@)
                    &&& final(self)@ == layer_backward_s(old(self)@, error@, input@, learning_rate as int).0
                    &&& ret@ == layer_backward_s(old(self)@, error@, input@, learning_rate as int).1
                    &&& final(self).wf()
                    &&& ret.wf()
                    &&& ret@.rows == old(self)@.w.cols
                    &&& ret@.cols == 1
                    &&& final(self)@.w.rows == old(self)@.w.rows
                    &&& final(self)@.w.cols == old(self)@.w.cols
                    &&& final(self)@.b.rows == old(self)@.b.rows
                    &&& final(self)@.b.cols == old(self)@.b.cols
                    &&& final(self)@.kind == old(self)@.kind
                    &&& final(self)@.argu == old(self)@.argu
                },
                Err(e) => {
                    &&& *final(self) == *old(self)
                    &&& if old(self)@.z is None {
                        e == NeuralError::StaleState
                    } else {
                        e == NeuralError::ShapeMismatch && !bw_ok(old(self)@, error@, input@)
                    }
                },
            },
    {
        let (zr, zc): (usize, usize) = match &self.cached_z {
            Some(z) => (z.get_rows(), z.get_cols()),
            None => {
                return Err(NeuralError::StaleState);
            },
        };
        if error.get_rows() != zr || error.get_cols() != 1 || zc != 1
            || input.get_rows() != self.weights.get_cols() || input.get_cols() != 1 {
            return Err(NeuralError::ShapeMismatch);
        }
        let dmat = match &self.cached_z {
            Some(z) => apply_act(&self.activation, z, true),
            None => {
                return Err(NeuralError::StaleState);
            },
        };
        let delta = match error.hadamard(&dmat) {
            Ok(m) => m,
            Err(e) => {
                return Err(e);
            },
        };
        let it = input.transpose();
        let wg = match delta.multiply(&it) {
            Ok(m) => m,
            Err(e) => {
                return Err(e);
            },
        };
        let wt = self.weights.transpose();
        let ret = match wt.multiply(&delta) {
            Ok(m) => m,
            Err(e) => {
                return Err(e);
            },
        };
        let new_w = match self.weights.sub_scaled(&wg, learning_rate) {
            Ok(m) => m,
            Err(e) => {
                return Err(e);
            },
        };
        let new_b = match self.bias.sub_scaled(&delta, learning_rate) {
            Ok(m) => m,
            Err(e) => {
                return Err(e);
            },
        };
        self.weights = new_w;
        self.bias = new_b;
        proof {
            assert(final(self)@ =~= layer_backward_s(
                old(self)@, error@, input@, learning_rate as int).0);
        }
        Ok(ret)
    }

    /// The layer's output without touching the cache, for inference.
    pub fn apply(&self, input: &Matrix) -> (res: Result<Matrix, NeuralError>)
        requires
            self.wf(),
            input.wf(),
        ensures
            match res {
                Ok(out) => {
                    &&& input@.rows == self@.w.cols
                    &&& out@ == layer_out_s(self@, input@)
                    &&& out.wf()
                    &&& out@.rows == self@.w.rows
                    &&& out@.cols == input@.cols
                },
                Err(e) => input@.rows != self@.w.cols && e == NeuralError::ShapeMismatch,
            },
    {
        let z0 = match self.weights.multiply(input) {
            Ok(m) => m,
            Err(e) => {
                return Err(e);
            },
        };
        let z = match z0.add_bias(&self.bias) {
            Ok(m) => m,
            Err(e) => {
                return Err(e);
            },
        };
        Ok(apply_act(&self.activation, &z, false))
    }
}

} // verus!
