//! The closed family of cost functions.
//!
//! A cost compares a prediction matrix with a target matrix of the same
//! shape and yields one scalar loss. The descriptor names its kind so the
//! network can select the matching gradient rule when seeding
//! backpropagation.

use vstd::prelude::*;
use crate::errors::NeuralError;
use crate::fixed::{qadd_s, qsub_s, qmul_s, qneg_s, q_ln_s, qadd, qsub, qmul, qneg, q_ln};
use crate::matrix::{Matrix, MatModel};

verus! {

/// The tag naming one cost function.
#[derive(Clone, Copy, Debug, PartialEq, Eq, Structural)]
pub enum CostFunctions {
    SquaredError,
    CrossEntropy,
}

/// The saturating sum of squared differences over the first `n` elements.
pub open spec fn se_sum_s(p: Seq<int>, t: Seq<int>, n: int) -> int
    decreases n,
{
    if n <= 0 {
        0
    } else {
        qadd_s(se_sum_s(p, t, n - 1), qmul_s(qsub_s(p[n - 1], t[n - 1]), qsub_s(p[n - 1], t[n - 1])))
    }
}

/// Predictions clamped away from zero before the logarithm: anything below
/// one least fixed-point unit becomes that unit.
pub open spec fn clamp_s(x: int) -> int {
    if x < 1 {
        1
    } else {
        x
    }
}

/// The saturating sum of `t_i * ln(clamp(p_i))` over the first `n` elements.
pub open spec fn ce_sum_s(p: Seq<int>, t: Seq<int>, n: int) -> int
    decreases n,
{
    if n <= 0 {
        0
    } else {
        qadd_s(ce_sum_s(p, t, n - 1), qmul_s(t[n - 1], q_ln_s(clamp_s(p[n - 1]))))
    }
}

/// The scalar loss of a cost on same-shape prediction and target models.
/// `SquaredError` is the sum (not the mean) of squared differences;
/// `CrossEntropy` is `-sum t_i * ln(p_i)` with predictions clamped away
/// from zero.
pub open spec fn cost_s(kind: CostFunctions, p: MatModel, t: MatModel) -> int {
    match kind {
        CostFunctions::SquaredError => se_sum_s(p.d, t.d, p.d.len() as int),
        CostFunctions::CrossEntropy => qneg_s(ce_sum_s(p.d, t.d, p.d.len() as int)),
    }
}

/// A cost descriptor: a tag plus (unused) auxiliary parameters, kept for
/// symmetry with the activation descriptor.
#[derive(Clone, Debug)]
pub struct CostFunctionArgu {
    pub kind: CostFunctions,
    pub argu: Vec<i64>,
}

impl CostFunctionArgu {
    /// Builds a descriptor from a tag and its auxiliary parameters.
    pub fn new(kind: CostFunctions, argu: Vec<i64>) -> (r: CostFunctionArgu)
        ensures
            r.kind == kind,
            r.argu == argu,
    {
        CostFunctionArgu { kind, argu }
    }

    /// The descriptor's tag, for dispatching the gradient rule.
    pub fn name(&self) -> (k: CostFunctions)
        ensures
            k == self.kind,
    {
        self.kind
    }

    /// The scalar loss on a prediction and a target; refused when their
    /// shapes differ.
    pub fn calc(&self, prediction: &Matrix, target: &Matrix) -> (res: Result<
        i64,
        NeuralError,
    >)
        requires
            prediction.wf(),
            target.wf(),
        ensures
            match res {
                Ok(v) => {
                    &&& prediction@.rows == target@.rows && prediction@.cols == target@.cols
                    &&& v as int == cost_s(self.kind, prediction@, target@)
                },
                Err(e) => {
                    &&& !(prediction@.rows == target@.rows && prediction@.cols == target@.cols)
                    &&& e == NeuralError::ShapeMismatch
                },
            },
    {
        if prediction.get_rows() != target.get_rows()
            || prediction.get_cols() != target.get_cols() {
            return Err(NeuralError::ShapeMismatch);
        }
        let p = prediction.flat();
        let t = target.flat();
        let n = p.len();
        match self.kind {
            CostFunctions::SquaredError => {
                let mut acc: i64 = 0;
                let mut i: usize = 0;
                while i < n
                    invariant
                        0 <= i <= n,
                        n == p@.len(),
                        p@.len() == t@.len(),
                        crate::fixed::ints_of(p@) == prediction@.d,
                        crate::fixed::ints_of(t@) == target@.d,
                        acc as int == se_sum_s(prediction@.d, target@.d, i as int),
                    decreases n - i,
                {
                    let d = qsub(p[i], t[i]);
                    acc = qadd(acc, qmul(d, d));
                    i = i + 1;
                }
                Ok(acc)
            },
            CostFunctions::CrossEntropy => {
                let mut acc: i64 = 0;
                let mut i: usize = 0;
                while i < n
                    invariant
                        0 <= i <= n,
                        n == p@.len(),
                        p@.len() == t@.len(),
                        crate::fixed::ints_of(p@) == prediction@.d,
                        crate::fixed::ints_of(t@) == target@.d,
                        acc as int == ce_sum_s(prediction@.d, target@.d, i as int),
                    decreases n - i,
                {
                    let pc = if p[i] < 1 { 1i64 } else { p[i] };
                    acc = qadd(acc, qmul(t[i], q_ln(pc)));
                    i = i + 1;
                }
                Ok(qneg(acc))
            },
        }
    }
}

} // verus!
