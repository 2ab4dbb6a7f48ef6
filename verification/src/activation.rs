//! The closed family of activation functions.
//!
//! A layer stores an [`ActivationArgu`] descriptor: a tag naming one of the
//! enumerated nonlinearities plus an auxiliary parameter list (used only by
//! the leaky rectifier, for its negative slope). The live function is a
//! total match over the tag; every variant is elementwise except `SoftMax`,
//! whose value is computed jointly over the whole vector (subtract the
//! maximum, exponentiate, normalize by the sum).

use vstd::prelude::*;
use crate::fixed::{Q_ONE, ints_of, q_scale, clip_s, qadd_s, qsub_s, qneg_s, qmul_s, qdiv_s, q_exp_s, q_ln_s, qadd, qsub, qneg, qmul, qdiv, q_exp, q_ln};

verus! {

/// The tag naming one activation function.
#[derive(Clone, Copy, Debug, PartialEq, Eq, Structural)]
pub enum ActivationKind {
    Sigmoid,
    HyperbolicTangent,
    SoftPlus,
    SoftMax,
    RectifiedLinearUnit,
    LeakyRectifiedLinearUnit,
    Identity,
}

/// The sigmoid `1 / (1 + e^-x)`.
pub open spec fn sigmoid_s(x: int) -> int {
    qdiv_s(q_scale(), qadd_s(q_scale(), q_exp_s(qneg_s(x))))
}

/// The hyperbolic tangent `(e^2x - 1) / (e^2x + 1)`, clamped to its
/// asymptotes outside `[-10, 10]`.
pub open spec fn tanh_s(x: int) -> int {
    if x > 10 * q_scale() {
        q_scale()
    } else if x < -10 * q_scale() {
        -q_scale()
    } else {
        let e2 = q_exp_s(qadd_s(x, x));
        qdiv_s(qsub_s(e2, q_scale()), qadd_s(e2, q_scale()))
    }
}

/// The softplus `ln(1 + e^x)`; above 20 the identity, which it approaches.
pub open spec fn softplus_s(x: int) -> int {
    if x > 20 * q_scale() {
        x
    } else {
        q_ln_s(qadd_s(q_scale(), q_exp_s(x)))
    }
}

/// The elementwise value of every activation but `SoftMax`.
pub open spec fn act_scalar_s(kind: ActivationKind, coef: int, x: int) -> int {
    match kind {
        ActivationKind::Sigmoid => sigmoid_s(x),
        ActivationKind::HyperbolicTangent => tanh_s(x),
        ActivationKind::SoftPlus => softplus_s(x),
        ActivationKind::RectifiedLinearUnit => if x > 0 { x } else { 0 },
        ActivationKind::LeakyRectifiedLinearUnit => if x > 0 { x } else { qmul_s(coef, x) },
        ActivationKind::Identity => x,
        ActivationKind::SoftMax => x,
    }
}

/// The elementwise derivative of every activation but `SoftMax`.
pub open spec fn act_scalar_deriv_s(kind: ActivationKind, coef: int, x: int) -> int {
    match kind {
        ActivationKind::Sigmoid => qmul_s(sigmoid_s(x), qsub_s(q_scale(), sigmoid_s(x))),
        ActivationKind::HyperbolicTangent => qsub_s(q_scale(), qmul_s(tanh_s(x), tanh_s(x))),
        ActivationKind::SoftPlus => sigmoid_s(x),
        ActivationKind::RectifiedLinearUnit => if x > 0 { q_scale() } else { 0 },
        ActivationKind::LeakyRectifiedLinearUnit => if x > 0 { q_scale() } else { coef },
        ActivationKind::Identity => q_scale(),
        ActivationKind::SoftMax => x,
    }
}

/// The greatest element of a vector, 0 for an empty one.
pub open spec fn seq_max_s(s: Seq<int>) -> int
    decreases s.len(),
{
    if s.len() == 0 {
        0
    } else if s.len() == 1 {
        s[0]
    } else {
        let m = seq_max_s(s.drop_last());
        if s.last() > m {
            s.last()
        } else {
            m
        }
    }
}

/// The saturating sum of `e^(s_i - m)` over a vector.
pub open spec fn sum_exp_s(s: Seq<int>, m: int) -> int
    decreases s.len(),
{
    if s.len() == 0 {
        0
    } else {
        qadd_s(sum_exp_s(s.drop_last(), m), q_exp_s(qsub_s(s.last(), m)))
    }
}

/// One softmax output: `e^(s_i - max) / sum_j e^(s_j - max)`.
pub open spec fn softmax_elem_s(s: Seq<int>, i: int) -> int {
    qdiv_s(q_exp_s(qsub_s(s[i], seq_max_s(s))), sum_exp_s(s, seq_max_s(s)))
}

/// Element `i` of an activation's value on the whole vector `s`.
pub open spec fn act_calc_elem_s(kind: ActivationKind, coef: int, s: Seq<int>, i: int) -> int {
    if kind == ActivationKind::SoftMax {
        softmax_elem_s(s, i)
    } else {
        act_scalar_s(kind, coef, s[i])
    }
}

/// Element `i` of an activation's derivative on the whole vector `s`. For
/// `SoftMax` this is the diagonal-Jacobian form `y_i * (1 - y_i)`, the
/// convention matched to the cross-entropy seeding of backpropagation.
pub open spec fn act_deriv_elem_s(kind: ActivationKind, coef: int, s: Seq<int>, i: int) -> int {
    if kind == ActivationKind::SoftMax {
        qmul_s(softmax_elem_s(s, i), qsub_s(q_scale(), softmax_elem_s(s, i)))
    } else {
        act_scalar_deriv_s(kind, coef, s[i])
    }
}

/// The auxiliary coefficient of a descriptor: its first parameter, 0 where
/// none was given.
pub open spec fn coef_of(argu: Seq<i64>) -> int {
    if argu.len() >= 1 {
        argu[0] as int
    } else {
        0
    }
}

/// The serialized tag of an activation kind.
pub open spec fn act_tag_s(kind: ActivationKind) -> u64 {
    match kind {
        ActivationKind::Sigmoid => 0,
        ActivationKind::HyperbolicTangent => 1,
        ActivationKind::SoftPlus => 2,
        ActivationKind::SoftMax => 3,
        ActivationKind::RectifiedLinearUnit => 4,
        ActivationKind::LeakyRectifiedLinearUnit => 5,
        ActivationKind::Identity => 6,
    }
}

/// The activation kind of a serialized tag; `None` outside the enumerated
/// set.
pub open spec fn kind_of_tag_s(t: u64) -> Option<ActivationKind> {
    if t == 0 {
        Some(ActivationKind::Sigmoid)
    } else if t == 1 {
        Some(ActivationKind::HyperbolicTangent)
    } else if t == 2 {
        Some(ActivationKind::SoftPlus)
    } else if t == 3 {
        Some(ActivationKind::SoftMax)
    } else if t == 4 {
        Some(ActivationKind::RectifiedLinearUnit)
    } else if t == 5 {
        Some(ActivationKind::LeakyRectifiedLinearUnit)
    } else if t == 6 {
        Some(ActivationKind::Identity)
    } else {
        None
    }
}

/// The serialized tag of an activation kind.
pub fn act_tag(kind: ActivationKind) -> (t: u64)
    ensures
        t == act_tag_s(kind),
{
    match kind {
        ActivationKind::Sigmoid => 0,
        ActivationKind::HyperbolicTangent => 1,
        ActivationKind::SoftPlus => 2,
        ActivationKind::SoftMax => 3,
        ActivationKind::RectifiedLinearUnit => 4,
        ActivationKind::LeakyRectifiedLinearUnit => 5,
        ActivationKind::Identity => 6,
    }
}

/// The activation kind named by a tag; a tag outside the enumerated set
/// is refused as `UnsupportedActivation`.
pub fn kind_from_tag(t: u64) -> (res: Result<ActivationKind, crate::errors::NeuralError>)
    ensures
        match res {
            Ok(k) => kind_of_tag_s(t) == Some(k),
            Err(e) => kind_of_tag_s(t) is None && e == crate::errors::NeuralError::UnsupportedActivation,
        },
{
    if t == 0 {
        Ok(ActivationKind::Sigmoid)
    } else if t == 1 {
        Ok(ActivationKind::HyperbolicTangent)
    } else if t == 2 {
        Ok(ActivationKind::SoftPlus)
    } else if t == 3 {
        Ok(ActivationKind::SoftMax)
    } else if t == 4 {
        Ok(ActivationKind::RectifiedLinearUnit)
    } else if t == 5 {
        Ok(ActivationKind::LeakyRectifiedLinearUnit)
    } else if t == 6 {
        Ok(ActivationKind::Identity)
    } else {
        Err(crate::errors::NeuralError::UnsupportedActivation)
    }
}

/// A serializable activation descriptor: a tag plus auxiliary parameters.
#[derive(Clone, Debug)]
pub struct ActivationArgu {
    pub kind: ActivationKind,
    pub argu: Vec<i64>,
}

/// The fixed-point sigmoid.
pub fn sigmoid(x: i64) -> (r: i64)
    ensures
        r as int == sigmoid_s(x as int),
{
    qdiv(Q_ONE, qadd(Q_ONE, q_exp(qneg(x))))
}

/// The fixed-point hyperbolic tangent.
pub fn tanh(x: i64) -> (r: i64)
    ensures
        r as int == tanh_s(x as int),
{
    if x > 10 * Q_ONE {
        Q_ONE
    } else if x < -(10 * Q_ONE) {
        -Q_ONE
    } else {
        let e2 = q_exp(qadd(x, x));
        qdiv(qsub(e2, Q_ONE), qadd(e2, Q_ONE))
    }
}

/// The fixed-point softplus.
pub fn softplus(x: i64) -> (r: i64)
    ensures
        r as int == softplus_s(x as int),
{
    if x > 20 * Q_ONE {
        x
    } else {
        q_ln(qadd(Q_ONE, q_exp(x)))
    }
}

fn act_scalar(kind: ActivationKind, coef: i64, x: i64) -> (r: i64)
    ensures
        r as int == act_scalar_s(kind, coef as int, x as int),
{
    match kind {
        ActivationKind::Sigmoid => sigmoid(x),
        ActivationKind::HyperbolicTangent => tanh(x),
        ActivationKind::SoftPlus => softplus(x),
        ActivationKind::RectifiedLinearUnit => if x > 0 { x } else { 0 },
        ActivationKind::LeakyRectifiedLinearUnit => if x > 0 { x } else { qmul(coef, x) },
        ActivationKind::Identity => x,
        ActivationKind::SoftMax => x,
    }
}

fn act_scalar_deriv(kind: ActivationKind, coef: i64, x: i64) -> (r: i64)
    ensures
        r as int == act_scalar_deriv_s(kind, coef as int, x as int),
{
    match kind {
        ActivationKind::Sigmoid => {
            let s = sigmoid(x);
            qmul(s, qsub(Q_ONE, s))
        },
        ActivationKind::HyperbolicTangent => {
            let t = tanh(x);
            qsub(Q_ONE, qmul(t, t))
        },
        ActivationKind::SoftPlus => sigmoid(x),
        ActivationKind::RectifiedLinearUnit => if x > 0 { Q_ONE } else { 0 },
        ActivationKind::LeakyRectifiedLinearUnit => if x > 0 { Q_ONE } else { coef },
        ActivationKind::Identity => Q_ONE,
        ActivationKind::SoftMax => x,
    }
}

fn seq_max(v: &Vec<i64>) -> (m: i64)
    requires
        v@.len() >= 1,
    ensures
        m as int == seq_max_s(ints_of(v@)),
{
    let mut m = v[0];
    let mut j: usize = 1;
    while j < v.len()
        invariant
            1 <= j <= v@.len(),
            m as int == seq_max_s(ints_of(v@).take(j as int)),
        decreases v@.len() - j,
    {
        proof {
            assert(ints_of(v@).take(j as int + 1).drop_last() =~= ints_of(v@).take(j as int));
            assert(ints_of(v@).take(j as int + 1).last() == v@[j as int] as int);
        }
        if v[j] > m {
            m = v[j];
        }
        j = j + 1;
    }
    proof {
        assert(ints_of(v@).take(v@.len() as int) =~= ints_of(v@));
    }
    m
}

fn softmax_vec(v: &Vec<i64>) -> (r: Vec<i64>)
    ensures
        r@.len() == v@.len(),
        forall|i: int| 0 <= i < v@.len() ==> r@[i] as int == softmax_elem_s(ints_of(v@), i),
{
    let n = v.len();
    let mut r: Vec<i64> = Vec::new();
    if n == 0 {
        return r;
    }
    let mx = seq_max(v);
    let mut exps: Vec<i64> = Vec::new();
    let mut sum: i64 = 0;
    let mut j: usize = 0;
    while j < n
        invariant
            0 <= j <= n,
            n == v@.len(),
            exps@.len() == j,
            mx as int == seq_max_s(ints_of(v@)),
            sum as int == sum_exp_s(ints_of(v@).take(j as int), mx as int),
            forall|i: int| 0 <= i < j ==>
                exps@[i] as int == q_exp_s(qsub_s(v@[i] as int, mx as int)),
        decreases n - j,
    {
        proof {
            assert(ints_of(v@).take(j as int + 1).drop_last() =~= ints_of(v@).take(j as int));
            assert(ints_of(v@).take(j as int + 1).last() == v@[j as int] as int);
        }
        let e = q_exp(qsub(v[j], mx));
        sum = qadd(sum, e);
        exps.push(e);
        j = j + 1;
    }
    proof {
        assert(ints_of(v@).take(n as int) =~= ints_of(v@));
    }
    let mut i: usize = 0;
    while i < n
        invariant
            0 <= i <= n,
            n == v@.len(),
            exps@.len() == n,
            r@.len() == i,
            mx as int == seq_max_s(ints_of(v@)),
            sum as int == sum_exp_s(ints_of(v@), mx as int),
            forall|k: int| 0 <= k < n ==>
                exps@[k] as int == q_exp_s(qsub_s(v@[k] as int, mx as int)),
            forall|k: int| 0 <= k < i ==> r@[k] as int == softmax_elem_s(ints_of(v@), k),
        decreases n - i,
    {
        r.push(qdiv(exps[i], sum));
        i = i + 1;
    }
    r
}

impl ActivationArgu {
    /// Builds a descriptor from a tag and its auxiliary parameters.
    pub fn new(kind: ActivationKind, argu: Vec<i64>) -> (r: ActivationArgu)
        ensures
            r.kind == kind,
            r.argu == argu,
    {
        ActivationArgu { kind, argu }
    }

    /// The descriptor's auxiliary coefficient.
    pub fn coef(&self) -> (c: i64)
        ensures
            c as int == coef_of(self.argu@),
    {
        if self.argu.len() >= 1 {
            self.argu[0]
        } else {
            0
        }
    }

    /// The activation's value on a whole vector.
    pub fn calc(&self, v: &Vec<i64>) -> (r: Vec<i64>)
        ensures
            r@.len() == v@.len(),
            forall|i: int| 0 <= i < v@.len() ==>
                r@[i] as int == act_calc_elem_s(self.kind, coef_of(self.argu@), ints_of(v@), i),
    {
        match self.kind {
            ActivationKind::SoftMax => softmax_vec(v),
            _ => {
                let c = self.coef();
                let n = v.len();
                let mut r: Vec<i64> = Vec::new();
                let mut i: usize = 0;
                while i < n
                    invariant
                        0 <= i <= n,
                        n == v@.len(),
                        r@.len() == i,
                        c as int == coef_of(self.argu@),
                        self.kind != ActivationKind::SoftMax,
                        forall|k: int| 0 <= k < i ==>
                            r@[k] as int == act_scalar_s(self.kind, c as int, v@[k] as int),
                    decreases n - i,
                {
                    r.push(act_scalar(self.kind, c, v[i]));
                    i = i + 1;
                }
                r
            },
        }
    }

    /// The activation's derivative on a whole vector.
    pub fn derivative(&self, v: &Vec<i64>) -> (r: Vec<i64>)
        ensures
            r@.len() == v@.len(),
            forall|i: int| 0 <= i < v@.len() ==>
                r@[i] as int == act_deriv_elem_s(self.kind, coef_of(self.argu@), ints_of(v@), i),
    {
        match self.kind {
            ActivationKind::SoftMax => {
                let y = softmax_vec(v);
                let n = y.len();
                let mut r: Vec<i64> = Vec::new();
                let mut i: usize = 0;
                while i < n
                    invariant
                        0 <= i <= n,
                        n == y@.len(),
                        y@.len() == v@.len(),
                        r@.len() == i,
                        forall|k: int| 0 <= k < n ==> y@[k] as int == softmax_elem_s(ints_of(v@), k),
                        forall|k: int| 0 <= k < i ==>
                            r@[k] as int == act_deriv_elem_s(
                                ActivationKind::SoftMax, coef_of(self.argu@), ints_of(v@), k),
                    decreases n - i,
                {
                    let yi = y[i];
                    r.push(qmul(yi, qsub(Q_ONE, yi)));
                    i = i + 1;
                }
                r
            },
            _ => {
                let c = self.coef();
                let n = v.len();
                let mut r: Vec<i64> = Vec::new();
                let mut i: usize = 0;
                while i < n
                    invariant
                        0 <= i <= n,
                        n == v@.len(),
                        r@.len() == i,
                        c as int == coef_of(self.argu@),
                        self.kind != ActivationKind::SoftMax,
                        forall|k: int| 0 <= k < i ==>
                            r@[k] as int == act_scalar_deriv_s(self.kind, c as int, v@[k] as int),
                    decreases n - i,
                {
                    r.push(act_scalar_deriv(self.kind, c, v[i]));
                    i = i + 1;
                }
                r
            },
        }
    }
}

} // verus!
