//! The network: an ordered stack of layers.
//!
//! The layer order fixes both the forward traversal and the reverse
//! traversal of backpropagation. A network with no layers is a valid but
//! inert state: forward and training work fails with `EmptyNetwork`.

use vstd::prelude::*;
use crate::activation::ActivationArgu;
use crate::errors::NeuralError;
use crate::layer::{
    LayerModel, NeuralLayer, bw_ok, layer_bw_core_s, layer_out_s, layer_z_s, lcoef, lm_wf,
};
use crate::activation::{act_tag, act_tag_s, kind_from_tag, kind_of_tag_s};
use crate::cost::{CostFunctionArgu, CostFunctions};
use crate::fixed::ints_of;
use crate::matrix::{Matrix, MatModel, col_model, mm_sub, mm_wf};
use crate::sample::{Sample, read_i64s};
use crate::serial::{
    btw_s, bytes_to_words, lemma_unwords_words, lemma_word_i64, lemma_words_round_trip,
    lemma_wtb_len, push_words, unwords_s, words_of_s, words_to_bytes, wtb_s,
};

verus! {

/// The views of a vector of layers.
pub open spec fn views_of(ls: Seq<NeuralLayer>) -> Seq<LayerModel> {
    ls.map_values(|l: NeuralLayer| l@)
}

/// Network well-formedness: every layer well formed, and each layer's
/// input width equal to the previous layer's output width.
pub open spec fn net_wf(ls: Seq<LayerModel>) -> bool {
    &&& forall|i: int| 0 <= i < ls.len() ==> lm_wf(#[trigger] ls[i])
    &&& forall|i: int| 1 <= i < ls.len() ==> (#[trigger] ls[i]).w.cols == ls[i - 1].w.rows
}

/// The forward pass: the input threaded through every layer in order.
/// Depends only on each layer's weights, bias and activation, never on
/// its cached state.
pub open spec fn forward_s(ls: Seq<LayerModel>, x: MatModel) -> MatModel
    decreases ls.len(),
{
    if ls.len() == 0 {
        x
    } else {
        forward_s(ls.drop_first(), layer_out_s(ls[0], x))
    }
}

/// Two layer sequences with the same weights, biases and activations,
/// cached state aside.
pub open spec fn params_eq(a: Seq<LayerModel>, b: Seq<LayerModel>) -> bool {
    &&& a.len() == b.len()
    &&& forall|i: int| 0 <= i < a.len() ==> lparams_eq(#[trigger] a[i], #[trigger] b[i])
}

/// One layer's parameters, cached state aside.
pub open spec fn lparams_eq(x: LayerModel, y: LayerModel) -> bool {
    &&& x.w == y.w
    &&& x.b == y.b
    &&& x.kind == y.kind
    &&& x.argu == y.argu
}

/// The forward pass reads only layer parameters.
pub proof fn lemma_forward_params(a: Seq<LayerModel>, b: Seq<LayerModel>, x: MatModel)
    requires
        params_eq(a, b),
    ensures
        forward_s(a, x) == forward_s(b, x),
    decreases a.len(),
{
    if a.len() > 0 {
        assert(layer_out_s(a[0], x) == layer_out_s(b[0], x));
        assert(params_eq(a.drop_first(), b.drop_first()));
        lemma_forward_params(a.drop_first(), b.drop_first(), layer_out_s(a[0], x));
    }
}

/// The shape of a forward pass through a well-formed network.
pub proof fn lemma_forward_dims(ls: Seq<LayerModel>, x: MatModel)
    requires
        net_wf(ls),
        mm_wf(x),
        ls.len() > 0 ==> x.rows == ls[0].w.cols,
    ensures
        mm_wf(forward_s(ls, x)),
        forward_s(ls, x).cols == x.cols,
        ls.len() > 0 ==> forward_s(ls, x).rows == ls[ls.len() - 1].w.rows,
        ls.len() == 0 ==> forward_s(ls, x) == x,
    decreases ls.len(),
{
    if ls.len() > 0 {
        let y = layer_out_s(ls[0], x);
        assert(mm_wf(y) && y.rows == ls[0].w.rows && y.cols == x.cols);
        let rest = ls.drop_first();
        assert(net_wf(rest)) by {
            assert(forall|i: int| 0 <= i < rest.len() ==> rest[i] == ls[i + 1]);
        }
        lemma_forward_dims(rest, y);
    }
}

/// A stack of layers driving forward inference, backpropagation and the
/// training loop, and owning the model's byte serialization.
#[derive(Clone, Debug)]
pub struct NeuralNetwork {
    pub layers: Vec<NeuralLayer>,
}

impl View for NeuralNetwork {
    type V = Seq<LayerModel>;

    open spec fn view(&self) -> Seq<LayerModel> {
        views_of(self.layers@)
    }
}

impl NeuralNetwork {
    /// Network well-formedness.
    pub open spec fn wf(&self) -> bool {
        net_wf(self@)
    }

    /// The empty network.
    pub fn new() -> (n: NeuralNetwork)
        ensures
            n@.len() == 0,
            n.wf(),
    {
        let n = NeuralNetwork { layers: Vec::new() };
        proof {
            assert(n@ =~= Seq::<LayerModel>::empty());
        }
        n
    }

    /// The layer count.
    pub fn len(&self) -> (n: usize)
        ensures
            n == self@.len(),
    {
        self.layers.len()
    }

    /// Appends a layer; refused with `ShapeMismatch` exactly when the
    /// layer's input width differs from the current last layer's output
    /// width (any width is accepted for the first layer).
    pub fn add_layer(&mut self, layer: NeuralLayer) -> (res: Result<(), NeuralError>)
        requires
            old(self).wf(),
            layer.wf(),
        ensures
            match res {
                Ok(()) => {
                    &&& (old(self)@.len() > 0
                        ==> layer@.w.cols == old(self)@[old(self)@.len() - 1].w.rows)
                    &&& final(self)@ =~= old(self)@.push(layer@)
                    &&& final(self).wf()
                },
                Err(e) => {
                    &&& old(self)@.len() > 0
                    &&& layer@.w.cols != old(self)@[old(self)@.len() - 1].w.rows
                    &&& e == NeuralError::ShapeMismatch
                    &&& *final(self) == *old(self)
                },
            },
    {
        if self.layers.len() > 0 {
            let last = self.layers.len() - 1;
            if layer.weights.get_cols() != self.layers[last].weights.get_rows() {
                return Err(NeuralError::ShapeMismatch);
            }
        }
        self.layers.push(layer);
        proof {
            assert(final(self)@ =~= old(self)@.push(layer@));
        }
        Ok(())
    }

    /// The forward pass, caching each layer's intermediates for a
    /// following backward pass. Fails with `EmptyNetwork` on a network
    /// with no layers and with `ShapeMismatch` exactly when the input's
    /// row count differs from the first layer's input width.
    #[verifier::rlimit(100)]
    pub fn forward(&mut self, input: &Matrix) -> (res: Result<Matrix, NeuralError>)
        requires
            old(self).wf(),
            input.wf(),
        ensures
            match res {
                Ok(out) => {
                    &&& old(self)@.len() > 0
                    &&& input@.rows == old(self)@[0].w.cols
                    &&& out@ == forward_s(old(self)@, input@)
                    &&& out.wf()
                    &&& params_eq(final(self)@, old(self)@)
                    &&& final(self).wf()
                },
                Err(e) => {
                    &&& *final(self) == *old(self)
                    &&& if old(self)@.len() == 0 {
                        e == NeuralError::EmptyNetwork
                    } else {
                        e == NeuralError::ShapeMismatch && input@.rows != old(self)@[0].w.cols
                    }
                },
            },
    {
        let n = self.layers.len();
        if n == 0 {
            return Err(NeuralError::EmptyNetwork);
        }
        if input.get_rows() != self.layers[0].weights.get_cols() {
            return Err(NeuralError::ShapeMismatch);
        }
        let mut cur = input.clone_mat();
        let mut i: usize = 0;
        proof {
            assert(old(self)@.skip(0) =~= old(self)@);
        }
        while i < n
            invariant
                0 <= i <= n,
                n == self.layers@.len(),
                self.layers@.len() == old(self).layers@.len(),
                input.wf(),
                old(self).wf(),
                cur.wf(),
                forall|j: int| i <= j < n
                    ==> views_of(self.layers@)[j] == #[trigger] old(self)@[j],
                forall|j: int| 0 <= j < i
                    ==> lparams_eq(#[trigger] views_of(self.layers@)[j], old(self)@[j])
                        && lm_wf(views_of(self.layers@)[j]),
                i < n ==> cur@.rows == old(self)@[i as int].w.cols,
                i == n ==> cur@.rows == old(self)@[n - 1].w.rows,
                input@.rows == old(self)@[0].w.cols,
                forward_s(old(self)@, input@) == forward_s(old(self)@.skip(i as int), cur@),
            decreases n - i,
        {
            proof {
                assert(old(self)@.skip(i as int)[0] == old(self)@[i as int]);
                assert(old(self)@.skip(i as int).drop_first() =~= old(self)@.skip(i as int + 1));
            }
            let ghost pre_layers = self.layers@;
            let out = match self.layers[i].forward(&cur) {
                Ok(o) => o,
                Err(e) => {
                    return Err(e);
                },
            };
            proof {
                assert(self.layers@ =~= pre_layers.update(i as int, self.layers@[i as int]));
                assert(views_of(self.layers@)[i as int] == self.layers@[i as int]@);
                assert(lparams_eq(views_of(self.layers@)[i as int], old(self)@[i as int]));
                assert(lm_wf(views_of(self.layers@)[i as int]));
                assert forall|j: int| 0 <= j < i
                    implies lparams_eq(#[trigger] views_of(self.layers@)[j], old(self)@[j])
                        && lm_wf(views_of(self.layers@)[j]) by {
                    assert(self.layers@[j] == pre_layers[j]);
                    assert(views_of(self.layers@)[j] == self.layers@[j]@);
                    assert(views_of(pre_layers)[j] == pre_layers[j]@);
                }
                assert forall|j: int| i + 1 <= j < n
                    implies views_of(self.layers@)[j] == #[trigger] old(self)@[j] by {
                    assert(self.layers@[j] == pre_layers[j]);
                    assert(views_of(self.layers@)[j] == self.layers@[j]@);
                    assert(views_of(pre_layers)[j] == pre_layers[j]@);
                }
            }
            cur = out;
            i = i + 1;
        }
        proof {
            assert(old(self)@.skip(n as int) =~= Seq::<LayerModel>::empty());
            assert(params_eq(final(self)@, old(self)@));
        }
        Ok(cur)
    }

    /// The forward pass without touching any cache, from a sample's input
    /// vector; the sample's target is not consulted.
    #[verifier::rlimit(100)]
    pub fn evaluate(&self, sample: &Sample) -> (res: Result<Matrix, NeuralError>)
        requires
            self.wf(),
        ensures
            match res {
                Ok(out) => {
                    &&& self@.len() > 0
                    &&& sample@.input.len() == self@[0].w.cols
                    &&& out@ == forward_s(self@, col_model(sample@.input))
                    &&& out.wf()
                },
                Err(e) => {
                    &&& if self@.len() == 0 {
                        e == NeuralError::EmptyNetwork
                    } else {
                        e == NeuralError::ShapeMismatch
                            && sample@.input.len() != self@[0].w.cols
                    }
                },
            },
    {
        let n = self.layers.len();
        if n == 0 {
            return Err(NeuralError::EmptyNetwork);
        }
        if sample.input.len() != self.layers[0].weights.get_cols() {
            return Err(NeuralError::ShapeMismatch);
        }
        let mut cur = match Matrix::from_col(&sample.input) {
            Ok(m) => m,
            Err(e) => {
                return Err(e);
            },
        };
        let mut i: usize = 0;
        proof {
            assert(self@.skip(0) =~= self@);
        }
        while i < n
            invariant
                0 <= i <= n,
                n == self.layers@.len(),
                self.wf(),
                cur.wf(),
                i < n ==> cur@.rows == self@[i as int].w.cols,
                forward_s(self@, col_model(sample@.input)) == forward_s(self@.skip(i as int), cur@),
            decreases n - i,
        {
            proof {
                assert(self@.skip(i as int)[0] == self@[i as int]);
                assert(self@.skip(i as int).drop_first() =~= self@.skip(i as int + 1));
            }
            let out = match self.layers[i].apply(&cur) {
                Ok(o) => o,
                Err(e) => {
                    return Err(e);
                },
            };
            cur = out;
            i = i + 1;
        }
        proof {
            assert(self@.skip(n as int) =~= Seq::<LayerModel>::empty());
        }
        Ok(cur)
    }
}

/// Matrix values as words, bit for bit.
pub open spec fn uwords_s(d: Seq<int>) -> Seq<u64> {
    d.map_values(|x: int| (x as i64) as u64)
}

/// Every stored value within the machine range; true of every matrix that
/// exists in executable form.
pub open spec fn mm_vals_ok(m: MatModel) -> bool {
    forall|i: int| 0 <= i < m.d.len() ==> i64::MIN <= #[trigger] m.d[i] <= i64::MAX
}

/// The word layout of one layer: tag, parameter count, parameters, row
/// and column counts, the weight values row-major, then the bias values.
pub open spec fn layer_words_s(l: LayerModel) -> Seq<u64> {
    seq![act_tag_s(l.kind), l.argu.len() as u64] + words_of_s(l.argu)
        + seq![l.w.rows as u64, l.w.cols as u64] + uwords_s(l.w.d) + uwords_s(l.b.d)
}

/// The word layout of a stack of layers, in order.
pub open spec fn layers_words_s(ls: Seq<LayerModel>) -> Seq<u64>
    decreases ls.len(),
{
    if ls.len() == 0 {
        Seq::empty()
    } else {
        layer_words_s(ls[0]) + layers_words_s(ls.drop_first())
    }
}

/// The word layout of a whole model: the layer count, then each layer.
pub open spec fn net_words_s(ls: Seq<LayerModel>) -> Seq<u64> {
    seq![ls.len() as u64] + layers_words_s(ls)
}

/// The byte blob of a whole model.
pub open spec fn ser_net_s(ls: Seq<LayerModel>) -> Seq<u8> {
    wtb_s(net_words_s(ls))
}

/// Decoding one layer at a word cursor: the layer and the cursor after
/// it, or `None` on any malformed layout.
pub open spec fn parse_layer_words_s(ws: Seq<u64>, pos: int) -> Option<(LayerModel, int)> {
    if pos < 0 || pos + 2 > ws.len() {
        None
    } else {
        match kind_of_tag_s(ws[pos]) {
            None => None,
            Some(kind) => {
                let alen = ws[pos + 1] as int;
                if pos + 4 + alen > ws.len() {
                    None
                } else {
                    let argu = unwords_s(ws.subrange(pos + 2, pos + 2 + alen));
                    let rows = ws[pos + 2 + alen] as int;
                    let cols = ws[pos + 3 + alen] as int;
                    if !(1 <= rows <= 32768 && 1 <= cols <= 32768) {
                        None
                    } else {
                        let p3 = pos + 4 + alen;
                        if p3 + rows * cols + rows > ws.len() {
                            None
                        } else {
                            let w = MatModel {
                                rows: rows as nat,
                                cols: cols as nat,
                                d: ints_of(unwords_s(ws.subrange(p3, p3 + rows * cols))),
                            };
                            let b = MatModel {
                                rows: rows as nat,
                                cols: 1,
                                d: ints_of(unwords_s(
                                    ws.subrange(p3 + rows * cols, p3 + rows * cols + rows))),
                            };
                            Some((
                                LayerModel { w, b, kind, argu, z: None, out: None },
                                p3 + rows * cols + rows,
                            ))
                        }
                    }
                }
            },
        }
    }
}

/// Decoding `k` layers from a word cursor.
pub open spec fn parse_layers_words_s(ws: Seq<u64>, pos: int, k: int) -> Option<
    (Seq<LayerModel>, int),
>
    decreases k,
{
    if k <= 0 {
        Some((Seq::empty(), pos))
    } else {
        match parse_layer_words_s(ws, pos) {
            None => None,
            Some((l, p2)) => match parse_layers_words_s(ws, p2, k - 1) {
                None => None,
                Some((rest, e)) => Some((seq![l] + rest, e)),
            },
        }
    }
}

/// Adjacent layers agree on their shared width.
pub open spec fn chain_ok(ls: Seq<LayerModel>) -> bool {
    forall|i: int| 1 <= i < ls.len() ==> (#[trigger] ls[i]).w.cols == ls[i - 1].w.rows
}

/// Decoding a whole model from words: the layer count, each layer, no
/// trailing words, and a consistent layer chain.
pub open spec fn parse_net_words_s(ws: Seq<u64>) -> Option<Seq<LayerModel>> {
    if ws.len() < 1 {
        None
    } else {
        match parse_layers_words_s(ws, 1, ws[0] as int) {
            None => None,
            Some((ls, e)) => if e != ws.len() || !chain_ok(ls) {
                None
            } else {
                Some(ls)
            },
        }
    }
}

/// Decoding a whole model from bytes.
pub open spec fn parse_net_s(bs: Seq<u8>) -> Option<Seq<LayerModel>> {
    if bs.len() % 8 != 0 {
        None
    } else {
        parse_net_words_s(btw_s(bs))
    }
}

/// A layer with its cached forward-pass state dropped, as decoding
/// reconstructs it.
pub open spec fn strip_s(l: LayerModel) -> LayerModel {
    LayerModel { w: l.w, b: l.b, kind: l.kind, argu: l.argu, z: None, out: None }
}

/// A whole stack of layers with cached state dropped.
pub open spec fn strip_all_s(ls: Seq<LayerModel>) -> Seq<LayerModel> {
    ls.map_values(|l: LayerModel| strip_s(l))
}

proof fn lemma_uwords_inverse(d: Seq<int>)
    requires
        forall|i: int| 0 <= i < d.len() ==> i64::MIN <= #[trigger] d[i] <= i64::MAX,
    ensures
        ints_of(unwords_s(uwords_s(d))) =~= d,
{
    assert forall|i: int| 0 <= i < d.len()
        implies ints_of(unwords_s(uwords_s(d)))[i] == d[i] by {
        lemma_word_i64(d[i] as i64);
    }
}

/// Decoding the encoding of one well-formed layer gives the layer back,
/// cached state aside, wherever it stands in a word stream.
#[verifier::rlimit(100)]
proof fn lemma_parse_layer_of_ser(ws: Seq<u64>, pos: int, l: LayerModel)
    requires
        lm_wf(l),
        mm_vals_ok(l.w),
        mm_vals_ok(l.b),
        l.argu.len() <= u64::MAX,
        0 <= pos,
        pos + layer_words_s(l).len() <= ws.len(),
        ws.subrange(pos, pos + layer_words_s(l).len()) == layer_words_s(l),
    ensures
        parse_layer_words_s(ws, pos)
            == Some((strip_s(l), pos + layer_words_s(l).len())),
{
    let lw = layer_words_s(l);
    let ll = lw.len() as int;
    let alen = l.argu.len() as int;
    let rows = l.w.rows as int;
    let cols = l.w.cols as int;
    let wl = l.w.d.len() as int;
    assert(ll == 4 + alen + wl + rows);
    assert forall|j: int| 0 <= j < ll implies ws[pos + j] == lw[j] by {
        assert(ws.subrange(pos, pos + ll)[j] == ws[pos + j]);
    }
    assert(ws[pos + 0] == lw[0] && ws[pos + 1] == lw[1]);
    assert(lw[0] == act_tag_s(l.kind));
    assert(lw[1] == l.argu.len() as u64);
    assert(kind_of_tag_s(act_tag_s(l.kind)) == Some(l.kind));
    assert(ws.subrange(pos + 2, pos + 2 + alen) =~= words_of_s(l.argu)) by {
        assert forall|j: int| 0 <= j < alen
            implies ws.subrange(pos + 2, pos + 2 + alen)[j] == words_of_s(l.argu)[j] by {
            assert(ws.subrange(pos + 2, pos + 2 + alen)[j] == ws[pos + (2 + j)]);
            assert(ws[pos + (2 + j)] == lw[2 + j]);
            assert(lw[2 + j] == words_of_s(l.argu)[j]);
        }
    }
    lemma_unwords_words(l.argu);
    assert(ws[pos + (2 + alen)] == lw[2 + alen] && ws[pos + (3 + alen)] == lw[3 + alen]);
    assert(lw[2 + alen] == l.w.rows as u64);
    assert(lw[3 + alen] == l.w.cols as u64);
    let p3 = pos + 4 + alen;
    assert(wl == rows * cols);
    assert(ws.subrange(p3, p3 + rows * cols) =~= uwords_s(l.w.d)) by {
        assert forall|j: int| 0 <= j < wl
            implies ws.subrange(p3, p3 + rows * cols)[j] == uwords_s(l.w.d)[j] by {
            assert(ws.subrange(p3, p3 + rows * cols)[j] == ws[pos + (4 + alen + j)]);
            assert(ws[pos + (4 + alen + j)] == lw[4 + alen + j]);
            assert(lw[4 + alen + j] == uwords_s(l.w.d)[j]);
        }
    }
    assert(ws.subrange(p3 + rows * cols, p3 + rows * cols + rows) =~= uwords_s(l.b.d)) by {
        assert forall|j: int| 0 <= j < rows
            implies ws.subrange(p3 + rows * cols, p3 + rows * cols + rows)[j]
                == uwords_s(l.b.d)[j] by {
            assert(ws.subrange(p3 + rows * cols, p3 + rows * cols + rows)[j]
                == ws[pos + (4 + alen + wl + j)]);
            assert(ws[pos + (4 + alen + wl + j)] == lw[4 + alen + wl + j]);
            assert(lw[4 + alen + wl + j] == uwords_s(l.b.d)[j]);
        }
    }
    lemma_uwords_inverse(l.w.d);
    lemma_uwords_inverse(l.b.d);
    let parsed = parse_layer_words_s(ws, pos)->Some_0;
    assert(parsed.0.w =~= l.w);
    assert(parsed.0.b =~= l.b);
    assert(parsed.0 =~= strip_s(l));
}

/// Decoding the encoding of a well-formed stack of layers gives the
/// stack back, cached state aside.
proof fn lemma_parse_layers_of_ser(ws: Seq<u64>, pos: int, ls: Seq<LayerModel>)
    requires
        forall|i: int| 0 <= i < ls.len() ==> lm_wf(#[trigger] ls[i]),
        forall|i: int| 0 <= i < ls.len()
            ==> mm_vals_ok((#[trigger] ls[i]).w) && mm_vals_ok(ls[i].b)
                && ls[i].argu.len() <= u64::MAX,
        0 <= pos,
        pos + layers_words_s(ls).len() <= ws.len(),
        ws.subrange(pos, pos + layers_words_s(ls).len()) == layers_words_s(ls),
    ensures
        parse_layers_words_s(ws, pos, ls.len() as int)
            == Some((strip_all_s(ls), pos + layers_words_s(ls).len())),
    decreases ls.len(),
{
    if ls.len() == 0 {
        assert(strip_all_s(ls) =~= Seq::<LayerModel>::empty());
        assert(parse_layers_words_s(ws, pos, 0) == Some((Seq::<LayerModel>::empty(), pos)));
    } else {
        let l0 = ls[0];
        let rest = ls.drop_first();
        let lw0 = layer_words_s(l0);
        let tail = layers_words_s(rest);
        assert(layers_words_s(ls) == lw0 + tail);
        assert(ws.subrange(pos, pos + lw0.len()) =~= lw0) by {
            assert forall|j: int| 0 <= j < lw0.len()
                implies ws.subrange(pos, pos + lw0.len())[j] == lw0[j] by {
                assert(ws.subrange(pos, pos + layers_words_s(ls).len())[j] == ws[pos + j]);
                assert((lw0 + tail)[j] == lw0[j]);
            }
        }
        lemma_parse_layer_of_ser(ws, pos, l0);
        let p2 = pos + lw0.len() as int;
        assert(ws.subrange(p2, p2 + tail.len()) =~= tail) by {
            assert forall|j: int| 0 <= j < tail.len()
                implies ws.subrange(p2, p2 + tail.len())[j] == tail[j] by {
                assert(ws.subrange(pos, pos + layers_words_s(ls).len())[lw0.len() + j]
                    == ws[p2 + j]);
                assert((lw0 + tail)[lw0.len() + j] == tail[j]);
            }
        }
        assert(forall|i: int| 0 <= i < rest.len() ==> rest[i] == ls[i + 1]);
        lemma_parse_layers_of_ser(ws, p2, rest);
        assert(strip_all_s(ls) =~= seq![strip_s(l0)] + strip_all_s(rest));
    }
}

/// Well-formed values everywhere in a stack of layers: true of every
/// network that exists in executable form.
pub open spec fn net_vals_ok(ls: Seq<LayerModel>) -> bool {
    forall|i: int| 0 <= i < ls.len()
        ==> mm_vals_ok((#[trigger] ls[i]).w) && mm_vals_ok(ls[i].b)
            && ls[i].argu.len() <= u64::MAX
}

/// Every network that exists in executable form has machine-range values
/// and parameter lists.
pub proof fn lemma_views_vals_ok(layers: Seq<NeuralLayer>)
    ensures
        net_vals_ok(views_of(layers)),
        views_of(layers).len() == layers.len(),
{
    assert forall|i: int| 0 <= i < layers.len()
        implies mm_vals_ok((#[trigger] views_of(layers)[i]).w)
            && mm_vals_ok(views_of(layers)[i].b)
            && views_of(layers)[i].argu.len() <= u64::MAX by {
        assert(views_of(layers)[i] == layers[i]@);
        let l = layers[i];
        assert forall|j: int| 0 <= j < l@.w.d.len()
            implies i64::MIN <= #[trigger] l@.w.d[j] <= i64::MAX by {
            assert(l@.w.d[j] == l.weights.data@[j] as int);
        }
        assert forall|j: int| 0 <= j < l@.b.d.len()
            implies i64::MIN <= #[trigger] l@.b.d[j] <= i64::MAX by {
            assert(l@.b.d[j] == l.bias.data@[j] as int);
        }
        vstd::std_specs::vec::axiom_spec_len(&l.activation.argu);
    }
}

/// Serialization is lossless: decoding a well-formed model's blob gives
/// the model back, cached forward-pass state aside, and in particular a
/// model with the same weights, biases and activations.
#[verifier::rlimit(100)]
#[verifier::spinoff_prover]
pub proof fn lemma_model_round_trip(ls: Seq<LayerModel>)
    requires
        net_wf(ls),
        net_vals_ok(ls),
        ls.len() <= u64::MAX,
    ensures
        parse_net_s(ser_net_s(ls)) == Some(strip_all_s(ls)),
        params_eq(strip_all_s(ls), ls),
{
    let ws = net_words_s(ls);
    let bs = ser_net_s(ls);
    lemma_wtb_len(ws);
    lemma_words_round_trip(ws);
    assert(bs.len() % 8 == 0);
    assert(btw_s(bs) == ws);
    assert(ws.len() >= 1);
    assert(ws[0] == ls.len() as u64);
    assert(ws.subrange(1, 1 + layers_words_s(ls).len() as int) =~= layers_words_s(ls));
    lemma_parse_layers_of_ser(ws, 1, ls);
    assert(parse_layers_words_s(ws, 1, ls.len() as int)
        == Some((strip_all_s(ls), ws.len() as int)));
    assert(strip_all_s(ls).len() == ls.len());
    assert(params_eq(strip_all_s(ls), ls)) by {
        assert forall|i: int| 0 <= i < ls.len()
            implies lparams_eq(#[trigger] strip_all_s(ls)[i], ls[i]) by {
            assert(strip_all_s(ls)[i] == strip_s(ls[i]));
        }
    }
    assert(chain_ok(strip_all_s(ls))) by {
        assert forall|i: int| 1 <= i < strip_all_s(ls).len()
            implies (#[trigger] strip_all_s(ls)[i]).w.cols == strip_all_s(ls)[i - 1].w.rows by {
            assert(strip_all_s(ls)[i] == strip_s(ls[i]));
            assert(strip_all_s(ls)[i - 1] == strip_s(ls[i - 1]));
        }
    }
    assert(parse_net_words_s(ws) == Some(strip_all_s(ls)));
}

/// A model blob decodes to a network that evaluates exactly as the
/// network it was taken from, on every input.
pub proof fn lemma_serialization_preserves_evaluation(ls: Seq<LayerModel>, x: MatModel)
    requires
        net_wf(ls),
        net_vals_ok(ls),
        ls.len() <= u64::MAX,
    ensures
        parse_net_s(ser_net_s(ls)) is Some,
        forward_s(parse_net_s(ser_net_s(ls))->Some_0, x) == forward_s(ls, x),
{
    lemma_model_round_trip(ls);
    lemma_forward_params(strip_all_s(ls), ls, x);
}

proof fn lemma_uwords_of_view(v: Seq<i64>)
    ensures
        uwords_s(ints_of(v)) =~= words_of_s(v),
{
    assert forall|i: int| 0 <= i < v.len()
        implies uwords_s(ints_of(v))[i] == words_of_s(v)[i] by {
        assert(ints_of(v)[i] == v[i] as int);
    }
}

impl NeuralNetwork {
    /// The model's byte blob: the layer count, then each layer's tag,
    /// parameters, shape, weights and bias, all as little-endian words.
    #[verifier::rlimit(100)]
    pub fn get_serial(&self) -> (r: Vec<u8>)
        ensures
            r@ == ser_net_s(self@),
    {
        let n = self.layers.len();
        let mut ws: Vec<u64> = Vec::new();
        ws.push(n as u64);
        let mut i: usize = 0;
        proof {
            assert(self@.skip(0) =~= self@);
            assert(ws@ =~= seq![n as u64]);
        }
        while i < n
            invariant
                0 <= i <= n,
                n == self.layers@.len(),
                ws@ + layers_words_s(self@.skip(i as int)) =~= net_words_s(self@),
            decreases n - i,
        {
            let l = &self.layers[i];
            let ghost pre = ws@;
            ws.push(act_tag(l.activation.kind));
            ws.push(l.activation.argu.len() as u64);
            push_words(&mut ws, &l.activation.argu);
            ws.push(l.weights.get_rows() as u64);
            ws.push(l.weights.get_cols() as u64);
            let wd = l.weights.flat();
            push_words(&mut ws, &wd);
            let bd = l.bias.flat();
            push_words(&mut ws, &bd);
            proof {
                let lv = self@[i as int];
                lemma_uwords_of_view(wd@);
                lemma_uwords_of_view(bd@);
                assert(uwords_s(lv.w.d) =~= words_of_s(wd@));
                assert(uwords_s(lv.b.d) =~= words_of_s(bd@));
                assert(ws@ =~= pre + layer_words_s(lv));
                assert(self@.skip(i as int)[0] == lv);
                assert(self@.skip(i as int).drop_first() =~= self@.skip(i as int + 1));
                assert(layers_words_s(self@.skip(i as int))
                    == layer_words_s(lv) + layers_words_s(self@.skip(i as int + 1)));
                assert((pre + layer_words_s(lv)) + layers_words_s(self@.skip(i as int + 1))
                    =~= pre + (layer_words_s(lv) + layers_words_s(self@.skip(i as int + 1))));
            }
            i = i + 1;
        }
        proof {
            assert(self@.skip(n as int) =~= Seq::<LayerModel>::empty());
            assert(ws@ + layers_words_s(self@.skip(n as int)) =~= ws@);
            assert(ws@ =~= net_words_s(self@));
        }
        words_to_bytes(&ws)
    }

    /// Rebuilds a network from a model blob. Every layer's weights, bias
    /// and activation descriptor are reconstructed exactly; any malformed
    /// byte sequence is refused with `ModelParsingError`.
    #[verifier::rlimit(100)]
    pub fn get_neural_from_str(bytes: Vec<u8>) -> (res: Result<NeuralNetwork, NeuralError>)
        ensures
            match res {
                Ok(n) => {
                    &&& parse_net_s(bytes@) == Some(n@)
                    &&& n.wf()
                },
                Err(e) => parse_net_s(bytes@) is None && e == NeuralError::ModelParsingError,
            },
    {
        if bytes.len() % 8 != 0 {
            return Err(NeuralError::ModelParsingError);
        }
        let ws = bytes_to_words(&bytes);
        let total = ws.len();
        if total < 1 {
            return Err(NeuralError::ModelParsingError);
        }
        let nl_w = ws[0];
        let ghost nl_g = nl_w as int;
        if nl_w > (total as u64) {
            proof {
                lemma_parse_layers_too_many(ws@, 1, nl_g);
            }
            return Err(NeuralError::ModelParsingError);
        }
        let nl = nl_w as usize;
        let mut layers: Vec<NeuralLayer> = Vec::new();
        let mut pos: usize = 1;
        let mut k: usize = 0;
        while k < nl
            invariant
                0 <= k <= nl,
                nl == nl_g,
                nl_g == ws@[0] as int,
                1 <= pos <= total,
                total == ws@.len(),
                total >= 1,
                bytes@.len() % 8 == 0,
                btw_s(bytes@) == ws@,
                layers@.len() == k,
                forall|j: int| 0 <= j < k ==> lm_wf(#[trigger] views_of(layers@)[j]),
                match parse_layers_words_s(ws@, pos as int, nl_g - k) {
                    Some(t) => parse_layers_words_s(ws@, 1, nl_g)
                        == Some((views_of(layers@) + t.0, t.1)),
                    None => parse_layers_words_s(ws@, 1, nl_g) is None,
                },
            decreases nl - k,
        {
            let (layer, newpos) = match parse_one_layer(&ws, pos) {
                Ok(t) => t,
                Err(e) => {
                    proof {
                        lemma_parse_layers_none(ws@, pos as int, nl_g - k);
                        assert(parse_layers_words_s(ws@, pos as int, nl_g - k) is None);
                        assert(parse_layers_words_s(ws@, 1, nl_g) is None);
                        assert(nl_g == ws@[0] as int);
                        assert(ws@.len() >= 1);
                        assert(parse_net_words_s(ws@) is None);
                        assert(bytes@.len() % 8 == 0);
                        assert(btw_s(bytes@) == ws@);
                        assert(parse_net_s(bytes@) is None);
                    }
                    return Err(NeuralError::ModelParsingError);
                },
            };
            let ghost pre_layers = layers@;
            layers.push(layer);
            proof {
                assert(views_of(layers@) =~= views_of(pre_layers).push(layer@));
                match parse_layers_words_s(ws@, newpos as int, nl_g - (k + 1)) {
                    Some(t) => {
                        assert(views_of(pre_layers).push(layer@) + t.0
                            =~= views_of(pre_layers) + (seq![layer@] + t.0));
                    },
                    None => {},
                }
            }
            pos = newpos;
            k = k + 1;
        }
        if pos != total {
            return Err(NeuralError::ModelParsingError);
        }
        if !chain_check(&layers) {
            return Err(NeuralError::ModelParsingError);
        }
        let n = NeuralNetwork { layers };
        proof {
            assert(views_of(n.layers@) + Seq::<LayerModel>::empty() =~= n@);
            assert(chain_ok(n@));
            assert(parse_net_words_s(ws@) == Some(n@));
        }
        Ok(n)
    }
}

/// Whether adjacent layers agree on their shared width.
#[verifier::rlimit(100)]
fn chain_check(layers: &Vec<NeuralLayer>) -> (r: bool)
    ensures
        r <==> chain_ok(views_of(layers@)),
{
    let nl = layers.len();
    let mut j: usize = 1;
    let mut chain_good = true;
    while j < nl
        invariant
            nl == layers@.len(),
            1 <= j <= nl || (nl == 0 && j == 1),
            chain_good <==> (forall|t: int| 1 <= t < j
                ==> (#[trigger] views_of(layers@)[t]).w.cols
                    == views_of(layers@)[t - 1].w.rows),
        decreases nl - j,
    {
        proof {
            assert(views_of(layers@)[j as int] == layers@[j as int]@);
            assert(views_of(layers@)[j as int - 1] == layers@[j as int - 1]@);
        }
        if layers[j].weights.get_cols() != layers[j - 1].weights.get_rows() {
            chain_good = false;
        }
        j = j + 1;
    }
    chain_good
}

/// Decodes one layer at a word cursor, mirroring `parse_layer_words_s`.
#[verifier::rlimit(100)]
fn parse_one_layer(ws: &Vec<u64>, pos: usize) -> (res: Result<(NeuralLayer, usize), NeuralError>)
    requires
        1 <= pos <= ws@.len(),
    ensures
        match res {
            Ok(t) => {
                &&& parse_layer_words_s(ws@, pos as int) == Some((t.0@, t.1 as int))
                &&& lm_wf(t.0@)
                &&& pos < t.1 <= ws@.len()
            },
            Err(e) => parse_layer_words_s(ws@, pos as int) is None
                && e == NeuralError::ModelParsingError,
        },
{
    let total = ws.len();
    let rem = total - pos;
    if rem < 2 {
        return Err(NeuralError::ModelParsingError);
    }
    let kind = match kind_from_tag(ws[pos]) {
        Ok(kk) => kk,
        Err(_) => {
            return Err(NeuralError::ModelParsingError);
        },
    };
    let alen_w = ws[pos + 1];
    if alen_w > rem as u64 {
        return Err(NeuralError::ModelParsingError);
    }
    let alen = alen_w as usize;
    if rem - alen < 4 {
        return Err(NeuralError::ModelParsingError);
    }
    let mut cur: usize = pos + 2;
    let argu = read_i64s(ws, &mut cur, alen);
    let rows_w = ws[cur];
    let cols_w = ws[cur + 1];
    if rows_w < 1 || rows_w > 32768 || cols_w < 1 || cols_w > 32768 {
        return Err(NeuralError::ModelParsingError);
    }
    let rows = rows_w as usize;
    let cols = cols_w as usize;
    cur = cur + 2;
    proof {
        assert((rows as int) * (cols as int) <= 0x40000000int) by (nonlinear_arith)
            requires
                0 < (rows as int) <= 32768,
                0 < (cols as int) <= 32768,
        ;
    }
    let wl = rows * cols;
    if wl > total - cur || rows > total - cur - wl {
        return Err(NeuralError::ModelParsingError);
    }
    let wdata = read_i64s(ws, &mut cur, wl);
    let bdata = read_i64s(ws, &mut cur, rows);
    let weights = Matrix { rows, cols, data: wdata };
    let bias = Matrix { rows, cols: 1, data: bdata };
    let layer = NeuralLayer {
        weights,
        bias,
        activation: ActivationArgu { kind, argu },
        cached_z: None,
        cached_output: None,
    };
    proof {
        let ghost parsed = parse_layer_words_s(ws@, pos as int);
        assert(parsed is Some);
        assert(layer@.w.d =~= parsed->Some_0.0.w.d);
        assert(layer@.b.d =~= parsed->Some_0.0.b.d);
        assert(layer@ =~= parsed->Some_0.0);
        assert(parsed == Some((layer@, cur as int)));
        assert(lm_wf(layer@));
    }
    Ok((layer, cur))
}

/// A successful layer parse advances the cursor by at least six and never
/// past the end.
proof fn lemma_parse_layer_bounds(ws: Seq<u64>, pos: int)
    requires
        parse_layer_words_s(ws, pos) is Some,
    ensures
        parse_layer_words_s(ws, pos)->Some_0.1 >= pos + 6,
        parse_layer_words_s(ws, pos)->Some_0.1 <= ws.len(),
{
    let alen = ws[pos + 1] as int;
    let rows = ws[pos + 2 + alen] as int;
    let cols = ws[pos + 3 + alen] as int;
    assert(rows * cols >= 1) by (nonlinear_arith)
        requires
            rows >= 1,
            cols >= 1,
    ;
}

/// More layers were promised than the stream can hold: each takes at
/// least six words.
proof fn lemma_parse_layers_too_many(ws: Seq<u64>, pos: int, k: int)
    requires
        k >= 1,
        6 * k + pos > ws.len(),
        pos >= 0,
    ensures
        parse_layers_words_s(ws, pos, k) is None,
    decreases k,
{
    match parse_layer_words_s(ws, pos) {
        None => {},
        Some((l, p2)) => {
            lemma_parse_layer_bounds(ws, pos);
            if k == 1 {
                assert(false);
            } else {
                lemma_parse_layers_too_many(ws, p2, k - 1);
            }
        },
    }
}

/// Unfolding helper: a failed layer parse fails the stack parse.
proof fn lemma_parse_layers_none(ws: Seq<u64>, pos: int, k: int)
    requires
        k >= 1,
        parse_layer_words_s(ws, pos) is None,
    ensures
        parse_layers_words_s(ws, pos, k) is None,
{
}


/// The input reaching layer `i` of a forward pass: the original input for
/// the first layer, the previous layer's output after that.
pub open spec fn acts_s(ls: Seq<LayerModel>, x: MatModel, i: int) -> MatModel
    decreases i,
{
    if i <= 0 {
        x
    } else {
        layer_out_s(ls[i - 1], acts_s(ls, x, i - 1))
    }
}

proof fn lemma_forward_snoc(ls: Seq<LayerModel>, l: LayerModel, x: MatModel)
    ensures
        forward_s(ls.push(l), x) == layer_out_s(l, forward_s(ls, x)),
    decreases ls.len(),
{
    if ls.len() == 0 {
        assert(ls.push(l)[0] == l);
        assert(ls.push(l).drop_first() =~= Seq::<LayerModel>::empty());
        assert(forward_s(ls.push(l), x)
            == forward_s(Seq::<LayerModel>::empty(), layer_out_s(l, x)));
        assert(forward_s(ls, x) == x);
    } else {
        assert(ls.push(l)[0] == ls[0]);
        assert(ls.push(l).drop_first() =~= ls.drop_first().push(l));
        assert(forward_s(ls.push(l), x)
            == forward_s(ls.drop_first().push(l), layer_out_s(ls[0], x)));
        lemma_forward_snoc(ls.drop_first(), l, layer_out_s(ls[0], x));
        assert(forward_s(ls, x) == forward_s(ls.drop_first(), layer_out_s(ls[0], x)));
    }
}

/// The layer inputs are the forward passes of the prefixes.
pub proof fn lemma_acts_forward(ls: Seq<LayerModel>, x: MatModel, i: int)
    requires
        0 <= i <= ls.len(),
    ensures
        acts_s(ls, x, i) == forward_s(ls.take(i), x),
    decreases i,
{
    if i == 0 {
        assert(ls.take(0) =~= Seq::<LayerModel>::empty());
    } else {
        lemma_acts_forward(ls, x, i - 1);
        assert(ls.take(i) =~= ls.take(i - 1).push(ls[i - 1]));
        lemma_forward_snoc(ls.take(i - 1), ls[i - 1], x);
    }
}

proof fn lemma_strip_lparams(ls: Seq<LayerModel>)
    ensures
        strip_all_s(ls).len() == ls.len(),
        forall|q: int| 0 <= q < ls.len()
            ==> lparams_eq(#[trigger] strip_all_s(ls)[q], ls[q]),
{
    assert forall|q: int| 0 <= q < ls.len()
        implies lparams_eq(#[trigger] strip_all_s(ls)[q], ls[q]) by {
        assert(strip_all_s(ls)[q] == strip_s(ls[q]));
    }
}

proof fn lemma_strip_params(a: Seq<LayerModel>, b: Seq<LayerModel>)
    requires
        a.len() == b.len(),
        forall|q: int| 0 <= q < a.len() ==> lparams_eq(#[trigger] a[q], #[trigger] b[q]),
    ensures
        strip_all_s(a) =~= strip_all_s(b),
{
    assert forall|q: int| 0 <= q < a.len()
        implies strip_all_s(a)[q] == strip_all_s(b)[q] by {
        assert(strip_all_s(a)[q] == strip_s(a[q]));
        assert(strip_all_s(b)[q] == strip_s(b[q]));
    }
}

proof fn lemma_train_sample_unfold(
    stf: Seq<LayerModel>,
    st_old: Seq<LayerModel>,
    smp: crate::sample::SampleModel,
    lr: int,
)
    requires
        stf == bp_s(
            st_old,
            col_model(smp.input),
            mm_sub(forward_s(st_old, col_model(smp.input)), col_model(smp.target)),
            st_old.len() as int,
            lr,
        ),
    ensures
        stf == train_sample_s(st_old, smp, lr),
{
}

proof fn lemma_shapes_trans(a: Seq<LayerModel>, b: Seq<LayerModel>, c: Seq<LayerModel>)
    requires
        shapes_eq(a, b),
        b.len() == c.len(),
        forall|q: int| 0 <= q < b.len() ==> lparams_eq(#[trigger] b[q], #[trigger] c[q]),
    ensures
        shapes_eq(a, c),
{
    assert forall|q: int| 0 <= q < a.len()
        implies (#[trigger] a[q]).w.rows == c[q].w.rows && a[q].w.cols == c[q].w.cols
            && a[q].b.rows == c[q].b.rows && a[q].b.cols == c[q].b.cols
            && a[q].kind == c[q].kind && a[q].argu == c[q].argu by {
        assert(lparams_eq(b[q], c[q]));
    }
}

proof fn lemma_layer_params_io(a: LayerModel, b: LayerModel, x: MatModel)
    requires
        lparams_eq(a, b),
    ensures
        layer_z_s(a, x) == layer_z_s(b, x),
        layer_out_s(a, x) == layer_out_s(b, x),
{
}

/// Layer inputs depend only on the parameters of the earlier layers.
proof fn lemma_acts_params(a: Seq<LayerModel>, b: Seq<LayerModel>, x: MatModel, i: int)
    requires
        0 <= i,
        forall|j: int| 0 <= j < i ==> lparams_eq(#[trigger] a[j], #[trigger] b[j]),
    ensures
        acts_s(a, x, i) == acts_s(b, x, i),
    decreases i,
{
    if i > 0 {
        lemma_acts_params(a, b, x, i - 1);
        lemma_layer_params_io(a[i - 1], b[i - 1], acts_s(a, x, i - 1));
    }
}

/// The backward fold: the error signal entering layer `i - 1` drives one
/// `layer_bw_core_s` step there, and the returned signal then drives the
/// layers before it. Layer inputs and pre-activations are recomputed from
/// the original parameters, which the fold leaves untouched below `i`.
pub open spec fn bp_s(ls: Seq<LayerModel>, x: MatModel, err: MatModel, i: int, lr: int)
    -> Seq<LayerModel>
    decreases i,
{
    if i <= 0 {
        ls
    } else {
        let inp = acts_s(ls, x, i - 1);
        let z = layer_z_s(ls[i - 1], inp);
        let st = layer_bw_core_s(ls[i - 1], z, err, inp, lr);
        bp_s(ls.update(i - 1, st.0), x, st.1, i - 1, lr)
    }
}

/// The views of a vector of samples.
pub open spec fn sample_views(ss: Seq<Sample>) -> Seq<crate::sample::SampleModel> {
    ss.map_values(|s: Sample| s@)
}

/// One online gradient-descent step: a forward pass, the output error
/// seeded as `prediction - target` (the squared-error gradient and the
/// softmax-cross-entropy simplification alike, spec'd once for both
/// costs), and the backward fold through all layers in reverse order.
pub open spec fn train_sample_s(ls: Seq<LayerModel>, smp: crate::sample::SampleModel, lr: int)
    -> Seq<LayerModel> {
    let x = col_model(smp.input);
    let t = col_model(smp.target);
    bp_s(ls, x, mm_sub(forward_s(ls, x), t), ls.len() as int, lr)
}

/// The first `k` samples folded through `train_sample_s`, in order.
pub open spec fn train_epoch_s(
    ls: Seq<LayerModel>,
    ss: Seq<crate::sample::SampleModel>,
    k: int,
    lr: int,
) -> Seq<LayerModel>
    decreases k,
{
    if k <= 0 {
        ls
    } else {
        train_sample_s(train_epoch_s(ls, ss, k - 1, lr), ss[k - 1], lr)
    }
}

/// The whole training run: `epochs` full passes over the sample list.
/// The cost tag is carried for dispatch symmetry; both enumerated costs
/// seed the same `prediction - target` gradient.
pub open spec fn train_s(
    ls: Seq<LayerModel>,
    ss: Seq<crate::sample::SampleModel>,
    epochs: int,
    lr: int,
    cost: CostFunctions,
) -> Seq<LayerModel>
    decreases epochs,
{
    if epochs <= 0 {
        ls
    } else {
        train_epoch_s(train_s(ls, ss, epochs - 1, lr, cost), ss, ss.len() as int, lr)
    }
}

/// Whether every sample's input and target widths agree with the
/// network's declared input and output widths.
pub open spec fn samples_ok_s(ls: Seq<LayerModel>, ss: Seq<Sample>) -> bool {
    forall|k: int| 0 <= k < ss.len()
        ==> (#[trigger] ss[k])@.input.len() == ls[0].w.cols
            && ss[k]@.target.len() == ls[ls.len() - 1].w.rows
}

/// Layer shapes and activations preserved between two stacks; only the
/// stored weight and bias values may differ.
pub open spec fn shapes_eq(a: Seq<LayerModel>, b: Seq<LayerModel>) -> bool {
    &&& a.len() == b.len()
    &&& forall|i: int| 0 <= i < a.len()
        ==> (#[trigger] a[i]).w.rows == b[i].w.rows && a[i].w.cols == b[i].w.cols
            && a[i].b.rows == b[i].b.rows && a[i].b.cols == b[i].b.cols
            && a[i].kind == b[i].kind && a[i].argu == b[i].argu
}


impl NeuralNetwork {
    /// One online gradient-descent step on one sample: a cached forward
    /// pass, the output error seeded as `prediction - target`, and a
    /// backward pass through the layers in reverse order — exactly the
    /// fold `train_sample_s`.
    #[verifier::rlimit(100)]
    fn train_one(&mut self, s: &Sample, learning_rate: i64) -> (res: Result<(), NeuralError>)
        requires
            old(self).wf(),
            old(self)@.len() > 0,
            s@.input.len() == old(self)@[0].w.cols,
            s@.target.len() == old(self)@[old(self)@.len() - 1].w.rows,
        ensures
            res is Ok,
            final(self).wf(),
            shapes_eq(final(self)@, old(self)@),
            strip_all_s(final(self)@)
                == train_sample_s(strip_all_s(old(self)@), s@, learning_rate as int),
    {
        let ghost st_old = strip_all_s(old(self)@);
        let ghost x0 = col_model(s@.input);
        let ghost t0 = col_model(s@.target);
        let n = self.layers.len();
        proof {
            lemma_strip_lparams(old(self)@);
            assert(lm_wf(old(self)@[0]));
            assert(lm_wf(old(self)@[old(self)@.len() - 1]));
        }
        let x = match Matrix::from_col(&s.input) {
            Ok(m) => m,
            Err(e) => {
                return Err(e);
            },
        };
        let t = match Matrix::from_col(&s.target) {
            Ok(m) => m,
            Err(e) => {
                return Err(e);
            },
        };
        let (acts, pred) = match self.fwd_phase(x, Ghost(st_old), Ghost(x0)) {
            Ok(ap) => ap,
            Err(e) => {
                return Err(e);
            },
        };
        let ghost mid2 = self@;
        proof {
            assert forall|q: int| 0 <= q < st_old.len()
                implies lparams_eq(#[trigger] st_old[q], mid2[q]) by {
                assert(lparams_eq(st_old[q], old(self)@[q]));
                assert(lparams_eq(mid2[q], old(self)@[q]));
            }
        }
        let r = self.bwd_phase(&acts, pred, &t, learning_rate, Ghost(st_old), Ghost(x0));
        proof {
            lemma_train_sample_unfold(strip_all_s(final(self)@), st_old, s@,
                learning_rate as int);
            lemma_shapes_trans(final(self)@, mid2, old(self)@);
        }
        r
    }

    /// The forward half of one training step: threads the input through
    /// every layer, caching each pre-activation, and hands back the
    /// per-layer inputs and the prediction.
    #[verifier::rlimit(100)]
    #[verifier::spinoff_prover]
    fn fwd_phase(
        &mut self,
        x: Matrix,
        Ghost(st_old): Ghost<Seq<LayerModel>>,
        Ghost(x0): Ghost<MatModel>,
    ) -> (res: Result<(Vec<Matrix>, Matrix), NeuralError>)
        requires
            old(self).wf(),
            old(self)@.len() > 0,
            st_old == strip_all_s(old(self)@),
            st_old.len() == old(self)@.len(),
            forall|q: int| 0 <= q < st_old.len()
                ==> lparams_eq(#[trigger] st_old[q], old(self)@[q]),
            x.wf(),
            x@ == x0,
            x@.cols == 1,
            x@.rows == old(self)@[0].w.cols,
        ensures
            res is Ok,
            final(self)@.len() == old(self)@.len(),
            final(self).wf(),
            strip_all_s(final(self)@) == st_old,
            forall|q: int| 0 <= q < st_old.len()
                ==> lparams_eq(#[trigger] final(self)@[q], old(self)@[q]),
            forall|q: int| 0 <= q < st_old.len()
                ==> (#[trigger] final(self)@[q]).z
                    == Some(layer_z_s(st_old[q], acts_s(st_old, x0, q))),
            forall|q: int| 0 <= q < st_old.len()
                ==> acts_s(st_old, x0, q).cols == 1
                    && acts_s(st_old, x0, q).rows == old(self)@[q].w.cols,
            match res {
                Ok(ap) => {
                    &&& ap.0@.len() == st_old.len()
                    &&& forall|q: int| 0 <= q < st_old.len()
                        ==> (#[trigger] ap.0@[q]).wf() && ap.0@[q]@ == acts_s(st_old, x0, q)
                    &&& ap.1.wf()
                    &&& ap.1@ == acts_s(st_old, x0, st_old.len() as int)
                    &&& ap.1@.cols == 1
                    &&& ap.1@.rows == old(self)@[old(self)@.len() - 1].w.rows
                },
                Err(_) => false,
            },
    {
        let n = self.layers.len();
        let mut acts: Vec<Matrix> = Vec::new();
        let mut cur = x;
        let mut i: usize = 0;
        while i < n
            invariant
                0 <= i <= n,
                n == self.layers@.len(),
                n == old(self)@.len(),
                old(self).wf(),
                st_old == strip_all_s(old(self)@),
                st_old.len() == n,
                forall|q: int| 0 <= q < n
                    ==> lparams_eq(#[trigger] st_old[q], old(self)@[q]),
                cur.wf(),
                cur@.cols == 1,
                cur@ == acts_s(st_old, x0, i as int),
                i < n ==> cur@.rows == old(self)@[i as int].w.cols,
                i == n ==> cur@.rows == old(self)@[n - 1].w.rows,
                forall|q: int| 0 <= q < n ==> lm_wf(#[trigger] views_of(self.layers@)[q]),
                forall|q: int| 0 <= q < i
                    ==> lparams_eq(#[trigger] views_of(self.layers@)[q], old(self)@[q]),
                forall|q: int| i <= q < n
                    ==> #[trigger] views_of(self.layers@)[q] == old(self)@[q],
                forall|q: int| 0 <= q < i
                    ==> (#[trigger] views_of(self.layers@)[q]).z
                        == Some(layer_z_s(st_old[q], acts_s(st_old, x0, q))),
                forall|q: int| 0 <= q < i
                    ==> acts_s(st_old, x0, q).cols == 1
                        && acts_s(st_old, x0, q).rows == old(self)@[q].w.cols,
                acts@.len() == i,
                forall|q: int| 0 <= q < i
                    ==> (#[trigger] acts@[q]).wf() && acts@[q]@ == acts_s(st_old, x0, q),
            decreases n - i,
        {
            let ghost pre_layers = self.layers@;
            proof {
                assert(views_of(self.layers@)[i as int] == self.layers@[i as int]@);
                assert(self.layers@[i as int]@ == old(self)@[i as int]);
            }
            let inp = cur.clone_mat();
            let out = match self.layers[i].forward(&inp) {
                Ok(o) => o,
                Err(e) => {
                    return Err(e);
                },
            };
            proof {
                assert(self.layers@ =~= pre_layers.update(i as int, self.layers@[i as int]));
                assert forall|q: int| 0 <= q < n && q != i
                    implies views_of(self.layers@)[q] == #[trigger] views_of(pre_layers)[q] by {
                    assert(self.layers@[q] == pre_layers[q]);
                }
                assert(views_of(self.layers@)[i as int] == self.layers@[i as int]@);
                assert(lm_wf(views_of(self.layers@)[i as int]));
                lemma_layer_params_io(old(self)@[i as int], st_old[i as int], cur@);
                assert(out@ == acts_s(st_old, x0, i as int + 1));
                assert(views_of(self.layers@)[i as int].z
                    == Some(layer_z_s(st_old[i as int], acts_s(st_old, x0, i as int))));
                assert forall|q: int| 0 <= q < n
                    implies lm_wf(#[trigger] views_of(self.layers@)[q]) by {
                    if q != i {
                        assert(views_of(self.layers@)[q] == views_of(pre_layers)[q]);
                    }
                }
                assert forall|q: int| 0 <= q < i + 1
                    implies lparams_eq(#[trigger] views_of(self.layers@)[q], old(self)@[q]) by {
                    if q != i {
                        assert(views_of(self.layers@)[q] == views_of(pre_layers)[q]);
                    }
                }
                assert forall|q: int| 0 <= q < i + 1
                    implies (#[trigger] views_of(self.layers@)[q]).z
                        == Some(layer_z_s(st_old[q], acts_s(st_old, x0, q))) by {
                    if q != i {
                        assert(views_of(self.layers@)[q] == views_of(pre_layers)[q]);
                    }
                }
                assert forall|q: int| i + 1 <= q < n
                    implies #[trigger] views_of(self.layers@)[q] == old(self)@[q] by {
                    assert(views_of(self.layers@)[q] == views_of(pre_layers)[q]);
                }
            }
            acts.push(inp);
            cur = out;
            i = i + 1;
        }
        proof {
            assert(net_wf(views_of(self.layers@))) by {
                assert forall|q: int| 1 <= q < n
                    implies (#[trigger] views_of(self.layers@)[q]).w.cols
                        == views_of(self.layers@)[q - 1].w.rows by {
                    assert(lparams_eq(views_of(self.layers@)[q], old(self)@[q]));
                    assert(lparams_eq(views_of(self.layers@)[q - 1], old(self)@[q - 1]));
                }
            }
            lemma_strip_params(views_of(self.layers@), old(self)@);
            assert(strip_all_s(views_of(self.layers@)) == st_old);
            assert forall|q: int| 0 <= q < n
                implies acts_s(st_old, x0, q).cols == 1
                    && acts_s(st_old, x0, q).rows == old(self)@[q].w.cols by {
                assert(acts@[q]@ == acts_s(st_old, x0, q));
            }
        }
        Ok((acts, cur))
    }

    /// The backward half of one training step: seeds the output error as
    /// `prediction - target` and folds `layer_bw_core_s` through the
    /// layers in reverse order against the cached forward pass, exactly
    /// the fold `bp_s`.
    #[verifier::rlimit(100)]
    #[verifier::spinoff_prover]
    fn bwd_phase(
        &mut self,
        acts: &Vec<Matrix>,
        pred: Matrix,
        t: &Matrix,
        learning_rate: i64,
        Ghost(st_old): Ghost<Seq<LayerModel>>,
        Ghost(x0): Ghost<MatModel>,
    ) -> (res: Result<(), NeuralError>)
        requires
            old(self).wf(),
            old(self)@.len() > 0,
            st_old.len() == old(self)@.len(),
            strip_all_s(old(self)@) == st_old,
            forall|q: int| 0 <= q < st_old.len()
                ==> lparams_eq(#[trigger] st_old[q], old(self)@[q]),
            forall|q: int| 0 <= q < old(self)@.len()
                ==> (#[trigger] old(self)@[q]).z
                    == Some(layer_z_s(st_old[q], acts_s(st_old, x0, q))),
            acts@.len() == old(self)@.len(),
            forall|q: int| 0 <= q < acts@.len()
                ==> (#[trigger] acts@[q]).wf() && acts@[q]@ == acts_s(st_old, x0, q),
            forall|q: int| 0 <= q < st_old.len()
                ==> acts_s(st_old, x0, q).cols == 1
                    && acts_s(st_old, x0, q).rows == old(self)@[q].w.cols,
            pred.wf(),
            pred@ == acts_s(st_old, x0, st_old.len() as int),
            pred@.cols == 1,
            pred@.rows == old(self)@[old(self)@.len() - 1].w.rows,
            t.wf(),
            t@.rows == pred@.rows,
            t@.cols == 1,
        ensures
            res is Ok,
            final(self).wf(),
            shapes_eq(final(self)@, old(self)@),
            strip_all_s(final(self)@) == bp_s(
                st_old, x0, mm_sub(forward_s(st_old, x0), t@), st_old.len() as int,
                learning_rate as int),
    {
        let n = self.layers.len();
        let mut err = match pred.subtract(t) {
            Ok(m) => m,
            Err(e) => {
                return Err(e);
            },
        };
        let ghost goal = bp_s(st_old, x0, mm_sub(forward_s(st_old, x0), t@), n as int,
            learning_rate as int);
        proof {
            lemma_acts_forward(st_old, x0, n as int);
            assert(st_old.take(n as int) =~= st_old);
            assert(err@ == mm_sub(forward_s(st_old, x0), t@));
        }
        let mut j: usize = n;
        while j > 0
            invariant
                0 <= j <= n,
                n == self.layers@.len(),
                n == old(self)@.len(),
                old(self).wf(),
                st_old == strip_all_s(old(self)@),
                st_old.len() == n,
                forall|q: int| 0 <= q < n
                    ==> lparams_eq(#[trigger] st_old[q], old(self)@[q]),
                err.wf(),
                err@.cols == 1,
                j > 0 ==> err@.rows == old(self)@[j - 1].w.rows,
                forall|q: int| 0 <= q < n ==> lm_wf(#[trigger] views_of(self.layers@)[q]),
                shapes_eq(views_of(self.layers@), old(self)@),
                forall|q: int| 0 <= q < j
                    ==> lparams_eq(#[trigger] views_of(self.layers@)[q], old(self)@[q]),
                forall|q: int| 0 <= q < j
                    ==> (#[trigger] views_of(self.layers@)[q]).z
                        == Some(layer_z_s(st_old[q], acts_s(st_old, x0, q))),
                acts@.len() == n,
                forall|q: int| 0 <= q < n
                    ==> (#[trigger] acts@[q]).wf() && acts@[q]@ == acts_s(st_old, x0, q),
                forall|q: int| 0 <= q < n
                    ==> acts_s(st_old, x0, q).cols == 1
                        && acts_s(st_old, x0, q).rows == old(self)@[q].w.cols,
                bp_s(strip_all_s(views_of(self.layers@)), x0, err@, j as int,
                    learning_rate as int) == goal,
            decreases j,
        {
            let ghost pre_layers = self.layers@;
            let ghost st_now = strip_all_s(views_of(self.layers@));
            proof {
                assert forall|q: int| 0 <= q < n
                    implies #[trigger] st_now[q] == strip_s(views_of(self.layers@)[q]) by {}
                assert forall|q: int| 0 <= q < j - 1
                    implies lparams_eq(#[trigger] st_now[q], st_old[q]) by {
                    assert(st_now[q] == strip_s(views_of(self.layers@)[q]));
                }
                lemma_acts_params(st_now, st_old, x0, j - 1);
                assert(acts_s(st_now, x0, j - 1) == acts_s(st_old, x0, j - 1));
                assert(lparams_eq(st_now[j - 1], st_old[j - 1]));
                lemma_layer_params_io(st_now[j - 1], st_old[j - 1], acts_s(st_old, x0, j - 1));
                assert(views_of(self.layers@)[j - 1] == self.layers@[j - 1]@);
                assert(lm_wf(self.layers@[j - 1]@));
                assert(bw_ok(self.layers@[j - 1]@, err@, acts@[j - 1]@));
            }
            let prev = match self.layers[j - 1].backward(&err, &acts[j - 1], learning_rate) {
                Ok(m) => m,
                Err(e) => {
                    return Err(e);
                },
            };
            proof {
                let lc = pre_layers[j - 1]@;
                let zv = layer_z_s(st_old[j - 1], acts_s(st_old, x0, j - 1));
                let inp = acts_s(st_old, x0, j - 1);
                let st = layer_bw_core_s(st_now[j - 1], zv, err@, inp, learning_rate as int);
                assert(self.layers@ =~= pre_layers.update(j - 1, self.layers@[j - 1]));
                assert forall|q: int| 0 <= q < n && q != j - 1
                    implies views_of(self.layers@)[q] == #[trigger] views_of(pre_layers)[q] by {
                    assert(self.layers@[q] == pre_layers[q]);
                }
                assert(views_of(self.layers@)[j - 1] == self.layers@[j - 1]@);
                assert(lm_wf(views_of(self.layers@)[j - 1]));
                assert(self.layers@[j - 1]@
                    == layer_bw_core_s(lc, zv, err@, inp, learning_rate as int).0);
                assert(lcoef(lc) == lcoef(st_now[j - 1]));
                assert(strip_s(layer_bw_core_s(lc, zv, err@, inp, learning_rate as int).0)
                    =~= st.0);
                assert(prev@ == st.1);
                assert(strip_all_s(views_of(self.layers@)) =~= st_now.update(j - 1, st.0)) by {
                    assert forall|q: int| 0 <= q < n
                        implies strip_all_s(views_of(self.layers@))[q]
                            == #[trigger] st_now.update(j - 1, st.0)[q] by {
                        assert(strip_all_s(views_of(self.layers@))[q]
                            == strip_s(views_of(self.layers@)[q]));
                        if q != j - 1 {
                            assert(views_of(self.layers@)[q] == views_of(pre_layers)[q]);
                        }
                    }
                }
                assert(bp_s(st_now, x0, err@, j as int, learning_rate as int)
                    == bp_s(st_now.update(j - 1, st.0), x0, st.1, j - 1, learning_rate as int));
                assert forall|q: int| 0 <= q < n
                    implies lm_wf(#[trigger] views_of(self.layers@)[q]) by {
                    if q != j - 1 {
                        assert(views_of(self.layers@)[q] == views_of(pre_layers)[q]);
                    }
                }
                assert(shapes_eq(views_of(self.layers@), old(self)@)) by {
                    assert forall|q: int| 0 <= q < n
                        implies (#[trigger] views_of(self.layers@)[q]).w.rows
                                == old(self)@[q].w.rows
                            && views_of(self.layers@)[q].w.cols == old(self)@[q].w.cols
                            && views_of(self.layers@)[q].b.rows == old(self)@[q].b.rows
                            && views_of(self.layers@)[q].b.cols == old(self)@[q].b.cols
                            && views_of(self.layers@)[q].kind == old(self)@[q].kind
                            && views_of(self.layers@)[q].argu == old(self)@[q].argu by {
                        if q != j - 1 {
                            assert(views_of(self.layers@)[q] == views_of(pre_layers)[q]);
                        }
                    }
                }
                assert forall|q: int| 0 <= q < j - 1
                    implies lparams_eq(#[trigger] views_of(self.layers@)[q], old(self)@[q])
                        && (#[trigger] views_of(self.layers@)[q]).z
                            == Some(layer_z_s(st_old[q], acts_s(st_old, x0, q))) by {
                    assert(views_of(self.layers@)[q] == views_of(pre_layers)[q]);
                }
            }
            err = prev;
            j = j - 1;
        }
        proof {
            assert(bp_s(strip_all_s(views_of(self.layers@)), x0, err@, 0, learning_rate as int)
                == strip_all_s(views_of(self.layers@)));
            assert(net_wf(views_of(self.layers@))) by {
                assert forall|q: int| 1 <= q < n
                    implies (#[trigger] views_of(self.layers@)[q]).w.cols
                        == views_of(self.layers@)[q - 1].w.rows by {
                    assert(views_of(self.layers@)[q].w.cols == old(self)@[q].w.cols);
                    assert(views_of(self.layers@)[q - 1].w.rows == old(self)@[q - 1].w.rows);
                }
            }
        }
        Ok(())
    }

    /// Online (per-sample) gradient-descent training: for each of `epoch`
    /// rounds, for each sample in order, one step of `train_sample_s` —
    /// forward, the cost's gradient seed, backward in reverse layer order.
    /// A nonpositive epoch count trains not at all; the full count always
    /// runs, with no early stopping. Fails with `EmptyNetwork` on a
    /// network with no layers and with `ShapeMismatch` exactly when some
    /// sample's input or target width disagrees with the network's
    /// declared widths; a failed call changes nothing.
    #[verifier::rlimit(100)]
    #[verifier::spinoff_prover]
    pub fn train(
        &mut self,
        samples: &Vec<Sample>,
        epoch: i32,
        learning_rate: i64,
        cost: Option<CostFunctionArgu>,
    ) -> (res: Result<(), NeuralError>)
        requires
            old(self).wf(),
        ensures
            match res {
                Ok(()) => {
                    &&& old(self)@.len() > 0
                    &&& samples_ok_s(old(self)@, samples@)
                    &&& final(self).wf()
                    &&& shapes_eq(final(self)@, old(self)@)
                    &&& strip_all_s(final(self)@) == train_s(
                        strip_all_s(old(self)@),
                        sample_views(samples@),
                        epoch as int,
                        learning_rate as int,
                        match cost {
                            Some(c) => c.kind,
                            None => CostFunctions::SquaredError,
                        },
                    )
                },
                Err(e) => {
                    &&& *final(self) == *old(self)
                    &&& if old(self)@.len() == 0 {
                        e == NeuralError::EmptyNetwork
                    } else {
                        e == NeuralError::ShapeMismatch
                            && !samples_ok_s(old(self)@, samples@)
                    }
                },
            },
    {
        let ghost st_old = strip_all_s(old(self)@);
        let ghost sv_all = sample_views(samples@);
        let ghost ck = match cost {
            Some(c) => c.kind,
            None => CostFunctions::SquaredError,
        };
        let n = self.layers.len();
        if n == 0 {
            return Err(NeuralError::EmptyNetwork);
        }
        let in_w = self.layers[0].weights.get_cols();
        let out_w = self.layers[n - 1].weights.get_rows();
        let mut v: usize = 0;
        while v < samples.len()
            invariant
                0 <= v <= samples@.len(),
                in_w == old(self)@[0].w.cols,
                out_w == old(self)@[old(self)@.len() - 1].w.rows,
                old(self)@.len() > 0,
                forall|k: int| 0 <= k < v
                    ==> (#[trigger] samples@[k])@.input.len() == in_w
                        && samples@[k]@.target.len() == out_w,
            decreases samples@.len() - v,
        {
            if samples[v].input.len() != in_w || samples[v].target.len() != out_w {
                return Err(NeuralError::ShapeMismatch);
            }
            v = v + 1;
        }
        let mut e: i32 = 0;
        if epoch <= 0 {
            return Ok(());
        }
        while e < epoch
            invariant
                0 <= e <= epoch,
                self.layers@.len() == old(self)@.len(),
                old(self).wf(),
                old(self)@.len() > 0,
                st_old == strip_all_s(old(self)@),
                sv_all == sample_views(samples@),
                in_w == old(self)@[0].w.cols,
                out_w == old(self)@[old(self)@.len() - 1].w.rows,
                samples_ok_s(old(self)@, samples@),
                net_wf(views_of(self.layers@)),
                shapes_eq(views_of(self.layers@), old(self)@),
                strip_all_s(views_of(self.layers@))
                    == train_s(st_old, sv_all, e as int, learning_rate as int, ck),
            decreases epoch - e,
        {
            let mut sv: usize = 0;
            while sv < samples.len()
                invariant
                    0 <= sv <= samples@.len(),
                    e < epoch,
                    self.layers@.len() == old(self)@.len(),
                    old(self).wf(),
                    old(self)@.len() > 0,
                    st_old == strip_all_s(old(self)@),
                    sv_all == sample_views(samples@),
                    in_w == old(self)@[0].w.cols,
                    out_w == old(self)@[old(self)@.len() - 1].w.rows,
                    samples_ok_s(old(self)@, samples@),
                    net_wf(views_of(self.layers@)),
                    shapes_eq(views_of(self.layers@), old(self)@),
                    strip_all_s(views_of(self.layers@)) == train_epoch_s(
                        train_s(st_old, sv_all, e as int, learning_rate as int, ck),
                        sv_all, sv as int, learning_rate as int),
                decreases samples@.len() - sv,
            {
                proof {
                    assert(views_of(self.layers@)[0].w.cols == old(self)@[0].w.cols);
                    assert(views_of(self.layers@)[old(self)@.len() - 1].w.rows
                        == old(self)@[old(self)@.len() - 1].w.rows);
                    assert(samples@[sv as int]@.input.len() == in_w);
                    assert(sv_all[sv as int] == samples@[sv as int]@);
                }
                let ghost pre_view = views_of(self.layers@);
                match self.train_one(&samples[sv], learning_rate) {
                    Ok(()) => {},
                    Err(er) => {
                        return Err(er);
                    },
                }
                proof {
                    assert(strip_all_s(views_of(self.layers@))
                        == train_sample_s(strip_all_s(pre_view), samples@[sv as int]@,
                            learning_rate as int));
                    assert(shapes_eq(views_of(self.layers@), old(self)@)) by {
                        assert(shapes_eq(views_of(self.layers@), pre_view));
                        assert forall|q: int| 0 <= q < old(self)@.len()
                            implies (#[trigger] views_of(self.layers@)[q]).w.rows
                                    == old(self)@[q].w.rows
                                && views_of(self.layers@)[q].w.cols == old(self)@[q].w.cols
                                && views_of(self.layers@)[q].b.rows == old(self)@[q].b.rows
                                && views_of(self.layers@)[q].b.cols == old(self)@[q].b.cols
                                && views_of(self.layers@)[q].kind == old(self)@[q].kind
                                && views_of(self.layers@)[q].argu == old(self)@[q].argu by {}
                    }
                }
                sv = sv + 1;
            }
            proof {
                assert(sample_views(samples@).len() == samples@.len());
                assert(train_s(st_old, sv_all, e as int + 1, learning_rate as int, ck)
                    == train_epoch_s(
                        train_s(st_old, sv_all, e as int, learning_rate as int, ck),
                        sv_all, sv_all.len() as int, learning_rate as int));
            }
            e = e + 1;
        }
        Ok(())
    }
}

} // verus!
