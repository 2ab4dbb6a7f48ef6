//! A feed-forward neural network engine over fixed-point arithmetic.
//!
//! Networks are ordered stacks of dense layers (weights, bias, activation).
//! The engine runs forward inference, trains weights by backpropagation, and
//! serializes whole models and samples to opaque byte blobs so they survive
//! between invocations of a host that stores them as plain bytes.
//!
//! All numeric state is kept in Q32.32 fixed-point form (an `i64` holding
//! `value * 2^32`), so every computation is deterministic, bit-for-bit
//! reproducible, and fully checked: operations saturate instead of wrapping,
//! and no verified function panics.

use vstd::prelude::*;

mod activation;
mod cost;
mod errors;
mod layer;
mod matrix;
mod network;
mod sample;
mod serial;
mod fixed;

pub use errors::NeuralError;
pub use activation::{ActivationKind, ActivationArgu};
pub use matrix::Matrix;
pub use cost::{CostFunctions, CostFunctionArgu};
pub use layer::NeuralLayer;
pub use sample::Sample;
pub use network::NeuralNetwork;

pub use network::{
    forward_s, net_wf, params_eq, parse_net_s, sample_views, samples_ok_s, ser_net_s,
    strip_all_s, strip_s, train_s, train_epoch_s, train_sample_s, lemma_model_round_trip,
    lemma_serialization_preserves_evaluation,
};
pub use sample::lemma_sample_round_trip;

verus! {

/// A copy of a byte vector.
fn copy_bytes(v: &Vec<u8>) -> (r: Vec<u8>)
    ensures
        r@ == v@,
{
    let mut r: Vec<u8> = Vec::new();
    let mut i: usize = 0;
    while i < v.len()
        invariant
            0 <= i <= v@.len(),
            r@.len() == i,
            forall|j: int| 0 <= j < i ==> r@[j] == v@[j],
        decreases v@.len() - i,
    {
        r.push(v[i]);
        i = i + 1;
    }
    proof {
        assert(r@ =~= v@);
    }
    r
}

/// The model a slot holds: the layers of its parseable stored blob, the
/// empty stack where no blob is stored, and (as a don't-care) the empty
/// stack where the blob is malformed.
pub open spec fn stored_layers(ns: NeuralStruct) -> Seq<crate::layer::LayerModel> {
    match ns.neural_network {
        None => Seq::empty(),
        Some(b) => match parse_net_s(b@) {
            Some(ls) => ls,
            None => Seq::empty(),
        },
    }
}

/// A named slot for one persisted model: the record the hosting store
/// keeps per (owner, name) key. The live network exists only inside one
/// call; between calls only the serialized blob survives.
#[derive(Clone, Debug)]
pub struct NeuralStruct {
    pub name: Vec<u8>,
    pub neural_network: Option<Vec<u8>>,
}

impl NeuralStruct {
    /// An empty slot under the given name, holding no model yet.
    pub fn new(name: Vec<u8>) -> (r: NeuralStruct)
        ensures
            r.name@ == name@,
            r.neural_network is None,
    {
        NeuralStruct { name, neural_network: None }
    }

    /// Decodes the stored model. Fails with `NoModel` exactly when no
    /// blob is stored, and with `ModelParsingError` exactly when the
    /// stored blob is malformed.
    pub fn get_model(&self) -> (res: Result<crate::network::NeuralNetwork, NeuralError>)
        ensures
            match res {
                Ok(n) => {
                    &&& self.neural_network is Some
                    &&& parse_net_s(self.neural_network->Some_0@) == Some(n@)
                    &&& n.wf()
                },
                Err(e) => match self.neural_network {
                    None => e == NeuralError::NoModel,
                    Some(b) => parse_net_s(b@) is None && e == NeuralError::ModelParsingError,
                },
            },
    {
        match &self.neural_network {
            None => Err(NeuralError::NoModel),
            Some(b) => crate::network::NeuralNetwork::get_neural_from_str(copy_bytes(b)),
        }
    }

    /// Appends a layer to the stored model, starting an empty model where
    /// none is stored yet, and stores the blob of the grown model.
    /// Succeeds exactly when the stored blob is absent or parseable and
    /// the layer fits the model's last output width; a failed call leaves
    /// the slot unchanged, and the name is never touched.
    #[verifier::rlimit(100)]
    #[verifier::spinoff_prover]
    pub fn add_layers(&mut self, layer: crate::layer::NeuralLayer) -> (res: Result<
        (),
        NeuralError,
    >)
        requires
            layer.wf(),
        ensures
            final(self).name == old(self).name,
            match res {
                Ok(()) => {
                    &&& match old(self).neural_network {
                        None => true,
                        Some(b) => parse_net_s(b@) is Some,
                    }
                    &&& (stored_layers(*old(self)).len() > 0
                        ==> layer@.w.cols
                            == stored_layers(*old(self))[stored_layers(*old(self)).len() - 1].w.rows)
                    &&& final(self).neural_network is Some
                    &&& parse_net_s(final(self).neural_network->Some_0@)
                        == Some(strip_all_s(stored_layers(*old(self)).push(layer@)))
                },
                Err(e) => {
                    &&& *final(self) == *old(self)
                    &&& match old(self).neural_network {
                        None => false,
                        Some(b) => match parse_net_s(b@) {
                            None => e == NeuralError::ModelParsingError,
                            Some(ls) => {
                                &&& ls.len() > 0
                                &&& layer@.w.cols != ls[ls.len() - 1].w.rows
                                &&& e == NeuralError::ShapeMismatch
                            },
                        },
                    }
                },
            },
    {
        let mut net = match &self.neural_network {
            None => crate::network::NeuralNetwork::new(),
            Some(b) => match crate::network::NeuralNetwork::get_neural_from_str(copy_bytes(b)) {
                Ok(n) => n,
                Err(_) => {
                    return Err(NeuralError::ModelParsingError);
                },
            },
        };
        proof {
            assert(net@ =~= stored_layers(*self));
        }
        match net.add_layer(layer) {
            Ok(()) => {},
            Err(e) => {
                return Err(e);
            },
        }
        let blob = net.get_serial();
        proof {
            crate::network::lemma_views_vals_ok(net.layers@);
            vstd::std_specs::vec::axiom_spec_len(&net.layers);
            lemma_model_round_trip(net@);
            assert(net@ == stored_layers(*old(self)).push(layer@));
        }
        self.neural_network = Some(blob);
        Ok(())
    }

    /// Trains the stored model in place: decode the blob, run the online
    /// gradient-descent fold over the samples for the given epoch count,
    /// and store the blob of the trained model. Succeeds exactly when a
    /// parseable non-empty model is stored and every sample's widths
    /// match it; each error names its own cause, a failed call leaves the
    /// slot unchanged, and the name is never touched.
    #[verifier::rlimit(100)]
    pub fn train(&mut self, samples: Vec<Sample>, epoch: i32, learning_rate: i64) -> (res: Result<
        (),
        NeuralError,
    >)
        ensures
            final(self).name == old(self).name,
            match res {
                Ok(()) => {
                    &&& old(self).neural_network is Some
                    &&& parse_net_s(old(self).neural_network->Some_0@) is Some
                    &&& stored_layers(*old(self)).len() > 0
                    &&& samples_ok_s(stored_layers(*old(self)), samples@)
                    &&& final(self).neural_network is Some
                    &&& parse_net_s(final(self).neural_network->Some_0@) == Some(train_s(
                        strip_all_s(stored_layers(*old(self))),
                        sample_views(samples@),
                        epoch as int,
                        learning_rate as int,
                        CostFunctions::SquaredError,
                    ))
                },
                Err(e) => {
                    &&& *final(self) == *old(self)
                    &&& match old(self).neural_network {
                        None => e == NeuralError::NoModel,
                        Some(b) => match parse_net_s(b@) {
                            None => e == NeuralError::ModelParsingError,
                            Some(ls) => (ls.len() == 0 && e == NeuralError::EmptyNetwork)
                                || (ls.len() > 0 && !samples_ok_s(ls, samples@)
                                    && e == NeuralError::ShapeMismatch),
                        },
                    }
                },
            },
    {
        let mut net = match self.get_model() {
            Ok(n) => n,
            Err(e) => {
                return Err(e);
            },
        };
        match net.train(&samples, epoch, learning_rate, None) {
            Ok(()) => {},
            Err(e) => {
                return Err(e);
            },
        }
        let blob = net.get_serial();
        proof {
            crate::network::lemma_views_vals_ok(net.layers@);
            vstd::std_specs::vec::axiom_spec_len(&net.layers);
            lemma_model_round_trip(net@);
        }
        self.neural_network = Some(blob);
        Ok(())
    }

    /// The stored blob, or a single zero byte where none is stored.
    pub fn get_model_string(&self) -> (r: Vec<u8>)
        ensures
            r@ == match self.neural_network {
                Some(b) => b@,
                None => seq![0u8],
            },
    {
        match &self.neural_network {
            None => {
                let mut v: Vec<u8> = Vec::new();
                v.push(0);
                proof {
                    assert(v@ =~= seq![0u8]);
                }
                v
            },
            Some(b) => copy_bytes(b),
        }
    }

    /// Runs the stored model on a sample's input: decode, evaluate,
    /// return the output column. The stored model is not changed; the
    /// sample's target is never consulted. Succeeds exactly when a
    /// parseable non-empty model is stored and the input width matches
    /// its first layer; each error names its own cause.
    pub fn run(&self, samples: Sample) -> (res: Result<Matrix, NeuralError>)
        ensures
            match res {
                Ok(out) => match self.neural_network {
                    Some(b) => {
                        &&& parse_net_s(b@) is Some
                        &&& parse_net_s(b@)->Some_0.len() > 0
                        &&& samples@.input.len() == parse_net_s(b@)->Some_0[0].w.cols
                        &&& out@ == forward_s(
                            parse_net_s(b@)->Some_0,
                            crate::matrix::col_model(samples@.input),
                        )
                        &&& crate::matrix::mm_wf(out@)
                    },
                    None => false,
                },
                Err(e) => match self.neural_network {
                    None => e == NeuralError::NoModel,
                    Some(b) => match parse_net_s(b@) {
                        None => e == NeuralError::ModelParsingError,
                        Some(ls) => (ls.len() == 0 && e == NeuralError::EmptyNetwork)
                            || (ls.len() > 0 && samples@.input.len() != ls[0].w.cols
                                && e == NeuralError::ShapeMismatch),
                    },
                },
            },
    {
        let net = match self.get_model() {
            Ok(n) => n,
            Err(e) => {
                return Err(e);
            },
        };
        net.evaluate(&samples)
    }
}

} // verus!
