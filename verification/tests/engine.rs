use neural_engine::{
    ActivationArgu, ActivationKind, CostFunctionArgu, CostFunctions, Matrix, NeuralError,
    NeuralLayer, NeuralNetwork, NeuralStruct, Sample,
};

const Q_ONE: i64 = 4294967296;

fn approx(a: i64, b: i64, tol: i64) -> bool {
    (a - b).abs() <= tol
}

#[test]
fn identity_layer_forward_is_identity() {
    let w = Matrix::from_rows(vec![vec![Q_ONE, 0], vec![0, Q_ONE]]).unwrap();
    let b = Matrix::zeros(2, 1).unwrap();
    let act = ActivationArgu::new(ActivationKind::Identity, vec![0]);
    let layer = NeuralLayer::from_parts(w, b, act).unwrap();
    let mut net = NeuralNetwork::new();
    net.add_layer(layer).unwrap();
    let out = net.evaluate(&Sample::predict(vec![Q_ONE, 2 * Q_ONE])).unwrap();
    assert_eq!(out.get(0, 0), Q_ONE);
    assert_eq!(out.get(1, 0), 2 * Q_ONE);
}

#[test]
fn forward_shape_mismatch_iff_wrong_rows() {
    let w = Matrix::from_rows(vec![vec![Q_ONE, 0], vec![0, Q_ONE]]).unwrap();
    let b = Matrix::zeros(2, 1).unwrap();
    let act = ActivationArgu::new(ActivationKind::Identity, vec![0]);
    let mut layer = NeuralLayer::from_parts(w, b, act).unwrap();
    let bad = Matrix::from_rows(vec![vec![Q_ONE], vec![0], vec![0]]).unwrap();
    assert_eq!(layer.forward(&bad).unwrap_err(), NeuralError::ShapeMismatch);
    let good = Matrix::from_rows(vec![vec![Q_ONE], vec![0]]).unwrap();
    assert!(layer.forward(&good).is_ok());
}

#[test]
fn sample_round_trip() {
    let input = vec![(0.5 * Q_ONE as f64) as i64, (-1.2 * Q_ONE as f64) as i64];
    let target = vec![Q_ONE];
    let s = Sample::new(input.clone(), target.clone());
    let blob = s.get_serial();
    let back = Sample::from_string(blob).unwrap();
    assert_eq!(back.input, input);
    assert_eq!(back.target, target);
}

#[test]
fn softmax_of_equal_inputs_is_uniform() {
    let act = ActivationArgu::new(ActivationKind::SoftMax, vec![0]);
    let out = act.calc(&vec![Q_ONE, Q_ONE, Q_ONE]);
    let third = (Q_ONE as f64 / 3.0) as i64;
    assert_eq!(out[0], out[1]);
    assert_eq!(out[1], out[2]);
    assert!(approx(out[0], third, 2));
}

#[test]
fn corrupted_model_blob_is_refused() {
    let mut ns = NeuralStruct::new(b"m".to_vec());
    let act = ActivationArgu::new(ActivationKind::Sigmoid, vec![0]);
    ns.add_layers(NeuralLayer::new(2, 2, act).unwrap()).unwrap();
    let mut blob = ns.get_model_string();
    blob.truncate(blob.len() - 3);
    assert_eq!(
        NeuralNetwork::get_neural_from_str(blob).unwrap_err(),
        NeuralError::ModelParsingError
    );
    assert_eq!(
        NeuralNetwork::get_neural_from_str(vec![7, 7, 7, 7, 7, 7, 7, 7]).unwrap_err(),
        NeuralError::ModelParsingError
    );
}

#[test]
fn model_round_trip_preserves_evaluation() {
    let mut ns = NeuralStruct::new(b"m".to_vec());
    let act = ActivationArgu::new(ActivationKind::Sigmoid, vec![0]);
    ns.add_layers(NeuralLayer::new(3, 2, act).unwrap()).unwrap();
    let act2 = ActivationArgu::new(ActivationKind::Identity, vec![0]);
    ns.add_layers(NeuralLayer::new(1, 3, act2).unwrap()).unwrap();
    let sample = Sample::predict(vec![Q_ONE / 2, -Q_ONE / 4]);
    let out1 = ns.run(Sample::predict(vec![Q_ONE / 2, -Q_ONE / 4])).unwrap();
    let blob = ns.get_model_string();
    let net = NeuralNetwork::get_neural_from_str(blob).unwrap();
    let out2 = net.evaluate(&sample).unwrap();
    assert_eq!(out1.get(0, 0), out2.get(0, 0));
}

#[test]
fn sigmoid_matches_closed_form() {
    let act = ActivationArgu::new(ActivationKind::Sigmoid, vec![0]);
    let out = act.calc(&vec![0]);
    assert!(approx(out[0], Q_ONE / 2, 4));
    let d = act.derivative(&vec![0]);
    assert!(approx(d[0], Q_ONE / 4, 8));
}

fn loss_of(ns: &NeuralStruct, samples: &[Sample]) -> i64 {
    let cost = CostFunctionArgu::new(CostFunctions::SquaredError, vec![]);
    let mut total: i64 = 0;
    for s in samples {
        let pred = ns.run(Sample::predict(s.input.clone())).unwrap();
        let target = Matrix::from_col(&s.target).unwrap();
        total += cost.calc(&pred, &target).unwrap();
    }
    total
}

fn lcg_weights(seed: u64, count: usize) -> Vec<i64> {
    let mut state = seed;
    let mut w = Vec::new();
    for _ in 0..count {
        state = state.wrapping_mul(6364136223846793005).wrapping_add(1442695040888963407);
        // a value in roughly (-0.5, 0.5) in Q32.32
        w.push(((state >> 33) as i64) - (1 << 30));
    }
    w
}

fn two_layer_sigmoid(seed: u64) -> NeuralStruct {
    let mut ns = NeuralStruct::new(b"p4".to_vec());
    let w1v = lcg_weights(seed, 4);
    let w1 = Matrix::from_rows(vec![vec![w1v[0], w1v[1]], vec![w1v[2], w1v[3]]]).unwrap();
    let b1 = Matrix::zeros(2, 1).unwrap();
    let l1 = NeuralLayer::from_parts(
        w1, b1, ActivationArgu::new(ActivationKind::Sigmoid, vec![0])).unwrap();
    ns.add_layers(l1).unwrap();
    let w2v = lcg_weights(seed ^ 0x9e3779b97f4a7c15, 2);
    let w2 = Matrix::from_rows(vec![vec![w2v[0], w2v[1]]]).unwrap();
    let b2 = Matrix::zeros(1, 1).unwrap();
    let l2 = NeuralLayer::from_parts(
        w2, b2, ActivationArgu::new(ActivationKind::Sigmoid, vec![0])).unwrap();
    ns.add_layers(l2).unwrap();
    ns
}

#[test]
fn training_reduces_loss() {
    let samples = vec![
        Sample::new(vec![Q_ONE, 0], vec![Q_ONE / 4]),
        Sample::new(vec![0, Q_ONE], vec![3 * Q_ONE / 4]),
    ];
    for seed in [3u64, 17, 40] {
        let mut ns = two_layer_sigmoid(seed);
        let before = loss_of(&ns, &samples);
        ns.train(samples.clone(), 100, Q_ONE / 2).unwrap();
        let after = loss_of(&ns, &samples);
        assert!(after < before, "seed {seed}: loss {after} not below {before}");
    }
}

#[test]
fn run_identity_network_returns_input() {
    let mut ns = NeuralStruct::new(b"id".to_vec());
    let w = Matrix::from_rows(vec![vec![Q_ONE, 0], vec![0, Q_ONE]]).unwrap();
    let b = Matrix::zeros(2, 1).unwrap();
    let layer = NeuralLayer::from_parts(
        w, b, ActivationArgu::new(ActivationKind::Identity, vec![0])).unwrap();
    ns.add_layers(layer).unwrap();
    let out = ns.run(Sample::predict(vec![Q_ONE, 2 * Q_ONE])).unwrap();
    assert_eq!(out.get(0, 0), Q_ONE);
    assert_eq!(out.get(1, 0), 2 * Q_ONE);
    // wrong input width fails with ShapeMismatch, and only then
    assert_eq!(
        ns.run(Sample::predict(vec![Q_ONE])).unwrap_err(),
        NeuralError::ShapeMismatch
    );
    assert_eq!(
        NeuralStruct::new(b"none".to_vec())
            .run(Sample::predict(vec![Q_ONE]))
            .unwrap_err(),
        NeuralError::NoModel
    );
}

#[test]
fn run_ignores_target_and_is_deterministic() {
    let mut ns = NeuralStruct::new(b"det".to_vec());
    let act = ActivationArgu::new(ActivationKind::Sigmoid, vec![0]);
    ns.add_layers(NeuralLayer::new(2, 2, act).unwrap()).unwrap();
    let i = vec![Q_ONE / 3, -Q_ONE / 5];
    let a = ns.run(Sample::new(i.clone(), vec![Q_ONE, Q_ONE])).unwrap();
    let b = ns.run(Sample::predict(i.clone())).unwrap();
    let c = ns.run(Sample::predict(i)).unwrap();
    for r in 0..2 {
        assert_eq!(a.get(r, 0), b.get(r, 0));
        assert_eq!(b.get(r, 0), c.get(r, 0));
    }
}

#[test]
fn add_layers_appends_and_keeps_name() {
    let mut ns = NeuralStruct::new(b"grow".to_vec());
    let act = ActivationArgu::new(ActivationKind::Identity, vec![0]);
    ns.add_layers(NeuralLayer::new(3, 2, act.clone()).unwrap()).unwrap();
    assert_eq!(ns.name, b"grow".to_vec());
    assert_eq!(ns.get_model().unwrap().len(), 1);
    ns.add_layers(NeuralLayer::new(1, 3, act.clone()).unwrap()).unwrap();
    assert_eq!(ns.get_model().unwrap().len(), 2);
    // a misfitting layer is rejected and the stored model is unchanged
    let blob_before = ns.get_model_string();
    assert_eq!(
        ns.add_layers(NeuralLayer::new(1, 5, act).unwrap()).unwrap_err(),
        NeuralError::ShapeMismatch
    );
    assert_eq!(ns.get_model_string(), blob_before);
    assert_eq!(ns.name, b"grow".to_vec());
}

#[test]
fn add_layers_rejects_corrupt_blob_untouched() {
    let mut ns = NeuralStruct::new(b"bad".to_vec());
    let act = ActivationArgu::new(ActivationKind::Identity, vec![0]);
    ns.add_layers(NeuralLayer::new(2, 2, act.clone()).unwrap()).unwrap();
    let mut blob = ns.get_model_string();
    blob.truncate(blob.len() - 8);
    ns.neural_network = Some(blob.clone());
    assert_eq!(
        ns.add_layers(NeuralLayer::new(2, 2, act).unwrap()).unwrap_err(),
        NeuralError::ModelParsingError
    );
    assert_eq!(ns.neural_network, Some(blob));
}

#[test]
fn derivatives_match_central_differences() {
    // tolerance 1e-5 rather than 1e-6: a Q32.32 central difference carries
    // about 2^-19 of quantization noise at this step size
    let h: i64 = Q_ONE >> 9;
    let to_f = |v: i64| v as f64 / Q_ONE as f64;
    let cases = [
        (ActivationKind::Sigmoid, 0i64),
        (ActivationKind::Sigmoid, Q_ONE / 2),
        (ActivationKind::HyperbolicTangent, Q_ONE / 3),
        (ActivationKind::SoftPlus, -Q_ONE / 2),
        (ActivationKind::RectifiedLinearUnit, Q_ONE),
        (ActivationKind::LeakyRectifiedLinearUnit, -Q_ONE),
        (ActivationKind::Identity, 7 * Q_ONE),
    ];
    for (kind, x) in cases {
        let act = ActivationArgu::new(kind, vec![Q_ONE / 10]);
        let d = to_f(act.derivative(&vec![x])[0]);
        let hi = to_f(act.calc(&vec![x + h])[0]);
        let lo = to_f(act.calc(&vec![x - h])[0]);
        let numeric = (hi - lo) / (2.0 * to_f(h));
        assert!((d - numeric).abs() < 1e-5, "{kind:?}: {d} vs {numeric}");
    }
}

#[test]
fn trained_model_round_trips_through_blob() {
    let samples = vec![Sample::new(vec![Q_ONE, 0], vec![Q_ONE / 2])];
    let mut ns = two_layer_sigmoid(9);
    ns.train(samples, 10, Q_ONE / 4).unwrap();
    let blob = ns.get_model_string();
    let net = NeuralNetwork::get_neural_from_str(blob).unwrap();
    let direct = ns.run(Sample::predict(vec![Q_ONE, 0])).unwrap();
    let reloaded = net.evaluate(&Sample::predict(vec![Q_ONE, 0])).unwrap();
    assert_eq!(direct.get(0, 0), reloaded.get(0, 0));
}
