use neural_net::conv::ConvLayer;
use neural_net::dense::DenseLayer;
use neural_net::fixed::SCALE;
use neural_net::loss::{Loss, MeanSquaredError, GRADIENT_LIMIT};
use neural_net::network::{Layer, NeuralNetwork, CNN};

fn fx(v: f64) -> i64 {
    (v * SCALE as f64).round() as i64
}

fn small_network() -> NeuralNetwork {
    let first = DenseLayer::from_parameters(
        vec![vec![fx(0.1), fx(0.05)], vec![fx(0.08), fx(-0.02)]],
        vec![fx(0.01), fx(0.02)],
    );
    let second = DenseLayer::from_parameters(vec![vec![fx(0.1), fx(0.07)]], vec![0]);
    NeuralNetwork::new(
        vec![Layer::Dense(first), Layer::Dense(second)],
        Loss::MeanSquared(MeanSquaredError),
    )
}

#[test]
fn mse_compute_and_gradient() {
    let mse = MeanSquaredError;
    let result = vec![fx(1.0), fx(2.0), fx(3.0)];
    let target = vec![0, fx(2.0), fx(4.0)];
    assert_eq!(mse.compute(&result, &target), 666_667);
    assert_eq!(mse.gradient(&result, &target), vec![666_666, 0, -666_667]);
}

#[test]
fn mse_zero_on_equal_and_positive_otherwise() {
    let mse = MeanSquaredError;
    let v = vec![fx(1.5), fx(-2.0), 7];
    assert_eq!(mse.compute(&v, &v), 0);
    assert_eq!(mse.gradient(&v, &v), vec![0, 0, 0]);
    let w = vec![fx(1.5), fx(-1.0), 7];
    assert_eq!(mse.compute(&v, &w), fx(1.0) / 3 + 1);
    // a difference of one raw unit still gives a positive loss
    assert_eq!(mse.compute(&vec![1], &vec![0]), 1);
    assert!(mse.compute(&w, &v) > 0);
}

#[test]
fn mse_gradient_is_clamped() {
    let mse = MeanSquaredError;
    let g = mse.gradient(&vec![i64::MAX, i64::MIN], &vec![i64::MIN, i64::MAX]);
    assert_eq!(g, vec![GRADIENT_LIMIT, -GRADIENT_LIMIT]);
}

#[test]
fn loss_dispatches_to_mse() {
    let loss = Loss::MeanSquared(MeanSquaredError);
    assert_eq!(loss.compute(&vec![fx(2.0)], &vec![0]), fx(4.0));
    assert_eq!(loss.gradient(&vec![fx(2.0)], &vec![0]), vec![fx(4.0)]);
}

#[test]
fn forward_twice_gives_same_output() {
    let mut net = small_network();
    let x = vec![fx(1.0), fx(0.0)];
    let a = net.forward(&x);
    let b = net.forward(&x);
    assert_eq!(a, b);
    assert_eq!(a.len(), 1);
}

#[test]
fn training_reduces_loss() {
    let mut net = small_network();
    let x = vec![fx(1.0), 0];
    let t = vec![fx(1.0)];
    let before = net.test(&x, &t);
    net.train(&x, &t, fx(0.01), 1000);
    let after = net.test(&x, &t);
    assert!(after < before);
}

#[test]
fn training_converges() {
    let mut net = small_network();
    let x = vec![fx(1.0), 0];
    let t = vec![fx(1.0)];
    net.train(&x, &t, fx(0.05), 2000);
    let out = net.forward(&x);
    assert!((out[0] - fx(1.0)).abs() < fx(0.05));
}

#[test]
fn random_network_trains_without_shape_errors() {
    let mut net = NeuralNetwork::new(
        vec![Layer::Dense(DenseLayer::new(4, 3)), Layer::Dense(DenseLayer::new(3, 2))],
        Loss::MeanSquared(MeanSquaredError),
    );
    let x = vec![fx(0.5), fx(-0.5), fx(1.0), 0];
    let t = vec![fx(1.0), 0];
    net.train(&x, &t, fx(0.01), 5);
    assert_eq!(net.forward(&x).len(), 2);
}

#[test]
fn conv_network_output_length() {
    let conv = ConvLayer::from_parameters(
        4,
        4,
        vec![vec![vec![fx(0.5), 0], vec![0, fx(0.5)]], vec![vec![0, fx(0.25)], vec![fx(0.25), 0]]],
        vec![0, fx(0.1)],
        2,
        1,
        0,
    );
    // 2 channels of 3 x 3
    let dense = DenseLayer::from_parameters(vec![vec![fx(0.01); 18]; 3], vec![0; 3]);
    let mut net = CNN::new(
        vec![Layer::Conv(conv)],
        vec![Layer::Dense(dense)],
        Loss::MeanSquared(MeanSquaredError),
    );
    let x: Vec<i64> = (0..16).map(|v| fx(v as f64 / 16.0)).collect();
    let out = net.forward(&x);
    assert_eq!(out.len(), 3);
    let t = vec![fx(1.0), 0, 0];
    let before = net.getLoss().compute(&out, &t);
    net.train(&x, &t, fx(0.01), 50);
    let out = net.forward(&x);
    assert_eq!(out.len(), 3);
    assert!(net.getLoss().compute(&out, &t) < before);
}

fn single_layer_loss(w: Vec<i64>, b: i64, x: &Vec<i64>, t: &Vec<i64>) -> i64 {
    let mut net = NeuralNetwork::new(
        vec![Layer::Dense(DenseLayer::from_parameters(vec![w], vec![b]))],
        Loss::MeanSquared(MeanSquaredError),
    );
    net.test(x, t)
}

// The library resolves one millionth, so a step of 1e-5 would move the
// loss by only a few raw units: the check uses a step of 1e-3 and a relative
// tolerance of 1e-3 instead.
#[test]
fn dense_gradient_matches_finite_difference() {
    let w = vec![fx(0.5), fx(0.25)];
    let b = fx(0.1);
    let x = vec![fx(1.0), fx(2.0)];
    let t = vec![fx(0.2)];
    let mut layer = DenseLayer::from_parameters(vec![w.clone()], vec![b]);
    let out = layer.forward(&x);
    let g = MeanSquaredError.gradient(&out, &t);
    layer.backward(&g, fx(1.0));
    let eps = fx(0.001);
    for j in 0..2 {
        let analytic = w[j] - layer.weights()[0][j];
        let mut up = w.clone();
        up[j] += eps;
        let mut down = w.clone();
        down[j] -= eps;
        let numeric = (single_layer_loss(up, b, &x, &t) - single_layer_loss(down, b, &x, &t)) as f64
            / (2.0 * eps as f64 / SCALE as f64);
        let analytic = analytic as f64;
        assert!((analytic - numeric).abs() <= 1e-3 * analytic.abs());
    }
}

#[test]
fn empty_network_returns_its_input() {
    let mut net = NeuralNetwork::new(vec![], Loss::MeanSquared(MeanSquaredError));
    let x = vec![fx(0.5), fx(-2.0), 3];
    assert_eq!(net.forward(&x), x);
    let t = vec![fx(0.5), fx(-2.0), 4];
    assert_eq!(net.test(&x, &t), 1);
    net.train(&x, &t, fx(0.1), 3);
    assert_eq!(net.forward(&x), x);
}

#[test]
fn conv_network_without_dense_stage() {
    let conv = ConvLayer::from_parameters(2, 2, vec![vec![vec![fx(1.0)]]], vec![fx(0.5)], 1, 1, 0);
    let mut net = CNN::new(vec![Layer::Conv(conv)], vec![], Loss::MeanSquared(MeanSquaredError));
    let out = net.forward(&vec![0, fx(1.0), fx(2.0), fx(3.0)]);
    assert_eq!(out, vec![fx(0.5), fx(1.5), fx(2.5), fx(3.5)]);
}
