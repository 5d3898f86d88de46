use neural_net::conv::{ConvLayer, CONV_INIT_BOUND};
use neural_net::dense::{DenseLayer, DENSE_INIT_BOUND};
use neural_net::fixed::{fx_add, fx_mul, fx_sub, relu, SCALE};

fn fx(v: f64) -> i64 {
    (v * SCALE as f64).round() as i64
}

fn identity_layer() -> DenseLayer {
    DenseLayer::from_parameters(vec![vec![fx(1.0), 0], vec![0, fx(1.0)]], vec![0, 0])
}

fn grid_3x3() -> Vec<Vec<i64>> {
    vec![
        vec![fx(1.0), fx(2.0), fx(3.0)],
        vec![fx(4.0), fx(5.0), fx(6.0)],
        vec![fx(7.0), fx(8.0), fx(9.0)],
    ]
}

fn diagonal_filter_layer(padding: usize) -> ConvLayer {
    ConvLayer::from_parameters(3, 3, vec![vec![vec![fx(1.0), 0], vec![0, fx(-1.0)]]], vec![0], 2, 1, padding)
}

#[test]
fn fixed_point_arithmetic() {
    assert_eq!(fx_mul(fx(1.5), fx(2.0)), fx(3.0));
    assert_eq!(fx_mul(fx(-0.5), fx(0.5)), fx(-0.25));
    assert_eq!(fx_mul(-1, 1), -1);
    assert_eq!(fx_add(i64::MAX, 1), i64::MAX);
    assert_eq!(fx_sub(i64::MIN, 1), i64::MIN);
    assert_eq!(fx_mul(i64::MAX, i64::MAX), i64::MAX);
    assert_eq!(relu(-7), 0);
    assert_eq!(relu(7), 7);
}

#[test]
fn dense_forward_identity() {
    let mut layer = identity_layer();
    let out = layer.forward(&vec![fx(0.5), fx(-0.3)]);
    assert_eq!(out, vec![fx(0.5), 0]);
}

#[test]
fn dense_forward_affine() {
    let mut layer = DenseLayer::from_parameters(
        vec![vec![fx(2.0), fx(-1.0)], vec![fx(0.5), fx(0.5)]],
        vec![fx(0.25), fx(-3.0)],
    );
    let out = layer.forward(&vec![fx(1.0), fx(3.0)]);
    // row 0: 2 - 3 + 0.25 = -0.75 -> 0; row 1: 0.5 + 1.5 - 3 = -1 -> 0
    assert_eq!(out, vec![0, 0]);
    let out = layer.forward(&vec![fx(3.0), fx(1.0)]);
    // row 0: 6 - 1 + 0.25 = 5.25; row 1: 1.5 + 0.5 - 3 = -1 -> 0
    assert_eq!(out, vec![fx(5.25), 0]);
}

#[test]
fn dense_backward_gates_by_relu() {
    let mut layer = identity_layer();
    layer.forward(&vec![fx(0.5), fx(-0.3)]);
    let down = layer.backward(&vec![fx(1.0), fx(1.0)], fx(0.1));
    assert_eq!(down, vec![fx(1.0), 0]);
    // W <- W - lr * d x^T with d = [1, 0], x = [0.5, -0.3]
    assert_eq!(layer.weights(), &vec![vec![fx(0.95), fx(0.03)], vec![0, fx(1.0)]]);
    assert_eq!(layer.biases(), &vec![fx(-0.1), 0]);
}

#[test]
fn dense_new_draws_in_range() {
    let layer = DenseLayer::new(30, 20);
    assert_eq!(layer.weights().len(), 20);
    assert_eq!(layer.biases().len(), 20);
    let mut distinct = std::collections::HashSet::new();
    for row in layer.weights() {
        assert_eq!(row.len(), 30);
        for &w in row {
            assert!(-DENSE_INIT_BOUND <= w && w <= DENSE_INIT_BOUND);
            distinct.insert(w);
        }
    }
    assert!(distinct.len() > 1);
}

#[test]
fn conv_valid_no_stride() {
    let mut layer = diagonal_filter_layer(0);
    let out = layer.forward(&grid_3x3());
    assert_eq!(out, vec![vec![vec![fx(-4.0), fx(-4.0)], vec![fx(-4.0), fx(-4.0)]]]);
}

#[test]
fn conv_with_padding() {
    let mut layer = diagonal_filter_layer(1);
    let out = layer.forward(&grid_3x3());
    assert_eq!(out.len(), 1);
    assert_eq!(out[0].len(), 4);
    assert!(out[0].iter().all(|row| row.len() == 4));
    assert_eq!(out[0][0][0], fx(-1.0));
    assert_eq!(out[0][3][3], fx(9.0));
    assert_eq!(out[0][1][1], fx(-4.0));
}

#[test]
fn conv_with_stride_and_bias() {
    let mut layer = ConvLayer::from_parameters(
        3,
        3,
        vec![vec![vec![fx(1.0)]], vec![vec![fx(2.0)]]],
        vec![fx(0.5), fx(-1.0)],
        1,
        2,
        0,
    );
    let out = layer.forward_flat(&vec![1, 2, 3, 4, 5, 6, 7, 8, 9].iter().map(|&v| fx(v as f64)).collect());
    // positions (0,0), (0,2), (2,0), (2,2) of each channel
    assert_eq!(
        out,
        vec![fx(1.5), fx(3.5), fx(7.5), fx(9.5), fx(1.0), fx(5.0), fx(13.0), fx(17.0)]
    );
}

#[test]
fn conv_backward_gradients() {
    let mut layer = diagonal_filter_layer(0);
    let flat: Vec<i64> = (1..=9).map(|v| fx(v as f64)).collect();
    let out = layer.forward_flat(&flat);
    assert_eq!(out, vec![fx(-4.0); 4]);
    let down = layer.backward(&vec![fx(1.0); 4], fx(0.1));
    assert_eq!(
        down,
        vec![fx(1.0), fx(1.0), 0, fx(1.0), 0, fx(-1.0), 0, fx(-1.0), fx(-1.0)]
    );
    // filter gradient [[12, 16], [24, 28]], bias gradient 4
    assert_eq!(
        layer.filters(),
        &vec![vec![vec![fx(-0.2), fx(-1.6)], vec![fx(-2.4), fx(-3.8)]]]
    );
    assert_eq!(layer.bias(), &vec![fx(-0.4)]);
}

#[test]
fn conv_new_draws_in_range() {
    let layer = ConvLayer::new(5, 3, 2, 1, 0);
    assert_eq!(layer.filters().len(), 3);
    assert_eq!(layer.bias().len(), 3);
    for f in layer.filters() {
        assert_eq!(f.len(), 2);
        for row in f {
            assert_eq!(row.len(), 2);
            for &v in row {
                assert!(-CONV_INIT_BOUND <= v && v <= CONV_INIT_BOUND);
            }
        }
    }
}

#[test]
fn conv_forward_takes_any_valid_shape() {
    let mut layer = diagonal_filter_layer(0);
    let input: Vec<Vec<i64>> = (0..4).map(|r| (0..5).map(|c| fx((r * 5 + c) as f64)).collect()).collect();
    let out = layer.forward(&input);
    // 4 x 5 input, 2 x 2 filter: 3 x 4 output, each cell x[i][j] - x[i+1][j+1] = -6
    assert_eq!(out, vec![vec![vec![fx(-6.0); 4]; 3]]);
    let flat: Vec<i64> = input.concat();
    assert_eq!(layer.forward_flat(&flat), vec![fx(-6.0); 12]);
}
