//! The convolutional layer and the composed convolutional network on
//! concrete values.

use convnet::convolutional_layer::ConvoultionalLayer;
use convnet::convolutional_neural_network::ConvolutionalNeuralNetwork;
use convnet::matrix::Matrix;
use convnet::tensor::Tensor;
use convnet::{cifar_chunk, one_hot, ShapeError};
use rand::SeedableRng;

const S: i64 = 65536;

fn ones(rows: usize, cols: usize, v: i64) -> Matrix {
    Matrix::from_rows(vec![vec![v; cols]; rows]).unwrap()
}

fn small_layer() -> ConvoultionalLayer {
    let mut rng = rand::rngs::StdRng::seed_from_u64(5);
    let mut layer = ConvoultionalLayer::new(1, 1, 4, S, &mut rng);
    // one channel: the drawn entries stay within [0, 1/3) in fixed point
    for r in 0..3 {
        for c in 0..3 {
            let w = layer.filters[0].data[0].get(r, c);
            assert!(0 <= w && w < 65536 / 3);
        }
    }
    // a known filter of ones and a zero bias make the values predictable
    layer.filters[0] = Tensor::new(vec![ones(3, 3, S)]);
    layer.biases[0] = 0;
    layer
}

#[test]
fn conv_layer_feedforward_values() {
    let layer = small_layer();
    let input = Tensor::new(vec![ones(4, 4, S)]);
    let out = layer.feedforward(&input).unwrap();
    // 4x4 input, 3x3 filter: 2x2 convolution of all nines, pooled to 1x1
    assert_eq!(out.data.len(), 1);
    assert_eq!(out.data[0].rows, 1);
    assert_eq!(out.data[0].cols, 1);
    assert_eq!(out.data[0].get(0, 0), 9 * S);
}

#[test]
fn conv_layer_rejects_wrong_input_shape() {
    let layer = small_layer();
    let bad = Tensor::new(vec![ones(6, 6, S)]);
    assert_eq!(layer.feedforward(&bad).unwrap_err(), ShapeError::WrongShape);
    let two_channels = Tensor::new(vec![ones(4, 4, S), ones(4, 4, S)]);
    assert_eq!(layer.feedforward(&two_channels).unwrap_err(), ShapeError::WrongShape);
}

#[test]
fn conv_layer_backpropagation_values() {
    let layer = small_layer();
    let input = Tensor::new(vec![ones(4, 4, S)]);
    let (out, cache) = layer.training_feedforward(&input).unwrap();
    assert_eq!(out.data[0].get(0, 0), 9 * S);
    // the pooled cell came from position (0, 0) (all four candidates tie)
    assert_eq!(cache.pooling_indizes[0][0], (0, 0));
    // a unit output gradient
    let grad = Tensor::new(vec![ones(1, 1, S)]);
    let (nabla_b, nabla_w) = layer.backpropagation(&cache, &grad).unwrap();
    // the error map has the unit at (0, 0): the bias gradient is one
    assert_eq!(nabla_b.len(), 1);
    assert_eq!(nabla_b[0], S);
    // the filter gradient convolves the input against the error map: with a
    // single unit at (0, 0), each cell is the input value there, one
    assert_eq!(nabla_w.len(), 1);
    assert_eq!(nabla_w[0].data.len(), 1);
    for r in 0..3 {
        for c in 0..3 {
            assert_eq!(nabla_w[0].data[0].get(r, c), S);
        }
    }
}

#[test]
fn conv_layer_backpropagation_rejects_wrong_gradient_shape() {
    let layer = small_layer();
    let input = Tensor::new(vec![ones(4, 4, S)]);
    let (_, cache) = layer.training_feedforward(&input).unwrap();
    let bad = Tensor::new(vec![ones(2, 2, S)]);
    assert_eq!(layer.backpropagation(&cache, &bad).unwrap_err(), ShapeError::WrongShape);
}

#[test]
fn conv_layer_update_parameters_steps_filters() {
    let mut layer = small_layer();
    let nabla_w = vec![Tensor::new(vec![ones(3, 3, S)])];
    let nabla_b = vec![2 * S];
    // learning rate 1, batch size 1: filters drop by one, bias by two
    layer.update_parameters(&nabla_w, &nabla_b, 1);
    for r in 0..3 {
        for c in 0..3 {
            assert_eq!(layer.filters[0].data[0].get(r, c), 0);
        }
    }
    assert_eq!(layer.biases[0], -2 * S);
}

fn record(seed: u8) -> Vec<u8> {
    let mut buf = vec![0u8; 3073];
    for i in 0..3073 {
        buf[i] = ((i as u64 * 31 + seed as u64 * 17) % 7) as u8;
    }
    buf[0] = seed % 10;
    buf
}

#[test]
fn cnn_trains_and_evaluates() {
    let mut net = ConvolutionalNeuralNetwork::new(2, S / 10, 0, 99);
    let (x0, l0) = cifar_chunk(&record(1)).unwrap();
    let (x1, l1) = cifar_chunk(&record(2)).unwrap();
    let train = vec![(x0, one_hot(l0, 10)), (x1, one_hot(l1, 10))];
    net.stochastic_gradient_descent(train, 1).unwrap();
    let (t0, m0) = cifar_chunk(&record(1)).unwrap();
    let count = net.evaluate(vec![(t0, m0)]).unwrap();
    assert!(count <= 1);
}

#[test]
fn cnn_evaluate_rejects_wrong_picture_shape() {
    let net = ConvolutionalNeuralNetwork::new(1, S / 10, 0, 3);
    let bad = Tensor::new(vec![ones(4, 4, S)]);
    assert_eq!(net.evaluate(vec![(bad, 0usize)]).unwrap_err(), ShapeError::WrongShape);
}
