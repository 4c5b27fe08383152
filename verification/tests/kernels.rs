//! Convolution, pooling and gradient-scatter behaviour on concrete values.

use convnet::kernels::{
    max_pooling, pool_backward, relu_derivative, tensor_convolution, training_max_pooling,
};
use convnet::kernels::matrix_convolution;
use convnet::matrix::Matrix;
use convnet::tensor::Tensor;
use convnet::ShapeError;
use convnet::SCALE;

const S: i64 = 65536;

fn m(rows: Vec<Vec<i64>>) -> Matrix {
    Matrix::from_rows(rows).unwrap()
}

fn fixed(rows: &[&[f64]]) -> Matrix {
    let data: Vec<Vec<i64>> = rows
        .iter()
        .map(|r| r.iter().map(|x| (x * 65536.0) as i64).collect())
        .collect();
    Matrix::from_rows(data).unwrap()
}

#[test]
fn convolution_shape_law() {
    // an n x n input with an f x f filter yields (n - f + 1) squared
    let input = m(vec![vec![0; 6]; 6]);
    let filter = m(vec![vec![0; 3]; 3]);
    let out = matrix_convolution(&input, &filter);
    assert_eq!(out.rows, 4);
    assert_eq!(out.cols, 4);
}

#[test]
fn convolution_known_values() {
    // 3x3 input, 2x2 filter of ones: each output cell is the window sum
    let input = fixed(&[&[1.0, 2.0, 3.0], &[4.0, 5.0, 6.0], &[7.0, 8.0, 9.0]]);
    let filter = fixed(&[&[1.0, 1.0], &[1.0, 1.0]]);
    let out = matrix_convolution(&input, &filter);
    assert_eq!(out.rows, 2);
    assert_eq!(out.cols, 2);
    assert_eq!(out.get(0, 0), 12 * S);
    assert_eq!(out.get(0, 1), 16 * S);
    assert_eq!(out.get(1, 0), 24 * S);
    assert_eq!(out.get(1, 1), 28 * S);
}

#[test]
fn tensor_convolution_sums_channels() {
    // two channels: contributions are summed into one matrix
    let t = Tensor::new(vec![
        fixed(&[&[1.0, 0.0], &[0.0, 0.0]]),
        fixed(&[&[0.0, 0.0], &[0.0, 2.0]]),
    ]);
    let f = Tensor::new(vec![fixed(&[&[1.0]]), fixed(&[&[3.0]])]);
    let out = tensor_convolution(&t, &f).unwrap();
    assert_eq!(out.rows, 2);
    assert_eq!(out.cols, 2);
    assert_eq!(out.get(0, 0), S); // 1*1 + 0*3
    assert_eq!(out.get(1, 1), 6 * S); // 0*1 + 2*3
    assert_eq!(out.get(0, 1), 0);
}

#[test]
fn tensor_convolution_channel_mismatch() {
    let t = Tensor::new(vec![fixed(&[&[1.0, 0.0], &[0.0, 0.0]])]);
    let f = Tensor::new(vec![fixed(&[&[1.0]]), fixed(&[&[3.0]])]);
    assert_eq!(tensor_convolution(&t, &f).unwrap_err(), ShapeError::ChannelMismatch);
    let empty = Tensor::new(vec![]);
    assert_eq!(tensor_convolution(&empty, &empty).unwrap_err(), ShapeError::ChannelMismatch);
}

#[test]
fn tensor_convolution_filter_too_large() {
    let t = Tensor::new(vec![fixed(&[&[1.0, 0.0], &[0.0, 0.0]])]);
    let f = Tensor::new(vec![fixed(&[
        &[1.0, 0.0, 0.0],
        &[0.0, 1.0, 0.0],
        &[0.0, 0.0, 1.0],
    ])]);
    assert_eq!(tensor_convolution(&t, &f).unwrap_err(), ShapeError::FilterTooLarge);
}

#[test]
fn max_pool_shape_law() {
    // pooling a (2r) x (2c) matrix yields r x c
    let input = m(vec![vec![0; 8]; 6]);
    let out = max_pooling(&input).unwrap();
    assert_eq!(out.rows, 3);
    assert_eq!(out.cols, 4);
}

#[test]
fn max_pool_rejects_odd_dimensions() {
    let input = m(vec![vec![0; 4]; 3]);
    assert_eq!(max_pooling(&input).unwrap_err(), ShapeError::OddDimensions);
    let input2 = m(vec![vec![0; 5]; 4]);
    assert_eq!(training_max_pooling(&input2).unwrap_err(), ShapeError::OddDimensions);
}

#[test]
fn max_pool_example() {
    // pooling this 4x4 matrix gives [[1, 3], [0, -1]]
    let input = fixed(&[
        &[1.0, 0.0, 0.0, 3.0],
        &[0.0, 1.0, 0.0, 2.0],
        &[0.0, 0.0, -1.0, -3.5],
        &[0.0, 0.0, -4.0, -4.5],
    ]);
    let out = max_pooling(&input).unwrap();
    assert_eq!(out.rows, 2);
    assert_eq!(out.cols, 2);
    assert_eq!(out.get(0, 0), S);
    assert_eq!(out.get(0, 1), 3 * S);
    assert_eq!(out.get(1, 0), 0);
    assert_eq!(out.get(1, 1), -S);
}

#[test]
fn training_max_pool_records_first_maximum() {
    let input = fixed(&[
        &[1.0, 0.0, 0.0, 3.0],
        &[0.0, 1.0, 0.0, 2.0],
        &[0.0, 0.0, -1.0, -3.5],
        &[0.0, 0.0, -4.0, -4.5],
    ]);
    let (pooled, idx) = training_max_pooling(&input).unwrap();
    assert_eq!(pooled.get(0, 0), S);
    assert_eq!(pooled.get(0, 1), 3 * S);
    assert_eq!(pooled.get(1, 0), 0);
    assert_eq!(pooled.get(1, 1), -S);
    // row-major output cells; ties resolved to the first candidate in the
    // scan order top-left, below, right, below-right
    assert_eq!(idx.len(), 4);
    assert_eq!(idx[0], (0, 0)); // max 1 at the top-left corner
    assert_eq!(idx[1], (0, 3)); // max 3
    assert_eq!(idx[2], (2, 0)); // all four are 0: first candidate wins
    assert_eq!(idx[3], (2, 2)); // max -1
}

#[test]
fn pool_backward_scatters_unit_gradient() {
    // a unit gradient lands exactly at the recorded coordinate
    let input = fixed(&[
        &[1.0, 0.0, 0.0, 3.0],
        &[0.0, 1.0, 0.0, 2.0],
        &[0.0, 0.0, -1.0, -3.5],
        &[0.0, 0.0, -4.0, -4.5],
    ]);
    let (_, idx) = training_max_pooling(&input).unwrap();
    let grad = fixed(&[&[1.0, 0.0], &[0.0, 0.0]]);
    let scattered = pool_backward(&idx, &grad, &input);
    assert_eq!(scattered.rows, 4);
    assert_eq!(scattered.cols, 4);
    for r in 0..4 {
        for c in 0..4 {
            let expected = if (r, c) == (0, 0) { S } else { 0 };
            assert_eq!(scattered.get(r, c), expected);
        }
    }
}

#[test]
fn relu_derivative_indicator() {
    let t = Tensor::new(vec![fixed(&[&[1.5, -0.5], &[0.0, 3.0]])]);
    let d = relu_derivative(&t);
    assert_eq!(d.data[0].get(0, 0), SCALE);
    assert_eq!(d.data[0].get(0, 1), 0);
    assert_eq!(d.data[0].get(1, 0), 0); // zero input is not positive
    assert_eq!(d.data[0].get(1, 1), SCALE);
}

#[test]
fn from_rows_rejects_ragged_input() {
    let r = Matrix::from_rows(vec![vec![1, 2], vec![3]]);
    assert_eq!(r.unwrap_err(), ShapeError::RaggedRows);
}
