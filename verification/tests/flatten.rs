//! The flatten adapter: scan order, exact round trips, and shape errors.

use convnet::flatten_layer::FlattenLayer;
use convnet::matrix::Matrix;
use convnet::tensor::Tensor;
use convnet::ShapeError;

fn m(rows: Vec<Vec<i64>>) -> Matrix {
    Matrix::from_rows(rows).unwrap()
}

#[test]
fn flatten_scan_order_is_channel_column_row() {
    let l = FlattenLayer::new(2, 2, 2);
    let t = Tensor::new(vec![
        m(vec![vec![1, 2], vec![3, 4]]),
        m(vec![vec![5, 6], vec![7, 8]]),
    ]);
    let v = l.flatten(&t).unwrap();
    // channel-major, then column-major, then row
    assert_eq!(v, vec![1, 3, 2, 4, 5, 7, 6, 8]);
}

#[test]
fn unflatten_inverts_flatten() {
    let l = FlattenLayer::new(3, 2, 2);
    let t = Tensor::new(vec![
        m(vec![vec![10, -20, 30], vec![40, 50, -60]]),
        m(vec![vec![7, 8, 9], vec![-1, -2, -3]]),
    ]);
    let v = l.flatten(&t).unwrap();
    assert_eq!(v.len(), 12);
    let t2 = l.back(&v).unwrap();
    assert_eq!(t2.data.len(), t.data.len());
    for ch in 0..2 {
        for r in 0..2 {
            for c in 0..3 {
                assert_eq!(t2.data[ch].get(r, c), t.data[ch].get(r, c));
            }
        }
    }
}

#[test]
fn flatten_inverts_unflatten() {
    let l = FlattenLayer::new(2, 3, 2);
    let v: Vec<i64> = (0..12).map(|x| x * 1000 - 5000).collect();
    let t = l.back(&v).unwrap();
    let v2 = l.flatten(&t).unwrap();
    assert_eq!(v2, v);
}

#[test]
fn flatten_rejects_wrong_shape() {
    let l = FlattenLayer::new(2, 2, 2);
    let t = Tensor::new(vec![m(vec![vec![1, 2], vec![3, 4]])]); // one channel, not two
    assert_eq!(l.flatten(&t).unwrap_err(), ShapeError::WrongShape);
    let t2 = Tensor::new(vec![
        m(vec![vec![1, 2, 3], vec![4, 5, 6]]),
        m(vec![vec![1, 2, 3], vec![4, 5, 6]]),
    ]); // 2x3, not 2x2
    assert_eq!(l.flatten(&t2).unwrap_err(), ShapeError::WrongShape);
}

#[test]
fn unflatten_rejects_wrong_length() {
    let l = FlattenLayer::new(2, 2, 2);
    assert_eq!(l.back(&vec![0i64; 7]).unwrap_err(), ShapeError::WrongShape);
    assert!(l.back(&vec![0i64; 8]).is_ok());
}
