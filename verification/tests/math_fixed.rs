//! Fixed-point arithmetic, non-linearities and data preparation on concrete
//! values.

use convnet::fixed::{fadd, fdivn, fmul, fsub};
use convnet::math::{argmax, expneg, isqrt, relu, sigmoid, sigmoid_one, softmax};
use convnet::{cifar_chunk, mnist_input, one_hot, ShapeError, FIX_MAX, SCALE};

const S: i64 = 65536;

#[test]
fn fixed_ops_exact_values() {
    assert_eq!(fadd(S, S), 2 * S); // 1 + 1 == 2
    assert_eq!(fsub(S, 3 * S), -2 * S); // 1 - 3 == -2
    assert_eq!(fmul(2 * S, 3 * S), 6 * S); // 2 * 3 == 6
    assert_eq!(fmul(-2 * S, 3 * S), -6 * S);
    assert_eq!(fmul(S / 2, S / 2), S / 4); // 0.5 * 0.5 == 0.25
    assert_eq!(fdivn(7 * S, 2), 7 * S / 2); // 7 / 2 == 3.5
    // rounding is toward zero
    assert_eq!(fdivn(-3, 2), -1);
    assert_eq!(fdivn(3, 2), 1);
}

#[test]
fn fixed_ops_saturate() {
    assert_eq!(fadd(FIX_MAX, FIX_MAX), FIX_MAX);
    assert_eq!(fsub(-FIX_MAX, FIX_MAX), -FIX_MAX);
    assert_eq!(fmul(FIX_MAX, FIX_MAX), FIX_MAX);
    assert_eq!(fmul(-FIX_MAX, FIX_MAX), -FIX_MAX);
}

#[test]
fn sigmoid_at_zero_is_one_half() {
    assert_eq!(sigmoid_one(0), S / 2);
}

#[test]
fn sigmoid_limits_and_symmetry() {
    assert_eq!(sigmoid_one(40 * S), S); // saturates to one
    assert_eq!(sigmoid_one(-40 * S), 0); // saturates to zero
    for &x in &[S / 4, S, 3 * S, 7 * S / 2] {
        let a = sigmoid_one(x);
        let b = sigmoid_one(-x);
        assert_eq!(a + b, S); // sigma(x) + sigma(-x) == 1
        assert!(a > S / 2);
    }
    // close to the real logistic function: sigma(1) ~ 0.73106
    let s1 = sigmoid_one(S) as f64 / 65536.0;
    assert!((s1 - 0.731_058).abs() < 0.001, "sigma(1) = {s1}");
}

#[test]
fn expneg_values() {
    assert_eq!(expneg(0), S);
    // e^-1 ~ 0.36788
    let e1 = expneg(S) as f64 / 65536.0;
    assert!((e1 - 0.367_879).abs() < 0.001, "exp(-1) = {e1}");
    // e^-ln2 == 1/2
    let eh = expneg(45426) as f64 / 65536.0;
    assert!((eh - 0.5).abs() < 0.001, "exp(-ln2) = {eh}");
}

#[test]
fn sigmoid_vector_is_elementwise() {
    let v = vec![0i64, S, -S];
    let s = sigmoid(&v);
    assert_eq!(s.len(), 3);
    assert_eq!(s[0], sigmoid_one(0));
    assert_eq!(s[1], sigmoid_one(S));
    assert_eq!(s[2], sigmoid_one(-S));
}

#[test]
fn softmax_uniform_input() {
    let v = vec![S, S, S, S];
    let p = softmax(&v);
    for &x in &p {
        assert_eq!(x, S / 4);
    }
}

#[test]
fn softmax_sums_to_about_one_and_orders() {
    let v = vec![0i64, S, 2 * S];
    let p = softmax(&v);
    let sum: i64 = p.iter().sum();
    assert!((sum - S).abs() < 16, "sum = {sum}");
    assert!(p[0] < p[1] && p[1] < p[2]);
    // softmax(0, 1, 2) ~ (0.0900, 0.2447, 0.6652)
    let p2 = p[2] as f64 / 65536.0;
    assert!((p2 - 0.665_24).abs() < 0.002, "p2 = {p2}");
}

#[test]
fn relu_clamps_negatives() {
    let v = vec![-S, 0, 3 * S];
    let r = relu(&v);
    assert_eq!(r, vec![0, 0, 3 * S]);
}

#[test]
fn argmax_first_maximum_wins() {
    assert_eq!(argmax(&vec![1i64, 5, 5, 2]), 1);
    assert_eq!(argmax(&vec![7i64]), 0);
    assert_eq!(argmax(&vec![-3i64, -1, -2]), 1);
    assert_eq!(argmax(&vec![2i64, 2, 2]), 0);
}

#[test]
fn isqrt_values() {
    assert_eq!(isqrt(0), 0);
    assert_eq!(isqrt(1), 1);
    assert_eq!(isqrt(15), 3);
    assert_eq!(isqrt(16), 4);
    assert_eq!(isqrt(4294967296), 65536);
}

#[test]
fn mnist_input_normalizes() {
    let v = mnist_input(&vec![0u8, 255, 128]);
    assert_eq!(v.len(), 3);
    assert_eq!(v[0], -S); // 0 maps to -1
    assert_eq!(v[1], 255 * 131072 / 255 - S); // 255 maps to +1
    let mid = v[2] as f64 / 65536.0;
    assert!((mid - (128.0 / 127.5 - 1.0)).abs() < 0.001);
}

#[test]
fn one_hot_target() {
    let y = one_hot(2, 4);
    assert_eq!(y, vec![0, 0, S, 0]);
}

#[test]
fn cifar_chunk_decodes_record() {
    let mut buf = vec![0u8; 3073];
    buf[0] = 7; // label
    buf[1] = 9; // channel 0, row 0, col 0
    buf[1 + 1024] = 11; // channel 1, row 0, col 0
    buf[1 + 2 * 1024 + 32 + 1] = 13; // channel 2, row 1, col 1
    let (t, label) = cifar_chunk(&buf).unwrap();
    assert_eq!(label, 7);
    assert_eq!(t.data.len(), 3);
    assert_eq!(t.data[0].get(0, 0), 9 * S);
    assert_eq!(t.data[1].get(0, 0), 11 * S);
    assert_eq!(t.data[2].get(1, 1), 13 * S);
    assert_eq!(t.data[0].get(1, 1), 0);
}

#[test]
fn cifar_chunk_rejects_short_record() {
    let buf = vec![0u8; 3072];
    assert_eq!(cifar_chunk(&buf).unwrap_err(), ShapeError::WrongShape);
}
