//! Regularization laws on values, finite-difference gradient checks, the
//! mini-batch accumulation law, and end-to-end training on a separable
//! dataset.

use convnet::fixed::{fadd, fsub};
use convnet::fully_connected_layer::FullyConnectedLayer;
use convnet::matrix::Matrix;
use convnet::neural_network::NeuralNetwork;
use convnet::regularization::{Regularization, L1, L2, NON};
use convnet::relu_network::ReLuNetwork;
use convnet::sigmoid_network::SigmoidNetwork;
use convnet::{ShapeError, SCALE};
use rand::SeedableRng;

const S: i64 = 65536;

fn m(rows: Vec<Vec<i64>>) -> Matrix {
    Matrix::from_rows(rows).unwrap()
}

#[test]
fn l2_decay_shrinks_magnitudes() {
    // eta = 1, lambda = 0.5, n = 1: every weight is halved
    let w = m(vec![vec![4 * S, -2 * S], vec![S, 0]]);
    let out = (L2 {}).reg_w(&w, S / 2, S, 1);
    assert_eq!(out.get(0, 0), 2 * S);
    assert_eq!(out.get(0, 1), -S);
    assert_eq!(out.get(1, 0), S / 2);
    assert_eq!(out.get(1, 1), 0);
    for r in 0..2 {
        for c in 0..2 {
            if w.get(r, c) != 0 {
                assert!(out.get(r, c).abs() < w.get(r, c).abs());
            }
        }
    }
}

#[test]
fn l1_decay_moves_toward_zero_by_fixed_amount() {
    // eta = 1, lambda = 0.25, n = 1: a fixed step of 0.25 toward zero
    let w = m(vec![vec![4 * S, -2 * S], vec![S / 4, 0]]);
    let out = (L1 {}).reg_w(&w, S / 4, S, 1);
    assert_eq!(out.get(0, 0), 4 * S - S / 4);
    assert_eq!(out.get(0, 1), -2 * S + S / 4);
    assert_eq!(out.get(1, 0), 0); // exactly reaches zero, no overshoot
    assert_eq!(out.get(1, 1), 0);
}

#[test]
fn no_decay_is_identity() {
    let w = m(vec![vec![123456, -654321]]);
    let out = (NON {}).reg_w(&w, S, S, 1);
    assert_eq!(out.get(0, 0), 123456);
    assert_eq!(out.get(0, 1), -654321);
}

fn to_f(x: i64) -> f64 {
    x as f64 / 65536.0
}

fn sigmoid_ce_loss(a: &[i64], y: &[i64]) -> f64 {
    let mut l = 0.0;
    for i in 0..a.len() {
        let ai = to_f(a[i]).clamp(1e-6, 1.0 - 1e-6);
        let yi = to_f(y[i]);
        l += -(yi * ai.ln() + (1.0 - yi) * (1.0 - ai).ln());
    }
    l
}

fn softmax_ce_loss(p: &[i64], y: &[i64]) -> f64 {
    let mut l = 0.0;
    for i in 0..p.len() {
        let pi = to_f(p[i]).clamp(1e-6, 1.0);
        let yi = to_f(y[i]);
        l += -(yi * pi.ln());
    }
    l
}

/// Finite-difference check of one weight's analytic gradient.
fn check_gradient<F: Fn(&[i64], &[i64]) -> f64>(
    layer: &mut FullyConnectedLayer<SigmoidNetwork, NON>,
    _loss_tag: &str,
    loss: F,
    x: &Vec<i64>,
    y: &Vec<i64>,
) {
    let (_, nabla_w, _) = layer.backpropagation(x, y).unwrap();
    let eps: i64 = 655; // about 0.01
    let eps_f = to_f(eps);
    for n in 0..layer.parameters.weights.len() {
        for r in 0..layer.parameters.weights[n].rows {
            for c in 0..layer.parameters.weights[n].cols {
                let orig = layer.parameters.weights[n].data[r][c];
                layer.parameters.weights[n].data[r][c] = orig + eps;
                let lp = loss(&layer.feedforward(x).unwrap(), y);
                layer.parameters.weights[n].data[r][c] = orig - eps;
                let lm = loss(&layer.feedforward(x).unwrap(), y);
                layer.parameters.weights[n].data[r][c] = orig;
                let fd = (lp - lm) / (2.0 * eps_f);
                let an = to_f(nabla_w[n].get(r, c));
                assert!(
                    (fd - an).abs() < 0.03 + 0.15 * an.abs(),
                    "layer {n} ({r},{c}): finite difference {fd} vs analytic {an}"
                );
            }
        }
    }
}

#[test]
fn gradient_check_sigmoid_architecture() {
    let mut rng = rand::rngs::StdRng::seed_from_u64(11);
    let mut layer = FullyConnectedLayer::<SigmoidNetwork, NON>::new(
        vec![3, 4, 2],
        S,
        0,
        SigmoidNetwork {},
        NON {},
        &mut rng,
    );
    let x = vec![3 * S / 10, -S / 5, 4 * S / 5];
    let y = vec![S, 0];
    check_gradient(&mut layer, "sigmoid", sigmoid_ce_loss, &x, &y);
}

#[test]
fn gradient_check_relu_architecture() {
    let mut rng = rand::rngs::StdRng::seed_from_u64(13);
    let mut layer = FullyConnectedLayer::<ReLuNetwork, L2>::new(
        vec![3, 5, 2],
        S,
        S / 2,
        ReLuNetwork {},
        L2 {},
        &mut rng,
    );
    let x = vec![S / 2, 7 * S / 10, -S / 4];
    let y = vec![0, S];
    let (_, nabla_w, _) = layer.backpropagation(&x, &y).unwrap();
    let eps: i64 = 655;
    let eps_f = to_f(eps);
    for n in 0..layer.parameters.weights.len() {
        for r in 0..layer.parameters.weights[n].rows {
            for c in 0..layer.parameters.weights[n].cols {
                let orig = layer.parameters.weights[n].data[r][c];
                layer.parameters.weights[n].data[r][c] = orig + eps;
                let lp = softmax_ce_loss(&layer.feedforward(&x).unwrap(), &y);
                layer.parameters.weights[n].data[r][c] = orig - eps;
                let lm = softmax_ce_loss(&layer.feedforward(&x).unwrap(), &y);
                layer.parameters.weights[n].data[r][c] = orig;
                let fd = (lp - lm) / (2.0 * eps_f);
                let an = to_f(nabla_w[n].get(r, c));
                assert!(
                    (fd - an).abs() < 0.03 + 0.15 * an.abs(),
                    "layer {n} ({r},{c}): finite difference {fd} vs analytic {an}"
                );
            }
        }
    }
}

#[test]
fn mini_batch_accumulation_equals_manual_sum() {
    // two networks from the same seed start identical; eta/m == 1 makes the
    // update subtract exactly the accumulated gradient
    let sizes = vec![3usize, 4, 2];
    let net1 = NeuralNetwork::<SigmoidNetwork, NON>::new(
        sizes.clone(),
        SigmoidNetwork {},
        NON {},
        77,
    );
    let mut net2 = NeuralNetwork::<SigmoidNetwork, NON>::new(
        sizes.clone(),
        SigmoidNetwork {},
        NON {},
        77,
    );
    let data = vec![
        (vec![S / 2, -S / 4, S], vec![S, 0]),
        (vec![-S / 3, S / 5, S / 2], vec![0, S]),
    ];
    // per-example gradients, summed by hand
    let (nb0, nw0) = net1.backprop(&data[0].0, &data[0].1).unwrap();
    let (nb1, nw1) = net1.backprop(&data[1].0, &data[1].1).unwrap();
    // one batch update with eta = 2 over m = 2, so the rate is exactly one
    net2.update_mini_batch(&data, 0, 2, 2 * S, 0, 2);
    for n in 0..net1.parameters.weights.len() {
        for r in 0..net1.parameters.weights[n].rows {
            for c in 0..net1.parameters.weights[n].cols {
                let acc = fadd(nw0[n].get(r, c), nw1[n].get(r, c));
                let expected = fsub(net1.parameters.weights[n].get(r, c), acc);
                assert_eq!(net2.parameters.weights[n].get(r, c), expected);
            }
        }
        for i in 0..net1.parameters.biases[n].len() {
            let acc = fadd(nb0[n][i], nb1[n][i]);
            let expected = fsub(net1.parameters.biases[n][i], acc);
            assert_eq!(net2.parameters.biases[n][i], expected);
        }
    }
}

fn separable_example(class: usize, jitter: i64) -> (Vec<i64>, Vec<i64>) {
    let hi = 9 * S / 10 + jitter;
    let lo = S / 10 + jitter;
    let x = if class == 0 {
        vec![hi, hi, lo, lo]
    } else {
        vec![lo, lo, hi, hi]
    };
    let y = if class == 0 { vec![S, 0] } else { vec![0, S] };
    (x, y)
}

#[test]
fn training_improves_evaluation() {
    let mut net = NeuralNetwork::<SigmoidNetwork, NON>::new(
        vec![4, 3, 2],
        SigmoidNetwork {},
        NON {},
        42,
    );
    let mut train = Vec::new();
    for k in 0..8 {
        let j = (k as i64 - 4) * 655; // deterministic jitter, about +-0.04
        train.push(separable_example(0, j));
        train.push(separable_example(1, j));
    }
    let mut test = Vec::new();
    for k in 0..5 {
        let j = (k as i64 - 2) * 400;
        let (x0, _) = separable_example(0, j);
        test.push((x0, 0usize));
        let (x1, _) = separable_example(1, j);
        test.push((x1, 1usize));
    }
    let before = net.evaluate(test.clone()).unwrap();
    net.stochastic_gradient_descent(train, 150, 4, 3 * S, 0).unwrap();
    let after = net.evaluate(test.clone()).unwrap();
    assert_eq!(after, 10, "trained network misclassifies: {after}/10");
    assert!(after > before, "no improvement: {before} -> {after}");
}

#[test]
fn evaluate_counts_first_argmax_matches() {
    let mut net = NeuralNetwork::<SigmoidNetwork, NON>::new(
        vec![2, 2],
        SigmoidNetwork {},
        NON {},
        1,
    );
    // identity weights: the sigmoid keeps the order of the inputs
    net.parameters.weights[0] = m(vec![vec![S, 0], vec![0, S]]);
    net.parameters.biases[0] = vec![0, 0];
    let data = vec![
        (vec![2 * S, S], 0usize),     // argmax 0, label 0: match
        (vec![0, 3 * S], 1usize),     // argmax 1, label 1: match
        (vec![5 * S, 0], 1usize),     // argmax 0, label 1: miss
        (vec![S, S], 0usize),         // tie: lowest index wins, label 0: match
    ];
    assert_eq!(net.evaluate(data).unwrap(), 3);
}

#[test]
fn evaluate_rejects_wrong_input_width() {
    let net = NeuralNetwork::<SigmoidNetwork, NON>::new(
        vec![3, 2],
        SigmoidNetwork {},
        NON {},
        1,
    );
    let data = vec![(vec![S, S], 0usize)];
    assert_eq!(net.evaluate(data).unwrap_err(), ShapeError::WrongShape);
}

#[test]
fn sgd_rejects_misshapen_example() {
    let mut net = NeuralNetwork::<SigmoidNetwork, NON>::new(
        vec![3, 2],
        SigmoidNetwork {},
        NON {},
        1,
    );
    let data = vec![(vec![S, S, S], vec![S])]; // target too short
    assert_eq!(
        net.stochastic_gradient_descent(data, 1, 1, S, 0).unwrap_err(),
        ShapeError::WrongShape
    );
}

#[test]
fn seeded_initialization_is_deterministic_and_bounded() {
    let a = NeuralNetwork::<SigmoidNetwork, NON>::new(vec![4, 3], SigmoidNetwork {}, NON {}, 9);
    let b = NeuralNetwork::<SigmoidNetwork, NON>::new(vec![4, 3], SigmoidNetwork {}, NON {}, 9);
    let mut nonzero = false;
    for r in 0..3 {
        for c in 0..4 {
            let wa = a.parameters.weights[0].get(r, c);
            assert_eq!(wa, b.parameters.weights[0].get(r, c));
            assert!(wa.abs() <= SCALE);
            // fan-in of 4: the draw stays within 1/sqrt(4) == 0.5
            assert!(wa * wa <= 4294967296 / 4);
            assert!(-SCALE / 2 <= wa && wa < SCALE / 2);
            if wa != 0 {
                nonzero = true;
            }
        }
    }
    assert!(nonzero);
}

#[test]
fn layer_reports_its_sizes() {
    let mut rng = rand::rngs::StdRng::seed_from_u64(3);
    let layer = FullyConnectedLayer::<SigmoidNetwork, NON>::new(
        vec![5, 4, 2],
        S,
        0,
        SigmoidNetwork {},
        NON {},
        &mut rng,
    );
    assert_eq!(layer.get_weight_sizes(), &vec![(4usize, 5usize), (2usize, 4usize)]);
    assert_eq!(layer.get_bias_sizes(), &vec![4usize, 2usize]);
}
