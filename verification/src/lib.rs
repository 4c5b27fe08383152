//! A small supervised-learning training engine: a multilayer feed-forward
//! network, optionally preceded by a convolutional feature-extraction stage,
//! trained by mini-batch stochastic gradient descent with back-propagation.
//!
//! All scalars are fixed-point reals: an `i64` holds the real value times
//! `SCALE`. Every arithmetic step saturates at `FIX_MAX`, so each operation
//! is total and carries an exact integer contract.

pub mod convolutional_layer;
pub mod convolutional_neural_network;
pub mod data_prep;
pub mod errors;
pub mod fixed;
pub mod flatten_layer;
pub mod fully_connected_layer;
pub mod kernels;
pub mod math;
pub mod matrix;
pub mod network_architecture;
pub mod neural_network;
pub mod regularization;
pub mod relu_network;
pub mod rng;
pub mod sigmoid_network;
pub mod tensor;

pub use convolutional_layer::{ConvoultionalLayer, TrainingCache};
pub use convolutional_neural_network::ConvolutionalNeuralNetwork;
pub use data_prep::{cifar_chunk, mnist_input, one_hot};
pub use errors::ShapeError;
pub use fixed::{FIX_MAX, SCALE};
pub use flatten_layer::FlattenLayer;
pub use fully_connected_layer::FullyConnectedLayer;
pub use kernels::{
    matrix_convolution, max_pooling, pool_backward, relu_derivative, tensor_convolution,
    training_max_pooling,
};
pub use matrix::Matrix;
pub use network_architecture::{NetworkArchitecture, Parameters};
pub use neural_network::NeuralNetwork;
pub use regularization::{Regularization, L1, L2, NON};
pub use relu_network::ReLuNetwork;
pub use sigmoid_network::SigmoidNetwork;
pub use tensor::Tensor;
