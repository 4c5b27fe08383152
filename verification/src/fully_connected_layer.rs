//! The fully-connected stage: a chain of weight matrices and bias vectors,
//! bound to one activation architecture and one regularization policy. It
//! delegates forward evaluation to the architecture, runs the shared
//! back-propagation core, and applies decay-then-step parameter updates.

use vstd::prelude::*;

use crate::errors::ShapeError;
use crate::fixed::{fdivn, fdivn_s, fmul_s, fsub_s, SCALE};
use crate::matrix::{mat_step, vec_copy, vec_step, vec_zeros, vi, Matrix};
use crate::network_architecture::{
    backprop_core, delta_s, feedforward_chain, ff_s, nabla_b_rel, nabla_w_rel,
    NetworkArchitecture, Parameters,
};
use crate::math::isqrt;
use crate::regularization::Regularization;
use crate::rng::rand_range_i64;

verus! {

/// A fully-connected layer chain with its hyperparameters and strategies.
pub struct FullyConnectedLayer<T: NetworkArchitecture, R: Regularization> {
    pub parameters: Parameters,
    pub weight_sizes: Vec<(usize, usize)>,
    pub bias_sizes: Vec<usize>,
    pub learning_rate: i64,
    pub lambda: i64,
    pub architecture: T,
    pub regularization: R,
}

impl<T: NetworkArchitecture, R: Regularization> FullyConnectedLayer<T, R> {
    /// The parameter chain is well-formed and the cached size lists mirror it.
    pub open spec fn wf(self) -> bool {
        &&& self.parameters.wf()
        &&& self.parameters.n_layers() >= 1
        &&& self.weight_sizes@.len() == self.parameters.n_layers()
        &&& self.bias_sizes@.len() == self.parameters.n_layers()
        &&& forall|n: int|
            0 <= n < self.parameters.n_layers() ==> (#[trigger] self.weight_sizes@[n]).0
                == self.parameters.layer_out(n) && self.weight_sizes@[n].1
                == self.parameters.layer_in(n) && self.bias_sizes@[n] == self.parameters.layer_out(
                n,
            )
    }

    /// The width of the layer's input vectors.
    pub open spec fn in_size(self) -> int {
        self.parameters.in_size()
    }

    /// The width of the layer's output vectors.
    pub open spec fn out_size(self) -> int {
        self.parameters.out_size()
    }

    /// Builds a chain for the given layer sizes: weight matrix `n` has shape
    /// `sizes[n + 1] x sizes[n]`, with entries drawn uniformly from
    /// `(-1/sqrt(sizes[n]), 1/sqrt(sizes[n]))` in fixed point; biases start
    /// at zero.
    pub fn new(
        sizes: Vec<usize>,
        learning_rate: i64,
        lambda: i64,
        architecture: T,
        regularization: R,
        rng: &mut rand::rngs::StdRng,
    ) -> (layer: Self)
        requires
            sizes@.len() >= 2,
            forall|i: int| 0 <= i < sizes@.len() ==> 1 <= #[trigger] sizes@[i] <= 4294967296,
        ensures
            layer.wf(),
            layer.parameters.n_layers() == sizes@.len() - 1,
            forall|n: int|
                0 <= n < sizes@.len() - 1 ==> layer.parameters.layer_in(n) == sizes@[n]
                    && #[trigger] layer.parameters.layer_out(n) == sizes@[n + 1],
            layer.learning_rate == learning_rate,
            layer.lambda == lambda,
            layer.architecture == architecture,
            layer.regularization == regularization,
            forall|n: int, i: int|
                0 <= n < sizes@.len() - 1 && 0 <= i < sizes@[n + 1]
                    ==> #[trigger] layer.parameters.biases@[n]@[i] == 0i64,
            forall|n: int, r: int, c: int|
                0 <= n < sizes@.len() - 1 && 0 <= r < sizes@[n + 1] && 0 <= c < sizes@[n]
                    ==> -(SCALE as int) <= #[trigger] layer.parameters.weights@[n].at(r, c)
                    && layer.parameters.weights@[n].at(r, c) < SCALE as int,
            // the fan-in-scaled initialization range: |w| never exceeds
            // 1/sqrt(sizes[n]) in fixed point
            forall|n: int, r: int, c: int|
                0 <= n < sizes@.len() - 1 && 0 <= r < sizes@[n + 1] && 0 <= c < sizes@[n]
                    ==> #[trigger] (layer.parameters.weights@[n].at(r, c)
                    * layer.parameters.weights@[n].at(r, c)) <= 4294967296int / (sizes@[n] as int),
    {
        let mut weights: Vec<Matrix> = Vec::new();
        let mut biases: Vec<Vec<i64>> = Vec::new();
        let mut weight_sizes: Vec<(usize, usize)> = Vec::new();
        let mut bias_sizes: Vec<usize> = Vec::new();
        let n_layers = sizes.len() - 1;
        let mut n: usize = 0;
        while n < n_layers
            invariant
                sizes@.len() >= 2,
                forall|i: int| 0 <= i < sizes@.len() ==> 1 <= #[trigger] sizes@[i] <= 4294967296,
                n_layers == sizes@.len() - 1,
                n <= n_layers,
                weights@.len() == n,
                biases@.len() == n,
                weight_sizes@.len() == n,
                bias_sizes@.len() == n,
                forall|m: int|
                    0 <= m < n ==> (#[trigger] weights@[m]).wf() && weights@[m].rows == sizes@[m
                        + 1] && weights@[m].cols == sizes@[m],
                forall|m: int, r: int, c: int|
                    0 <= m < n && 0 <= r < sizes@[m + 1] && 0 <= c < sizes@[m] ==> -(
                    SCALE as int) <= #[trigger] weights@[m].at(r, c) && weights@[m].at(r, c)
                        < SCALE as int,
                forall|m: int, r: int, c: int|
                    0 <= m < n && 0 <= r < sizes@[m + 1] && 0 <= c < sizes@[m]
                        ==> #[trigger] (weights@[m].at(r, c) * weights@[m].at(r, c))
                        <= 4294967296int / (sizes@[m] as int),
                forall|m: int|
                    0 <= m < n ==> (#[trigger] biases@[m])@.len() == sizes@[m + 1],
                forall|m: int, i: int|
                    0 <= m < n && 0 <= i < sizes@[m + 1] ==> #[trigger] biases@[m]@[i] == 0i64,
                forall|m: int|
                    0 <= m < n ==> (#[trigger] weight_sizes@[m]).0 == sizes@[m + 1]
                        && weight_sizes@[m].1 == sizes@[m],
                forall|m: int| 0 <= m < n ==> #[trigger] bias_sizes@[m] == sizes@[m + 1],
            decreases n_layers - n,
        {
            let rows = sizes[n + 1];
            let cols = sizes[n];
            let scale_sq: u64 = 4294967296u64 / (cols as u64);
            proof {
                assert(scale_sq as int >= 1) by (nonlinear_arith)
                    requires
                        scale_sq as int == 4294967296int / (cols as int),
                        1 <= cols as int <= 4294967296,
                ;
            }
            let s0 = isqrt(scale_sq);
            proof {
                assert(s0 >= 1) by {
                    if s0 == 0 {
                        assert((s0 + 1) * (s0 + 1) == 1) by (nonlinear_arith)
                            requires
                                s0 == 0u64,
                        ;
                        assert(false);
                    }
                };
            }
            let scale: i64 = s0 as i64;
            let mut data: Vec<Vec<i64>> = Vec::new();
            let mut r: usize = 0;
            while r < rows
                invariant
                    1 <= scale <= 65536,
                    r <= rows,
                    data@.len() == r,
                    forall|i: int| 0 <= i < r ==> (#[trigger] data@[i])@.len() == cols,
                    forall|i: int, j: int|
                        0 <= i < r && 0 <= j < cols ==> -scale <= #[trigger] data@[i]@[j]
                            && data@[i]@[j] < scale,
                decreases rows - r,
            {
                let mut row: Vec<i64> = Vec::new();
                let mut c: usize = 0;
                while c < cols
                    invariant
                        1 <= scale <= 65536,
                        c <= cols,
                        row@.len() == c,
                        forall|j: int|
                            0 <= j < c ==> -scale <= #[trigger] row@[j] && row@[j] < scale,
                    decreases cols - c,
                {
                    row.push(rand_range_i64(rng, -scale, scale));
                    c += 1;
                }
                data.push(row);
                r += 1;
            }
            proof {
                assert forall|r2: int, c2: int|
                    0 <= r2 < rows && 0 <= c2 < cols implies -(SCALE as int) <= data@[r2]@[c2]
                    as int && data@[r2]@[c2] < SCALE && #[trigger] ((data@[r2]@[c2] as int) * (
                data@[r2]@[c2] as int)) <= 4294967296int / (sizes@[n as int] as int) by {
                    let w = data@[r2]@[c2] as int;
                    assert(w * w <= (scale as int) * (scale as int)) by (nonlinear_arith)
                        requires
                            -(scale as int) <= w <= scale as int,
                    ;
                };
            }
            weights.push(Matrix { rows, cols, data });
            biases.push(vec_zeros(rows));
            weight_sizes.push((rows, cols));
            bias_sizes.push(rows);
            n += 1;
        }
        FullyConnectedLayer {
            parameters: Parameters::new(weights, biases),
            weight_sizes,
            bias_sizes,
            learning_rate,
            lambda,
            architecture,
            regularization,
        }
    }

    /// Pure forward evaluation; fails when the input does not have the
    /// configured width.
    pub fn feedforward(&self, input: &Vec<i64>) -> (out: Result<Vec<i64>, ShapeError>)
        requires
            self.wf(),
        ensures
            out.is_err() <==> input@.len() != self.in_size(),
            match out {
                Ok(r) => {
                    &&& r@.len() == self.out_size()
                    &&& vi(r@) == ff_s::<T>(self.parameters, vi(input@), self.parameters.n_layers())
                },
                Err(e) => e == ShapeError::WrongShape,
            },
    {
        if input.len() != self.weight_sizes[0].1 {
            return Err(ShapeError::WrongShape);
        }
        Ok(feedforward_chain(&self.architecture, &self.parameters, vec_copy(input)))
    }

    /// One full backward pass on a labelled example: the bias gradients, the
    /// weight gradients and the gradient with respect to the input. Fails
    /// when the example does not match the configured widths.
    pub fn backpropagation(&self, x: &Vec<i64>, y: &Vec<i64>) -> (out: Result<
        (Vec<Vec<i64>>, Vec<Matrix>, Vec<i64>),
        ShapeError,
    >)
        requires
            self.wf(),
        ensures
            out.is_err() <==> (x@.len() != self.in_size() || y@.len() != self.out_size()),
            match out {
                Ok(r) => {
                    &&& nabla_b_rel::<T>(self.parameters, vi(x@), vi(y@), r.0@)
                    &&& nabla_w_rel::<T>(self.parameters, vi(x@), vi(y@), r.1@)
                    &&& r.2@.len() == self.in_size()
                    &&& vi(r.2@) == crate::matrix::mat_tvec_s(
                        self.parameters.weights@[0],
                        delta_s::<T>(self.parameters, vi(x@), vi(y@), 0),
                    )
                },
                Err(e) => e == ShapeError::WrongShape,
            },
    {
        if x.len() != self.weight_sizes[0].1 {
            return Err(ShapeError::WrongShape);
        }
        let last = self.weight_sizes.len() - 1;
        if y.len() != self.weight_sizes[last].0 {
            return Err(ShapeError::WrongShape);
        }
        Ok(backprop_core(&self.architecture, &self.parameters, x, y))
    }

    /// One parameter update from accumulated mini-batch gradients: each
    /// weight is first decayed by the regularization policy (scaled by the
    /// training-set size), then moved by `learning_rate / mini_batch_size`
    /// times its accumulated gradient; biases are moved without decay.
    pub fn update_parameters(
        &mut self,
        nabla_w: &Vec<Matrix>,
        nabla_b: &Vec<Vec<i64>>,
        mini_batch_size: usize,
        training_len: usize,
    )
        requires
            old(self).wf(),
            1 <= mini_batch_size <= 0x7fffffffffffffff,
            1 <= training_len <= 0x7fffffffffffffff,
            nabla_w@.len() == old(self).parameters.n_layers(),
            nabla_b@.len() == old(self).parameters.n_layers(),
            forall|n: int|
                0 <= n < old(self).parameters.n_layers() ==> (#[trigger] nabla_w@[n]).wf()
                    && nabla_w@[n].rows == old(self).parameters.layer_out(n) && nabla_w@[n].cols
                    == old(self).parameters.layer_in(n),
            forall|n: int|
                0 <= n < old(self).parameters.n_layers() ==> (#[trigger] nabla_b@[n])@.len()
                    == old(self).parameters.layer_out(n),
        ensures
            final(self).wf(),
            final(self).parameters.n_layers() == old(self).parameters.n_layers(),
            final(self).weight_sizes@ == old(self).weight_sizes@,
            final(self).bias_sizes@ == old(self).bias_sizes@,
            final(self).learning_rate == old(self).learning_rate,
            final(self).lambda == old(self).lambda,
            final(self).architecture == old(self).architecture,
            final(self).regularization == old(self).regularization,
            forall|n: int|
                0 <= n < old(self).parameters.n_layers()
                    ==> (#[trigger] final(self).parameters.weights@[n]).rows == old(
                    self,
                ).parameters.layer_out(n) && final(self).parameters.weights@[n].cols == old(
                    self,
                ).parameters.layer_in(n),
            forall|n: int, r: int, c: int|
                0 <= n < old(self).parameters.n_layers() && 0 <= r < old(self).parameters.layer_out(
                    n,
                ) && 0 <= c < old(self).parameters.layer_in(n) ==> #[trigger] final(self).parameters.weights@[n].at(r, c) == fsub_s(
                    R::reg_s(
                        old(self).parameters.weights@[n].at(r, c),
                        old(self).lambda as int,
                        old(self).learning_rate as int,
                        training_len as int,
                    ),
                    fmul_s(
                        fdivn_s(old(self).learning_rate as int, mini_batch_size as int),
                        nabla_w@[n].at(r, c),
                    ),
                ),
            forall|n: int, i: int|
                0 <= n < old(self).parameters.n_layers() && 0 <= i < old(self).parameters.layer_out(
                    n,
                ) ==> #[trigger] final(self).parameters.biases@[n]@[i] as int == fsub_s(
                    old(self).parameters.biases@[n]@[i] as int,
                    fmul_s(
                        fdivn_s(old(self).learning_rate as int, mini_batch_size as int),
                        nabla_b@[n]@[i] as int,
                    ),
                ),
    {
        let rate = fdivn(self.learning_rate, mini_batch_size as i64);
        let n_layers = self.weight_sizes.len();
        let mut new_weights: Vec<Matrix> = Vec::new();
        let mut new_biases: Vec<Vec<i64>> = Vec::new();
        let mut n: usize = 0;
        while n < n_layers
            invariant
                self.wf(),
                self == old(self),
                1 <= mini_batch_size <= 0x7fffffffffffffff,
                1 <= training_len <= 0x7fffffffffffffff,
                rate as int == fdivn_s(self.learning_rate as int, mini_batch_size as int),
                n_layers == self.parameters.n_layers(),
                nabla_w@.len() == n_layers,
                nabla_b@.len() == n_layers,
                forall|m: int|
                    0 <= m < n_layers ==> (#[trigger] nabla_w@[m]).wf() && nabla_w@[m].rows
                        == self.parameters.layer_out(m) && nabla_w@[m].cols
                        == self.parameters.layer_in(m),
                forall|m: int|
                    0 <= m < n_layers ==> (#[trigger] nabla_b@[m])@.len()
                        == self.parameters.layer_out(m),
                n <= n_layers,
                new_weights@.len() == n,
                new_biases@.len() == n,
                forall|m: int|
                    0 <= m < n ==> (#[trigger] new_weights@[m]).wf() && new_weights@[m].rows
                        == self.parameters.layer_out(m) && new_weights@[m].cols
                        == self.parameters.layer_in(m),
                forall|m: int, r: int, c: int|
                    0 <= m < n && 0 <= r < self.parameters.layer_out(m) && 0 <= c
                        < self.parameters.layer_in(m) ==> #[trigger] new_weights@[m].at(r, c)
                        == fsub_s(
                        R::reg_s(
                            self.parameters.weights@[m].at(r, c),
                            self.lambda as int,
                            self.learning_rate as int,
                            training_len as int,
                        ),
                        fmul_s(rate as int, nabla_w@[m].at(r, c)),
                    ),
                forall|m: int|
                    0 <= m < n ==> (#[trigger] new_biases@[m])@.len() == self.parameters.layer_out(
                        m,
                    ),
                forall|m: int, i: int|
                    0 <= m < n && 0 <= i < self.parameters.layer_out(m)
                        ==> #[trigger] new_biases@[m]@[i] as int == fsub_s(
                        self.parameters.biases@[m]@[i] as int,
                        fmul_s(rate as int, nabla_b@[m]@[i] as int),
                    ),
            decreases n_layers - n,
        {
            proof {
                assert(self.parameters.weights@[n as int].wf());
            }
            let decayed = self.regularization.reg_w(
                &self.parameters.weights[n],
                self.lambda,
                self.learning_rate,
                training_len as i64,
            );
            let stepped = mat_step(&decayed, &nabla_w[n], rate);
            new_weights.push(stepped);
            let nb = vec_step(&self.parameters.biases[n], &nabla_b[n], rate);
            new_biases.push(nb);
            n += 1;
        }
        self.parameters = Parameters { weights: new_weights, biases: new_biases };
    }

    /// The (rows, cols) shape of each weight matrix.
    pub fn get_weight_sizes(&self) -> (r: &Vec<(usize, usize)>)
        ensures
            r@ == self.weight_sizes@,
    {
        &self.weight_sizes
    }

    /// The length of each bias vector.
    pub fn get_bias_sizes(&self) -> (r: &Vec<usize>)
        ensures
            r@ == self.bias_sizes@,
    {
        &self.bias_sizes
    }
}

} // verus!
