//! The convolutional feature-extraction layer: one square filter tensor and
//! one bias per output channel; forward passes convolve, add the bias, apply
//! the rectifier and max-pool; training-mode forward passes return an
//! explicit cache (input copy, pre-pool maps, pooling choices) that the
//! paired backward pass consumes.

use vstd::prelude::*;
use vstd::arithmetic::div_mod::lemma_fundamental_div_mod;

use crate::errors::ShapeError;
use crate::fixed::{fadd_s, fdivn, fdivn_s, fmul_s, fsub_s, SCALE};
use crate::kernels::{
    cand_c, cand_r, imax, matrix_convolution, max_pooling, pick_q, pool_backward,
    relu_derivative, relu_ind_s, tconv_cell, tensor_convolution, training_max_pooling, wcell,
};
use crate::math::{matrix_add_scalar, relu_matrix, relu_s};
use crate::matrix::{mat_mul_elem, Matrix};
use crate::rng::rand_range_i64;
use crate::tensor::Tensor;

verus! {

/// The side length of every filter.
pub const FILTER_SIZE: usize = 3;

/// The side length of every pooling window.
pub const POOLING_SIZE: usize = 2;

/// The upper end of the filter initialization range: one over (filter side
/// length times channel count), in fixed point, and at least one quantum.
pub open spec fn filter_init_scale(channels: int) -> int {
    if 65536int / (3 * channels) < 1 {
        1
    } else {
        65536int / (3 * channels)
    }
}

/// The training cache of one training-mode forward pass: the input that fed
/// the layer, the pre-pool post-activation maps, and the pooling choices.
/// It is consumed by exactly the matching backward pass.
#[derive(Debug)]
pub struct TrainingCache {
    pub activation: Tensor,
    pub z: Tensor,
    pub pooling_indizes: Vec<Vec<(usize, usize)>>,
}

/// A convolutional layer: one filter tensor and one bias per output channel.
#[derive(Debug)]
pub struct ConvoultionalLayer {
    pub filters: Vec<Tensor>,
    pub biases: Vec<i64>,
    pub learning_rate: i64,
    pub input_channels: usize,
    pub input_size: usize,
    pub output_size: usize,
}

impl ConvoultionalLayer {
    /// The number of filters (output channels).
    pub open spec fn n_filters(self) -> int {
        self.filters@.len() as int
    }

    /// The spatial size of the convolution result, before pooling.
    pub open spec fn conv_size(self) -> int {
        self.input_size - FILTER_SIZE + 1
    }

    /// Configuration invariant: square even input large enough for the
    /// filter, every filter tensor of matching channel count and size, one
    /// bias per filter, and the output size derived from the input size.
    pub open spec fn wf(self) -> bool {
        &&& self.n_filters() >= 1
        &&& self.input_channels >= 1
        &&& self.input_size >= FILTER_SIZE + 1
        &&& self.conv_size() % 2 == 0
        &&& self.output_size == self.conv_size() / 2
        &&& self.biases@.len() == self.filters@.len()
        &&& forall|f: int|
            0 <= f < self.n_filters() ==> (#[trigger] self.filters@[f]).wf()
                && self.filters@[f].has_shape(
                self.input_channels as int,
                FILTER_SIZE as int,
                FILTER_SIZE as int,
            )
    }

    /// One cell of the pre-pool map of filter `f`: convolution, bias, then
    /// the rectifier.
    pub open spec fn z_cell(self, input: Tensor, f: int, r: int, c: int) -> int {
        relu_s(fadd_s(tconv_cell(input, self.filters@[f], r, c), self.biases@[f] as int))
    }

    /// One cell of the pooled output of filter `f`: the maximum of its 2x2
    /// window of the pre-pool map.
    pub open spec fn pooled_cell(self, input: Tensor, f: int, r: int, c: int) -> int {
        imax(
            imax(
                imax(
                    self.z_cell(input, f, 2 * r, 2 * c),
                    self.z_cell(input, f, 2 * r + 1, 2 * c),
                ),
                self.z_cell(input, f, 2 * r, 2 * c + 1),
            ),
            self.z_cell(input, f, 2 * r + 1, 2 * c + 1),
        )
    }

    /// The cache left by a training-mode forward pass has the layer's shapes
    /// and carries valid pooling choices for its own pre-pool maps.
    pub open spec fn cache_wf(self, cache: TrainingCache) -> bool {
        &&& cache.activation.wf()
        &&& cache.activation.has_shape(
            self.input_channels as int,
            self.input_size as int,
            self.input_size as int,
        )
        &&& cache.z.wf()
        &&& cache.z.has_shape(self.n_filters(), self.conv_size(), self.conv_size())
        &&& cache.pooling_indizes@.len() == self.n_filters()
        &&& forall|f: int|
            0 <= f < self.n_filters() ==> (#[trigger] cache.pooling_indizes@[f])@.len()
                == self.output_size * self.output_size
        &&& forall|f: int, k: int|
            0 <= f < self.n_filters() && 0 <= k < self.output_size * self.output_size
                ==> (#[trigger] cache.pooling_indizes@[f]@[k]).0 as int == cand_r(
                pick_q(
                    cache.z.chan(f),
                    k / (self.output_size as int),
                    k % (self.output_size as int),
                ),
                k / (self.output_size as int),
            ) && cache.pooling_indizes@[f]@[k].1 as int == cand_c(
                pick_q(
                    cache.z.chan(f),
                    k / (self.output_size as int),
                    k % (self.output_size as int),
                ),
                k % (self.output_size as int),
            )
    }

    /// A new layer: `number_of_filters` filter tensors of
    /// `number_of_input_channels` channels, entries drawn uniformly from
    /// `[0, 1/(filter size * channels))` in fixed point, biases zero. The
    /// input must be square, even-sized and large enough for the filter.
    pub fn new(
        number_of_filters: usize,
        number_of_input_channels: usize,
        input_size: usize,
        learning_rate: i64,
        rng: &mut rand::rngs::StdRng,
    ) -> (layer: Self)
        requires
            1 <= number_of_filters,
            1 <= number_of_input_channels <= 65536,
            FILTER_SIZE + 1 <= input_size,
            (input_size - FILTER_SIZE + 1) % 2 == 0,
        ensures
            layer.wf(),
            layer.n_filters() == number_of_filters,
            layer.input_channels == number_of_input_channels,
            layer.input_size == input_size,
            layer.learning_rate == learning_rate,
            layer.output_size == (input_size - FILTER_SIZE + 1) / 2,
            forall|f: int| 0 <= f < number_of_filters ==> #[trigger] layer.biases@[f] == 0i64,
            forall|f: int, ch: int, r: int, c: int|
                0 <= f < number_of_filters && 0 <= ch < number_of_input_channels && 0 <= r
                    < FILTER_SIZE && 0 <= c < FILTER_SIZE ==> 0 <= #[trigger] layer.filters@[f].chan(
                    ch,
                ).at(r, c) && layer.filters@[f].chan(ch).at(r, c) < filter_init_scale(
                    number_of_input_channels as int,
                ),
    {
        proof {
            assert(3i64 * (number_of_input_channels as i64) >= 3 && 3i64 * (
            number_of_input_channels as i64) <= 196608) by (nonlinear_arith)
                requires
                    1 <= number_of_input_channels as i64 <= 65536,
            ;
        }
        let divisor: i64 = FILTER_SIZE as i64 * number_of_input_channels as i64;
        proof {
            assert(0 <= (SCALE as int) / (divisor as int) <= SCALE as int) by (nonlinear_arith)
                requires
                    divisor as int >= 1,
                    SCALE as int == 65536,
            ;
        }
        let scale0: u64 = 65536u64 / (divisor as u64);
        let scale: i64 = if scale0 < 1 {
            1
        } else {
            scale0 as i64
        };
        proof {
            assert(scale as int == filter_init_scale(number_of_input_channels as int));
        }
        let mut filters: Vec<Tensor> = Vec::new();
        let mut biases: Vec<i64> = Vec::new();
        let mut f: usize = 0;
        while f < number_of_filters
            invariant
                1 <= number_of_input_channels <= 65536,
                1 <= scale <= SCALE,
                scale as int == filter_init_scale(number_of_input_channels as int),
                f <= number_of_filters,
                filters@.len() == f,
                biases@.len() == f,
                forall|i: int|
                    0 <= i < f ==> (#[trigger] filters@[i]).wf() && filters@[i].has_shape(
                        number_of_input_channels as int,
                        FILTER_SIZE as int,
                        FILTER_SIZE as int,
                    ),
                forall|i: int, ch: int, r: int, c: int|
                    0 <= i < f && 0 <= ch < number_of_input_channels && 0 <= r < FILTER_SIZE && 0
                        <= c < FILTER_SIZE ==> 0 <= #[trigger] filters@[i].chan(ch).at(r, c)
                        && filters@[i].chan(ch).at(r, c) < filter_init_scale(
                        number_of_input_channels as int,
                    ),
                forall|i: int| 0 <= i < f ==> #[trigger] biases@[i] == 0i64,
            decreases number_of_filters - f,
        {
            let mut chans: Vec<Matrix> = Vec::new();
            let mut ch: usize = 0;
            while ch < number_of_input_channels
                invariant
                    1 <= scale <= SCALE,
                    ch <= number_of_input_channels,
                    chans@.len() == ch,
                    forall|i: int|
                        0 <= i < ch ==> (#[trigger] chans@[i]).wf() && chans@[i].rows == FILTER_SIZE
                            && chans@[i].cols == FILTER_SIZE,
                    forall|i: int, r: int, c: int|
                        0 <= i < ch && 0 <= r < FILTER_SIZE && 0 <= c < FILTER_SIZE
                            ==> 0 <= #[trigger] chans@[i].at(r, c) && chans@[i].at(r, c)
                            < scale as int,
                decreases number_of_input_channels - ch,
            {
                let mut rows: Vec<Vec<i64>> = Vec::new();
                let mut r: usize = 0;
                while r < FILTER_SIZE
                    invariant
                        1 <= scale <= SCALE,
                        r <= FILTER_SIZE,
                        rows@.len() == r,
                        forall|i: int| 0 <= i < r ==> (#[trigger] rows@[i])@.len() == FILTER_SIZE,
                        forall|i: int, j: int|
                            0 <= i < r && 0 <= j < FILTER_SIZE ==> 0 <= #[trigger] rows@[i]@[j]
                                && rows@[i]@[j] < scale,
                    decreases FILTER_SIZE - r,
                {
                    let mut row: Vec<i64> = Vec::new();
                    let mut c: usize = 0;
                    while c < FILTER_SIZE
                        invariant
                            1 <= scale <= SCALE,
                            c <= FILTER_SIZE,
                            row@.len() == c,
                            forall|j: int|
                                0 <= j < c ==> 0 <= #[trigger] row@[j] && row@[j] < scale,
                        decreases FILTER_SIZE - c,
                    {
                        row.push(rand_range_i64(rng, 0, scale));
                        c += 1;
                    }
                    rows.push(row);
                    r += 1;
                }
                chans.push(Matrix { rows: FILTER_SIZE, cols: FILTER_SIZE, data: rows });
                ch += 1;
            }
            filters.push(Tensor { data: chans });
            biases.push(0);
            f += 1;
        }
        ConvoultionalLayer {
            filters,
            biases,
            learning_rate,
            input_channels: number_of_input_channels,
            input_size,
            output_size: (input_size - FILTER_SIZE + 1) / 2,
        }
    }

    /// Inference-mode forward pass: convolve each filter against the input,
    /// add its bias, rectify and max-pool; no caching. Fails when the input
    /// does not have the configured shape.
    pub fn feedforward(&self, input: &Tensor) -> (out: Result<Tensor, ShapeError>)
        requires
            self.wf(),
            input.wf(),
        ensures
            out.is_err() <==> !input.has_shape(
                self.input_channels as int,
                self.input_size as int,
                self.input_size as int,
            ),
            match out {
                Ok(t) => {
                    &&& t.wf()
                    &&& t.has_shape(
                        self.n_filters(),
                        self.output_size as int,
                        self.output_size as int,
                    )
                    &&& forall|f: int, r: int, c: int|
                        0 <= f < self.n_filters() && 0 <= r < self.output_size && 0 <= c
                            < self.output_size ==> #[trigger] t.chan(f).at(r, c)
                            == self.pooled_cell(*input, f, r, c)
                },
                Err(e) => e == ShapeError::WrongShape,
            },
    {
        if !(input.data.len() == self.input_channels) {
            return Err(ShapeError::WrongShape);
        }
        let m0 = &input.data[0];
        if !(m0.rows == self.input_size && m0.cols == self.input_size) {
            return Err(ShapeError::WrongShape);
        }
        let mut maps: Vec<Matrix> = Vec::new();
        let mut f: usize = 0;
        while f < self.filters.len()
            invariant
                self.wf(),
                input.wf(),
                input.has_shape(
                    self.input_channels as int,
                    self.input_size as int,
                    self.input_size as int,
                ),
                f <= self.n_filters(),
                maps@.len() == f,
                forall|i: int|
                    0 <= i < f ==> (#[trigger] maps@[i]).wf() && maps@[i].rows == self.output_size
                        && maps@[i].cols == self.output_size,
                forall|i: int, r: int, c: int|
                    0 <= i < f && 0 <= r < self.output_size && 0 <= c < self.output_size
                        ==> #[trigger] maps@[i].at(r, c) == self.pooled_cell(*input, i, r, c),
            decreases self.filters@.len() - f,
        {
            let z = self.pre_pool_map(input, f);
            proof {
                lemma_fundamental_div_mod(self.conv_size(), 2);
                assert(self.conv_size() == 2 * self.output_size);
            }
            let pooled = match max_pooling(&z) {
                Ok(p) => p,
                Err(e) => {
                    proof {
                        assert(false);
                    }
                    return Err(e);
                },
            };
            proof {
                assert forall|r: int, c: int|
                    0 <= r < self.output_size && 0 <= c < self.output_size implies pooled.at(r, c)
                    == self.pooled_cell(*input, f as int, r, c) by {
                    assert(pooled.at(r, c) == crate::kernels::window_max(z, r, c));
                };
            }
            maps.push(pooled);
            f += 1;
        }
        Ok(Tensor { data: maps })
    }

    /// The pre-pool post-activation map of one filter.
    fn pre_pool_map(&self, input: &Tensor, f: usize) -> (z: Matrix)
        requires
            self.wf(),
            input.wf(),
            input.has_shape(
                self.input_channels as int,
                self.input_size as int,
                self.input_size as int,
            ),
            f < self.n_filters(),
        ensures
            z.wf(),
            z.rows == self.conv_size(),
            z.cols == self.conv_size(),
            forall|r: int, c: int|
                0 <= r < self.conv_size() && 0 <= c < self.conv_size() ==> #[trigger] z.at(r, c)
                    == self.z_cell(*input, f as int, r, c),
    {
        proof {
            assert(self.filters@[f as int].wf());
        }
        let conv = match tensor_convolution(input, &self.filters[f]) {
            Ok(m) => m,
            Err(e) => {
                proof {
                    assert(false);
                }
                return Matrix::zeros(0, 0);
            },
        };
        let with_bias = matrix_add_scalar(&conv, self.biases[f]);
        relu_matrix(&with_bias)
    }

    /// Training-mode forward pass: the same computation, additionally
    /// returning the cache (a copy of the input, the pre-pool maps, and the
    /// pooling choices in output-cell row-major order per filter) that the
    /// paired backward pass consumes.
    pub fn training_feedforward(&self, input: &Tensor) -> (out: Result<
        (Tensor, TrainingCache),
        ShapeError,
    >)
        requires
            self.wf(),
            input.wf(),
        ensures
            out.is_err() <==> !input.has_shape(
                self.input_channels as int,
                self.input_size as int,
                self.input_size as int,
            ),
            match out {
                Ok(p) => {
                    &&& p.0.wf()
                    &&& p.0.has_shape(
                        self.n_filters(),
                        self.output_size as int,
                        self.output_size as int,
                    )
                    &&& forall|f: int, r: int, c: int|
                        0 <= f < self.n_filters() && 0 <= r < self.output_size && 0 <= c
                            < self.output_size ==> #[trigger] p.0.chan(f).at(r, c)
                            == self.pooled_cell(*input, f, r, c)
                    &&& self.cache_wf(p.1)
                    &&& forall|ch: int, r: int, c: int|
                        0 <= ch < self.input_channels && 0 <= r < self.input_size && 0 <= c
                            < self.input_size ==> #[trigger] p.1.activation.chan(ch).at(r, c)
                            == input.chan(ch).at(r, c)
                    &&& forall|f: int, r: int, c: int|
                        0 <= f < self.n_filters() && 0 <= r < self.conv_size() && 0 <= c
                            < self.conv_size() ==> #[trigger] p.1.z.chan(f).at(r, c)
                            == self.z_cell(*input, f, r, c)
                },
                Err(e) => e == ShapeError::WrongShape,
            },
    {
        if !(input.data.len() == self.input_channels) {
            return Err(ShapeError::WrongShape);
        }
        let m0 = &input.data[0];
        if !(m0.rows == self.input_size && m0.cols == self.input_size) {
            return Err(ShapeError::WrongShape);
        }
        let mut maps: Vec<Matrix> = Vec::new();
        let mut zs: Vec<Matrix> = Vec::new();
        let mut idxs: Vec<Vec<(usize, usize)>> = Vec::new();
        let mut f: usize = 0;
        while f < self.filters.len()
            invariant
                self.wf(),
                input.wf(),
                input.has_shape(
                    self.input_channels as int,
                    self.input_size as int,
                    self.input_size as int,
                ),
                f <= self.n_filters(),
                maps@.len() == f,
                zs@.len() == f,
                idxs@.len() == f,
                forall|i: int|
                    0 <= i < f ==> (#[trigger] maps@[i]).wf() && maps@[i].rows == self.output_size
                        && maps@[i].cols == self.output_size,
                forall|i: int, r: int, c: int|
                    0 <= i < f && 0 <= r < self.output_size && 0 <= c < self.output_size
                        ==> #[trigger] maps@[i].at(r, c) == self.pooled_cell(*input, i, r, c),
                forall|i: int|
                    0 <= i < f ==> (#[trigger] zs@[i]).wf() && zs@[i].rows == self.conv_size()
                        && zs@[i].cols == self.conv_size(),
                forall|i: int, r: int, c: int|
                    0 <= i < f && 0 <= r < self.conv_size() && 0 <= c < self.conv_size()
                        ==> #[trigger] zs@[i].at(r, c) == self.z_cell(*input, i, r, c),
                forall|i: int|
                    0 <= i < f ==> (#[trigger] idxs@[i])@.len() == self.output_size
                        * self.output_size,
                forall|i: int, k: int|
                    0 <= i < f && 0 <= k < self.output_size * self.output_size
                        ==> (#[trigger] idxs@[i]@[k]).0 as int == cand_r(
                        pick_q(zs@[i], k / (self.output_size as int), k % (self.output_size as int)),
                        k / (self.output_size as int),
                    ) && idxs@[i]@[k].1 as int == cand_c(
                        pick_q(zs@[i], k / (self.output_size as int), k % (self.output_size as int)),
                        k % (self.output_size as int),
                    ),
            decreases self.filters@.len() - f,
        {
            let z = self.pre_pool_map(input, f);
            proof {
                lemma_fundamental_div_mod(self.conv_size(), 2);
                assert(self.conv_size() == 2 * self.output_size);
            }
            let (pooled, idx) = match training_max_pooling(&z) {
                Ok(p) => p,
                Err(e) => {
                    proof {
                        assert(false);
                    }
                    return Err(e);
                },
            };
            proof {
                assert forall|r: int, c: int|
                    0 <= r < self.output_size && 0 <= c < self.output_size implies pooled.at(r, c)
                    == self.pooled_cell(*input, f as int, r, c) by {
                    assert(pooled.at(r, c) == crate::kernels::window_max(z, r, c));
                };
            }
            maps.push(pooled);
            zs.push(z);
            idxs.push(idx);
            f += 1;
        }
        let cache = TrainingCache {
            activation: input.copy(),
            z: Tensor { data: zs },
            pooling_indizes: idxs,
        };
        Ok((Tensor { data: maps }, cache))
    }

    /// The pooled gradient routed back to full resolution: position
    /// (`i`, `j`) of filter `f`'s pre-pool map receives the output gradient
    /// of its window exactly when it was the recorded pooling choice.
    pub open spec fn scat_cell(
        self,
        cache: TrainingCache,
        back_input: Tensor,
        f: int,
        i: int,
        j: int,
    ) -> int {
        if pick_q(cache.z.chan(f), i / 2, j / 2) == (i % 2) + 2 * (j % 2) {
            back_input.chan(f).at(i / 2, j / 2)
        } else {
            0
        }
    }

    /// The full-resolution error of filter `f`: the routed gradient gated by
    /// the rectifier derivative of the cached pre-pool map.
    pub open spec fn d_cell(
        self,
        cache: TrainingCache,
        back_input: Tensor,
        f: int,
        i: int,
        j: int,
    ) -> int {
        fmul_s(
            self.scat_cell(cache, back_input, f, i, j),
            relu_ind_s(cache.z.chan(f).at(i, j)),
        )
    }

    /// The error of filter `f` as a filter-cell function, for stating the
    /// filter gradients as convolutions.
    pub open spec fn d_fun(
        self,
        cache: TrainingCache,
        back_input: Tensor,
        f: int,
    ) -> spec_fn(int, int) -> int {
        |i: int, j: int| self.d_cell(cache, back_input, f, i, j)
    }

    /// Partial row sum of the error map of filter `f` (row `i`, first `n`
    /// columns).
    pub open spec fn d_row_sum(
        self,
        cache: TrainingCache,
        back_input: Tensor,
        f: int,
        i: int,
        n: int,
    ) -> int
        decreases n,
    {
        if n <= 0 {
            0
        } else {
            fadd_s(
                self.d_row_sum(cache, back_input, f, i, n - 1),
                self.d_cell(cache, back_input, f, i, n - 1),
            )
        }
    }

    /// The bias gradient of filter `f`: the saturating sum of its error map
    /// over all positions, row by row.
    pub open spec fn d_sum(
        self,
        cache: TrainingCache,
        back_input: Tensor,
        f: int,
        n: int,
    ) -> int
        decreases n,
    {
        if n <= 0 {
            0
        } else {
            fadd_s(
                self.d_sum(cache, back_input, f, n - 1),
                self.d_row_sum(cache, back_input, f, n - 1, self.conv_size()),
            )
        }
    }

    /// The backward pass matching one training-mode forward pass: routes the
    /// output gradient back through the recorded pooling choices, gates it by
    /// the rectifier derivative, sums it for the bias gradients, and
    /// convolves it against each cached input channel for the filter
    /// gradients. Fails when the output gradient does not have the layer's
    /// output shape.
    pub fn backpropagation(&self, cache: &TrainingCache, back_input: &Tensor) -> (out: Result<
        (Vec<i64>, Vec<Tensor>),
        ShapeError,
    >)
        requires
            self.wf(),
            self.cache_wf(*cache),
            back_input.wf(),
        ensures
            out.is_err() <==> !back_input.has_shape(
                self.n_filters(),
                self.output_size as int,
                self.output_size as int,
            ),
            match out {
                Ok(p) => {
                    &&& p.0@.len() == self.n_filters()
                    &&& forall|f: int|
                        0 <= f < self.n_filters() ==> #[trigger] p.0@[f] as int == self.d_sum(
                            *cache,
                            *back_input,
                            f,
                            self.conv_size(),
                        )
                    &&& p.1@.len() == self.n_filters()
                    &&& forall|f: int|
                        0 <= f < self.n_filters() ==> (#[trigger] p.1@[f]).wf()
                            && p.1@[f].has_shape(
                            self.input_channels as int,
                            FILTER_SIZE as int,
                            FILTER_SIZE as int,
                        )
                    &&& forall|f: int, ch: int, r: int, c: int|
                        0 <= f < self.n_filters() && 0 <= ch < self.input_channels && 0 <= r
                            < FILTER_SIZE && 0 <= c < FILTER_SIZE ==> #[trigger] p.1@[f].chan(
                            ch,
                        ).at(r, c) == crate::kernels::conv_fun_cell(
                            cache.activation.chan(ch),
                            self.d_fun(*cache, *back_input, f),
                            r,
                            c,
                            self.conv_size(),
                            self.conv_size(),
                        )
                },
                Err(e) => e == ShapeError::WrongShape,
            },
    {
        if !(back_input.data.len() == self.filters.len()) {
            return Err(ShapeError::WrongShape);
        }
        let g0 = &back_input.data[0];
        if !(g0.rows == self.output_size && g0.cols == self.output_size) {
            return Err(ShapeError::WrongShape);
        }
        proof {
            lemma_fundamental_div_mod(self.conv_size(), 2);
            assert(self.conv_size() == 2 * self.output_size);
        }
        let deriv = relu_derivative(&cache.z);
        let mut nabla_b: Vec<i64> = Vec::new();
        let mut nabla_w: Vec<Tensor> = Vec::new();
        let conv_size = self.input_size - FILTER_SIZE + 1;
        let mut f: usize = 0;
        while f < self.filters.len()
            invariant
                self.wf(),
                self.cache_wf(*cache),
                back_input.wf(),
                back_input.has_shape(
                    self.n_filters(),
                    self.output_size as int,
                    self.output_size as int,
                ),
                conv_size == self.conv_size(),
                conv_size == 2 * self.output_size,
                deriv.wf(),
                deriv.channels() == self.n_filters(),
                deriv.t_rows() == conv_size,
                deriv.t_cols() == conv_size,
                forall|i: int, r: int, c: int|
                    0 <= i < self.n_filters() && 0 <= r < conv_size && 0 <= c < conv_size
                        ==> #[trigger] deriv.chan(i).at(r, c) == relu_ind_s(
                        cache.z.chan(i).at(r, c),
                    ),
                f <= self.n_filters(),
                nabla_b@.len() == f,
                nabla_w@.len() == f,
                forall|i: int|
                    0 <= i < f ==> #[trigger] nabla_b@[i] as int == self.d_sum(
                        *cache,
                        *back_input,
                        i,
                        self.conv_size(),
                    ),
                forall|i: int|
                    0 <= i < f ==> (#[trigger] nabla_w@[i]).wf() && nabla_w@[i].has_shape(
                        self.input_channels as int,
                        FILTER_SIZE as int,
                        FILTER_SIZE as int,
                    ),
                forall|i: int, ch: int, r: int, c: int|
                    0 <= i < f && 0 <= ch < self.input_channels && 0 <= r < FILTER_SIZE && 0 <= c
                        < FILTER_SIZE ==> #[trigger] nabla_w@[i].chan(ch).at(r, c)
                        == crate::kernels::conv_fun_cell(
                        cache.activation.chan(ch),
                        self.d_fun(*cache, *back_input, i),
                        r,
                        c,
                        self.conv_size(),
                        self.conv_size(),
                    ),
            decreases self.filters@.len() - f,
        {
            proof {
                assert(cache.z.chan(f as int).wf());
                assert(back_input.chan(f as int).wf());
            }
            // route the pooled gradient back to the recorded positions
            let scat = pool_backward(
                &cache.pooling_indizes[f],
                &back_input.data[f],
                &cache.z.data[f],
            );
            proof {
                assert forall|i: int, j: int|
                    0 <= i < conv_size && 0 <= j < conv_size implies scat.at(i, j)
                    == self.scat_cell(*cache, *back_input, f as int, i, j) by {
                    crate::kernels::lemma_pos_window(
                        i,
                        j,
                        self.output_size as int,
                        self.output_size as int,
                    );
                    let k = (i / 2) * (self.output_size as int) + (j / 2);
                    let q = (i % 2) + 2 * (j % 2);
                    assert(wcell(scat, k, self.output_size as int, q) == (if q == pick_q(
                        cache.z.chan(f as int),
                        k / (self.output_size as int),
                        k % (self.output_size as int),
                    ) {
                        back_input.chan(f as int).at(
                            k / (self.output_size as int),
                            k % (self.output_size as int),
                        )
                    } else {
                        0
                    }));
                };
            }
            // gate by the rectifier derivative of the cached pre-pool map
            proof {
                assert(deriv.chan(f as int).wf());
            }
            let d = mat_mul_elem(&scat, &deriv.data[f]);
            proof {
                assert forall|i: int, j: int|
                    0 <= i < conv_size && 0 <= j < conv_size implies d.at(i, j) == self.d_cell(
                    *cache,
                    *back_input,
                    f as int,
                    i,
                    j,
                ) by {
                    assert(deriv.chan(f as int).at(i, j) == relu_ind_s(
                        cache.z.chan(f as int).at(i, j),
                    ));
                };
            }
            // bias gradient: sum of the error map, row by row
            let mut bacc: i64 = 0;
            let mut i: usize = 0;
            while i < conv_size
                invariant
                    self.wf(),
                    conv_size == self.conv_size(),
                    f < self.n_filters(),
                    d.wf(),
                    d.rows == conv_size,
                    d.cols == conv_size,
                    forall|r: int, c: int|
                        0 <= r < conv_size && 0 <= c < conv_size ==> #[trigger] d.at(r, c)
                            == self.d_cell(*cache, *back_input, f as int, r, c),
                    i <= conv_size,
                    bacc as int == self.d_sum(*cache, *back_input, f as int, i as int),
                decreases conv_size - i,
            {
                let mut racc: i64 = 0;
                let mut j: usize = 0;
                while j < conv_size
                    invariant
                        self.wf(),
                        conv_size == self.conv_size(),
                        f < self.n_filters(),
                        d.wf(),
                        d.rows == conv_size,
                        d.cols == conv_size,
                        forall|r: int, c: int|
                            0 <= r < conv_size && 0 <= c < conv_size ==> #[trigger] d.at(r, c)
                                == self.d_cell(*cache, *back_input, f as int, r, c),
                        i < conv_size,
                        j <= conv_size,
                        racc as int == self.d_row_sum(
                            *cache,
                            *back_input,
                            f as int,
                            i as int,
                            j as int,
                        ),
                    decreases conv_size - j,
                {
                    proof {
                        assert(d.at(i as int, j as int) == self.d_cell(
                            *cache,
                            *back_input,
                            f as int,
                            i as int,
                            j as int,
                        ));
                    }
                    racc = crate::fixed::fadd(racc, d.data[i][j]);
                    j += 1;
                }
                bacc = crate::fixed::fadd(bacc, racc);
                i += 1;
            }
            nabla_b.push(bacc);
            // filter gradients: convolve the error map against each cached
            // input channel
            let mut grads: Vec<Matrix> = Vec::new();
            let mut ch: usize = 0;
            while ch < cache.activation.data.len()
                invariant
                    self.wf(),
                    self.cache_wf(*cache),
                    conv_size == self.conv_size(),
                    f < self.n_filters(),
                    d.wf(),
                    d.rows == conv_size,
                    d.cols == conv_size,
                    forall|r: int, c: int|
                        0 <= r < conv_size && 0 <= c < conv_size ==> #[trigger] d.at(r, c)
                            == self.d_cell(*cache, *back_input, f as int, r, c),
                    ch <= self.input_channels,
                    grads@.len() == ch,
                    forall|i2: int|
                        0 <= i2 < ch ==> (#[trigger] grads@[i2]).wf() && grads@[i2].rows
                            == FILTER_SIZE && grads@[i2].cols == FILTER_SIZE,
                    forall|i2: int, r: int, c: int|
                        0 <= i2 < ch && 0 <= r < FILTER_SIZE && 0 <= c < FILTER_SIZE
                            ==> #[trigger] grads@[i2].at(r, c) == crate::kernels::conv_fun_cell(
                            cache.activation.chan(i2),
                            self.d_fun(*cache, *back_input, f as int),
                            r,
                            c,
                            self.conv_size(),
                            self.conv_size(),
                        ),
                decreases cache.activation.data@.len() - ch,
            {
                proof {
                    assert(cache.activation.chan(ch as int).wf());
                }
                let g = matrix_convolution(&cache.activation.data[ch], &d);
                proof {
                    assert forall|r: int, c: int|
                        0 <= r < FILTER_SIZE && 0 <= c < FILTER_SIZE implies g.at(r, c)
                        == crate::kernels::conv_fun_cell(
                        cache.activation.chan(ch as int),
                        self.d_fun(*cache, *back_input, f as int),
                        r,
                        c,
                        self.conv_size(),
                        self.conv_size(),
                    ) by {
                        crate::kernels::lemma_conv_fun(
                            cache.activation.chan(ch as int),
                            d,
                            self.d_fun(*cache, *back_input, f as int),
                            r,
                            c,
                        );
                    };
                }
                grads.push(g);
                ch += 1;
            }
            nabla_w.push(Tensor { data: grads });
            f += 1;
        }
        Ok((nabla_b, nabla_w))
    }

    /// One parameter update from accumulated mini-batch gradients: filters
    /// and biases move by `learning_rate / mini_batch_size` times their
    /// accumulated gradients.
    pub fn update_parameters(
        &mut self,
        nabla_w: &Vec<Tensor>,
        nabla_b: &Vec<i64>,
        mini_batch_size: usize,
    )
        requires
            old(self).wf(),
            1 <= mini_batch_size <= 0x7fffffffffffffff,
            nabla_w@.len() == old(self).n_filters(),
            nabla_b@.len() == old(self).n_filters(),
            forall|f: int|
                0 <= f < old(self).n_filters() ==> (#[trigger] nabla_w@[f]).wf()
                    && nabla_w@[f].has_shape(
                    old(self).input_channels as int,
                    FILTER_SIZE as int,
                    FILTER_SIZE as int,
                ),
        ensures
            final(self).wf(),
            final(self).n_filters() == old(self).n_filters(),
            final(self).input_channels == old(self).input_channels,
            final(self).input_size == old(self).input_size,
            final(self).output_size == old(self).output_size,
            final(self).learning_rate == old(self).learning_rate,
            forall|f: int, ch: int, r: int, c: int|
                0 <= f < old(self).n_filters() && 0 <= ch < old(self).input_channels && 0 <= r
                    < FILTER_SIZE && 0 <= c < FILTER_SIZE ==> #[trigger] final(self).filters@[f].chan(ch).at(r, c) == fsub_s(
                    old(self).filters@[f].chan(ch).at(r, c),
                    fmul_s(
                        fdivn_s(old(self).learning_rate as int, mini_batch_size as int),
                        nabla_w@[f].chan(ch).at(r, c),
                    ),
                ),
            forall|f: int|
                0 <= f < old(self).n_filters() ==> #[trigger] final(self).biases@[f] as int
                    == fsub_s(
                    old(self).biases@[f] as int,
                    fmul_s(
                        fdivn_s(old(self).learning_rate as int, mini_batch_size as int),
                        nabla_b@[f] as int,
                    ),
                ),
    {
        let rate = fdivn(self.learning_rate, mini_batch_size as i64);
        let mut new_filters: Vec<Tensor> = Vec::new();
        let mut new_biases: Vec<i64> = Vec::new();
        let mut f: usize = 0;
        while f < self.filters.len()
            invariant
                self.wf(),
                self == old(self),
                rate as int == fdivn_s(self.learning_rate as int, mini_batch_size as int),
                nabla_w@.len() == self.n_filters(),
                nabla_b@.len() == self.n_filters(),
                forall|i: int|
                    0 <= i < self.n_filters() ==> (#[trigger] nabla_w@[i]).wf()
                        && nabla_w@[i].has_shape(
                        self.input_channels as int,
                        FILTER_SIZE as int,
                        FILTER_SIZE as int,
                    ),
                f <= self.n_filters(),
                new_filters@.len() == f,
                new_biases@.len() == f,
                forall|i: int|
                    0 <= i < f ==> (#[trigger] new_filters@[i]).wf() && new_filters@[i].has_shape(
                        self.input_channels as int,
                        FILTER_SIZE as int,
                        FILTER_SIZE as int,
                    ),
                forall|i: int, ch: int, r: int, c: int|
                    0 <= i < f && 0 <= ch < self.input_channels && 0 <= r < FILTER_SIZE && 0 <= c
                        < FILTER_SIZE ==> #[trigger] new_filters@[i].chan(ch).at(r, c) == fsub_s(
                        self.filters@[i].chan(ch).at(r, c),
                        fmul_s(rate as int, nabla_w@[i].chan(ch).at(r, c)),
                    ),
                forall|i: int|
                    0 <= i < f ==> #[trigger] new_biases@[i] as int == fsub_s(
                        self.biases@[i] as int,
                        fmul_s(rate as int, nabla_b@[i] as int),
                    ),
            decreases self.filters@.len() - f,
        {
            proof {
                assert(self.filters@[f as int].wf());
                assert(nabla_w@[f as int].wf());
            }
            let mut t = self.filters[f].copy();
            t.learning(rate, &nabla_w[f]);
            new_filters.push(t);
            new_biases.push(crate::fixed::fsub(
                self.biases[f],
                crate::fixed::fmul(rate, nabla_b[f]),
            ));
            f += 1;
        }
        self.filters = new_filters;
        self.biases = new_biases;
    }
}

} // verus!
