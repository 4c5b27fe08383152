//! The convolutional network: a convolutional feature-extraction layer, a
//! flatten adapter and a fully-connected stage (rectifier hidden layers,
//! softmax output, L2 decay), composed end to end with the mini-batch SGD
//! loop and argmax evaluation.

use vstd::prelude::*;
use vstd::arithmetic::div_mod::lemma_fundamental_div_mod;

use crate::convolutional_layer::{ConvoultionalLayer, FILTER_SIZE};
use crate::errors::ShapeError;
use crate::fixed::{fadd_s, fdivn_s, fmul_s, fsub_s};
use crate::flatten_layer::{lemma_flat_decompose, FlattenLayer};
use crate::fully_connected_layer::FullyConnectedLayer;
use crate::math::argmax_s;
use crate::matrix::{mat_add, vec_add, vec_zeros, vi, Matrix};
use crate::math::argmax;
use crate::network_architecture::{
    backprop_core, delta_s, feedforward_chain, ff_s, lemma_delta_len, lemma_ff_len, Parameters,
};
use crate::regularization::{Regularization, L2};
use crate::relu_network::ReLuNetwork;
use crate::rng::{seeded_rng, shuffle_vec};
use crate::tensor::Tensor;

verus! {

/// The number of convolutional filters of the fixed configuration.
pub const NUMBER_OF_FILTERS: usize = 64;

/// The spatial side length of the input pictures.
pub const PICTURE_SIZE: usize = 32;

/// The number of colour channels of the input pictures.
pub const PICTURE_CHANNELS: usize = 3;

/// The feature vector that the fully-connected stage receives for input `x`:
/// the pooled convolutional feature maps, flattened channel-major, then
/// column-major, then row.
pub open spec fn cnn_flat(cl: ConvoultionalLayer, fl: FlattenLayer, x: Tensor) -> Seq<int> {
    Seq::new(
        ((fl.w as int) * (fl.h as int) * (fl.d as int)) as nat,
        |k: int|
            cl.pooled_cell(
                x,
                k / ((fl.h as int) * (fl.w as int)),
                k % ((fl.h as int) * (fl.w as int)) % (fl.h as int),
                (k % ((fl.h as int) * (fl.w as int))) / (fl.h as int),
            ),
    )
}

/// The accumulated fully-connected bias gradient over the first `k` examples
/// of a batch of (picture, one-hot target) pairs.
pub open spec fn cnn_acc_nb(
    cl: ConvoultionalLayer,
    fl: FlattenLayer,
    p: Parameters,
    exs: Seq<(Tensor, Vec<i64>)>,
    k: int,
    n: int,
    i: int,
) -> int
    decreases k,
{
    if k <= 0 {
        0
    } else {
        fadd_s(
            cnn_acc_nb(cl, fl, p, exs, k - 1, n, i),
            delta_s::<ReLuNetwork>(p, cnn_flat(cl, fl, exs[k - 1].0), vi(exs[k - 1].1@), n)[i],
        )
    }
}

/// The accumulated fully-connected weight gradient over the first `k`
/// examples of a batch.
pub open spec fn cnn_acc_nw(
    cl: ConvoultionalLayer,
    fl: FlattenLayer,
    p: Parameters,
    exs: Seq<(Tensor, Vec<i64>)>,
    k: int,
    n: int,
    r: int,
    c: int,
) -> int
    decreases k,
{
    if k <= 0 {
        0
    } else {
        fadd_s(
            cnn_acc_nw(cl, fl, p, exs, k - 1, n, r, c),
            fmul_s(
                delta_s::<ReLuNetwork>(p, cnn_flat(cl, fl, exs[k - 1].0), vi(exs[k - 1].1@), n)[r],
                ff_s::<ReLuNetwork>(p, cnn_flat(cl, fl, exs[k - 1].0), n)[c],
            ),
        )
    }
}

/// The pooling pick of the window at output cell (`r`, `c`) over an
/// abstract pre-pool map: the first candidate, in scan order, attaining the
/// window maximum.
pub open spec fn pick_q_fun(g: spec_fn(int, int) -> int, r: int, c: int) -> int {
    if g(2 * r, 2 * c) >= g(2 * r + 1, 2 * c) && g(2 * r, 2 * c) >= g(2 * r, 2 * c + 1) && g(
        2 * r,
        2 * c,
    ) >= g(2 * r + 1, 2 * c + 1) {
        0
    } else if g(2 * r + 1, 2 * c) > g(2 * r, 2 * c) && g(2 * r + 1, 2 * c) >= g(
        2 * r,
        2 * c + 1,
    ) && g(2 * r + 1, 2 * c) >= g(2 * r + 1, 2 * c + 1) {
        1
    } else if g(2 * r, 2 * c + 1) > g(2 * r, 2 * c) && g(2 * r, 2 * c + 1) > g(2 * r + 1, 2 * c)
        && g(2 * r, 2 * c + 1) >= g(2 * r + 1, 2 * c + 1) {
        2
    } else {
        3
    }
}

/// The pre-pool map of filter `f` on input `x`, as a cell function.
pub open spec fn z_fun(cl: ConvoultionalLayer, x: Tensor, f: int) -> spec_fn(int, int) -> int {
    |i: int, j: int| cl.z_cell(x, f, i, j)
}

/// The gradient handed back to the convolutional stage for one example:
/// the fully-connected input gradient, unflattened to channel `f`, position
/// (`r`, `c`).
pub open spec fn back_cell(
    cl: ConvoultionalLayer,
    fl: FlattenLayer,
    p: Parameters,
    x: Tensor,
    y: Vec<i64>,
    f: int,
    r: int,
    c: int,
) -> int {
    crate::matrix::mat_tvec_s(
        p.weights@[0],
        delta_s::<ReLuNetwork>(p, cnn_flat(cl, fl, x), vi(y@), 0),
    )[fl.flat_idx(f, c, r)]
}

/// The full-resolution error of filter `f` for one example: the unflattened
/// gradient routed to the recorded pooling choice and gated by the rectifier
/// derivative of the pre-pool map.
pub open spec fn cl_d_cell(
    cl: ConvoultionalLayer,
    fl: FlattenLayer,
    p: Parameters,
    x: Tensor,
    y: Vec<i64>,
    f: int,
    i: int,
    j: int,
) -> int {
    fmul_s(
        if pick_q_fun(z_fun(cl, x, f), i / 2, j / 2) == (i % 2) + 2 * (j % 2) {
            back_cell(cl, fl, p, x, y, f, i / 2, j / 2)
        } else {
            0
        },
        crate::kernels::relu_ind_s(cl.z_cell(x, f, i, j)),
    )
}

/// The error of filter `f` as a filter-cell function.
pub open spec fn cl_d_fun(
    cl: ConvoultionalLayer,
    fl: FlattenLayer,
    p: Parameters,
    x: Tensor,
    y: Vec<i64>,
    f: int,
) -> spec_fn(int, int) -> int {
    |i: int, j: int| cl_d_cell(cl, fl, p, x, y, f, i, j)
}

/// Partial row sum of the error map (row `i`, first `n` columns).
pub open spec fn cl_d_row_sum(
    cl: ConvoultionalLayer,
    fl: FlattenLayer,
    p: Parameters,
    x: Tensor,
    y: Vec<i64>,
    f: int,
    i: int,
    n: int,
) -> int
    decreases n,
{
    if n <= 0 {
        0
    } else {
        fadd_s(
            cl_d_row_sum(cl, fl, p, x, y, f, i, n - 1),
            cl_d_cell(cl, fl, p, x, y, f, i, n - 1),
        )
    }
}

/// The bias gradient of filter `f` for one example: the saturating sum of
/// its error map, row by row.
pub open spec fn cl_d_sum(
    cl: ConvoultionalLayer,
    fl: FlattenLayer,
    p: Parameters,
    x: Tensor,
    y: Vec<i64>,
    f: int,
    n: int,
) -> int
    decreases n,
{
    if n <= 0 {
        0
    } else {
        fadd_s(
            cl_d_sum(cl, fl, p, x, y, f, n - 1),
            cl_d_row_sum(cl, fl, p, x, y, f, n - 1, cl.conv_size()),
        )
    }
}

/// The filter gradient of one example at filter `f`, channel `ch`, position
/// (`r`, `c`): the input channel convolved against the error map.
pub open spec fn cl_grad_cell(
    cl: ConvoultionalLayer,
    fl: FlattenLayer,
    p: Parameters,
    x: Tensor,
    y: Vec<i64>,
    f: int,
    ch: int,
    r: int,
    c: int,
) -> int {
    crate::kernels::conv_fun_cell(
        x.chan(ch),
        cl_d_fun(cl, fl, p, x, y, f),
        r,
        c,
        cl.conv_size(),
        cl.conv_size(),
    )
}

/// The accumulated convolutional bias gradient over the first `k` examples.
pub open spec fn acc_cl_nb(
    cl: ConvoultionalLayer,
    fl: FlattenLayer,
    p: Parameters,
    exs: Seq<(Tensor, Vec<i64>)>,
    k: int,
    f: int,
) -> int
    decreases k,
{
    if k <= 0 {
        0
    } else {
        fadd_s(
            acc_cl_nb(cl, fl, p, exs, k - 1, f),
            cl_d_sum(cl, fl, p, exs[k - 1].0, exs[k - 1].1, f, cl.conv_size()),
        )
    }
}

/// The accumulated convolutional filter gradient over the first `k`
/// examples.
pub open spec fn acc_cl_nw(
    cl: ConvoultionalLayer,
    fl: FlattenLayer,
    p: Parameters,
    exs: Seq<(Tensor, Vec<i64>)>,
    k: int,
    f: int,
    ch: int,
    r: int,
    c: int,
) -> int
    decreases k,
{
    if k <= 0 {
        0
    } else {
        fadd_s(
            acc_cl_nw(cl, fl, p, exs, k - 1, f, ch, r, c),
            cl_grad_cell(cl, fl, p, exs[k - 1].0, exs[k - 1].1, f, ch, r, c),
        )
    }
}

/// One accumulate/update cycle on `exs[start..end]` relates the network
/// states before (`a`) and after (`b`): both stages' parameters move by
/// exactly the averaged accumulated per-example gradients, and the
/// configuration is carried over.
pub open spec fn cnn_batch_rel(
    a: CnnState,
    b: CnnState,
    exs: Seq<(Tensor, Vec<i64>)>,
    start: int,
    end: int,
    n_train: int,
) -> bool {
    &&& state_wf(b)
    &&& b.2 == a.2
    &&& b.3 == a.3
    &&& b.0.n_filters() == a.0.n_filters()
    &&& b.0.input_channels == a.0.input_channels
    &&& b.0.input_size == a.0.input_size
    &&& b.0.output_size == a.0.output_size
    &&& b.0.learning_rate == a.0.learning_rate
    &&& b.1.parameters.n_layers() == a.1.parameters.n_layers()
    &&& b.1.learning_rate == a.1.learning_rate
    &&& b.1.lambda == a.1.lambda
    &&& b.1.architecture == a.1.architecture
    &&& b.1.regularization == a.1.regularization
    &&& forall|n: int|
        0 <= n < a.1.parameters.n_layers() ==> #[trigger] b.1.parameters.layer_out(n)
            == a.1.parameters.layer_out(n) && b.1.parameters.layer_in(n)
            == a.1.parameters.layer_in(n)
    &&& forall|n: int, r: int, c: int|
        0 <= n < a.1.parameters.n_layers() && 0 <= r < a.1.parameters.layer_out(n) && 0 <= c
            < a.1.parameters.layer_in(n) ==> #[trigger] b.1.parameters.weights@[n].at(r, c)
            == fsub_s(
            <L2 as Regularization>::reg_s(
                a.1.parameters.weights@[n].at(r, c),
                a.1.lambda as int,
                a.1.learning_rate as int,
                n_train,
            ),
            fmul_s(
                fdivn_s(a.1.learning_rate as int, end - start),
                cnn_acc_nw(
                    a.0,
                    a.2,
                    a.1.parameters,
                    exs.subrange(start, end),
                    end - start,
                    n,
                    r,
                    c,
                ),
            ),
        )
    &&& forall|n: int, i: int|
        0 <= n < a.1.parameters.n_layers() && 0 <= i < a.1.parameters.layer_out(n)
            ==> #[trigger] b.1.parameters.biases@[n]@[i] as int == fsub_s(
            a.1.parameters.biases@[n]@[i] as int,
            fmul_s(
                fdivn_s(a.1.learning_rate as int, end - start),
                cnn_acc_nb(a.0, a.2, a.1.parameters, exs.subrange(start, end), end - start, n, i),
            ),
        )
    &&& forall|f: int, ch: int, r: int, c: int|
        0 <= f < a.0.n_filters() && 0 <= ch < a.0.input_channels && 0 <= r < FILTER_SIZE && 0 <= c
            < FILTER_SIZE ==> #[trigger] b.0.filters@[f].chan(ch).at(r, c) == fsub_s(
            a.0.filters@[f].chan(ch).at(r, c),
            fmul_s(
                fdivn_s(a.0.learning_rate as int, end - start),
                acc_cl_nw(
                    a.0,
                    a.2,
                    a.1.parameters,
                    exs.subrange(start, end),
                    end - start,
                    f,
                    ch,
                    r,
                    c,
                ),
            ),
        )
    &&& forall|f: int|
        0 <= f < a.0.n_filters() ==> #[trigger] b.0.biases@[f] as int == fsub_s(
            a.0.biases@[f] as int,
            fmul_s(
                fdivn_s(a.0.learning_rate as int, end - start),
                acc_cl_nb(a.0, a.2, a.1.parameters, exs.subrange(start, end), end - start, f),
            ),
        )
}

/// `b` results from `a` by the accumulate/update cycles of all consecutive
/// mini-batches of `data` from position `start` on.
pub open spec fn cnn_batches_rel(
    a: CnnState,
    b: CnnState,
    data: Seq<(Tensor, Vec<i64>)>,
    start: int,
    mbs: int,
    n_train: int,
) -> bool
    decreases data.len() - start,
{
    if start >= data.len() || start < 0 || mbs < 1 {
        a == b
    } else {
        exists|mid: CnnState|
            #[trigger] cnn_batch_rel(
                a,
                mid,
                data,
                start,
                crate::neural_network::batch_end(start, mbs, data.len() as int),
                n_train,
            ) && cnn_batches_rel(
                mid,
                b,
                data,
                crate::neural_network::batch_end(start, mbs, data.len() as int),
                mbs,
                n_train,
            )
    }
}

/// One cycle followed by the remaining batches composes into the whole run
/// from `start`.
proof fn lemma_cnn_batches_rel_step(
    a: CnnState,
    mid: CnnState,
    b: CnnState,
    data: Seq<(Tensor, Vec<i64>)>,
    start: int,
    end: int,
    mbs: int,
    n_train: int,
)
    requires
        0 <= start < data.len(),
        mbs >= 1,
        end == crate::neural_network::batch_end(start, mbs, data.len() as int),
        cnn_batch_rel(a, mid, data, start, end, n_train),
        cnn_batches_rel(mid, b, data, end, mbs, n_train),
    ensures
        cnn_batches_rel(a, b, data, start, mbs, n_train),
{
    let be = crate::neural_network::batch_end(start, mbs, data.len() as int);
    assert(cnn_batch_rel(a, mid, data, start, be, n_train)
        && cnn_batches_rel(mid, b, data, be, mbs, n_train));
}

/// `b` results from `a` by one full pass over the permutation `perm`.
pub open spec fn cnn_epoch_rel(
    a: CnnState,
    b: CnnState,
    perm: Seq<(Tensor, Vec<i64>)>,
    mbs: int,
    n_train: int,
) -> bool {
    cnn_batches_rel(a, b, perm, 0, mbs, n_train)
}

/// `b` results from `a` by the epoch passes `perms[e..]`, in order.
pub open spec fn cnn_sgd_rel(
    a: CnnState,
    b: CnnState,
    perms: Seq<Seq<(Tensor, Vec<i64>)>>,
    e: int,
    mbs: int,
    n_train: int,
) -> bool
    decreases perms.len() - e,
{
    if e < 0 || e >= perms.len() {
        a == b
    } else {
        exists|mid: CnnState|
            #[trigger] cnn_epoch_rel(a, mid, perms[e], mbs, n_train) && cnn_sgd_rel(
                mid,
                b,
                perms,
                e + 1,
                mbs,
                n_train,
            )
    }
}

/// Appending one epoch pass to a chain of epoch passes extends the relation.
proof fn lemma_cnn_sgd_rel_snoc(
    a0: CnnState,
    cur: CnnState,
    next: CnnState,
    perms: Seq<Seq<(Tensor, Vec<i64>)>>,
    perm: Seq<(Tensor, Vec<i64>)>,
    e: int,
    mbs: int,
    n_train: int,
)
    requires
        0 <= e <= perms.len(),
        cnn_sgd_rel(a0, cur, perms, e, mbs, n_train),
        cnn_epoch_rel(cur, next, perm, mbs, n_train),
    ensures
        cnn_sgd_rel(a0, next, perms.push(perm), e, mbs, n_train),
    decreases perms.len() - e,
{
    let longer = perms.push(perm);
    if e >= perms.len() {
        assert(a0 == cur);
        assert(longer[e] == perm);
        assert(cnn_sgd_rel(next, next, longer, e + 1, mbs, n_train));
        assert(cnn_epoch_rel(a0, next, longer[e], mbs, n_train) && cnn_sgd_rel(
            next,
            next,
            longer,
            e + 1,
            mbs,
            n_train,
        ));
    } else {
        let mid = choose|mid: CnnState|
            #[trigger] cnn_epoch_rel(a0, mid, perms[e], mbs, n_train) && cnn_sgd_rel(
                mid,
                cur,
                perms,
                e + 1,
                mbs,
                n_train,
            );
        lemma_cnn_sgd_rel_snoc(mid, cur, next, perms, perm, e + 1, mbs, n_train);
        assert(longer[e] == perms[e]);
        assert(cnn_epoch_rel(a0, mid, longer[e], mbs, n_train) && cnn_sgd_rel(
            mid,
            next,
            longer,
            e + 1,
            mbs,
            n_train,
        ));
    }
}

/// The number of test pictures among the first `k` whose predicted class
/// matches the label.
pub open spec fn cnn_eval_count(
    cl: ConvoultionalLayer,
    fl: FlattenLayer,
    p: Parameters,
    data: Seq<(Tensor, usize)>,
    k: int,
) -> int
    decreases k,
{
    if k <= 0 {
        0
    } else {
        cnn_eval_count(cl, fl, p, data, k - 1) + (if argmax_s(
            ff_s::<ReLuNetwork>(p, cnn_flat(cl, fl, data[k - 1].0), p.n_layers()),
        ) == data[k - 1].1 as int {
            1int
        } else {
            0int
        })
    }
}

/// A convolutional layer, a flatten adapter and a fully-connected stage,
/// trained together.
pub struct ConvolutionalNeuralNetwork {
    pub conv_layer: ConvoultionalLayer,
    pub fully_con_layer: FullyConnectedLayer<ReLuNetwork, L2>,
    pub flatten_layer: FlattenLayer,
    pub mini_batch_size: usize,
    pub rng: rand::rngs::StdRng,
}

/// The training-relevant state of the network: its three stages and the
/// batch size (everything but the pseudo-random source).
pub type CnnState = (ConvoultionalLayer, FullyConnectedLayer<ReLuNetwork, L2>, FlattenLayer, usize);

/// The state of a network value.
pub open spec fn cnn_state(net: ConvolutionalNeuralNetwork) -> CnnState {
    (net.conv_layer, net.fully_con_layer, net.flatten_layer, net.mini_batch_size)
}

/// The three stages are individually well-formed and compose: the flatten
/// adapter has the convolutional layer's output shape and feeds exactly the
/// fully-connected stage's input width.
pub open spec fn state_wf(s: CnnState) -> bool {
    &&& s.0.wf()
    &&& s.2.wf()
    &&& s.2.h == s.0.output_size
    &&& s.2.w == s.0.output_size
    &&& s.2.d == s.0.n_filters()
    &&& s.1.wf()
    &&& s.1.in_size() == s.2.size()
    &&& 1 <= s.3 <= 0x7fffffffffffffff
}

impl ConvolutionalNeuralNetwork {
    /// The three stages are individually well-formed and compose.
    pub open spec fn wf(self) -> bool {
        state_wf(cnn_state(self))
    }

    /// Builds the fixed configuration: `NUMBER_OF_FILTERS` filters over
    /// `PICTURE_CHANNELS`-channel pictures of side `PICTURE_SIZE`, flattened
    /// into a fully-connected stage of sizes (feature count, 30, 10), with
    /// L2 decay, from one seeded pseudo-random source.
    pub fn new(mini_batch_size: usize, learning_rate: i64, lambda: i64, seed: u64) -> (net: Self)
        requires
            1 <= mini_batch_size <= 0x7fffffffffffffff,
        ensures
            net.wf(),
            net.mini_batch_size == mini_batch_size,
            net.conv_layer.n_filters() == NUMBER_OF_FILTERS,
            net.conv_layer.input_channels == PICTURE_CHANNELS,
            net.conv_layer.input_size == PICTURE_SIZE,
            net.fully_con_layer.out_size() == 10,
            net.fully_con_layer.parameters.n_layers() == 2,
            net.fully_con_layer.parameters.layer_out(0) == 30,
            net.fully_con_layer.parameters.layer_out(1) == 10,
            net.fully_con_layer.learning_rate == learning_rate,
            net.fully_con_layer.lambda == lambda,
    {
        let mut rng = seeded_rng(seed);
        let conv_layer = ConvoultionalLayer::new(
            NUMBER_OF_FILTERS,
            PICTURE_CHANNELS,
            PICTURE_SIZE,
            learning_rate,
            &mut rng,
        );
        let out = conv_layer.output_size;
        proof {
            assert(30int / 2 == 15) by (nonlinear_arith);
            assert(out == 15);
        }
        let input_neurons: usize = out * out * NUMBER_OF_FILTERS;
        let mut sizes: Vec<usize> = Vec::new();
        sizes.push(input_neurons);
        sizes.push(30);
        sizes.push(10);
        let fully_con_layer = FullyConnectedLayer::<ReLuNetwork, L2>::new(
            sizes,
            learning_rate,
            lambda,
            ReLuNetwork {},
            L2 {},
            &mut rng,
        );
        let flatten_layer = FlattenLayer::new(out, out, NUMBER_OF_FILTERS);
        proof {
            assert(fully_con_layer.parameters.layer_out(0) == 30);
            assert(fully_con_layer.parameters.layer_out(1) == 10);
            assert(fully_con_layer.parameters.layer_in(0) == input_neurons);
            assert(flatten_layer.size() == (out as int) * (out as int) * (
            NUMBER_OF_FILTERS as int));
        }
        ConvolutionalNeuralNetwork {
            conv_layer,
            fully_con_layer,
            flatten_layer,
            mini_batch_size,
            rng,
        }
    }

    /// The full inference-mode forward pass, as the flat feature vector fed
    /// to the fully-connected stage.
    fn forward_features(&self, x: &Tensor) -> (v: Vec<i64>)
        requires
            self.wf(),
            x.wf(),
            x.has_shape(
                self.conv_layer.input_channels as int,
                self.conv_layer.input_size as int,
                self.conv_layer.input_size as int,
            ),
        ensures
            v@.len() == self.flatten_layer.size(),
            vi(v@) == cnn_flat(self.conv_layer, self.flatten_layer, *x),
    {
        let t = match self.conv_layer.feedforward(x) {
            Ok(t) => t,
            Err(_) => {
                proof {
                    assert(false);
                }
                return Vec::new();
            },
        };
        let v = match self.flatten_layer.flatten(&t) {
            Ok(v) => v,
            Err(_) => {
                proof {
                    assert(false);
                }
                return Vec::new();
            },
        };
        proof {
            lemma_flat_is_cnn(self.conv_layer, self.flatten_layer, *x, t, v@);
        }
        v
    }

    /// One accumulate/update cycle on the batch `data[start..end]`: per
    /// example, a training-mode pass through all three stages, the backward
    /// pass in reverse order, and elementwise accumulation of every gradient;
    /// then one parameter update per layer with the batch size and the
    /// training-set size. The fully-connected update is pinned exactly to the
    /// accumulated per-example gradients.
    pub fn update_mini_batch(
        &mut self,
        data: &Vec<(Tensor, Vec<i64>)>,
        start: usize,
        end: usize,
        training_len: usize,
    )
        requires
            old(self).wf(),
            start < end <= data@.len(),
            end - start <= 0x7fffffffffffffff,
            1 <= training_len <= 0x7fffffffffffffff,
            forall|k: int|
                start <= k < end ==> (#[trigger] data@[k]).0.wf() && data@[k].0.has_shape(
                    old(self).conv_layer.input_channels as int,
                    old(self).conv_layer.input_size as int,
                    old(self).conv_layer.input_size as int,
                ) && data@[k].1@.len() == old(self).fully_con_layer.out_size(),
        ensures
            final(self).wf(),
            final(self).conv_layer.n_filters() == old(self).conv_layer.n_filters(),
            final(self).conv_layer.input_channels == old(self).conv_layer.input_channels,
            final(self).conv_layer.input_size == old(self).conv_layer.input_size,
            final(self).conv_layer.output_size == old(self).conv_layer.output_size,
            final(self).flatten_layer == old(self).flatten_layer,
            final(self).mini_batch_size == old(self).mini_batch_size,
            final(self).fully_con_layer.parameters.n_layers() == old(self).fully_con_layer.parameters.n_layers(),
            final(self).fully_con_layer.in_size() == old(self).fully_con_layer.in_size(),
            final(self).fully_con_layer.out_size() == old(self).fully_con_layer.out_size(),
            final(self).fully_con_layer.learning_rate == old(self).fully_con_layer.learning_rate,
            final(self).fully_con_layer.lambda == old(self).fully_con_layer.lambda,
            final(self).fully_con_layer.architecture == old(self).fully_con_layer.architecture,
            final(self).fully_con_layer.regularization == old(self).fully_con_layer.regularization,
            forall|n: int|
                0 <= n < old(self).fully_con_layer.parameters.n_layers() ==> #[trigger] final(self).fully_con_layer.parameters.layer_out(n)
                    == old(self).fully_con_layer.parameters.layer_out(n)
                    && final(self).fully_con_layer.parameters.layer_in(n)
                    == old(self).fully_con_layer.parameters.layer_in(n),
            // the fully-connected update applies exactly the accumulated
            // per-example gradients of the batch
            forall|n: int, r: int, c: int|
                0 <= n < old(self).fully_con_layer.parameters.n_layers() && 0 <= r < old(self).fully_con_layer.parameters.layer_out(n) && 0 <= c < old(self).fully_con_layer.parameters.layer_in(n) ==> #[trigger] final(self).fully_con_layer.parameters.weights@[n].at(r, c) == fsub_s(
                    <L2 as Regularization>::reg_s(
                        old(self).fully_con_layer.parameters.weights@[n].at(r, c),
                        old(self).fully_con_layer.lambda as int,
                        old(self).fully_con_layer.learning_rate as int,
                        training_len as int,
                    ),
                    fmul_s(
                        fdivn_s(old(self).fully_con_layer.learning_rate as int, end - start),
                        cnn_acc_nw(
                            old(self).conv_layer,
                            old(self).flatten_layer,
                            old(self).fully_con_layer.parameters,
                            data@.subrange(start as int, end as int),
                            end - start,
                            n,
                            r,
                            c,
                        ),
                    ),
                ),
            forall|n: int, i: int|
                0 <= n < old(self).fully_con_layer.parameters.n_layers() && 0 <= i < old(self).fully_con_layer.parameters.layer_out(n) ==> #[trigger] final(self).fully_con_layer.parameters.biases@[n]@[i] as int == fsub_s(
                    old(self).fully_con_layer.parameters.biases@[n]@[i] as int,
                    fmul_s(
                        fdivn_s(old(self).fully_con_layer.learning_rate as int, end - start),
                        cnn_acc_nb(
                            old(self).conv_layer,
                            old(self).flatten_layer,
                            old(self).fully_con_layer.parameters,
                            data@.subrange(start as int, end as int),
                            end - start,
                            n,
                            i,
                        ),
                    ),
                ),
            // the convolutional update likewise applies exactly the
            // accumulated per-example gradients of the batch
            final(self).conv_layer.learning_rate == old(self).conv_layer.learning_rate,
            forall|f: int, ch: int, r: int, c: int|
                0 <= f < old(self).conv_layer.n_filters() && 0 <= ch < old(self).conv_layer.input_channels && 0 <= r < FILTER_SIZE && 0 <= c < FILTER_SIZE
                    ==> #[trigger] final(self).conv_layer.filters@[f].chan(ch).at(r, c) == fsub_s(
                    old(self).conv_layer.filters@[f].chan(ch).at(r, c),
                    fmul_s(
                        fdivn_s(old(self).conv_layer.learning_rate as int, end - start),
                        acc_cl_nw(
                            old(self).conv_layer,
                            old(self).flatten_layer,
                            old(self).fully_con_layer.parameters,
                            data@.subrange(start as int, end as int),
                            end - start,
                            f,
                            ch,
                            r,
                            c,
                        ),
                    ),
                ),
            forall|f: int|
                0 <= f < old(self).conv_layer.n_filters() ==> #[trigger] final(self).conv_layer.biases@[f] as int == fsub_s(
                    old(self).conv_layer.biases@[f] as int,
                    fmul_s(
                        fdivn_s(old(self).conv_layer.learning_rate as int, end - start),
                        acc_cl_nb(
                            old(self).conv_layer,
                            old(self).flatten_layer,
                            old(self).fully_con_layer.parameters,
                            data@.subrange(start as int, end as int),
                            end - start,
                            f,
                        ),
                    ),
                ),
    {
        let ghost batch = data@.subrange(start as int, end as int);
        let ghost cl0 = self.conv_layer;
        let ghost fl0 = self.flatten_layer;
        let ghost p0 = self.fully_con_layer.parameters;
        let n_layers = self.fully_con_layer.weight_sizes.len();
        // zeroed fully-connected accumulators
        let mut fcl_nabla_w: Vec<Matrix> = Vec::new();
        let mut fcl_nabla_b: Vec<Vec<i64>> = Vec::new();
        let mut n: usize = 0;
        while n < n_layers
            invariant
                self.wf(),
                self == old(self),
                n_layers == self.fully_con_layer.parameters.n_layers(),
                n <= n_layers,
                fcl_nabla_w@.len() == n,
                fcl_nabla_b@.len() == n,
                forall|m: int|
                    0 <= m < n ==> (#[trigger] fcl_nabla_w@[m]).wf() && fcl_nabla_w@[m].rows
                        == self.fully_con_layer.parameters.layer_out(m) && fcl_nabla_w@[m].cols
                        == self.fully_con_layer.parameters.layer_in(m),
                forall|m: int, r: int, c: int|
                    0 <= m < n && 0 <= r < self.fully_con_layer.parameters.layer_out(m) && 0 <= c
                        < self.fully_con_layer.parameters.layer_in(m)
                        ==> #[trigger] fcl_nabla_w@[m].at(r, c) == 0,
                forall|m: int|
                    0 <= m < n ==> (#[trigger] fcl_nabla_b@[m])@.len()
                        == self.fully_con_layer.parameters.layer_out(m),
                forall|m: int, i: int|
                    0 <= m < n && 0 <= i < self.fully_con_layer.parameters.layer_out(m)
                        ==> #[trigger] fcl_nabla_b@[m]@[i] == 0i64,
            decreases n_layers - n,
        {
            proof {
                assert(self.fully_con_layer.parameters.weights@[n as int].wf());
            }
            let rows = self.fully_con_layer.parameters.weights[n].rows;
            let cols = self.fully_con_layer.parameters.weights[n].cols;
            fcl_nabla_w.push(Matrix::zeros(rows, cols));
            fcl_nabla_b.push(vec_zeros(rows));
            n += 1;
        }
        // zeroed convolutional accumulators
        let n_filters = self.conv_layer.filters.len();
        let channels = self.conv_layer.input_channels;
        let mut cl_nabla_b: Vec<i64> = vec_zeros(n_filters);
        let mut cl_nabla_w: Vec<Tensor> = Vec::new();
        let mut f: usize = 0;
        while f < n_filters
            invariant
                self.wf(),
                channels == self.conv_layer.input_channels,
                f <= n_filters,
                cl_nabla_w@.len() == f,
                forall|i: int|
                    0 <= i < f ==> (#[trigger] cl_nabla_w@[i]).wf() && cl_nabla_w@[i].has_shape(
                        channels as int,
                        FILTER_SIZE as int,
                        FILTER_SIZE as int,
                    ),
                forall|i: int, ch: int, r: int, c: int|
                    0 <= i < f && 0 <= ch < channels && 0 <= r < FILTER_SIZE && 0 <= c
                        < FILTER_SIZE ==> #[trigger] cl_nabla_w@[i].chan(ch).at(r, c) == 0,
            decreases n_filters - f,
        {
            let mut chans: Vec<Matrix> = Vec::new();
            let mut ch: usize = 0;
            while ch < channels
                invariant
                    ch <= channels,
                    chans@.len() == ch,
                    forall|i: int|
                        0 <= i < ch ==> (#[trigger] chans@[i]).wf() && chans@[i].rows == FILTER_SIZE
                            && chans@[i].cols == FILTER_SIZE,
                    forall|i: int, r: int, c: int|
                        0 <= i < ch && 0 <= r < FILTER_SIZE && 0 <= c < FILTER_SIZE
                            ==> #[trigger] chans@[i].at(r, c) == 0,
                decreases channels - ch,
            {
                chans.push(Matrix::zeros(FILTER_SIZE, FILTER_SIZE));
                ch += 1;
            }
            cl_nabla_w.push(Tensor { data: chans });
            f += 1;
        }
        // accumulate per-example gradients in batch order
        let mut k: usize = 0;
        while k < end - start
            invariant
                self.wf(),
                self == old(self),
                cl0 == self.conv_layer,
                fl0 == self.flatten_layer,
                p0 == self.fully_con_layer.parameters,
                start < end <= data@.len(),
                batch == data@.subrange(start as int, end as int),
                forall|j: int|
                    start <= j < end ==> (#[trigger] data@[j]).0.wf() && data@[j].0.has_shape(
                        self.conv_layer.input_channels as int,
                        self.conv_layer.input_size as int,
                        self.conv_layer.input_size as int,
                    ) && data@[j].1@.len() == self.fully_con_layer.out_size(),
                n_layers == self.fully_con_layer.parameters.n_layers(),
                n_filters == self.conv_layer.n_filters(),
                channels == self.conv_layer.input_channels,
                k <= end - start,
                fcl_nabla_w@.len() == n_layers,
                fcl_nabla_b@.len() == n_layers,
                forall|m: int|
                    0 <= m < n_layers ==> (#[trigger] fcl_nabla_w@[m]).wf() && fcl_nabla_w@[m].rows
                        == self.fully_con_layer.parameters.layer_out(m) && fcl_nabla_w@[m].cols
                        == self.fully_con_layer.parameters.layer_in(m),
                forall|m: int, r: int, c: int|
                    0 <= m < n_layers && 0 <= r < self.fully_con_layer.parameters.layer_out(m) && 0
                        <= c < self.fully_con_layer.parameters.layer_in(m)
                        ==> #[trigger] fcl_nabla_w@[m].at(r, c) == cnn_acc_nw(
                        cl0,
                        fl0,
                        p0,
                        batch,
                        k as int,
                        m,
                        r,
                        c,
                    ),
                forall|m: int|
                    0 <= m < n_layers ==> (#[trigger] fcl_nabla_b@[m])@.len()
                        == self.fully_con_layer.parameters.layer_out(m),
                forall|m: int, i: int|
                    0 <= m < n_layers && 0 <= i < self.fully_con_layer.parameters.layer_out(m)
                        ==> #[trigger] fcl_nabla_b@[m]@[i] as int == cnn_acc_nb(
                        cl0,
                        fl0,
                        p0,
                        batch,
                        k as int,
                        m,
                        i,
                    ),
                cl_nabla_b@.len() == n_filters,
                cl_nabla_w@.len() == n_filters,
                forall|i: int|
                    0 <= i < n_filters ==> (#[trigger] cl_nabla_w@[i]).wf()
                        && cl_nabla_w@[i].has_shape(
                        channels as int,
                        FILTER_SIZE as int,
                        FILTER_SIZE as int,
                    ),
                forall|i: int|
                    0 <= i < n_filters ==> #[trigger] cl_nabla_b@[i] as int == acc_cl_nb(
                        cl0,
                        fl0,
                        p0,
                        batch,
                        k as int,
                        i,
                    ),
                forall|i: int, ch: int, r: int, c: int|
                    0 <= i < n_filters && 0 <= ch < channels && 0 <= r < FILTER_SIZE && 0 <= c
                        < FILTER_SIZE ==> #[trigger] cl_nabla_w@[i].chan(ch).at(r, c)
                        == acc_cl_nw(cl0, fl0, p0, batch, k as int, i, ch, r, c),
            decreases end - start - k,
        {
            let ex = &data[start + k];
            proof {
                assert(batch[k as int] == data@[start + k]);
            }
            let (_output, cache) = match self.conv_layer.training_feedforward(&ex.0) {
                Ok(p) => p,
                Err(_) => {
                    proof {
                        assert(false);
                    }
                    return ;
                },
            };
            let v = match self.flatten_layer.flatten(&_output) {
                Ok(v) => v,
                Err(_) => {
                    proof {
                        assert(false);
                    }
                    return ;
                },
            };
            proof {
                lemma_flat_is_cnn(self.conv_layer, self.flatten_layer, ex.0, _output, v@);
            }
            let (dnb, dnw, ig) = backprop_core(
                &self.fully_con_layer.architecture,
                &self.fully_con_layer.parameters,
                &v,
                &ex.1,
            );
            // accumulate the fully-connected gradients
            let mut new_nw: Vec<Matrix> = Vec::new();
            let mut new_nb: Vec<Vec<i64>> = Vec::new();
            let mut m: usize = 0;
            while m < n_layers
                invariant
                    self.wf(),
                    cl0 == self.conv_layer,
                    fl0 == self.flatten_layer,
                    p0 == self.fully_con_layer.parameters,
                    n_layers == self.fully_con_layer.parameters.n_layers(),
                    k < end - start,
                    batch.len() == end - start,
                    batch[k as int].1@.len() == self.fully_con_layer.out_size(),
                    vi(v@) == cnn_flat(cl0, fl0, batch[k as int].0),
                    v@.len() == self.fully_con_layer.in_size(),
                    crate::network_architecture::nabla_b_rel::<ReLuNetwork>(
                        p0,
                        vi(v@),
                        vi(batch[k as int].1@),
                        dnb@,
                    ),
                    crate::network_architecture::nabla_w_rel::<ReLuNetwork>(
                        p0,
                        vi(v@),
                        vi(batch[k as int].1@),
                        dnw@,
                    ),
                    fcl_nabla_w@.len() == n_layers,
                    fcl_nabla_b@.len() == n_layers,
                    forall|j: int|
                        0 <= j < n_layers ==> (#[trigger] fcl_nabla_w@[j]).wf()
                            && fcl_nabla_w@[j].rows == p0.layer_out(j) && fcl_nabla_w@[j].cols
                            == p0.layer_in(j),
                    forall|j: int, r: int, c: int|
                        0 <= j < n_layers && 0 <= r < p0.layer_out(j) && 0 <= c < p0.layer_in(j)
                            ==> #[trigger] fcl_nabla_w@[j].at(r, c) == cnn_acc_nw(
                            cl0,
                            fl0,
                            p0,
                            batch,
                            k as int,
                            j,
                            r,
                            c,
                        ),
                    forall|j: int|
                        0 <= j < n_layers ==> (#[trigger] fcl_nabla_b@[j])@.len() == p0.layer_out(
                            j,
                        ),
                    forall|j: int, i: int|
                        0 <= j < n_layers && 0 <= i < p0.layer_out(j)
                            ==> #[trigger] fcl_nabla_b@[j]@[i] as int == cnn_acc_nb(
                            cl0,
                            fl0,
                            p0,
                            batch,
                            k as int,
                            j,
                            i,
                        ),
                    m <= n_layers,
                    new_nw@.len() == m,
                    new_nb@.len() == m,
                    forall|j: int|
                        0 <= j < m ==> (#[trigger] new_nw@[j]).wf() && new_nw@[j].rows
                            == p0.layer_out(j) && new_nw@[j].cols == p0.layer_in(j),
                    forall|j: int, r: int, c: int|
                        0 <= j < m && 0 <= r < p0.layer_out(j) && 0 <= c < p0.layer_in(j)
                            ==> #[trigger] new_nw@[j].at(r, c) == cnn_acc_nw(
                            cl0,
                            fl0,
                            p0,
                            batch,
                            k as int + 1,
                            j,
                            r,
                            c,
                        ),
                    forall|j: int|
                        0 <= j < m ==> (#[trigger] new_nb@[j])@.len() == p0.layer_out(j),
                    forall|j: int, i: int|
                        0 <= j < m && 0 <= i < p0.layer_out(j) ==> #[trigger] new_nb@[j]@[i] as int
                            == cnn_acc_nb(cl0, fl0, p0, batch, k as int + 1, j, i),
                decreases n_layers - m,
            {
                proof {
                    lemma_delta_len::<ReLuNetwork>(
                        p0,
                        vi(v@),
                        vi(batch[k as int].1@),
                        m as int,
                    );
                    lemma_ff_len::<ReLuNetwork>(p0, vi(v@), m as int);
                }
                new_nw.push(mat_add(&fcl_nabla_w[m], &dnw[m]));
                let nbv = vec_add(&fcl_nabla_b[m], &dnb[m]);
                proof {
                    assert forall|i: int|
                        0 <= i < p0.layer_out(m as int) implies nbv@[i] as int == cnn_acc_nb(
                        cl0,
                        fl0,
                        p0,
                        batch,
                        k as int + 1,
                        m as int,
                        i,
                    ) by {
                        assert(vi(nbv@)[i] == crate::matrix::vadd_is(
                            vi(fcl_nabla_b@[m as int]@),
                            vi(dnb@[m as int]@),
                        )[i]);
                    };
                }
                new_nb.push(nbv);
                m += 1;
            }
            fcl_nabla_w = new_nw;
            fcl_nabla_b = new_nb;
            // route the gradient back through the flatten adapter and the
            // convolutional layer, and accumulate
            let delta_t = match self.flatten_layer.back(&ig) {
                Ok(t) => t,
                Err(_) => {
                    proof {
                        assert(false);
                    }
                    return ;
                },
            };
            let (cl_dnb, cl_dnw) = match self.conv_layer.backpropagation(&cache, &delta_t) {
                Ok(p) => p,
                Err(_) => {
                    proof {
                        assert(false);
                    }
                    return ;
                },
            };
            let ghost exk = batch[k as int];
            proof {
                // the routed gradient tensor holds exactly the unflattened
                // fully-connected input gradient of this example
                crate::flatten_layer::lemma_size_steps(
                    fl0.w as int,
                    fl0.h as int,
                    fl0.d as int,
                );
                assert forall|ff: int, r: int, c: int|
                    0 <= ff < cl0.n_filters() && 0 <= r < cl0.output_size && 0 <= c
                        < cl0.output_size implies #[trigger] delta_t.chan(ff).at(r, c)
                    == back_cell(cl0, fl0, p0, exk.0, exk.1, ff, r, c) by {
                    crate::flatten_layer::lemma_flat_bound(
                        fl0.w as int,
                        fl0.h as int,
                        fl0.d as int,
                        ff,
                        c,
                        r,
                    );
                    assert(delta_t.chan(ff).at(r, c) == ig@[fl0.flat_idx(ff, c, r)] as int);
                    assert(vi(ig@)[fl0.flat_idx(ff, c, r)] == ig@[fl0.flat_idx(ff, c, r)] as int);
                };
                // so the per-example conv gradients equal their example-level
                // forms
                assert forall|ff: int|
                    0 <= ff < n_filters implies #[trigger] cl_dnb@[ff] as int == cl_d_sum(
                    cl0,
                    fl0,
                    p0,
                    exk.0,
                    exk.1,
                    ff,
                    cl0.conv_size(),
                ) by {
                    lemma_cl_example_grads(cl0, fl0, p0, exk.0, exk.1, cache, delta_t, ff);
                };
                assert forall|ff: int, ch: int, r: int, c: int|
                    0 <= ff < n_filters && 0 <= ch < channels && 0 <= r < FILTER_SIZE && 0 <= c
                        < FILTER_SIZE implies #[trigger] cl_dnw@[ff].chan(ch).at(r, c)
                    == cl_grad_cell(cl0, fl0, p0, exk.0, exk.1, ff, ch, r, c) by {
                    lemma_cl_example_grads(cl0, fl0, p0, exk.0, exk.1, cache, delta_t, ff);
                };
            }
            let mut new_cl_nb: Vec<i64> = Vec::new();
            let mut new_cl_nw: Vec<Tensor> = Vec::new();
            let mut f2: usize = 0;
            while f2 < n_filters
                invariant
                    self.wf(),
                    channels == self.conv_layer.input_channels,
                    n_filters == self.conv_layer.n_filters(),
                    cl0 == self.conv_layer,
                    k < end - start,
                    batch.len() == end - start,
                    exk == batch[k as int],
                    cl_nabla_b@.len() == n_filters,
                    cl_nabla_w@.len() == n_filters,
                    cl_dnb@.len() == n_filters,
                    cl_dnw@.len() == n_filters,
                    forall|i: int|
                        0 <= i < n_filters ==> (#[trigger] cl_nabla_w@[i]).wf()
                            && cl_nabla_w@[i].has_shape(
                            channels as int,
                            FILTER_SIZE as int,
                            FILTER_SIZE as int,
                        ),
                    forall|i: int|
                        0 <= i < n_filters ==> (#[trigger] cl_dnw@[i]).wf()
                            && cl_dnw@[i].has_shape(
                            channels as int,
                            FILTER_SIZE as int,
                            FILTER_SIZE as int,
                        ),
                    forall|i: int|
                        0 <= i < n_filters ==> #[trigger] cl_nabla_b@[i] as int == acc_cl_nb(
                            cl0,
                            fl0,
                            p0,
                            batch,
                            k as int,
                            i,
                        ),
                    forall|i: int, ch: int, r: int, c: int|
                        0 <= i < n_filters && 0 <= ch < channels && 0 <= r < FILTER_SIZE && 0 <= c
                            < FILTER_SIZE ==> #[trigger] cl_nabla_w@[i].chan(ch).at(r, c)
                            == acc_cl_nw(cl0, fl0, p0, batch, k as int, i, ch, r, c),
                    forall|i: int|
                        0 <= i < n_filters ==> #[trigger] cl_dnb@[i] as int == cl_d_sum(
                            cl0,
                            fl0,
                            p0,
                            exk.0,
                            exk.1,
                            i,
                            cl0.conv_size(),
                        ),
                    forall|i: int, ch: int, r: int, c: int|
                        0 <= i < n_filters && 0 <= ch < channels && 0 <= r < FILTER_SIZE && 0 <= c
                            < FILTER_SIZE ==> #[trigger] cl_dnw@[i].chan(ch).at(r, c)
                            == cl_grad_cell(cl0, fl0, p0, exk.0, exk.1, i, ch, r, c),
                    f2 <= n_filters,
                    new_cl_nb@.len() == f2,
                    new_cl_nw@.len() == f2,
                    forall|i: int|
                        0 <= i < f2 ==> (#[trigger] new_cl_nw@[i]).wf()
                            && new_cl_nw@[i].has_shape(
                            channels as int,
                            FILTER_SIZE as int,
                            FILTER_SIZE as int,
                        ),
                    forall|i: int|
                        0 <= i < f2 ==> #[trigger] new_cl_nb@[i] as int == acc_cl_nb(
                            cl0,
                            fl0,
                            p0,
                            batch,
                            k as int + 1,
                            i,
                        ),
                    forall|i: int, ch: int, r: int, c: int|
                        0 <= i < f2 && 0 <= ch < channels && 0 <= r < FILTER_SIZE && 0 <= c
                            < FILTER_SIZE ==> #[trigger] new_cl_nw@[i].chan(ch).at(r, c)
                            == acc_cl_nw(cl0, fl0, p0, batch, k as int + 1, i, ch, r, c),
                decreases n_filters - f2,
            {
                new_cl_nb.push(crate::fixed::fadd(cl_nabla_b[f2], cl_dnb[f2]));
                let a = &cl_nabla_w[f2];
                let b = &cl_dnw[f2];
                let mut chans: Vec<Matrix> = Vec::new();
                let mut ch2: usize = 0;
                while ch2 < channels
                    invariant
                        a.wf(),
                        b.wf(),
                        a.has_shape(channels as int, FILTER_SIZE as int, FILTER_SIZE as int),
                        b.has_shape(channels as int, FILTER_SIZE as int, FILTER_SIZE as int),
                        ch2 <= channels,
                        chans@.len() == ch2,
                        forall|i: int|
                            0 <= i < ch2 ==> (#[trigger] chans@[i]).wf() && chans@[i].rows
                                == FILTER_SIZE && chans@[i].cols == FILTER_SIZE,
                        forall|i: int, r: int, c: int|
                            0 <= i < ch2 && 0 <= r < FILTER_SIZE && 0 <= c < FILTER_SIZE
                                ==> #[trigger] chans@[i].at(r, c) == crate::fixed::fadd_s(
                                a.chan(i).at(r, c),
                                b.chan(i).at(r, c),
                            ),
                    decreases channels - ch2,
                {
                    proof {
                        assert(a.chan(ch2 as int).wf());
                        assert(b.chan(ch2 as int).wf());
                    }
                    chans.push(mat_add(&a.data[ch2], &b.data[ch2]));
                    ch2 += 1;
                }
                new_cl_nw.push(Tensor { data: chans });
                f2 += 1;
            }
            cl_nabla_b = new_cl_nb;
            cl_nabla_w = new_cl_nw;
            k += 1;
        }
        // parameter updates: fully-connected stage, then the convolutional
        // layer
        let mbs = end - start;
        self.fully_con_layer.update_parameters(&fcl_nabla_w, &fcl_nabla_b, mbs, training_len);
        self.conv_layer.update_parameters(&cl_nabla_w, &cl_nabla_b, mbs);
    }

    /// Mini-batch stochastic gradient descent over (picture, one-hot target)
    /// pairs: per epoch, permute the examples and run the accumulate/update
    /// cycle on each consecutive mini-batch. Fails, before any training,
    /// when an example does not have the configured shape.
    pub fn stochastic_gradient_descent(
        &mut self,
        training_data: Vec<(Tensor, Vec<i64>)>,
        epochs: i32,
    ) -> (out: Result<(), ShapeError>)
        requires
            old(self).wf(),
            1 <= training_data@.len() <= 0x7fffffffffffffff,
        ensures
            out.is_err() <==> exists|k: int|
                0 <= k < training_data@.len() && !((#[trigger] training_data@[k]).0.wf()
                    && training_data@[k].0.has_shape(
                    old(self).conv_layer.input_channels as int,
                    old(self).conv_layer.input_size as int,
                    old(self).conv_layer.input_size as int,
                ) && training_data@[k].1@.len() == old(self).fully_con_layer.out_size()),
            final(self).wf(),
            final(self).mini_batch_size == old(self).mini_batch_size,
            final(self).flatten_layer == old(self).flatten_layer,
            final(self).conv_layer.n_filters() == old(self).conv_layer.n_filters(),
            final(self).conv_layer.input_channels == old(self).conv_layer.input_channels,
            final(self).conv_layer.input_size == old(self).conv_layer.input_size,
            final(self).conv_layer.output_size == old(self).conv_layer.output_size,
            final(self).fully_con_layer.parameters.n_layers() == old(self).fully_con_layer.parameters.n_layers(),
            final(self).fully_con_layer.in_size() == old(self).fully_con_layer.in_size(),
            final(self).fully_con_layer.out_size() == old(self).fully_con_layer.out_size(),
            out.is_err() ==> *final(self) == *old(self),
            out.is_ok() ==> exists|perms: Seq<Seq<(Tensor, Vec<i64>)>>|
                #[trigger] cnn_sgd_rel(
                    cnn_state(*old(self)),
                    cnn_state(*final(self)),
                    perms,
                    0,
                    old(self).mini_batch_size as int,
                    training_data@.len() as int,
                ) && perms.len() == (if epochs >= 0 {
                    epochs as int
                } else {
                    0int
                }) && (forall|j: int|
                    0 <= j < perms.len() ==> (#[trigger] perms[j]).to_multiset()
                        == training_data@.to_multiset() && perms[j].len() == training_data@.len()),
    {
        let mut data = training_data;
        let n_train = data.len();
        let mut i: usize = 0;
        while i < data.len()
            invariant
                self == old(self),
                self.wf(),
                data@ == training_data@,
                i <= data@.len(),
                forall|k: int|
                    0 <= k < i ==> (#[trigger] data@[k]).0.wf() && data@[k].0.has_shape(
                        self.conv_layer.input_channels as int,
                        self.conv_layer.input_size as int,
                        self.conv_layer.input_size as int,
                    ) && data@[k].1@.len() == self.fully_con_layer.out_size(),
            decreases data@.len() - i,
        {
            let last = self.fully_con_layer.weight_sizes.len() - 1;
            proof {
                assert(self.fully_con_layer.weight_sizes@[last as int].0
                    == self.fully_con_layer.parameters.layer_out(last as int));
            }
            let ok = data[i].0.has_dims(
                self.conv_layer.input_channels,
                self.conv_layer.input_size,
                self.conv_layer.input_size,
            );
            if !ok || data[i].1.len() != self.fully_con_layer.weight_sizes[last].0 {
                return Err(ShapeError::WrongShape);
            }
            i += 1;
        }
        let ghost mut perms: Seq<Seq<(Tensor, Vec<i64>)>> = Seq::empty();
        let mut e: i32 = 0;
        while e < epochs
            invariant
                self.wf(),
                self.mini_batch_size == old(self).mini_batch_size,
                self.flatten_layer == old(self).flatten_layer,
                self.conv_layer.n_filters() == old(self).conv_layer.n_filters(),
                self.conv_layer.input_channels == old(self).conv_layer.input_channels,
                self.conv_layer.input_size == old(self).conv_layer.input_size,
                self.conv_layer.output_size == old(self).conv_layer.output_size,
                self.fully_con_layer.parameters.n_layers() == old(self).fully_con_layer.parameters.n_layers(),
                self.fully_con_layer.in_size() == old(self).fully_con_layer.in_size(),
                self.fully_con_layer.out_size() == old(self).fully_con_layer.out_size(),
                n_train == data@.len(),
                1 <= n_train <= 0x7fffffffffffffff,
                forall|k: int|
                    0 <= k < data@.len() ==> (#[trigger] data@[k]).0.wf() && data@[k].0.has_shape(
                        self.conv_layer.input_channels as int,
                        self.conv_layer.input_size as int,
                        self.conv_layer.input_size as int,
                    ) && data@[k].1@.len() == self.fully_con_layer.out_size(),
                0 <= e,
                epochs >= 0 ==> e <= epochs,
                epochs < 0 ==> e == 0,
                data@.to_multiset() == training_data@.to_multiset(),
                data@.len() == training_data@.len(),
                perms.len() == e as int,
                forall|j: int|
                    0 <= j < perms.len() ==> (#[trigger] perms[j]).to_multiset()
                        == training_data@.to_multiset() && perms[j].len() == training_data@.len(),
                cnn_sgd_rel(
                    cnn_state(*old(self)),
                    cnn_state(*self),
                    perms,
                    0,
                    old(self).mini_batch_size as int,
                    n_train as int,
                ),
            decreases epochs - e,
        {
            let ghost before = data@;
            shuffle_vec(&mut self.rng, &mut data);
            proof {
                lemma_shuffle_keeps_cnn_shapes(
                    before,
                    data@,
                    self.conv_layer.input_channels as int,
                    self.conv_layer.input_size as int,
                    self.fully_con_layer.out_size(),
                );
                vstd::seq_lib::lemma_multiset_commutative(before, data@);
            }
            let ghost pe = cnn_state(*self);
            let mut start: usize = 0;
            while start < n_train
                invariant
                    self.wf(),
                    self.mini_batch_size == old(self).mini_batch_size,
                    self.flatten_layer == old(self).flatten_layer,
                    self.conv_layer.n_filters() == old(self).conv_layer.n_filters(),
                    self.conv_layer.input_channels == old(self).conv_layer.input_channels,
                    self.conv_layer.input_size == old(self).conv_layer.input_size,
                    self.conv_layer.output_size == old(self).conv_layer.output_size,
                    self.fully_con_layer.parameters.n_layers() == old(self).fully_con_layer.parameters.n_layers(),
                    self.fully_con_layer.in_size() == old(self).fully_con_layer.in_size(),
                    self.fully_con_layer.out_size() == old(self).fully_con_layer.out_size(),
                    n_train == data@.len(),
                    1 <= n_train <= 0x7fffffffffffffff,
                    forall|k: int|
                        0 <= k < data@.len() ==> (#[trigger] data@[k]).0.wf()
                            && data@[k].0.has_shape(
                            self.conv_layer.input_channels as int,
                            self.conv_layer.input_size as int,
                            self.conv_layer.input_size as int,
                        ) && data@[k].1@.len() == self.fully_con_layer.out_size(),
                    start <= n_train,
                    forall|q: CnnState|
                        cnn_batches_rel(
                            cnn_state(*self),
                            q,
                            data@,
                            start as int,
                            old(self).mini_batch_size as int,
                            n_train as int,
                        ) ==> #[trigger] cnn_batches_rel(
                            pe,
                            q,
                            data@,
                            0,
                            old(self).mini_batch_size as int,
                            n_train as int,
                        ),
                decreases n_train - start,
            {
                let remaining = n_train - start;
                let end = if remaining > self.mini_batch_size {
                    start + self.mini_batch_size
                } else {
                    n_train
                };
                let ghost pcur = cnn_state(*self);
                self.update_mini_batch(&data, start, end, n_train);
                proof {
                    let ghost pnew = cnn_state(*self);
                    let ghost endi: int = crate::neural_network::batch_end(
                        start as int,
                        old(self).mini_batch_size as int,
                        data@.len() as int,
                    );
                    assert(end as int == endi);
                    assert(cnn_batch_rel(pcur, pnew, data@, start as int, endi, n_train as int));
                    assert forall|q: CnnState|
                        cnn_batches_rel(
                            pnew,
                            q,
                            data@,
                            endi,
                            old(self).mini_batch_size as int,
                            n_train as int,
                        ) implies #[trigger] cnn_batches_rel(
                        pe,
                        q,
                        data@,
                        0,
                        old(self).mini_batch_size as int,
                        n_train as int,
                    ) by {
                        lemma_cnn_batches_rel_step(
                            pcur,
                            pnew,
                            q,
                            data@,
                            start as int,
                            endi,
                            old(self).mini_batch_size as int,
                            n_train as int,
                        );
                    };
                }
                start = end;
            }
            proof {
                assert(cnn_batches_rel(
                    cnn_state(*self),
                    cnn_state(*self),
                    data@,
                    n_train as int,
                    old(self).mini_batch_size as int,
                    n_train as int,
                ));
                assert(cnn_epoch_rel(
                    pe,
                    cnn_state(*self),
                    data@,
                    old(self).mini_batch_size as int,
                    n_train as int,
                ));
                lemma_cnn_sgd_rel_snoc(
                    cnn_state(*old(self)),
                    pe,
                    cnn_state(*self),
                    perms,
                    data@,
                    0,
                    old(self).mini_batch_size as int,
                    n_train as int,
                );
                perms = perms.push(data@);
            }
            e += 1;
        }
        Ok(())
    }

    /// Counts the test pictures whose predicted class (the first argmax of
    /// the network output) matches the label. Fails when a picture does not
    /// have the configured shape.
    pub fn evaluate(&self, test_data: Vec<(Tensor, usize)>) -> (out: Result<usize, ShapeError>)
        requires
            self.wf(),
        ensures
            out.is_err() <==> exists|k: int|
                0 <= k < test_data@.len() && !((#[trigger] test_data@[k]).0.wf()
                    && test_data@[k].0.has_shape(
                    self.conv_layer.input_channels as int,
                    self.conv_layer.input_size as int,
                    self.conv_layer.input_size as int,
                )),
            match out {
                Ok(c) => c as int == cnn_eval_count(
                    self.conv_layer,
                    self.flatten_layer,
                    self.fully_con_layer.parameters,
                    test_data@,
                    test_data@.len() as int,
                ),
                Err(e) => e == ShapeError::WrongShape,
            },
    {
        let mut i: usize = 0;
        while i < test_data.len()
            invariant
                self.wf(),
                i <= test_data@.len(),
                forall|k: int|
                    0 <= k < i ==> (#[trigger] test_data@[k]).0.wf() && test_data@[k].0.has_shape(
                        self.conv_layer.input_channels as int,
                        self.conv_layer.input_size as int,
                        self.conv_layer.input_size as int,
                    ),
            decreases test_data@.len() - i,
        {
            if !test_data[i].0.has_dims(
                self.conv_layer.input_channels,
                self.conv_layer.input_size,
                self.conv_layer.input_size,
            ) {
                return Err(ShapeError::WrongShape);
            }
            i += 1;
        }
        let mut sum: usize = 0;
        let mut k: usize = 0;
        while k < test_data.len()
            invariant
                self.wf(),
                k <= test_data@.len(),
                forall|j: int|
                    0 <= j < test_data@.len() ==> (#[trigger] test_data@[j]).0.wf()
                        && test_data@[j].0.has_shape(
                        self.conv_layer.input_channels as int,
                        self.conv_layer.input_size as int,
                        self.conv_layer.input_size as int,
                    ),
                sum <= k,
                sum as int == cnn_eval_count(
                    self.conv_layer,
                    self.flatten_layer,
                    self.fully_con_layer.parameters,
                    test_data@,
                    k as int,
                ),
            decreases test_data@.len() - k,
        {
            let v = self.forward_features(&test_data[k].0);
            let output = feedforward_chain(
                &self.fully_con_layer.architecture,
                &self.fully_con_layer.parameters,
                v,
            );
            let pred = argmax(&output);
            if pred == test_data[k].1 {
                sum += 1;
            }
            k += 1;
        }
        Ok(sum)
    }
}

/// The flattening of the pooled convolutional output is exactly the flat
/// feature vector of the input picture.
proof fn lemma_flat_is_cnn(
    cl: ConvoultionalLayer,
    fl: FlattenLayer,
    x: Tensor,
    t: Tensor,
    v: Seq<i64>,
)
    requires
        cl.wf(),
        fl.wf(),
        fl.h == cl.output_size,
        fl.w == cl.output_size,
        fl.d == cl.n_filters(),
        t.wf(),
        t.has_shape(cl.n_filters(), cl.output_size as int, cl.output_size as int),
        forall|f: int, r: int, c: int|
            0 <= f < cl.n_filters() && 0 <= r < cl.output_size && 0 <= c < cl.output_size
                ==> #[trigger] t.chan(f).at(r, c) == cl.pooled_cell(x, f, r, c),
        fl.flatten_rel(t, v),
    ensures
        vi(v) == cnn_flat(cl, fl, x),
{
    crate::flatten_layer::lemma_size_steps(fl.w as int, fl.h as int, fl.d as int);
    assert(cl.output_size >= 1) by {
        assert(cl.conv_size() >= 2);
        assert(cl.conv_size() / 2 >= 1) by (nonlinear_arith)
            requires
                cl.conv_size() >= 2,
        ;
    };
    assert forall|k: int| 0 <= k < v.len() implies v[k] as int == cnn_flat(cl, fl, x)[k] by {
        lemma_flat_decompose(fl.w as int, fl.h as int, fl.d as int, k);
        let hw = (fl.h as int) * (fl.w as int);
        let ch = k / hw;
        let col = (k % hw) / (fl.h as int);
        let row = k % hw % (fl.h as int);
        assert(k == fl.flat_idx(ch, col, row));
        assert(v[fl.flat_idx(ch, col, row)] as int == t.chan(ch).at(row, col));
        assert(t.chan(ch).at(row, col) == cl.pooled_cell(x, ch, row, col));
    };
    assert(vi(v) =~= cnn_flat(cl, fl, x));
}

/// The pooling pick over a concrete pre-pool map agrees with the pick over
/// its cell function.
proof fn lemma_pick_fun(m: Matrix, g: spec_fn(int, int) -> int, r: int, c: int)
    requires
        m.at(2 * r, 2 * c) == g(2 * r, 2 * c),
        m.at(2 * r + 1, 2 * c) == g(2 * r + 1, 2 * c),
        m.at(2 * r, 2 * c + 1) == g(2 * r, 2 * c + 1),
        m.at(2 * r + 1, 2 * c + 1) == g(2 * r + 1, 2 * c + 1),
    ensures
        crate::kernels::pick_q(m, r, c) == pick_q_fun(g, r, c),
{
}

/// Row sums of the two error-map forms agree when the cells agree.
proof fn lemma_cl_row_sums_eq(
    cl: ConvoultionalLayer,
    fl: FlattenLayer,
    p: Parameters,
    x: Tensor,
    y: Vec<i64>,
    cache: crate::convolutional_layer::TrainingCache,
    bi: Tensor,
    f: int,
    i: int,
    n: int,
)
    requires
        0 <= n <= cl.conv_size(),
        0 <= i < cl.conv_size(),
        forall|i2: int, j2: int|
            0 <= i2 < cl.conv_size() && 0 <= j2 < cl.conv_size() ==> #[trigger] cl.d_cell(
                cache,
                bi,
                f,
                i2,
                j2,
            ) == cl_d_cell(cl, fl, p, x, y, f, i2, j2),
    ensures
        cl.d_row_sum(cache, bi, f, i, n) == cl_d_row_sum(cl, fl, p, x, y, f, i, n),
    decreases n,
{
    if n > 0 {
        lemma_cl_row_sums_eq(cl, fl, p, x, y, cache, bi, f, i, n - 1);
    }
}

/// Full sums of the two error-map forms agree when the cells agree.
proof fn lemma_cl_sums_eq(
    cl: ConvoultionalLayer,
    fl: FlattenLayer,
    p: Parameters,
    x: Tensor,
    y: Vec<i64>,
    cache: crate::convolutional_layer::TrainingCache,
    bi: Tensor,
    f: int,
    n: int,
)
    requires
        0 <= n <= cl.conv_size(),
        forall|i2: int, j2: int|
            0 <= i2 < cl.conv_size() && 0 <= j2 < cl.conv_size() ==> #[trigger] cl.d_cell(
                cache,
                bi,
                f,
                i2,
                j2,
            ) == cl_d_cell(cl, fl, p, x, y, f, i2, j2),
    ensures
        cl.d_sum(cache, bi, f, n) == cl_d_sum(cl, fl, p, x, y, f, n),
    decreases n,
{
    if n > 0 {
        lemma_cl_sums_eq(cl, fl, p, x, y, cache, bi, f, n - 1);
        lemma_cl_row_sums_eq(cl, fl, p, x, y, cache, bi, f, n - 1, cl.conv_size());
    }
}

/// For one example, the backward pass of the convolutional layer (phrased
/// over its training cache and the routed gradient tensor) computes exactly
/// the example gradients phrased over the example alone.
proof fn lemma_cl_example_grads(
    cl: ConvoultionalLayer,
    fl: FlattenLayer,
    p: Parameters,
    x: Tensor,
    y: Vec<i64>,
    cache: crate::convolutional_layer::TrainingCache,
    bi: Tensor,
    f: int,
)
    requires
        cl.wf(),
        fl.h == cl.output_size,
        fl.w == cl.output_size,
        fl.d == cl.n_filters(),
        cl.cache_wf(cache),
        0 <= f < cl.n_filters(),
        forall|ff: int, r: int, c: int|
            0 <= ff < cl.n_filters() && 0 <= r < cl.conv_size() && 0 <= c < cl.conv_size()
                ==> #[trigger] cache.z.chan(ff).at(r, c) == cl.z_cell(x, ff, r, c),
        forall|ch: int, r: int, c: int|
            0 <= ch < cl.input_channels && 0 <= r < cl.input_size && 0 <= c < cl.input_size
                ==> #[trigger] cache.activation.chan(ch).at(r, c) == x.chan(ch).at(r, c),
        forall|ff: int, r: int, c: int|
            0 <= ff < cl.n_filters() && 0 <= r < cl.output_size && 0 <= c < cl.output_size
                ==> #[trigger] bi.chan(ff).at(r, c) == back_cell(cl, fl, p, x, y, ff, r, c),
    ensures
        cl.d_sum(cache, bi, f, cl.conv_size()) == cl_d_sum(cl, fl, p, x, y, f, cl.conv_size()),
        forall|ch: int, r: int, c: int|
            0 <= ch < cl.input_channels && 0 <= r < FILTER_SIZE && 0 <= c < FILTER_SIZE
                ==> crate::kernels::conv_fun_cell(
                cache.activation.chan(ch),
                cl.d_fun(cache, bi, f),
                r,
                c,
                cl.conv_size(),
                cl.conv_size(),
            ) == #[trigger] cl_grad_cell(cl, fl, p, x, y, f, ch, r, c),
{
    lemma_fundamental_div_mod(cl.conv_size(), 2);
    assert(cl.conv_size() == 2 * cl.output_size);
    assert forall|i: int, j: int|
        0 <= i < cl.conv_size() && 0 <= j < cl.conv_size() implies #[trigger] cl.d_cell(
        cache,
        bi,
        f,
        i,
        j,
    ) == cl_d_cell(cl, fl, p, x, y, f, i, j) by {
        crate::kernels::lemma_pos_window(i, j, cl.output_size as int, cl.output_size as int);
        lemma_pick_fun(cache.z.chan(f), z_fun(cl, x, f), i / 2, j / 2);
    };
    lemma_cl_sums_eq(cl, fl, p, x, y, cache, bi, f, cl.conv_size());
    assert forall|ch: int, r: int, c: int|
        0 <= ch < cl.input_channels && 0 <= r < FILTER_SIZE && 0 <= c
            < FILTER_SIZE implies crate::kernels::conv_fun_cell(
        cache.activation.chan(ch),
        cl.d_fun(cache, bi, f),
        r,
        c,
        cl.conv_size(),
        cl.conv_size(),
    ) == #[trigger] cl_grad_cell(cl, fl, p, x, y, f, ch, r, c) by {
        assert forall|i: int, j: int|
            0 <= i < cl.conv_size() && 0 <= j < cl.conv_size() implies #[trigger] (cl.d_fun(
            cache,
            bi,
            f,
        ))(i, j) == (cl_d_fun(cl, fl, p, x, y, f))(i, j) by {
            assert(cl.d_cell(cache, bi, f, i, j) == cl_d_cell(cl, fl, p, x, y, f, i, j));
        };
        assert forall|i: int, j: int|
            0 <= i < cl.conv_size() && 0 <= j < cl.conv_size()
                implies #[trigger] cache.activation.chan(ch).at(r + i, c + j) == x.chan(ch).at(
            r + i,
            c + j,
        ) by {
            assert(0 <= r + i < cl.input_size && 0 <= c + j < cl.input_size);
        };
        crate::kernels::lemma_conv_fun_congruence(
            cache.activation.chan(ch),
            x.chan(ch),
            cl.d_fun(cache, bi, f),
            cl_d_fun(cl, fl, p, x, y, f),
            r,
            c,
            cl.conv_size(),
            cl.conv_size(),
        );
    };
}

/// A permutation keeps the example shapes.
proof fn lemma_shuffle_keeps_cnn_shapes(
    before: Seq<(Tensor, Vec<i64>)>,
    after: Seq<(Tensor, Vec<i64>)>,
    channels: int,
    size: int,
    out_size: int,
)
    requires
        after.to_multiset() == before.to_multiset(),
        forall|k: int|
            0 <= k < before.len() ==> (#[trigger] before[k]).0.wf() && before[k].0.has_shape(
                channels,
                size,
                size,
            ) && before[k].1@.len() == out_size,
    ensures
        forall|k: int|
            0 <= k < after.len() ==> (#[trigger] after[k]).0.wf() && after[k].0.has_shape(
                channels,
                size,
                size,
            ) && after[k].1@.len() == out_size,
{
    assert forall|k: int|
        0 <= k < after.len() implies (#[trigger] after[k]).0.wf() && after[k].0.has_shape(
        channels,
        size,
        size,
    ) && after[k].1@.len() == out_size by {
        after.to_multiset_ensures();
        before.to_multiset_ensures();
        assert(after.to_multiset().count(after[k]) > 0);
        assert(before.contains(after[k]));
        let j = choose|j: int| 0 <= j < before.len() && before[j] == after[k];
        assert(before[j].0.wf());
    };
}

} // verus!
