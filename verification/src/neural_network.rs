//! The plain fully-connected network: mini-batch stochastic gradient descent
//! with back-propagation, and evaluation by argmax match counting.
//!
//! The accumulation law is part of `update_mini_batch`'s contract: the
//! gradient applied at the update is exactly the elementwise saturating sum
//! of the per-example gradients of the batch, in batch order.

use vstd::prelude::*;

use crate::errors::ShapeError;
use crate::fixed::{fadd_s, fdivn, fdivn_s, fmul_s, fsub_s};
use crate::math::{argmax, argmax_s};
use crate::matrix::{mat_add, vec_add, vec_zeros, vi, Matrix};
use crate::network_architecture::{
    backprop_core, delta_s, feedforward_chain, ff_s, NetworkArchitecture, Parameters,
};
use crate::regularization::Regularization;
use crate::rng::{rand_range_i64, seeded_rng, shuffle_vec};
use crate::math::isqrt;

verus! {

/// The accumulated bias gradient at layer `n`, entry `i`, over the first `k`
/// examples of a batch: the saturating sum of the per-example errors.
pub open spec fn acc_nabla_b<T: NetworkArchitecture>(
    p: Parameters,
    exs: Seq<(Vec<i64>, Vec<i64>)>,
    k: int,
    n: int,
    i: int,
) -> int
    decreases k,
{
    if k <= 0 {
        0
    } else {
        fadd_s(
            acc_nabla_b::<T>(p, exs, k - 1, n, i),
            delta_s::<T>(p, vi(exs[k - 1].0@), vi(exs[k - 1].1@), n)[i],
        )
    }
}

/// The accumulated weight gradient at layer `n`, position (`r`, `c`), over
/// the first `k` examples of a batch.
pub open spec fn acc_nabla_w<T: NetworkArchitecture>(
    p: Parameters,
    exs: Seq<(Vec<i64>, Vec<i64>)>,
    k: int,
    n: int,
    r: int,
    c: int,
) -> int
    decreases k,
{
    if k <= 0 {
        0
    } else {
        fadd_s(
            acc_nabla_w::<T>(p, exs, k - 1, n, r, c),
            fmul_s(
                delta_s::<T>(p, vi(exs[k - 1].0@), vi(exs[k - 1].1@), n)[r],
                ff_s::<T>(p, vi(exs[k - 1].0@), n)[c],
            ),
        )
    }
}

/// The number of examples among the first `k` whose predicted class (the
/// first argmax of the network output) equals the label.
pub open spec fn eval_count<T: NetworkArchitecture>(
    p: Parameters,
    data: Seq<(Vec<i64>, usize)>,
    k: int,
) -> int
    decreases k,
{
    if k <= 0 {
        0
    } else {
        eval_count::<T>(p, data, k - 1) + (if argmax_s(
            ff_s::<T>(p, vi(data[k - 1].0@), p.n_layers()),
        ) == data[k - 1].1 as int {
            1int
        } else {
            0int
        })
    }
}

/// One accumulate/update cycle on `exs[start..end]` relates the parameter
/// chains before (`p`) and after (`q`): every weight is decayed and moved by
/// the averaged accumulated gradient, every bias moved likewise, shapes kept.
pub open spec fn batch_rel<T: NetworkArchitecture, R: Regularization>(
    p: Parameters,
    q: Parameters,
    exs: Seq<(Vec<i64>, Vec<i64>)>,
    start: int,
    end: int,
    eta: int,
    lambda: int,
    n_train: int,
) -> bool {
    &&& q.wf()
    &&& q.n_layers() == p.n_layers()
    &&& forall|n: int|
        0 <= n < p.n_layers() ==> #[trigger] q.layer_out(n) == p.layer_out(n) && q.layer_in(n)
            == p.layer_in(n)
    &&& forall|n: int, r: int, c: int|
        0 <= n < p.n_layers() && 0 <= r < p.layer_out(n) && 0 <= c < p.layer_in(n)
            ==> #[trigger] q.weights@[n].at(r, c) == fsub_s(
            R::reg_s(p.weights@[n].at(r, c), lambda, eta, n_train),
            fmul_s(
                fdivn_s(eta, end - start),
                acc_nabla_w::<T>(p, exs.subrange(start, end), end - start, n, r, c),
            ),
        )
    &&& forall|n: int, i: int|
        0 <= n < p.n_layers() && 0 <= i < p.layer_out(n) ==> #[trigger] q.biases@[n]@[i] as int
            == fsub_s(
            p.biases@[n]@[i] as int,
            fmul_s(
                fdivn_s(eta, end - start),
                acc_nabla_b::<T>(p, exs.subrange(start, end), end - start, n, i),
            ),
        )
}

/// Where the batch beginning at `start` ends: one batch further, or at the
/// end of the data for a smaller final batch.
pub open spec fn batch_end(start: int, mbs: int, len: int) -> int {
    if start + mbs < len {
        start + mbs
    } else {
        len
    }
}

/// `q` results from `p` by the accumulate/update cycles of all consecutive
/// mini-batches of `data` from position `start` on (the last batch may be
/// smaller).
pub open spec fn batches_rel<T: NetworkArchitecture, R: Regularization>(
    p: Parameters,
    q: Parameters,
    data: Seq<(Vec<i64>, Vec<i64>)>,
    start: int,
    mbs: int,
    eta: int,
    lambda: int,
    n_train: int,
) -> bool
    decreases data.len() - start,
{
    if start >= data.len() || start < 0 || mbs < 1 {
        p == q
    } else {
        exists|mid: Parameters|
            #[trigger] batch_rel::<T, R>(
                p,
                mid,
                data,
                start,
                batch_end(start, mbs, data.len() as int),
                eta,
                lambda,
                n_train,
            ) && batches_rel::<T, R>(
                mid,
                q,
                data,
                batch_end(start, mbs, data.len() as int),
                mbs,
                eta,
                lambda,
                n_train,
            )
    }
}

/// `q` results from `p` by one full pass over the permutation `perm`.
pub open spec fn epoch_rel<T: NetworkArchitecture, R: Regularization>(
    p: Parameters,
    q: Parameters,
    perm: Seq<(Vec<i64>, Vec<i64>)>,
    mbs: int,
    eta: int,
    lambda: int,
    n_train: int,
) -> bool {
    batches_rel::<T, R>(p, q, perm, 0, mbs, eta, lambda, n_train)
}

/// One cycle followed by the remaining batches composes into the whole run
/// from `start`.
proof fn lemma_batches_rel_step<T: NetworkArchitecture, R: Regularization>(
    p: Parameters,
    mid: Parameters,
    q: Parameters,
    data: Seq<(Vec<i64>, Vec<i64>)>,
    start: int,
    end: int,
    mbs: int,
    eta: int,
    lambda: int,
    n_train: int,
)
    requires
        0 <= start < data.len(),
        mbs >= 1,
        end == batch_end(start, mbs, data.len() as int),
        batch_rel::<T, R>(p, mid, data, start, end, eta, lambda, n_train),
        batches_rel::<T, R>(mid, q, data, end, mbs, eta, lambda, n_train),
    ensures
        batches_rel::<T, R>(p, q, data, start, mbs, eta, lambda, n_train),
{
    let be = batch_end(start, mbs, data.len() as int);
    assert(batch_rel::<T, R>(p, mid, data, start, be, eta, lambda, n_train)
        && batches_rel::<T, R>(mid, q, data, be, mbs, eta, lambda, n_train));
}

/// `q` results from `p` by the epoch passes `perms[e..]`, in order.
pub open spec fn sgd_rel<T: NetworkArchitecture, R: Regularization>(
    p: Parameters,
    q: Parameters,
    perms: Seq<Seq<(Vec<i64>, Vec<i64>)>>,
    e: int,
    mbs: int,
    eta: int,
    lambda: int,
    n_train: int,
) -> bool
    decreases perms.len() - e,
{
    if e < 0 || e >= perms.len() {
        p == q
    } else {
        exists|mid: Parameters|
            #[trigger] epoch_rel::<T, R>(p, mid, perms[e], mbs, eta, lambda, n_train)
                && sgd_rel::<T, R>(mid, q, perms, e + 1, mbs, eta, lambda, n_train)
    }
}

/// Appending one epoch pass to a chain of epoch passes extends the relation.
proof fn lemma_sgd_rel_snoc<T: NetworkArchitecture, R: Regularization>(
    p0: Parameters,
    cur: Parameters,
    next: Parameters,
    perms: Seq<Seq<(Vec<i64>, Vec<i64>)>>,
    perm: Seq<(Vec<i64>, Vec<i64>)>,
    e: int,
    mbs: int,
    eta: int,
    lambda: int,
    n_train: int,
)
    requires
        0 <= e <= perms.len(),
        sgd_rel::<T, R>(p0, cur, perms, e, mbs, eta, lambda, n_train),
        epoch_rel::<T, R>(cur, next, perm, mbs, eta, lambda, n_train),
    ensures
        sgd_rel::<T, R>(p0, next, perms.push(perm), e, mbs, eta, lambda, n_train),
    decreases perms.len() - e,
{
    let longer = perms.push(perm);
    if e >= perms.len() {
        assert(p0 == cur);
        assert(longer[e] == perm);
        assert(sgd_rel::<T, R>(next, next, longer, e + 1, mbs, eta, lambda, n_train));
        assert(epoch_rel::<T, R>(p0, next, longer[e], mbs, eta, lambda, n_train)
            && sgd_rel::<T, R>(next, next, longer, e + 1, mbs, eta, lambda, n_train));
    } else {
        let mid = choose|mid: Parameters|
            #[trigger] epoch_rel::<T, R>(p0, mid, perms[e], mbs, eta, lambda, n_train)
                && sgd_rel::<T, R>(mid, cur, perms, e + 1, mbs, eta, lambda, n_train);
        lemma_sgd_rel_snoc::<T, R>(mid, cur, next, perms, perm, e + 1, mbs, eta, lambda, n_train);
        assert(longer[e] == perms[e]);
        assert(epoch_rel::<T, R>(p0, mid, longer[e], mbs, eta, lambda, n_train)
            && sgd_rel::<T, R>(mid, next, longer, e + 1, mbs, eta, lambda, n_train));
    }
}

/// A fully-connected network with its own seeded pseudo-random source.
pub struct NeuralNetwork<T: NetworkArchitecture, R: Regularization> {
    pub parameters: Parameters,
    pub architecture: T,
    pub regularization: R,
    pub rng: rand::rngs::StdRng,
}

impl<T: NetworkArchitecture, R: Regularization> NeuralNetwork<T, R> {
    /// The parameter chain is well-formed and nonempty.
    pub open spec fn wf(self) -> bool {
        self.parameters.wf() && self.parameters.n_layers() >= 1
    }

    /// The width of the network's input vectors.
    pub open spec fn in_size(self) -> int {
        self.parameters.in_size()
    }

    /// The width of the network's output vectors.
    pub open spec fn out_size(self) -> int {
        self.parameters.out_size()
    }

    /// Builds a network for the given layer sizes, weights drawn uniformly
    /// from `(-1/sqrt(fan_in), 1/sqrt(fan_in))` in fixed point, biases zero,
    /// with a deterministic generator seeded by `seed`.
    pub fn new(sizes: Vec<usize>, architecture: T, regularization: R, seed: u64) -> (net: Self)
        requires
            sizes@.len() >= 2,
            forall|i: int| 0 <= i < sizes@.len() ==> 1 <= #[trigger] sizes@[i] <= 4294967296,
        ensures
            net.wf(),
            net.parameters.n_layers() == sizes@.len() - 1,
            forall|n: int|
                0 <= n < sizes@.len() - 1 ==> net.parameters.layer_in(n) == sizes@[n]
                    && #[trigger] net.parameters.layer_out(n) == sizes@[n + 1],
            forall|n: int, i: int|
                0 <= n < sizes@.len() - 1 && 0 <= i < sizes@[n + 1]
                    ==> #[trigger] net.parameters.biases@[n]@[i] == 0i64,
            forall|n: int, r: int, c: int|
                0 <= n < sizes@.len() - 1 && 0 <= r < sizes@[n + 1] && 0 <= c < sizes@[n]
                    ==> -(crate::fixed::SCALE as int) <= #[trigger] net.parameters.weights@[n].at(
                    r,
                    c,
                ) && net.parameters.weights@[n].at(r, c) < crate::fixed::SCALE as int,
            // the fan-in-scaled initialization range: |w| never exceeds
            // 1/sqrt(sizes[n]) in fixed point
            forall|n: int, r: int, c: int|
                0 <= n < sizes@.len() - 1 && 0 <= r < sizes@[n + 1] && 0 <= c < sizes@[n]
                    ==> #[trigger] (net.parameters.weights@[n].at(r, c)
                    * net.parameters.weights@[n].at(r, c)) <= 4294967296int / (sizes@[n] as int),
            net.architecture == architecture,
            net.regularization == regularization,
    {
        let mut rng = seeded_rng(seed);
        let mut weights: Vec<Matrix> = Vec::new();
        let mut biases: Vec<Vec<i64>> = Vec::new();
        let n_layers = sizes.len() - 1;
        let mut n: usize = 0;
        while n < n_layers
            invariant
                sizes@.len() >= 2,
                forall|i: int| 0 <= i < sizes@.len() ==> 1 <= #[trigger] sizes@[i] <= 4294967296,
                n_layers == sizes@.len() - 1,
                n <= n_layers,
                weights@.len() == n,
                biases@.len() == n,
                forall|m: int|
                    0 <= m < n ==> (#[trigger] weights@[m]).wf() && weights@[m].rows == sizes@[m
                        + 1] && weights@[m].cols == sizes@[m],
                forall|m: int, r: int, c: int|
                    0 <= m < n && 0 <= r < sizes@[m + 1] && 0 <= c < sizes@[m] ==> -(
                    crate::fixed::SCALE as int) <= #[trigger] weights@[m].at(r, c)
                        && weights@[m].at(r, c) < crate::fixed::SCALE as int,
                forall|m: int, r: int, c: int|
                    0 <= m < n && 0 <= r < sizes@[m + 1] && 0 <= c < sizes@[m]
                        ==> #[trigger] (weights@[m].at(r, c) * weights@[m].at(r, c))
                        <= 4294967296int / (sizes@[m] as int),
                forall|m: int| 0 <= m < n ==> (#[trigger] biases@[m])@.len() == sizes@[m + 1],
                forall|m: int, i: int|
                    0 <= m < n && 0 <= i < sizes@[m + 1] ==> #[trigger] biases@[m]@[i] == 0i64,
            decreases n_layers - n,
        {
            let rows = sizes[n + 1];
            let cols = sizes[n];
            let scale_sq: u64 = 4294967296u64 / (cols as u64);
            proof {
                assert(scale_sq as int >= 1) by (nonlinear_arith)
                    requires
                        scale_sq as int == 4294967296int / (cols as int),
                        1 <= cols as int <= 4294967296,
                ;
            }
            let s0 = isqrt(scale_sq);
            proof {
                assert(s0 >= 1) by {
                    if s0 == 0 {
                        assert((s0 + 1) * (s0 + 1) == 1) by (nonlinear_arith)
                            requires
                                s0 == 0u64,
                        ;
                        assert(false);
                    }
                };
            }
            let scale: i64 = s0 as i64;
            let mut data: Vec<Vec<i64>> = Vec::new();
            let mut r: usize = 0;
            while r < rows
                invariant
                    1 <= scale <= 65536,
                    r <= rows,
                    data@.len() == r,
                    forall|i: int| 0 <= i < r ==> (#[trigger] data@[i])@.len() == cols,
                    forall|i: int, j: int|
                        0 <= i < r && 0 <= j < cols ==> -scale <= #[trigger] data@[i]@[j]
                            && data@[i]@[j] < scale,
                decreases rows - r,
            {
                let mut row: Vec<i64> = Vec::new();
                let mut c: usize = 0;
                while c < cols
                    invariant
                        1 <= scale <= 65536,
                        c <= cols,
                        row@.len() == c,
                        forall|j: int|
                            0 <= j < c ==> -scale <= #[trigger] row@[j] && row@[j] < scale,
                    decreases cols - c,
                {
                    row.push(rand_range_i64(&mut rng, -scale, scale));
                    c += 1;
                }
                data.push(row);
                r += 1;
            }
            proof {
                assert forall|r2: int, c2: int|
                    0 <= r2 < rows && 0 <= c2 < cols implies -(crate::fixed::SCALE as int)
                    <= data@[r2]@[c2] as int && data@[r2]@[c2] < crate::fixed::SCALE
                    && #[trigger] ((data@[r2]@[c2] as int) * (data@[r2]@[c2] as int))
                    <= 4294967296int / (sizes@[n as int] as int) by {
                    let w = data@[r2]@[c2] as int;
                    assert(w * w <= (scale as int) * (scale as int)) by (nonlinear_arith)
                        requires
                            -(scale as int) <= w <= scale as int,
                    ;
                };
            }
            weights.push(Matrix { rows, cols, data });
            biases.push(vec_zeros(rows));
            n += 1;
        }
        NeuralNetwork {
            parameters: Parameters::new(weights, biases),
            architecture,
            regularization,
            rng,
        }
    }

    /// One full backward pass on a labelled example: bias gradients and
    /// weight gradients, layer by layer. Fails when the example does not
    /// match the configured widths.
    pub fn backprop(&self, x: &Vec<i64>, y: &Vec<i64>) -> (out: Result<
        (Vec<Vec<i64>>, Vec<Matrix>),
        ShapeError,
    >)
        requires
            self.wf(),
        ensures
            out.is_err() <==> (x@.len() != self.in_size() || y@.len() != self.out_size()),
            match out {
                Ok(r) => {
                    &&& crate::network_architecture::nabla_b_rel::<T>(
                        self.parameters,
                        vi(x@),
                        vi(y@),
                        r.0@,
                    )
                    &&& crate::network_architecture::nabla_w_rel::<T>(
                        self.parameters,
                        vi(x@),
                        vi(y@),
                        r.1@,
                    )
                },
                Err(e) => e == ShapeError::WrongShape,
            },
    {
        if x.len() != self.parameters.weights[0].cols {
            return Err(ShapeError::WrongShape);
        }
        let last = self.parameters.weights.len() - 1;
        proof {
            assert(self.parameters.weights@[last as int].wf());
        }
        if y.len() != self.parameters.weights[last].rows {
            return Err(ShapeError::WrongShape);
        }
        let (nb, nw, _ig) = backprop_core(&self.architecture, &self.parameters, x, y);
        Ok((nb, nw))
    }

    /// One accumulate/update cycle on the batch `data[start..end]`: gradient
    /// accumulators start at zero, every example's gradients are added in
    /// batch order, and the parameters are then updated with the decayed
    /// weights and the averaged accumulated gradients. The contract pins the
    /// applied gradient to the elementwise sum of the per-example gradients.
    pub fn update_mini_batch(
        &mut self,
        data: &Vec<(Vec<i64>, Vec<i64>)>,
        start: usize,
        end: usize,
        eta: i64,
        lambda: i64,
        n_train: usize,
    )
        requires
            old(self).wf(),
            start < end <= data@.len(),
            end - start <= 0x7fffffffffffffff,
            1 <= n_train <= 0x7fffffffffffffff,
            forall|k: int|
                start <= k < end ==> (#[trigger] data@[k]).0@.len() == old(self).in_size()
                    && data@[k].1@.len() == old(self).out_size(),
        ensures
            final(self).wf(),
            final(self).parameters.n_layers() == old(self).parameters.n_layers(),
            final(self).in_size() == old(self).in_size(),
            final(self).out_size() == old(self).out_size(),
            final(self).architecture == old(self).architecture,
            final(self).regularization == old(self).regularization,
            forall|n: int|
                0 <= n < old(self).parameters.n_layers() ==> #[trigger] final(self).parameters.layer_out(n) == old(self).parameters.layer_out(n) && final(self).parameters.layer_in(n) == old(self).parameters.layer_in(n),
            forall|n: int, r: int, c: int|
                0 <= n < old(self).parameters.n_layers() && 0 <= r < old(self).parameters.layer_out(
                    n,
                ) && 0 <= c < old(self).parameters.layer_in(n) ==> #[trigger] final(self).parameters.weights@[n].at(r, c) == fsub_s(
                    R::reg_s(
                        old(self).parameters.weights@[n].at(r, c),
                        lambda as int,
                        eta as int,
                        n_train as int,
                    ),
                    fmul_s(
                        fdivn_s(eta as int, end - start),
                        acc_nabla_w::<T>(
                            old(self).parameters,
                            data@.subrange(start as int, end as int),
                            end - start,
                            n,
                            r,
                            c,
                        ),
                    ),
                ),
            forall|n: int, i: int|
                0 <= n < old(self).parameters.n_layers() && 0 <= i < old(self).parameters.layer_out(
                    n,
                ) ==> #[trigger] final(self).parameters.biases@[n]@[i] as int == fsub_s(
                    old(self).parameters.biases@[n]@[i] as int,
                    fmul_s(
                        fdivn_s(eta as int, end - start),
                        acc_nabla_b::<T>(
                            old(self).parameters,
                            data@.subrange(start as int, end as int),
                            end - start,
                            n,
                            i,
                        ),
                    ),
                ),
    {
        let ghost batch = data@.subrange(start as int, end as int);
        let n_layers = self.parameters.weights.len();
        // zeroed accumulators, shaped like the parameters
        let mut nabla_w: Vec<Matrix> = Vec::new();
        let mut nabla_b: Vec<Vec<i64>> = Vec::new();
        let mut n: usize = 0;
        while n < n_layers
            invariant
                self.wf(),
                n_layers == self.parameters.n_layers(),
                n <= n_layers,
                nabla_w@.len() == n,
                nabla_b@.len() == n,
                forall|m: int|
                    0 <= m < n ==> (#[trigger] nabla_w@[m]).wf() && nabla_w@[m].rows
                        == self.parameters.layer_out(m) && nabla_w@[m].cols
                        == self.parameters.layer_in(m),
                forall|m: int, r: int, c: int|
                    0 <= m < n && 0 <= r < self.parameters.layer_out(m) && 0 <= c
                        < self.parameters.layer_in(m) ==> #[trigger] nabla_w@[m].at(r, c) == 0,
                forall|m: int|
                    0 <= m < n ==> (#[trigger] nabla_b@[m])@.len() == self.parameters.layer_out(m),
                forall|m: int, i: int|
                    0 <= m < n && 0 <= i < self.parameters.layer_out(m)
                        ==> #[trigger] nabla_b@[m]@[i] == 0i64,
            decreases n_layers - n,
        {
            proof {
                assert(self.parameters.weights@[n as int].wf());
            }
            let rows = self.parameters.weights[n].rows;
            let cols = self.parameters.weights[n].cols;
            nabla_w.push(Matrix::zeros(rows, cols));
            nabla_b.push(vec_zeros(rows));
            n += 1;
        }
        // accumulate per-example gradients in batch order
        let mut k: usize = 0;
        while k < end - start
            invariant
                self.wf(),
                self == old(self),
                start < end <= data@.len(),
                batch == data@.subrange(start as int, end as int),
                forall|j: int|
                    start <= j < end ==> (#[trigger] data@[j]).0@.len() == self.in_size()
                        && data@[j].1@.len() == self.out_size(),
                n_layers == self.parameters.n_layers(),
                k <= end - start,
                nabla_w@.len() == n_layers,
                nabla_b@.len() == n_layers,
                forall|m: int|
                    0 <= m < n_layers ==> (#[trigger] nabla_w@[m]).wf() && nabla_w@[m].rows
                        == self.parameters.layer_out(m) && nabla_w@[m].cols
                        == self.parameters.layer_in(m),
                forall|m: int, r: int, c: int|
                    0 <= m < n_layers && 0 <= r < self.parameters.layer_out(m) && 0 <= c
                        < self.parameters.layer_in(m) ==> #[trigger] nabla_w@[m].at(r, c)
                        == acc_nabla_w::<T>(self.parameters, batch, k as int, m, r, c),
                forall|m: int|
                    0 <= m < n_layers ==> (#[trigger] nabla_b@[m])@.len()
                        == self.parameters.layer_out(m),
                forall|m: int, i: int|
                    0 <= m < n_layers && 0 <= i < self.parameters.layer_out(m)
                        ==> #[trigger] nabla_b@[m]@[i] as int == acc_nabla_b::<T>(
                        self.parameters,
                        batch,
                        k as int,
                        m,
                        i,
                    ),
            decreases end - start - k,
        {
            let ex = &data[start + k];
            let (dnb, dnw, _ig) = backprop_core(&self.architecture, &self.parameters, &ex.0, &ex.1);
            proof {
                assert(batch[k as int] == data@[start + k]);
            }
            let mut new_nw: Vec<Matrix> = Vec::new();
            let mut new_nb: Vec<Vec<i64>> = Vec::new();
            let mut m: usize = 0;
            while m < n_layers
                invariant
                    self.wf(),
                    n_layers == self.parameters.n_layers(),
                    k < end - start,
                    batch.len() == end - start,
                    batch[k as int].0@.len() == self.in_size(),
                    batch[k as int].1@.len() == self.out_size(),
                    crate::network_architecture::nabla_b_rel::<T>(
                        self.parameters,
                        vi(batch[k as int].0@),
                        vi(batch[k as int].1@),
                        dnb@,
                    ),
                    crate::network_architecture::nabla_w_rel::<T>(
                        self.parameters,
                        vi(batch[k as int].0@),
                        vi(batch[k as int].1@),
                        dnw@,
                    ),
                    nabla_w@.len() == n_layers,
                    nabla_b@.len() == n_layers,
                    forall|j: int|
                        0 <= j < n_layers ==> (#[trigger] nabla_w@[j]).wf() && nabla_w@[j].rows
                            == self.parameters.layer_out(j) && nabla_w@[j].cols
                            == self.parameters.layer_in(j),
                    forall|j: int, r: int, c: int|
                        0 <= j < n_layers && 0 <= r < self.parameters.layer_out(j) && 0 <= c
                            < self.parameters.layer_in(j) ==> #[trigger] nabla_w@[j].at(r, c)
                            == acc_nabla_w::<T>(self.parameters, batch, k as int, j, r, c),
                    forall|j: int|
                        0 <= j < n_layers ==> (#[trigger] nabla_b@[j])@.len()
                            == self.parameters.layer_out(j),
                    forall|j: int, i: int|
                        0 <= j < n_layers && 0 <= i < self.parameters.layer_out(j)
                            ==> #[trigger] nabla_b@[j]@[i] as int == acc_nabla_b::<T>(
                            self.parameters,
                            batch,
                            k as int,
                            j,
                            i,
                        ),
                    m <= n_layers,
                    new_nw@.len() == m,
                    new_nb@.len() == m,
                    forall|j: int|
                        0 <= j < m ==> (#[trigger] new_nw@[j]).wf() && new_nw@[j].rows
                            == self.parameters.layer_out(j) && new_nw@[j].cols
                            == self.parameters.layer_in(j),
                    forall|j: int, r: int, c: int|
                        0 <= j < m && 0 <= r < self.parameters.layer_out(j) && 0 <= c
                            < self.parameters.layer_in(j) ==> #[trigger] new_nw@[j].at(r, c)
                            == acc_nabla_w::<T>(self.parameters, batch, k as int + 1, j, r, c),
                    forall|j: int|
                        0 <= j < m ==> (#[trigger] new_nb@[j])@.len() == self.parameters.layer_out(
                            j,
                        ),
                    forall|j: int, i: int|
                        0 <= j < m && 0 <= i < self.parameters.layer_out(j)
                            ==> #[trigger] new_nb@[j]@[i] as int == acc_nabla_b::<T>(
                            self.parameters,
                            batch,
                            k as int + 1,
                            j,
                            i,
                        ),
                decreases n_layers - m,
            {
                proof {
                    crate::network_architecture::lemma_delta_len::<T>(
                        self.parameters,
                        vi(batch[k as int].0@),
                        vi(batch[k as int].1@),
                        m as int,
                    );
                    crate::network_architecture::lemma_ff_len::<T>(
                        self.parameters,
                        vi(batch[k as int].0@),
                        m as int,
                    );
                }
                new_nw.push(mat_add(&nabla_w[m], &dnw[m]));
                let nbv = vec_add(&nabla_b[m], &dnb[m]);
                proof {
                    assert forall|i: int|
                        0 <= i < self.parameters.layer_out(m as int) implies nbv@[i] as int
                        == acc_nabla_b::<T>(self.parameters, batch, k as int + 1, m as int, i) by {
                        assert(vi(nbv@)[i] == crate::matrix::vadd_is(
                            vi(nabla_b@[m as int]@),
                            vi(dnb@[m as int]@),
                        )[i]);
                    };
                }
                new_nb.push(nbv);
                m += 1;
            }
            nabla_w = new_nw;
            nabla_b = new_nb;
            k += 1;
        }
        // apply the update: decay, then the averaged gradient step
        let mbs = end - start;
        let rate = fdivn(eta, mbs as i64);
        let mut new_weights: Vec<Matrix> = Vec::new();
        let mut new_biases: Vec<Vec<i64>> = Vec::new();
        let mut n2: usize = 0;
        while n2 < n_layers
            invariant
                self.wf(),
                self == old(self),
                1 <= n_train <= 0x7fffffffffffffff,
                rate as int == fdivn_s(eta as int, mbs as int),
                mbs == end - start,
                n_layers == self.parameters.n_layers(),
                nabla_w@.len() == n_layers,
                nabla_b@.len() == n_layers,
                forall|m: int|
                    0 <= m < n_layers ==> (#[trigger] nabla_w@[m]).wf() && nabla_w@[m].rows
                        == self.parameters.layer_out(m) && nabla_w@[m].cols
                        == self.parameters.layer_in(m),
                forall|m: int, r: int, c: int|
                    0 <= m < n_layers && 0 <= r < self.parameters.layer_out(m) && 0 <= c
                        < self.parameters.layer_in(m) ==> #[trigger] nabla_w@[m].at(r, c)
                        == acc_nabla_w::<T>(self.parameters, batch, mbs as int, m, r, c),
                forall|m: int|
                    0 <= m < n_layers ==> (#[trigger] nabla_b@[m])@.len()
                        == self.parameters.layer_out(m),
                forall|m: int, i: int|
                    0 <= m < n_layers && 0 <= i < self.parameters.layer_out(m)
                        ==> #[trigger] nabla_b@[m]@[i] as int == acc_nabla_b::<T>(
                        self.parameters,
                        batch,
                        mbs as int,
                        m,
                        i,
                    ),
                n2 <= n_layers,
                new_weights@.len() == n2,
                new_biases@.len() == n2,
                forall|m: int|
                    0 <= m < n2 ==> (#[trigger] new_weights@[m]).wf() && new_weights@[m].rows
                        == self.parameters.layer_out(m) && new_weights@[m].cols
                        == self.parameters.layer_in(m),
                forall|m: int, r: int, c: int|
                    0 <= m < n2 && 0 <= r < self.parameters.layer_out(m) && 0 <= c
                        < self.parameters.layer_in(m) ==> #[trigger] new_weights@[m].at(r, c)
                        == fsub_s(
                        R::reg_s(
                            self.parameters.weights@[m].at(r, c),
                            lambda as int,
                            eta as int,
                            n_train as int,
                        ),
                        fmul_s(rate as int, acc_nabla_w::<T>(self.parameters, batch, mbs as int, m, r, c)),
                    ),
                forall|m: int|
                    0 <= m < n2 ==> (#[trigger] new_biases@[m])@.len()
                        == self.parameters.layer_out(m),
                forall|m: int, i: int|
                    0 <= m < n2 && 0 <= i < self.parameters.layer_out(m)
                        ==> #[trigger] new_biases@[m]@[i] as int == fsub_s(
                        self.parameters.biases@[m]@[i] as int,
                        fmul_s(rate as int, acc_nabla_b::<T>(self.parameters, batch, mbs as int, m, i)),
                    ),
            decreases n_layers - n2,
        {
            proof {
                assert(self.parameters.weights@[n2 as int].wf());
            }
            let decayed = self.regularization.reg_w(
                &self.parameters.weights[n2],
                lambda,
                eta,
                n_train as i64,
            );
            new_weights.push(crate::matrix::mat_step(&decayed, &nabla_w[n2], rate));
            new_biases.push(crate::matrix::vec_step(&self.parameters.biases[n2], &nabla_b[n2], rate));
            n2 += 1;
        }
        self.parameters = Parameters { weights: new_weights, biases: new_biases };
    }

    /// Mini-batch stochastic gradient descent: for each epoch, permute the
    /// examples, partition them into consecutive mini-batches of the
    /// configured size (the last may be smaller), and run the accumulate /
    /// update cycle on each. Fails, before any training, when an example
    /// does not match the configured widths.
    pub fn stochastic_gradient_descent(
        &mut self,
        training_data: Vec<(Vec<i64>, Vec<i64>)>,
        epochs: i32,
        mini_batch_size: usize,
        eta: i64,
        lambda: i64,
    ) -> (out: Result<(), ShapeError>)
        requires
            old(self).wf(),
            1 <= mini_batch_size <= 0x7fffffffffffffff,
            1 <= training_data@.len() <= 0x7fffffffffffffff,
        ensures
            out.is_err() <==> exists|k: int|
                0 <= k < training_data@.len() && !((#[trigger] training_data@[k]).0@.len() == old(self).in_size() && training_data@[k].1@.len() == old(self).out_size()),
            final(self).wf(),
            final(self).parameters.n_layers() == old(self).parameters.n_layers(),
            forall|n: int|
                0 <= n < old(self).parameters.n_layers() ==> #[trigger] final(self).parameters.layer_out(n) == old(self).parameters.layer_out(n) && final(self).parameters.layer_in(n) == old(self).parameters.layer_in(n),
            out.is_err() ==> final(self).parameters == old(self).parameters,
            out.is_ok() ==> exists|perms: Seq<Seq<(Vec<i64>, Vec<i64>)>>|
                #[trigger] sgd_rel::<T, R>(
                    old(self).parameters,
                    final(self).parameters,
                    perms,
                    0,
                    mini_batch_size as int,
                    eta as int,
                    lambda as int,
                    training_data@.len() as int,
                ) && perms.len() == (if epochs >= 0 {
                    epochs as int
                } else {
                    0int
                }) && (forall|j: int|
                    0 <= j < perms.len() ==> (#[trigger] perms[j]).to_multiset()
                        == training_data@.to_multiset() && perms[j].len() == training_data@.len()),
    {
        let mut data = training_data;
        let n_train = data.len();
        // validate every example before touching the parameters
        let mut i: usize = 0;
        while i < data.len()
            invariant
                self == old(self),
                self.wf(),
                data@ == training_data@,
                i <= data@.len(),
                forall|k: int|
                    0 <= k < i ==> (#[trigger] data@[k]).0@.len() == self.in_size()
                        && data@[k].1@.len() == self.out_size(),
            decreases data@.len() - i,
        {
            let last = self.parameters.weights.len() - 1;
            proof {
                assert(self.parameters.weights@[last as int].wf());
            }
            if data[i].0.len() != self.parameters.weights[0].cols || data[i].1.len()
                != self.parameters.weights[last].rows {
                return Err(ShapeError::WrongShape);
            }
            i += 1;
        }
        let ghost mut perms: Seq<Seq<(Vec<i64>, Vec<i64>)>> = Seq::empty();
        let mut e: i32 = 0;
        while e < epochs
            invariant
                self.wf(),
                self.parameters.n_layers() == old(self).parameters.n_layers(),
                self.architecture == old(self).architecture,
                self.regularization == old(self).regularization,
                forall|n: int|
                    0 <= n < old(self).parameters.n_layers() ==> #[trigger] self.parameters.layer_out(n)
                        == old(self).parameters.layer_out(n) && self.parameters.layer_in(n) == old(self).parameters.layer_in(n),
                1 <= mini_batch_size <= 0x7fffffffffffffff,
                n_train == data@.len(),
                1 <= n_train <= 0x7fffffffffffffff,
                self.in_size() == old(self).in_size(),
                self.out_size() == old(self).out_size(),
                forall|k: int|
                    0 <= k < data@.len() ==> (#[trigger] data@[k]).0@.len() == self.in_size()
                        && data@[k].1@.len() == self.out_size(),
                0 <= e,
                epochs >= 0 ==> e <= epochs,
                epochs < 0 ==> e == 0,
                data@.to_multiset() == training_data@.to_multiset(),
                data@.len() == training_data@.len(),
                perms.len() == e as int,
                forall|j: int|
                    0 <= j < perms.len() ==> (#[trigger] perms[j]).to_multiset()
                        == training_data@.to_multiset() && perms[j].len() == training_data@.len(),
                sgd_rel::<T, R>(
                    old(self).parameters,
                    self.parameters,
                    perms,
                    0,
                    mini_batch_size as int,
                    eta as int,
                    lambda as int,
                    n_train as int,
                ),
            decreases epochs - e,
        {
            let ghost before = data@;
            shuffle_vec(&mut self.rng, &mut data);
            proof {
                lemma_shuffle_keeps_shapes(before, data@, self.in_size(), self.out_size());
                vstd::seq_lib::lemma_multiset_commutative(before, data@);
            }
            let ghost pe = self.parameters;
            let mut start: usize = 0;
            while start < n_train
                invariant
                    self.wf(),
                    self.parameters.n_layers() == old(self).parameters.n_layers(),
                    self.architecture == old(self).architecture,
                    self.regularization == old(self).regularization,
                    forall|n: int|
                        0 <= n < old(self).parameters.n_layers()
                            ==> #[trigger] self.parameters.layer_out(n) == old(self).parameters.layer_out(n) && self.parameters.layer_in(n) == old(self).parameters.layer_in(n),
                    1 <= mini_batch_size <= 0x7fffffffffffffff,
                    n_train == data@.len(),
                    1 <= n_train <= 0x7fffffffffffffff,
                    self.in_size() == old(self).in_size(),
                    self.out_size() == old(self).out_size(),
                    forall|k: int|
                        0 <= k < data@.len() ==> (#[trigger] data@[k]).0@.len() == self.in_size()
                            && data@[k].1@.len() == self.out_size(),
                    start <= n_train,
                    forall|q: Parameters|
                        batches_rel::<T, R>(
                            self.parameters,
                            q,
                            data@,
                            start as int,
                            mini_batch_size as int,
                            eta as int,
                            lambda as int,
                            n_train as int,
                        ) ==> #[trigger] batches_rel::<T, R>(
                            pe,
                            q,
                            data@,
                            0,
                            mini_batch_size as int,
                            eta as int,
                            lambda as int,
                            n_train as int,
                        ),
                decreases n_train - start,
            {
                let remaining = n_train - start;
                let end = if remaining > mini_batch_size {
                    start + mini_batch_size
                } else {
                    n_train
                };
                let ghost pcur = self.parameters;
                self.update_mini_batch(&data, start, end, eta, lambda, n_train);
                proof {
                    let ghost pnew = self.parameters;
                    let ghost endi: int = batch_end(
                        start as int,
                        mini_batch_size as int,
                        data@.len() as int,
                    );
                    assert(end as int == endi);
                    assert(batch_rel::<T, R>(
                        pcur,
                        pnew,
                        data@,
                        start as int,
                        end as int,
                        eta as int,
                        lambda as int,
                        n_train as int,
                    ));
                    assert forall|q: Parameters|
                        batches_rel::<T, R>(
                            pnew,
                            q,
                            data@,
                            end as int,
                            mini_batch_size as int,
                            eta as int,
                            lambda as int,
                            n_train as int,
                        ) implies #[trigger] batches_rel::<T, R>(
                        pe,
                        q,
                        data@,
                        0,
                        mini_batch_size as int,
                        eta as int,
                        lambda as int,
                        n_train as int,
                    ) by {
                        lemma_batches_rel_step::<T, R>(
                            pcur,
                            pnew,
                            q,
                            data@,
                            start as int,
                            endi,
                            mini_batch_size as int,
                            eta as int,
                            lambda as int,
                            n_train as int,
                        );
                    };
                }
                start = end;
            }
            proof {
                assert(batches_rel::<T, R>(
                    self.parameters,
                    self.parameters,
                    data@,
                    n_train as int,
                    mini_batch_size as int,
                    eta as int,
                    lambda as int,
                    n_train as int,
                ));
                assert(epoch_rel::<T, R>(
                    pe,
                    self.parameters,
                    data@,
                    mini_batch_size as int,
                    eta as int,
                    lambda as int,
                    n_train as int,
                ));
                lemma_sgd_rel_snoc::<T, R>(
                    old(self).parameters,
                    pe,
                    self.parameters,
                    perms,
                    data@,
                    0,
                    mini_batch_size as int,
                    eta as int,
                    lambda as int,
                    n_train as int,
                );
                perms = perms.push(data@);
            }
            e += 1;
        }
        Ok(())
    }

    /// Counts the test examples whose predicted class (the first argmax of
    /// the network output) matches the label. Fails when an input does not
    /// have the configured width.
    pub fn evaluate(&self, test_data: Vec<(Vec<i64>, usize)>) -> (out: Result<usize, ShapeError>)
        requires
            self.wf(),
        ensures
            out.is_err() <==> exists|k: int|
                0 <= k < test_data@.len() && (#[trigger] test_data@[k]).0@.len() != self.in_size(),
            match out {
                Ok(c) => c as int == eval_count::<T>(self.parameters, test_data@, test_data@.len() as int),
                Err(e) => e == ShapeError::WrongShape,
            },
    {
        let mut i: usize = 0;
        while i < test_data.len()
            invariant
                self.wf(),
                i <= test_data@.len(),
                forall|k: int|
                    0 <= k < i ==> (#[trigger] test_data@[k]).0@.len() == self.in_size(),
            decreases test_data@.len() - i,
        {
            if test_data[i].0.len() != self.parameters.weights[0].cols {
                return Err(ShapeError::WrongShape);
            }
            i += 1;
        }
        let mut sum: usize = 0;
        let mut k: usize = 0;
        while k < test_data.len()
            invariant
                self.wf(),
                k <= test_data@.len(),
                forall|j: int|
                    0 <= j < test_data@.len() ==> (#[trigger] test_data@[j]).0@.len()
                        == self.in_size(),
                sum <= k,
                sum as int == eval_count::<T>(self.parameters, test_data@, k as int),
            decreases test_data@.len() - k,
        {
            let output = feedforward_chain(&self.architecture, &self.parameters, crate::matrix::vec_copy(&test_data[k].0));
            let pred = argmax(&output);
            if pred == test_data[k].1 {
                sum += 1;
            }
            k += 1;
        }
        Ok(sum)
    }
}

/// A permutation keeps every elementwise property; in particular it keeps
/// the example shapes.
proof fn lemma_shuffle_keeps_shapes(
    before: Seq<(Vec<i64>, Vec<i64>)>,
    after: Seq<(Vec<i64>, Vec<i64>)>,
    in_size: int,
    out_size: int,
)
    requires
        after.to_multiset() == before.to_multiset(),
        forall|k: int|
            0 <= k < before.len() ==> (#[trigger] before[k]).0@.len() == in_size
                && before[k].1@.len() == out_size,
    ensures
        forall|k: int|
            0 <= k < after.len() ==> (#[trigger] after[k]).0@.len() == in_size
                && after[k].1@.len() == out_size,
{
    broadcast use vstd::seq_lib::group_seq_lib_default;

    assert forall|k: int|
        0 <= k < after.len() implies (#[trigger] after[k]).0@.len() == in_size
        && after[k].1@.len() == out_size by {
        after.to_multiset_ensures();
        before.to_multiset_ensures();
        assert(after.to_multiset().count(after[k]) > 0);
        assert(before.contains(after[k]));
        let j = choose|j: int| 0 <= j < before.len() && before[j] == after[k];
        assert(before[j].0@.len() == in_size);
    };
}

} // verus!
