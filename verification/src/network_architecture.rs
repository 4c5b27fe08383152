//! The fully-connected parameter chain, the polymorphic activation
//! architecture, and the shared back-propagation core. The chain of weight
//! matrices and bias vectors is modelled layer by layer: `z_n = W_n a_n +
//! b_n`, `a_{n+1} = act(n, z_n)`, and the backward recursion `delta_n =
//! (W_{n+1}^T delta_{n+1}) . deriv(z_n)` with output error `a_L - y`.

use vstd::prelude::*;
use vstd::pervasive::VecAdditionalExecFns;

use crate::fixed::fmul_s;
use crate::matrix::{
    mat_tvec_mul, mat_tvec_s, mat_vec_mul, matvec_s, outer_mul, vadd_is, vec_add, vec_copy,
    vec_mul, vec_sub, vi, vmul_is, vsub_is, Matrix,
};

verus! {

/// The chain of weight matrices and bias vectors of the fully-connected
/// stage: weight matrix `n` maps layer `n` (its columns) to layer `n + 1`
/// (its rows), and bias vector `n` has one entry per row.
#[derive(Debug)]
pub struct Parameters {
    pub weights: Vec<Matrix>,
    pub biases: Vec<Vec<i64>>,
}

impl Parameters {
    /// The number of weighted layers.
    pub open spec fn n_layers(self) -> int {
        self.weights@.len() as int
    }

    /// Chain invariant: as many biases as weight matrices, every matrix
    /// well-formed and nonempty, bias lengths match rows, and consecutive
    /// matrices compose.
    pub open spec fn wf(self) -> bool {
        &&& self.biases@.len() == self.weights@.len()
        &&& forall|n: int|
            0 <= n < self.n_layers() ==> (#[trigger] self.weights@[n]).wf() && self.weights@[n].rows
                == self.biases@[n]@.len() && self.weights@[n].rows >= 1 && self.weights@[n].cols
                >= 1 && (n > 0 ==> self.weights@[n].cols == self.weights@[n - 1].rows)
    }

    /// The input width of the chain.
    pub open spec fn in_size(self) -> int {
        self.weights@[0].cols as int
    }

    /// The output width of the chain.
    pub open spec fn out_size(self) -> int {
        self.weights@[self.n_layers() - 1].rows as int
    }

    /// The width of the vector entering weighted layer `n`.
    pub open spec fn layer_in(self, n: int) -> int {
        self.weights@[n].cols as int
    }

    /// The width of the vector leaving weighted layer `n`.
    pub open spec fn layer_out(self, n: int) -> int {
        self.weights@[n].rows as int
    }

    /// Wraps a weight chain and its biases.
    pub fn new(weights: Vec<Matrix>, biases: Vec<Vec<i64>>) -> (p: Parameters)
        ensures
            p.weights@ == weights@,
            p.biases@ == biases@,
    {
        Parameters { weights, biases }
    }
}

/// The pre-activation vector of layer `n` on input `a`: `W_n a + b_n`.
pub open spec fn layer_z(p: Parameters, n: int, a: Seq<int>) -> Seq<int> {
    vadd_is(matvec_s(p.weights@[n], a), vi(p.biases@[n]@))
}

/// A family of per-layer non-linearities and their derivatives, defining a
/// network variant. The spec functions fix, per implementor, what each exec
/// method returns; the full forward chain is built from them below.
pub trait NetworkArchitecture: Sized {
    /// The activation applied by weighted layer `layer` of `n_layers`.
    spec fn act_s(layer: int, n_layers: int, z: Seq<int>) -> Seq<int>;

    /// The elementwise derivative used at hidden layers during backward
    /// passes.
    spec fn deriv_s(z: Seq<int>) -> Seq<int>;

    /// Activations and derivatives preserve vector length.
    proof fn lemma_act_len(layer: int, n_layers: int, z: Seq<int>)
        ensures
            Self::act_s(layer, n_layers, z).len() == z.len(),
            Self::deriv_s(z).len() == z.len(),
    ;

    /// The activation of weighted layer `layer`, applied to a pre-activation
    /// vector.
    fn activate(&self, layer: usize, n_layers: usize, z: &Vec<i64>) -> (r: Vec<i64>)
        ensures
            r@.len() == z@.len(),
            vi(r@) == Self::act_s(layer as int, n_layers as int, vi(z@)),
    ;

    /// The elementwise derivative at a pre-activation vector.
    fn get_derivative(&self, z: &Vec<i64>) -> (r: Vec<i64>)
        ensures
            r@.len() == z@.len(),
            vi(r@) == Self::deriv_s(vi(z@)),
    ;
}

/// The activation vector after the first `n` weighted layers on input `x`.
pub open spec fn ff_s<T: NetworkArchitecture>(p: Parameters, x: Seq<int>, n: int) -> Seq<int>
    decreases n,
{
    if n <= 0 {
        x
    } else {
        T::act_s(n - 1, p.n_layers(), layer_z(p, n - 1, ff_s::<T>(p, x, n - 1)))
    }
}

/// The pre-activation vector of weighted layer `n` on input `x`.
pub open spec fn z_s<T: NetworkArchitecture>(p: Parameters, x: Seq<int>, n: int) -> Seq<int> {
    layer_z(p, n, ff_s::<T>(p, x, n))
}

/// Activation widths follow the chain: after `n` layers the vector has the
/// width of layer `n`'s output (the input width for `n == 0`).
pub proof fn lemma_ff_len<T: NetworkArchitecture>(p: Parameters, x: Seq<int>, n: int)
    requires
        p.wf(),
        p.n_layers() >= 1,
        x.len() == p.in_size(),
        0 <= n <= p.n_layers(),
    ensures
        ff_s::<T>(p, x, n).len() == (if n == 0 {
            p.in_size()
        } else {
            p.layer_out(n - 1)
        }),
        n < p.n_layers() ==> z_s::<T>(p, x, n).len() == p.layer_out(n),
    decreases n,
{
    if n > 0 {
        lemma_ff_len::<T>(p, x, n - 1);
        T::lemma_act_len(n - 1, p.n_layers(), layer_z(p, n - 1, ff_s::<T>(p, x, n - 1)));
    }
}

/// The error vector of weighted layer `n` in the backward recursion: the
/// output layer's error is `prediction - target`; each earlier layer's error
/// is the transposed-weight pullback of the next one, gated by the
/// architecture's derivative at that layer's pre-activation.
pub open spec fn delta_s<T: NetworkArchitecture>(
    p: Parameters,
    x: Seq<int>,
    y: Seq<int>,
    n: int,
) -> Seq<int>
    decreases p.n_layers() - n,
{
    if n < 0 || n >= p.n_layers() {
        Seq::empty()
    } else if n == p.n_layers() - 1 {
        vsub_is(ff_s::<T>(p, x, p.n_layers()), y)
    } else {
        vmul_is(
            mat_tvec_s(p.weights@[n + 1], delta_s::<T>(p, x, y, n + 1)),
            T::deriv_s(z_s::<T>(p, x, n)),
        )
    }
}

/// Error vectors have the width of their layer's output.
pub proof fn lemma_delta_len<T: NetworkArchitecture>(p: Parameters, x: Seq<int>, y: Seq<int>, n: int)
    requires
        p.wf(),
        p.n_layers() >= 1,
        x.len() == p.in_size(),
        0 <= n < p.n_layers(),
    ensures
        delta_s::<T>(p, x, y, n).len() == p.layer_out(n),
    decreases p.n_layers() - n,
{
    if n == p.n_layers() - 1 {
        lemma_ff_len::<T>(p, x, p.n_layers());
    } else {
        lemma_delta_len::<T>(p, x, y, n + 1);
    }
}

/// Pure evaluation through the full weight/bias chain.
pub fn feedforward_chain<T: NetworkArchitecture>(arch: &T, p: &Parameters, a: Vec<i64>) -> (r:
    Vec<i64>)
    requires
        p.wf(),
        p.n_layers() >= 1,
        a@.len() == p.in_size(),
    ensures
        r@.len() == p.out_size(),
        vi(r@) == ff_s::<T>(*p, vi(a@), p.n_layers()),
{
    let ghost xs = vi(a@);
    let n_layers = p.weights.len();
    let mut act = a;
    let mut n: usize = 0;
    while n < n_layers
        invariant
            p.wf(),
            p.n_layers() >= 1,
            xs.len() == p.in_size(),
            n_layers == p.n_layers(),
            n <= n_layers,
            vi(act@) == ff_s::<T>(*p, xs, n as int),
            act@.len() == (if n == 0 {
                p.in_size()
            } else {
                p.layer_out(n as int - 1)
            }),
        decreases n_layers - n,
    {
        proof {
            lemma_ff_len::<T>(*p, xs, n as int);
        }
        let z = vec_add(&mat_vec_mul(&p.weights[n], &act), &p.biases[n]);
        proof {
            assert(vi(z@) =~= z_s::<T>(*p, xs, n as int));
        }
        act = arch.activate(n, n_layers, &z);
        proof {
            lemma_ff_len::<T>(*p, xs, n as int + 1);
        }
        n += 1;
    }
    act
}

/// The same evaluation, recording every intermediate activation vector (the
/// input included) and every pre-activation vector, in layer order.
pub fn training_feedforward_chain<T: NetworkArchitecture>(arch: &T, p: &Parameters, x: &Vec<i64>)
    -> (r: (Vec<Vec<i64>>, Vec<Vec<i64>>))
    requires
        p.wf(),
        p.n_layers() >= 1,
        x@.len() == p.in_size(),
    ensures
        r.0@.len() == p.n_layers() + 1,
        r.1@.len() == p.n_layers(),
        forall|n: int|
            0 <= n <= p.n_layers() ==> vi((#[trigger] r.0@[n])@) == ff_s::<T>(*p, vi(x@), n),
        forall|n: int|
            0 <= n < p.n_layers() ==> vi((#[trigger] r.1@[n])@) == z_s::<T>(*p, vi(x@), n),
{
    let ghost xs = vi(x@);
    let n_layers = p.weights.len();
    let mut acts: Vec<Vec<i64>> = Vec::new();
    let mut zs: Vec<Vec<i64>> = Vec::new();
    let mut act = vec_copy(x);
    acts.push(vec_copy(&act));
    let mut n: usize = 0;
    while n < n_layers
        invariant
            p.wf(),
            p.n_layers() >= 1,
            xs == vi(x@),
            xs.len() == p.in_size(),
            n_layers == p.n_layers(),
            n <= n_layers,
            vi(act@) == ff_s::<T>(*p, xs, n as int),
            act@.len() == (if n == 0 {
                p.in_size()
            } else {
                p.layer_out(n as int - 1)
            }),
            acts@.len() == n + 1,
            zs@.len() == n,
            forall|m: int| 0 <= m <= n ==> vi((#[trigger] acts@[m])@) == ff_s::<T>(*p, xs, m),
            forall|m: int| 0 <= m < n ==> vi((#[trigger] zs@[m])@) == z_s::<T>(*p, xs, m),
        decreases n_layers - n,
    {
        proof {
            lemma_ff_len::<T>(*p, xs, n as int);
        }
        let z = vec_add(&mat_vec_mul(&p.weights[n], &act), &p.biases[n]);
        proof {
            assert(vi(z@) =~= z_s::<T>(*p, xs, n as int));
        }
        act = arch.activate(n, n_layers, &z);
        proof {
            lemma_ff_len::<T>(*p, xs, n as int + 1);
        }
        zs.push(z);
        acts.push(vec_copy(&act));
        n += 1;
    }
    (acts, zs)
}

/// The weight gradient of layer `n` relates elementwise to the error and the
/// incoming activation: `nabla_w[n][r][c] == delta_n[r] * a_n[c]`.
pub open spec fn nabla_w_rel<T: NetworkArchitecture>(
    p: Parameters,
    x: Seq<int>,
    y: Seq<int>,
    nw: Seq<Matrix>,
) -> bool {
    &&& nw.len() == p.n_layers()
    &&& forall|n: int|
        0 <= n < p.n_layers() ==> (#[trigger] nw[n]).wf() && nw[n].rows == p.layer_out(n)
            && nw[n].cols == p.layer_in(n)
    &&& forall|n: int, r: int, c: int|
        0 <= n < p.n_layers() && 0 <= r < p.layer_out(n) && 0 <= c < p.layer_in(n)
            ==> #[trigger] nw[n].at(r, c) == fmul_s(
            delta_s::<T>(p, x, y, n)[r],
            ff_s::<T>(p, x, n)[c],
        )
}

/// The bias gradients are exactly the error vectors.
pub open spec fn nabla_b_rel<T: NetworkArchitecture>(
    p: Parameters,
    x: Seq<int>,
    y: Seq<int>,
    nb: Seq<Vec<i64>>,
) -> bool {
    &&& nb.len() == p.n_layers()
    &&& forall|n: int|
        0 <= n < p.n_layers() ==> vi((#[trigger] nb[n])@) == delta_s::<T>(p, x, y, n)
}

/// One full backward pass: runs the training-mode forward pass, then the
/// delta recursion, and returns the bias gradients, the weight gradients and
/// the gradient with respect to the layer's input (for an upstream stage).
pub fn backprop_core<T: NetworkArchitecture>(
    arch: &T,
    p: &Parameters,
    x: &Vec<i64>,
    y: &Vec<i64>,
) -> (r: (Vec<Vec<i64>>, Vec<Matrix>, Vec<i64>))
    requires
        p.wf(),
        p.n_layers() >= 1,
        x@.len() == p.in_size(),
        y@.len() == p.out_size(),
    ensures
        nabla_b_rel::<T>(*p, vi(x@), vi(y@), r.0@),
        nabla_w_rel::<T>(*p, vi(x@), vi(y@), r.1@),
        r.2@.len() == p.in_size(),
        vi(r.2@) == mat_tvec_s(p.weights@[0], delta_s::<T>(*p, vi(x@), vi(y@), 0)),
{
    let ghost xs = vi(x@);
    let ghost ys = vi(y@);
    let n_layers = p.weights.len();
    let (acts, zs) = training_feedforward_chain::<T>(arch, p, x);
    proof {
        lemma_ff_len::<T>(*p, xs, n_layers as int);
    }
    // output error
    let mut delta: Vec<i64> = vec_sub(&acts[n_layers], y);
    proof {
        assert(vi(delta@) =~= delta_s::<T>(*p, xs, ys, n_layers as int - 1));
        lemma_delta_len::<T>(*p, xs, ys, n_layers as int - 1);
    }
    let mut nb: Vec<Vec<i64>> = Vec::new();
    let mut nw: Vec<Matrix> = Vec::new();
    proof {
        lemma_ff_len::<T>(*p, xs, n_layers as int - 1);
    }
    nb.push(vec_copy(&delta));
    nw.push(outer_mul(&delta, &acts[n_layers - 1]));
    // walk back through the earlier layers; nb/nw hold layers n..L-1 reversed
    let mut n: usize = n_layers - 1;
    while n > 0
        invariant
            p.wf(),
            p.n_layers() >= 1,
            xs == vi(x@),
            ys == vi(y@),
            xs.len() == p.in_size(),
            ys.len() == p.out_size(),
            n_layers == p.n_layers(),
            acts@.len() == n_layers + 1,
            zs@.len() == n_layers,
            forall|m: int|
                0 <= m <= p.n_layers() ==> vi((#[trigger] acts@[m])@) == ff_s::<T>(*p, xs, m),
            forall|m: int|
                0 <= m < p.n_layers() ==> vi((#[trigger] zs@[m])@) == z_s::<T>(*p, xs, m),
            n < n_layers,
            vi(delta@) == delta_s::<T>(*p, xs, ys, n as int),
            delta@.len() == p.layer_out(n as int),
            nb@.len() == n_layers - n,
            nw@.len() == n_layers - n,
            forall|m: int|
                0 <= m < nb@.len() ==> vi((#[trigger] nb@[m])@) == delta_s::<T>(
                    *p,
                    xs,
                    ys,
                    n_layers - 1 - m,
                ),
            forall|m: int|
                0 <= m < nw@.len() ==> (#[trigger] nw@[m]).wf() && nw@[m].rows == p.layer_out(
                    n_layers - 1 - m,
                ) && nw@[m].cols == p.layer_in(n_layers - 1 - m),
            forall|m: int, r: int, c: int|
                0 <= m < nw@.len() && 0 <= r < p.layer_out(n_layers - 1 - m) && 0 <= c
                    < p.layer_in(n_layers - 1 - m) ==> #[trigger] nw@[m].at(r, c) == fmul_s(
                    delta_s::<T>(*p, xs, ys, n_layers - 1 - m)[r],
                    ff_s::<T>(*p, xs, n_layers - 1 - m)[c],
                ),
        decreases n,
    {
        n -= 1;
        let sp = arch.get_derivative(&zs[n]);
        proof {
            lemma_ff_len::<T>(*p, xs, n as int);
            lemma_delta_len::<T>(*p, xs, ys, n as int + 1);
        }
        let pulled = mat_tvec_mul(&p.weights[n + 1], &delta);
        delta = vec_mul(&pulled, &sp);
        proof {
            assert(vi(delta@) =~= delta_s::<T>(*p, xs, ys, n as int));
            lemma_delta_len::<T>(*p, xs, ys, n as int);
        }
        nb.push(vec_copy(&delta));
        nw.push(outer_mul(&delta, &acts[n]));
        proof {
            lemma_ff_len::<T>(*p, xs, n as int);
        }
    }
    // reverse into layer order
    let mut nb_f: Vec<Vec<i64>> = Vec::new();
    let mut nw_f: Vec<Matrix> = Vec::new();
    let mut i: usize = 0;
    while i < n_layers
        invariant
            p.wf(),
            n_layers == p.n_layers(),
            xs == vi(x@),
            ys == vi(y@),
            nb@.len() == n_layers,
            nw@.len() == n_layers,
            forall|m: int|
                0 <= m < nb@.len() ==> vi((#[trigger] nb@[m])@) == delta_s::<T>(
                    *p,
                    xs,
                    ys,
                    n_layers - 1 - m,
                ),
            forall|m: int|
                0 <= m < nw@.len() ==> (#[trigger] nw@[m]).wf() && nw@[m].rows == p.layer_out(
                    n_layers - 1 - m,
                ) && nw@[m].cols == p.layer_in(n_layers - 1 - m),
            forall|m: int, r: int, c: int|
                0 <= m < nw@.len() && 0 <= r < p.layer_out(n_layers - 1 - m) && 0 <= c
                    < p.layer_in(n_layers - 1 - m) ==> #[trigger] nw@[m].at(r, c) == fmul_s(
                    delta_s::<T>(*p, xs, ys, n_layers - 1 - m)[r],
                    ff_s::<T>(*p, xs, n_layers - 1 - m)[c],
                ),
            i <= n_layers,
            nb_f@.len() == i,
            nw_f@.len() == i,
            forall|m: int|
                0 <= m < i ==> vi((#[trigger] nb_f@[m])@) == delta_s::<T>(*p, xs, ys, m),
            forall|m: int|
                0 <= m < i ==> (#[trigger] nw_f@[m]).wf() && nw_f@[m].rows == p.layer_out(m)
                    && nw_f@[m].cols == p.layer_in(m),
            forall|m: int, r: int, c: int|
                0 <= m < i && 0 <= r < p.layer_out(m) && 0 <= c < p.layer_in(m)
                    ==> #[trigger] nw_f@[m].at(r, c) == fmul_s(
                    delta_s::<T>(*p, xs, ys, m)[r],
                    ff_s::<T>(*p, xs, m)[c],
                ),
        decreases n_layers - i,
    {
        nb_f.push(vec_copy(&nb[n_layers - 1 - i]));
        let m = &nw[n_layers - 1 - i];
        proof {
            assert(nw@[n_layers - 1 - i as int].wf());
        }
        nw_f.push(m.copy());
        proof {
            assert forall|r: int, c: int|
                0 <= r < p.layer_out(i as int) && 0 <= c < p.layer_in(
                    i as int,
                ) implies #[trigger] nw_f@[i as int].at(r, c) == fmul_s(
                delta_s::<T>(*p, xs, ys, i as int)[r],
                ff_s::<T>(*p, xs, i as int)[c],
            ) by {
                assert(nw_f@[i as int].at(r, c) == nw@[n_layers - 1 - i as int].at(r, c));
            };
        }
        i += 1;
    }
    // gradient with respect to the input
    proof {
        lemma_delta_len::<T>(*p, xs, ys, 0);
    }
    let ig = mat_tvec_mul(&p.weights[0], &nb_f[0]);
    proof {
        assert(vi(nb_f@[0]@) == delta_s::<T>(*p, xs, ys, 0));
        assert(vi(ig@) == mat_tvec_s(p.weights@[0], delta_s::<T>(*p, xs, ys, 0)));
    }
    (nb_f, nw_f, ig)
}

} // verus!
