//! Weight-decay policies applied before each gradient step: none, L1
//! (subtract a fixed amount toward zero) and L2 (multiply by a factor below
//! one). The decay laws are proved below: L2 strictly shrinks every nonzero
//! weight's magnitude, and L1 moves every nonzero weight toward zero by the
//! fixed amount without overshooting.

use vstd::prelude::*;

use crate::fixed::{fadd, fadd_s, fdivn, fdivn_s, fmul, fmul_s, fsub, fsub_s, sat, tdiv, FIX_MAX, SCALE};
use crate::matrix::Matrix;

verus! {

/// The magnitude of a scalar.
pub open spec fn iabs(x: int) -> int {
    if x < 0 {
        -x
    } else {
        x
    }
}

/// The effective decay amount: `eta * (lambda / n)` in fixed point, where
/// `n` is the training-set size.
pub open spec fn decay_s(lambda: int, eta: int, n: int) -> int {
    fmul_s(eta, fdivn_s(lambda, n))
}

/// A weight-decay policy: how one weight is transformed before the gradient
/// is subtracted. The spec function fixes, per implementor, the transform.
pub trait Regularization: Sized {
    /// The decayed value of one weight.
    spec fn reg_s(w: int, lambda: int, eta: int, n: int) -> int;

    /// Applies the decay to every element of a weight matrix.
    fn reg_w(&self, w: &Matrix, lambda: i64, eta: i64, n: i64) -> (out: Matrix)
        requires
            w.wf(),
            n >= 1,
        ensures
            out.wf(),
            out.rows == w.rows,
            out.cols == w.cols,
            forall|r: int, c: int|
                0 <= r < w.rows && 0 <= c < w.cols ==> #[trigger] out.at(r, c) == Self::reg_s(
                    w.at(r, c),
                    lambda as int,
                    eta as int,
                    n as int,
                ),
    ;
}

/// No decay.
pub struct NON {}

/// L1 decay: a fixed amount toward zero.
pub struct L1 {}

/// L2 decay: multiplication by `1 - eta * lambda / n`.
pub struct L2 {}

impl Regularization for NON {
    open spec fn reg_s(w: int, lambda: int, eta: int, n: int) -> int {
        w
    }

    fn reg_w(&self, w: &Matrix, lambda: i64, eta: i64, n: i64) -> (out: Matrix) {
        w.copy()
    }
}

impl Regularization for L1 {
    open spec fn reg_s(w: int, lambda: int, eta: int, n: int) -> int {
        if w > 0 {
            fsub_s(w, decay_s(lambda, eta, n))
        } else if w < 0 {
            fadd_s(w, decay_s(lambda, eta, n))
        } else {
            0
        }
    }

    fn reg_w(&self, w: &Matrix, lambda: i64, eta: i64, n: i64) -> (out: Matrix) {
        let f = fmul(eta, fdivn(lambda, n));
        let mut data: Vec<Vec<i64>> = Vec::new();
        let mut i: usize = 0;
        while i < w.rows
            invariant
                w.wf(),
                n >= 1,
                f as int == decay_s(lambda as int, eta as int, n as int),
                i <= w.rows,
                data@.len() == i,
                forall|r: int| 0 <= r < i ==> (#[trigger] data@[r])@.len() == w.cols,
                forall|r: int, c: int|
                    0 <= r < i && 0 <= c < w.cols ==> data@[r]@[c] as int == Self::reg_s(
                        w.at(r, c),
                        lambda as int,
                        eta as int,
                        n as int,
                    ),
            decreases w.rows - i,
        {
            let wrow = &w.data[i];
            let mut row: Vec<i64> = Vec::new();
            let mut j: usize = 0;
            while j < w.cols
                invariant
                    w.wf(),
                    n >= 1,
                    f as int == decay_s(lambda as int, eta as int, n as int),
                    i < w.rows,
                    wrow == &w.data@[i as int],
                    j <= w.cols,
                    row@.len() == j,
                    forall|c: int|
                        0 <= c < j ==> row@[c] as int == Self::reg_s(
                            w.at(i as int, c),
                            lambda as int,
                            eta as int,
                            n as int,
                        ),
                decreases w.cols - j,
            {
                let x = wrow[j];
                let v: i64 = if x > 0 {
                    fsub(x, f)
                } else if x < 0 {
                    fadd(x, f)
                } else {
                    0
                };
                row.push(v);
                j += 1;
            }
            data.push(row);
            i += 1;
        }
        Matrix { rows: w.rows, cols: w.cols, data }
    }
}

impl Regularization for L2 {
    open spec fn reg_s(w: int, lambda: int, eta: int, n: int) -> int {
        fmul_s(w, fsub_s(SCALE as int, decay_s(lambda, eta, n)))
    }

    fn reg_w(&self, w: &Matrix, lambda: i64, eta: i64, n: i64) -> (out: Matrix) {
        let one = fsub(SCALE, fmul(eta, fdivn(lambda, n)));
        let mut data: Vec<Vec<i64>> = Vec::new();
        let mut i: usize = 0;
        while i < w.rows
            invariant
                w.wf(),
                n >= 1,
                one as int == fsub_s(SCALE as int, decay_s(lambda as int, eta as int, n as int)),
                i <= w.rows,
                data@.len() == i,
                forall|r: int| 0 <= r < i ==> (#[trigger] data@[r])@.len() == w.cols,
                forall|r: int, c: int|
                    0 <= r < i && 0 <= c < w.cols ==> data@[r]@[c] as int == Self::reg_s(
                        w.at(r, c),
                        lambda as int,
                        eta as int,
                        n as int,
                    ),
            decreases w.rows - i,
        {
            let wrow = &w.data[i];
            let mut row: Vec<i64> = Vec::new();
            let mut j: usize = 0;
            while j < w.cols
                invariant
                    w.wf(),
                    n >= 1,
                    one as int == fsub_s(
                        SCALE as int,
                        decay_s(lambda as int, eta as int, n as int),
                    ),
                    i < w.rows,
                    wrow == &w.data@[i as int],
                    j <= w.cols,
                    row@.len() == j,
                    forall|c: int|
                        0 <= c < j ==> row@[c] as int == Self::reg_s(
                            w.at(i as int, c),
                            lambda as int,
                            eta as int,
                            n as int,
                        ),
                decreases w.cols - j,
            {
                row.push(fmul(wrow[j], one));
                j += 1;
            }
            data.push(row);
            i += 1;
        }
        Matrix { rows: w.rows, cols: w.cols, data }
    }
}

/// L2 decay law: whenever the effective decay factor `eta * lambda / n` is
/// positive and below two (in fixed point), the decay step strictly shrinks
/// every nonzero weight's magnitude. (A positive `lambda` so small that the
/// fixed-point product truncates to zero decays nothing and is excluded.)
pub proof fn lemma_l2_shrinks(w: int, lambda: int, eta: int, n: int)
    requires
        n >= 1,
        w != 0,
        iabs(w) <= FIX_MAX as int,
        0 < decay_s(lambda, eta, n) < 2 * SCALE as int,
    ensures
        iabs(<L2 as Regularization>::reg_s(w, lambda, eta, n)) < iabs(w),
{
    let f = decay_s(lambda, eta, n);
    let one = fsub_s(SCALE as int, f);
    assert(one == SCALE as int - f);
    let aw = iabs(w);
    let ao = iabs(one);
    assert(aw >= 1);
    assert(ao <= SCALE as int - 1);
    let p = w * one;
    assert(-(aw * (SCALE as int - 1)) <= p <= aw * (SCALE as int - 1)) by (nonlinear_arith)
        requires
            p == w * one,
            -aw <= w <= aw,
            -ao <= one <= ao,
            0 <= ao <= SCALE as int - 1,
            aw >= 1,
    ;
    let q = tdiv(p, SCALE as int);
    if p >= 0 {
        assert(q == p / (SCALE as int));
        assert(0 <= p / (SCALE as int) < aw) by (nonlinear_arith)
            requires
                0 <= p <= aw * (SCALE as int - 1),
                aw >= 1,
        ;
    } else {
        assert(q == -((-p) / (SCALE as int)));
        assert(0 <= (-p) / (SCALE as int) < aw) by (nonlinear_arith)
            requires
                0 <= -p <= aw * (SCALE as int - 1),
                aw >= 1,
        ;
    }
    assert(-aw < q < aw);
    assert(sat(q) == q);
}

/// L1 decay law: whenever the fixed decay amount is positive and does not
/// exceed the weight's magnitude, the decay step moves the weight toward zero
/// by exactly that amount, never overshooting past zero.
pub proof fn lemma_l1_step(w: int, lambda: int, eta: int, n: int)
    requires
        n >= 1,
        w != 0,
        iabs(w) <= FIX_MAX as int,
        0 < decay_s(lambda, eta, n) <= iabs(w),
    ensures
        iabs(<L1 as Regularization>::reg_s(w, lambda, eta, n)) == iabs(w) - decay_s(
            lambda,
            eta,
            n,
        ),
        w > 0 ==> <L1 as Regularization>::reg_s(w, lambda, eta, n) >= 0,
        w < 0 ==> <L1 as Regularization>::reg_s(w, lambda, eta, n) <= 0,
{
    let f = decay_s(lambda, eta, n);
    if w > 0 {
        assert(fsub_s(w, f) == w - f);
    } else {
        assert(fadd_s(w, f) == w + f);
    }
}

} // verus!
