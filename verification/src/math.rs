//! Elementwise non-linearities and small numeric helpers, all in fixed
//! point: the logistic function (via a range-reduced series for `exp`), the
//! normalized-exponential transform, the rectifier, and an argmax.

use vstd::prelude::*;
use vstd::arithmetic::div_mod::lemma_fundamental_div_mod;

use crate::fixed::{fadd, fadd_s, fdivn, fdivn_s, fmul, fmul_s, fsub, fsub_s, tdiv, SCALE};
use crate::matrix::{vi, Matrix};

verus! {

/// `ln 2` in fixed point.
pub const LN2: i64 = 45426;

/// The larger of two values (the left one on ties).
pub open spec fn imax2(a: int, b: int) -> int {
    if a >= b {
        a
    } else {
        b
    }
}

/// The rectifier: `max(0, x)`.
pub open spec fn relu_s(x: int) -> int {
    if x < 0 {
        0
    } else {
        x
    }
}

/// Horner evaluation of the alternating series for `e^-r` on `0 <= r < ln 2`,
/// from term `k` outward: `h(k) = 1 - (r / k) * h(k + 1)`, five terms deep.
pub open spec fn horner_s(r: int, k: int) -> int
    decreases 6 - k,
{
    if k >= 6 {
        SCALE as int
    } else {
        fsub_s(SCALE as int, fdivn_s(fmul_s(r, horner_s(r, k + 1)), k))
    }
}

/// Powers of two.
pub open spec fn pow2s(k: int) -> int
    decreases k,
{
    if k <= 0 {
        1
    } else {
        2 * pow2s(k - 1)
    }
}

/// `e^-x` in fixed point for `x >= 0`: range-reduce by `ln 2`, evaluate the
/// series on the remainder, then shift down by the reduced exponent.
pub open spec fn expneg_s(x: int) -> int
    recommends
        x >= 0,
{
    let k = x / (LN2 as int);
    let r = x - k * (LN2 as int);
    if k >= 32 {
        0
    } else {
        tdiv(horner_s(r, 1), pow2s(k))
    }
}

/// The logistic function `1 / (1 + e^-x)` in fixed point.
pub open spec fn sigmoid_s(x: int) -> int {
    if x >= 0 {
        tdiv((SCALE as int) * (SCALE as int), (SCALE as int) + expneg_s(x))
    } else {
        (SCALE as int) - tdiv((SCALE as int) * (SCALE as int), (SCALE as int) + expneg_s(-x))
    }
}

/// Derivative of the logistic function: `s * (1 - s)` at `s = sigmoid(x)`.
pub open spec fn sigmoid_deriv_s(x: int) -> int {
    fmul_s(sigmoid_s(x), fsub_s(SCALE as int, sigmoid_s(x)))
}

/// The series value stays within `[0, 1]` for remainders in `[0, 1]`.
proof fn lemma_horner_bounds(r: int, k: int)
    requires
        0 <= r <= SCALE as int,
        1 <= k <= 6,
    ensures
        0 <= horner_s(r, k) <= SCALE as int,
    decreases 6 - k,
{
    if k >= 6 {
    } else {
        lemma_horner_bounds(r, k + 1);
        let u = horner_s(r, k + 1);
        assert(0 <= r * u <= r * (SCALE as int)) by (nonlinear_arith)
            requires
                0 <= r,
                0 <= u <= SCALE as int,
        ;
        assert(tdiv(r * u, SCALE as int) <= r) by {
            assert(r * u / (SCALE as int) <= r * (SCALE as int) / (SCALE as int)) by (
            nonlinear_arith)
                requires
                    0 <= r * u <= r * (SCALE as int),
                    SCALE as int > 0,
            ;
            assert(r * (SCALE as int) / (SCALE as int) == r) by (nonlinear_arith);
        };
        assert(tdiv(r * u, SCALE as int) >= 0) by {
            assert(r * u / (SCALE as int) >= 0) by (nonlinear_arith)
                requires
                    r * u >= 0,
                    SCALE as int > 0,
            ;
        };
        let q = fmul_s(r, u);
        assert(0 <= q <= r);
        assert(0 <= tdiv(q, k) <= q) by (nonlinear_arith)
            requires
                0 <= q,
                k >= 1,
        ;
    }
}

/// `e^-x` stays within `[0, 1]`.
proof fn lemma_expneg_bounds(x: int)
    requires
        x >= 0,
    ensures
        0 <= expneg_s(x) <= SCALE as int,
{
    let k = x / (LN2 as int);
    let r = x - k * (LN2 as int);
    if k >= 32 {
    } else {
        lemma_fundamental_div_mod(x, LN2 as int);
        assert(r == x % (LN2 as int));
        lemma_horner_bounds(r, 1);
        let h = horner_s(r, 1);
        let p = pow2s(k);
        assert(p >= 1) by {
            lemma_pow2_pos(k);
        };
        assert(0 <= tdiv(h, p) <= h) by (nonlinear_arith)
            requires
                0 <= h,
                p >= 1,
        ;
    }
}

/// Powers of two grow monotonically.
proof fn lemma_pow2_mono(a: int, b: int)
    requires
        a <= b,
    ensures
        pow2s(a) <= pow2s(b),
    decreases (if b <= 0 { 0int } else { b }),
{
    lemma_pow2_pos(a);
    if b > 0 && a < b {
        lemma_pow2_mono(a, b - 1);
        lemma_pow2_pos(b - 1);
    }
}

/// `2^k` fits comfortably in a scalar for `k <= 31`.
proof fn lemma_pow2_bound(k: int)
    requires
        k <= 31,
    ensures
        pow2s(k) <= 2147483648int,
{
    lemma_pow2_mono(k, 31);
    reveal_with_fuel(pow2s, 33);
    assert(pow2s(31) == 2147483648int);
}

/// Powers of two are positive.
proof fn lemma_pow2_pos(k: int)
    ensures
        pow2s(k) >= 1,
    decreases (if k <= 0 { 0int } else { k }),
{
    if k > 0 {
        lemma_pow2_pos(k - 1);
    }
}

/// `2^k` for `k < 32`.
fn pow2e(k: u32) -> (r: i64)
    requires
        k < 32,
    ensures
        r as int == pow2s(k as int),
        1 <= r <= 2147483648i64,
    decreases k,
{
    proof {
        lemma_pow2_pos(k as int);
        lemma_pow2_bound(k as int);
    }
    if k == 0 {
        1
    } else {
        proof {
            lemma_pow2_pos(k as int - 1);
            lemma_pow2_bound(k as int - 1);
        }
        let p = pow2e(k - 1);
        2 * p
    }
}

/// `e^-x` in fixed point, for nonnegative `x`.
pub fn expneg(x: i64) -> (e: i64)
    requires
        x >= 0,
    ensures
        e as int == expneg_s(x as int),
        0 <= e <= SCALE,
{
    proof {
        lemma_expneg_bounds(x as int);
    }
    let k64: u64 = (x as u64) / (LN2 as u64);
    proof {
        assert(k64 as int == (x as int) / (LN2 as int));
        lemma_fundamental_div_mod(x as int, LN2 as int);
    }
    if k64 >= 32 {
        return 0;
    }
    let k: u32 = k64 as u32;
    let r: i64 = x - (k as i64) * LN2;
    proof {
        assert(r as int == (x as int) % (LN2 as int));
        lemma_horner_bounds(r as int, 1);
        lemma_horner_bounds(r as int, 2);
        lemma_horner_bounds(r as int, 3);
        lemma_horner_bounds(r as int, 4);
        lemma_horner_bounds(r as int, 5);
    }
    let mut u: i64 = SCALE;
    assert(u as int == horner_s(r as int, 6));
    u = fsub(SCALE, fdivn(fmul(r, u), 5));
    assert(u as int == horner_s(r as int, 5));
    u = fsub(SCALE, fdivn(fmul(r, u), 4));
    assert(u as int == horner_s(r as int, 4));
    u = fsub(SCALE, fdivn(fmul(r, u), 3));
    assert(u as int == horner_s(r as int, 3));
    u = fsub(SCALE, fdivn(fmul(r, u), 2));
    assert(u as int == horner_s(r as int, 2));
    u = fsub(SCALE, fdivn(fmul(r, u), 1));
    assert(u as int == horner_s(r as int, 1));
    let p = pow2e(k);
    let e: i64 = ((u as u64) / (p as u64)) as i64;
    assert(e as int == tdiv(horner_s(r as int, 1), pow2s(k as int))) by {
        assert(u >= 0) by {
            lemma_horner_bounds(r as int, 1);
        };
    };
    e
}

/// The logistic function of one scalar.
pub fn sigmoid_one(x: i64) -> (s: i64)
    ensures
        s as int == sigmoid_s(x as int),
        0 <= s <= SCALE,
{
    if x >= 0 {
        let e = expneg(x);
        proof {
            lemma_sig_div(e as int);
        }
        let q: u64 = 4294967296u64 / ((SCALE + e) as u64);
        q as i64
    } else {
        let nx: i128 = -(x as i128);
        let e: i64 = if nx >= 1453632i128 {
            proof {
                lemma_div_ge_32(-(x as int));
            }
            0i64
        } else {
            expneg(nx as i64)
        };
        proof {
            if nx >= 1453632i128 {
            } else {
                lemma_expneg_bounds(-(x as int));
            }
        }
        proof {
            lemma_sig_div(e as int);
        }
        let q: u64 = 4294967296u64 / ((SCALE + e) as u64);
        let t: i64 = q as i64;
        SCALE - t
    }
}

/// For `0 <= e <= 1`, the quotient `1 / (1 + e)` lies in `[1/2, 1]`.
proof fn lemma_sig_div(e: int)
    requires
        0 <= e <= SCALE as int,
    ensures
        tdiv((SCALE as int) * (SCALE as int), (SCALE as int) + e) == 4294967296int / (
        (SCALE as int) + e),
        32768 <= 4294967296int / ((SCALE as int) + e) <= 65536,
{
    assert((SCALE as int) * (SCALE as int) == 4294967296int);
    assert(32768 <= 4294967296int / ((SCALE as int) + e) <= 65536) by (nonlinear_arith)
        requires
            65536 <= (SCALE as int) + e <= 131072,
    ;
}

/// `x / ln2 >= 32` exactly when `x >= 32 * ln2`.
proof fn lemma_div_ge_32(x: int)
    requires
        x >= 1453632,
    ensures
        x / (LN2 as int) >= 32,
{
    assert(x / 45426 >= 32) by (nonlinear_arith)
        requires
            x >= 1453632,
    ;
}

/// The logistic function, elementwise on a vector.
pub fn sigmoid(z: &Vec<i64>) -> (r: Vec<i64>)
    ensures
        r@.len() == z@.len(),
        forall|i: int| 0 <= i < z@.len() ==> r@[i] as int == sigmoid_s(z@[i] as int),
{
    let mut r: Vec<i64> = Vec::new();
    let mut i: usize = 0;
    while i < z.len()
        invariant
            i <= z@.len(),
            r@.len() == i,
            forall|j: int| 0 <= j < i ==> r@[j] as int == sigmoid_s(z@[j] as int),
        decreases z@.len() - i,
    {
        r.push(sigmoid_one(z[i]));
        i += 1;
    }
    r
}

/// The rectifier, elementwise on a vector.
pub fn relu(z: &Vec<i64>) -> (r: Vec<i64>)
    ensures
        r@.len() == z@.len(),
        forall|i: int| 0 <= i < z@.len() ==> r@[i] as int == relu_s(z@[i] as int),
{
    let mut r: Vec<i64> = Vec::new();
    let mut i: usize = 0;
    while i < z.len()
        invariant
            i <= z@.len(),
            r@.len() == i,
            forall|j: int| 0 <= j < i ==> r@[j] as int == relu_s(z@[j] as int),
        decreases z@.len() - i,
    {
        let x = z[i];
        r.push(if x < 0 { 0 } else { x });
        i += 1;
    }
    r
}

/// The rectifier, elementwise on a matrix.
pub fn relu_matrix(m: &Matrix) -> (out: Matrix)
    requires
        m.wf(),
    ensures
        out.wf(),
        out.rows == m.rows,
        out.cols == m.cols,
        forall|r: int, c: int|
            0 <= r < m.rows && 0 <= c < m.cols ==> out.at(r, c) == relu_s(m.at(r, c)),
{
    let mut data: Vec<Vec<i64>> = Vec::new();
    let mut i: usize = 0;
    while i < m.rows
        invariant
            m.wf(),
            i <= m.rows,
            data@.len() == i,
            forall|r: int| 0 <= r < i ==> (#[trigger] data@[r])@.len() == m.cols,
            forall|r: int, c: int|
                0 <= r < i && 0 <= c < m.cols ==> data@[r]@[c] as int == relu_s(m.at(r, c)),
        decreases m.rows - i,
    {
        let row = relu(&m.data[i]);
        data.push(row);
        i += 1;
    }
    Matrix { rows: m.rows, cols: m.cols, data }
}

/// Adds one scalar to every element of a matrix.
pub fn matrix_add_scalar(m: &Matrix, b: i64) -> (out: Matrix)
    requires
        m.wf(),
    ensures
        out.wf(),
        out.rows == m.rows,
        out.cols == m.cols,
        forall|r: int, c: int|
            0 <= r < m.rows && 0 <= c < m.cols ==> out.at(r, c) == fadd_s(m.at(r, c), b as int),
{
    let mut data: Vec<Vec<i64>> = Vec::new();
    let mut i: usize = 0;
    while i < m.rows
        invariant
            m.wf(),
            i <= m.rows,
            data@.len() == i,
            forall|r: int| 0 <= r < i ==> (#[trigger] data@[r])@.len() == m.cols,
            forall|r: int, c: int|
                0 <= r < i && 0 <= c < m.cols ==> data@[r]@[c] as int == fadd_s(
                    m.at(r, c),
                    b as int,
                ),
        decreases m.rows - i,
    {
        let mrow = &m.data[i];
        let mut row: Vec<i64> = Vec::new();
        let mut j: usize = 0;
        while j < m.cols
            invariant
                m.wf(),
                i < m.rows,
                mrow == &m.data@[i as int],
                j <= m.cols,
                row@.len() == j,
                forall|c: int|
                    0 <= c < j ==> row@[c] as int == fadd_s(m.at(i as int, c), b as int),
            decreases m.cols - j,
        {
            row.push(fadd(mrow[j], b));
            j += 1;
        }
        data.push(row);
        i += 1;
    }
    Matrix { rows: m.rows, cols: m.cols, data }
}

/// The largest element of a nonempty sequence.
pub open spec fn seq_max(s: Seq<int>) -> int
    recommends
        s.len() >= 1,
    decreases s.len(),
{
    if s.len() <= 1 {
        s[0]
    } else {
        imax2(seq_max(s.drop_last()), s.last())
    }
}

/// The maximum dominates every element of the sequence.
proof fn lemma_seq_max_ge(s: Seq<int>, i: int)
    requires
        0 <= i < s.len(),
    ensures
        seq_max(s) >= s[i],
    decreases s.len(),
{
    if s.len() > 1 && i < s.len() - 1 {
        lemma_seq_max_ge(s.drop_last(), i);
    }
}

/// The maximum is attained somewhere.
proof fn lemma_seq_max_attained(s: Seq<int>)
    requires
        s.len() >= 1,
    ensures
        exists|i: int| 0 <= i < s.len() && s[i] == seq_max(s),
    decreases s.len(),
{
    if s.len() == 1 {
        assert(s[0] == seq_max(s));
    } else {
        lemma_seq_max_attained(s.drop_last());
        if seq_max(s) == s.last() {
            assert(s[s.len() - 1] == seq_max(s));
        } else {
            let i = choose|i: int|
                0 <= i < s.drop_last().len() && s.drop_last()[i] == seq_max(s.drop_last());
            assert(s[i] == seq_max(s));
        }
    }
}

/// Saturating sum of `e^-(m - s[i])` over the first `n` elements: the
/// denominator of the normalized-exponential transform.
pub open spec fn sm_den(s: Seq<int>, m: int, n: int) -> int
    decreases n,
{
    if n <= 0 {
        0
    } else {
        fadd_s(sm_den(s, m, n - 1), expneg_s(m - s[n - 1]))
    }
}

/// The normalized-exponential transform (softmax), computed against the
/// maximum element for range safety:
/// `r[i] = e^-(max - s[i]) / sum_j e^-(max - s[j])` in fixed point.
pub open spec fn softmax_s(s: Seq<int>) -> Seq<int> {
    Seq::new(
        s.len(),
        |i: int| tdiv(expneg_s(seq_max(s) - s[i]) * (SCALE as int), sm_den(s, seq_max(s), s.len() as int)),
    )
}

/// A partial denominator over nonnegative terms dominates each of its terms
/// and never turns negative.
proof fn lemma_sm_den_bounds(s: Seq<int>, m: int, n: int)
    requires
        n <= s.len(),
        forall|i: int| 0 <= i < n ==> m - s[i] >= 0,
    ensures
        sm_den(s, m, n) >= 0,
        forall|i: int| 0 <= i < n ==> sm_den(s, m, n) >= expneg_s(m - s[i]),
    decreases n,
{
    if n > 0 {
        lemma_sm_den_bounds(s, m, n - 1);
        lemma_expneg_bounds(m - s[n - 1]);
        assert forall|i: int| 0 <= i < n implies sm_den(s, m, n) >= expneg_s(m - s[i]) by {
            lemma_expneg_bounds(m - s[i]);
            if i < n - 1 {
                assert(sm_den(s, m, n - 1) >= expneg_s(m - s[i]));
            }
        };
    }
}

/// `e^0 == 1` in fixed point.
proof fn lemma_expneg_zero()
    ensures
        expneg_s(0) == SCALE as int,
{
    assert(0int / (LN2 as int) == 0) by (nonlinear_arith);
    assert(horner_s(0, 1) == SCALE as int) by {
        assert(horner_s(0, 6) == SCALE as int);
        assert(fmul_s(0, SCALE as int) == 0) by {
            assert(0int * (SCALE as int) == 0) by (nonlinear_arith);
        };
        assert(fdivn_s(0, 5) == 0 && fdivn_s(0, 4) == 0 && fdivn_s(0, 3) == 0 && fdivn_s(0, 2) == 0
            && fdivn_s(0, 1) == 0) by (nonlinear_arith);
        assert(fsub_s(SCALE as int, 0) == SCALE as int);
    };
    assert(tdiv(SCALE as int, pow2s(0)) == SCALE as int);
}

/// The normalized-exponential transform of a nonempty vector.
pub fn softmax(z: &Vec<i64>) -> (r: Vec<i64>)
    requires
        z@.len() >= 1,
    ensures
        r@.len() == z@.len(),
        vi(r@) == softmax_s(vi(z@)),
{
    let ghost s = vi(z@);
    let mut mx: i64 = z[0];
    let mut i: usize = 1;
    assert(mx as int == seq_max(s.take(1)));
    while i < z.len()
        invariant
            z@.len() >= 1,
            1 <= i <= z@.len(),
            s == vi(z@),
            mx as int == seq_max(s.take(i as int)),
        decreases z@.len() - i,
    {
        let x = z[i];
        proof {
            assert(s.take(i as int + 1).drop_last() =~= s.take(i as int));
            assert(s.take(i as int + 1).last() == x as int);
        }
        if x > mx {
            mx = x;
        }
        i += 1;
    }
    proof {
        assert(s.take(s.len() as int) =~= s);
    }
    // every element is dominated by the maximum
    proof {
        assert forall|j: int| 0 <= j < s.len() implies mx as int - s[j] >= 0 by {
            lemma_seq_max_ge(s, j);
        };
    }
    // exponentials and their sum
    let mut es: Vec<i64> = Vec::new();
    let mut den: i64 = 0;
    let mut i2: usize = 0;
    while i2 < z.len()
        invariant
            z@.len() >= 1,
            s == vi(z@),
            mx as int == seq_max(s),
            forall|j: int| 0 <= j < s.len() ==> mx as int - s[j] >= 0,
            i2 <= z@.len(),
            es@.len() == i2,
            forall|j: int| 0 <= j < i2 ==> es@[j] as int == expneg_s(mx as int - s[j]),
            den as int == sm_den(s, mx as int, i2 as int),
        decreases z@.len() - i2,
    {
        let x = z[i2];
        let d128: i128 = (mx as i128) - (x as i128);
        let e: i64 = if d128 >= 1453632i128 {
            proof {
                lemma_div_ge_32(mx as int - x as int);
            }
            0i64
        } else {
            proof {
                assert(s[i2 as int] == x as int);
            }
            let d: i64 = d128 as i64;
            expneg(d)
        };
        assert(e as int == expneg_s(mx as int - s[i2 as int]));
        es.push(e);
        den = fadd(den, e);
        i2 += 1;
    }
    // the denominator dominates the unit contribution of the maximum
    proof {
        lemma_sm_den_bounds(s, mx as int, s.len() as int);
        lemma_seq_max_attained(s);
        let w = choose|w: int| 0 <= w < s.len() && s[w] == seq_max(s);
        lemma_expneg_zero();
        assert(expneg_s(mx as int - s[w]) == SCALE as int);
        assert(den as int >= SCALE as int);
    }
    let mut r: Vec<i64> = Vec::new();
    let mut i3: usize = 0;
    while i3 < es.len()
        invariant
            z@.len() >= 1,
            s == vi(z@),
            mx as int == seq_max(s),
            forall|j: int| 0 <= j < s.len() ==> mx as int - s[j] >= 0,
            es@.len() == z@.len(),
            forall|j: int| 0 <= j < es@.len() ==> es@[j] as int == expneg_s(mx as int - s[j]),
            den as int == sm_den(s, mx as int, s.len() as int),
            den >= SCALE,
            i3 <= es@.len(),
            r@.len() == i3,
            forall|j: int|
                0 <= j < i3 ==> r@[j] as int == tdiv(
                    expneg_s(mx as int - s[j]) * (SCALE as int),
                    sm_den(s, mx as int, s.len() as int),
                ),
        decreases es@.len() - i3,
    {
        let e = es[i3];
        proof {
            lemma_expneg_bounds(mx as int - s[i3 as int]);
            assert(0 <= (e as int) * (SCALE as int) <= 4294967296) by (nonlinear_arith)
                requires
                    0 <= e as int <= 65536,
            ;
        }
        let num: u64 = (e as u64) * (SCALE as u64);
        let q: u64 = num / (den as u64);
        proof {
            assert(q as int <= num as int) by (nonlinear_arith)
                requires
                    num as int >= 0,
                    den as int >= 1,
                    q as int == num as int / (den as int),
            ;
        }
        let p: i64 = q as i64;
        r.push(p);
        i3 += 1;
    }
    assert(vi(r@) =~= softmax_s(vi(z@)));
    r
}

/// The index of the first occurrence of the maximum of a nonempty sequence.
pub open spec fn argmax_s(s: Seq<int>) -> int
    recommends
        s.len() >= 1,
    decreases s.len(),
{
    if s.len() <= 1 {
        0
    } else {
        let p = argmax_s(s.drop_last());
        if s.last() > s[p] {
            s.len() - 1
        } else {
            p
        }
    }
}

/// The index of the largest component; on ties the lowest index wins.
pub fn argmax(v: &Vec<i64>) -> (r: usize)
    requires
        v@.len() >= 1,
    ensures
        r < v@.len(),
        r as int == argmax_s(vi(v@)),
        forall|j: int| 0 <= j < v@.len() ==> vi(v@)[j] <= vi(v@)[r as int],
        forall|j: int| 0 <= j < r ==> vi(v@)[j] < vi(v@)[r as int],
{
    let ghost s = vi(v@);
    let mut best: usize = 0;
    let mut i: usize = 1;
    assert(best as int == argmax_s(s.take(1)));
    while i < v.len()
        invariant
            v@.len() >= 1,
            s == vi(v@),
            1 <= i <= v@.len(),
            best < i,
            best as int == argmax_s(s.take(i as int)),
            forall|j: int| 0 <= j < i ==> s[j] <= s[best as int],
            forall|j: int| 0 <= j < best ==> s[j] < s[best as int],
        decreases v@.len() - i,
    {
        proof {
            assert(s.take(i as int + 1).drop_last() =~= s.take(i as int));
            assert(s.take(i as int + 1).last() == s[i as int]);
        }
        if v[i] > v[best] {
            best = i;
        }
        i += 1;
    }
    proof {
        assert(s.take(s.len() as int) =~= s);
    }
    best
}

/// Integer square root by binary search.
pub fn isqrt(x: u64) -> (r: u64)
    requires
        x <= 4294967296u64,
    ensures
        (r * r) as int <= x as int,
        ((r + 1) * (r + 1)) as int > x as int,
        r <= 65536,
{
    let mut lo: u64 = 0;
    let mut hi: u64 = 65537;
    assert((65537u64 * 65537u64) as int > x as int) by (nonlinear_arith)
        requires
            x <= 4294967296u64,
    ;
    while lo + 1 < hi
        invariant
            lo < hi,
            hi <= 65537,
            (lo * lo) as int <= x as int,
            (hi * hi) as int > x as int,
        decreases hi - lo,
    {
        let mid: u64 = lo + (hi - lo) / 2;
        proof {
            assert((mid as int) * (mid as int) <= 4295229444) by (nonlinear_arith)
                requires
                    0 <= mid as int <= 65537,
            ;
        }
        if mid * mid <= x {
            lo = mid;
        } else {
            hi = mid;
        }
    }
    lo
}

} // verus!
