//! Convolution and pooling kernels: 2-D cross-correlation, non-overlapping
//! 2x2 max-pooling (inference and training variants), the gradient scatter
//! that undoes pooling, and the rectifier derivative.

use vstd::prelude::*;
use vstd::arithmetic::div_mod::lemma_fundamental_div_mod;

use crate::errors::ShapeError;
use crate::fixed::{fadd, fadd_s, fmul, fmul_s, SCALE};
use crate::matrix::{dot_prefix, mat_add, vi, Matrix};
use crate::tensor::Tensor;

verus! {

/// The saturating sum over the first `n` filter rows of the window dot
/// products at output position (`r`, `c`).
pub open spec fn conv_rows(m: Matrix, f: Matrix, r: int, c: int, n: int) -> int
    decreases n,
{
    if n <= 0 {
        0
    } else {
        fadd_s(
            conv_rows(m, f, r, c, n - 1),
            dot_prefix(vi(m.data@[r + n - 1]@.skip(c)), vi(f.data@[n - 1]@), f.cols as int),
        )
    }
}

/// One output cell of the 2-D cross-correlation of `m` against `f`.
pub open spec fn conv_cell(m: Matrix, f: Matrix, r: int, c: int) -> int {
    conv_rows(m, f, r, c, f.rows as int)
}

/// One output cell of the channel-summed tensor convolution, over the first
/// `n` channels.
pub open spec fn tconv_prefix(t: Tensor, ft: Tensor, r: int, c: int, n: int) -> int
    decreases n,
{
    if n <= 0 {
        0
    } else {
        fadd_s(tconv_prefix(t, ft, r, c, n - 1), conv_cell(t.chan(n - 1), ft.chan(n - 1), r, c))
    }
}

/// One output cell of the full tensor convolution.
pub open spec fn tconv_cell(t: Tensor, ft: Tensor, r: int, c: int) -> int {
    tconv_prefix(t, ft, r, c, t.channels())
}

/// 2-D cross-correlation (no flip) of one channel against one filter.
/// The output is `(m.rows - f.rows + 1) x (m.cols - f.cols + 1)`.
pub fn matrix_convolution(m: &Matrix, f: &Matrix) -> (out: Matrix)
    requires
        m.wf(),
        f.wf(),
        1 <= f.rows <= m.rows,
        1 <= f.cols <= m.cols,
    ensures
        out.wf(),
        out.rows == m.rows - f.rows + 1,
        out.cols == m.cols - f.cols + 1,
        forall|r: int, c: int|
            0 <= r < out.rows && 0 <= c < out.cols ==> out.at(r, c) == conv_cell(*m, *f, r, c),
{
    let o_rows: usize = m.rows - f.rows + 1;
    let o_cols: usize = m.cols - f.cols + 1;
    let mut data: Vec<Vec<i64>> = Vec::new();
    let mut r: usize = 0;
    while r < o_rows
        invariant
            m.wf(),
            f.wf(),
            1 <= f.rows <= m.rows,
            1 <= f.cols <= m.cols,
            o_rows == m.rows - f.rows + 1,
            o_cols == m.cols - f.cols + 1,
            r <= o_rows,
            data@.len() == r,
            forall|i: int| 0 <= i < r ==> (#[trigger] data@[i])@.len() == o_cols,
            forall|i: int, j: int|
                0 <= i < r && 0 <= j < o_cols ==> data@[i]@[j] as int == conv_cell(*m, *f, i, j),
        decreases o_rows - r,
    {
        let mut row: Vec<i64> = Vec::new();
        let mut c: usize = 0;
        while c < o_cols
            invariant
                m.wf(),
                f.wf(),
                1 <= f.rows <= m.rows,
                1 <= f.cols <= m.cols,
                o_rows == m.rows - f.rows + 1,
                o_cols == m.cols - f.cols + 1,
                r < o_rows,
                c <= o_cols,
                row@.len() == c,
                forall|j: int| 0 <= j < c ==> row@[j] as int == conv_cell(*m, *f, r as int, j),
            decreases o_cols - c,
        {
            let mut acc: i64 = 0;
            let mut fr: usize = 0;
            while fr < f.rows
                invariant
                    m.wf(),
                    f.wf(),
                    1 <= f.rows <= m.rows,
                    1 <= f.cols <= m.cols,
                    r + f.rows <= m.rows,
                    c + f.cols <= m.cols,
                    fr <= f.rows,
                    acc as int == conv_rows(*m, *f, r as int, c as int, fr as int),
                decreases f.rows - fr,
            {
                let mrow = &m.data[r + fr];
                let frow = &f.data[fr];
                let mut racc: i64 = 0;
                let mut fc: usize = 0;
                while fc < f.cols
                    invariant
                        m.wf(),
                        f.wf(),
                        r + f.rows <= m.rows,
                        c + f.cols <= m.cols,
                        fr < f.rows,
                        mrow == &m.data@[r + fr],
                        frow == &f.data@[fr as int],
                        fc <= f.cols,
                        racc as int == dot_prefix(
                            vi(mrow@.skip(c as int)),
                            vi(frow@),
                            fc as int,
                        ),
                    decreases f.cols - fc,
                {
                    proof {
                        assert(vi(mrow@.skip(c as int))[fc as int] == mrow@[c + fc] as int);
                    }
                    racc = fadd(racc, fmul(mrow[c + fc], frow[fc]));
                    fc += 1;
                }
                acc = fadd(acc, racc);
                fr += 1;
            }
            row.push(acc);
            c += 1;
        }
        data.push(row);
        r += 1;
    }
    Matrix { rows: o_rows, cols: o_cols, data }
}

/// Channel-summed tensor convolution: cross-correlates each channel of `t`
/// against the matching channel of `ft` and sums the results into one matrix.
/// Fails when the channel counts differ, the tensors are empty, or the filter
/// does not fit inside the input.
pub fn tensor_convolution(t: &Tensor, ft: &Tensor) -> (out: Result<Matrix, ShapeError>)
    requires
        t.wf(),
        ft.wf(),
    ensures
        match out {
            Ok(m) => {
                &&& t.channels() == ft.channels()
                &&& t.channels() >= 1
                &&& 1 <= ft.t_rows() <= t.t_rows()
                &&& 1 <= ft.t_cols() <= t.t_cols()
                &&& m.wf()
                &&& m.rows == t.t_rows() - ft.t_rows() + 1
                &&& m.cols == t.t_cols() - ft.t_cols() + 1
                &&& forall|r: int, c: int|
                    0 <= r < m.rows && 0 <= c < m.cols ==> m.at(r, c) == tconv_cell(*t, *ft, r, c)
            },
            Err(e) => {
                &&& (e == ShapeError::ChannelMismatch <==> (t.channels() != ft.channels()
                    || t.channels() == 0))
                &&& (e == ShapeError::FilterTooLarge <==> (t.channels() == ft.channels()
                    && t.channels() >= 1 && !(1 <= ft.t_rows() <= t.t_rows() && 1 <= ft.t_cols()
                    <= t.t_cols())))
            },
        },
        out.is_err() <==> (t.channels() != ft.channels() || t.channels() == 0 || !(1 <= ft.t_rows()
            <= t.t_rows() && 1 <= ft.t_cols() <= t.t_cols())),
{
    if t.data.len() != ft.data.len() || t.data.len() == 0 {
        return Err(ShapeError::ChannelMismatch);
    }
    let f0 = &ft.data[0];
    let m0 = &t.data[0];
    if f0.rows < 1 || f0.rows > m0.rows || f0.cols < 1 || f0.cols > m0.cols {
        return Err(ShapeError::FilterTooLarge);
    }
    let o_rows: usize = m0.rows - f0.rows + 1;
    let o_cols: usize = m0.cols - f0.cols + 1;
    let mut out = Matrix::zeros(o_rows, o_cols);
    let mut ch: usize = 0;
    while ch < t.data.len()
        invariant
            t.wf(),
            ft.wf(),
            t.channels() == ft.channels(),
            t.channels() >= 1,
            1 <= ft.t_rows() <= t.t_rows(),
            1 <= ft.t_cols() <= t.t_cols(),
            o_rows == t.t_rows() - ft.t_rows() + 1,
            o_cols == t.t_cols() - ft.t_cols() + 1,
            ch <= t.channels(),
            out.wf(),
            out.rows == o_rows,
            out.cols == o_cols,
            forall|r: int, c: int|
                0 <= r < o_rows && 0 <= c < o_cols ==> out.at(r, c) == tconv_prefix(
                    *t,
                    *ft,
                    r,
                    c,
                    ch as int,
                ),
        decreases t.data@.len() - ch,
    {
        proof {
            assert(t.chan(ch as int).wf());
            assert(ft.chan(ch as int).wf());
        }
        let conv = matrix_convolution(&t.data[ch], &ft.data[ch]);
        out = mat_add(&out, &conv);
        ch += 1;
    }
    Ok(out)
}

/// The larger of two scalars (the left one on ties).
pub open spec fn imax(a: int, b: int) -> int {
    if a >= b {
        a
    } else {
        b
    }
}

/// The maximum of the 2x2 window of `m` whose top-left corner is
/// (`2r`, `2c`), taken in the scan order top-left, below, right, below-right.
pub open spec fn window_max(m: Matrix, r: int, c: int) -> int {
    imax(imax(imax(m.at(2 * r, 2 * c), m.at(2 * r + 1, 2 * c)), m.at(2 * r, 2 * c + 1)), m.at(2 * r + 1, 2 * c + 1))
}

/// Row coordinate of window candidate `q` (scan order: top-left, below,
/// right, below-right).
pub open spec fn cand_r(q: int, r: int) -> int {
    if q == 0 || q == 2 {
        2 * r
    } else {
        2 * r + 1
    }
}

/// Column coordinate of window candidate `q`.
pub open spec fn cand_c(q: int, c: int) -> int {
    if q <= 1 {
        2 * c
    } else {
        2 * c + 1
    }
}

/// Value of window candidate `q` of the window at output cell (`r`, `c`).
pub open spec fn wval(m: Matrix, r: int, c: int, q: int) -> int {
    m.at(cand_r(q, r), cand_c(q, c))
}

/// The first candidate (in scan order) that attains the window maximum:
/// the recorded source coordinate of a training-mode pooling step.
pub open spec fn pick_q(m: Matrix, r: int, c: int) -> int {
    if wval(m, r, c, 0) >= wval(m, r, c, 1) && wval(m, r, c, 0) >= wval(m, r, c, 2) && wval(
        m,
        r,
        c,
        0,
    ) >= wval(m, r, c, 3) {
        0
    } else if wval(m, r, c, 1) > wval(m, r, c, 0) && wval(m, r, c, 1) >= wval(m, r, c, 2) && wval(
        m,
        r,
        c,
        1,
    ) >= wval(m, r, c, 3) {
        1
    } else if wval(m, r, c, 2) > wval(m, r, c, 0) && wval(m, r, c, 2) > wval(m, r, c, 1) && wval(
        m,
        r,
        c,
        2,
    ) >= wval(m, r, c, 3) {
        2
    } else {
        3
    }
}

/// Non-overlapping 2x2 max-pooling. Fails unless both dimensions are even;
/// the output is half the input in each dimension and every output cell is
/// the maximum of its window.
pub fn max_pooling(input: &Matrix) -> (out: Result<Matrix, ShapeError>)
    requires
        input.wf(),
    ensures
        out.is_err() <==> (input.rows % 2 != 0 || input.cols % 2 != 0),
        match out {
            Ok(m) => {
                &&& m.wf()
                &&& input.rows == 2 * m.rows
                &&& input.cols == 2 * m.cols
                &&& forall|r: int, c: int|
                    0 <= r < m.rows && 0 <= c < m.cols ==> m.at(r, c) == window_max(*input, r, c)
            },
            Err(e) => e == ShapeError::OddDimensions,
        },
{
    if input.rows % 2 != 0 || input.cols % 2 != 0 {
        return Err(ShapeError::OddDimensions);
    }
    let o_rows: usize = input.rows / 2;
    let o_cols: usize = input.cols / 2;
    let mut data: Vec<Vec<i64>> = Vec::new();
    let mut r: usize = 0;
    while r < o_rows
        invariant
            input.wf(),
            input.rows == 2 * o_rows,
            input.cols == 2 * o_cols,
            r <= o_rows,
            data@.len() == r,
            forall|i: int| 0 <= i < r ==> (#[trigger] data@[i])@.len() == o_cols,
            forall|i: int, j: int|
                0 <= i < r && 0 <= j < o_cols ==> data@[i]@[j] as int == window_max(*input, i, j),
        decreases o_rows - r,
    {
        let mut row: Vec<i64> = Vec::new();
        let mut c: usize = 0;
        while c < o_cols
            invariant
                input.wf(),
                input.rows == 2 * o_rows,
                input.cols == 2 * o_cols,
                r < o_rows,
                c <= o_cols,
                row@.len() == c,
                forall|j: int|
                    0 <= j < c ==> row@[j] as int == window_max(*input, r as int, j),
            decreases o_cols - c,
        {
            let (v, _, _) = window_scan(input, r, c);
            row.push(v);
            c += 1;
        }
        data.push(row);
        r += 1;
    }
    Ok(Matrix { rows: o_rows, cols: o_cols, data })
}

/// Scans one 2x2 window in the fixed order and returns the maximum together
/// with the coordinate of the first candidate that attains it.
fn window_scan(input: &Matrix, r: usize, c: usize) -> (res: (i64, usize, usize))
    requires
        input.wf(),
        2 * r + 1 < input.rows,
        2 * c + 1 < input.cols,
    ensures
        res.0 as int == window_max(*input, r as int, c as int),
        res.1 as int == cand_r(pick_q(*input, r as int, c as int), r as int),
        res.2 as int == cand_c(pick_q(*input, r as int, c as int), c as int),
{
    let mut best: i64 = input.data[2 * r][2 * c];
    let mut br: usize = 2 * r;
    let mut bc: usize = 2 * c;
    let v1 = input.data[2 * r + 1][2 * c];
    if v1 > best {
        best = v1;
        br = 2 * r + 1;
        bc = 2 * c;
    }
    let v2 = input.data[2 * r][2 * c + 1];
    if v2 > best {
        best = v2;
        br = 2 * r;
        bc = 2 * c + 1;
    }
    let v3 = input.data[2 * r + 1][2 * c + 1];
    if v3 > best {
        best = v3;
        br = 2 * r + 1;
        bc = 2 * c + 1;
    }
    (best, br, bc)
}

/// Value of window candidate `q` of the window belonging to the `k`-th output
/// cell (row-major) of a pooling step with `w` output columns.
pub open spec fn wcell(m: Matrix, k: int, w: int, q: int) -> int {
    wval(m, k / w, k % w, q)
}

/// 2x2 max-pooling that additionally records, per output cell in row-major
/// order, the source coordinate of the selected maximum (ties resolved to the
/// first candidate in scan order).
pub fn training_max_pooling(input: &Matrix) -> (out: Result<
    (Matrix, Vec<(usize, usize)>),
    ShapeError,
>)
    requires
        input.wf(),
    ensures
        out.is_err() <==> (input.rows % 2 != 0 || input.cols % 2 != 0),
        match out {
            Ok(p) => {
                &&& p.0.wf()
                &&& input.rows == 2 * p.0.rows
                &&& input.cols == 2 * p.0.cols
                &&& forall|r: int, c: int|
                    0 <= r < p.0.rows && 0 <= c < p.0.cols ==> p.0.at(r, c) == window_max(
                        *input,
                        r,
                        c,
                    )
                &&& p.1@.len() == p.0.rows * p.0.cols
                &&& forall|k: int|
                    0 <= k < p.1@.len() ==> (#[trigger] p.1@[k]).0 as int == cand_r(
                        pick_q(*input, k / (p.0.cols as int), k % (p.0.cols as int)),
                        k / (p.0.cols as int),
                    ) && p.1@[k].1 as int == cand_c(
                        pick_q(*input, k / (p.0.cols as int), k % (p.0.cols as int)),
                        k % (p.0.cols as int),
                    )
            },
            Err(e) => e == ShapeError::OddDimensions,
        },
{
    if input.rows % 2 != 0 || input.cols % 2 != 0 {
        return Err(ShapeError::OddDimensions);
    }
    let o_rows: usize = input.rows / 2;
    let o_cols: usize = input.cols / 2;
    let mut data: Vec<Vec<i64>> = Vec::new();
    let mut indices: Vec<(usize, usize)> = Vec::new();
    let mut r: usize = 0;
    while r < o_rows
        invariant
            input.wf(),
            input.rows == 2 * o_rows,
            input.cols == 2 * o_cols,
            r <= o_rows,
            data@.len() == r,
            indices@.len() == r * o_cols,
            forall|i: int| 0 <= i < r ==> (#[trigger] data@[i])@.len() == o_cols,
            forall|i: int, j: int|
                0 <= i < r && 0 <= j < o_cols ==> data@[i]@[j] as int == window_max(*input, i, j),
            forall|k: int|
                0 <= k < indices@.len() ==> (#[trigger] indices@[k]).0 as int == cand_r(
                    pick_q(*input, k / (o_cols as int), k % (o_cols as int)),
                    k / (o_cols as int),
                ) && indices@[k].1 as int == cand_c(
                    pick_q(*input, k / (o_cols as int), k % (o_cols as int)),
                    k % (o_cols as int),
                ),
        decreases o_rows - r,
    {
        let mut row: Vec<i64> = Vec::new();
        let mut c: usize = 0;
        while c < o_cols
            invariant
                input.wf(),
                input.rows == 2 * o_rows,
                input.cols == 2 * o_cols,
                r < o_rows,
                c <= o_cols,
                row@.len() == c,
                indices@.len() == r * o_cols + c,
                forall|j: int|
                    0 <= j < c ==> row@[j] as int == window_max(*input, r as int, j),
                forall|k: int|
                    0 <= k < indices@.len() ==> (#[trigger] indices@[k]).0 as int == cand_r(
                        pick_q(*input, k / (o_cols as int), k % (o_cols as int)),
                        k / (o_cols as int),
                    ) && indices@[k].1 as int == cand_c(
                        pick_q(*input, k / (o_cols as int), k % (o_cols as int)),
                        k % (o_cols as int),
                    ),
            decreases o_cols - c,
        {
            let (v, ir, ic) = window_scan(input, r, c);
            proof {
                lemma_row_major(r as int, c as int, o_cols as int);
            }
            row.push(v);
            indices.push((ir, ic));
            c += 1;
        }
        data.push(row);
        proof {
            assert(((r + 1) as int) * (o_cols as int) == (r as int) * (o_cols as int) + (
            o_cols as int)) by (nonlinear_arith);
        }
        r += 1;
    }
    Ok((Matrix { rows: o_rows, cols: o_cols, data }, indices))
}

/// A row-major position decomposes uniquely: `(r*w + c) / w == r` and
/// `(r*w + c) % w == c` whenever `0 <= c < w`.
proof fn lemma_row_major(r: int, c: int, w: int)
    requires
        r >= 0,
        0 <= c < w,
    ensures
        (r * w + c) / w == r,
        (r * w + c) % w == c,
{
    assert((r * w + c) / w == r && (r * w + c) % w == c) by (nonlinear_arith)
        requires
            r >= 0,
            0 <= c < w,
    ;
}

/// Scatters a pooled gradient back through the recorded pooling choices: the
/// result has `grad`'s cell value at each recorded source coordinate and zero
/// at every other position.
pub fn pool_backward(indices: &Vec<(usize, usize)>, grad: &Matrix, src: &Matrix) -> (out: Matrix)
    requires
        grad.wf(),
        src.wf(),
        src.rows == 2 * grad.rows,
        src.cols == 2 * grad.cols,
        indices@.len() == grad.rows * grad.cols,
        forall|k: int|
            0 <= k < indices@.len() ==> (#[trigger] indices@[k]).0 as int == cand_r(
                pick_q(*src, k / (grad.cols as int), k % (grad.cols as int)),
                k / (grad.cols as int),
            ) && indices@[k].1 as int == cand_c(
                pick_q(*src, k / (grad.cols as int), k % (grad.cols as int)),
                k % (grad.cols as int),
            ),
    ensures
        out.wf(),
        out.rows == src.rows,
        out.cols == src.cols,
        forall|k: int, q: int|
            0 <= k < indices@.len() && 0 <= q < 4 ==> #[trigger] wcell(
                out,
                k,
                grad.cols as int,
                q,
            ) == (if q == pick_q(*src, k / (grad.cols as int), k % (grad.cols as int)) {
                grad.at(k / (grad.cols as int), k % (grad.cols as int))
            } else {
                0
            }),
{
    let o_cols = grad.cols;
    let mut out = Matrix::zeros(src.rows, src.cols);
    if o_cols == 0 || grad.rows == 0 {
        proof {
            assert((grad.rows as int) * (grad.cols as int) == 0) by (nonlinear_arith)
                requires
                    grad.rows == 0 || grad.cols == 0,
            ;
        }
        return out;
    }
    let n: usize = indices.len();
    proof {
        assert forall|kk: int, q: int|
            0 <= kk < n && 0 <= q < 4 implies #[trigger] wcell(out, kk, o_cols as int, q)
            == 0 by {
            lemma_cand_bounds(*src, *grad, kk, o_cols as int);
        };
    }
    let mut k: usize = 0;
    while k < n
        invariant
            grad.wf(),
            src.wf(),
            src.rows == 2 * grad.rows,
            src.cols == 2 * grad.cols,
            o_cols == grad.cols,
            o_cols >= 1,
            grad.rows >= 1,
            n == indices@.len(),
            n == grad.rows * grad.cols,
            k <= n,
            out.wf(),
            out.rows == src.rows,
            out.cols == src.cols,
            forall|kk: int|
                0 <= kk < indices@.len() ==> (#[trigger] indices@[kk]).0 as int == cand_r(
                    pick_q(*src, kk / (o_cols as int), kk % (o_cols as int)),
                    kk / (o_cols as int),
                ) && indices@[kk].1 as int == cand_c(
                    pick_q(*src, kk / (o_cols as int), kk % (o_cols as int)),
                    kk % (o_cols as int),
                ),
            forall|kk: int, q: int|
                0 <= kk < k && 0 <= q < 4 ==> #[trigger] wcell(out, kk, o_cols as int, q) == (
                if q == pick_q(*src, kk / (o_cols as int), kk % (o_cols as int)) {
                    grad.at(kk / (o_cols as int), kk % (o_cols as int))
                } else {
                    0
                }),
            forall|kk: int, q: int|
                k <= kk < n && 0 <= q < 4 ==> #[trigger] wcell(out, kk, o_cols as int, q) == 0,
        decreases n - k,
    {
        let r: usize = k / o_cols;
        let c: usize = k % o_cols;
        proof {
            lemma_fundamental_div_mod(k as int, o_cols as int);
            lemma_cell_bounds(k as int, o_cols as int, grad.rows as int);
        }
        let (ir, ic) = (indices[k].0, indices[k].1);
        proof {
            lemma_cand_bounds(*src, *grad, k as int, o_cols as int);
        }
        let v = grad.data[r][c];
        let ghost prev = out;
        out.data[ir][ic] = v;
        proof {
            lemma_scatter_step(prev, out, *src, *grad, k as int);
        }
        k += 1;
    }
    out
}

/// Bounds of the row-major decomposition of a cell index.
proof fn lemma_cell_bounds(k: int, w: int, h: int)
    requires
        w >= 1,
        h >= 1,
        0 <= k < h * w,
    ensures
        0 <= k / w < h,
        0 <= k % w < w,
{
    assert(0 <= k / w < h && 0 <= k % w < w) by (nonlinear_arith)
        requires
            w >= 1,
            h >= 1,
            0 <= k < h * w,
    ;
}

/// The recorded coordinate of cell `k` lies inside the source matrix.
proof fn lemma_cand_bounds(src: Matrix, grad: Matrix, k: int, w: int)
    requires
        grad.wf(),
        src.rows == 2 * grad.rows,
        src.cols == 2 * grad.cols,
        w == grad.cols,
        w >= 1,
        grad.rows >= 1,
        0 <= k < grad.rows * grad.cols,
    ensures
        0 <= k / w < grad.rows,
        0 <= k % w < grad.cols,
{
    lemma_cell_bounds(k, w, grad.rows as int);
}

/// Two distinct output cells decompose to distinct (row, column) pairs.
proof fn lemma_cell_distinct(k1: int, k2: int, w: int)
    requires
        w >= 1,
        k1 >= 0,
        k2 >= 0,
        k1 != k2,
    ensures
        k1 / w != k2 / w || k1 % w != k2 % w,
{
    lemma_fundamental_div_mod(k1, w);
    lemma_fundamental_div_mod(k2, w);
}

/// One scatter write fills the window of cell `k` (gradient at the recorded
/// pick, zero elsewhere) and leaves every other window as it was.
proof fn lemma_scatter_step(prev: Matrix, cur: Matrix, src: Matrix, grad: Matrix, k: int)
    requires
        grad.wf(),
        src.wf(),
        prev.wf(),
        src.rows == 2 * grad.rows,
        src.cols == 2 * grad.cols,
        grad.cols >= 1,
        grad.rows >= 1,
        0 <= k < grad.rows * grad.cols,
        prev.rows == src.rows,
        prev.cols == src.cols,
        cur.rows == prev.rows,
        cur.cols == prev.cols,
        cur.wf(),
        cur.at(
            cand_r(pick_q(src, k / (grad.cols as int), k % (grad.cols as int)), k / (grad.cols as int)),
            cand_c(pick_q(src, k / (grad.cols as int), k % (grad.cols as int)), k % (grad.cols as int)),
        ) == grad.at(k / (grad.cols as int), k % (grad.cols as int)),
        forall|i: int, j: int|
            0 <= i < prev.rows && 0 <= j < prev.cols && !(i == cand_r(
                pick_q(src, k / (grad.cols as int), k % (grad.cols as int)),
                k / (grad.cols as int),
            ) && j == cand_c(
                pick_q(src, k / (grad.cols as int), k % (grad.cols as int)),
                k % (grad.cols as int),
            )) ==> cur.at(i, j) == prev.at(i, j),
        forall|kk: int, q: int|
            0 <= kk < k && 0 <= q < 4 ==> #[trigger] wcell(prev, kk, grad.cols as int, q) == (
            if q == pick_q(src, kk / (grad.cols as int), kk % (grad.cols as int)) {
                grad.at(kk / (grad.cols as int), kk % (grad.cols as int))
            } else {
                0
            }),
        forall|kk: int, q: int|
            k <= kk < grad.rows * grad.cols && 0 <= q < 4 ==> #[trigger] wcell(
                prev,
                kk,
                grad.cols as int,
                q,
            ) == 0,
    ensures
        forall|kk: int, q: int|
            0 <= kk < k + 1 && 0 <= q < 4 ==> #[trigger] wcell(cur, kk, grad.cols as int, q) == (
            if q == pick_q(src, kk / (grad.cols as int), kk % (grad.cols as int)) {
                grad.at(kk / (grad.cols as int), kk % (grad.cols as int))
            } else {
                0
            }),
        forall|kk: int, q: int|
            k + 1 <= kk < grad.rows * grad.cols && 0 <= q < 4 ==> #[trigger] wcell(
                cur,
                kk,
                grad.cols as int,
                q,
            ) == 0,
{
    let w = grad.cols as int;
    let pk = pick_q(src, k / w, k % w);
    let ir = cand_r(pk, k / w);
    let ic = cand_c(pk, k % w);
    assert forall|kk: int, q: int|
        0 <= kk < grad.rows * grad.cols && 0 <= q < 4 && kk != k implies #[trigger] wcell(
        cur,
        kk,
        w,
        q,
    ) == wcell(prev, kk, w, q) by {
        lemma_cand_bounds(src, grad, kk, w);
        lemma_cand_bounds(src, grad, k, w);
        lemma_cell_distinct(kk, k, w);
    };
    assert forall|q: int| 0 <= q < 4 && q != pk implies #[trigger] wcell(cur, k, w, q) == 0 by {
        lemma_cand_bounds(src, grad, k, w);
        assert(wcell(prev, k, w, q) == 0);
    };
    assert(wcell(cur, k, w, pk) == grad.at(k / w, k % w)) by {
        lemma_cand_bounds(src, grad, k, w);
    };
}

/// Convolution against an abstract filter given as a cell function: the
/// partial dot product of filter row `fr` (first `n` cells) at output
/// position (`r`, `c`).
pub open spec fn conv_fun_dot(
    m: Matrix,
    g: spec_fn(int, int) -> int,
    r: int,
    c: int,
    fr: int,
    n: int,
) -> int
    decreases n,
{
    if n <= 0 {
        0
    } else {
        fadd_s(conv_fun_dot(m, g, r, c, fr, n - 1), fmul_s(m.at(r + fr, c + n - 1), g(fr, n - 1)))
    }
}

/// The sum over the first `n` filter rows, each of width `w`.
pub open spec fn conv_fun_rows(
    m: Matrix,
    g: spec_fn(int, int) -> int,
    r: int,
    c: int,
    n: int,
    w: int,
) -> int
    decreases n,
{
    if n <= 0 {
        0
    } else {
        fadd_s(conv_fun_rows(m, g, r, c, n - 1, w), conv_fun_dot(m, g, r, c, n - 1, w))
    }
}

/// One output cell of the convolution of `m` against an `h x w` filter given
/// by the cell function `g`.
pub open spec fn conv_fun_cell(
    m: Matrix,
    g: spec_fn(int, int) -> int,
    r: int,
    c: int,
    h: int,
    w: int,
) -> int {
    conv_fun_rows(m, g, r, c, h, w)
}

/// A row's partial window dot product agrees with the abstract-filter form
/// when the concrete filter matches the cell function.
proof fn lemma_dot_fun(m: Matrix, f: Matrix, g: spec_fn(int, int) -> int, r: int, c: int, fr: int, n: int)
    requires
        m.wf(),
        f.wf(),
        0 <= fr < f.rows,
        0 <= n <= f.cols,
        0 <= r,
        0 <= c,
        r + f.rows <= m.rows,
        c + f.cols <= m.cols,
        forall|i: int, j: int|
            0 <= i < f.rows && 0 <= j < f.cols ==> #[trigger] f.at(i, j) == g(i, j),
    ensures
        dot_prefix(vi(m.data@[r + fr]@.skip(c)), vi(f.data@[fr]@), n) == conv_fun_dot(
            m,
            g,
            r,
            c,
            fr,
            n,
        ),
    decreases n,
{
    if n > 0 {
        lemma_dot_fun(m, f, g, r, c, fr, n - 1);
        assert(vi(m.data@[r + fr]@.skip(c))[n - 1] == m.at(r + fr, c + n - 1));
        assert(vi(f.data@[fr]@)[n - 1] == f.at(fr, n - 1));
    }
}

/// Convolving against a concrete filter that matches a cell function gives
/// the abstract-filter convolution, cell for cell.
pub proof fn lemma_conv_fun(m: Matrix, f: Matrix, g: spec_fn(int, int) -> int, r: int, c: int)
    requires
        m.wf(),
        f.wf(),
        1 <= f.rows,
        1 <= f.cols,
        0 <= r,
        0 <= c,
        r + f.rows <= m.rows,
        c + f.cols <= m.cols,
        forall|i: int, j: int|
            0 <= i < f.rows && 0 <= j < f.cols ==> #[trigger] f.at(i, j) == g(i, j),
    ensures
        conv_cell(m, f, r, c) == conv_fun_cell(m, g, r, c, f.rows as int, f.cols as int),
{
    lemma_conv_fun_rows(m, f, g, r, c, f.rows as int);
}

/// Row-sum form of the lemma above.
proof fn lemma_conv_fun_rows(m: Matrix, f: Matrix, g: spec_fn(int, int) -> int, r: int, c: int, n: int)
    requires
        m.wf(),
        f.wf(),
        1 <= f.rows,
        1 <= f.cols,
        0 <= n <= f.rows,
        0 <= r,
        0 <= c,
        r + f.rows <= m.rows,
        c + f.cols <= m.cols,
        forall|i: int, j: int|
            0 <= i < f.rows && 0 <= j < f.cols ==> #[trigger] f.at(i, j) == g(i, j),
    ensures
        conv_rows(m, f, r, c, n) == conv_fun_rows(m, g, r, c, n, f.cols as int),
    decreases n,
{
    if n > 0 {
        lemma_conv_fun_rows(m, f, g, r, c, n - 1);
        lemma_dot_fun(m, f, g, r, c, n - 1, f.cols as int);
    }
}

/// Abstract-filter convolutions agree whenever the matrices agree on the
/// touched region and the filter cell functions agree on the filter region.
pub proof fn lemma_conv_fun_congruence(
    m1: Matrix,
    m2: Matrix,
    g1: spec_fn(int, int) -> int,
    g2: spec_fn(int, int) -> int,
    r: int,
    c: int,
    h: int,
    w: int,
)
    requires
        0 <= r,
        0 <= c,
        h >= 0,
        w >= 0,
        forall|i: int, j: int| 0 <= i < h && 0 <= j < w ==> #[trigger] g1(i, j) == g2(i, j),
        forall|i: int, j: int|
            0 <= i < h && 0 <= j < w ==> #[trigger] m1.at(r + i, c + j) == m2.at(r + i, c + j),
    ensures
        conv_fun_cell(m1, g1, r, c, h, w) == conv_fun_cell(m2, g2, r, c, h, w),
{
    lemma_conv_fun_rows_congruence(m1, m2, g1, g2, r, c, h, w, h);
}

proof fn lemma_conv_fun_rows_congruence(
    m1: Matrix,
    m2: Matrix,
    g1: spec_fn(int, int) -> int,
    g2: spec_fn(int, int) -> int,
    r: int,
    c: int,
    h: int,
    w: int,
    n: int,
)
    requires
        0 <= r,
        0 <= c,
        0 <= n <= h,
        w >= 0,
        forall|i: int, j: int| 0 <= i < h && 0 <= j < w ==> #[trigger] g1(i, j) == g2(i, j),
        forall|i: int, j: int|
            0 <= i < h && 0 <= j < w ==> #[trigger] m1.at(r + i, c + j) == m2.at(r + i, c + j),
    ensures
        conv_fun_rows(m1, g1, r, c, n, w) == conv_fun_rows(m2, g2, r, c, n, w),
    decreases n,
{
    if n > 0 {
        lemma_conv_fun_rows_congruence(m1, m2, g1, g2, r, c, h, w, n - 1);
        lemma_conv_fun_dot_congruence(m1, m2, g1, g2, r, c, h, w, n - 1, w);
    }
}

proof fn lemma_conv_fun_dot_congruence(
    m1: Matrix,
    m2: Matrix,
    g1: spec_fn(int, int) -> int,
    g2: spec_fn(int, int) -> int,
    r: int,
    c: int,
    h: int,
    w: int,
    fr: int,
    n: int,
)
    requires
        0 <= r,
        0 <= c,
        0 <= fr < h,
        0 <= n <= w,
        forall|i: int, j: int| 0 <= i < h && 0 <= j < w ==> #[trigger] g1(i, j) == g2(i, j),
        forall|i: int, j: int|
            0 <= i < h && 0 <= j < w ==> #[trigger] m1.at(r + i, c + j) == m2.at(r + i, c + j),
    ensures
        conv_fun_dot(m1, g1, r, c, fr, n) == conv_fun_dot(m2, g2, r, c, fr, n),
    decreases n,
{
    if n > 0 {
        lemma_conv_fun_dot_congruence(m1, m2, g1, g2, r, c, h, w, fr, n - 1);
    }
}

/// The window cell and pooling pick belonging to a full-resolution position:
/// position (`i`, `j`) lies in the window of output cell `(i/2, j/2)`, as
/// candidate `(i % 2) + 2 * (j % 2)` of the scan order.
pub proof fn lemma_pos_window(i: int, j: int, h: int, w: int)
    requires
        0 <= i < 2 * h,
        0 <= j < 2 * w,
        w >= 1,
        h >= 1,
    ensures
        0 <= (i / 2) * w + (j / 2) < h * w,
        ((i / 2) * w + (j / 2)) / w == i / 2,
        ((i / 2) * w + (j / 2)) % w == j / 2,
        0 <= (i % 2) + 2 * (j % 2) < 4,
        cand_r((i % 2) + 2 * (j % 2), i / 2) == i,
        cand_c((i % 2) + 2 * (j % 2), j / 2) == j,
{
    lemma_fundamental_div_mod(i, 2);
    lemma_fundamental_div_mod(j, 2);
    assert(0 <= i / 2 < h && 0 <= j / 2 < w) by (nonlinear_arith)
        requires
            0 <= i < 2 * h,
            0 <= j < 2 * w,
            i == 2 * (i / 2) + i % 2,
            j == 2 * (j / 2) + j % 2,
            0 <= i % 2 < 2,
            0 <= j % 2 < 2,
    ;
    lemma_row_major(i / 2, j / 2, w);
    assert(0 <= (i / 2) * w + (j / 2) < h * w) by (nonlinear_arith)
        requires
            0 <= i / 2 < h,
            0 <= j / 2 < w,
            w >= 1,
    ;
}

/// Scatter law: a scattered gradient matrix carries, at every position, the
/// gradient of its window exactly when that position is the recorded pooling
/// choice, and zero otherwise. In particular a unit gradient reappears as a
/// matrix with the unit exactly at the recorded coordinate.
pub proof fn lemma_scatter_cells(grad: Matrix, src: Matrix, out: Matrix, i: int, j: int)
    requires
        grad.wf(),
        src.wf(),
        grad.rows >= 1,
        grad.cols >= 1,
        src.rows == 2 * grad.rows,
        src.cols == 2 * grad.cols,
        out.rows == src.rows,
        out.cols == src.cols,
        forall|k: int, q: int|
            0 <= k < grad.rows * grad.cols && 0 <= q < 4 ==> #[trigger] wcell(
                out,
                k,
                grad.cols as int,
                q,
            ) == (if q == pick_q(src, k / (grad.cols as int), k % (grad.cols as int)) {
                grad.at(k / (grad.cols as int), k % (grad.cols as int))
            } else {
                0
            }),
        0 <= i < src.rows,
        0 <= j < src.cols,
    ensures
        out.at(i, j) == (if pick_q(src, i / 2, j / 2) == (i % 2) + 2 * (j % 2) {
            grad.at(i / 2, j / 2)
        } else {
            0
        }),
{
    lemma_pos_window(i, j, grad.rows as int, grad.cols as int);
    let k = (i / 2) * (grad.cols as int) + (j / 2);
    let q = (i % 2) + 2 * (j % 2);
    assert(wcell(out, k, grad.cols as int, q) == (if q == pick_q(
        src,
        k / (grad.cols as int),
        k % (grad.cols as int),
    ) {
        grad.at(k / (grad.cols as int), k % (grad.cols as int))
    } else {
        0
    }));
}

/// The rectifier derivative indicator: one (in fixed point) where the input
/// is positive, zero elsewhere.
pub open spec fn relu_ind_s(x: int) -> int {
    if x > 0 {
        SCALE as int
    } else {
        0
    }
}

/// Derivative of the rectifying non-linearity, elementwise over a tensor.
pub fn relu_derivative(t: &Tensor) -> (out: Tensor)
    requires
        t.wf(),
    ensures
        out.wf(),
        out.channels() == t.channels(),
        out.t_rows() == t.t_rows(),
        out.t_cols() == t.t_cols(),
        forall|ch: int, r: int, c: int|
            0 <= ch < t.channels() && 0 <= r < t.t_rows() && 0 <= c < t.t_cols()
                ==> #[trigger] out.chan(ch).at(r, c) == relu_ind_s(t.chan(ch).at(r, c)),
{
    let mut data: Vec<Matrix> = Vec::new();
    let mut ch: usize = 0;
    while ch < t.data.len()
        invariant
            t.wf(),
            ch <= t.channels(),
            data@.len() == ch,
            forall|i: int|
                0 <= i < ch ==> (#[trigger] data@[i]).wf() && data@[i].rows == t.t_rows()
                    && data@[i].cols == t.t_cols(),
            forall|i: int, r: int, c: int|
                0 <= i < ch && 0 <= r < t.t_rows() && 0 <= c < t.t_cols()
                    ==> #[trigger] data@[i].at(r, c) == relu_ind_s(t.chan(i).at(r, c)),
        decreases t.data@.len() - ch,
    {
        proof {
            assert(t.chan(ch as int).wf());
        }
        let m = &t.data[ch];
        let mut rows: Vec<Vec<i64>> = Vec::new();
        let mut r: usize = 0;
        while r < m.rows
            invariant
                m.wf(),
                r <= m.rows,
                rows@.len() == r,
                forall|i: int| 0 <= i < r ==> (#[trigger] rows@[i])@.len() == m.cols,
                forall|i: int, j: int|
                    0 <= i < r && 0 <= j < m.cols ==> rows@[i]@[j] as int == relu_ind_s(
                        m.at(i, j),
                    ),
            decreases m.rows - r,
        {
            let mrow = &m.data[r];
            let mut row: Vec<i64> = Vec::new();
            let mut c: usize = 0;
            while c < m.cols
                invariant
                    m.wf(),
                    r < m.rows,
                    mrow == &m.data@[r as int],
                    c <= m.cols,
                    row@.len() == c,
                    forall|j: int|
                        0 <= j < c ==> row@[j] as int == relu_ind_s(m.at(r as int, j)),
                decreases m.cols - c,
            {
                row.push(if mrow[c] > 0 { SCALE } else { 0 });
                c += 1;
            }
            rows.push(row);
            r += 1;
        }
        data.push(Matrix { rows: m.rows, cols: m.cols, data: rows });
        ch += 1;
    }
    Tensor { data }
}

} // verus!
