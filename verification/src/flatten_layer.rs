//! The flatten layer: a stateless, bidirectional adapter between a spatial
//! tensor of a configured shape and a flat vector of the configured length.
//! The scan order is channel-major, then column-major, then row, and the two
//! directions are exact inverses of each other.

use vstd::prelude::*;

use crate::errors::ShapeError;
use crate::matrix::Matrix;
use crate::tensor::Tensor;

verus! {

/// A shape adapter fixed at construction: `d` channels of `h` rows by `w`
/// columns flatten to a vector of length `w * h * d`.
#[derive(Debug)]
pub struct FlattenLayer {
    pub w: usize,
    pub h: usize,
    pub d: usize,
}

impl FlattenLayer {
    /// The flat vector length the layer is configured for.
    pub open spec fn size(self) -> int {
        (self.w as int) * (self.h as int) * (self.d as int)
    }

    /// The configured sizes produce vector positions that fit the machine.
    pub open spec fn wf(self) -> bool {
        (self.h as int) * (self.w as int) <= usize::MAX as int && (self.h as int) * (
        self.w as int) * (self.d as int) <= usize::MAX as int
    }

    /// The flat position of channel `ch`, column `col`, row `row` in the scan
    /// order (channel-major, then column-major, then row).
    pub open spec fn flat_idx(self, ch: int, col: int, row: int) -> int {
        ch * ((self.h as int) * (self.w as int)) + col * (self.h as int) + row
    }

    /// `v` is the flattening of `t` under this layer's configuration.
    pub open spec fn flatten_rel(self, t: Tensor, v: Seq<i64>) -> bool {
        &&& v.len() == self.size()
        &&& forall|ch: int, col: int, row: int|
            0 <= ch < self.d && 0 <= col < self.w && 0 <= row < self.h ==> v[self.flat_idx(
                ch,
                col,
                row,
            )] as int == #[trigger] t.chan(ch).at(row, col)
    }

    /// `t` is the unflattening of `v` under this layer's configuration.
    pub open spec fn back_rel(self, v: Seq<i64>, t: Tensor) -> bool {
        &&& t.wf()
        &&& t.has_shape(self.d as int, self.h as int, self.w as int)
        &&& forall|ch: int, col: int, row: int|
            0 <= ch < self.d && 0 <= col < self.w && 0 <= row < self.h ==> #[trigger] t.chan(
                ch,
            ).at(row, col) == v[self.flat_idx(ch, col, row)] as int
    }

    /// A new adapter for `d` channels of `h x w` matrices.
    pub fn new(w: usize, h: usize, d: usize) -> (l: FlattenLayer)
        requires
            (h as int) * (w as int) <= usize::MAX as int,
            (h as int) * (w as int) * (d as int) <= usize::MAX as int,
        ensures
            l.w == w,
            l.h == h,
            l.d == d,
            l.wf(),
    {
        FlattenLayer { w, h, d }
    }

    /// Concatenates the channels into one vector in the fixed scan order.
    /// Fails when the tensor does not have the configured shape.
    pub fn flatten(&self, tensor: &Tensor) -> (out: Result<Vec<i64>, ShapeError>)
        requires
            self.wf(),
            tensor.wf(),
        ensures
            out.is_err() <==> !tensor.has_shape(self.d as int, self.h as int, self.w as int),
            match out {
                Ok(v) => self.flatten_rel(*tensor, v@),
                Err(e) => e == ShapeError::WrongShape,
            },
    {
        let d = self.d;
        let h = self.h;
        let w = self.w;
        let shape_ok: bool = if tensor.data.len() != d {
            false
        } else if d == 0 {
            true
        } else {
            tensor.data[0].rows == h && tensor.data[0].cols == w
        };
        if !shape_ok {
            return Err(ShapeError::WrongShape);
        }
        proof {
            lemma_size_steps(self.w as int, self.h as int, self.d as int);
        }
        let mut v: Vec<i64> = Vec::new();
        let mut ch: usize = 0;
        while ch < d
            invariant
                self.wf(),
                tensor.wf(),
                d == self.d,
                h == self.h,
                w == self.w,
                tensor.has_shape(d as int, h as int, w as int),
                ch <= d,
                v@.len() == (ch as int) * ((h as int) * (w as int)),
                forall|ch2: int, col2: int, row2: int|
                    0 <= ch2 < ch && 0 <= col2 < w && 0 <= row2 < h ==> v@[self.flat_idx(
                        ch2,
                        col2,
                        row2,
                    )] as int == #[trigger] tensor.chan(ch2).at(row2, col2),
            decreases d - ch,
        {
            let mut col: usize = 0;
            while col < w
                invariant
                    self.wf(),
                    tensor.wf(),
                    d == self.d,
                    h == self.h,
                    w == self.w,
                    tensor.has_shape(d as int, h as int, w as int),
                    ch < d,
                    col <= w,
                    v@.len() == (ch as int) * ((h as int) * (w as int)) + (col as int) * (
                    h as int),
                    forall|ch2: int, col2: int, row2: int|
                        0 <= ch2 < ch && 0 <= col2 < w && 0 <= row2 < h ==> v@[self.flat_idx(
                            ch2,
                            col2,
                            row2,
                        )] as int == #[trigger] tensor.chan(ch2).at(row2, col2),
                    forall|col2: int, row2: int|
                        0 <= col2 < col && 0 <= row2 < h ==> v@[self.flat_idx(
                            ch as int,
                            col2,
                            row2,
                        )] as int == #[trigger] tensor.chan(ch as int).at(row2, col2),
                decreases w - col,
            {
                let mut row: usize = 0;
                while row < h
                    invariant
                        self.wf(),
                        tensor.wf(),
                        d == self.d,
                        h == self.h,
                        w == self.w,
                        tensor.has_shape(d as int, h as int, w as int),
                        ch < d,
                        col < w,
                        row <= h,
                        v@.len() == (ch as int) * ((h as int) * (w as int)) + (col as int) * (
                        h as int) + row as int,
                        forall|ch2: int, col2: int, row2: int|
                            0 <= ch2 < ch && 0 <= col2 < w && 0 <= row2 < h ==> v@[self.flat_idx(
                                ch2,
                                col2,
                                row2,
                            )] as int == #[trigger] tensor.chan(ch2).at(row2, col2),
                        forall|col2: int, row2: int|
                            0 <= col2 < col && 0 <= row2 < h ==> v@[self.flat_idx(
                                ch as int,
                                col2,
                                row2,
                            )] as int == #[trigger] tensor.chan(ch as int).at(row2, col2),
                        forall|row2: int|
                            0 <= row2 < row ==> v@[self.flat_idx(ch as int, col as int, row2)]
                                as int == #[trigger] tensor.chan(ch as int).at(row2, col as int),
                    decreases h - row,
                {
                    proof {
                        assert(tensor.chan(ch as int).wf());
                        lemma_size_steps(self.w as int, self.h as int, self.d as int);
                        lemma_flat_bound(
                            self.w as int,
                            self.h as int,
                            self.d as int,
                            ch as int,
                            col as int,
                            row as int,
                        );
                    }
                    let ghost oldv = v@;
                    v.push(tensor.data[ch].data[row][col]);
                    proof {
                        let hw = (h as int) * (w as int);
                        assert(oldv.len() == self.flat_idx(ch as int, col as int, row as int));
                        assert forall|ch2: int, col2: int, row2: int|
                            0 <= ch2 < ch && 0 <= col2 < w && 0 <= row2 < h implies v@[
                        self.flat_idx(ch2, col2, row2)] as int == #[trigger] tensor.chan(ch2).at(
                            row2,
                            col2,
                        ) by {
                            lemma_flat_order(
                                w as int,
                                h as int,
                                ch as int,
                                col as int,
                                row as int,
                                ch2,
                                col2,
                                row2,
                            );
                        };
                        assert forall|col2: int, row2: int|
                            0 <= col2 < col && 0 <= row2 < h implies v@[self.flat_idx(
                            ch as int,
                            col2,
                            row2,
                        )] as int == #[trigger] tensor.chan(ch as int).at(row2, col2) by {
                            lemma_flat_order(
                                w as int,
                                h as int,
                                ch as int,
                                col as int,
                                row as int,
                                ch as int,
                                col2,
                                row2,
                            );
                        };
                        assert forall|row2: int|
                            0 <= row2 < row + 1 implies v@[self.flat_idx(
                            ch as int,
                            col as int,
                            row2,
                        )] as int == #[trigger] tensor.chan(ch as int).at(row2, col as int) by {
                            if row2 < row {
                                lemma_flat_order(
                                    w as int,
                                    h as int,
                                    ch as int,
                                    col as int,
                                    row as int,
                                    ch as int,
                                    col as int,
                                    row2,
                                );
                            }
                        };
                    }
                    row += 1;
                }
                proof {
                    assert((col as int) * (h as int) + (h as int) == ((col + 1) as int) * (
                    h as int)) by (nonlinear_arith);
                }
                col += 1;
            }
            proof {
                assert((ch as int) * ((h as int) * (w as int)) + (w as int) * (h as int) == ((
                ch + 1) as int) * ((h as int) * (w as int))) by (nonlinear_arith);
            }
            ch += 1;
        }
        proof {
            assert((d as int) * ((h as int) * (w as int)) == (w as int) * (h as int) * (
            d as int)) by (nonlinear_arith);
        }
        Ok(v)
    }

    /// Rebuilds the tensor from a flat vector, using the identical scan
    /// order. Fails when the vector does not have the configured length.
    pub fn back(&self, vector: &Vec<i64>) -> (out: Result<Tensor, ShapeError>)
        requires
            self.wf(),
        ensures
            out.is_err() <==> vector@.len() != self.size(),
            match out {
                Ok(t) => self.back_rel(vector@, t),
                Err(e) => e == ShapeError::WrongShape,
            },
    {
        let d = self.d;
        let h = self.h;
        let w = self.w;
        proof {
            lemma_size_steps(self.w as int, self.h as int, self.d as int);
        }
        let hw: usize = h * w;
        let size: usize = hw * d;
        proof {
            assert((h as int) * (w as int) * (d as int) == (w as int) * (h as int) * (
            d as int)) by (nonlinear_arith);
        }
        if vector.len() != size {
            return Err(ShapeError::WrongShape);
        }
        let mut data: Vec<Matrix> = Vec::new();
        let mut ch: usize = 0;
        while ch < d
            invariant
                self.wf(),
                d == self.d,
                h == self.h,
                w == self.w,
                hw as int == (h as int) * (w as int),
                vector@.len() == self.size(),
                ch <= d,
                data@.len() == ch,
                forall|i: int|
                    0 <= i < ch ==> (#[trigger] data@[i]).wf() && data@[i].rows == h
                        && data@[i].cols == w,
                forall|i: int, col2: int, row2: int|
                    0 <= i < ch && 0 <= col2 < w && 0 <= row2 < h ==> #[trigger] data@[i].at(
                        row2,
                        col2,
                    ) == vector@[self.flat_idx(i, col2, row2)] as int,
            decreases d - ch,
        {
            let mut rows: Vec<Vec<i64>> = Vec::new();
            let mut row: usize = 0;
            while row < h
                invariant
                    self.wf(),
                    d == self.d,
                    h == self.h,
                    w == self.w,
                    hw as int == (h as int) * (w as int),
                    vector@.len() == self.size(),
                    ch < d,
                    row <= h,
                    rows@.len() == row,
                    forall|i: int| 0 <= i < row ==> (#[trigger] rows@[i])@.len() == w,
                    forall|row2: int, col2: int|
                        0 <= row2 < row && 0 <= col2 < w ==> rows@[row2]@[col2] == vector@[
                        self.flat_idx(ch as int, col2, row2)],
                decreases h - row,
            {
                let mut r: Vec<i64> = Vec::new();
                let mut col: usize = 0;
                while col < w
                    invariant
                        self.wf(),
                        d == self.d,
                        h == self.h,
                        w == self.w,
                        hw as int == (h as int) * (w as int),
                        vector@.len() == self.size(),
                        ch < d,
                        row < h,
                        col <= w,
                        r@.len() == col,
                        forall|col2: int|
                            0 <= col2 < col ==> r@[col2] == vector@[self.flat_idx(
                                ch as int,
                                col2,
                                row as int,
                            )],
                    decreases w - col,
                {
                    proof {
                        lemma_flat_bound(
                            self.w as int,
                            self.h as int,
                            self.d as int,
                            ch as int,
                            col as int,
                            row as int,
                        );
                    }
                    let idx: usize = ch * hw + col * h + row;
                    r.push(vector[idx]);
                    col += 1;
                }
                rows.push(r);
                row += 1;
            }
            data.push(Matrix { rows: h, cols: w, data: rows });
            ch += 1;
        }
        Ok(Tensor { data })
    }
}

/// Scan order is position order: an earlier (channel, column, row) triple has
/// a strictly smaller flat position.
proof fn lemma_flat_order(
    w: int,
    h: int,
    ch: int,
    col: int,
    row: int,
    ch2: int,
    col2: int,
    row2: int,
)
    requires
        0 <= ch,
        0 <= col,
        0 <= row,
        0 <= ch2,
        0 <= col2 < w,
        0 <= row2 < h,
        ch2 < ch || (ch2 == ch && col2 < col) || (ch2 == ch && col2 == col && row2 < row),
    ensures
        ch2 * (h * w) + col2 * h + row2 < ch * (h * w) + col * h + row,
{
    assert(ch2 * (h * w) + col2 * h + row2 < ch * (h * w) + col * h + row) by (nonlinear_arith)
        requires
            0 <= ch,
            0 <= col,
            0 <= row,
            0 <= ch2,
            0 <= col2 < w,
            0 <= row2 < h,
            ch2 < ch || (ch2 == ch && col2 < col) || (ch2 == ch && col2 == col && row2 < row),
    ;
}

/// The partial products of the configured size stay within machine range.
pub proof fn lemma_size_steps(w: int, h: int, d: int)
    requires
        w >= 0,
        h >= 0,
        d >= 0,
        h * w <= usize::MAX as int,
        h * w * d <= usize::MAX as int,
    ensures
        w * h * d == h * w * d,
        forall|ch: int| 0 <= ch <= d ==> #[trigger] (ch * (h * w)) <= h * w * d,
{
    assert(w * h * d == h * w * d) by (nonlinear_arith);
    assert forall|ch: int| 0 <= ch <= d implies #[trigger] (ch * (h * w)) <= h * w * d by {
        assert(ch * (h * w) <= d * (h * w) && d * (h * w) == h * w * d) by (nonlinear_arith)
            requires
                0 <= ch <= d,
                h * w >= 0,
        ;
    };
}

/// A flat position is strictly below the configured size, and one step in the
/// scan order moves the flat position by exactly one.
pub proof fn lemma_flat_bound(w: int, h: int, d: int, ch: int, col: int, row: int)
    requires
        0 <= ch < d,
        0 <= col < w,
        0 <= row < h,
    ensures
        0 <= ch * (h * w) + col * h + row,
        ch * (h * w) + col * h + row < h * w * d,
        ch * (h * w) + col * h + row == ch * (h * w) + col * h + row,
{
    assert(0 <= ch * (h * w) + col * h + row && ch * (h * w) + col * h + row < h * w * d) by (
    nonlinear_arith)
        requires
            0 <= ch < d,
            0 <= col < w,
            0 <= row < h,
    ;
}

/// Every flat position below the configured size decomposes into exactly one
/// (channel, column, row) triple of the scan order.
pub proof fn lemma_flat_decompose(w: int, h: int, d: int, k: int)
    requires
        w >= 1,
        h >= 1,
        d >= 1,
        0 <= k < h * w * d,
    ensures
        0 <= k / (h * w) < d,
        0 <= (k % (h * w)) / h < w,
        0 <= k % (h * w) % h < h,
        k == (k / (h * w)) * (h * w) + ((k % (h * w)) / h) * h + k % (h * w) % h,
{
    assert(0 <= k / (h * w) < d && 0 <= k % (h * w) < h * w && k == (k / (h * w)) * (h * w) + k % (
    h * w)) by (nonlinear_arith)
        requires
            w >= 1,
            h >= 1,
            d >= 1,
            0 <= k < h * w * d,
    ;
    let rem = k % (h * w);
    assert(0 <= rem / h < w && 0 <= rem % h < h && rem == (rem / h) * h + rem % h) by (
    nonlinear_arith)
        requires
            h >= 1,
            w >= 1,
            0 <= rem < h * w,
    ;
}

/// Unflattening a flattened tensor gives back the identical tensor: the
/// adapter is a pure rearrangement, exact on every element.
pub proof fn lemma_unflatten_flatten(l: FlattenLayer, t: Tensor, v: Seq<i64>, t2: Tensor)
    requires
        l.wf(),
        t.wf(),
        t.has_shape(l.d as int, l.h as int, l.w as int),
        l.flatten_rel(t, v),
        l.back_rel(v, t2),
    ensures
        t2.has_shape(l.d as int, l.h as int, l.w as int),
        forall|ch: int, row: int, col: int|
            0 <= ch < l.d && 0 <= row < l.h && 0 <= col < l.w ==> #[trigger] t2.chan(ch).at(
                row,
                col,
            ) == t.chan(ch).at(row, col),
        t2.view3() == t.view3(),
{
    assert forall|ch: int, row: int, col: int|
        0 <= ch < l.d && 0 <= row < l.h && 0 <= col < l.w implies #[trigger] t2.chan(ch).at(
        row,
        col,
    ) == t.chan(ch).at(row, col) by {
        assert(t.chan(ch).at(row, col) == v[l.flat_idx(ch, col, row)] as int);
        assert(t2.chan(ch).at(row, col) == v[l.flat_idx(ch, col, row)] as int);
    };
    assert forall|ch: int| 0 <= ch < l.d implies #[trigger] t2.view3()[ch] == t.view3()[ch] by {
        assert forall|row: int| 0 <= row < l.h implies #[trigger] t2.chan(ch).view_rows()[row]
            == t.chan(ch).view_rows()[row] by {
            assert(t.chan(ch).wf());
            assert(t2.chan(ch).wf());
            assert forall|col: int| 0 <= col < l.w implies t2.chan(ch).data@[row]@[col] == t.chan(
                ch,
            ).data@[row]@[col] by {
                assert(t2.chan(ch).at(row, col) == t.chan(ch).at(row, col));
            };
            assert(t2.chan(ch).view_rows()[row] =~= t.chan(ch).view_rows()[row]);
        };
        assert(t2.chan(ch).view_rows() =~= t.chan(ch).view_rows());
    };
    assert(t2.view3() =~= t.view3());
}

/// Flattening an unflattened vector gives back the identical vector.
pub proof fn lemma_flatten_unflatten(l: FlattenLayer, v: Seq<i64>, t: Tensor, v2: Seq<i64>)
    requires
        l.wf(),
        v.len() == l.size(),
        l.back_rel(v, t),
        l.flatten_rel(t, v2),
    ensures
        v2 == v,
{
    if l.w >= 1 && l.h >= 1 && l.d >= 1 {
        lemma_size_steps(l.w as int, l.h as int, l.d as int);
        assert(v.len() == (l.h as int) * (l.w as int) * (l.d as int));
        assert forall|k: int| 0 <= k < v.len() implies v2[k] == v[k] by {
            lemma_flat_decompose(l.w as int, l.h as int, l.d as int, k);
            let ch = k / ((l.h as int) * (l.w as int));
            let col = (k % ((l.h as int) * (l.w as int))) / (l.h as int);
            let row = k % ((l.h as int) * (l.w as int)) % (l.h as int);
            assert(k == l.flat_idx(ch, col, row));
            assert(v2[l.flat_idx(ch, col, row)] as int == t.chan(ch).at(row, col));
            assert(t.chan(ch).at(row, col) == v[l.flat_idx(ch, col, row)] as int);
        };
        assert(v2 =~= v);
    } else {
        assert(l.size() == 0) by (nonlinear_arith)
            requires
                l.w == 0 || l.h == 0 || l.d == 0,
        ;
        assert(v2 =~= v);
    }
}

} // verus!
