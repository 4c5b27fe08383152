//! A tensor is an ordered stack of equal-shaped matrices (channels). It is
//! the spatial data structure the convolutional stage works on.

use vstd::prelude::*;

use crate::fixed::{fmul_s, fsub_s};
use crate::matrix::{mat_step, Matrix};

verus! {

/// An ordered sequence of matrices, all of identical shape.
#[derive(Debug)]
pub struct Tensor {
    pub data: Vec<Matrix>,
}

impl Tensor {
    /// The number of channels.
    pub open spec fn channels(self) -> int {
        self.data@.len() as int
    }

    /// Channel `i`.
    pub open spec fn chan(self, i: int) -> Matrix {
        self.data@[i]
    }

    /// Rows of every channel (0 for an empty tensor).
    pub open spec fn t_rows(self) -> int {
        if self.data@.len() == 0 {
            0
        } else {
            self.data@[0].rows as int
        }
    }

    /// Columns of every channel (0 for an empty tensor).
    pub open spec fn t_cols(self) -> int {
        if self.data@.len() == 0 {
            0
        } else {
            self.data@[0].cols as int
        }
    }

    /// Every channel is a well-formed matrix of the shared shape.
    pub open spec fn wf(self) -> bool {
        forall|i: int|
            0 <= i < self.channels() ==> (#[trigger] self.chan(i)).wf() && self.chan(i).rows
                == self.t_rows() && self.chan(i).cols == self.t_cols()
    }

    /// The tensor has exactly the given shape (an empty tensor matches any
    /// spatial size, having no channels to constrain).
    pub open spec fn has_shape(self, channels: int, rows: int, cols: int) -> bool {
        self.channels() == channels && (channels == 0 || (self.t_rows() == rows && self.t_cols()
            == cols))
    }

    /// The tensor as a sequence of channel values: its mathematical value.
    pub open spec fn view3(self) -> Seq<Seq<Seq<i64>>> {
        self.data@.map_values(|m: Matrix| m.view_rows())
    }

    /// Wraps equal-shaped channel matrices into a tensor.
    pub fn new(data: Vec<Matrix>) -> (t: Tensor)
        requires
            forall|i: int|
                0 <= i < data@.len() ==> (#[trigger] data@[i]).wf() && data@[i].rows
                    == data@[0].rows && data@[i].cols == data@[0].cols,
        ensures
            t.data@ == data@,
            t.wf(),
    {
        Tensor { data }
    }

    /// Checks at run time that the tensor is well-formed with exactly the
    /// given shape.
    pub fn has_dims(&self, channels: usize, rows: usize, cols: usize) -> (r: bool)
        ensures
            r <==> (self.wf() && self.has_shape(channels as int, rows as int, cols as int)),
    {
        if self.data.len() != channels {
            return false;
        }
        let mut i: usize = 0;
        while i < self.data.len()
            invariant
                channels == self.data@.len(),
                i <= channels,
                forall|ch: int|
                    0 <= ch < i ==> (#[trigger] self.chan(ch)).wf() && self.chan(ch).rows == rows
                        && self.chan(ch).cols == cols,
            decreases self.data@.len() - i,
        {
            let m = &self.data[i];
            if m.rows != rows || m.cols != cols || m.data.len() != rows {
                proof {
                    if self.wf() && self.has_shape(channels as int, rows as int, cols as int) {
                        assert(self.chan(i as int).wf());
                        assert(self.chan(i as int).rows == self.t_rows());
                        assert(self.chan(0).rows == self.t_rows());
                        assert(false);
                    }
                }
                return false;
            }
            let mut j: usize = 0;
            while j < rows
                invariant
                    channels == self.data@.len(),
                    i < channels,
                    m == &self.data@[i as int],
                    m.rows == rows,
                    m.cols == cols,
                    m.data@.len() == rows,
                    j <= rows,
                    forall|rr: int| 0 <= rr < j ==> (#[trigger] m.data@[rr])@.len() == cols,
                decreases rows - j,
            {
                if m.data[j].len() != cols {
                    proof {
                        if self.wf() && self.has_shape(
                            channels as int,
                            rows as int,
                            cols as int,
                        ) {
                            assert(self.chan(i as int).wf());
                            assert(self.chan(i as int).cols == self.t_cols());
                            assert(self.chan(i as int).data@[j as int]@.len() == self.chan(
                                i as int,
                            ).cols);
                            assert(false);
                        }
                    }
                    return false;
                }
                j += 1;
            }
            proof {
                assert(self.chan(i as int).wf());
            }
            i += 1;
        }
        proof {
            if channels > 0 {
                assert(self.chan(0).wf() && self.chan(0).rows == rows && self.chan(0).cols
                    == cols);
                assert(self.t_rows() == rows && self.t_cols() == cols);
            }
            assert(self.wf());
        }
        true
    }

    /// An independent copy with the same elements.
    pub fn copy(&self) -> (t: Tensor)
        requires
            self.wf(),
        ensures
            t.wf(),
            t.channels() == self.channels(),
            t.t_rows() == self.t_rows(),
            t.t_cols() == self.t_cols(),
            t.view3() == self.view3(),
            forall|ch: int, r: int, c: int|
                0 <= ch < self.channels() && 0 <= r < self.t_rows() && 0 <= c < self.t_cols()
                    ==> t.chan(ch).at(r, c) == self.chan(ch).at(r, c),
    {
        let mut data: Vec<Matrix> = Vec::new();
        let mut i: usize = 0;
        while i < self.data.len()
            invariant
                self.wf(),
                i <= self.data@.len(),
                data@.len() == i,
                forall|ch: int|
                    0 <= ch < i ==> (#[trigger] data@[ch]).wf() && data@[ch].rows == self.chan(
                        ch,
                    ).rows && data@[ch].cols == self.chan(ch).cols && data@[ch].view_rows()
                        == self.chan(ch).view_rows(),
            decreases self.data@.len() - i,
        {
            proof {
                assert(self.chan(i as int).wf());
            }
            data.push(self.data[i].copy());
            i += 1;
        }
        let t = Tensor { data };
        assert(t.view3() =~= self.view3());
        assert forall|ch: int, r: int, c: int|
            0 <= ch < self.channels() && 0 <= r < self.t_rows() && 0 <= c
                < self.t_cols() implies t.chan(ch).at(r, c) == self.chan(ch).at(r, c) by {
            assert(t.chan(ch).view_rows()[r] == self.chan(ch).view_rows()[r]);
        };
        t
    }

    /// One learning step: subtracts `rate * nabla` from every element, in
    /// saturating fixed point.
    pub fn learning(&mut self, rate: i64, nabla: &Tensor)
        requires
            old(self).wf(),
            nabla.wf(),
            nabla.channels() == old(self).channels(),
            nabla.t_rows() == old(self).t_rows(),
            nabla.t_cols() == old(self).t_cols(),
        ensures
            final(self).wf(),
            final(self).channels() == old(self).channels(),
            final(self).t_rows() == old(self).t_rows(),
            final(self).t_cols() == old(self).t_cols(),
            forall|ch: int, r: int, c: int|
                0 <= ch < old(self).channels() && 0 <= r < old(self).t_rows() && 0 <= c < old(
                    self,
                ).t_cols() ==> final(self).chan(ch).at(r, c) == fsub_s(
                    old(self).chan(ch).at(r, c),
                    fmul_s(rate as int, nabla.chan(ch).at(r, c)),
                ),
    {
        let mut data: Vec<Matrix> = Vec::new();
        let mut i: usize = 0;
        while i < self.data.len()
            invariant
                self.wf(),
                nabla.wf(),
                nabla.channels() == self.channels(),
                nabla.t_rows() == self.t_rows(),
                nabla.t_cols() == self.t_cols(),
                i <= self.data@.len(),
                data@.len() == i,
                forall|ch: int|
                    0 <= ch < i ==> (#[trigger] data@[ch]).wf() && data@[ch].rows == self.chan(
                        ch,
                    ).rows && data@[ch].cols == self.chan(ch).cols,
                forall|ch: int, r: int, c: int|
                    0 <= ch < i && 0 <= r < self.t_rows() && 0 <= c < self.t_cols()
                        ==> #[trigger] data@[ch].at(r, c) == fsub_s(
                        self.chan(ch).at(r, c),
                        fmul_s(rate as int, nabla.chan(ch).at(r, c)),
                    ),
            decreases self.data@.len() - i,
        {
            proof {
                assert(self.chan(i as int).wf());
                assert(nabla.chan(i as int).wf());
            }
            data.push(mat_step(&self.data[i], &nabla.data[i], rate));
            i += 1;
        }
        self.data = data;
    }
}

} // verus!
