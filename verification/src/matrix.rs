//! Dense matrices of fixed-point scalars, stored as a vector of rows, and the
//! vector/matrix operations the layers are built from. Every operation's
//! contract pins the exact fixed-point value of each result element.

use vstd::prelude::*;

use crate::errors::ShapeError;
use crate::fixed::{fadd, fadd_s, fmul, fmul_s, fsub_s};

verus! {

/// The elements of a vector of scalars, as mathematical integers.
pub open spec fn vi(s: Seq<i64>) -> Seq<int> {
    s.map_values(|x: i64| x as int)
}

/// A `rows` x `cols` matrix of fixed-point scalars, one `Vec` per row.
#[derive(Debug)]
pub struct Matrix {
    pub rows: usize,
    pub cols: usize,
    pub data: Vec<Vec<i64>>,
}

impl Matrix {
    /// The row count matches `data` and every row has `cols` elements.
    pub open spec fn wf(self) -> bool {
        self.data@.len() == self.rows && (forall|i: int|
            0 <= i < self.rows ==> (#[trigger] self.data@[i])@.len() == self.cols)
    }

    /// The element in row `r`, column `c`.
    pub open spec fn at(self, r: int, c: int) -> int {
        self.data@[r]@[c] as int
    }

    /// The matrix as a sequence of row sequences: its mathematical value.
    pub open spec fn view_rows(self) -> Seq<Seq<i64>> {
        self.data@.map_values(|row: Vec<i64>| row@)
    }

    /// An all-zero matrix.
    pub fn zeros(rows: usize, cols: usize) -> (m: Matrix)
        ensures
            m.wf(),
            m.rows == rows,
            m.cols == cols,
            forall|r: int, c: int| 0 <= r < rows && 0 <= c < cols ==> m.at(r, c) == 0,
    {
        let mut data: Vec<Vec<i64>> = Vec::new();
        let mut i: usize = 0;
        while i < rows
            invariant
                i <= rows,
                data@.len() == i,
                forall|r: int| 0 <= r < i ==> (#[trigger] data@[r])@.len() == cols,
                forall|r: int, c: int|
                    0 <= r < i && 0 <= c < cols ==> data@[r]@[c] == 0i64,
            decreases rows - i,
        {
            data.push(vec_zeros(cols));
            i += 1;
        }
        Matrix { rows, cols, data }
    }

    /// Wraps rows into a matrix; fails unless all rows have equal length.
    pub fn from_rows(data: Vec<Vec<i64>>) -> (r: Result<Matrix, ShapeError>)
        ensures
            match r {
                Ok(m) => {
                    &&& m.wf()
                    &&& m.data@ == data@
                    &&& m.rows == data@.len()
                    &&& m.cols == (if data@.len() == 0 { 0int } else { data@[0]@.len() as int })
                    &&& forall|i: int|
                        0 <= i < data@.len() ==> (#[trigger] data@[i])@.len() == data@[0]@.len()
                },
                Err(e) => {
                    &&& e == ShapeError::RaggedRows
                    &&& exists|i: int|
                        0 <= i < data@.len() && (#[trigger] data@[i])@.len() != data@[0]@.len()
                },
            },
    {
        let rows = data.len();
        let cols: usize = if rows == 0 { 0 } else { data[0].len() };
        let mut i: usize = 0;
        while i < rows
            invariant
                i <= rows,
                rows == data@.len(),
                rows > 0 ==> cols == data@[0]@.len(),
                rows == 0 ==> cols == 0,
                forall|j: int| 0 <= j < i ==> (#[trigger] data@[j])@.len() == cols,
            decreases rows - i,
        {
            if data[i].len() != cols {
                return Err(ShapeError::RaggedRows);
            }
            i += 1;
        }
        Ok(Matrix { rows, cols, data })
    }

    /// Reads one element.
    pub fn get(&self, r: usize, c: usize) -> (v: i64)
        requires
            self.wf(),
            r < self.rows,
            c < self.cols,
        ensures
            v as int == self.at(r as int, c as int),
    {
        self.data[r][c]
    }

    /// An independent copy with the same elements.
    pub fn copy(&self) -> (m: Matrix)
        requires
            self.wf(),
        ensures
            m.wf(),
            m.rows == self.rows,
            m.cols == self.cols,
            m.view_rows() == self.view_rows(),
            forall|r: int, c: int|
                0 <= r < self.rows && 0 <= c < self.cols ==> m.at(r, c) == self.at(r, c),
    {
        let mut data: Vec<Vec<i64>> = Vec::new();
        let mut i: usize = 0;
        while i < self.rows
            invariant
                self.wf(),
                i <= self.rows,
                data@.len() == i,
                forall|r: int| 0 <= r < i ==> (#[trigger] data@[r])@ == self.data@[r]@,
            decreases self.rows - i,
        {
            data.push(vec_copy(&self.data[i]));
            i += 1;
        }
        let m = Matrix { rows: self.rows, cols: self.cols, data };
        assert(m.view_rows() =~= self.view_rows());
        m
    }
}

/// An all-zero vector of scalars.
pub fn vec_zeros(n: usize) -> (v: Vec<i64>)
    ensures
        v@.len() == n,
        forall|i: int| 0 <= i < n ==> v@[i] == 0i64,
{
    let mut v: Vec<i64> = Vec::new();
    let mut i: usize = 0;
    while i < n
        invariant
            i <= n,
            v@.len() == i,
            forall|j: int| 0 <= j < i ==> v@[j] == 0i64,
        decreases n - i,
    {
        v.push(0);
        i += 1;
    }
    v
}

/// An independent copy of a vector of scalars.
pub fn vec_copy(v: &Vec<i64>) -> (r: Vec<i64>)
    ensures
        r@ == v@,
{
    let mut r: Vec<i64> = Vec::new();
    let mut i: usize = 0;
    while i < v.len()
        invariant
            i <= v@.len(),
            r@.len() == i,
            forall|j: int| 0 <= j < i ==> r@[j] == v@[j],
        decreases v@.len() - i,
    {
        r.push(v[i]);
        i += 1;
    }
    assert(r@ =~= v@);
    r
}

/// Saturating dot product of the first `n` positions of `a` and `b`,
/// accumulated left to right.
pub open spec fn dot_prefix(a: Seq<int>, b: Seq<int>, n: int) -> int
    decreases n,
{
    if n <= 0 {
        0
    } else {
        fadd_s(dot_prefix(a, b, n - 1), fmul_s(a[n - 1], b[n - 1]))
    }
}

/// The dot product of row `r` of `m` with `a`.
pub open spec fn row_dot(m: Matrix, r: int, a: Seq<int>) -> int {
    dot_prefix(vi(m.data@[r]@), a, m.cols as int)
}

/// The dot product of column `c` of `m` (over its first `n` rows) with `v`.
pub open spec fn col_dot(m: Matrix, c: int, v: Seq<int>, n: int) -> int
    decreases n,
{
    if n <= 0 {
        0
    } else {
        fadd_s(col_dot(m, c, v, n - 1), fmul_s(m.at(n - 1, c), v[n - 1]))
    }
}

/// `m * a` as a sequence of saturating row dot products.
pub open spec fn matvec_s(m: Matrix, a: Seq<int>) -> Seq<int> {
    Seq::new(m.rows as nat, |r: int| row_dot(m, r, a))
}

/// `transpose(m) * v` as a sequence of saturating column dot products.
pub open spec fn mat_tvec_s(m: Matrix, v: Seq<int>) -> Seq<int> {
    Seq::new(m.cols as nat, |c: int| col_dot(m, c, v, m.rows as int))
}

/// Elementwise saturating sum of two equal-length sequences.
pub open spec fn vadd_is(a: Seq<int>, b: Seq<int>) -> Seq<int> {
    Seq::new(a.len(), |i: int| fadd_s(a[i], b[i]))
}

/// Elementwise saturating difference.
pub open spec fn vsub_is(a: Seq<int>, b: Seq<int>) -> Seq<int> {
    Seq::new(a.len(), |i: int| fsub_s(a[i], b[i]))
}

/// Elementwise saturating product.
pub open spec fn vmul_is(a: Seq<int>, b: Seq<int>) -> Seq<int> {
    Seq::new(a.len(), |i: int| fmul_s(a[i], b[i]))
}

/// Matrix-vector product.
pub fn mat_vec_mul(m: &Matrix, v: &Vec<i64>) -> (r: Vec<i64>)
    requires
        m.wf(),
        v@.len() == m.cols,
    ensures
        r@.len() == m.rows,
        vi(r@) == matvec_s(*m, vi(v@)),
{
    let mut r: Vec<i64> = Vec::new();
    let mut i: usize = 0;
    while i < m.rows
        invariant
            m.wf(),
            v@.len() == m.cols,
            i <= m.rows,
            r@.len() == i,
            forall|k: int| 0 <= k < i ==> r@[k] as int == row_dot(*m, k, vi(v@)),
        decreases m.rows - i,
    {
        let row = &m.data[i];
        let mut acc: i64 = 0;
        let mut j: usize = 0;
        while j < m.cols
            invariant
                m.wf(),
                v@.len() == m.cols,
                i < m.rows,
                row == &m.data@[i as int],
                j <= m.cols,
                acc as int == dot_prefix(vi(row@), vi(v@), j as int),
            decreases m.cols - j,
        {
            acc = fadd(acc, fmul(row[j], v[j]));
            j += 1;
        }
        r.push(acc);
        i += 1;
    }
    assert(vi(r@) =~= matvec_s(*m, vi(v@)));
    r
}

/// Transposed matrix-vector product: `transpose(m) * v`.
pub fn mat_tvec_mul(m: &Matrix, v: &Vec<i64>) -> (r: Vec<i64>)
    requires
        m.wf(),
        v@.len() == m.rows,
    ensures
        r@.len() == m.cols,
        vi(r@) == mat_tvec_s(*m, vi(v@)),
{
    let mut r: Vec<i64> = Vec::new();
    let mut c: usize = 0;
    while c < m.cols
        invariant
            m.wf(),
            v@.len() == m.rows,
            c <= m.cols,
            r@.len() == c,
            forall|k: int| 0 <= k < c ==> r@[k] as int == col_dot(*m, k, vi(v@), m.rows as int),
        decreases m.cols - c,
    {
        let mut acc: i64 = 0;
        let mut i: usize = 0;
        while i < m.rows
            invariant
                m.wf(),
                v@.len() == m.rows,
                c < m.cols,
                i <= m.rows,
                acc as int == col_dot(*m, c as int, vi(v@), i as int),
            decreases m.rows - i,
        {
            acc = fadd(acc, fmul(m.data[i][c], v[i]));
            i += 1;
        }
        r.push(acc);
        c += 1;
    }
    assert(vi(r@) =~= mat_tvec_s(*m, vi(v@)));
    r
}

/// Elementwise saturating sum of two vectors.
pub fn vec_add(a: &Vec<i64>, b: &Vec<i64>) -> (r: Vec<i64>)
    requires
        a@.len() == b@.len(),
    ensures
        r@.len() == a@.len(),
        vi(r@) == vadd_is(vi(a@), vi(b@)),
{
    let mut r: Vec<i64> = Vec::new();
    let mut i: usize = 0;
    while i < a.len()
        invariant
            a@.len() == b@.len(),
            i <= a@.len(),
            r@.len() == i,
            forall|j: int| 0 <= j < i ==> r@[j] as int == fadd_s(a@[j] as int, b@[j] as int),
        decreases a@.len() - i,
    {
        r.push(fadd(a[i], b[i]));
        i += 1;
    }
    assert(vi(r@) =~= vadd_is(vi(a@), vi(b@)));
    r
}

/// Elementwise saturating difference of two vectors.
pub fn vec_sub(a: &Vec<i64>, b: &Vec<i64>) -> (r: Vec<i64>)
    requires
        a@.len() == b@.len(),
    ensures
        r@.len() == a@.len(),
        vi(r@) == vsub_is(vi(a@), vi(b@)),
{
    let mut r: Vec<i64> = Vec::new();
    let mut i: usize = 0;
    while i < a.len()
        invariant
            a@.len() == b@.len(),
            i <= a@.len(),
            r@.len() == i,
            forall|j: int| 0 <= j < i ==> r@[j] as int == fsub_s(a@[j] as int, b@[j] as int),
        decreases a@.len() - i,
    {
        r.push(crate::fixed::fsub(a[i], b[i]));
        i += 1;
    }
    assert(vi(r@) =~= vsub_is(vi(a@), vi(b@)));
    r
}

/// Elementwise saturating product of two vectors.
pub fn vec_mul(a: &Vec<i64>, b: &Vec<i64>) -> (r: Vec<i64>)
    requires
        a@.len() == b@.len(),
    ensures
        r@.len() == a@.len(),
        vi(r@) == vmul_is(vi(a@), vi(b@)),
{
    let mut r: Vec<i64> = Vec::new();
    let mut i: usize = 0;
    while i < a.len()
        invariant
            a@.len() == b@.len(),
            i <= a@.len(),
            r@.len() == i,
            forall|j: int| 0 <= j < i ==> r@[j] as int == fmul_s(a@[j] as int, b@[j] as int),
        decreases a@.len() - i,
    {
        r.push(fmul(a[i], b[i]));
        i += 1;
    }
    assert(vi(r@) =~= vmul_is(vi(a@), vi(b@)));
    r
}

/// Outer product: `r.at(i, j) == u[i] * v[j]` in saturating fixed point.
pub fn outer_mul(u: &Vec<i64>, v: &Vec<i64>) -> (m: Matrix)
    ensures
        m.wf(),
        m.rows == u@.len(),
        m.cols == v@.len(),
        forall|r: int, c: int|
            0 <= r < u@.len() && 0 <= c < v@.len() ==> m.at(r, c) == fmul_s(
                u@[r] as int,
                v@[c] as int,
            ),
{
    let mut data: Vec<Vec<i64>> = Vec::new();
    let mut i: usize = 0;
    while i < u.len()
        invariant
            i <= u@.len(),
            data@.len() == i,
            forall|r: int| 0 <= r < i ==> (#[trigger] data@[r])@.len() == v@.len(),
            forall|r: int, c: int|
                0 <= r < i && 0 <= c < v@.len() ==> data@[r]@[c] as int == fmul_s(
                    u@[r] as int,
                    v@[c] as int,
                ),
        decreases u@.len() - i,
    {
        let mut row: Vec<i64> = Vec::new();
        let mut j: usize = 0;
        while j < v.len()
            invariant
                i < u@.len(),
                j <= v@.len(),
                row@.len() == j,
                forall|c: int| 0 <= c < j ==> row@[c] as int == fmul_s(u@[i as int] as int, v@[c] as int),
            decreases v@.len() - j,
        {
            row.push(fmul(u[i], v[j]));
            j += 1;
        }
        data.push(row);
        i += 1;
    }
    Matrix { rows: u.len(), cols: v.len(), data }
}

/// Elementwise saturating sum of two equal-shape matrices.
pub fn mat_add(a: &Matrix, b: &Matrix) -> (m: Matrix)
    requires
        a.wf(),
        b.wf(),
        a.rows == b.rows,
        a.cols == b.cols,
    ensures
        m.wf(),
        m.rows == a.rows,
        m.cols == a.cols,
        forall|r: int, c: int|
            0 <= r < a.rows && 0 <= c < a.cols ==> m.at(r, c) == fadd_s(a.at(r, c), b.at(r, c)),
{
    let mut data: Vec<Vec<i64>> = Vec::new();
    let mut i: usize = 0;
    while i < a.rows
        invariant
            a.wf(),
            b.wf(),
            a.rows == b.rows,
            a.cols == b.cols,
            i <= a.rows,
            data@.len() == i,
            forall|r: int| 0 <= r < i ==> (#[trigger] data@[r])@.len() == a.cols,
            forall|r: int, c: int|
                0 <= r < i && 0 <= c < a.cols ==> data@[r]@[c] as int == fadd_s(
                    a.at(r, c),
                    b.at(r, c),
                ),
        decreases a.rows - i,
    {
        let row = vec_add(&a.data[i], &b.data[i]);
        proof {
            assert forall|c: int| 0 <= c < a.cols implies row@[c] as int == fadd_s(
                a.at(i as int, c),
                b.at(i as int, c),
            ) by {
                assert(vi(row@)[c] == vadd_is(vi(a.data@[i as int]@), vi(b.data@[i as int]@))[c]);
            };
        }
        data.push(row);
        i += 1;
    }
    Matrix { rows: a.rows, cols: a.cols, data }
}

/// Elementwise saturating product of two equal-shape matrices.
pub fn mat_mul_elem(a: &Matrix, b: &Matrix) -> (m: Matrix)
    requires
        a.wf(),
        b.wf(),
        a.rows == b.rows,
        a.cols == b.cols,
    ensures
        m.wf(),
        m.rows == a.rows,
        m.cols == a.cols,
        forall|r: int, c: int|
            0 <= r < a.rows && 0 <= c < a.cols ==> m.at(r, c) == fmul_s(a.at(r, c), b.at(r, c)),
{
    let mut data: Vec<Vec<i64>> = Vec::new();
    let mut i: usize = 0;
    while i < a.rows
        invariant
            a.wf(),
            b.wf(),
            a.rows == b.rows,
            a.cols == b.cols,
            i <= a.rows,
            data@.len() == i,
            forall|r: int| 0 <= r < i ==> (#[trigger] data@[r])@.len() == a.cols,
            forall|r: int, c: int|
                0 <= r < i && 0 <= c < a.cols ==> data@[r]@[c] as int == fmul_s(
                    a.at(r, c),
                    b.at(r, c),
                ),
        decreases a.rows - i,
    {
        let row = vec_mul(&a.data[i], &b.data[i]);
        proof {
            assert forall|c: int| 0 <= c < a.cols implies row@[c] as int == fmul_s(
                a.at(i as int, c),
                b.at(i as int, c),
            ) by {
                assert(vi(row@)[c] == vmul_is(vi(a.data@[i as int]@), vi(b.data@[i as int]@))[c]);
            };
        }
        data.push(row);
        i += 1;
    }
    Matrix { rows: a.rows, cols: a.cols, data }
}

/// One gradient step on a matrix: `w - rate * nabla`, elementwise.
pub fn mat_step(w: &Matrix, nabla: &Matrix, rate: i64) -> (m: Matrix)
    requires
        w.wf(),
        nabla.wf(),
        w.rows == nabla.rows,
        w.cols == nabla.cols,
    ensures
        m.wf(),
        m.rows == w.rows,
        m.cols == w.cols,
        forall|r: int, c: int|
            0 <= r < w.rows && 0 <= c < w.cols ==> m.at(r, c) == fsub_s(
                w.at(r, c),
                fmul_s(rate as int, nabla.at(r, c)),
            ),
{
    let mut data: Vec<Vec<i64>> = Vec::new();
    let mut i: usize = 0;
    while i < w.rows
        invariant
            w.wf(),
            nabla.wf(),
            w.rows == nabla.rows,
            w.cols == nabla.cols,
            i <= w.rows,
            data@.len() == i,
            forall|r: int| 0 <= r < i ==> (#[trigger] data@[r])@.len() == w.cols,
            forall|r: int, c: int|
                0 <= r < i && 0 <= c < w.cols ==> data@[r]@[c] as int == fsub_s(
                    w.at(r, c),
                    fmul_s(rate as int, nabla.at(r, c)),
                ),
        decreases w.rows - i,
    {
        let mut row: Vec<i64> = Vec::new();
        let mut j: usize = 0;
        while j < w.cols
            invariant
                w.wf(),
                nabla.wf(),
                w.rows == nabla.rows,
                w.cols == nabla.cols,
                i < w.rows,
                j <= w.cols,
                row@.len() == j,
                forall|c: int|
                    0 <= c < j ==> row@[c] as int == fsub_s(
                        w.at(i as int, c),
                        fmul_s(rate as int, nabla.at(i as int, c)),
                    ),
            decreases w.cols - j,
        {
            row.push(crate::fixed::fsub(w.data[i][j], fmul(rate, nabla.data[i][j])));
            j += 1;
        }
        data.push(row);
        i += 1;
    }
    Matrix { rows: w.rows, cols: w.cols, data }
}

/// One gradient step on a vector: `b - rate * nabla`, elementwise.
pub fn vec_step(b: &Vec<i64>, nabla: &Vec<i64>, rate: i64) -> (r: Vec<i64>)
    requires
        b@.len() == nabla@.len(),
    ensures
        r@.len() == b@.len(),
        forall|i: int|
            0 <= i < b@.len() ==> r@[i] as int == fsub_s(
                b@[i] as int,
                fmul_s(rate as int, nabla@[i] as int),
            ),
{
    let mut r: Vec<i64> = Vec::new();
    let mut i: usize = 0;
    while i < b.len()
        invariant
            b@.len() == nabla@.len(),
            i <= b@.len(),
            r@.len() == i,
            forall|j: int|
                0 <= j < i ==> r@[j] as int == fsub_s(
                    b@[j] as int,
                    fmul_s(rate as int, nabla@[j] as int),
                ),
        decreases b@.len() - i,
    {
        r.push(crate::fixed::fsub(b[i], fmul(rate, nabla[i])));
        i += 1;
    }
    r
}

} // verus!
