use vstd::prelude::*;

use crate::scalar::Scalar;
use crate::vector::{dot_spec, dot_upto, seq_add, seq_scale, seq_sub, Vector};

verus! {

/// What a table of rows holds, row by row.
pub open spec fn rows_view<T>(d: Seq<Vec<T>>) -> Seq<Seq<T>> {
    d.map_values(|r: Vec<T>| r@)
}

/// `a` has `m` rows of `n` elements each.
pub open spec fn has_shape<T>(a: Seq<Seq<T>>, m: nat, n: nat) -> bool {
    a.len() == m && forall|j: int| 0 <= j < m ==> (#[trigger] a[j]).len() == n
}

/// Element-wise sum of two tables.
pub open spec fn mat_add<T: Scalar>(a: Seq<Seq<T>>, b: Seq<Seq<T>>) -> Seq<Seq<T>> {
    Seq::new(a.len(), |j: int| seq_add(a[j], b[j]))
}

/// Element-wise difference of two tables.
pub open spec fn mat_sub<T: Scalar>(a: Seq<Seq<T>>, b: Seq<Seq<T>>) -> Seq<Seq<T>> {
    Seq::new(a.len(), |j: int| seq_sub(a[j], b[j]))
}

/// Every element multiplied by `k`.
pub open spec fn mat_scale<T: Scalar>(a: Seq<Seq<T>>, k: T) -> Seq<Seq<T>> {
    Seq::new(a.len(), |j: int| seq_scale(a[j], k))
}

/// Column `i` of a table.
pub open spec fn column<T>(b: Seq<Seq<T>>, i: int) -> Seq<T> {
    Seq::new(b.len(), |k: int| b[k][i])
}

/// The product of an `m`-row table and a table with `h` columns: entry `(j, i)` is the dot
/// product of row `j` of `a` and column `i` of `b`.
pub open spec fn mat_mul<T: Scalar>(a: Seq<Seq<T>>, b: Seq<Seq<T>>, h: nat) -> Seq<Seq<T>> {
    Seq::new(a.len(), |j: int| Seq::new(h, |i: int| dot_spec(a[j], column(b, i))))
}

/// The product of a table and a column vector: entry `j` is the dot product of row `j` and `v`.
pub open spec fn mat_vec<T: Scalar>(a: Seq<Seq<T>>, v: Seq<T>) -> Seq<T> {
    Seq::new(a.len(), |j: int| dot_spec(a[j], v))
}

/// The transpose of a table with `n` columns.
pub open spec fn transpose_spec<T>(a: Seq<Seq<T>>, n: nat) -> Seq<Seq<T>> {
    Seq::new(n, |j: int| column(a, j))
}

/// The sum of the first `n` diagonal entries, accumulated from the top.
pub open spec fn trace_upto<T: Scalar>(a: Seq<Seq<T>>, n: nat) -> T
    decreases n,
{
    if n == 0 {
        T::zero_spec()
    } else {
        T::add_spec(trace_upto(a, (n - 1) as nat), a[n - 1][n - 1])
    }
}

/// The `n` by `n` identity table.
pub open spec fn identity_spec<T: Scalar>(n: nat) -> Seq<Seq<T>> {
    Seq::new(
        n,
        |j: int|
            Seq::new(
                n,
                |i: int|
                    if i == j {
                        T::one_spec()
                    } else {
                        T::zero_spec()
                    },
            ),
    )
}

/// Element-wise sum of two rows of equal length.
fn row_add<T: Scalar>(a: &Vec<T>, b: &Vec<T>) -> (r: Vec<T>)
    requires
        a@.len() == b@.len(),
    ensures
        r@ == seq_add(a@, b@),
{
    let mut res: Vec<T> = Vec::new();
    let mut i: usize = 0;
    while i < a.len()
        invariant
            0 <= i <= a@.len(),
            a@.len() == b@.len(),
            res@ == seq_add(a@, b@).subrange(0, i as int),
        decreases a@.len() - i,
    {
        res.push(a[i].add(b[i]));
        i = i + 1;
        assert(res@ =~= seq_add(a@, b@).subrange(0, i as int));
    }
    assert(res@ =~= seq_add(a@, b@));
    res
}

/// Element-wise difference of two rows of equal length.
pub(crate) fn row_sub<T: Scalar>(a: &Vec<T>, b: &Vec<T>) -> (r: Vec<T>)
    requires
        a@.len() == b@.len(),
    ensures
        r@ == seq_sub(a@, b@),
{
    let mut res: Vec<T> = Vec::new();
    let mut i: usize = 0;
    while i < a.len()
        invariant
            0 <= i <= a@.len(),
            a@.len() == b@.len(),
            res@ == seq_sub(a@, b@).subrange(0, i as int),
        decreases a@.len() - i,
    {
        res.push(a[i].sub(b[i]));
        i = i + 1;
        assert(res@ =~= seq_sub(a@, b@).subrange(0, i as int));
    }
    assert(res@ =~= seq_sub(a@, b@));
    res
}

/// Every element of a row multiplied by `k`.
pub(crate) fn row_scale<T: Scalar>(a: &Vec<T>, k: T) -> (r: Vec<T>)
    ensures
        r@ == seq_scale(a@, k),
{
    let mut res: Vec<T> = Vec::new();
    let mut i: usize = 0;
    while i < a.len()
        invariant
            0 <= i <= a@.len(),
            res@ == seq_scale(a@, k).subrange(0, i as int),
        decreases a@.len() - i,
    {
        res.push(a[i].mul(k));
        i = i + 1;
        assert(res@ =~= seq_scale(a@, k).subrange(0, i as int));
    }
    assert(res@ =~= seq_scale(a@, k));
    res
}

/// A dense matrix of `M` rows with `N` scalars each, stored row by row.
#[derive(PartialEq, Debug, Clone)]
pub struct Matrix<T, const M: usize, const N: usize> {
    data: Vec<Vec<T>>,
}

/// The square matrices.
pub type TMatrix<T, const M: usize> = Matrix<T, M, M>;

impl<T, const M: usize, const N: usize> View for Matrix<T, M, N> {
    type V = Seq<Seq<T>>;

    closed spec fn view(&self) -> Seq<Seq<T>> {
        self.data@.map_values(|r: Vec<T>| r@)
    }
}

impl<T: Scalar, const M: usize, const N: usize> Matrix<T, M, N> {
    /// The matrix holds `M` rows of `N` elements each.
    pub open spec fn wf(&self) -> bool {
        has_shape(self@, M as nat, N as nat)
    }

    /// Wraps rows as they are.
    pub(crate) fn from_rows(data: Vec<Vec<T>>) -> (r: Self)
        ensures
            r@ == rows_view(data@),
    {
        Matrix { data }
    }

    /// Builds a matrix from its rows, kept in order.
    pub fn new(s: [[T; N]; M]) -> (r: Self)
        ensures
            r.wf(),
            r@ == Seq::new(M as nat, |j: int| s@[j]@),
    {
        let mut data: Vec<Vec<T>> = Vec::new();
        let mut j: usize = 0;
        while j < M
            invariant
                0 <= j <= M,
                s@.len() == M,
                data@.len() == j,
                forall|jj: int| 0 <= jj < j ==> (#[trigger] data@[jj])@ == s@[jj]@,
            decreases M - j,
        {
            let row: [T; N] = s[j];
            let mut v: Vec<T> = Vec::new();
            let mut i: usize = 0;
            while i < N
                invariant
                    0 <= i <= N,
                    row@.len() == N,
                    v@ == row@.subrange(0, i as int),
                decreases N - i,
            {
                v.push(row[i]);
                i = i + 1;
                assert(v@ =~= row@.subrange(0, i as int));
            }
            assert(v@ =~= row@);
            data.push(v);
            j = j + 1;
        }
        let r = Matrix { data };
        assert(r@ =~= Seq::new(M as nat, |j: int| s@[j]@));
        r
    }

    /// Row `h`, as a vector.
    pub fn as_vector(&self, h: usize) -> (r: Vector<T, N>)
        requires
            self.wf(),
            h < M,
        ensures
            r.wf(),
            r@ == self@[h as int],
    {
        let row = &self.data[h];
        assert(row@ == self@[h as int]);
        assert(row@.len() == N);
        let mut v: Vec<T> = Vec::new();
        let mut i: usize = 0;
        while i < N
            invariant
                0 <= i <= N,
                row@ == self@[h as int],
                row@.len() == N,
                v@ == row@.subrange(0, i as int),
            decreases N - i,
        {
            v.push(row[i]);
            i = i + 1;
            assert(v@ =~= row@.subrange(0, i as int));
        }
        assert(v@ =~= row@);
        Vector::from_elems(v)
    }

    /// The element-wise sum, as a new matrix.
    pub fn plus(&self, v: &Matrix<T, M, N>) -> (r: Matrix<T, M, N>)
        requires
            self.wf(),
            v.wf(),
        ensures
            r.wf(),
            r@ == mat_add(self@, v@),
    {
        let mut res: Vec<Vec<T>> = Vec::new();
        let mut j: usize = 0;
        while j < M
            invariant
                0 <= j <= M,
                self.wf(),
                v.wf(),
                res@.len() == j,
                forall|jj: int| 0 <= jj < j ==> (#[trigger] res@[jj])@ == seq_add(self@[jj], v@[jj]),
            decreases M - j,
        {
            assert(self@[j as int].len() == N && v@[j as int].len() == N);
            res.push(row_add(&self.data[j], &v.data[j]));
            j = j + 1;
        }
        let r = Matrix { data: res };
        assert(r@ =~= mat_add(self@, v@));
        r
    }

    /// The element-wise difference, as a new matrix.
    pub fn minus(&self, v: &Matrix<T, M, N>) -> (r: Matrix<T, M, N>)
        requires
            self.wf(),
            v.wf(),
        ensures
            r.wf(),
            r@ == mat_sub(self@, v@),
    {
        let mut res: Vec<Vec<T>> = Vec::new();
        let mut j: usize = 0;
        while j < M
            invariant
                0 <= j <= M,
                self.wf(),
                v.wf(),
                res@.len() == j,
                forall|jj: int| 0 <= jj < j ==> (#[trigger] res@[jj])@ == seq_sub(self@[jj], v@[jj]),
            decreases M - j,
        {
            assert(self@[j as int].len() == N && v@[j as int].len() == N);
            res.push(row_sub(&self.data[j], &v.data[j]));
            j = j + 1;
        }
        let r = Matrix { data: res };
        assert(r@ =~= mat_sub(self@, v@));
        r
    }

    /// Every element multiplied by `a`, as a new matrix.
    pub fn scaled(&self, a: T) -> (r: Matrix<T, M, N>)
        requires
            self.wf(),
        ensures
            r.wf(),
            r@ == mat_scale(self@, a),
    {
        let mut res: Vec<Vec<T>> = Vec::new();
        let mut j: usize = 0;
        while j < M
            invariant
                0 <= j <= M,
                self.wf(),
                res@.len() == j,
                forall|jj: int| 0 <= jj < j ==> (#[trigger] res@[jj])@ == seq_scale(self@[jj], a),
            decreases M - j,
        {
            res.push(row_scale(&self.data[j], a));
            j = j + 1;
        }
        let r = Matrix { data: res };
        assert(r@ =~= mat_scale(self@, a));
        r
    }

    /// Adds `v` to this matrix, element by element.
    pub fn add(&mut self, v: &Matrix<T, M, N>)
        requires
            old(self).wf(),
            v.wf(),
        ensures
            final(self).wf(),
            final(self)@ == mat_add(old(self)@, v@),
    {
        *self = self.plus(v);
    }

    /// Subtracts `v` from this matrix, element by element.
    pub fn sub(&mut self, v: &Matrix<T, M, N>)
        requires
            old(self).wf(),
            v.wf(),
        ensures
            final(self).wf(),
            final(self)@ == mat_sub(old(self)@, v@),
    {
        *self = self.minus(v);
    }

    /// Multiplies every element by `a`.
    pub fn scl(&mut self, a: T)
        requires
            old(self).wf(),
        ensures
            final(self).wf(),
            final(self)@ == mat_scale(old(self)@, a),
    {
        *self = self.scaled(a);
    }

    /// The matrix product with an `N` by `H` matrix; the receiver is left unchanged.
    pub fn mul_mat<const H: usize>(&mut self, rhs: &Matrix<T, N, H>) -> (r: Matrix<T, M, H>)
        requires
            old(self).wf(),
            rhs.wf(),
        ensures
            *final(self) == *old(self),
            r.wf(),
            r@ == mat_mul(old(self)@, rhs@, H as nat),
    {
        let mut res: Vec<Vec<T>> = Vec::new();
        let mut j: usize = 0;
        while j < M
            invariant
                0 <= j <= M,
                self.wf(),
                rhs.wf(),
                res@.len() == j,
                forall|jj: int|
                    0 <= jj < j ==> (#[trigger] res@[jj])@ == mat_mul(self@, rhs@, H as nat)[jj],
            decreases M - j,
        {
            let ghost a = self@[j as int];
            assert(a.len() == N);
            let mut row: Vec<T> = Vec::new();
            let mut i: usize = 0;
            while i < H
                invariant
                    0 <= i <= H,
                    j < M,
                    self.wf(),
                    rhs.wf(),
                    a == self@[j as int],
                    row@ == mat_mul(self@, rhs@, H as nat)[j as int].subrange(0, i as int),
                decreases H - i,
            {
                let ghost c = column(rhs@, i as int);
                let mut sum = T::zero();
                let mut k: usize = 0;
                while k < N
                    invariant
                        0 <= k <= N,
                        i < H,
                        j < M,
                        self.wf(),
                        rhs.wf(),
                        a == self@[j as int],
                        c == column(rhs@, i as int),
                        sum == dot_upto(a, c, k as nat),
                    decreases N - k,
                {
                    assert(rhs@[k as int].len() == H);
                    sum = sum.add(self.data[j][k].mul(rhs.data[k][i]));
                    k = k + 1;
                }
                row.push(sum);
                i = i + 1;
                assert(row@ =~= mat_mul(self@, rhs@, H as nat)[j as int].subrange(0, i as int));
            }
            assert(row@ =~= mat_mul(self@, rhs@, H as nat)[j as int]);
            res.push(row);
            j = j + 1;
        }
        let r = Matrix { data: res };
        assert(r@ =~= mat_mul(self@, rhs@, H as nat));
        r
    }

    /// The product with a column vector of length `N`, a vector of length `M`; the receiver
    /// is left unchanged.
    pub fn mul_vec(&mut self, rhs: &Vector<T, N>) -> (r: Vector<T, M>)
        requires
            old(self).wf(),
            rhs.wf(),
        ensures
            *final(self) == *old(self),
            r.wf(),
            r@ == mat_vec(old(self)@, rhs@),
    {
        let v = rhs.as_slice();
        let mut res: Vec<T> = Vec::new();
        let mut j: usize = 0;
        while j < M
            invariant
                0 <= j <= M,
                self.wf(),
                rhs.wf(),
                v@ == rhs@,
                res@ == mat_vec(self@, rhs@).subrange(0, j as int),
            decreases M - j,
        {
            let ghost a = self@[j as int];
            assert(a.len() == N);
            let mut sum = T::zero();
            let mut i: usize = 0;
            while i < N
                invariant
                    0 <= i <= N,
                    j < M,
                    self.wf(),
                    rhs.wf(),
                    v@ == rhs@,
                    a == self@[j as int],
                    sum == dot_upto(a, rhs@, i as nat),
                decreases N - i,
            {
                sum = sum.add(self.data[j][i].mul(v[i]));
                i = i + 1;
            }
            res.push(sum);
            j = j + 1;
            assert(res@ =~= mat_vec(self@, rhs@).subrange(0, j as int));
        }
        assert(res@ =~= mat_vec(self@, rhs@));
        Vector::from_elems(res)
    }

    /// The transpose, an `N` by `M` matrix; the receiver is left unchanged.
    pub fn transpose(&mut self) -> (r: Matrix<T, N, M>)
        requires
            old(self).wf(),
        ensures
            *final(self) == *old(self),
            r.wf(),
            r@ == transpose_spec(old(self)@, N as nat),
    {
        let mut res: Vec<Vec<T>> = Vec::new();
        let mut j: usize = 0;
        while j < N
            invariant
                0 <= j <= N,
                self.wf(),
                res@.len() == j,
                forall|jj: int|
                    0 <= jj < j ==> (#[trigger] res@[jj])@ == transpose_spec(self@, N as nat)[jj],
            decreases N - j,
        {
            let mut col: Vec<T> = Vec::new();
            let mut i: usize = 0;
            while i < M
                invariant
                    0 <= i <= M,
                    j < N,
                    self.wf(),
                    col@ == column(self@, j as int).subrange(0, i as int),
                decreases M - i,
            {
                assert(self@[i as int].len() == N);
                col.push(self.data[i][j]);
                i = i + 1;
                assert(col@ =~= column(self@, j as int).subrange(0, i as int));
            }
            assert(col@ =~= column(self@, j as int));
            res.push(col);
            j = j + 1;
        }
        let r = Matrix { data: res };
        assert(r@ =~= transpose_spec(self@, N as nat));
        r
    }

    /// A copy of the entries as a fixed-size array of rows; the receiver is left unchanged.
    pub fn as_arr(&mut self) -> (r: [[T; N]; M])
        requires
            old(self).wf(),
        ensures
            *final(self) == *old(self),
            forall|j: int| 0 <= j < M ==> (#[trigger] r@[j])@ == old(self)@[j],
    {
        let z = T::zero();
        let blank: [T; N] = vstd::array::array_fill_for_copy_types::<T, N>(z);
        let mut res: [[T; N]; M] = vstd::array::array_fill_for_copy_types::<[T; N], M>(blank);
        let mut j: usize = 0;
        while j < M
            invariant
                0 <= j <= M,
                self.wf(),
                forall|jj: int| 0 <= jj < j ==> (#[trigger] res@[jj])@ == self@[jj],
            decreases M - j,
        {
            let mut row: [T; N] = blank;
            let mut i: usize = 0;
            assert(self@[j as int].len() == N);
            while i < N
                invariant
                    0 <= i <= N,
                    j < M,
                    self.wf(),
                    self@[j as int].len() == N,
                    forall|ii: int| 0 <= ii < i ==> row@[ii] == self@[j as int][ii],
                decreases N - i,
            {
                row.set(i, self.data[j][i]);
                i = i + 1;
            }
            assert(row@ =~= self@[j as int]);
            res.set(j, row);
            j = j + 1;
        }
        res
    }

    /// A copy of the rows, in order.
    pub fn as_vec(&self) -> (r: Vec<Vec<T>>)
        requires
            self.wf(),
        ensures
            rows_view(r@) == self@,
    {
        let mut res: Vec<Vec<T>> = Vec::new();
        let mut j: usize = 0;
        while j < M
            invariant
                0 <= j <= M,
                self.wf(),
                res@.len() == j,
                forall|jj: int| 0 <= jj < j ==> (#[trigger] res@[jj])@ == self@[jj],
            decreases M - j,
        {
            res.push(self.as_vector(j).as_vec());
            j = j + 1;
        }
        assert(rows_view(res@) =~= self@);
        res
    }
}

impl<T: Scalar, const M: usize> Matrix<T, M, M> {
    /// The sum of the diagonal entries; the receiver is left unchanged.
    pub fn trace(&mut self) -> (r: T)
        requires
            old(self).wf(),
        ensures
            *final(self) == *old(self),
            r == trace_upto(old(self)@, M as nat),
    {
        let mut res = T::zero();
        let mut i: usize = 0;
        while i < M
            invariant
                0 <= i <= M,
                self.wf(),
                res == trace_upto(self@, i as nat),
            decreases M - i,
        {
            assert(self@[i as int].len() == M);
            res = res.add(self.data[i][i]);
            i = i + 1;
        }
        res
    }

    /// The identity matrix.
    pub fn identity() -> (r: Self)
        ensures
            r.wf(),
            r@ == identity_spec::<T>(M as nat),
    {
        let mut data: Vec<Vec<T>> = Vec::new();
        let mut j: usize = 0;
        while j < M
            invariant
                0 <= j <= M,
                data@.len() == j,
                forall|jj: int| 0 <= jj < j ==> (#[trigger] data@[jj])@ == identity_spec::<T>(M as nat)[jj],
            decreases M - j,
        {
            let mut row: Vec<T> = Vec::new();
            let mut i: usize = 0;
            while i < M
                invariant
                    0 <= i <= M,
                    j < M,
                    row@ == identity_spec::<T>(M as nat)[j as int].subrange(0, i as int),
                decreases M - i,
            {
                if i == j {
                    row.push(T::one());
                } else {
                    row.push(T::zero());
                }
                i = i + 1;
                assert(row@ =~= identity_spec::<T>(M as nat)[j as int].subrange(0, i as int));
            }
            assert(row@ =~= identity_spec::<T>(M as nat)[j as int]);
            data.push(row);
            j = j + 1;
        }
        let r = Matrix { data };
        assert(r@ =~= identity_spec::<T>(M as nat));
        r
    }
}

impl<T: Scalar, const M: usize, const N: usize> From<[[T; N]; M]> for Matrix<T, M, N> {
    fn from(s: [[T; N]; M]) -> Matrix<T, M, N> {
        Matrix::new(s)
    }
}

impl<T: Scalar, const M: usize, const N: usize> vstd::std_specs::convert::FromSpecImpl<[[T; N]; M]> for Matrix<T, M, N> {
    open spec fn obeys_from_spec() -> bool {
        false
    }

    open spec fn from_spec(v: [[T; N]; M]) -> Matrix<T, M, N> {
        vstd::pervasive::arbitrary()
    }
}

} // verus!
