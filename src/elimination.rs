use vstd::prelude::*;

use crate::matrix::{has_shape, identity_spec, row_scale, row_sub, rows_view, Matrix};
use crate::error::LinalgError;
use crate::scalar::Scalar;
use crate::vector::{seq_div, seq_scale, seq_sub};

verus! {

/// `+1` for even positions and `-1` for odd ones.
pub open spec fn sign_spec<T: Scalar>(i: int) -> T {
    if i % 2 == 1 {
        T::neg_spec(T::one_spec())
    } else {
        T::one_spec()
    }
}

/// The table without its first row and without column `c`.
pub open spec fn minor<T>(a: Seq<Seq<T>>, c: int) -> Seq<Seq<T>> {
    Seq::new(
        (a.len() - 1) as nat,
        |o: int|
            Seq::new(
                (a.len() - 1) as nat,
                |l: int|
                    if l < c {
                        a[o + 1][l]
                    } else {
                        a[o + 1][l + 1]
                    },
            ),
    )
}

/// The determinant by cofactor expansion along the first row: the single entry for size one,
/// `a00 * a11 - a01 * a10` for size two, and the signed sum of first-row entries times the
/// determinants of their minors above that.
pub open spec fn det_spec<T: Scalar>(a: Seq<Seq<T>>) -> T
    decreases a.len(), a.len() + 1,
{
    if a.len() == 1 {
        a[0][0]
    } else if a.len() == 2 {
        T::sub_spec(T::mul_spec(a[0][0], a[1][1]), T::mul_spec(a[0][1], a[1][0]))
    } else {
        cofactor_sum(a, a.len())
    }
}

/// The first `n` terms of the cofactor expansion along the first row, summed from the left.
pub open spec fn cofactor_sum<T: Scalar>(a: Seq<Seq<T>>, n: nat) -> T
    decreases a.len(), n,
{
    if n == 0 || a.len() == 0 {
        T::zero_spec()
    } else {
        T::add_spec(
            cofactor_sum(a, (n - 1) as nat),
            T::mul_spec(
                T::mul_spec(a[0][n - 1], sign_spec::<T>(n - 1)),
                det_spec(minor(a, n - 1)),
            ),
        )
    }
}

/// Every entry of `r` is zero.
pub open spec fn row_is_zero<T: Scalar>(r: Seq<T>) -> bool {
    forall|i: int| 0 <= i < r.len() ==> r[i] == T::zero_spec()
}

/// The largest index in `[lo, hi)` whose row is not all zero, or -1 when there is none.
pub open spec fn last_nonzero_row<T: Scalar>(a: Seq<Seq<T>>, lo: int, hi: int) -> int
    decreases hi - lo,
{
    if hi <= lo {
        -1
    } else if !row_is_zero(a[hi - 1]) {
        hi - 1
    } else {
        last_nonzero_row(a, lo, hi - 1)
    }
}

/// Rows `x` and `y` exchanged.
pub open spec fn swap_rows<T>(a: Seq<Seq<T>>, x: int, y: int) -> Seq<Seq<T>> {
    a.update(x, a[y]).update(y, a[x])
}

/// When row `j` is all zero, the lowest non-zero row below it takes its place.
pub open spec fn lift_nonzero_row<T: Scalar>(a: Seq<Seq<T>>, j: int) -> Seq<Seq<T>> {
    let k = last_nonzero_row(a, j, a.len() as int);
    if row_is_zero(a[j]) && k >= 0 {
        swap_rows(a, j, k)
    } else {
        a
    }
}

/// The first column, from `i` on and not before `lead`, whose entry in `r` is not zero; -1
/// when there is none.
pub open spec fn pivot_col<T: Scalar>(r: Seq<T>, lead: int, i: int) -> int
    decreases r.len() - i,
{
    if i >= r.len() {
        -1
    } else if r[i] != T::zero_spec() && i >= lead {
        i
    } else {
        pivot_col(r, lead, i + 1)
    }
}

/// Row `j` divided by its entry in column `p`, and that row, scaled, taken away from every
/// other row with a non-zero entry in column `p`.
pub open spec fn clear_column<T: Scalar>(a: Seq<Seq<T>>, j: int, p: int) -> Seq<Seq<T>> {
    let v = seq_div(a[j], a[j][p]);
    Seq::new(
        a.len(),
        |x: int|
            if x == j {
                v
            } else if a[x][p] != T::zero_spec() {
                seq_sub(a[x], seq_scale(v, a[x][p]))
            } else {
                a[x]
            },
    )
}

/// One row of the reduction: the table and the lead column after row `j` is processed.
pub open spec fn rref_row<T: Scalar>(a: Seq<Seq<T>>, lead: int, j: int) -> (Seq<Seq<T>>, int) {
    let b = lift_nonzero_row(a, j);
    let p = pivot_col(b[j], lead, 0);
    if p < 0 {
        (b, lead)
    } else {
        (clear_column(b, j, p), p)
    }
}

/// The table and the lead column after the first `n` rows are processed.
pub open spec fn rref_upto<T: Scalar>(a: Seq<Seq<T>>, n: nat) -> (Seq<Seq<T>>, int)
    decreases n,
{
    if n == 0 {
        (a, 0)
    } else {
        let s = rref_upto(a, (n - 1) as nat);
        rref_row(s.0, s.1, n - 1)
    }
}

/// The reduced row echelon form that the column-driven reduction produces.
pub open spec fn rref_spec<T: Scalar>(a: Seq<Seq<T>>) -> Seq<Seq<T>> {
    rref_upto(a, a.len()).0
}

proof fn lemma_last_nonzero_row_range<T: Scalar>(a: Seq<Seq<T>>, lo: int, hi: int)
    ensures
        last_nonzero_row(a, lo, hi) == -1 || lo <= last_nonzero_row(a, lo, hi) < hi,
    decreases hi - lo,
{
    if hi > lo && row_is_zero(a[hi - 1]) {
        lemma_last_nonzero_row_range(a, lo, hi - 1);
    }
}

proof fn lemma_lift_shape<T: Scalar>(a: Seq<Seq<T>>, j: int, m: nat, n: nat)
    requires
        has_shape(a, m, n),
        0 <= j < m,
    ensures
        has_shape(lift_nonzero_row(a, j), m, n),
{
    lemma_last_nonzero_row_range(a, j, a.len() as int);
}

/// Whether every entry of a row is zero.
fn row_all_zero<T: Scalar>(r: &Vec<T>) -> (b: bool)
    ensures
        b == row_is_zero(r@),
{
    let z = T::zero();
    let mut i: usize = 0;
    while i < r.len()
        invariant
            0 <= i <= r@.len(),
            z == T::zero_spec(),
            forall|k: int| 0 <= k < i ==> r@[k] == T::zero_spec(),
        decreases r@.len() - i,
    {
        if !r[i].is_equal(z) {
            return false;
        }
        i = i + 1;
    }
    true
}

/// A copy of a row.
fn copy_row<T: Scalar>(r: &Vec<T>) -> (c: Vec<T>)
    ensures
        c@ == r@,
{
    let mut c: Vec<T> = Vec::new();
    let mut i: usize = 0;
    while i < r.len()
        invariant
            0 <= i <= r@.len(),
            c@ == r@.subrange(0, i as int),
        decreases r@.len() - i,
    {
        c.push(r[i]);
        i = i + 1;
        assert(c@ =~= r@.subrange(0, i as int));
    }
    assert(c@ =~= r@);
    c
}

/// Every element of a row divided by `k`.
fn row_div<T: Scalar>(a: &Vec<T>, k: T) -> (r: Vec<T>)
    ensures
        r@ == seq_div(a@, k),
{
    let mut res: Vec<T> = Vec::new();
    let mut i: usize = 0;
    while i < a.len()
        invariant
            0 <= i <= a@.len(),
            res@ == seq_div(a@, k).subrange(0, i as int),
        decreases a@.len() - i,
    {
        res.push(a[i].div(k));
        i = i + 1;
        assert(res@ =~= seq_div(a@, k).subrange(0, i as int));
    }
    assert(res@ =~= seq_div(a@, k));
    res
}

/// Processes row `j` of the reduction in place and returns the new lead column.
fn reduce_row<T: Scalar>(
    d: &mut Vec<Vec<T>>,
    lead: usize,
    j: usize,
    Ghost(m): Ghost<nat>,
    Ghost(n): Ghost<nat>,
) -> (r: usize)
    requires
        j < m,
        old(d)@.len() == m,
        has_shape(rows_view(old(d)@), m, n),
    ensures
        has_shape(rows_view(final(d)@), m, n),
        (rows_view(final(d)@), r as int) == rref_row(rows_view(old(d)@), lead as int, j as int),
{
    let ghost a = rows_view(d@);
    let size = d.len();
    let z = T::zero();
    if row_all_zero(&d[j]) {
        let mut k: usize = 0;
        let mut swapped = false;
        while k < size - j && !swapped
            invariant
                0 <= k <= size - j,
                j < size,
                size == m,
                z == T::zero_spec(),
                d@.len() == m,
                has_shape(a, m, n),
                row_is_zero(a[j as int]),
                !swapped ==> rows_view(d@) == a && last_nonzero_row(a, j as int, m as int)
                    == last_nonzero_row(a, j as int, (m - k) as int),
                swapped ==> rows_view(d@) == lift_nonzero_row(a, j as int),
            decreases size - j - k + (if swapped { 0int } else { 1int }),
        {
            let index = size - k - 1;
            if !row_all_zero(&d[index]) {
                let rj = copy_row(&d[j]);
                let ri = copy_row(&d[index]);
                d[index] = rj;
                d[j] = ri;
                assert(rows_view(d@) =~= swap_rows(a, j as int, index as int));
                swapped = true;
            } else {
                k = k + 1;
            }
        }
    }
    let ghost b = rows_view(d@);
    assert(b == lift_nonzero_row(a, j as int));
    proof {
        lemma_lift_shape(a, j as int, m, n);
    }
    assert(b[j as int].len() == n);
    let width = d[j].len();
    let mut i: usize = 0;
    let mut found = false;
    while i < width && !found
        invariant
            0 <= i <= width,
            width == n,
            j < m,
            z == T::zero_spec(),
            rows_view(d@) == b,
            d@.len() == m,
            b[j as int].len() == width,
            d@[j as int]@ == b[j as int],
            !found ==> pivot_col(b[j as int], lead as int, 0) == pivot_col(
                b[j as int],
                lead as int,
                i as int,
            ),
            found ==> i < width && pivot_col(b[j as int], lead as int, 0) == i,
        decreases width - i + (if found { 0int } else { 1int }),
    {
        if !d[j][i].is_equal(z) && i >= lead {
            found = true;
        } else {
            i = i + 1;
        }
    }
    if !found {
        return lead;
    }
    let ghost c = clear_column(b, j as int, i as int);
    let piv = d[j][i];
    let v = row_div(&d[j], piv);
    d[j] = copy_row(&v);
    let mut x: usize = 0;
    while x < size
        invariant
            0 <= x <= size,
            size == m,
            j < m,
            i < n,
            z == T::zero_spec(),
            has_shape(b, m, n),
            v@ == seq_div(b[j as int], b[j as int][i as int]),
            c == clear_column(b, j as int, i as int),
            d@.len() == m,
            forall|y: int|
                0 <= y < m ==> (#[trigger] d@[y])@ == if y < x || y == j {
                    c[y]
                } else {
                    b[y]
                },
        decreases size - x,
    {
        if x != j {
            let coef = d[x][i];
            if !coef.is_equal(z) {
                let s = row_scale(&v, coef);
                let row = row_sub(&d[x], &s);
                d[x] = row;
            }
        }
        x = x + 1;
    }
    assert(rows_view(d@) =~= c);
    i
}

/// Copies `data` without its first row and without column `c`.
fn minor_of<T: Scalar>(data: &Vec<Vec<T>>, c: usize) -> (r: Vec<Vec<T>>)
    requires
        data@.len() >= 1,
        has_shape(rows_view(data@), data@.len() as nat, data@.len() as nat),
        c < data@.len(),
    ensures
        rows_view(r@) == minor(rows_view(data@), c as int),
        r@.len() == data@.len() - 1,
        has_shape(rows_view(r@), r@.len() as nat, r@.len() as nat),
{
    let ghost a = rows_view(data@);
    let size = data.len();
    let mut res: Vec<Vec<T>> = Vec::new();
    let mut o: usize = 1;
    while o < size
        invariant
            1 <= o <= size,
            size == data@.len(),
            c < size,
            a == rows_view(data@),
            has_shape(a, size as nat, size as nat),
            res@.len() == o - 1,
            forall|k: int| 0 <= k < o - 1 ==> (#[trigger] res@[k])@ == minor(a, c as int)[k],
        decreases size - o,
    {
        let ghost target = minor(a, c as int)[o - 1];
        assert(a[o as int].len() == size);
        let mut v: Vec<T> = Vec::new();
        let mut l: usize = 0;
        while l < size
            invariant
                0 <= l <= size,
                1 <= o < size,
                size == data@.len(),
                c < size,
                a == rows_view(data@),
                has_shape(a, size as nat, size as nat),
                target == minor(a, c as int)[o - 1],
                v@ == target.subrange(0, if l <= c { l as int } else { l - 1 }),
            decreases size - l,
        {
            if l != c {
                v.push(data[o][l]);
            }
            l = l + 1;
            assert(v@ =~= target.subrange(0, if l <= c { l as int } else { l - 1 }));
        }
        assert(v@ =~= target);
        res.push(v);
        o = o + 1;
    }
    assert(rows_view(res@) =~= minor(a, c as int));
    res
}

/// The determinant of the square table `data` by cofactor expansion.
fn deter<T: Scalar>(data: &Vec<Vec<T>>) -> (r: T)
    requires
        has_shape(rows_view(data@), data@.len() as nat, data@.len() as nat),
    ensures
        r == det_spec(rows_view(data@)),
    decreases data@.len(),
{
    let ghost a = rows_view(data@);
    let size = data.len();
    if size == 1 {
        assert(a[0].len() == 1);
        return data[0][0];
    }
    if size == 2 {
        assert(a[0].len() == 2 && a[1].len() == 2);
        return data[0][0].mul(data[1][1]).sub(data[0][1].mul(data[1][0]));
    }
    let mut res = T::zero();
    let mut i: usize = 0;
    while i < size
        invariant
            0 <= i <= size,
            size == data@.len(),
            size != 1 && size != 2,
            a == rows_view(data@),
            has_shape(a, size as nat, size as nat),
            res == cofactor_sum(a, i as nat),
        decreases size - i,
    {
        assert(a[0].len() == size);
        let coef = data[0][i];
        let sign = if i % 2 == 1 {
            T::one().neg()
        } else {
            T::one()
        };
        let sub = minor_of(data, i);
        let d = deter(&sub);
        res = res.add(coef.mul(sign).mul(d));
        i = i + 1;
    }
    res
}

impl<T: Scalar, const M: usize> Matrix<T, M, M> {
    /// The determinant, by cofactor expansion along the first row; the receiver is left
    /// unchanged.
    pub fn determinant(&mut self) -> (r: T)
        requires
            old(self).wf(),
        ensures
            *final(self) == *old(self),
            r == det_spec(old(self)@),
    {
        let data = self.as_vec();
        deter(&data)
    }
}

/// Row `m` of the table has a non-zero entry at column `m` or after it.
pub open spec fn counts_for_rank<T: Scalar>(r: Seq<T>, m: int) -> bool {
    exists|c: int| m <= c < r.len() && r[c] != T::zero_spec()
}

/// How many of the first `k` rows count for the rank.
pub open spec fn rank_upto<T: Scalar>(a: Seq<Seq<T>>, k: nat) -> nat
    decreases k,
{
    if k == 0 {
        0
    } else {
        rank_upto(a, (k - 1) as nat) + if counts_for_rank(a[k - 1], k - 1) {
            1nat
        } else {
            0nat
        }
    }
}

/// The rank: the number of rows of the reduced form that have a non-zero entry at or after
/// their own index.
pub open spec fn rank_spec<T: Scalar>(a: Seq<Seq<T>>) -> nat {
    rank_upto(rref_spec(a), a.len())
}

impl<T: Scalar, const M: usize, const N: usize> Matrix<T, M, N> {
    /// Reduces this matrix in place to its reduced row echelon form and returns a copy of it.
    ///
    /// Rows are taken from top to bottom. A zero row is first swapped with the lowest
    /// non-zero row below it; then the first non-zero entry at or after the lead column
    /// becomes the pivot: its row is divided by it and its column is cleared from every
    /// other row. No pivot is chosen by magnitude.
    pub fn row_echelon(&mut self) -> (r: Matrix<T, M, N>)
        requires
            old(self).wf(),
        ensures
            final(self).wf(),
            final(self)@ == rref_spec(old(self)@),
            r.wf(),
            r@ == final(self)@,
    {
        let ghost a = self@;
        let mut d = self.as_vec();
        let mut lead: usize = 0;
        let mut j: usize = 0;
        while j < M
            invariant
                0 <= j <= M,
                a.len() == M,
                d@.len() == M,
                has_shape(rows_view(d@), M as nat, N as nat),
                (rows_view(d@), lead as int) == rref_upto(a, j as nat),
            decreases M - j,
        {
            lead = reduce_row(&mut d, lead, j, Ghost(M as nat), Ghost(N as nat));
            j = j + 1;
        }
        *self = Matrix::from_rows(d);
        Matrix::from_rows(self.as_vec())
    }

    /// Reduces this matrix in place (see `row_echelon`) and counts the rows of the result
    /// that hold a non-zero entry at or after their own index.
    pub fn rank(&mut self) -> (r: usize)
        requires
            old(self).wf(),
        ensures
            final(self).wf(),
            final(self)@ == rref_spec(old(self)@),
            r == rank_spec(old(self)@),
    {
        let ghost a = self@;
        let mat = self.row_echelon();
        let d = mat.as_vec();
        let ghost e = rows_view(d@);
        let z = T::zero();
        let mut res: usize = 0;
        let mut m: usize = 0;
        while m < M
            invariant
                0 <= m <= M,
                a.len() == M,
                z == T::zero_spec(),
                e == rref_spec(a),
                e == rows_view(d@),
                has_shape(e, M as nat, N as nat),
                res == rank_upto(e, m as nat),
                res <= m,
            decreases M - m,
        {
            assert(e[m as int].len() == N);
            let mut n: usize = m;
            let mut found = false;
            while n < N && !found
                invariant
                    m < M,
                    m <= n,
                    n <= N || n == m,
                    z == T::zero_spec(),
                    e == rows_view(d@),
                    d@.len() == M,
                    d@[m as int]@ == e[m as int],
                    e[m as int].len() == N,
                    !found ==> forall|c: int| m <= c < n ==> e[m as int][c] == T::zero_spec(),
                    found ==> counts_for_rank(e[m as int], m as int),
                decreases N - n + (if found { 0int } else { 1int }),
            {
                if !d[m][n].is_equal(z) {
                    found = true;
                } else {
                    n = n + 1;
                }
            }
            if found {
                res = res + 1;
            }
            m = m + 1;
        }
        res
    }
}

/// `a[l] - k * b[l]` for every position `l`.
pub open spec fn seq_sub_left_scaled<T: Scalar>(a: Seq<T>, k: T, b: Seq<T>) -> Seq<T> {
    Seq::new(a.len(), |l: int| T::sub_spec(a[l], T::mul_spec(k, b[l])))
}

/// The row among the first `k` whose entry in column `i` has the largest magnitude, the
/// earliest one on ties, starting from row `i`.
pub open spec fn biggest_upto<T: Scalar>(d: Seq<Seq<T>>, i: int, k: nat) -> int
    decreases k,
{
    if k == 0 {
        i
    } else {
        let b = biggest_upto(d, i, (k - 1) as nat);
        if T::lt_spec(T::abs_spec(d[b][i]), T::abs_spec(d[k - 1][i])) {
            k - 1
        } else {
            b
        }
    }
}

/// The working table and the accumulator after the zero diagonal entries of the first `k`
/// rows have been replaced by swapping in the row of largest magnitude; `None` when, for
/// one of them, the entry so selected is zero as well.
pub open spec fn pivot_upto<T: Scalar>(d: Seq<Seq<T>>, r: Seq<Seq<T>>, k: nat) -> Option<
    (Seq<Seq<T>>, Seq<Seq<T>>),
>
    decreases k,
{
    if k == 0 {
        Some((d, r))
    } else {
        match pivot_upto(d, r, (k - 1) as nat) {
            None => None,
            Some(s) => {
                let i = k - 1;
                if s.0[i][i] == T::zero_spec() {
                    let big = biggest_upto(s.0, i, s.0.len());
                    if s.0[big][i] == T::zero_spec() {
                        None
                    } else {
                        Some((swap_rows(s.0, i, big), swap_rows(s.1, i, big)))
                    }
                } else {
                    Some(s)
                }
            }
        }
    }
}

/// Row `row` loses `d[row][col] / d[col][col]` times row `col`, in both tables, and its entry
/// in column `col` is set to zero.
pub open spec fn clear_below<T: Scalar>(s: (Seq<Seq<T>>, Seq<Seq<T>>), col: int, row: int) -> (
    Seq<Seq<T>>,
    Seq<Seq<T>>,
) {
    let k = T::div_spec(s.0[row][col], s.0[col][col]);
    (
        s.0.update(row, seq_sub_left_scaled(s.0[row], k, s.0[col]).update(col, T::zero_spec())),
        s.1.update(row, seq_sub_left_scaled(s.1[row], k, s.1[col])),
    )
}

/// Rows `col + 1` to `col + n` cleared below the pivot of column `col`.
pub open spec fn clear_below_rows<T: Scalar>(
    s: (Seq<Seq<T>>, Seq<Seq<T>>),
    col: int,
    n: nat,
) -> (Seq<Seq<T>>, Seq<Seq<T>>)
    decreases n,
{
    if n == 0 {
        s
    } else {
        clear_below(clear_below_rows(s, col, (n - 1) as nat), col, col + n)
    }
}

/// The first `c` columns cleared below the diagonal.
pub open spec fn clear_below_cols<T: Scalar>(s: (Seq<Seq<T>>, Seq<Seq<T>>), c: nat) -> (
    Seq<Seq<T>>,
    Seq<Seq<T>>,
)
    decreases c,
{
    if c == 0 {
        s
    } else {
        let t = clear_below_cols(s, (c - 1) as nat);
        clear_below_rows(t, c - 1, (t.0.len() - c) as nat)
    }
}

/// The first `n` rows of both tables divided by their diagonal entry in the working table.
pub open spec fn scale_rows<T: Scalar>(s: (Seq<Seq<T>>, Seq<Seq<T>>), n: nat) -> (
    Seq<Seq<T>>,
    Seq<Seq<T>>,
)
    decreases n,
{
    if n == 0 {
        s
    } else {
        let t = scale_rows(s, (n - 1) as nat);
        let i = n - 1;
        let p = t.0[i][i];
        (t.0.update(i, seq_div(t.0[i], p)), t.1.update(i, seq_div(t.1[i], p)))
    }
}

/// Row `row` loses `d[row][col]` times row `col`, in both tables, and its entry in column
/// `col` is set to zero.
pub open spec fn clear_above<T: Scalar>(s: (Seq<Seq<T>>, Seq<Seq<T>>), row: int, col: int) -> (
    Seq<Seq<T>>,
    Seq<Seq<T>>,
) {
    let k = s.0[row][col];
    (
        s.0.update(row, seq_sub(s.0[row], seq_scale(s.0[col], k)).update(col, T::zero_spec())),
        s.1.update(row, seq_sub(s.1[row], seq_scale(s.1[col], k))),
    )
}

/// Columns `row + 1` to `row + n` of row `row` cleared.
pub open spec fn clear_above_cols<T: Scalar>(
    s: (Seq<Seq<T>>, Seq<Seq<T>>),
    row: int,
    n: nat,
) -> (Seq<Seq<T>>, Seq<Seq<T>>)
    decreases n,
{
    if n == 0 {
        s
    } else {
        clear_above(clear_above_cols(s, row, (n - 1) as nat), row, row + n)
    }
}

/// The first `n` rows cleared to the right of the diagonal.
pub open spec fn clear_above_rows<T: Scalar>(s: (Seq<Seq<T>>, Seq<Seq<T>>), n: nat) -> (
    Seq<Seq<T>>,
    Seq<Seq<T>>,
)
    decreases n,
{
    if n == 0 {
        s
    } else {
        let t = clear_above_rows(s, (n - 1) as nat);
        clear_above_cols(t, n - 1, (t.0.len() - n) as nat)
    }
}

/// The inverse that Gauss-Jordan elimination on `[a | I]` produces, or `None` when the
/// determinant is zero or a zero diagonal entry finds no non-zero entry to swap in.
pub open spec fn inverse_spec<T: Scalar>(a: Seq<Seq<T>>) -> Option<Seq<Seq<T>>> {
    let m = a.len();
    if det_spec(a) == T::zero_spec() {
        None
    } else {
        match pivot_upto(a, identity_spec::<T>(m), m) {
            None => None,
            Some(s) => Some(
                clear_above_rows(scale_rows(clear_below_cols(s, (m - 1) as nat), m), m).1,
            ),
        }
    }
}

proof fn lemma_pivot_none_stays<T: Scalar>(d: Seq<Seq<T>>, r: Seq<Seq<T>>, k1: nat, k2: nat)
    requires
        k1 <= k2,
        pivot_upto(d, r, k1) is None,
    ensures
        pivot_upto(d, r, k2) is None,
    decreases k2 - k1,
{
    if k1 < k2 {
        lemma_pivot_none_stays(d, r, k1, (k2 - 1) as nat);
    }
}

/// Exchanges rows `x` and `y` of a table.
fn swap_table_rows<T: Scalar>(d: &mut Vec<Vec<T>>, x: usize, y: usize)
    requires
        x < old(d)@.len(),
        y < old(d)@.len(),
    ensures
        final(d)@.len() == old(d)@.len(),
        rows_view(final(d)@) == swap_rows(rows_view(old(d)@), x as int, y as int),
{
    let ghost a = rows_view(d@);
    let rx = copy_row(&d[x]);
    let ry = copy_row(&d[y]);
    d[x] = ry;
    d[y] = rx;
    assert(rows_view(d@) =~= swap_rows(a, x as int, y as int));
}

/// `a[l] - k * b[l]` for every position `l`.
fn row_sub_left_scaled<T: Scalar>(a: &Vec<T>, k: T, b: &Vec<T>) -> (r: Vec<T>)
    requires
        a@.len() == b@.len(),
    ensures
        r@ == seq_sub_left_scaled(a@, k, b@),
{
    let mut res: Vec<T> = Vec::new();
    let mut i: usize = 0;
    while i < a.len()
        invariant
            0 <= i <= a@.len(),
            a@.len() == b@.len(),
            res@ == seq_sub_left_scaled(a@, k, b@).subrange(0, i as int),
        decreases a@.len() - i,
    {
        res.push(a[i].sub(k.mul(b[i])));
        i = i + 1;
        assert(res@ =~= seq_sub_left_scaled(a@, k, b@).subrange(0, i as int));
    }
    assert(res@ =~= seq_sub_left_scaled(a@, k, b@));
    res
}

/// Both tables are square of size `m`.
pub open spec fn square_pair<T>(d: Seq<Vec<T>>, r: Seq<Vec<T>>, m: nat) -> bool {
    d.len() == m && r.len() == m && has_shape(rows_view(d), m, m) && has_shape(rows_view(r), m, m)
}

/// Swaps a row of largest magnitude into each zero diagonal position; false when the entry
/// selected for a zero diagonal position is zero too.
fn pivot_pass<T: Scalar>(d: &mut Vec<Vec<T>>, r: &mut Vec<Vec<T>>) -> (ok: bool)
    requires
        square_pair(old(d)@, old(r)@, old(d)@.len() as nat),
    ensures
        square_pair(final(d)@, final(r)@, old(d)@.len() as nat),
        ok == pivot_upto(rows_view(old(d)@), rows_view(old(r)@), old(d)@.len() as nat) is Some,
        ok ==> pivot_upto(rows_view(old(d)@), rows_view(old(r)@), old(d)@.len() as nat) == Some(
            (rows_view(final(d)@), rows_view(final(r)@)),
        ),
{
    let ghost d0 = rows_view(d@);
    let ghost r0 = rows_view(r@);
    let size = d.len();
    let z = T::zero();
    let mut i: usize = 0;
    while i < size
        invariant
            0 <= i <= size,
            size == d0.len(),
            d0 == rows_view(old(d)@),
            r0 == rows_view(old(r)@),
            z == T::zero_spec(),
            square_pair(d@, r@, size as nat),
            pivot_upto(d0, r0, i as nat) == Some((rows_view(d@), rows_view(r@))),
        decreases size - i,
    {
        let ghost dv = rows_view(d@);
        let ghost rv = rows_view(r@);
        assert(dv[i as int].len() == size);
        if d[i][i].is_equal(z) {
            let mut big: usize = i;
            let mut j: usize = 0;
            while j < size
                invariant
                    0 <= j <= size,
                    i < size,
                    big < size,
                    big == biggest_upto(dv, i as int, j as nat),
                    dv == rows_view(d@),
                    rv == rows_view(r@),
                    size == d0.len(),
                    d0 == rows_view(old(d)@),
                    r0 == rows_view(old(r)@),
                    square_pair(d@, r@, size as nat),
                    has_shape(dv, size as nat, size as nat),
                    pivot_upto(d0, r0, i as nat) == Some((dv, rv)),
                    dv[i as int][i as int] == T::zero_spec(),
                decreases size - j,
            {
                assert(dv[j as int].len() == size && dv[big as int].len() == size);
                if d[big][i].abs().less_than(d[j][i].abs()) {
                    big = j;
                }
                j = j + 1;
            }
            if d[big][i].is_equal(z) {
                proof {
                    lemma_pivot_none_stays(d0, r0, (i + 1) as nat, size as nat);
                }
                return false;
            }
            swap_table_rows(d, i, big);
            swap_table_rows(r, i, big);
            assert(square_pair(d@, r@, size as nat)) by {
                assert forall|y: int| 0 <= y < size implies (#[trigger] rows_view(d@)[y]).len()
                    == size && rows_view(r@)[y].len() == size by {
                    assert(dv[y].len() == size && dv[i as int].len() == size);
                    assert(dv[big as int].len() == size);
                    assert(rv[y].len() == size && rv[i as int].len() == size);
                    assert(rv[big as int].len() == size);
                }
            }
        }
        i = i + 1;
    }
    true
}

/// Clears every entry below the diagonal, column by column.
fn clear_below_pass<T: Scalar>(d: &mut Vec<Vec<T>>, r: &mut Vec<Vec<T>>)
    requires
        old(d)@.len() >= 1,
        square_pair(old(d)@, old(r)@, old(d)@.len() as nat),
    ensures
        square_pair(final(d)@, final(r)@, old(d)@.len() as nat),
        (rows_view(final(d)@), rows_view(final(r)@)) == clear_below_cols(
            (rows_view(old(d)@), rows_view(old(r)@)),
            (old(d)@.len() - 1) as nat,
        ),
{
    let ghost s0 = (rows_view(d@), rows_view(r@));
    let size = d.len();
    let z = T::zero();
    let mut col: usize = 0;
    while col < size - 1
        invariant
            0 <= col <= size - 1,
            size == s0.0.len(),
            z == T::zero_spec(),
            square_pair(d@, r@, size as nat),
            (rows_view(d@), rows_view(r@)) == clear_below_cols(s0, col as nat),
        decreases size - col,
    {
        let ghost t = clear_below_cols(s0, col as nat);
        let mut row: usize = col + 1;
        while row < size
            invariant
                col < row <= size,
                size == s0.0.len(),
                z == T::zero_spec(),
                t.0.len() == size,
                square_pair(d@, r@, size as nat),
                (rows_view(d@), rows_view(r@)) == clear_below_rows(t, col as int, (row - col - 1) as nat),
            decreases size - row,
        {
            let ghost u = (rows_view(d@), rows_view(r@));
            assert(u.0[row as int].len() == size && u.0[col as int].len() == size);
            assert(u.1[row as int].len() == size && u.1[col as int].len() == size);
            let k = d[row][col].div(d[col][col]);
            let mut nd = row_sub_left_scaled(&d[row], k, &d[col]);
            nd[col] = z;
            let nr = row_sub_left_scaled(&r[row], k, &r[col]);
            d[row] = nd;
            r[row] = nr;
            assert(rows_view(d@) =~= clear_below(u, col as int, row as int).0);
            assert(rows_view(r@) =~= clear_below(u, col as int, row as int).1);
            row = row + 1;
        }
        col = col + 1;
    }
}

/// Divides every row of both tables by its diagonal entry in the working table.
fn scale_pass<T: Scalar>(d: &mut Vec<Vec<T>>, r: &mut Vec<Vec<T>>)
    requires
        square_pair(old(d)@, old(r)@, old(d)@.len() as nat),
    ensures
        square_pair(final(d)@, final(r)@, old(d)@.len() as nat),
        (rows_view(final(d)@), rows_view(final(r)@)) == scale_rows(
            (rows_view(old(d)@), rows_view(old(r)@)),
            old(d)@.len() as nat,
        ),
{
    let ghost s0 = (rows_view(d@), rows_view(r@));
    let size = d.len();
    let mut row: usize = 0;
    while row < size
        invariant
            0 <= row <= size,
            size == s0.0.len(),
            square_pair(d@, r@, size as nat),
            (rows_view(d@), rows_view(r@)) == scale_rows(s0, row as nat),
        decreases size - row,
    {
        let ghost u = (rows_view(d@), rows_view(r@));
        assert(u.0[row as int].len() == size && u.1[row as int].len() == size);
        let div = d[row][row];
        let nd = row_div(&d[row], div);
        let nr = row_div(&r[row], div);
        d[row] = nd;
        r[row] = nr;
        assert(rows_view(d@) =~= u.0.update(row as int, seq_div(u.0[row as int], div)));
        assert(rows_view(r@) =~= u.1.update(row as int, seq_div(u.1[row as int], div)));
        row = row + 1;
    }
}

/// Clears every entry to the right of the diagonal, row by row.
fn clear_above_pass<T: Scalar>(d: &mut Vec<Vec<T>>, r: &mut Vec<Vec<T>>)
    requires
        square_pair(old(d)@, old(r)@, old(d)@.len() as nat),
    ensures
        square_pair(final(d)@, final(r)@, old(d)@.len() as nat),
        (rows_view(final(d)@), rows_view(final(r)@)) == clear_above_rows(
            (rows_view(old(d)@), rows_view(old(r)@)),
            old(d)@.len() as nat,
        ),
{
    let ghost s0 = (rows_view(d@), rows_view(r@));
    let size = d.len();
    let z = T::zero();
    let mut row: usize = 0;
    while row < size
        invariant
            0 <= row <= size,
            size == s0.0.len(),
            z == T::zero_spec(),
            square_pair(d@, r@, size as nat),
            (rows_view(d@), rows_view(r@)) == clear_above_rows(s0, row as nat),
        decreases size - row,
    {
        let ghost t = clear_above_rows(s0, row as nat);
        let mut col: usize = row + 1;
        while col < size
            invariant
                row < col <= size,
                size == s0.0.len(),
                z == T::zero_spec(),
                t.0.len() == size,
                square_pair(d@, r@, size as nat),
                (rows_view(d@), rows_view(r@)) == clear_above_cols(t, row as int, (col - row - 1) as nat),
            decreases size - col,
        {
            let ghost u = (rows_view(d@), rows_view(r@));
            assert(u.0[row as int].len() == size && u.0[col as int].len() == size);
            assert(u.1[row as int].len() == size && u.1[col as int].len() == size);
            let k = d[row][col];
            let sd = row_scale(&d[col], k);
            let mut nd = row_sub(&d[row], &sd);
            nd[col] = z;
            let sr = row_scale(&r[col], k);
            let nr = row_sub(&r[row], &sr);
            d[row] = nd;
            r[row] = nr;
            assert(rows_view(d@) =~= clear_above(u, row as int, col as int).0);
            assert(rows_view(r@) =~= clear_above(u, row as int, col as int).1);
            col = col + 1;
        }
        row = row + 1;
    }
}

impl<T: Scalar, const M: usize> Matrix<T, M, M> {
    /// The inverse by Gauss-Jordan elimination on `[A | I]`, or `SingularMatrix` when the
    /// determinant is zero or a zero diagonal entry finds no non-zero entry in its column to
    /// swap in. The receiver is left unchanged.
    ///
    /// Each zero diagonal entry is first replaced by swapping in the row whose entry in that
    /// column has the largest magnitude; then the entries below the diagonal are cleared,
    /// every row is divided by its diagonal entry, and the entries above are cleared.
    pub fn inverse(&mut self) -> (r: Result<Matrix<T, M, M>, LinalgError>)
        requires
            old(self).wf(),
        ensures
            *final(self) == *old(self),
            r is Err <==> inverse_spec(old(self)@) is None,
            r is Err ==> r->Err_0 == LinalgError::SingularMatrix,
            r is Ok ==> r->Ok_0.wf() && inverse_spec(old(self)@) == Some(r->Ok_0@),
    {
        let det = self.determinant();
        if det.is_equal(T::zero()) {
            return Err(LinalgError::SingularMatrix);
        }
        let mut res = Self::identity().as_vec();
        let mut d = self.as_vec();
        if !pivot_pass(&mut d, &mut res) {
            return Err(LinalgError::SingularMatrix);
        }
        clear_below_pass(&mut d, &mut res);
        scale_pass(&mut d, &mut res);
        clear_above_pass(&mut d, &mut res);
        Ok(Matrix::from_rows(res))
    }
}

} // verus!
