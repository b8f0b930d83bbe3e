use vstd::prelude::*;

use crate::elimination::{
    clear_column, det_spec, cofactor_sum, last_nonzero_row, lift_nonzero_row, minor, pivot_col,
    rref_row, rref_spec, rref_upto, row_is_zero, sign_spec,
};
use crate::matrix::{column, has_shape, identity_spec, transpose_spec, Matrix};
use crate::ratio::{
    abs_int, canonical, defined, gcd, lemma_ratio_add_sub, lemma_ratio_div_one, lemma_ratio_mul_commutes, lemma_ratio_of_reduced,
    ratio_add, ratio_mul, ratio_of, ratio_sub, Ratio,
};
use crate::scalar::{floor_sqrt, is_floor_sqrt, lemma_floor_sqrt_unique, Scalar, ScalarLaws};
use crate::vector::{
    abs_max_upto, abs_sum_upto, dot_spec, dot_upto, norm_1_spec, norm_inf_spec, norm_spec, seq_add,
    seq_div, seq_sub, Vector,
};

verus! {

/// Adding `v` to `u` and then subtracting `v` again gives back `u`.
pub proof fn add_then_sub<T: ScalarLaws, const N: usize>(u: Vector<T, N>, v: Vector<T, N>)
    requires
        u.wf(),
        v.wf(),
    ensures
        seq_sub(seq_add(u@, v@), v@) == u@,
{
    assert forall|i: int| 0 <= i < N implies seq_sub(seq_add(u@, v@), v@)[i] == u@[i] by {
        T::law_add_sub(u@[i], v@[i]);
    }
    assert(seq_sub(seq_add(u@, v@), v@) =~= u@);
}

/// Adding `v` to a vector of fractions in lowest terms and then subtracting `v` again gives
/// back the vector, where no sum leaves the range that a fraction can hold.
pub proof fn add_then_sub_for_fractions<const N: usize>(u: Vector<Ratio, N>, v: Vector<Ratio, N>)
    requires
        u.wf(),
        v.wf(),
        forall|i: int|
            0 <= i < N ==> canonical(#[trigger] u@[i]) && canonical(v@[i]) && defined(
                ratio_add(u@[i], v@[i]),
            ),
    ensures
        seq_sub(seq_add(u@, v@), v@) == u@,
{
    assert forall|i: int| 0 <= i < N implies seq_sub(seq_add(u@, v@), v@)[i] == u@[i] by {
        assert(canonical(u@[i]));
        lemma_ratio_add_sub(u@[i], v@[i]);
    }
    assert(seq_sub(seq_add(u@, v@), v@) =~= u@);
}

proof fn lemma_dot_upto_symmetric<T: Scalar>(a: Seq<T>, b: Seq<T>, n: nat)
    requires
        forall|x: T, y: T| #[trigger] T::mul_spec(x, y) == T::mul_spec(y, x),
    ensures
        dot_upto(a, b, n) == dot_upto(b, a, n),
    decreases n,
{
    if n > 0 {
        lemma_dot_upto_symmetric(a, b, (n - 1) as nat);
        assert(T::mul_spec(a[n - 1], b[n - 1]) == T::mul_spec(b[n - 1], a[n - 1]));
    }
}

/// The dot product does not depend on the order of its operands.
pub proof fn dot_is_symmetric<T: ScalarLaws, const N: usize>(u: Vector<T, N>, v: Vector<T, N>)
    requires
        u.wf(),
        v.wf(),
    ensures
        dot_spec(u@, v@) == dot_spec(v@, u@),
{
    assert forall|x: T, y: T| #[trigger] T::mul_spec(x, y) == T::mul_spec(y, x) by {
        T::law_mul_commutes(x, y);
    }
    lemma_dot_upto_symmetric(u@, v@, N as nat);
}

/// The dot product of two vectors of fractions does not depend on the order of its operands.
pub proof fn dot_is_symmetric_for_fractions<const N: usize>(u: Vector<Ratio, N>, v: Vector<Ratio, N>)
    requires
        u.wf(),
        v.wf(),
    ensures
        dot_spec(u@, v@) == dot_spec(v@, u@),
{
    assert forall|x: Ratio, y: Ratio| #[trigger] Ratio::mul_spec(x, y) == Ratio::mul_spec(y, x) by {
        lemma_ratio_mul_commutes(x, y);
    }
    lemma_dot_upto_symmetric(u@, v@, N as nat);
}

/// Transposing twice gives back the matrix.
pub proof fn transpose_twice<T: Scalar, const M: usize, const N: usize>(a: Matrix<T, M, N>)
    requires
        a.wf(),
    ensures
        transpose_spec(transpose_spec(a@, N as nat), M as nat) == a@,
{
    let t = transpose_spec(a@, N as nat);
    assert forall|j: int| 0 <= j < M implies #[trigger] transpose_spec(t, M as nat)[j] == a@[j] by {
        assert(a@[j].len() == N);
        assert(column(t, j) =~= a@[j]);
    }
    assert(transpose_spec(t, M as nat) =~= a@);
}

/// The determinant of an identity matrix of any size from one up is one.
pub proof fn determinant_of_identity<T: ScalarLaws>(n: nat)
    requires
        n >= 1,
    ensures
        det_spec(identity_spec::<T>(n)) == T::one_spec(),
    decreases n,
{
    let a = identity_spec::<T>(n);
    T::law_mul_units(T::one_spec());
    T::law_mul_units(T::zero_spec());
    T::law_add_zero(T::one_spec());
    if n >= 3 {
        let b = identity_spec::<T>((n - 1) as nat);
        assert forall|o: int| 0 <= o < n - 1 implies #[trigger] minor(a, 0)[o] == b[o] by {
            assert(minor(a, 0)[o] =~= b[o]);
        }
        assert(minor(a, 0) =~= b);
        determinant_of_identity::<T>((n - 1) as nat);
        lemma_identity_cofactors::<T>(n, n);
    }
}

proof fn lemma_identity_cofactors<T: ScalarLaws>(n: nat, k: nat)
    requires
        n >= 3,
        1 <= k <= n,
        det_spec(minor(identity_spec::<T>(n), 0)) == T::one_spec(),
    ensures
        cofactor_sum(identity_spec::<T>(n), k) == T::one_spec(),
    decreases k,
{
    let a = identity_spec::<T>(n);
    T::law_mul_units(T::one_spec());
    T::law_add_zero(T::one_spec());
    if k == 1 {
        assert(cofactor_sum(a, 0) == T::zero_spec());
    } else {
        lemma_identity_cofactors::<T>(n, (k - 1) as nat);
        let s = sign_spec::<T>(k - 1);
        let d = det_spec(minor(a, k - 1));
        T::law_mul_units(s);
        T::law_mul_units(d);
    }
}

/// `x` is one of the whole numbers -1, 0 and 1.
pub open spec fn is_small_whole(x: Ratio) -> bool {
    x.den == 1 && -1 <= x.num <= 1
}

/// Every entry is 0 or 1, and no row holds more than one 1.
pub open spec fn is_partial_selection(a: Seq<Seq<Ratio>>) -> bool {
    &&& forall|r: int, c: int|
        0 <= r < a.len() && 0 <= c < a[r].len() ==> (#[trigger] a[r][c]).den == 1 && 0 <= a[r][c].num
            <= 1
    &&& forall|r: int, c: int, e: int|
        0 <= r < a.len() && 0 <= c < e < a[r].len() && #[trigger] a[r][c].num == 1 ==> #[trigger] a[r][e].num
            == 0
}

proof fn lemma_gcd_one(a: nat)
    ensures
        gcd(a, 1) == 1,
{
    assert(a % 1 == 0);
    assert(gcd(1, 0) == 1);
}

proof fn lemma_whole(v: int)
    requires
        -1 <= v <= 1,
    ensures
        ratio_of(v, 1) == (Ratio { num: v as i64, den: 1 }),
{
    lemma_gcd_one(abs_int(v));
    lemma_ratio_of_reduced(v, 1);
}

proof fn lemma_small_ops(x: Ratio, y: Ratio)
    requires
        is_small_whole(x),
        is_small_whole(y),
    ensures
        ratio_mul(x, y) == (Ratio { num: (x.num * y.num) as i64, den: 1 }),
        -1 <= x.num + y.num <= 1 ==> ratio_add(x, y) == (Ratio { num: (x.num + y.num) as i64, den: 1 }),
        -1 <= x.num - y.num <= 1 ==> ratio_sub(x, y) == (Ratio { num: (x.num - y.num) as i64, den: 1 }),
{
    assert(-1 <= x.num * y.num <= 1) by (nonlinear_arith)
        requires
            -1 <= x.num <= 1,
            -1 <= y.num <= 1,
    ;
    lemma_whole(x.num * y.num);
    if -1 <= x.num + y.num <= 1 {
        lemma_whole(x.num + y.num);
    }
    if -1 <= x.num - y.num <= 1 {
        lemma_whole(x.num - y.num);
    }
}

proof fn lemma_minor_selection(a: Seq<Seq<Ratio>>, n: nat, c: int)
    requires
        n >= 1,
        has_shape(a, n, n),
        is_partial_selection(a),
        0 <= c < n,
    ensures
        has_shape(minor(a, c), (n - 1) as nat, (n - 1) as nat),
        is_partial_selection(minor(a, c)),
{
    let b = minor(a, c);
    assert forall|r: int, k: int| 0 <= r < b.len() && 0 <= k < b[r].len() implies (#[trigger] b[r][k]).den
        == 1 && 0 <= b[r][k].num <= 1 by {
        assert(a[r + 1].len() == n);
        if k < c {
            assert(b[r][k] == a[r + 1][k]);
        } else {
            assert(b[r][k] == a[r + 1][k + 1]);
        }
    }
    assert forall|r: int, k: int, e: int|
        0 <= r < b.len() && 0 <= k < e < b[r].len() && #[trigger] b[r][k].num == 1 implies #[trigger] b[r][e].num
        == 0 by {
        assert(a[r + 1].len() == n);
        let k1 = if k < c { k } else { k + 1 };
        let e1 = if e < c { e } else { e + 1 };
        assert(b[r][k] == a[r + 1][k1] && b[r][e] == a[r + 1][e1]);
        assert(a[r + 1][k1].num == 1 ==> a[r + 1][e1].num == 0);
    }
}

proof fn lemma_selection_det_small(a: Seq<Seq<Ratio>>, n: nat)
    requires
        n >= 1,
        has_shape(a, n, n),
        is_partial_selection(a),
    ensures
        is_small_whole(det_spec(a)),
    decreases n, 1nat, 0nat,
{
    assert(a[0].len() == n);
    if n == 1 {
    } else if n == 2 {
        assert(a[1].len() == 2);
        lemma_small_ops(a[0][0], a[1][1]);
        lemma_small_ops(a[0][1], a[1][0]);
        let p = ratio_mul(a[0][0], a[1][1]);
        let q = ratio_mul(a[0][1], a[1][0]);
        assert(0 <= a[0][0].num * a[1][1].num <= 1 && 0 <= a[0][1].num * a[1][0].num <= 1)
            by (nonlinear_arith)
            requires
                0 <= a[0][0].num <= 1,
                0 <= a[1][1].num <= 1,
                0 <= a[0][1].num <= 1,
                0 <= a[1][0].num <= 1,
        ;
        lemma_small_ops(p, q);
    } else {
        lemma_selection_cofactors(a, n, n);
    }
}

proof fn lemma_selection_cofactors(a: Seq<Seq<Ratio>>, n: nat, k: nat)
    requires
        n >= 3,
        k <= n,
        has_shape(a, n, n),
        is_partial_selection(a),
    ensures
        is_small_whole(cofactor_sum(a, k)),
        (forall|c: int| 0 <= c < k ==> a[0][c].num == 0) ==> cofactor_sum(a, k) == Ratio::zero_spec(),
    decreases n, 0nat, k,
{
    assert(a[0].len() == n);
    if k > 0 {
        lemma_selection_cofactors(a, n, (k - 1) as nat);
        let i = k - 1;
        let prev = cofactor_sum(a, (k - 1) as nat);
        let s = sign_spec::<Ratio>(i);
        lemma_small_ops(Ratio::zero_spec(), Ratio::one_spec());
        assert(is_small_whole(s));
        lemma_minor_selection(a, n, i);
        lemma_selection_det_small(minor(a, i), (n - 1) as nat);
        let d = det_spec(minor(a, i));
        lemma_small_ops(a[0][i], s);
        let t0 = ratio_mul(a[0][i], s);
        assert(-1 <= a[0][i].num * s.num <= 1) by (nonlinear_arith)
            requires
                0 <= a[0][i].num <= 1,
                -1 <= s.num <= 1,
        ;
        assert(t0.num == a[0][i].num * s.num);
        assert(-1 <= t0.num * d.num <= 1) by (nonlinear_arith)
            requires
                -1 <= t0.num <= 1,
                -1 <= d.num <= 1,
        ;
        lemma_small_ops(t0, d);
        let t = ratio_mul(t0, d);
        assert(t.num == t0.num * d.num);
        if a[0][i].num == 0 {
            assert(t.num == 0) by (nonlinear_arith)
                requires
                    t.num == t0.num * d.num,
                    t0.num == a[0][i].num * s.num,
                    a[0][i].num == 0,
            ;
            lemma_small_ops(prev, t);
        } else {
            assert forall|c: int| 0 <= c < i implies a[0][c].num == 0 by {
                if a[0][c].num == 1 {
                    assert(a[0][i].num == 0);
                }
            }
            assert(prev == Ratio::zero_spec());
            lemma_small_ops(prev, t);
        }
    }
}

/// The determinant of an identity matrix of fractions of any size from one up is one.
pub proof fn determinant_of_identity_for_fractions(n: nat)
    requires
        n >= 1,
    ensures
        det_spec(identity_spec::<Ratio>(n)) == Ratio::one_spec(),
    decreases n,
{
    let a = identity_spec::<Ratio>(n);
    let one = Ratio::one_spec();
    let zero = Ratio::zero_spec();
    lemma_small_ops(one, one);
    lemma_small_ops(zero, zero);
    lemma_small_ops(one, zero);
    if n >= 3 {
        let b = identity_spec::<Ratio>((n - 1) as nat);
        assert forall|o: int| 0 <= o < n - 1 implies #[trigger] minor(a, 0)[o] == b[o] by {
            assert(minor(a, 0)[o] =~= b[o]);
        }
        assert(minor(a, 0) =~= b);
        determinant_of_identity_for_fractions((n - 1) as nat);
        lemma_identity_fraction_cofactors(n, n);
    }
}

proof fn lemma_identity_fraction_cofactors(n: nat, k: nat)
    requires
        n >= 3,
        1 <= k <= n,
        det_spec(minor(identity_spec::<Ratio>(n), 0)) == Ratio::one_spec(),
    ensures
        cofactor_sum(identity_spec::<Ratio>(n), k) == Ratio::one_spec(),
    decreases k,
{
    let a = identity_spec::<Ratio>(n);
    let one = Ratio::one_spec();
    let zero = Ratio::zero_spec();
    lemma_small_ops(one, one);
    lemma_small_ops(zero, one);
    lemma_small_ops(one, zero);
    if k == 1 {
        assert(cofactor_sum(a, 0) == zero);
    } else {
        lemma_identity_fraction_cofactors(n, (k - 1) as nat);
        let i = k - 1;
        assert(is_partial_selection(a));
        lemma_minor_selection(a, n, i);
        lemma_selection_det_small(minor(a, i), (n - 1) as nat);
        let s = sign_spec::<Ratio>(i);
        lemma_small_ops(zero, one);
        assert(is_small_whole(s));
        lemma_small_ops(zero, s);
        lemma_small_ops(ratio_mul(zero, s), det_spec(minor(a, i)));
    }
}

/// The column of the first non-zero entry of a row, or -1 for a zero row.
pub open spec fn leading_col<T: Scalar>(r: Seq<T>) -> int {
    pivot_col(r, 0, 0)
}

/// Reduced row echelon form: zero rows come last; the leading entry of every non-zero row is
/// one and stands strictly right of the leading entry of every row above; every other entry
/// in a leading entry's column is zero.
pub open spec fn is_rref<T: Scalar>(a: Seq<Seq<T>>) -> bool {
    &&& forall|j: int, k: int|
        0 <= j < k < a.len() && #[trigger] row_is_zero(a[j]) ==> #[trigger] row_is_zero(a[k])
    &&& forall|j: int, k: int|
        0 <= j < k < a.len() && !#[trigger] row_is_zero(a[k]) ==> #[trigger] leading_col(a[j])
            < leading_col(a[k])
    &&& forall|j: int|
        0 <= j < a.len() && !#[trigger] row_is_zero(a[j]) ==> a[j][leading_col(a[j])]
            == T::one_spec()
    &&& forall|j: int, x: int|
        0 <= j < a.len() && 0 <= x < a.len() && x != j && !#[trigger] row_is_zero(a[j])
            ==> #[trigger] a[x][leading_col(a[j])] == T::zero_spec()
}

proof fn lemma_pivot_col_found<T: Scalar>(r: Seq<T>, lead: int, i: int)
    requires
        0 <= i,
    ensures
        pivot_col(r, lead, i) == -1 || (i <= pivot_col(r, lead, i) < r.len() && r[pivot_col(
            r,
            lead,
            i,
        )] != T::zero_spec()),
        (exists|c: int| i <= c < r.len() && c >= lead && r[c] != T::zero_spec()) ==> pivot_col(
            r,
            lead,
            i,
        ) != -1,
    decreases r.len() - i,
{
    if i < r.len() && !(r[i] != T::zero_spec() && i >= lead) {
        lemma_pivot_col_found(r, lead, i + 1);
        if exists|c: int| i <= c < r.len() && c >= lead && r[c] != T::zero_spec() {
            let c = choose|c: int| i <= c < r.len() && c >= lead && r[c] != T::zero_spec();
            assert(c != i);
        }
    }
}

proof fn lemma_pivot_col_from_lead<T: Scalar>(r: Seq<T>, lead: int, i: int)
    requires
        0 <= i,
        0 <= pivot_col(r, 0, i),
        lead <= pivot_col(r, 0, i),
    ensures
        pivot_col(r, lead, i) == pivot_col(r, 0, i),
    decreases r.len() - i,
{
    if i < r.len() && r[i] == T::zero_spec() {
        lemma_pivot_col_from_lead(r, lead, i + 1);
    }
}

proof fn lemma_nonzero_row_leads<T: Scalar>(r: Seq<T>)
    requires
        !row_is_zero(r),
    ensures
        0 <= leading_col(r) < r.len(),
        r[leading_col(r)] != T::zero_spec(),
{
    lemma_pivot_col_found(r, 0, 0);
    let c = choose|c: int| 0 <= c < r.len() && r[c] != T::zero_spec();
    assert(0 <= c < r.len() && c >= 0 && r[c] != T::zero_spec());
}

proof fn lemma_zero_tail<T: Scalar>(a: Seq<Seq<T>>, lo: int, hi: int)
    requires
        forall|k: int| lo <= k < hi ==> row_is_zero(#[trigger] a[k]),
    ensures
        last_nonzero_row(a, lo, hi) == -1,
    decreases hi - lo,
{
    if hi > lo {
        lemma_zero_tail(a, lo, hi - 1);
    }
}

proof fn lemma_rref_prefix_fixed<T: Scalar>(a: Seq<Seq<T>>, m: nat, n: nat, j: nat)
    requires
        has_shape(a, m, n),
        is_rref(a),
        j <= m,
        forall|r: int, c: int|
            0 <= r < m && 0 <= c < n ==> #[trigger] T::div_spec(a[r][c], T::one_spec()) == a[r][c],
    ensures
        rref_upto(a, j).0 == a,
        forall|k: int|
            j <= k < m && !row_is_zero(#[trigger] a[k]) ==> rref_upto(a, j).1 <= leading_col(a[k]),
    decreases j,
{
    if j == 0 {
        assert forall|k: int| 0 <= k < m && !row_is_zero(#[trigger] a[k]) implies 0 <= leading_col(
            a[k],
        ) by {
            lemma_nonzero_row_leads(a[k]);
        }
    } else {
        let i = j - 1;
        lemma_rref_prefix_fixed(a, m, n, (j - 1) as nat);
        let lead = rref_upto(a, (j - 1) as nat).1;
        assert(rref_upto(a, j) == rref_row(a, lead, i));
        if row_is_zero(a[i]) {
            assert forall|k: int| i <= k < m implies row_is_zero(#[trigger] a[k]) by {
                if k > i {
                    assert(row_is_zero(a[i]) ==> row_is_zero(a[k]));
                }
            }
            lemma_zero_tail(a, i, m as int);
            assert(lift_nonzero_row(a, i) == a);
            lemma_pivot_col_found(a[i], lead, 0);
            assert(pivot_col(a[i], lead, 0) == -1);
        } else {
            lemma_nonzero_row_leads(a[i]);
            let p = leading_col(a[i]);
            assert(lift_nonzero_row(a, i) == a);
            lemma_pivot_col_from_lead(a[i], lead, 0);
            assert(a[i][p] == T::one_spec());
            assert forall|c: int| 0 <= c < a[i].len() implies #[trigger] seq_div(a[i], a[i][p])[c]
                == a[i][c] by {
                assert(T::div_spec(a[i][c], T::one_spec()) == a[i][c]);
            }
            assert(seq_div(a[i], a[i][p]) =~= a[i]);
            assert forall|x: int| 0 <= x < m implies #[trigger] clear_column(a, i, p)[x] == a[x] by {
                if x != i {
                    assert(a[x][leading_col(a[i])] == T::zero_spec());
                }
            }
            assert(clear_column(a, i, p) =~= a);
            assert forall|k: int| j <= k < m && !row_is_zero(#[trigger] a[k]) implies p
                <= leading_col(a[k]) by {
                assert(leading_col(a[i]) < leading_col(a[k]));
            }
        }
    }
}

/// Reducing a matrix that is already in reduced row echelon form changes nothing.
pub proof fn row_echelon_fixed_point<T: ScalarLaws, const M: usize, const N: usize>(
    a: Matrix<T, M, N>,
)
    requires
        a.wf(),
        is_rref(a@),
    ensures
        rref_spec(a@) == a@,
{
    assert forall|r: int, c: int| 0 <= r < M && 0 <= c < N implies #[trigger] T::div_spec(
        a@[r][c],
        T::one_spec(),
    ) == a@[r][c] by {
        T::law_div_one(a@[r][c]);
    }
    lemma_rref_prefix_fixed(a@, M as nat, N as nat, M as nat);
}

/// Reducing a matrix of fractions in lowest terms that is already in reduced row echelon
/// form changes nothing.
pub proof fn row_echelon_fixed_point_for_fractions<const M: usize, const N: usize>(
    a: Matrix<Ratio, M, N>,
)
    requires
        a.wf(),
        is_rref(a@),
        forall|r: int, c: int| 0 <= r < M && 0 <= c < N ==> canonical(#[trigger] a@[r][c]),
    ensures
        rref_spec(a@) == a@,
{
    assert forall|r: int, c: int| 0 <= r < M && 0 <= c < N implies #[trigger] Ratio::div_spec(
        a@[r][c],
        Ratio::one_spec(),
    ) == a@[r][c] by {
        lemma_ratio_div_one(a@[r][c]);
    }
    lemma_rref_prefix_fixed(a@, M as nat, N as nat, M as nat);
}

/// The magnitude of an integer.
pub open spec fn magnitude(x: int) -> int {
    if x < 0 {
        -x
    } else {
        x
    }
}

/// The sum of the magnitudes of the first `n` elements, in unbounded integers.
pub open spec fn int_abs_sum(a: Seq<i64>, n: nat) -> int
    decreases n,
{
    if n == 0 {
        0
    } else {
        int_abs_sum(a, (n - 1) as nat) + magnitude(a[n - 1] as int)
    }
}

/// The sum of the squares of the first `n` elements, in unbounded integers.
pub open spec fn int_sq_sum(a: Seq<i64>, n: nat) -> int
    decreases n,
{
    if n == 0 {
        0
    } else {
        int_sq_sum(a, (n - 1) as nat) + a[n - 1] * a[n - 1]
    }
}

/// The largest magnitude among the first `n` elements (zero for none), in unbounded integers.
pub open spec fn int_max_abs(a: Seq<i64>, n: nat) -> int
    decreases n,
{
    if n == 0 {
        0
    } else {
        let m = int_max_abs(a, (n - 1) as nat);
        if m < magnitude(a[n - 1] as int) {
            magnitude(a[n - 1] as int)
        } else {
            m
        }
    }
}

proof fn lemma_abs_sum_exact(a: Seq<i64>, n: nat)
    requires
        n <= a.len(),
        int_abs_sum(a, n) <= i64::MAX,
    ensures
        abs_sum_upto(a, n) == int_abs_sum(a, n),
        0 <= int_abs_sum(a, n),
    decreases n,
{
    if n > 0 {
        lemma_abs_sum_exact(a, (n - 1) as nat);
    }
}

proof fn lemma_sq_sum_exact(a: Seq<i64>, n: nat)
    requires
        n <= a.len(),
        int_sq_sum(a, n) <= i64::MAX,
    ensures
        dot_upto(a, a, n) == int_sq_sum(a, n),
        0 <= int_sq_sum(a, n),
    decreases n,
{
    if n > 0 {
        let x = a[n - 1];
        assert(x * x >= 0) by (nonlinear_arith);
        lemma_sq_sum_exact(a, (n - 1) as nat);
        assert(vstd::wrapping::i64_specs::signed_crop(x * x) == x * x);
    }
}

proof fn lemma_max_abs_exact(a: Seq<i64>, n: nat)
    requires
        n <= a.len(),
        forall|i: int| 0 <= i < n ==> a[i] != i64::MIN,
    ensures
        abs_max_upto(a, n) == int_max_abs(a, n),
        0 <= int_max_abs(a, n),
    decreases n,
{
    if n > 0 {
        lemma_max_abs_exact(a, (n - 1) as nat);
    }
}

proof fn lemma_sums_compare(a: Seq<i64>, n: nat)
    requires
        n <= a.len(),
    ensures
        0 <= int_abs_sum(a, n),
        0 <= int_max_abs(a, n),
        int_max_abs(a, n) * int_max_abs(a, n) <= int_sq_sum(a, n),
        int_sq_sum(a, n) <= int_abs_sum(a, n) * int_abs_sum(a, n),
    decreases n,
{
    if n > 0 {
        lemma_sums_compare(a, (n - 1) as nat);
        let s = int_abs_sum(a, (n - 1) as nat);
        let q = int_sq_sum(a, (n - 1) as nat);
        let m = int_max_abs(a, (n - 1) as nat);
        let x = a[n - 1] as int;
        let y = magnitude(x);
        assert(y * y == x * x) by (nonlinear_arith)
            requires
                y == x || y == -x,
        ;
        assert(q + x * x <= (s + y) * (s + y)) by (nonlinear_arith)
            requires
                q <= s * s,
                0 <= s,
                0 <= y,
                y * y == x * x,
        ;
        assert(m * m <= q + x * x && y * y <= q + x * x) by (nonlinear_arith)
            requires
                m * m <= q,
                0 <= q,
                y * y == x * x,
        ;
        assert(0 <= m * m) by (nonlinear_arith);
    }
}

proof fn lemma_floor_sqrt_exists(x: nat)
    ensures
        exists|r: int| #[trigger] is_floor_sqrt(x as int, r),
    decreases x,
{
    if x == 0 {
        assert(is_floor_sqrt(0, 0));
    } else {
        lemma_floor_sqrt_exists((x - 1) as nat);
        let r = choose|r: int| #[trigger] is_floor_sqrt((x - 1) as int, r);
        if (r + 1) * (r + 1) <= x {
            assert((r + 2) * (r + 2) > x) by (nonlinear_arith)
                requires
                    (x - 1) < (r + 1) * (r + 1),
                    0 <= r,
            ;
            assert(is_floor_sqrt(x as int, r + 1));
        } else {
            assert(is_floor_sqrt(x as int, r));
        }
    }
}

proof fn lemma_floor_sqrt_is(x: int)
    requires
        0 <= x,
    ensures
        is_floor_sqrt(x, floor_sqrt(x)),
{
    lemma_floor_sqrt_exists(x as nat);
}

/// For a vector of integers whose sum of magnitudes and sum of squares both fit in `i64`
/// (so that no operation wraps), the L1 norm is at least the Euclidean norm (the integer
/// square root), which is at least the L-infinity norm.
pub proof fn norm_inequalities<const N: usize>(u: Vector<i64, N>)
    requires
        u.wf(),
        int_abs_sum(u@, N as nat) <= i64::MAX,
        int_sq_sum(u@, N as nat) <= i64::MAX,
    ensures
        norm_1_spec(u@) >= norm_spec(u@) >= norm_inf_spec(u@),
{
    let a = u@;
    lemma_abs_sum_exact(a, N as nat);
    lemma_sq_sum_exact(a, N as nat);
    lemma_sums_compare(a, N as nat);
    assert forall|i: int| 0 <= i < N implies a[i] != i64::MIN by {
        lemma_one_term_bounded(a, N as nat, i);
    }
    lemma_max_abs_exact(a, N as nat);
    let s = int_abs_sum(a, N as nat);
    let q = int_sq_sum(a, N as nat);
    let m = int_max_abs(a, N as nat);
    lemma_floor_sqrt_is(q);
    let r = floor_sqrt(q);
    assert(r <= s) by (nonlinear_arith)
        requires
            r * r <= q,
            q <= s * s,
            0 <= s,
            0 <= r,
    ;
    assert(m <= r) by (nonlinear_arith)
        requires
            m * m <= q,
            q < (r + 1) * (r + 1),
            0 <= m,
            0 <= r,
    ;
}

proof fn lemma_one_term_bounded(a: Seq<i64>, n: nat, i: int)
    requires
        n <= a.len(),
        0 <= i < n,
        int_abs_sum(a, n) <= i64::MAX,
    ensures
        magnitude(a[i] as int) <= int_abs_sum(a, n),
    decreases n,
{
    lemma_abs_sum_nonneg(a, (n - 1) as nat);
    if i < n - 1 {
        lemma_one_term_bounded(a, (n - 1) as nat, i);
    }
}

proof fn lemma_abs_sum_nonneg(a: Seq<i64>, n: nat)
    ensures
        0 <= int_abs_sum(a, n),
    decreases n,
{
    if n > 0 {
        lemma_abs_sum_nonneg(a, (n - 1) as nat);
    }
}

proof fn lemma_single_nonzero(a: Seq<i64>, k: int, n: nat)
    requires
        n <= a.len(),
        0 <= k < a.len(),
        forall|i: int| 0 <= i < a.len() && i != k ==> a[i] == 0,
    ensures
        int_abs_sum(a, n) == if k < n {
            magnitude(a[k] as int)
        } else {
            0
        },
        int_sq_sum(a, n) == if k < n {
            a[k] * a[k]
        } else {
            0
        },
        int_max_abs(a, n) == if k < n {
            magnitude(a[k] as int)
        } else {
            0
        },
    decreases n,
{
    if n > 0 {
        lemma_single_nonzero(a, k, (n - 1) as nat);
    }
}

/// The three norms agree on a vector of integers with at most one non-zero element, as long
/// as that element's square fits in `i64`.
pub proof fn norms_agree_on_one_nonzero<const N: usize>(u: Vector<i64, N>, k: int)
    requires
        u.wf(),
        0 <= k < N,
        forall|i: int| 0 <= i < N && i != k ==> u@[i] == 0,
        u@[k] * u@[k] <= i64::MAX,
    ensures
        norm_1_spec(u@) == norm_spec(u@),
        norm_spec(u@) == norm_inf_spec(u@),
{
    let a = u@;
    let x = a[k] as int;
    lemma_single_nonzero(a, k, N as nat);
    let y = magnitude(x);
    assert(y * y == x * x) by (nonlinear_arith)
        requires
            y == x || y == -x,
    ;
    assert(y <= i64::MAX) by (nonlinear_arith)
        requires
            y * y <= i64::MAX,
            0 <= y,
    ;
    lemma_abs_sum_exact(a, N as nat);
    lemma_sq_sum_exact(a, N as nat);
    assert forall|i: int| 0 <= i < N implies a[i] != i64::MIN by {
        if i == k {
            assert(i64::MIN * i64::MIN > i64::MAX) by (nonlinear_arith);
        }
    }
    lemma_max_abs_exact(a, N as nat);
    assert(is_floor_sqrt(x * x, y)) by (nonlinear_arith)
        requires
            y * y == x * x,
            0 <= y,
    ;
    lemma_floor_sqrt_is(x * x);
    lemma_floor_sqrt_unique(x * x, y, floor_sqrt(x * x));
}

/// The sum of the magnitudes of the first `n` elements, in unbounded integers.
pub open spec fn int_abs_sum_i128(a: Seq<i128>, n: nat) -> int
    decreases n,
{
    if n == 0 {
        0
    } else {
        int_abs_sum_i128(a, (n - 1) as nat) + magnitude(a[n - 1] as int)
    }
}

/// The sum of the squares of the first `n` elements, in unbounded integers.
pub open spec fn int_sq_sum_i128(a: Seq<i128>, n: nat) -> int
    decreases n,
{
    if n == 0 {
        0
    } else {
        int_sq_sum_i128(a, (n - 1) as nat) + a[n - 1] * a[n - 1]
    }
}

/// The largest magnitude among the first `n` elements (zero for none), in unbounded integers.
pub open spec fn int_max_abs_i128(a: Seq<i128>, n: nat) -> int
    decreases n,
{
    if n == 0 {
        0
    } else {
        let m = int_max_abs_i128(a, (n - 1) as nat);
        if m < magnitude(a[n - 1] as int) {
            magnitude(a[n - 1] as int)
        } else {
            m
        }
    }
}

proof fn lemma_abs_sum_exact_i128(a: Seq<i128>, n: nat)
    requires
        n <= a.len(),
        int_abs_sum_i128(a, n) <= i128::MAX,
    ensures
        abs_sum_upto(a, n) == int_abs_sum_i128(a, n),
        0 <= int_abs_sum_i128(a, n),
    decreases n,
{
    if n > 0 {
        lemma_abs_sum_exact_i128(a, (n - 1) as nat);
    }
}

proof fn lemma_sq_sum_exact_i128(a: Seq<i128>, n: nat)
    requires
        n <= a.len(),
        int_sq_sum_i128(a, n) <= i128::MAX,
    ensures
        dot_upto(a, a, n) == int_sq_sum_i128(a, n),
        0 <= int_sq_sum_i128(a, n),
    decreases n,
{
    if n > 0 {
        let x = a[n - 1];
        assert(x * x >= 0) by (nonlinear_arith);
        lemma_sq_sum_exact_i128(a, (n - 1) as nat);
        assert(vstd::wrapping::i128_specs::signed_crop(x * x) == x * x);
    }
}

proof fn lemma_max_abs_exact_i128(a: Seq<i128>, n: nat)
    requires
        n <= a.len(),
        forall|i: int| 0 <= i < n ==> a[i] != i128::MIN,
    ensures
        abs_max_upto(a, n) == int_max_abs_i128(a, n),
        0 <= int_max_abs_i128(a, n),
    decreases n,
{
    if n > 0 {
        lemma_max_abs_exact_i128(a, (n - 1) as nat);
    }
}

proof fn lemma_sums_compare_i128(a: Seq<i128>, n: nat)
    requires
        n <= a.len(),
    ensures
        0 <= int_abs_sum_i128(a, n),
        0 <= int_max_abs_i128(a, n),
        int_max_abs_i128(a, n) * int_max_abs_i128(a, n) <= int_sq_sum_i128(a, n),
        int_sq_sum_i128(a, n) <= int_abs_sum_i128(a, n) * int_abs_sum_i128(a, n),
    decreases n,
{
    if n > 0 {
        lemma_sums_compare_i128(a, (n - 1) as nat);
        let s = int_abs_sum_i128(a, (n - 1) as nat);
        let q = int_sq_sum_i128(a, (n - 1) as nat);
        let m = int_max_abs_i128(a, (n - 1) as nat);
        let x = a[n - 1] as int;
        let y = magnitude(x);
        assert(y * y == x * x) by (nonlinear_arith)
            requires
                y == x || y == -x,
        ;
        assert(q + x * x <= (s + y) * (s + y)) by (nonlinear_arith)
            requires
                q <= s * s,
                0 <= s,
                0 <= y,
                y * y == x * x,
        ;
        assert(m * m <= q + x * x && y * y <= q + x * x) by (nonlinear_arith)
            requires
                m * m <= q,
                0 <= q,
                y * y == x * x,
        ;
        assert(0 <= m * m) by (nonlinear_arith);
    }
}



/// For a vector of integers whose sum of magnitudes and sum of squares both fit in `i128`
/// (so that no operation wraps), the L1 norm is at least the Euclidean norm (the integer
/// square root), which is at least the L-infinity norm.
pub proof fn norm_inequalities_wide<const N: usize>(u: Vector<i128, N>)
    requires
        u.wf(),
        int_abs_sum_i128(u@, N as nat) <= i128::MAX,
        int_sq_sum_i128(u@, N as nat) <= i128::MAX,
    ensures
        norm_1_spec(u@) >= norm_spec(u@) >= norm_inf_spec(u@),
{
    let a = u@;
    lemma_abs_sum_exact_i128(a, N as nat);
    lemma_sq_sum_exact_i128(a, N as nat);
    lemma_sums_compare_i128(a, N as nat);
    assert forall|i: int| 0 <= i < N implies a[i] != i128::MIN by {
        lemma_one_term_bounded_i128(a, N as nat, i);
    }
    lemma_max_abs_exact_i128(a, N as nat);
    let s = int_abs_sum_i128(a, N as nat);
    let q = int_sq_sum_i128(a, N as nat);
    let m = int_max_abs_i128(a, N as nat);
    lemma_floor_sqrt_is(q);
    let r = floor_sqrt(q);
    assert(r <= s) by (nonlinear_arith)
        requires
            r * r <= q,
            q <= s * s,
            0 <= s,
            0 <= r,
    ;
    assert(m <= r) by (nonlinear_arith)
        requires
            m * m <= q,
            q < (r + 1) * (r + 1),
            0 <= m,
            0 <= r,
    ;
}

proof fn lemma_one_term_bounded_i128(a: Seq<i128>, n: nat, i: int)
    requires
        n <= a.len(),
        0 <= i < n,
        int_abs_sum_i128(a, n) <= i128::MAX,
    ensures
        magnitude(a[i] as int) <= int_abs_sum_i128(a, n),
    decreases n,
{
    lemma_abs_sum_nonneg_i128(a, (n - 1) as nat);
    if i < n - 1 {
        lemma_one_term_bounded_i128(a, (n - 1) as nat, i);
    }
}

proof fn lemma_abs_sum_nonneg_i128(a: Seq<i128>, n: nat)
    ensures
        0 <= int_abs_sum_i128(a, n),
    decreases n,
{
    if n > 0 {
        lemma_abs_sum_nonneg_i128(a, (n - 1) as nat);
    }
}

proof fn lemma_single_nonzero_i128(a: Seq<i128>, k: int, n: nat)
    requires
        n <= a.len(),
        0 <= k < a.len(),
        forall|i: int| 0 <= i < a.len() && i != k ==> a[i] == 0,
    ensures
        int_abs_sum_i128(a, n) == if k < n {
            magnitude(a[k] as int)
        } else {
            0
        },
        int_sq_sum_i128(a, n) == if k < n {
            a[k] * a[k]
        } else {
            0
        },
        int_max_abs_i128(a, n) == if k < n {
            magnitude(a[k] as int)
        } else {
            0
        },
    decreases n,
{
    if n > 0 {
        lemma_single_nonzero_i128(a, k, (n - 1) as nat);
    }
}

/// The three norms agree on a vector of integers with at most one non-zero element, as long
/// as that element's square fits in `i128`.
pub proof fn norms_agree_on_one_nonzero_wide<const N: usize>(u: Vector<i128, N>, k: int)
    requires
        u.wf(),
        0 <= k < N,
        forall|i: int| 0 <= i < N && i != k ==> u@[i] == 0,
        u@[k] * u@[k] <= i128::MAX,
    ensures
        norm_1_spec(u@) == norm_spec(u@),
        norm_spec(u@) == norm_inf_spec(u@),
{
    let a = u@;
    let x = a[k] as int;
    lemma_single_nonzero_i128(a, k, N as nat);
    let y = magnitude(x);
    assert(y * y == x * x) by (nonlinear_arith)
        requires
            y == x || y == -x,
    ;
    assert(y <= i128::MAX) by (nonlinear_arith)
        requires
            y * y <= i128::MAX,
            0 <= y,
    ;
    lemma_abs_sum_exact_i128(a, N as nat);
    lemma_sq_sum_exact_i128(a, N as nat);
    assert forall|i: int| 0 <= i < N implies a[i] != i128::MIN by {
        if i == k {
            assert(i128::MIN * i128::MIN > i128::MAX) by (nonlinear_arith);
        }
    }
    lemma_max_abs_exact_i128(a, N as nat);
    assert(is_floor_sqrt(x * x, y)) by (nonlinear_arith)
        requires
            y * y == x * x,
            0 <= y,
    ;
    lemma_floor_sqrt_is(x * x);
    lemma_floor_sqrt_unique(x * x, y, floor_sqrt(x * x));
}

} // verus!
