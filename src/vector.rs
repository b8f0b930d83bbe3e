use vstd::prelude::*;

use crate::error::LinalgError;
use crate::scalar::Scalar;

verus! {

/// Element-wise sum.
pub open spec fn seq_add<T: Scalar>(a: Seq<T>, b: Seq<T>) -> Seq<T> {
    Seq::new(a.len(), |i: int| T::add_spec(a[i], b[i]))
}

/// Element-wise difference.
pub open spec fn seq_sub<T: Scalar>(a: Seq<T>, b: Seq<T>) -> Seq<T> {
    Seq::new(a.len(), |i: int| T::sub_spec(a[i], b[i]))
}

/// Every element multiplied by `k`.
pub open spec fn seq_scale<T: Scalar>(a: Seq<T>, k: T) -> Seq<T> {
    Seq::new(a.len(), |i: int| T::mul_spec(a[i], k))
}

/// Every element divided by `k`.
pub open spec fn seq_div<T: Scalar>(a: Seq<T>, k: T) -> Seq<T> {
    Seq::new(a.len(), |i: int| T::div_spec(a[i], k))
}

/// The sum of `a[i] * b[i]` over the first `n` positions, accumulated from the left.
pub open spec fn dot_upto<T: Scalar>(a: Seq<T>, b: Seq<T>, n: nat) -> T
    decreases n,
{
    if n == 0 {
        T::zero_spec()
    } else {
        T::add_spec(
            dot_upto(a, b, (n - 1) as nat),
            T::mul_spec(a[n - 1], b[n - 1]),
        )
    }
}

/// The dot product.
pub open spec fn dot_spec<T: Scalar>(a: Seq<T>, b: Seq<T>) -> T {
    dot_upto(a, b, a.len())
}

/// The sum of the magnitudes of the first `n` elements.
pub open spec fn abs_sum_upto<T: Scalar>(a: Seq<T>, n: nat) -> T
    decreases n,
{
    if n == 0 {
        T::zero_spec()
    } else {
        T::add_spec(abs_sum_upto(a, (n - 1) as nat), T::abs_spec(a[n - 1]))
    }
}

/// The largest magnitude among the first `n` elements (zero when `n` is zero).
pub open spec fn abs_max_upto<T: Scalar>(a: Seq<T>, n: nat) -> T
    decreases n,
{
    if n == 0 {
        T::zero_spec()
    } else {
        let m = abs_max_upto(a, (n - 1) as nat);
        let x = T::abs_spec(a[n - 1]);
        if T::lt_spec(m, x) {
            x
        } else {
            m
        }
    }
}

/// The L1 norm: the sum of the magnitudes.
pub open spec fn norm_1_spec<T: Scalar>(a: Seq<T>) -> T {
    abs_sum_upto(a, a.len())
}

/// The Euclidean norm: the square root of the sum of squares.
pub open spec fn norm_spec<T: Scalar>(a: Seq<T>) -> T {
    T::sqrt_spec(dot_spec(a, a))
}

/// The L-infinity norm: the largest magnitude.
pub open spec fn norm_inf_spec<T: Scalar>(a: Seq<T>) -> T {
    abs_max_upto(a, a.len())
}

/// `len` zeros.
pub open spec fn zeros<T: Scalar>(len: nat) -> Seq<T> {
    Seq::new(len, |i: int| T::zero_spec())
}

/// `cs[0] * us[0] + ... + cs[n-1] * us[n-1]`, summed from the left onto `len` zeros.
pub open spec fn lin_comb_upto<T: Scalar>(us: Seq<Seq<T>>, cs: Seq<T>, n: nat, len: nat) -> Seq<T>
    decreases n,
{
    if n == 0 {
        zeros(len)
    } else {
        seq_add(lin_comb_upto(us, cs, (n - 1) as nat, len), seq_scale(us[n - 1], cs[n - 1]))
    }
}

/// The cross product of two sequences of length three.
pub open spec fn cross_spec<T: Scalar>(u: Seq<T>, v: Seq<T>) -> Seq<T> {
    seq![
        T::sub_spec(T::mul_spec(u[1], v[2]), T::mul_spec(u[2], v[1])),
        T::sub_spec(T::mul_spec(u[2], v[0]), T::mul_spec(u[0], v[2])),
        T::sub_spec(T::mul_spec(u[0], v[1]), T::mul_spec(u[1], v[0])),
    ]
}

/// A vector of exactly `N` scalars.
#[derive(PartialEq, Debug, Clone)]
pub struct Vector<T, const N: usize> {
    data: Vec<T>,
}

impl<T, const N: usize> View for Vector<T, N> {
    type V = Seq<T>;

    closed spec fn view(&self) -> Seq<T> {
        self.data@
    }
}

impl<T: Scalar, const N: usize> Vector<T, N> {
    /// The vector holds exactly `N` elements.
    pub open spec fn wf(&self) -> bool {
        self@.len() == N
    }

    /// Builds a vector from its elements, kept in order.
    pub fn new(s: [T; N]) -> (r: Self)
        ensures
            r.wf(),
            r@ == s@,
    {
        let mut data: Vec<T> = Vec::new();
        let mut i: usize = 0;
        while i < N
            invariant
                0 <= i <= N,
                s@.len() == N,
                data@ == s@.subrange(0, i as int),
            decreases N - i,
        {
            data.push(s[i]);
            i = i + 1;
            assert(data@ =~= s@.subrange(0, i as int));
        }
        assert(data@ =~= s@);
        Vector { data }
    }

    /// Wraps elements whose number is already known to be `N`.
    pub(crate) fn from_elems(v: Vec<T>) -> (r: Self)
        requires
            v@.len() == N,
        ensures
            r.wf(),
            r@ == v@,
    {
        Vector { data: v }
    }

    /// Builds a vector from a `Vec` whose length is `N`.
    pub fn from_vec(v: Vec<T>) -> (r: Result<Self, LinalgError>)
        ensures
            v@.len() == N <==> r is Ok,
            r is Ok ==> r->Ok_0.wf() && r->Ok_0@ == v@,
            r is Err ==> r->Err_0 == LinalgError::DimensionMismatch,
    {
        if v.len() == N {
            Ok(Vector { data: v })
        } else {
            Err(LinalgError::DimensionMismatch)
        }
    }

    /// The element at index `i`, or `IndexOutOfRange` when `i >= N`.
    pub fn at(&self, i: usize) -> (r: Result<T, LinalgError>)
        requires
            self.wf(),
        ensures
            i < N ==> r == Ok::<T, LinalgError>(self@[i as int]),
            i >= N ==> r == Err::<T, LinalgError>(LinalgError::IndexOutOfRange),
    {
        if i < N {
            Ok(self.data[i])
        } else {
            Err(LinalgError::IndexOutOfRange)
        }
    }

    /// The elements, in order, as a slice.
    pub fn as_slice(&self) -> (r: &[T])
        ensures
            r@ == self@,
    {
        self.data.as_slice()
    }

    /// A copy of the elements, in order.
    pub fn as_vec(&self) -> (r: Vec<T>)
        requires
            self.wf(),
        ensures
            r@ == self@,
    {
        let mut res: Vec<T> = Vec::new();
        let mut i: usize = 0;
        while i < N
            invariant
                0 <= i <= N,
                self@.len() == N,
                res@ == self@.subrange(0, i as int),
            decreases N - i,
        {
            res.push(self.data[i]);
            i = i + 1;
            assert(res@ =~= self@.subrange(0, i as int));
        }
        assert(res@ =~= self@);
        res
    }

    /// The element-wise sum, as a new vector.
    pub fn plus(&self, v: &Vector<T, N>) -> (r: Vector<T, N>)
        requires
            self.wf(),
            v.wf(),
        ensures
            r.wf(),
            r@ == seq_add(self@, v@),
    {
        let mut res: Vec<T> = Vec::new();
        let mut i: usize = 0;
        while i < N
            invariant
                0 <= i <= N,
                self@.len() == N,
                v@.len() == N,
                res@ == seq_add(self@, v@).subrange(0, i as int),
            decreases N - i,
        {
            res.push(self.data[i].add(v.data[i]));
            i = i + 1;
            assert(res@ =~= seq_add(self@, v@).subrange(0, i as int));
        }
        assert(res@ =~= seq_add(self@, v@));
        Vector { data: res }
    }

    /// The element-wise difference, as a new vector.
    pub fn minus(&self, v: &Vector<T, N>) -> (r: Vector<T, N>)
        requires
            self.wf(),
            v.wf(),
        ensures
            r.wf(),
            r@ == seq_sub(self@, v@),
    {
        let mut res: Vec<T> = Vec::new();
        let mut i: usize = 0;
        while i < N
            invariant
                0 <= i <= N,
                self@.len() == N,
                v@.len() == N,
                res@ == seq_sub(self@, v@).subrange(0, i as int),
            decreases N - i,
        {
            res.push(self.data[i].sub(v.data[i]));
            i = i + 1;
            assert(res@ =~= seq_sub(self@, v@).subrange(0, i as int));
        }
        assert(res@ =~= seq_sub(self@, v@));
        Vector { data: res }
    }

    /// Every element multiplied by `a`, as a new vector.
    pub fn scaled(&self, a: T) -> (r: Vector<T, N>)
        requires
            self.wf(),
        ensures
            r.wf(),
            r@ == seq_scale(self@, a),
    {
        let mut res: Vec<T> = Vec::new();
        let mut i: usize = 0;
        while i < N
            invariant
                0 <= i <= N,
                self@.len() == N,
                res@ == seq_scale(self@, a).subrange(0, i as int),
            decreases N - i,
        {
            res.push(self.data[i].mul(a));
            i = i + 1;
            assert(res@ =~= seq_scale(self@, a).subrange(0, i as int));
        }
        assert(res@ =~= seq_scale(self@, a));
        Vector { data: res }
    }

    /// Every element divided by `a`, as a new vector.
    pub fn divided(&self, a: T) -> (r: Vector<T, N>)
        requires
            self.wf(),
        ensures
            r.wf(),
            r@ == seq_div(self@, a),
    {
        let mut res: Vec<T> = Vec::new();
        let mut i: usize = 0;
        while i < N
            invariant
                0 <= i <= N,
                self@.len() == N,
                res@ == seq_div(self@, a).subrange(0, i as int),
            decreases N - i,
        {
            res.push(self.data[i].div(a));
            i = i + 1;
            assert(res@ =~= seq_div(self@, a).subrange(0, i as int));
        }
        assert(res@ =~= seq_div(self@, a));
        Vector { data: res }
    }

    /// Adds `v` to this vector, element by element.
    pub fn add(&mut self, v: &Vector<T, N>)
        requires
            old(self).wf(),
            v.wf(),
        ensures
            final(self).wf(),
            final(self)@ == seq_add(old(self)@, v@),
    {
        *self = self.plus(v);
    }

    /// Subtracts `v` from this vector, element by element.
    pub fn sub(&mut self, v: &Vector<T, N>)
        requires
            old(self).wf(),
            v.wf(),
        ensures
            final(self).wf(),
            final(self)@ == seq_sub(old(self)@, v@),
    {
        *self = self.minus(v);
    }

    /// Multiplies every element by `a`.
    pub fn scl(&mut self, a: T)
        requires
            old(self).wf(),
        ensures
            final(self).wf(),
            final(self)@ == seq_scale(old(self)@, a),
    {
        *self = self.scaled(a);
    }

    /// The dot product with `v`.
    pub fn dot(&self, v: &Vector<T, N>) -> (r: T)
        requires
            self.wf(),
            v.wf(),
        ensures
            r == dot_spec(self@, v@),
    {
        let mut res = T::zero();
        let mut i: usize = 0;
        while i < N
            invariant
                0 <= i <= N,
                self@.len() == N,
                v@.len() == N,
                res == dot_upto(self@, v@, i as nat),
            decreases N - i,
        {
            res = res.add(self.data[i].mul(v.data[i]));
            i = i + 1;
        }
        res
    }

    /// The L1 norm: the sum of the magnitudes.
    pub fn norm_1(&mut self) -> (r: T)
        requires
            old(self).wf(),
        ensures
            *final(self) == *old(self),
            r == norm_1_spec(old(self)@),
    {
        let mut res = T::zero();
        let mut i: usize = 0;
        while i < N
            invariant
                0 <= i <= N,
                self@.len() == N,
                res == abs_sum_upto(self@, i as nat),
            decreases N - i,
        {
            res = res.add(self.data[i].abs());
            i = i + 1;
        }
        res
    }

    /// The Euclidean norm: the square root of the sum of squares.
    pub fn norm(&mut self) -> (r: T)
        requires
            old(self).wf(),
        ensures
            *final(self) == *old(self),
            r == norm_spec(old(self)@),
    {
        self.dot(self).sqrt()
    }

    /// The L-infinity norm: the largest magnitude (zero for an empty vector).
    pub fn norm_inf(&mut self) -> (r: T)
        requires
            old(self).wf(),
        ensures
            *final(self) == *old(self),
            r == norm_inf_spec(old(self)@),
    {
        let mut res = T::zero();
        let mut i: usize = 0;
        while i < N
            invariant
                0 <= i <= N,
                self@.len() == N,
                res == abs_max_upto(self@, i as nat),
            decreases N - i,
        {
            let x = self.data[i].abs();
            if res.less_than(x) {
                res = x;
            }
            i = i + 1;
        }
        res
    }

    /// The Euclidean length; the same value as `norm`.
    pub fn abs(&self) -> (r: T)
        requires
            self.wf(),
        ensures
            r == norm_spec(self@),
    {
        self.dot(self).sqrt()
    }

    /// Every element divided by the Euclidean norm. A zero norm is not guarded against: the
    /// result is what the scalar's division by zero gives.
    pub fn normalize(&self) -> (r: Vector<T, N>)
        requires
            self.wf(),
        ensures
            r.wf(),
            r@ == seq_div(self@, norm_spec(self@)),
    {
        let n = self.abs();
        self.divided(n)
    }

    /// The sum of `coefs[i] * u[i]`, or `DimensionMismatch` when the two slices differ in
    /// length.
    pub fn linear_combination(u: &[Vector<T, N>], coefs: &[T]) -> (r: Result<
        Vector<T, N>,
        LinalgError,
    >)
        requires
            forall|i: int| 0 <= i < u@.len() ==> (#[trigger] u@[i]).wf(),
        ensures
            u@.len() != coefs@.len() ==> r == Err::<Vector<T, N>, LinalgError>(
                LinalgError::DimensionMismatch,
            ),
            u@.len() == coefs@.len() ==> r is Ok && r->Ok_0.wf() && r->Ok_0@ == lin_comb_upto(
                u@.map_values(|v: Vector<T, N>| v@),
                coefs@,
                u@.len(),
                N as nat,
            ),
    {
        if u.len() != coefs.len() {
            return Err(LinalgError::DimensionMismatch);
        }
        let ghost us = u@.map_values(|v: Vector<T, N>| v@);
        let mut res: Vector<T, N> = Vector { data: Vec::new() };
        let mut k: usize = 0;
        while k < N
            invariant
                0 <= k <= N,
                res@ == zeros::<T>(k as nat),
            decreases N - k,
        {
            res.data.push(T::zero());
            k = k + 1;
            assert(res@ =~= zeros::<T>(k as nat));
        }
        let mut i: usize = 0;
        while i < u.len()
            invariant
                0 <= i <= u@.len(),
                u@.len() == coefs@.len(),
                us == u@.map_values(|v: Vector<T, N>| v@),
                forall|j: int| 0 <= j < u@.len() ==> (#[trigger] u@[j]).wf(),
                res.wf(),
                res@ == lin_comb_upto(us, coefs@, i as nat, N as nat),
            decreases u@.len() - i,
        {
            let tmp = u[i].scaled(coefs[i]);
            res = res.plus(&tmp);
            i = i + 1;
        }
        Ok(res)
    }
}

/// The cross product of two three-dimensional vectors.
pub fn cross_product<T: Scalar>(u: &Vector<T, 3>, v: &Vector<T, 3>) -> (r: Vector<T, 3>)
    requires
        u.wf(),
        v.wf(),
    ensures
        r.wf(),
        r@ == cross_spec(u@, v@),
{
    let a = u.as_slice();
    let b = v.as_slice();
    let x = a[1].mul(b[2]).sub(a[2].mul(b[1]));
    let y = a[2].mul(b[0]).sub(a[0].mul(b[2]));
    let z = a[0].mul(b[1]).sub(a[1].mul(b[0]));
    Vector::new([x, y, z])
}

impl<T: Scalar, const N: usize> From<[T; N]> for Vector<T, N> {
    fn from(s: [T; N]) -> Vector<T, N> {
        Vector::new(s)
    }
}

impl<T: Scalar, const N: usize> vstd::std_specs::convert::FromSpecImpl<[T; N]> for Vector<T, N> {
    open spec fn obeys_from_spec() -> bool {
        false
    }

    open spec fn from_spec(v: [T; N]) -> Vector<T, N> {
        vstd::pervasive::arbitrary()
    }
}

} // verus!
