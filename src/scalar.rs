use vstd::prelude::*;

verus! {

/// The numeric capability that every element type of a vector or matrix provides.
///
/// Each operation is described by a spec function, so the contracts of the vector and
/// matrix operations say exactly which sequence of scalar operations produced a result.
pub trait Scalar: Sized + Copy {
    spec fn zero_spec() -> Self;

    spec fn one_spec() -> Self;

    spec fn add_spec(a: Self, b: Self) -> Self;

    spec fn sub_spec(a: Self, b: Self) -> Self;

    spec fn mul_spec(a: Self, b: Self) -> Self;

    spec fn div_spec(a: Self, b: Self) -> Self;

    spec fn neg_spec(a: Self) -> Self;

    spec fn abs_spec(a: Self) -> Self;

    spec fn sqrt_spec(a: Self) -> Self;

    spec fn powi_spec(a: Self, e: nat) -> Self;

    spec fn lt_spec(a: Self, b: Self) -> bool;

    /// The additive identity.
    fn zero() -> (r: Self)
        ensures
            r == Self::zero_spec(),
    ;

    /// The multiplicative identity.
    fn one() -> (r: Self)
        ensures
            r == Self::one_spec(),
    ;

    fn add(self, b: Self) -> (r: Self)
        ensures
            r == Self::add_spec(self, b),
    ;

    fn sub(self, b: Self) -> (r: Self)
        ensures
            r == Self::sub_spec(self, b),
    ;

    fn mul(self, b: Self) -> (r: Self)
        ensures
            r == Self::mul_spec(self, b),
    ;

    /// Division; total, including division by the additive identity.
    fn div(self, b: Self) -> (r: Self)
        ensures
            r == Self::div_spec(self, b),
    ;

    fn neg(self) -> (r: Self)
        ensures
            r == Self::neg_spec(self),
    ;

    /// The magnitude: never below zero where the scalar can hold it.
    fn abs(self) -> (r: Self)
        ensures
            r == Self::abs_spec(self),
    ;

    fn sqrt(self) -> (r: Self)
        ensures
            r == Self::sqrt_spec(self),
    ;

    /// Raises to a non-negative integer power.
    fn powi(self, e: i32) -> (r: Self)
        requires
            e >= 0,
        ensures
            r == Self::powi_spec(self, e as nat),
    ;

    fn is_equal(self, b: Self) -> (r: bool)
        ensures
            r == (self == b),
    ;

    fn less_than(self, b: Self) -> (r: bool)
        ensures
            r == Self::lt_spec(self, b),
    ;
}

/// Algebraic facts about a scalar's operations, proved by each implementation that has them.
pub trait ScalarLaws: Scalar {
    /// Adding and then subtracting the same value gives back the original value.
    proof fn law_add_sub(a: Self, b: Self)
        ensures
            Self::sub_spec(Self::add_spec(a, b), b) == a,
    ;

    /// Multiplication is commutative.
    proof fn law_mul_commutes(a: Self, b: Self)
        ensures
            Self::mul_spec(a, b) == Self::mul_spec(b, a),
    ;

    /// Zero is an identity of addition on both sides and of subtraction on the right.
    proof fn law_add_zero(a: Self)
        ensures
            Self::add_spec(a, Self::zero_spec()) == a,
            Self::add_spec(Self::zero_spec(), a) == a,
            Self::sub_spec(a, Self::zero_spec()) == a,
    ;

    /// Zero annihilates and one is an identity of multiplication.
    proof fn law_mul_units(a: Self)
        ensures
            Self::mul_spec(Self::zero_spec(), a) == Self::zero_spec(),
            Self::mul_spec(a, Self::zero_spec()) == Self::zero_spec(),
            Self::mul_spec(Self::one_spec(), a) == a,
            Self::mul_spec(a, Self::one_spec()) == a,
    ;

    /// Dividing by one changes nothing.
    proof fn law_div_one(a: Self)
        ensures
            Self::div_spec(a, Self::one_spec()) == a,
    ;

    /// A magnitude is never below zero.
    proof fn law_abs_not_negative(a: Self)
        ensures
            !Self::lt_spec(Self::abs_spec(a), Self::zero_spec()),
    ;

    /// The two identities differ.
    proof fn law_zero_is_not_one()
        ensures
            Self::zero_spec() != Self::one_spec(),
    ;
}

/// The quotient that Rust's `checked_div` gives, or what two's-complement wrapping and a
/// zero divisor give: `i64::MIN / -1` wraps to `i64::MIN` and `x / 0` is zero.
pub open spec fn i64_div(a: i64, b: i64) -> i64 {
    match a.checked_div(b) {
        Some(q) => q,
        None => if b == 0 {
            0
        } else {
            a
        },
    }
}

/// `a` raised to the power `e` with wrapping multiplication.
pub open spec fn i64_pow(a: i64, e: nat) -> i64
    decreases e,
{
    if e == 0 {
        1
    } else {
        vstd::wrapping::i64_specs::wrapping_mul(i64_pow(a, (e - 1) as nat), a)
    }
}

/// `r` is the integer square root of `x`: the largest integer whose square does not exceed `x`.
pub open spec fn is_floor_sqrt(x: int, r: int) -> bool {
    0 <= r && r * r <= x < (r + 1) * (r + 1)
}

/// The integer square root of a non-negative `x`.
pub open spec fn floor_sqrt(x: int) -> int {
    choose|r: int| is_floor_sqrt(x, r)
}

pub(crate) proof fn lemma_floor_sqrt_unique(x: int, r: int, s: int)
    requires
        is_floor_sqrt(x, r),
        is_floor_sqrt(x, s),
    ensures
        r == s,
{
    if r < s {
        assert((r + 1) * (r + 1) <= s * s) by (nonlinear_arith)
            requires
                0 <= r + 1 <= s,
        ;
    } else if s < r {
        assert((s + 1) * (s + 1) <= r * r) by (nonlinear_arith)
            requires
                0 <= s + 1 <= r,
        ;
    }
}

/// Integer square root by bisection: the result `r` satisfies `r * r <= x < (r + 1) * (r + 1)`.
pub(crate) fn i64_floor_sqrt(x: i64) -> (r: i64)
    requires
        x >= 0,
    ensures
        is_floor_sqrt(x as int, r as int),
        r == floor_sqrt(x as int),
{
    let mut lo: u64 = 0;
    let mut hi: u64 = 3037000500;
    assert(3037000500 * 3037000500 > i64::MAX);
    while lo + 1 < hi
        invariant
            lo < hi <= 3037000500,
            lo * lo <= x,
            x < hi * hi,
        decreases hi - lo,
    {
        let mid: u64 = lo + (hi - lo) / 2;
        assert(mid * mid <= 3037000500 * 3037000500) by (nonlinear_arith)
            requires
                mid < 3037000500,
        ;
        if mid * mid <= x as u64 {
            lo = mid;
        } else {
            hi = mid;
        }
    }
    proof {
        assert(is_floor_sqrt(x as int, lo as int));
        lemma_floor_sqrt_unique(x as int, lo as int, floor_sqrt(x as int));
    }
    lo as i64
}

/// Two's-complement arithmetic that wraps on overflow, truncating division that gives zero
/// for a zero divisor, and the integer square root (zero for a negative value). The
/// magnitude saturates: that of `i64::MIN` is `i64::MAX`, so it is never negative.
impl Scalar for i64 {
    open spec fn zero_spec() -> i64 {
        0
    }

    open spec fn one_spec() -> i64 {
        1
    }

    open spec fn add_spec(a: i64, b: i64) -> i64 {
        vstd::wrapping::i64_specs::wrapping_add(a, b)
    }

    open spec fn sub_spec(a: i64, b: i64) -> i64 {
        vstd::wrapping::i64_specs::wrapping_sub(a, b)
    }

    open spec fn mul_spec(a: i64, b: i64) -> i64 {
        vstd::wrapping::i64_specs::wrapping_mul(a, b)
    }

    open spec fn div_spec(a: i64, b: i64) -> i64 {
        i64_div(a, b)
    }

    open spec fn neg_spec(a: i64) -> i64 {
        vstd::wrapping::i64_specs::wrapping_sub(0, a)
    }

    open spec fn abs_spec(a: i64) -> i64 {
        if a == i64::MIN {
            i64::MAX
        } else if a < 0 {
            (-a) as i64
        } else {
            a
        }
    }

    open spec fn sqrt_spec(a: i64) -> i64 {
        if a < 0 {
            0
        } else {
            floor_sqrt(a as int) as i64
        }
    }

    open spec fn powi_spec(a: i64, e: nat) -> i64 {
        i64_pow(a, e)
    }

    open spec fn lt_spec(a: i64, b: i64) -> bool {
        a < b
    }

    fn zero() -> (r: i64) {
        0
    }

    fn one() -> (r: i64) {
        1
    }

    fn add(self, b: i64) -> (r: i64) {
        self.wrapping_add(b)
    }

    fn sub(self, b: i64) -> (r: i64) {
        self.wrapping_sub(b)
    }

    fn mul(self, b: i64) -> (r: i64) {
        self.wrapping_mul(b)
    }

    fn div(self, b: i64) -> (r: i64) {
        match self.checked_div(b) {
            Some(q) => q,
            None => if b == 0 {
                0
            } else {
                self
            },
        }
    }

    fn neg(self) -> (r: i64) {
        0i64.wrapping_sub(self)
    }

    fn abs(self) -> (r: i64) {
        if self == i64::MIN {
            i64::MAX
        } else if self < 0 {
            -self
        } else {
            self
        }
    }

    fn sqrt(self) -> (r: i64) {
        if self < 0 {
            0
        } else {
            i64_floor_sqrt(self)
        }
    }

    fn powi(self, e: i32) -> (r: i64) {
        let mut r: i64 = 1;
        let mut i: i32 = 0;
        while i < e
            invariant
                0 <= i <= e,
                r == i64_pow(self, i as nat),
            decreases e - i,
        {
            r = r.wrapping_mul(self);
            i = i + 1;
        }
        r
    }

    fn is_equal(self, b: i64) -> (r: bool) {
        self == b
    }

    fn less_than(self, b: i64) -> (r: bool) {
        self < b
    }
}

/// The quotient that Rust's `checked_div` gives, or what two's-complement wrapping and a
/// zero divisor give: `i128::MIN / -1` wraps to `i128::MIN` and `x / 0` is zero.
pub open spec fn i128_div(a: i128, b: i128) -> i128 {
    match a.checked_div(b) {
        Some(q) => q,
        None => if b == 0 {
            0
        } else {
            a
        },
    }
}

/// `a` raised to the power `e` with wrapping multiplication.
pub open spec fn i128_pow(a: i128, e: nat) -> i128
    decreases e,
{
    if e == 0 {
        1
    } else {
        vstd::wrapping::i128_specs::wrapping_mul(i128_pow(a, (e - 1) as nat), a)
    }
}

/// Integer square root by bisection: the result `r` satisfies `r * r <= x < (r + 1) * (r + 1)`.
fn i128_floor_sqrt(x: i128) -> (r: i128)
    requires
        x >= 0,
    ensures
        is_floor_sqrt(x as int, r as int),
        r == floor_sqrt(x as int),
{
    let mut lo: u128 = 0;
    let mut hi: u128 = 13043817825332782213;
    assert(13043817825332782213 * 13043817825332782213 > i128::MAX);
    while lo + 1 < hi
        invariant
            lo < hi <= 13043817825332782213,
            lo * lo <= x,
            x < hi * hi,
        decreases hi - lo,
    {
        let mid: u128 = lo + (hi - lo) / 2;
        assert(mid * mid <= 13043817825332782213 * 13043817825332782213) by (nonlinear_arith)
            requires
                mid < 13043817825332782213,
        ;
        if mid * mid <= x as u128 {
            lo = mid;
        } else {
            hi = mid;
        }
    }
    proof {
        assert(is_floor_sqrt(x as int, lo as int));
        lemma_floor_sqrt_unique(x as int, lo as int, floor_sqrt(x as int));
    }
    lo as i128
}

/// Two's-complement arithmetic that wraps on overflow, truncating division that gives zero
/// for a zero divisor, and the integer square root (zero for a negative value). The
/// magnitude saturates: that of `i128::MIN` is `i128::MAX`, so it is never negative.
impl Scalar for i128 {
    open spec fn zero_spec() -> i128 {
        0
    }

    open spec fn one_spec() -> i128 {
        1
    }

    open spec fn add_spec(a: i128, b: i128) -> i128 {
        vstd::wrapping::i128_specs::wrapping_add(a, b)
    }

    open spec fn sub_spec(a: i128, b: i128) -> i128 {
        vstd::wrapping::i128_specs::wrapping_sub(a, b)
    }

    open spec fn mul_spec(a: i128, b: i128) -> i128 {
        vstd::wrapping::i128_specs::wrapping_mul(a, b)
    }

    open spec fn div_spec(a: i128, b: i128) -> i128 {
        i128_div(a, b)
    }

    open spec fn neg_spec(a: i128) -> i128 {
        vstd::wrapping::i128_specs::wrapping_sub(0, a)
    }

    open spec fn abs_spec(a: i128) -> i128 {
        if a == i128::MIN {
            i128::MAX
        } else if a < 0 {
            (-a) as i128
        } else {
            a
        }
    }

    open spec fn sqrt_spec(a: i128) -> i128 {
        if a < 0 {
            0
        } else {
            floor_sqrt(a as int) as i128
        }
    }

    open spec fn powi_spec(a: i128, e: nat) -> i128 {
        i128_pow(a, e)
    }

    open spec fn lt_spec(a: i128, b: i128) -> bool {
        a < b
    }

    fn zero() -> (r: i128) {
        0
    }

    fn one() -> (r: i128) {
        1
    }

    fn add(self, b: i128) -> (r: i128) {
        self.wrapping_add(b)
    }

    fn sub(self, b: i128) -> (r: i128) {
        self.wrapping_sub(b)
    }

    fn mul(self, b: i128) -> (r: i128) {
        self.wrapping_mul(b)
    }

    fn div(self, b: i128) -> (r: i128) {
        match self.checked_div(b) {
            Some(q) => q,
            None => if b == 0 {
                0
            } else {
                self
            },
        }
    }

    fn neg(self) -> (r: i128) {
        0i128.wrapping_sub(self)
    }

    fn abs(self) -> (r: i128) {
        if self == i128::MIN {
            i128::MAX
        } else if self < 0 {
            -self
        } else {
            self
        }
    }

    fn sqrt(self) -> (r: i128) {
        if self < 0 {
            0
        } else {
            i128_floor_sqrt(self)
        }
    }

    fn powi(self, e: i32) -> (r: i128) {
        let mut r: i128 = 1;
        let mut i: i32 = 0;
        while i < e
            invariant
                0 <= i <= e,
                r == i128_pow(self, i as nat),
            decreases e - i,
        {
            r = r.wrapping_mul(self);
            i = i + 1;
        }
        r
    }

    fn is_equal(self, b: i128) -> (r: bool) {
        self == b
    }

    fn less_than(self, b: i128) -> (r: bool) {
        self < b
    }
}

impl ScalarLaws for i64 {
    proof fn law_abs_not_negative(a: i64) {
    }

    proof fn law_add_sub(a: i64, b: i64) {
    }

    proof fn law_mul_commutes(a: i64, b: i64) {
        assert(a * b == b * a) by (nonlinear_arith);
    }

    proof fn law_add_zero(a: i64) {
    }

    proof fn law_mul_units(a: i64) {
        assert(0 * a == 0 && a * 0 == 0 && 1 * a == a && a * 1 == a) by (nonlinear_arith);
        assert(vstd::wrapping::i64_specs::signed_crop(a as int) == a);
        assert(vstd::wrapping::i64_specs::signed_crop(0) == 0);
    }

    proof fn law_div_one(a: i64) {
    }

    proof fn law_zero_is_not_one() {
    }
}

impl ScalarLaws for i128 {
    proof fn law_abs_not_negative(a: i128) {
    }

    proof fn law_add_sub(a: i128, b: i128) {
    }

    proof fn law_mul_commutes(a: i128, b: i128) {
        assert(a * b == b * a) by (nonlinear_arith);
    }

    proof fn law_add_zero(a: i128) {
    }

    proof fn law_mul_units(a: i128) {
        assert(0 * a == 0 && a * 0 == 0 && 1 * a == a && a * 1 == a) by (nonlinear_arith);
        assert(vstd::wrapping::i128_specs::signed_crop(a as int) == a);
        assert(vstd::wrapping::i128_specs::signed_crop(0) == 0);
    }

    proof fn law_div_one(a: i128) {
    }

    proof fn law_zero_is_not_one() {
    }
}

} // verus!
