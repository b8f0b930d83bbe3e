use vstd::prelude::*;

use crate::scalar::{floor_sqrt, i64_floor_sqrt, is_floor_sqrt, Scalar};

verus! {

/// The greatest common divisor, by Euclid's algorithm.
pub open spec fn gcd(a: nat, b: nat) -> nat
    decreases b,
{
    if b == 0 {
        a
    } else {
        gcd(b, a % b)
    }
}

/// The magnitude of an integer.
pub open spec fn abs_int(x: int) -> nat {
    if x < 0 {
        (-x) as nat
    } else {
        x as nat
    }
}

/// An exact fraction `num / den` in lowest terms with `0 < den`, both within the range of
/// `i64`, or the undefined value (`den == 0`) that division by zero and results too large to
/// hold produce. `new` and every operation give the lowest-terms form; a value written out
/// field by field is taken as it is, and compares equal only to the same fields.
#[derive(PartialEq, Eq, Debug, Clone, Copy, Structural)]
pub struct Ratio {
    pub num: i64,
    pub den: i64,
}

/// The numerator.
pub open spec fn numer_of(r: Ratio) -> i64 {
    r.num
}

/// The denominator.
pub open spec fn denom_of(r: Ratio) -> i64 {
    r.den
}

/// The undefined value.
pub open spec fn undefined() -> Ratio {
    Ratio { num: 0, den: 0 }
}

/// The whole number `n`, for `n` within the range of `i64`.
pub open spec fn ratio_whole(n: int) -> Ratio {
    Ratio { num: n as i64, den: 1 }
}

/// The magnitude of a fraction.
pub open spec fn ratio_abs(a: Ratio) -> Ratio {
    if a.num < 0 {
        ratio_sub(ratio_whole(0), a)
    } else {
        ratio_add(a, ratio_whole(0))
    }
}

/// `r` is a fraction whose parts stay within the symmetric range of `i64`.
pub open spec fn defined(r: Ratio) -> bool {
    0 < r.den && r.num > i64::MIN
}

/// `n / d` in lowest terms with a positive denominator; undefined when `d` is zero or a part
/// of the reduced fraction leaves the range of `i64`.
pub open spec fn ratio_of(n: int, d: int) -> Ratio {
    if d == 0 {
        undefined()
    } else {
        let g = gcd(abs_int(n), abs_int(d));
        let qn = abs_int(n) / g;
        let qd = abs_int(d) / g;
        if qn > i64::MAX || qd > i64::MAX {
            undefined()
        } else if (n < 0) != (d < 0) {
            Ratio { num: (-qn) as i64, den: qd as i64 }
        } else {
            Ratio { num: qn as i64, den: qd as i64 }
        }
    }
}

/// `a` raised to the power `e` by repeated multiplication.
pub open spec fn ratio_pow(a: Ratio, e: nat) -> Ratio
    decreases e,
{
    if e == 0 {
        ratio_whole(1)
    } else {
        ratio_mul(ratio_pow(a, (e - 1) as nat), a)
    }
}

/// The sum, reduced; undefined when an operand is.
pub open spec fn ratio_add(a: Ratio, b: Ratio) -> Ratio {
    if defined(a) && defined(b) {
        ratio_of(a.num * b.den + b.num * a.den, a.den * b.den)
    } else {
        undefined()
    }
}

/// The difference, reduced; undefined when an operand is.
pub open spec fn ratio_sub(a: Ratio, b: Ratio) -> Ratio {
    if defined(a) && defined(b) {
        ratio_of(a.num * b.den - b.num * a.den, a.den * b.den)
    } else {
        undefined()
    }
}

/// The product, reduced; undefined when an operand is.
pub open spec fn ratio_mul(a: Ratio, b: Ratio) -> Ratio {
    if defined(a) && defined(b) {
        ratio_of(a.num * b.num, a.den * b.den)
    } else {
        undefined()
    }
}

/// The quotient, reduced; undefined when an operand is or the divisor is zero.
pub open spec fn ratio_div(a: Ratio, b: Ratio) -> Ratio {
    if defined(a) && defined(b) {
        ratio_of(a.num * b.den, a.den * b.num)
    } else {
        undefined()
    }
}

/// The square root when numerator and denominator are both perfect squares; undefined
/// otherwise, and for negative values.
pub open spec fn ratio_sqrt(a: Ratio) -> Ratio {
    if defined(a) && a.num >= 0 {
        let r = floor_sqrt(a.num as int);
        let s = floor_sqrt(a.den as int);
        if r * r == a.num && s * s == a.den {
            ratio_of(r, s)
        } else {
            undefined()
        }
    } else {
        undefined()
    }
}

/// Strictly less, comparing cross products; false when an operand is undefined.
pub open spec fn ratio_lt(a: Ratio, b: Ratio) -> bool {
    defined(a) && defined(b) && a.num * b.den < b.num * a.den
}

proof fn lemma_gcd_positive(a: nat, b: nat)
    requires
        b > 0,
    ensures
        gcd(a, b) > 0,
    decreases b,
{
    if a % b > 0 {
        lemma_gcd_positive(b, a % b);
    } else {
        assert(gcd(b, a % b) == b);
    }
}

proof fn lemma_mod_scaled(a: nat, b: nat, k: nat)
    requires
        b > 0,
        k > 0,
    ensures
        (a * k) % (b * k) == (a % b) * k,
{
    let q = (a / b) as int;
    let r = (a % b) as int;
    assert(a == q * b + r && 0 <= r < b) by {
        vstd::arithmetic::div_mod::lemma_fundamental_div_mod(a as int, b as int);
    }
    assert((a * k) as int == q * (b * k) + r * k && 0 <= r * k < b * k) by (nonlinear_arith)
        requires
            a == q * b + r,
            0 <= r < b,
            k > 0,
    ;
    vstd::arithmetic::div_mod::lemma_fundamental_div_mod_converse(
        (a * k) as int,
        (b * k) as int,
        q,
        r * k,
    );
}

/// A common positive factor comes out of the greatest common divisor.
pub proof fn lemma_gcd_scaled(a: nat, b: nat, k: nat)
    requires
        k > 0,
    ensures
        gcd(a * k, b * k) == gcd(a, b) * k,
    decreases b,
{
    if b == 0 {
        assert(b * k == 0);
    } else {
        assert(b * k > 0) by (nonlinear_arith)
            requires
                b > 0,
                k > 0,
        ;
        lemma_mod_scaled(a, b, k);
        lemma_gcd_scaled(b, a % b, k);
    }
}

/// A fraction already in lowest terms, with a positive denominator and parts within `i64`,
/// is kept as it is.
pub proof fn lemma_ratio_of_reduced(n: int, d: int)
    requires
        0 < d <= i64::MAX,
        -i64::MAX <= n <= i64::MAX,
        gcd(abs_int(n), abs_int(d)) == 1,
    ensures
        ratio_of(n, d) == (Ratio { num: n as i64, den: d as i64 }),
{
}

/// A common positive factor of numerator and denominator cancels.
pub proof fn lemma_ratio_of_scaled(n: int, d: int, k: int)
    requires
        d != 0,
        k > 0,
    ensures
        ratio_of(n * k, d * k) == ratio_of(n, d),
{
    let an = abs_int(n);
    let ad = abs_int(d);
    assert(abs_int(n * k) == an * k && abs_int(d * k) == ad * k && d * k != 0 && ((n * k < 0)
        == (n < 0)) && ((d * k < 0) == (d < 0))) by (nonlinear_arith)
        requires
            an == abs_int(n),
            ad == abs_int(d),
            k > 0,
            d != 0,
    ;
    lemma_gcd_scaled(an, ad, k as nat);
    lemma_gcd_positive(an, ad);
    let g = gcd(an, ad);
    assert((an * k) as int / (g * k) as int == an as int / g as int) by {
        vstd::arithmetic::div_mod::lemma_div_denominator((an * k) as int, k, g as int);
        vstd::arithmetic::div_mod::lemma_div_by_multiple(an as int, k);
        assert(k * g == g * k) by (nonlinear_arith);
    }
    assert((ad * k) as int / (g * k) as int == ad as int / g as int) by {
        vstd::arithmetic::div_mod::lemma_div_denominator((ad * k) as int, k, g as int);
        vstd::arithmetic::div_mod::lemma_div_by_multiple(ad as int, k);
        assert(k * g == g * k) by (nonlinear_arith);
    }
}

/// `r` is a defined fraction in lowest terms, as `new` and the operations produce it.
pub open spec fn canonical(r: Ratio) -> bool {
    defined(r) && gcd(abs_int(r.num as int), abs_int(r.den as int)) == 1
}

/// Multiplication of fractions is commutative.
pub proof fn lemma_ratio_mul_commutes(a: Ratio, b: Ratio)
    ensures
        ratio_mul(a, b) == ratio_mul(b, a),
{
    assert(a.num * b.num == b.num * a.num && a.den * b.den == b.den * a.den) by (nonlinear_arith);
}

/// Dividing a fraction in lowest terms by one gives it back.
pub proof fn lemma_ratio_div_one(a: Ratio)
    requires
        canonical(a),
    ensures
        ratio_div(a, ratio_whole(1)) == a,
{
    lemma_ratio_of_reduced(a.num as int, a.den as int);
    assert(a.num * 1 == a.num && a.den * 1 == a.den);
}

proof fn lemma_gcd_divides(a: nat, b: nat)
    ensures
        exists|x: int, y: int| #[trigger] (gcd(a, b) * x) == a && #[trigger] (gcd(a, b) * y) == b,
    decreases b,
{
    if b == 0 {
        assert(gcd(a, b) * 1 == a && gcd(a, b) * 0 == b);
    } else {
        lemma_gcd_divides(b, a % b);
        let g = gcd(a, b);
        let (x, y) = choose|x: int, y: int| #[trigger] (g * x) == b && #[trigger] (g * y) == a % b;
        let q = (a / b) as int;
        assert(a == b * q + a % b) by {
            vstd::arithmetic::div_mod::lemma_fundamental_div_mod(a as int, b as int);
        }
        assert(g * (x * q + y) == a) by (nonlinear_arith)
            requires
                g * x == b,
                g * y == a % b,
                a == b * q + a % b,
        ;
        assert(g * x == b);
    }
}

proof fn lemma_divides_gcd(d: int, a: nat, b: nat, x: int, y: int)
    requires
        d > 0,
        d * x == a,
        d * y == b,
    ensures
        exists|z: int| #[trigger] (d * z) == gcd(a, b),
    decreases b,
{
    if b == 0 {
        assert(d * x == gcd(a, b));
    } else {
        let q = (a / b) as int;
        assert(a == b * q + a % b) by {
            vstd::arithmetic::div_mod::lemma_fundamental_div_mod(a as int, b as int);
        }
        assert(d * (x - y * q) == a % b) by (nonlinear_arith)
            requires
                d * x == a,
                d * y == b,
                a == b * q + a % b,
        ;
        lemma_divides_gcd(d, b, a % b, y, x - y * q);
    }
}

/// A fraction in lowest terms is the only reduced form of its value: any `x / y` with
/// `x * q == y * p` reduces to `p / q`.
pub proof fn lemma_ratio_of_value(x: int, y: int, p: int, q: int)
    requires
        0 < y,
        0 < q <= i64::MAX,
        -i64::MAX <= p <= i64::MAX,
        gcd(abs_int(p), abs_int(q)) == 1,
        x * q == y * p,
    ensures
        ratio_of(x, y) == (Ratio { num: p as i64, den: q as i64 }),
{
    let ap = abs_int(p);
    assert(abs_int(x) * q == y * ap) by (nonlinear_arith)
        requires
            x * q == y * p,
            0 < y,
            0 < q,
            ap == abs_int(p),
    ;
    lemma_gcd_scaled(ap, q as nat, y as nat);
    assert(gcd(ap * (y as nat), (q as nat) * (y as nat)) == y);
    assert(q * abs_int(x) == (ap * (y as nat)) as int && q * y == ((q as nat) * (y as nat)) as int)
        by (nonlinear_arith)
        requires
            abs_int(x) * q == y * ap,
            0 < y,
            0 < q,
    ;
    lemma_divides_gcd(q, ap * (y as nat), (q as nat) * (y as nat), abs_int(x) as int, y);
    let z = choose|z: int| #[trigger] (q * z) == gcd(ap * (y as nat), (q as nat) * (y as nat));
    assert(z > 0 && x == p * z && y == q * z) by (nonlinear_arith)
        requires
            q * z == y,
            x * q == y * p,
            0 < q,
            0 < y,
    ;
    lemma_ratio_of_scaled(p, q, z);
    lemma_ratio_of_reduced(p, q);
}

/// A defined reduced form has the value it was made from.
pub proof fn lemma_ratio_of_keeps_value(n: int, d: int)
    requires
        0 < d,
        defined(ratio_of(n, d)),
    ensures
        ratio_of(n, d).num * d == n * ratio_of(n, d).den,
{
    let an = abs_int(n);
    let ad = abs_int(d);
    lemma_gcd_positive(an, ad);
    lemma_gcd_divides(an, ad);
    let g = gcd(an, ad);
    let (x, y) = choose|x: int, y: int| #[trigger] (g * x) == an && #[trigger] (g * y) == ad;
    assert(an as int / g as int == x && ad as int / g as int == y) by {
        vstd::arithmetic::div_mod::lemma_div_multiples_vanish(x, g as int);
        vstd::arithmetic::div_mod::lemma_div_multiples_vanish(y, g as int);
    }
    let r = ratio_of(n, d);
    if n < 0 {
        assert(r.num == -x && r.den == y);
        assert(r.num * d == n * r.den) by (nonlinear_arith)
            requires
                r.num == -x,
                r.den == y,
                g * x == -n,
                g * y == d,
        ;
    } else {
        assert(r.num == x && r.den == y);
        assert(r.num * d == n * r.den) by (nonlinear_arith)
            requires
                r.num == x,
                r.den == y,
                g * x == n,
                g * y == d,
        ;
    }
}

/// Adding a fraction in lowest terms and subtracting it again gives back the other operand,
/// when the sum is defined.
pub proof fn lemma_ratio_add_sub(a: Ratio, b: Ratio)
    requires
        canonical(a),
        canonical(b),
        defined(ratio_add(a, b)),
    ensures
        ratio_sub(ratio_add(a, b), b) == a,
{
    let c = ratio_add(a, b);
    let nn = a.num * b.den + b.num * a.den;
    let dd = a.den * b.den;
    assert(dd > 0) by (nonlinear_arith)
        requires
            a.den > 0,
            b.den > 0,
            dd == a.den * b.den,
    ;
    lemma_ratio_of_keeps_value(nn, dd);
    let x = c.num * b.den - b.num * c.den;
    let y = c.den * b.den;
    assert(y > 0) by (nonlinear_arith)
        requires
            c.den > 0,
            b.den > 0,
            y == c.den * b.den,
    ;
    assert(x * a.den == y * a.num) by (nonlinear_arith)
        requires
            c.num * dd == nn * c.den,
            nn == a.num * b.den + b.num * a.den,
            dd == a.den * b.den,
            dd > 0,
            x == c.num * b.den - b.num * c.den,
            y == c.den * b.den,
    ;
    lemma_ratio_of_value(x, y, a.num as int, a.den as int);
}

/// Whenever the reduced form is defined, it is in lowest terms.
pub proof fn lemma_ratio_of_canonical(n: int, d: int)
    requires
        defined(ratio_of(n, d)),
    ensures
        canonical(ratio_of(n, d)),
{
    let an = abs_int(n);
    let ad = abs_int(d);
    lemma_gcd_positive(an, ad);
    lemma_gcd_divides(an, ad);
    let g = gcd(an, ad);
    let (x, y) = choose|x: int, y: int| #[trigger] (g * x) == an && #[trigger] (g * y) == ad;
    assert(an as int / g as int == x && ad as int / g as int == y) by {
        vstd::arithmetic::div_mod::lemma_div_multiples_vanish(x, g as int);
        vstd::arithmetic::div_mod::lemma_div_multiples_vanish(y, g as int);
    }
    assert(x >= 0 && y > 0) by (nonlinear_arith)
        requires
            g * x == an,
            g * y == ad,
            g > 0,
            ad > 0,
    ;
    lemma_gcd_scaled(x as nat, y as nat, g);
    assert((x as nat) * g == an && (y as nat) * g == ad) by (nonlinear_arith)
        requires
            g * x == an,
            g * y == ad,
            x >= 0,
            y >= 0,
    ;
    assert(gcd(x as nat, y as nat) == 1) by (nonlinear_arith)
        requires
            gcd(x as nat, y as nat) * g == g,
            g > 0,
    ;
    let r = ratio_of(n, d);
    assert(abs_int(r.num as int) == x && abs_int(r.den as int) == y);
}

proof fn lemma_ratio_of_not_negative(n: int, d: int)
    requires
        n >= 0,
        d > 0,
    ensures
        ratio_of(n, d).num >= 0,
{
    lemma_gcd_positive(abs_int(n), abs_int(d));
    let g = gcd(abs_int(n), abs_int(d));
    assert(abs_int(n) as int / g as int >= 0) by {
        vstd::arithmetic::div_mod::lemma_div_pos_is_pos(abs_int(n) as int, g as int);
    }
}

/// The magnitude of a fraction is never below zero.
pub proof fn lemma_ratio_abs_not_negative(a: Ratio)
    ensures
        !ratio_lt(ratio_abs(a), ratio_whole(0)),
{
    let z = ratio_whole(0);
    if defined(a) {
        if a.num < 0 {
            assert(0 * a.den - a.num * 1 > 0 && 1 * a.den > 0) by (nonlinear_arith)
                requires
                    a.num < 0,
                    a.den > 0,
            ;
            lemma_ratio_of_not_negative(0 * a.den - a.num * 1, 1 * a.den);
        } else {
            assert(a.num * 1 + 0 * a.den >= 0 && a.den * 1 > 0) by (nonlinear_arith)
                requires
                    a.num >= 0,
                    a.den > 0,
            ;
            lemma_ratio_of_not_negative(a.num * 1 + 0 * a.den, a.den * 1);
        }
        let m = ratio_abs(a);
        if defined(m) {
            assert(m.num >= 0);
            assert(m.num * 1 >= 0 * m.den) by (nonlinear_arith)
                requires
                    m.num >= 0,
                    m.den > 0,
            ;
        }
    }
}

/// The greatest common divisor of two non-negative integers.
fn gcd_exec(a: u128, b: u128) -> (r: u128)
    ensures
        r == gcd(a as nat, b as nat),
{
    let mut x = a;
    let mut y = b;
    while y != 0
        invariant
            gcd(x as nat, y as nat) == gcd(a as nat, b as nat),
        decreases y,
    {
        let t = x % y;
        x = y;
        y = t;
    }
    x
}

/// The largest `i64`, as an `i128`.
const I64_MAX: i128 = 0x7fff_ffff_ffff_ffff;

/// The magnitude of `x`.
fn magnitude(x: i128) -> (r: u128)
    requires
        x > i128::MIN,
    ensures
        r == abs_int(x as int),
{
    if x < 0 {
        (-x) as u128
    } else {
        x as u128
    }
}

impl Ratio {
    /// The fraction `n / d`, reduced; undefined when `d` is zero or the reduced parts do not
    /// fit in `i64`.
    fn reduce(n: i128, d: i128) -> (r: Ratio)
        requires
            n > i128::MIN,
            d > i128::MIN,
        ensures
            r == ratio_of(n as int, d as int),
    {
        if d == 0 {
            return Ratio { num: 0, den: 0 };
        }
        let an = magnitude(n);
        let ad = magnitude(d);
        let g = gcd_exec(an, ad);
        proof {
            lemma_gcd_positive(an as nat, ad as nat);
        }
        let qn = an / g;
        let qd = ad / g;
        if qn > I64_MAX as u128 || qd > I64_MAX as u128 {
            return Ratio { num: 0, den: 0 };
        }
        if (n < 0) != (d < 0) {
            Ratio { num: -(qn as i64), den: qd as i64 }
        } else {
            Ratio { num: qn as i64, den: qd as i64 }
        }
    }

    /// The fraction `n / d` in lowest terms; the undefined value when `d` is zero.
    pub fn new(n: i64, d: i64) -> (r: Ratio)
        ensures
            r == ratio_of(n as int, d as int),
            defined(r) ==> canonical(r),
    {
        proof {
            if defined(ratio_of(n as int, d as int)) {
                lemma_ratio_of_canonical(n as int, d as int);
            }
        }
        Ratio::reduce(n as i128, d as i128)
    }

    /// The whole number `n`.
    pub fn integer(n: i64) -> (r: Ratio)
        ensures
            r == ratio_of(n as int, 1),
            defined(r) ==> canonical(r),
    {
        proof {
            if defined(ratio_of(n as int, 1)) {
                lemma_ratio_of_canonical(n as int, 1);
            }
        }
        Ratio::reduce(n as i128, 1)
    }

    /// The numerator of the reduced fraction; zero for the undefined value.
    pub fn numer(&self) -> (r: i64)
        ensures
            r == numer_of(*self),
    {
        self.num
    }

    /// The denominator of the reduced fraction; zero for the undefined value.
    pub fn denom(&self) -> (r: i64)
        ensures
            r == denom_of(*self),
    {
        self.den
    }

    /// Whether this is the undefined value or a fraction outside the supported range.
    pub fn is_undefined(&self) -> (r: bool)
        ensures
            r == !defined(*self),
    {
        !(0 < self.den && self.num > i64::MIN)
    }
}

impl Scalar for Ratio {
    open spec fn zero_spec() -> Ratio {
        ratio_whole(0)
    }

    open spec fn one_spec() -> Ratio {
        ratio_whole(1)
    }

    open spec fn add_spec(a: Ratio, b: Ratio) -> Ratio {
        ratio_add(a, b)
    }

    open spec fn sub_spec(a: Ratio, b: Ratio) -> Ratio {
        ratio_sub(a, b)
    }

    open spec fn mul_spec(a: Ratio, b: Ratio) -> Ratio {
        ratio_mul(a, b)
    }

    open spec fn div_spec(a: Ratio, b: Ratio) -> Ratio {
        ratio_div(a, b)
    }

    open spec fn neg_spec(a: Ratio) -> Ratio {
        ratio_sub(ratio_whole(0), a)
    }

    open spec fn abs_spec(a: Ratio) -> Ratio {
        ratio_abs(a)
    }

    open spec fn sqrt_spec(a: Ratio) -> Ratio {
        ratio_sqrt(a)
    }

    open spec fn powi_spec(a: Ratio, e: nat) -> Ratio {
        ratio_pow(a, e)
    }

    open spec fn lt_spec(a: Ratio, b: Ratio) -> bool {
        ratio_lt(a, b)
    }

    fn zero() -> (r: Ratio) {
        Ratio { num: 0, den: 1 }
    }

    fn one() -> (r: Ratio) {
        Ratio { num: 1, den: 1 }
    }

    fn add(self, b: Ratio) -> (r: Ratio) {
        if self.is_undefined() || b.is_undefined() {
            return Ratio { num: 0, den: 0 };
        }
        let (an, ad, bn, bd) = (self.num as i128, self.den as i128, b.num as i128, b.den as i128);
        proof {
            lemma_product_bounds(an as int, bd as int);
            lemma_product_bounds(bn as int, ad as int);
            lemma_product_bounds(ad as int, bd as int);
        }
        Ratio::reduce(an * bd + bn * ad, ad * bd)
    }

    fn sub(self, b: Ratio) -> (r: Ratio) {
        if self.is_undefined() || b.is_undefined() {
            return Ratio { num: 0, den: 0 };
        }
        let (an, ad, bn, bd) = (self.num as i128, self.den as i128, b.num as i128, b.den as i128);
        proof {
            lemma_product_bounds(an as int, bd as int);
            lemma_product_bounds(bn as int, ad as int);
            lemma_product_bounds(ad as int, bd as int);
        }
        Ratio::reduce(an * bd - bn * ad, ad * bd)
    }

    fn mul(self, b: Ratio) -> (r: Ratio) {
        if self.is_undefined() || b.is_undefined() {
            return Ratio { num: 0, den: 0 };
        }
        let (an, ad, bn, bd) = (self.num as i128, self.den as i128, b.num as i128, b.den as i128);
        proof {
            lemma_product_bounds(an as int, bn as int);
            lemma_product_bounds(ad as int, bd as int);
        }
        Ratio::reduce(an * bn, ad * bd)
    }

    fn div(self, b: Ratio) -> (r: Ratio) {
        if self.is_undefined() || b.is_undefined() {
            return Ratio { num: 0, den: 0 };
        }
        let (an, ad, bn, bd) = (self.num as i128, self.den as i128, b.num as i128, b.den as i128);
        proof {
            lemma_product_bounds(an as int, bd as int);
            lemma_product_bounds(ad as int, bn as int);
        }
        Ratio::reduce(an * bd, ad * bn)
    }

    fn neg(self) -> (r: Ratio) {
        Ratio { num: 0, den: 1 }.sub(self)
    }

    fn abs(self) -> (r: Ratio) {
        if self.num < 0 {
            Ratio { num: 0, den: 1 }.sub(self)
        } else {
            self.add(Ratio { num: 0, den: 1 })
        }
    }

    fn sqrt(self) -> (r: Ratio) {
        if self.is_undefined() || self.num < 0 {
            return Ratio { num: 0, den: 0 };
        }
        let r = i64_floor_sqrt(self.num);
        let s = i64_floor_sqrt(self.den);
        proof {
            assert(is_floor_sqrt(self.num as int, r as int));
            assert(is_floor_sqrt(self.den as int, s as int));
            lemma_product_bounds(r as int, r as int);
            lemma_product_bounds(s as int, s as int);
        }
        if (r as i128) * (r as i128) == self.num as i128 && (s as i128) * (s as i128)
            == self.den as i128 {
            Ratio::reduce(r as i128, s as i128)
        } else {
            Ratio { num: 0, den: 0 }
        }
    }

    fn powi(self, e: i32) -> (r: Ratio) {
        let mut r = Ratio { num: 1, den: 1 };
        let mut i: i32 = 0;
        while i < e
            invariant
                0 <= i <= e,
                r == ratio_pow(self, i as nat),
            decreases e - i,
        {
            r = r.mul(self);
            i = i + 1;
        }
        r
    }

    fn is_equal(self, b: Ratio) -> (r: bool) {
        self == b
    }

    fn less_than(self, b: Ratio) -> (r: bool) {
        if self.is_undefined() || b.is_undefined() {
            return false;
        }
        let (an, ad, bn, bd) = (self.num as i128, self.den as i128, b.num as i128, b.den as i128);
        proof {
            lemma_product_bounds(an as int, bd as int);
            lemma_product_bounds(bn as int, ad as int);
        }
        an * bd < bn * ad
    }
}

/// A product of two values within the symmetric range of `i64` stays well within `i128`.
proof fn lemma_product_bounds(x: int, y: int)
    requires
        -0x7fff_ffff_ffff_ffff <= x <= 0x7fff_ffff_ffff_ffff,
        -0x7fff_ffff_ffff_ffff <= y <= 0x7fff_ffff_ffff_ffff,
    ensures
        -0x3fff_ffff_ffff_ffff_0000_0000_0000_0001 <= x * y <= 0x3fff_ffff_ffff_ffff_0000_0000_0000_0001,
{
    assert(-0x7fff_ffff_ffff_ffff * 0x7fff_ffff_ffff_ffff <= x * y <= 0x7fff_ffff_ffff_ffff
        * 0x7fff_ffff_ffff_ffff) by (nonlinear_arith)
        requires
            -0x7fff_ffff_ffff_ffff <= x <= 0x7fff_ffff_ffff_ffff,
            -0x7fff_ffff_ffff_ffff <= y <= 0x7fff_ffff_ffff_ffff,
    ;
}

} // verus!
