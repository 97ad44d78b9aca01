//! Signed fixed-point numbers with 32 fractional bits and saturating arithmetic.

use vstd::prelude::*;

verus! {

/// The raw value that stands for one.
pub const ONE_RAW: i64 = 4294967296;

/// The largest raw value.
pub const MAX_RAW: i64 = 9223372036854775807;

/// The smallest raw value.
pub const MIN_RAW: i64 = -9223372036854775808;

/// Brings an unbounded raw value into the range of the type.
pub open spec fn sat(x: int) -> int {
    if x > MAX_RAW {
        MAX_RAW as int
    } else if x < MIN_RAW {
        MIN_RAW as int
    } else {
        x
    }
}

/// Whether `r` is the largest integer with `r * r <= n`.
pub open spec fn is_isqrt(n: int, r: int) -> bool {
    0 <= r && r * r <= n < (r + 1) * (r + 1)
}

/// The integer square root: the largest `r` with `r * r <= n`.
pub open spec fn isqrt(n: int) -> int {
    choose|r: int| is_isqrt(n, r)
}

/// A real number `raw / 2^32`.
#[derive(Clone, Copy, Debug, PartialEq, Eq, Structural)]
pub struct Scalar {
    pub raw: i64,
}

impl View for Scalar {
    type V = int;

    open spec fn view(&self) -> int {
        self.raw as int
    }
}

/// Saturates a wide value into 64 bits.
fn narrow(x: i128) -> (r: i64)
    ensures
        r as int == sat(x as int),
{
    if x > 9223372036854775807i128 {
        9223372036854775807i64
    } else if x < -9223372036854775808i128 {
        -9223372036854775808i64
    } else {
        x as i64
    }
}

/// The quotient of `p` by a positive `d`, rounded down.
fn floor_div(p: i128, d: i128) -> (q: i128)
    requires
        d > 0,
        -0x4000_0000_0000_0000_0000_0000_0000_0000 <= p <= 0x4000_0000_0000_0000_0000_0000_0000_0000,
    ensures
        q as int == (p as int) / (d as int),
{
    if p >= 0i128 {
        p / d
    } else {
        let n: i128 = -p;
        let q: i128 = n / d;
        let r: i128 = n % d;
        proof {
            vstd::arithmetic::div_mod::lemma_fundamental_div_mod(n as int, d as int);
            vstd::arithmetic::div_mod::lemma_div_pos_is_pos(n as int, d as int);
            vstd::arithmetic::div_mod::lemma_div_nonincreasing(n as int, d as int);
            if r == 0 {
                assert(p as int == (-(q as int)) * (d as int) + 0) by (nonlinear_arith)
                    requires
                        n as int == (d as int) * (q as int),
                        p as int == -(n as int),
                ;
                vstd::arithmetic::div_mod::lemma_fundamental_div_mod_converse(
                    p as int,
                    d as int,
                    -(q as int),
                    0,
                );
            } else {
                assert(p as int == (-(q as int) - 1) * (d as int) + ((d as int) - (r as int)))
                    by (nonlinear_arith)
                    requires
                        n as int == (d as int) * (q as int) + (r as int),
                        p as int == -(n as int),
                ;
                vstd::arithmetic::div_mod::lemma_fundamental_div_mod_converse(
                    p as int,
                    d as int,
                    -(q as int) - 1,
                    (d as int) - (r as int),
                );
            }
        }
        if r == 0i128 {
            -q
        } else {
            -q - 1i128
        }
    }
}

/// The product of two 64-bit values stays far inside 128 bits.
proof fn lemma_product_bound(a: int, b: int)
    requires
        MIN_RAW <= a <= MAX_RAW,
        MIN_RAW <= b <= MAX_RAW,
    ensures
        -0x4000_0000_0000_0000_0000_0000_0000_0000 <= a * b
            <= 0x4000_0000_0000_0000_0000_0000_0000_0000,
{
    assert(-0x4000_0000_0000_0000_0000_0000_0000_0000 <= a * b
        <= 0x4000_0000_0000_0000_0000_0000_0000_0000) by (nonlinear_arith)
        requires
            -0x8000_0000_0000_0000 <= a <= 0x8000_0000_0000_0000,
            -0x8000_0000_0000_0000 <= b <= 0x8000_0000_0000_0000,
    ;
}

/// Only one integer can be the integer square root of `n`.
pub proof fn lemma_isqrt_unique(n: int, r: int)
    requires
        is_isqrt(n, r),
    ensures
        isqrt(n) == r,
{
    let c = isqrt(n);
    assert(is_isqrt(n, c));
    if c < r {
        assert((c + 1) * (c + 1) <= r * r) by (nonlinear_arith)
            requires
                0 <= c,
                c + 1 <= r,
        ;
    } else if c > r {
        assert((r + 1) * (r + 1) <= c * c) by (nonlinear_arith)
            requires
                0 <= r,
                r + 1 <= c,
        ;
    }
}

/// Every natural number has an integer square root.
pub proof fn lemma_isqrt_exists(n: int)
    requires
        n >= 0,
    ensures
        is_isqrt(n, isqrt(n)),
    decreases n,
{
    if n == 0 {
        assert(is_isqrt(0, 0));
    } else {
        lemma_isqrt_exists(n - 1);
        let r = isqrt(n - 1);
        if n < (r + 1) * (r + 1) {
            assert(is_isqrt(n, r));
        } else {
            assert((r + 2) * (r + 2) > (r + 1) * (r + 1)) by (nonlinear_arith)
                requires
                    r >= 0,
            ;
            assert(is_isqrt(n, r + 1));
        }
    }
}

/// The integer square root of a value below `2^96`.
fn isqrt_exec(n: u128) -> (r: u128)
    requires
        n < 0x1_0000_0000_0000_0000_0000_0000,
    ensures
        r as int == isqrt(n as int),
        is_isqrt(n as int, r as int),
        r < 0x1_0000_0000_0000,
{
    let mut lo: u128 = 0;
    let mut hi: u128 = 0x1_0000_0000_0000;
    while hi - lo > 1
        invariant
            lo < hi <= 0x1_0000_0000_0000,
            lo * lo <= n < hi * hi,
        decreases hi - lo,
    {
        let mid: u128 = lo + (hi - lo) / 2;
        assert(mid * mid < 0x1_0000_0000_0000 * 0x1_0000_0000_0000) by (nonlinear_arith)
            requires
                mid < 0x1_0000_0000_0000,
        ;
        if mid * mid <= n {
            lo = mid;
        } else {
            hi = mid;
        }
    }
    proof {
        assert(hi == lo + 1);
        lemma_isqrt_unique(n as int, lo as int);
    }
    lo
}

/// The nested product `1 - x2/(k(k+1)) * (1 - x2/((k+2)(k+3)) * (...))`, whose
/// last factor divides by `last * (last + 1)`: the shape of the power series of
/// the sine and the cosine, with `x2` the square of the angle.
pub open spec fn alternating(x2: Scalar, k: int, last: int) -> Scalar
    decreases last - k + 2,
{
    if k > last {
        Scalar { raw: ONE_RAW }
    } else {
        Scalar::int_spec(1).sub_spec(
            x2.div_spec(Scalar::int_spec(k * (k + 1))).mul_spec(alternating(x2, k + 2, last)),
        )
    }
}

/// Evaluates the nested product from the inside out.
fn alternating_exec(x2: Scalar, first: i32, last: i32) -> (r: Scalar)
    requires
        1 <= first <= last <= 100,
        (last - first) % 2 == 0,
    ensures
        r == alternating(x2, first as int, last as int),
{
    let mut acc = Scalar::one();
    let mut k: i32 = last;
    while k >= first
        invariant
            first - 2 <= k <= last,
            1 <= first <= last <= 100,
            (k - first) % 2 == 0,
            acc == alternating(x2, k + 2, last as int),
        decreases k - first + 2,
    {
        assert(1 <= k * (k + 1) <= 10100) by (nonlinear_arith)
            requires
                1 <= k <= 100,
        ;
        let divisor = Scalar::from_int(k * (k + 1));
        acc = Scalar::from_int(1).sub(x2.div(divisor).mul(acc));
        k = k - 2;
    }
    acc
}

/// Whether `x` is the raw value of some number, so that no rounding to the
/// range's ends takes place.
pub open spec fn fits(x: int) -> bool {
    MIN_RAW <= x <= MAX_RAW
}

/// A square root is never negative.
pub proof fn lemma_sqrt_nonnegative(a: Scalar)
    requires
        a@ >= 0,
    ensures
        a.sqrt_spec()@ >= 0,
{
    assert(a@ * ONE_RAW >= 0) by (nonlinear_arith)
        requires
            a@ >= 0,
    ;
    lemma_isqrt_exists(a@ * ONE_RAW);
}

/// The integer square root does not decrease when its argument grows.
pub proof fn lemma_isqrt_monotone(m: int, n: int)
    requires
        0 <= m <= n,
    ensures
        isqrt(m) <= isqrt(n),
{
    lemma_isqrt_exists(m);
    lemma_isqrt_exists(n);
    let a = isqrt(m);
    let b = isqrt(n);
    if a > b {
        assert((b + 1) * (b + 1) <= a * a) by (nonlinear_arith)
            requires
                0 <= b,
                b + 1 <= a,
        ;
    }
}

/// The square root of a square is not above the number that was squared.
pub proof fn lemma_sqrt_of_square(h: Scalar)
    requires
        h@ >= 0,
    ensures
        0 <= h.mul_spec(h).sqrt_spec()@ <= h@,
{
    let square = h.mul_spec(h);
    let q = (h@ * h@) / (ONE_RAW as int);
    assert(h@ * h@ >= 0) by (nonlinear_arith);
    vstd::arithmetic::div_mod::lemma_fundamental_div_mod(h@ * h@, ONE_RAW as int);
    assert(0 <= q && q * ONE_RAW <= h@ * h@) by (nonlinear_arith)
        requires
            h@ * h@ == ONE_RAW * q + (h@ * h@) % (ONE_RAW as int),
            0 <= (h@ * h@) % (ONE_RAW as int),
            h@ * h@ >= 0,
    ;
    assert(0 <= square@ <= q);
    assert(0 <= square@ * ONE_RAW <= h@ * h@) by (nonlinear_arith)
        requires
            0 <= square@ <= q,
            q * ONE_RAW <= h@ * h@,
    ;
    lemma_isqrt_monotone(square@ * ONE_RAW, h@ * h@);
    assert(is_isqrt(h@ * h@, h@)) by (nonlinear_arith)
        requires
            h@ >= 0,
    ;
    lemma_isqrt_unique(h@ * h@, h@);
    lemma_isqrt_exists(square@ * ONE_RAW);
}

/// Multiplying by one changes nothing.
pub proof fn lemma_mul_one(x: Scalar)
    ensures
        x.mul_spec(Scalar { raw: ONE_RAW }) == x,
        (Scalar { raw: ONE_RAW }).mul_spec(x) == x,
{
    vstd::arithmetic::div_mod::lemma_div_multiples_vanish(x@, ONE_RAW as int);
    assert(x@ * ONE_RAW == ONE_RAW * x@) by (nonlinear_arith);
}

/// A number that is not negative does not grow when it is multiplied by a
/// number between zero and one.
pub proof fn lemma_mul_fraction(a: Scalar, c: Scalar)
    requires
        0 <= a@ <= ONE_RAW,
        c@ >= 0,
    ensures
        0 <= a.mul_spec(c)@ <= c@,
{
    assert(0 <= a@ * c@ <= ONE_RAW * c@) by (nonlinear_arith)
        requires
            0 <= a@ <= ONE_RAW,
            c@ >= 0,
    ;
    vstd::arithmetic::div_mod::lemma_div_is_ordered(a@ * c@, ONE_RAW * c@, ONE_RAW as int);
    vstd::arithmetic::div_mod::lemma_div_is_ordered(0, a@ * c@, ONE_RAW as int);
    vstd::arithmetic::div_mod::lemma_div_multiples_vanish(c@, ONE_RAW as int);
}

/// The square root of a number that is not above one is not above one.
pub proof fn lemma_sqrt_at_most_one(x: Scalar)
    requires
        0 <= x@ <= ONE_RAW,
    ensures
        0 <= x.sqrt_spec()@ <= ONE_RAW,
{
    assert(0 <= x@ * ONE_RAW <= ONE_RAW * ONE_RAW) by (nonlinear_arith)
        requires
            0 <= x@ <= ONE_RAW,
    ;
    lemma_isqrt_monotone(x@ * ONE_RAW, ONE_RAW * ONE_RAW);
    assert(is_isqrt(ONE_RAW * ONE_RAW, ONE_RAW as int));
    lemma_isqrt_unique(ONE_RAW * ONE_RAW, ONE_RAW as int);
    lemma_isqrt_exists(x@ * ONE_RAW);
}

/// Division by a positive number keeps the order.
pub proof fn lemma_div_monotone(x: Scalar, y: Scalar, a: Scalar)
    requires
        x@ <= y@,
        a@ > 0,
    ensures
        x.div_spec(a)@ <= y.div_spec(a)@,
{
    assert(x@ * ONE_RAW <= y@ * ONE_RAW) by (nonlinear_arith)
        requires
            x@ <= y@,
    ;
    vstd::arithmetic::div_mod::lemma_div_is_ordered(x@ * ONE_RAW, y@ * ONE_RAW, a@);
}

/// A number that is not positive, divided by a positive one, is not positive.
pub proof fn lemma_div_nonpositive(x: Scalar, a: Scalar)
    requires
        x@ <= 0,
        a@ > 0,
    ensures
        x.div_spec(a)@ <= 0,
{
    lemma_div_monotone(x, Scalar { raw: 0 }, a);
    assert(0int * ONE_RAW == 0);
    vstd::arithmetic::div_mod::lemma_div_basics(a@);
}

impl Scalar {
    /// The number whose raw value is `x` brought into range.
    pub open spec fn of(x: int) -> Scalar {
        Scalar { raw: sat(x) as i64 }
    }

    pub open spec fn add_spec(self, rhs: Scalar) -> Scalar {
        Scalar::of(self@ + rhs@)
    }

    pub open spec fn sub_spec(self, rhs: Scalar) -> Scalar {
        Scalar::of(self@ - rhs@)
    }

    pub open spec fn neg_spec(self) -> Scalar {
        Scalar::of(-self@)
    }

    /// The product, rounded down to a multiple of `2^-32`.
    pub open spec fn mul_spec(self, rhs: Scalar) -> Scalar {
        Scalar::of((self@ * rhs@) / (ONE_RAW as int))
    }

    /// The quotient, rounded down to a multiple of `2^-32`.
    pub open spec fn div_spec(self, rhs: Scalar) -> Scalar {
        if rhs@ > 0 {
            Scalar::of((self@ * ONE_RAW) / rhs@)
        } else {
            Scalar::of((-(self@ * ONE_RAW)) / (-rhs@))
        }
    }

    /// The square root, rounded down to a multiple of `2^-32`.
    pub open spec fn sqrt_spec(self) -> Scalar {
        Scalar::of(isqrt(self@ * ONE_RAW))
    }

    pub open spec fn abs_spec(self) -> Scalar {
        if self@ < 0 {
            self.neg_spec()
        } else {
            self
        }
    }

    pub open spec fn min_spec(self, rhs: Scalar) -> Scalar {
        if self@ <= rhs@ {
            self
        } else {
            rhs
        }
    }

    /// The whole number `n`.
    pub open spec fn int_spec(n: int) -> Scalar {
        Scalar::of(n * ONE_RAW)
    }

    /// The fraction `num / den`, rounded down.
    pub open spec fn ratio_spec(num: int, den: int) -> Scalar {
        Scalar::int_spec(num).div_spec(Scalar::int_spec(den))
    }

    /// The sine by its power series up to the fifteenth power of the angle,
    /// which is in radians.
    pub open spec fn sin_spec(self) -> Scalar {
        self.mul_spec(alternating(self.mul_spec(self), 2, 14))
    }

    /// The cosine by its power series up to the fourteenth power of the
    /// angle, which is in radians.
    pub open spec fn cos_spec(self) -> Scalar {
        alternating(self.mul_spec(self), 1, 13)
    }

    /// The tangent as the quotient of the two series, and the largest number
    /// where the cosine's series gives zero.
    pub open spec fn tan_spec(self) -> Scalar {
        if self.cos_spec()@ == 0 {
            Scalar { raw: MAX_RAW }
        } else {
            self.sin_spec().div_spec(self.cos_spec())
        }
    }

    /// The largest whole number that is not above the value.
    pub open spec fn floor_spec(self) -> int {
        self@ / (ONE_RAW as int)
    }

    pub fn from_raw(raw: i64) -> (r: Scalar)
        ensures
            r@ == raw,
    {
        Scalar { raw }
    }

    pub fn raw(self) -> (r: i64)
        ensures
            r == self@,
    {
        self.raw
    }

    pub fn zero() -> (r: Scalar)
        ensures
            r@ == 0,
    {
        Scalar { raw: 0 }
    }

    pub fn one() -> (r: Scalar)
        ensures
            r@ == ONE_RAW,
    {
        Scalar { raw: ONE_RAW }
    }

    /// The largest value, which stands for positive infinity.
    pub fn infinity() -> (r: Scalar)
        ensures
            r@ == MAX_RAW,
    {
        Scalar { raw: MAX_RAW }
    }

    /// The smallest value, which stands for negative infinity.
    pub fn neg_infinity() -> (r: Scalar)
        ensures
            r@ == MIN_RAW,
    {
        Scalar { raw: MIN_RAW }
    }

    pub fn from_int(n: i32) -> (r: Scalar)
        ensures
            r == Scalar::int_spec(n as int),
    {
        Scalar { raw: (n as i64) * 4294967296i64 }
    }

    pub fn from_ratio(num: i32, den: i32) -> (r: Scalar)
        requires
            den != 0,
        ensures
            r == Scalar::ratio_spec(num as int, den as int),
    {
        Scalar::from_int(num).div(Scalar::from_int(den))
    }

    pub fn add(self, rhs: Scalar) -> (r: Scalar)
        ensures
            r == self.add_spec(rhs),
    {
        Scalar { raw: narrow(self.raw as i128 + rhs.raw as i128) }
    }

    pub fn sub(self, rhs: Scalar) -> (r: Scalar)
        ensures
            r == self.sub_spec(rhs),
    {
        Scalar { raw: narrow(self.raw as i128 - rhs.raw as i128) }
    }

    pub fn neg(self) -> (r: Scalar)
        ensures
            r == self.neg_spec(),
    {
        Scalar { raw: narrow(-(self.raw as i128)) }
    }

    pub fn mul(self, rhs: Scalar) -> (r: Scalar)
        ensures
            r == self.mul_spec(rhs),
    {
        proof {
            lemma_product_bound(self.raw as int, rhs.raw as int);
        }
        let p: i128 = (self.raw as i128) * (rhs.raw as i128);
        Scalar { raw: narrow(floor_div(p, 4294967296i128)) }
    }

    pub fn div(self, rhs: Scalar) -> (r: Scalar)
        requires
            rhs@ != 0,
        ensures
            r == self.div_spec(rhs),
    {
        let n: i128 = (self.raw as i128) * 4294967296i128;
        let d: i128 = rhs.raw as i128;
        if d > 0 {
            Scalar { raw: narrow(floor_div(n, d)) }
        } else {
            Scalar { raw: narrow(floor_div(-n, -d)) }
        }
    }

    pub fn sqrt(self) -> (r: Scalar)
        requires
            self@ >= 0,
        ensures
            r == self.sqrt_spec(),
            is_isqrt(self@ * ONE_RAW, r@),
    {
        let n: u128 = (self.raw as u128) * 4294967296u128;
        let root: u128 = isqrt_exec(n);
        Scalar { raw: root as i64 }
    }

    pub fn abs(self) -> (r: Scalar)
        ensures
            r == self.abs_spec(),
    {
        if self.raw < 0 {
            self.neg()
        } else {
            self
        }
    }

    pub fn min(self, rhs: Scalar) -> (r: Scalar)
        ensures
            r == self.min_spec(rhs),
    {
        if self.raw <= rhs.raw {
            self
        } else {
            rhs
        }
    }

    /// The tangent of an angle in radians. The series behind it are close to
    /// the true functions for angles between a quarter turn to either side.
    pub fn tan(self) -> (r: Scalar)
        ensures
            r == self.tan_spec(),
    {
        let x2 = self.mul(self);
        let sine = self.mul(alternating_exec(x2, 2, 14));
        let cosine = alternating_exec(x2, 1, 13);
        if cosine.raw == 0 {
            Scalar::infinity()
        } else {
            sine.div(cosine)
        }
    }

    pub fn floor(self) -> (r: i64)
        ensures
            r == self.floor_spec(),
    {
        floor_div(self.raw as i128, 4294967296i128) as i64
    }
}

} // verus!
