//! How far rounding can bend a ray that passes clear glass.

use crate::hittable::HitRecord;
use crate::material::cos_theta_spec;
use crate::material::lemma_clear_glass;
use crate::material::refract_depth_spec;
use crate::material::refract_perp_spec;
use crate::material::refract_spec;
use crate::material::Dielectric;
use crate::ray::Ray;
use crate::scalar::is_isqrt;
use crate::scalar::isqrt;
use crate::scalar::lemma_isqrt_monotone;
use crate::scalar::lemma_isqrt_unique;
use crate::scalar::lemma_isqrt_exists;
use crate::scalar::lemma_mul_one;
use crate::scalar::Scalar;
use crate::scalar::ONE_RAW;
use crate::vec3::Vec3;
use vstd::prelude::*;

verus! {

/// The product of two raw values as a raw value, rounded down.
pub open spec fn fl(a: int, b: int) -> int {
    (a * b) / (ONE_RAW as int)
}

/// A rounded product is the exact one less a remainder below one unit.
pub proof fn lemma_fl(a: int, b: int)
    ensures
        0 <= a * b - ONE_RAW * fl(a, b) < ONE_RAW,
{
    vstd::arithmetic::div_mod::lemma_fundamental_div_mod(a * b, ONE_RAW as int);
}

/// A bound on a product from bounds on its factors.
pub proof fn lemma_product_within(a: int, b: int, m: int, n: int)
    requires
        -m <= a <= m,
        -n <= b <= n,
    ensures
        -(m * n) <= a * b <= m * n,
{
    assert(-(m * n) <= a * b <= m * n) by (nonlinear_arith)
        requires
            -m <= a <= m,
            -n <= b <= n,
    ;
}

/// A number whose rounded square is at most two is below two in magnitude.
pub proof fn lemma_component_small(v: int)
    requires
        fl(v, v) <= 2 * ONE_RAW,
    ensures
        -2 * ONE_RAW < v < 2 * ONE_RAW,
{
    lemma_fl(v, v);
    assert(v * v < 0x2_0000_0001_0000_0000);
    if v >= 0x2_0000_0000 {
        assert(v * v >= 0x4_0000_0000_0000_0000) by (nonlinear_arith)
            requires
                v >= 0x2_0000_0000,
        ;
    }
    if v <= -0x2_0000_0000 {
        assert(v * v >= 0x4_0000_0000_0000_0000) by (nonlinear_arith)
            requires
                v <= -0x2_0000_0000,
        ;
    }
}

/// Twice the product of two numbers is at most the sum of their squares.
pub proof fn lemma_mean(a: int, b: int)
    ensures
        2 * (a * b) <= a * a + b * b,
{
    assert(2 * (a * b) <= a * a + b * b) by (nonlinear_arith);
}

/// Where `k` is the integer square root of `x` and `x` differs from the
/// square of `c` by at most the square of `slack`, `k` differs from `c` by at
/// most `slack`.
pub proof fn lemma_root_close(x: int, k: int, c: int, slack: int)
    requires
        0 <= k,
        k * k <= x < (k + 1) * (k + 1),
        0 <= c,
        0 <= slack,
        c * c - slack * slack <= x <= c * c + slack * slack,
    ensures
        c - slack <= k <= c + slack,
{
    if k > c + slack {
        assert(k * k > c * c + slack * slack) by (nonlinear_arith)
            requires
                k >= c + slack + 1,
                0 <= c,
                0 <= slack,
        ;
    }
    if k < c - slack {
        assert((k + 1) * (k + 1) <= c * c - slack * slack) by (nonlinear_arith)
            requires
                0 <= k + 1 <= c - slack,
                0 <= slack,
        ;
    }
}

/// The square of `s * u + q`.
proof fn lemma_binomial(s: int, u: int, q: int, p: int)
    requires
        s * p == s * u + q,
    ensures
        s * s * (p * p) == s * s * (u * u) + 2 * (s * (u * q)) + q * q,
{
    let x = s * u;
    let y = s * p;
    assert(y * y == x * x + 2 * (x * q) + q * q) by (nonlinear_arith)
        requires
            y == x + q,
    ;
    assert(y * y == s * s * (p * p)) by (nonlinear_arith)
        requires
            y == s * p,
    ;
    assert(x * x == s * s * (u * u)) by (nonlinear_arith)
        requires
            x == s * u,
    ;
    assert(x * q == s * (u * q)) by (nonlinear_arith)
        requires
            x == s * u,
    ;
}

/// The square of `n * c - mu` and its product with `u`.
proof fn lemma_rounded_term(u: int, n: int, c: int, mu: int, q: int)
    requires
        q == n * c - mu,
    ensures
        u * q == c * (u * n) - u * mu,
        q * q == (c * c) * (n * n) - 2 * (c * (n * mu)) + mu * mu,
{
    let w = n * c;
    assert(u * q == u * w - u * mu) by (nonlinear_arith)
        requires
            q == w - mu,
    ;
    assert(u * w == c * (u * n)) by (nonlinear_arith)
        requires
            w == n * c,
    ;
    assert(q * q == w * w - 2 * (w * mu) + mu * mu) by (nonlinear_arith)
        requires
            q == w - mu,
    ;
    assert(w * w == (c * c) * (n * n)) by (nonlinear_arith)
        requires
            w == n * c,
    ;
    assert(w * mu == c * (n * mu)) by (nonlinear_arith)
        requires
            w == n * c,
    ;
}

/// The square of one coordinate of the refracted direction's part along the
/// surface, `p = u + m` with `s * m = n * c - mu`, multiplied out.
pub proof fn lemma_component_square(s: int, u: int, n: int, c: int, m: int, mu: int, p: int)
    requires
        s * m == n * c - mu,
        p == u + m,
    ensures
        s * s * (p * p) == s * s * (u * u) + 2 * (s * (c * (u * n))) + (c * c) * (n * n) - 2 * (s
            * (u * mu)) - 2 * (c * (n * mu)) + mu * mu,
{
    let q = n * c - mu;
    assert(s * p == s * u + q) by (nonlinear_arith)
        requires
            p == u + m,
            s * m == q,
    ;
    lemma_binomial(s, u, q, p);
    lemma_rounded_term(u, n, c, mu, q);
    let a = u * q;
    let b = c * (u * n);
    let e = u * mu;
    assert(s * a == s * b - s * e) by (nonlinear_arith)
        requires
            a == b - e,
    ;
}

/// A common factor of three products.
proof fn lemma_distribute3(c: int, x1: int, x2: int, x3: int)
    ensures
        c * x1 + c * x2 + c * x3 == c * (x1 + x2 + x3),
{
    assert(c * x1 + c * x2 + c * x3 == c * (x1 + x2 + x3)) by (nonlinear_arith);
}

/// A factor times a rounded value and its remainder.
proof fn lemma_split(c: int, s: int, d: int, g: int)
    ensures
        c * (s * d + g) == s * (c * d) + c * g,
{
    assert(c * (s * d + g) == s * (c * d) + c * g) by (nonlinear_arith);
}

/// Signs in products.
proof fn lemma_signs(u: int, n: int)
    ensures
        (-u) * n == -(u * n),
        (-u) * (-u) == u * u,
        u * u >= 0,
        n * (-u) == -(n * u),
{
    assert((-u) * n == -(u * n)) by (nonlinear_arith);
    assert((-u) * (-u) == u * u) by (nonlinear_arith);
    assert(u * u >= 0) by (nonlinear_arith);
    assert(n * (-u) == -(n * u)) by (nonlinear_arith);
}

/// The cosine that `refract` computes from the raw coordinates of the unit
/// direction and the normal: their rounded dot product, reversed and capped
/// at one.
pub open spec fn cosine_of(u1: int, u2: int, u3: int, n1: int, n2: int, n3: int) -> int {
    let d = fl(-u1, n1) + fl(-u2, n2) + fl(-u3, n3);
    if d <= ONE_RAW {
        d
    } else {
        ONE_RAW as int
    }
}

/// The rounded squared length of the raw vector `(v1, v2, v3)`.
pub open spec fn norm_of(v1: int, v2: int, v3: int) -> int {
    fl(v1, v1) + fl(v2, v2) + fl(v3, v3)
}

/// For two vectors `u` and `n` whose rounded squared lengths differ from one
/// by at most `t` units, with `n` pointing against `u`: one less the rounded
/// squared length of `u + n * cos` differs from the square of the cosine by
/// at most `4 t + 40` units.
pub proof fn lemma_energy(u1: int, u2: int, u3: int, n1: int, n2: int, n3: int, t: int)
    requires
        0 <= t <= ONE_RAW,
        ONE_RAW - t <= norm_of(u1, u2, u3) <= ONE_RAW + t,
        ONE_RAW - t <= norm_of(n1, n2, n3) <= ONE_RAW + t,
        fl(-u1, n1) + fl(-u2, n2) + fl(-u3, n3) >= 0,
    ensures
        ({
            let c = cosine_of(u1, u2, u3, n1, n2, n3);
            let x = ONE_RAW * (ONE_RAW - norm_of(
                u1 + fl(n1, c),
                u2 + fl(n2, c),
                u3 + fl(n3, c),
            ));
            &&& 0 <= c <= ONE_RAW
            &&& c * c - ONE_RAW * (4 * t + 40) <= x <= c * c + ONE_RAW * (4 * t + 40)
            &&& -2 * ONE_RAW < u1 < 2 * ONE_RAW
            &&& -2 * ONE_RAW < u2 < 2 * ONE_RAW
            &&& -2 * ONE_RAW < u3 < 2 * ONE_RAW
            &&& -2 * ONE_RAW < n1 < 2 * ONE_RAW
            &&& -2 * ONE_RAW < n2 < 2 * ONE_RAW
            &&& -2 * ONE_RAW < n3 < 2 * ONE_RAW
        }),
{
    let s = 0x1_0000_0000int;
    let s2 = 0x1_0000_0000_0000_0000int;
    let s3 = 0x1_0000_0000_0000_0000_0000_0000int;
    let d = fl(-u1, n1) + fl(-u2, n2) + fl(-u3, n3);
    let c = cosine_of(u1, u2, u3, n1, n2, n3);
    let (m1, m2, m3) = (fl(n1, c), fl(n2, c), fl(n3, c));
    let (p1, p2, p3) = (u1 + m1, u2 + m2, u3 + m3);
    let a = norm_of(u1, u2, u3);
    let b = norm_of(n1, n2, n3);
    let big = norm_of(p1, p2, p3);
    // the exact products and the remainders of their rounding
    lemma_fl(u1, u1);
    lemma_fl(u2, u2);
    lemma_fl(u3, u3);
    lemma_fl(n1, n1);
    lemma_fl(n2, n2);
    lemma_fl(n3, n3);
    lemma_fl(-u1, n1);
    lemma_fl(-u2, n2);
    lemma_fl(-u3, n3);
    lemma_fl(n1, c);
    lemma_fl(n2, c);
    lemma_fl(n3, c);
    lemma_fl(p1, p1);
    lemma_fl(p2, p2);
    lemma_fl(p3, p3);
    lemma_signs(u1, n1);
    lemma_signs(u2, n2);
    lemma_signs(u3, n3);
    lemma_signs(n1, n1);
    lemma_signs(n2, n2);
    lemma_signs(n3, n3);
    lemma_component_small(u1);
    lemma_component_small(u2);
    lemma_component_small(u3);
    lemma_component_small(n1);
    lemma_component_small(n2);
    lemma_component_small(n3);
    // the dot product is at most the mean of the squared lengths
    lemma_mean(-u1, n1);
    lemma_mean(-u2, n2);
    lemma_mean(-u3, n3);
    let uu = u1 * u1 + u2 * u2 + u3 * u3;
    let nn = n1 * n1 + n2 * n2 + n3 * n3;
    let un = u1 * n1 + u2 * n2 + u3 * n3;
    let alpha = uu - s * a;
    let beta = nn - s * b;
    let gamma = -un - s * d;
    assert(0 <= alpha < 3 * s);
    assert(0 <= beta < 3 * s);
    assert(0 <= gamma < 3 * s);
    assert(d <= s + t + 2);
    assert(0 <= c <= s);
    assert(0 <= d - c <= t + 2);
    // the squares of the three coordinates, multiplied out
    let mu1 = n1 * c - s * m1;
    let mu2 = n2 * c - s * m2;
    let mu3 = n3 * c - s * m3;
    lemma_component_square(s, u1, n1, c, m1, mu1, p1);
    lemma_component_square(s, u2, n2, c, m2, mu2, p2);
    lemma_component_square(s, u3, n3, c, m3, mu3, p3);
    let pp = p1 * p1 + p2 * p2 + p3 * p3;
    let pi = pp - s * big;
    assert(0 <= pi < 3 * s);
    let cc = c * c;
    lemma_distribute3(c, u1 * n1, u2 * n2, u3 * n3);
    lemma_distribute3(cc, n1 * n1, n2 * n2, n3 * n3);
    lemma_split(c, s, d, gamma);
    lemma_split(cc, s, b, beta);
    let cd = c * d;
    let cg = c * gamma;
    let ccb = cc * b;
    let ccbeta = cc * beta;
    assert(c * un == -(c * (s * d + gamma))) by (nonlinear_arith)
        requires
            un == -(s * d + gamma),
    ;
    assert(c * un == -(s * cd + cg));
    assert(cc * nn == s * ccb + ccbeta);
    let umu = u1 * mu1 + u2 * mu2 + u3 * mu3;
    let cnmu = c * (n1 * mu1) + c * (n2 * mu2) + c * (n3 * mu3);
    let mumu = mu1 * mu1 + mu2 * mu2 + mu3 * mu3;
    assert(s * s * (p1 * p1) + s * s * (p2 * p2) + s * s * (p3 * p3) == s2 * pp);
    assert(s * s * (u1 * u1) + s * s * (u2 * u2) + s * s * (u3 * u3) == s2 * uu);
    assert(s2 * pp == s2 * uu + 2 * (s * (c * un)) + cc * nn - 2 * (s * umu) - 2 * cnmu + mumu);
    // bounds on the products
    lemma_product_within(c, d - c, s, t + 2);
    assert(c * (d - c) == cd - cc) by (nonlinear_arith)
        requires
            cd == c * d,
            cc == c * c,
    ;
    assert(0 <= cd - cc) by (nonlinear_arith)
        requires
            cd - cc == c * (d - c),
            0 <= c,
            0 <= d - c,
    ;
    lemma_product_within(c, c, s, s);
    lemma_signs(c, c);
    assert(0 <= cc <= s2);
    lemma_product_within(cc, s - b, s2, t);
    assert(cc * (s - b) == s * cc - ccb) by (nonlinear_arith)
        requires
            ccb == cc * b,
    ;
    lemma_product_within(cc, beta, s2, 3 * s);
    assert(0 <= ccbeta) by (nonlinear_arith)
        requires
            ccbeta == cc * beta,
            0 <= cc,
            0 <= beta,
    ;
    lemma_product_within(c, gamma, s, 3 * s);
    assert(0 <= cg) by (nonlinear_arith)
        requires
            cg == c * gamma,
            0 <= c,
            0 <= gamma,
    ;
    lemma_product_within(u1, mu1, 2 * s, s);
    lemma_product_within(u2, mu2, 2 * s, s);
    lemma_product_within(u3, mu3, 2 * s, s);
    lemma_product_within(n1, mu1, 2 * s, s);
    lemma_product_within(n2, mu2, 2 * s, s);
    lemma_product_within(n3, mu3, 2 * s, s);
    lemma_product_within(c, n1 * mu1, s, 2 * s2);
    lemma_product_within(c, n2 * mu2, s, 2 * s2);
    lemma_product_within(c, n3 * mu3, s, 2 * s2);
    lemma_product_within(mu1, mu1, s, s);
    lemma_product_within(mu2, mu2, s, s);
    lemma_product_within(mu3, mu3, s, s);
    lemma_signs(mu1, mu1);
    lemma_signs(mu2, mu2);
    lemma_signs(mu3, mu3);
    let x = s * (s - big);
    assert(x == s2 - pp + pi);
    let lhs = s2 * pp;
    assert(lhs == s2 * uu + 2 * (s * (c * un)) + cc * nn - 2 * (s
        * umu) - 2 * cnmu + mumu);
    assert(s2 * uu == s3 * a + s2 * alpha);
    assert(2 * (s * (c * un)) == -2 * (s2 * cd) - 2 * (s * cg));
    assert(s2 * x == s2 * s2 - lhs + s2 * pi);
    assert(s2 * (x - cc) == s3 * (s - a) - s2 * alpha + 2 * (s2 * (cd - cc))
        + s * (s * cc - ccb) - ccbeta + 2 * (s * cg)
        + 2 * (s * umu) + 2 * cnmu - mumu + s2 * pi);
}

/// The product of two numbers below `2^8` in magnitude is not rounded to an
/// end of the range.
pub proof fn lemma_mul_exact(a: Scalar, b: Scalar)
    requires
        -0x100_0000_0000 <= a@ <= 0x100_0000_0000,
        -0x100_0000_0000 <= b@ <= 0x100_0000_0000,
    ensures
        a.mul_spec(b)@ == fl(a@, b@),
        -0x1_0000_0000_0000 <= fl(a@, b@) <= 0x1_0000_0000_0000,
{
    lemma_product_within(a@, b@, 0x100_0000_0000, 0x100_0000_0000);
    lemma_fl(a@, b@);
}

/// The dot product of two vectors with coordinates below `2^8` in magnitude
/// is the sum of the three rounded products.
pub proof fn lemma_dot_exact(a: Vec3, b: Vec3)
    requires
        -0x100_0000_0000 <= a.x@ <= 0x100_0000_0000,
        -0x100_0000_0000 <= a.y@ <= 0x100_0000_0000,
        -0x100_0000_0000 <= a.z@ <= 0x100_0000_0000,
        -0x100_0000_0000 <= b.x@ <= 0x100_0000_0000,
        -0x100_0000_0000 <= b.y@ <= 0x100_0000_0000,
        -0x100_0000_0000 <= b.z@ <= 0x100_0000_0000,
    ensures
        a.dot_spec(b)@ == fl(a.x@, b.x@) + fl(a.y@, b.y@) + fl(a.z@, b.z@),
{
    lemma_mul_exact(a.x, b.x);
    lemma_mul_exact(a.y, b.y);
    lemma_mul_exact(a.z, b.z);
}

/// Whether the rounded squared length of `v` differs from one by at most
/// `tolerance` units of `2^-32`.
pub open spec fn nearly_unit(v: Vec3, tolerance: int) -> bool {
    ONE_RAW - tolerance <= v.dot_square_spec()@ <= ONE_RAW + tolerance
}

/// The coordinates of a vector that is nearly of length one are below two in
/// magnitude, and its squared length is the sum of the rounded squares.
pub proof fn lemma_nearly_unit(v: Vec3, tolerance: int)
    requires
        0 <= tolerance <= ONE_RAW,
        nearly_unit(v, tolerance),
    ensures
        v.dot_square_spec()@ == norm_of(v.x@, v.y@, v.z@),
        -2 * ONE_RAW < v.x@ < 2 * ONE_RAW,
        -2 * ONE_RAW < v.y@ < 2 * ONE_RAW,
        -2 * ONE_RAW < v.z@ < 2 * ONE_RAW,
{
    lemma_signs(v.x@, v.x@);
    lemma_signs(v.y@, v.y@);
    lemma_signs(v.z@, v.z@);
    lemma_fl(v.x@, v.x@);
    lemma_fl(v.y@, v.y@);
    lemma_fl(v.z@, v.z@);
    assert(fl(v.x@, v.x@) >= 0 && fl(v.y@, v.y@) >= 0 && fl(v.z@, v.z@) >= 0);
    lemma_component_small(v.x@);
    lemma_component_small(v.y@);
    lemma_component_small(v.z@);
}

/// What rounding adds to one coordinate: where the cosine `c` and the depth
/// `k` differ by at most `slack`, the two products `n * c` and `n * (-k)`
/// cancel up to `2 slack + 2` units.
pub proof fn lemma_cancel(n: int, c: int, k: int, slack: int)
    requires
        -2 * ONE_RAW < n < 2 * ONE_RAW,
        0 <= slack,
        c - slack <= k <= c + slack,
    ensures
        -(2 * slack + 2) <= fl(n, c) + fl(n, -k) <= 2 * slack + 2,
{
    lemma_fl(n, c);
    lemma_fl(n, -k);
    lemma_product_within(n, c - k, 2 * ONE_RAW, slack);
    assert(n * c + n * (-k) == n * (c - k)) by (nonlinear_arith);
    assert(2 * ONE_RAW * slack == 0x2_0000_0000 * slack);
}

/// The integer square root of a number below `2^70` is below `2^35`.
pub proof fn lemma_root_small(x: int, k: int)
    requires
        0 <= x < 0x40_0000_0000_0000_0000,
        0 <= k,
        k * k <= x,
    ensures
        k < 0x8_0000_0000,
{
    if k >= 0x8_0000_0000 {
        assert(k * k >= 0x40_0000_0000_0000_0000) by (nonlinear_arith)
            requires
                k >= 0x8_0000_0000,
        ;
    }
}

/// A ray that passes glass with the refractive index one is bent by rounding
/// only: for a direction `uv` and a normal `n` that are of length one up to
/// `tolerance` units of `2^-32` in their squared lengths, with the normal
/// pointing against the direction, every coordinate of the refracted
/// direction differs from that of `uv` by at most `2 slack + 2` units, where
/// `slack` is any number whose square is at least `4 tolerance + 40`.
pub proof fn lemma_clear_glass_straight(uv: Vec3, n: Vec3, tolerance: int, slack: int)
    requires
        0 <= tolerance <= ONE_RAW,
        nearly_unit(uv, tolerance),
        nearly_unit(n, tolerance),
        uv.neg_spec().dot_spec(n)@ >= 0,
        0 <= slack,
        slack * slack >= ONE_RAW * (4 * tolerance + 40),
    ensures
        ({
            let out = refract_spec(uv, n, Scalar { raw: ONE_RAW });
            &&& -(2 * slack + 2) <= out.x@ - uv.x@ <= 2 * slack + 2
            &&& -(2 * slack + 2) <= out.y@ - uv.y@ <= 2 * slack + 2
            &&& -(2 * slack + 2) <= out.z@ - uv.z@ <= 2 * slack + 2
        }),
{
    let one = Scalar { raw: ONE_RAW };
    lemma_nearly_unit(uv, tolerance);
    lemma_nearly_unit(n, tolerance);
    let (u1, u2, u3) = (uv.x@, uv.y@, uv.z@);
    let (n1, n2, n3) = (n.x@, n.y@, n.z@);
    // the cosine
    lemma_dot_exact(uv.neg_spec(), n);
    let c = cosine_of(u1, u2, u3, n1, n2, n3);
    let cosine = cos_theta_spec(uv, n);
    assert(cosine@ == c);
    lemma_energy(u1, u2, u3, n1, n2, n3, tolerance);
    // the part along the surface
    lemma_mul_exact(n.x, cosine);
    lemma_mul_exact(n.y, cosine);
    lemma_mul_exact(n.z, cosine);
    lemma_product_within(n1, c, 0x2_0000_0000, 0x1_0000_0000);
    lemma_product_within(n2, c, 0x2_0000_0000, 0x1_0000_0000);
    lemma_product_within(n3, c, 0x2_0000_0000, 0x1_0000_0000);
    lemma_fl(n1, c);
    lemma_fl(n2, c);
    lemma_fl(n3, c);
    let sum = uv.add_spec(n.mul_spec(cosine));
    lemma_mul_one(sum.x);
    lemma_mul_one(sum.y);
    lemma_mul_one(sum.z);
    let perp = refract_perp_spec(uv, n, one);
    assert(perp == sum);
    assert(perp.x@ == u1 + fl(n1, c));
    assert(perp.y@ == u2 + fl(n2, c));
    assert(perp.z@ == u3 + fl(n3, c));
    lemma_dot_exact(perp, perp);
    lemma_product_within(perp.x@, perp.x@, 0x4_0000_0001, 0x4_0000_0001);
    lemma_product_within(perp.y@, perp.y@, 0x4_0000_0001, 0x4_0000_0001);
    lemma_product_within(perp.z@, perp.z@, 0x4_0000_0001, 0x4_0000_0001);
    lemma_fl(perp.x@, perp.x@);
    lemma_fl(perp.y@, perp.y@);
    lemma_fl(perp.z@, perp.z@);
    let big = norm_of(perp.x@, perp.y@, perp.z@);
    assert(-0x31_0000_0000 <= big <= 0x31_0000_0000);
    assert(perp.dot_square_spec()@ == big);
    // the depth
    let rest = Scalar::int_spec(1).sub_spec(perp.dot_square_spec()).abs_spec();
    let x = ONE_RAW * (ONE_RAW - big);
    assert(rest@ == if big <= ONE_RAW {
        ONE_RAW - big
    } else {
        big - ONE_RAW
    });
    let square = rest@ * ONE_RAW;
    assert(square == if x >= 0 {
        x
    } else {
        -x
    });
    lemma_product_within(c, c, ONE_RAW as int, ONE_RAW as int);
    lemma_signs(c, c);
    lemma_isqrt_exists(square);
    let k = isqrt(square);
    lemma_root_small(square, k);
    let depth = refract_depth_spec(uv, n, one);
    assert(depth@ == k);
    lemma_root_close(square, k, c, slack);
    // the refracted direction
    lemma_mul_exact(n.x, depth.neg_spec());
    lemma_mul_exact(n.y, depth.neg_spec());
    lemma_mul_exact(n.z, depth.neg_spec());
    lemma_cancel(n1, c, k, slack);
    lemma_cancel(n2, c, k, slack);
    lemma_cancel(n3, c, k, slack);
}

/// The square of `s * v - rho`, where it equals `l * w`.
proof fn lemma_quotient_square(l: int, w: int, s: int, v: int, rho: int)
    requires
        l * w == s * v - rho,
    ensures
        (l * l) * (w * w) == s * s * (v * v) - 2 * (s * (v * rho)) + rho * rho,
{
    let x = l * w;
    let y = s * v;
    assert(x * x == y * y - 2 * (y * rho) + rho * rho) by (nonlinear_arith)
        requires
            x == y - rho,
    ;
    assert(x * x == (l * l) * (w * w)) by (nonlinear_arith)
        requires
            x == l * w,
    ;
    assert(y * y == s * s * (v * v)) by (nonlinear_arith)
        requires
            y == s * v,
    ;
    assert(y * rho == s * (v * rho)) by (nonlinear_arith)
        requires
            y == s * v,
    ;
}

/// A coordinate of a vector is below the vector's length plus three, where
/// the length is at least one.
proof fn lemma_coordinate_below_length(v: int, l: int)
    requires
        l >= ONE_RAW,
        0 <= v * v < l * l + 5 * l,
    ensures
        -(l + 3) < v < l + 3,
{
    if v >= l + 3 {
        assert(v * v >= l * l + 5 * l) by (nonlinear_arith)
            requires
                v >= l + 3,
                l >= 0,
        ;
    }
    if v <= -(l + 3) {
        assert(v * v >= l * l + 5 * l) by (nonlinear_arith)
            requires
                v <= -(l + 3),
                l >= 0,
        ;
    }
}

/// A quotient by a number that is at least one is at most one unit larger in
/// magnitude than what was divided.
proof fn lemma_quotient_small(l: int, w: int, v: int, rho: int)
    requires
        l >= ONE_RAW,
        l * w == ONE_RAW * v - rho,
        0 <= rho < l,
        -0x100_0000_0000 <= v <= 0x100_0000_0000,
    ensures
        -0x100_0000_0001 <= w <= 0x100_0000_0001,
{
    if w > 0x100_0000_0001 {
        assert(l * w >= l * 0x100_0000_0002) by (nonlinear_arith)
            requires
                w >= 0x100_0000_0002,
                l >= 0,
        ;
    }
    if w < -0x100_0000_0001 {
        assert(l * w <= l * (-0x100_0000_0002)) by (nonlinear_arith)
            requires
                w <= -0x100_0000_0002,
                l >= 0,
        ;
    }
}

/// Where `m` is positive, a product with `m` is between two multiples of `m`
/// only if the other factor is between the two multipliers.
proof fn lemma_cancel_factor(m: int, n: int, low: int, high: int)
    requires
        m > 0,
        low * m < m * n < high * m,
    ensures
        low < n < high,
{
    if n >= high {
        assert(m * n >= high * m) by (nonlinear_arith)
            requires
                n >= high,
                m > 0,
        ;
    }
    if n <= low {
        assert(m * n <= low * m) by (nonlinear_arith)
            requires
                n <= low,
                m > 0,
        ;
    }
}

/// A vector of length at least one, divided by its length, is of length one
/// up to eleven units of `2^-32` in its squared length.
pub proof fn lemma_unit_nearly_unit(v: Vec3)
    requires
        -0x100_0000_0000 <= v.x@ <= 0x100_0000_0000,
        -0x100_0000_0000 <= v.y@ <= 0x100_0000_0000,
        -0x100_0000_0000 <= v.z@ <= 0x100_0000_0000,
        v.dot_square_spec()@ >= ONE_RAW,
    ensures
        nearly_unit(v.unit_spec(), 11),
{
    let s = 0x1_0000_0000int;
    let s2 = 0x1_0000_0000_0000_0000int;
    let (v1, v2, v3) = (v.x@, v.y@, v.z@);
    // the squared length and the length
    lemma_dot_exact(v, v);
    lemma_fl(v1, v1);
    lemma_fl(v2, v2);
    lemma_fl(v3, v3);
    lemma_signs(v1, v1);
    lemma_signs(v2, v2);
    lemma_signs(v3, v3);
    lemma_product_within(v1, v1, 0x100_0000_0000, 0x100_0000_0000);
    lemma_product_within(v2, v2, 0x100_0000_0000, 0x100_0000_0000);
    lemma_product_within(v3, v3, 0x100_0000_0000, 0x100_0000_0000);
    let ds = norm_of(v1, v2, v3);
    assert(v.dot_square_spec()@ == ds);
    let vv = v1 * v1 + v2 * v2 + v3 * v3;
    let alpha = vv - s * ds;
    assert(0 <= alpha < 3 * s);
    lemma_isqrt_exists(s * ds);
    let l = isqrt(s * ds);
    assert(is_isqrt(s2, s));
    lemma_isqrt_unique(s2, s);
    lemma_isqrt_monotone(s2, s * ds);
    assert(l >= s);
    if l >= 0x400_0000_0000 {
        assert(l * l >= 0x10_0000_0000_0000_0000_0000) by (nonlinear_arith)
            requires
                l >= 0x400_0000_0000,
        ;
    }
    assert(v.length_spec()@ == l);
    let ll = l * l;
    assert((l + 1) * (l + 1) == ll + 2 * l + 1) by (nonlinear_arith)
        requires
            ll == l * l,
    ;
    let lambda = s * ds - ll;
    assert(0 <= lambda <= 2 * l);
    // the quotients
    vstd::arithmetic::div_mod::lemma_fundamental_div_mod(v1 * s, l);
    vstd::arithmetic::div_mod::lemma_fundamental_div_mod(v2 * s, l);
    vstd::arithmetic::div_mod::lemma_fundamental_div_mod(v3 * s, l);
    let (w1, w2, w3) = ((v1 * s) / l, (v2 * s) / l, (v3 * s) / l);
    let (rho1, rho2, rho3) = ((v1 * s) % l, (v2 * s) % l, (v3 * s) % l);
    lemma_quotient_small(l, w1, v1, rho1);
    lemma_quotient_small(l, w2, v2, rho2);
    lemma_quotient_small(l, w3, v3, rho3);
    let unit = v.unit_spec();
    assert(unit.x@ == w1 && unit.y@ == w2 && unit.z@ == w3);
    lemma_product_within(w1, w1, 0x100_0000_0001, 0x100_0000_0001);
    lemma_product_within(w2, w2, 0x100_0000_0001, 0x100_0000_0001);
    lemma_product_within(w3, w3, 0x100_0000_0001, 0x100_0000_0001);
    lemma_fl(w1, w1);
    lemma_fl(w2, w2);
    lemma_fl(w3, w3);
    let n = norm_of(w1, w2, w3);
    assert(unit.dot_square_spec()@ == n);
    let ww = w1 * w1 + w2 * w2 + w3 * w3;
    let nu = ww - s * n;
    assert(0 <= nu < 3 * s);
    // the squared quotients, multiplied out
    lemma_quotient_square(l, w1, s, v1, rho1);
    lemma_quotient_square(l, w2, s, v2, rho2);
    lemma_quotient_square(l, w3, s, v3, rho3);
    lemma_distribute3(ll, w1 * w1, w2 * w2, w3 * w3);
    let vrho = v1 * rho1 + v2 * rho2 + v3 * rho3;
    let rr = rho1 * rho1 + rho2 * rho2 + rho3 * rho3;
    assert(ll * ww == s2 * vv - 2 * (s * vrho) + rr);
    lemma_split(ll, s, n, nu);
    let lln = ll * n;
    let llnu = ll * nu;
    assert(ll * ww == s * lln + llnu);
    // bounds on the products
    lemma_coordinate_below_length(v1, l);
    lemma_coordinate_below_length(v2, l);
    lemma_coordinate_below_length(v3, l);
    lemma_product_within(v1, rho1, l + 3, l);
    lemma_product_within(v2, rho2, l + 3, l);
    lemma_product_within(v3, rho3, l + 3, l);
    assert((l + 3) * l == ll + 3 * l) by (nonlinear_arith)
        requires
            ll == l * l,
    ;
    lemma_product_within(rho1, rho1, l, l);
    lemma_product_within(rho2, rho2, l, l);
    lemma_product_within(rho3, rho3, l, l);
    lemma_signs(rho1, rho1);
    lemma_signs(rho2, rho2);
    lemma_signs(rho3, rho3);
    lemma_product_within(ll, nu, ll, 3 * s);
    assert(ll * (3 * s) == 3 * (s * ll)) by (nonlinear_arith);
    assert(0 <= llnu) by (nonlinear_arith)
        requires
            llnu == ll * nu,
            0 <= ll,
            0 <= nu,
    ;
    assert(ll >= s * l && s * l >= s2) by (nonlinear_arith)
        requires
            ll == l * l,
            l >= s,
            s == 0x1_0000_0000,
            s2 == 0x1_0000_0000_0000_0000,
    ;
    let sl = s * l;
    let sll = s * ll;
    assert(sll >= s * sl && s * sl >= s * s2);
    // the squared length of the quotient, times `s * ll`
    assert(s * lln - s2 * ll == s2 * (lambda + alpha) - 2 * (s * vrho) + rr - llnu);
    assert(-10 * sll < s * lln - s2 * ll < 12 * sll);
    assert(s * lln - s2 * ll == s * (lln - s * ll));
    assert(ll * (n - s) == lln - s * ll) by (nonlinear_arith)
        requires
            lln == ll * n,
    ;
    lemma_cancel_factor(ll, n - s, -10, 12);
}

/// Glass with the refractive index one lets a ray pass in its own direction,
/// up to rounding, wherever the random number does not choose reflection:
/// for a ray whose direction is at least of length one, and a normal that is
/// of length one up to `tolerance` units of `2^-32` in its squared length
/// and points against the ray, every coordinate of the scattered direction
/// is within `2 slack + 2` units of that of the ray's unit direction, where
/// `slack` is any number whose square is at least `4 tolerance + 40`.
pub proof fn lemma_clear_glass_passes(
    r_in: Ray,
    rec: HitRecord,
    draw: Scalar,
    tolerance: int,
    slack: int,
)
    requires
        -0x100_0000_0000 <= r_in.direction.x@ <= 0x100_0000_0000,
        -0x100_0000_0000 <= r_in.direction.y@ <= 0x100_0000_0000,
        -0x100_0000_0000 <= r_in.direction.z@ <= 0x100_0000_0000,
        r_in.direction.dot_square_spec()@ >= ONE_RAW,
        11 <= tolerance <= ONE_RAW,
        nearly_unit(rec.normal, tolerance),
        r_in.direction.unit_spec().neg_spec().dot_spec(rec.normal)@ >= 0,
        0 <= slack,
        slack * slack >= ONE_RAW * (4 * tolerance + 40),
        !(Dielectric { refractive_index: Scalar { raw: ONE_RAW } }).reflects(r_in, rec, draw),
    ensures
        ({
            let glass = Dielectric { refractive_index: Scalar { raw: ONE_RAW } };
            let uv = r_in.direction.unit_spec();
            let out = glass.outcome(r_in, rec, draw).scattered.direction;
            &&& -(2 * slack + 2) <= out.x@ - uv.x@ <= 2 * slack + 2
            &&& -(2 * slack + 2) <= out.y@ - uv.y@ <= 2 * slack + 2
            &&& -(2 * slack + 2) <= out.z@ - uv.z@ <= 2 * slack + 2
        }),
{
    lemma_clear_glass(r_in, rec, draw);
    lemma_unit_nearly_unit(r_in.direction);
    lemma_clear_glass_straight(r_in.direction.unit_spec(), rec.normal, tolerance, slack);
}

} // verus!
