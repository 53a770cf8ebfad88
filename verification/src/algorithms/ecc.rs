//! Elliptic curves `y² = x³ + a·x + b` over `Z/pZ`: the chord-and-tangent
//! addition of points and scalar multiplication by double-and-add.
use vstd::prelude::*;
use crate::error::{CalcError, CalcResult};
use crate::math::{
    TRIAL_LIMIT, coprime_mod, inv_error, inv_mod, is_prime, lemma_coprime_prime, lemma_euclid_prime, lemma_gcd_mod,
    lemma_inv_mod, mod_inv, rem_euclid, spec_is_prime,
};
use vstd::arithmetic::div_mod::{
    lemma_add_mod_noop, lemma_add_mod_noop_right, lemma_fundamental_div_mod, lemma_mod_bound, lemma_mod_twice,
    lemma_small_mod,
    lemma_mul_mod_noop_left, lemma_mul_mod_noop_right, lemma_sub_mod_noop,
};
use crate::text::{dec, pair_text, pair_view, push_int, push_str};
use crate::trace::Trace;

verus! {

/// Bound on coordinates, on the curve parameter `a` and on the modulus under
/// which every intermediate value of the group law fits in `i128`.
pub const EC_LIMIT: i128 = 0x4000_0000_0000_0000;

/// A point of the curve: the point at infinity `O` or an affine point `(x, y)`.
#[derive(Debug, Clone, Copy, PartialEq, Eq, Structural)]
pub enum Point {
    Infinity,
    Affine(i128, i128),
}

/// "O" for the point at infinity, "(x, y)" for an affine point.
pub open spec fn point_view(q: Point) -> Seq<char> {
    match q {
        Point::Infinity => seq!['O'],
        Point::Affine(x, y) => pair_view(x as int, y as int),
    }
}

impl Point {
    /// The point as text: "O" or "(x, y)".
    pub fn to_string(&self) -> (s: String)
        ensures
            s@ == point_view(*self),
    {
        match self {
            Point::Infinity => {
                let mut s = String::new();
                crate::text::push_char(&mut s, 'O');
                s
            },
            Point::Affine(x, y) => pair_text(*x, *y),
        }
    }
}

/// The coordinates lie within `EC_LIMIT` in absolute value.
pub open spec fn coord_ok(q: Point) -> bool {
    match q {
        Point::Infinity => true,
        Point::Affine(x, y) => -EC_LIMIT <= x <= EC_LIMIT && -EC_LIMIT <= y <= EC_LIMIT,
    }
}

/// The curve parameter and the modulus lie within `EC_LIMIT` in absolute value.
pub open spec fn params_ok(a: int, p: int) -> bool {
    -EC_LIMIT <= a <= EC_LIMIT && -EC_LIMIT <= p <= EC_LIMIT
}

/// `Q = -P`: same `x`, and `y_P + y_Q = 0 (mod p)`.
pub open spec fn is_opposite(x1: int, y1: int, x2: int, y2: int, p: int) -> bool {
    x1 == x2 && (y1 + y2) % p == 0
}

/// `P = Q`: the tangent is used.
pub open spec fn is_doubling(x1: int, y1: int, x2: int, y2: int) -> bool {
    x1 == x2 && y1 == y2
}

/// Numerator of the slope: `3x² + a` for a tangent, `y₂ - y₁` for a chord.
pub open spec fn slope_num(x1: int, y1: int, x2: int, y2: int, a: int, p: int) -> int {
    if is_doubling(x1, y1, x2, y2) {
        (3 * x1 * x1 + a) % p
    } else {
        (y2 - y1) % p
    }
}

/// Denominator of the slope: `2y` for a tangent, `x₂ - x₁` for a chord.
pub open spec fn slope_den(x1: int, y1: int, x2: int, y2: int, p: int) -> int {
    if is_doubling(x1, y1, x2, y2) {
        (2 * y1) % p
    } else {
        (x2 - x1) % p
    }
}

/// The addition is defined: one operand is `O`, the points are opposite, or the
/// slope's denominator is invertible modulo `p`.
pub open spec fn add_defined(p1: Point, p2: Point, p: int) -> bool {
    match p1 {
        Point::Infinity => true,
        Point::Affine(x1, y1) => match p2 {
            Point::Infinity => true,
            Point::Affine(x2, y2) => is_opposite(x1 as int, y1 as int, x2 as int, y2 as int, p)
                || coprime_mod(slope_den(x1 as int, y1 as int, x2 as int, y2 as int, p), p),
        },
    }
}

/// The slope `λ = num · den⁻¹ mod p`.
pub open spec fn slope(x1: int, y1: int, x2: int, y2: int, a: int, p: int) -> int {
    (slope_num(x1, y1, x2, y2, a, p) * inv_mod(slope_den(x1, y1, x2, y2, p), p)) % p
}

/// The message when the addition is undefined: the slope's denominator has no
/// inverse modulo `p`.
pub open spec fn add_error(p1: Point, p2: Point, p: int) -> Seq<char> {
    match (p1, p2) {
        (Point::Affine(x1, y1), Point::Affine(x2, y2)) => inv_error(
            slope_den(x1 as int, y1 as int, x2 as int, y2 as int, p),
            p,
        ),
        _ => Seq::empty(),
    }
}

/// `P + Q` by the chord-and-tangent rule:
/// `x₃ = λ² - x₁ - x₂`, `y₃ = λ(x₁ - x₃) - y₁ (mod p)`.
pub open spec fn ec_add(p1: Point, p2: Point, a: int, p: int) -> Point {
    match p1 {
        Point::Infinity => p2,
        Point::Affine(x1, y1) => match p2 {
            Point::Infinity => p1,
            Point::Affine(x2, y2) => if is_opposite(x1 as int, y1 as int, x2 as int, y2 as int, p) {
                Point::Infinity
            } else {
                let l = slope(x1 as int, y1 as int, x2 as int, y2 as int, a, p);
                let x3 = (l * l - x1 - x2) % p;
                let y3 = (l * (x1 - x3) - y1) % p;
                Point::Affine(x3 as i128, y3 as i128)
            },
        },
    }
}

/// Adds two points of the curve with parameter `a` over `Z/pZ`.
pub fn add(p1: Point, p2: Point, a: i128, p: i128) -> (r: CalcResult<Point>)
    requires
        coord_ok(p1),
        coord_ok(p2),
        params_ok(a as int, p as int),
        p1 is Affine && p2 is Affine ==> p != 0,
    ensures
        add_defined(p1, p2, p as int) ==> r == Ok::<Point, CalcError>(
            ec_add(p1, p2, a as int, p as int),
        ),
        !add_defined(p1, p2, p as int) && p <= 0 ==> (r matches Err(CalcError::Bereich(s)) && s@
            == "Modulus muss > 0 sein"@),
        !add_defined(p1, p2, p as int) && p > 0 ==> (r matches Err(CalcError::KeinInverses(s))
            && s@ == add_error(p1, p2, p as int)),
        r matches Ok(q) ==> coord_ok(q),
{
    match p1 {
        Point::Infinity => Ok(p2),
        Point::Affine(x1, y1) => match p2 {
            Point::Infinity => Ok(p1),
            Point::Affine(x2, y2) => {
                if x1 == x2 && rem_euclid(y1 + y2, p) == 0 {
                    return Ok(Point::Infinity);
                }
                let doubling = x1 == x2 && y1 == y2;
                let num;
                let den;
                if doubling {
                    assert(3 * x1 * x1 <= 3 * 0x4000_0000_0000_0000 * 0x4000_0000_0000_0000)
                        by (nonlinear_arith)
                        requires
                            -0x4000_0000_0000_0000 <= x1 <= 0x4000_0000_0000_0000,
                    ;
                    assert(3 * x1 * x1 >= 0) by (nonlinear_arith);
                    num = rem_euclid(3 * x1 * x1 + a, p);
                    den = rem_euclid(2 * y1, p);
                } else {
                    num = rem_euclid(y2 - y1, p);
                    den = rem_euclid(x2 - x1, p);
                }
                let inv = match mod_inv(den, p) {
                    Ok(v) => v,
                    Err(e) => return Err(e),
                };
                assert(0 <= num * inv < 0x4000_0000_0000_0000 * 0x4000_0000_0000_0000)
                    by (nonlinear_arith)
                    requires
                        0 <= num < 0x4000_0000_0000_0000,
                        0 <= inv < 0x4000_0000_0000_0000,
                ;
                let l = rem_euclid(num * inv, p);
                assert(0 <= l * l < 0x4000_0000_0000_0000 * 0x4000_0000_0000_0000)
                    by (nonlinear_arith)
                    requires
                        0 <= l < 0x4000_0000_0000_0000,
                ;
                let x3 = rem_euclid(l * l - x1 - x2, p);
                let d = x1 - x3;
                assert(-0x8000_0000_0000_0000 * 0x4000_0000_0000_0000 <= l * d
                    <= 0x8000_0000_0000_0000 * 0x4000_0000_0000_0000) by (nonlinear_arith)
                    requires
                        0 <= l < 0x4000_0000_0000_0000,
                        -0x8000_0000_0000_0000 <= d <= 0x8000_0000_0000_0000,
                ;
                let y3 = rem_euclid(l * d - y1, p);
                Ok(Point::Affine(x3, y3))
            },
        },
    }
}

/// `-P`: `y` replaced by `-y mod p`.
pub open spec fn negate(q: Point, p: int) -> Point {
    match q {
        Point::Infinity => Point::Infinity,
        Point::Affine(x, y) => Point::Affine(x, ((-y) % p) as i128),
    }
}

/// `(u · (v mod p)⁻¹ mod p) · v = u (mod p)`: the quotient times the divisor.
proof fn lemma_quotient(u: int, v: int, p: int)
    requires
        coprime_mod(v % p, p),
    ensures
        ((((u % p) * inv_mod(v % p, p)) % p) * v) % p == u % p,
{
    let w = inv_mod(v % p, p);
    let uu = u % p;
    lemma_inv_mod(v % p, p);
    lemma_mul_mod_noop_left(uu * w, v, p);
    assert((uu * w) * v == uu * (w * v)) by (nonlinear_arith);
    lemma_mul_mod_noop_right(uu, w * v, p);
    lemma_mul_mod_noop_right(w, v, p);
    assert(w * (v % p) == (v % p) * w) by (nonlinear_arith);
    lemma_mul_mod_noop_right(uu, 1, p);
    lemma_mod_twice(u, p);
}

/// A factor invertible modulo `p` can be cancelled from `z · v = 0 (mod p)`.
proof fn lemma_unit_cancel(z: int, v: int, p: int)
    requires
        coprime_mod(v % p, p),
        (z * v) % p == 0,
    ensures
        z % p == 0,
{
    let w = inv_mod(v % p, p);
    lemma_inv_mod(v % p, p);
    lemma_mul_mod_noop_right(w, v, p);
    assert(w * (v % p) == (v % p) * w) by (nonlinear_arith);
    assert((w * v) % p == 1int % p);
    lemma_mul_mod_noop_right(z, w * v, p);
    lemma_mul_mod_noop_right(z, 1, p);
    assert(z % p == (z * (w * v)) % p);
    assert(z * (w * v) == (z * v) * w) by (nonlinear_arith);
    lemma_mul_mod_noop_left(z * v, w, p);
    assert(0 * w == 0);
    lemma_mod_twice(0, p);
}

/// `v` is invertible modulo `p` exactly when `-v` is.
proof fn lemma_coprime_neg(v: int, p: int)
    requires
        p > 0,
    ensures
        coprime_mod(v % p, p) == coprime_mod((-v) % p, p),
{
    lemma_mod_twice(v, p);
    lemma_mod_twice(-v, p);
    lemma_gcd_mod(v, p);
    lemma_gcd_mod(-v, p);
}

/// Point addition is commutative: wherever `P + Q` is defined, so is `Q + P`,
/// and both give the same point.
pub proof fn lemma_add_commutative(p1: Point, p2: Point, a: int, p: int)
    requires
        add_defined(p1, p2, p),
    ensures
        add_defined(p2, p1, p),
        ec_add(p1, p2, a, p) == ec_add(p2, p1, a, p),
{
    if let Point::Affine(x1, y1) = p1 {
        if let Point::Affine(x2, y2) = p2 {
            let (x1, y1, x2, y2) = (x1 as int, y1 as int, x2 as int, y2 as int);
            assert(y1 + y2 == y2 + y1);
            if !is_opposite(x1, y1, x2, y2, p) && !is_doubling(x1, y1, x2, y2) {
                lemma_coprime_neg(x2 - x1, p);
                assert(-(x2 - x1) == x1 - x2);
                let l = slope(x1, y1, x2, y2, a, p);
                let m = slope(x2, y2, x1, y1, a, p);
                assert(l == (((y2 - y1) % p) * inv_mod((x2 - x1) % p, p)) % p);
                assert(m == (((y1 - y2) % p) * inv_mod((x1 - x2) % p, p)) % p);
                lemma_quotient(y2 - y1, x2 - x1, p);
                lemma_quotient(y1 - y2, x1 - x2, p);
                // (l - m)(x₂ - x₁) = l(x₂ - x₁) + m(x₁ - x₂) = (y₂ - y₁) + (y₁ - y₂) = 0
                let pa = l * (x2 - x1);
                let pb = m * (x1 - x2);
                assert(pa % p == (y2 - y1) % p);
                assert(pb % p == (y1 - y2) % p);
                assert((l - m) * (x2 - x1) == pa + pb) by (nonlinear_arith)
                    requires
                        pa == l * (x2 - x1),
                        pb == m * (x1 - x2),
                ;
                lemma_add_mod_noop(pa, pb, p);
                lemma_add_mod_noop(y2 - y1, y1 - y2, p);
                assert((y2 - y1) + (y1 - y2) == 0);
                assert(0int % p == 0) by {
                    vstd::arithmetic::div_mod::lemma_small_mod(0, p as nat);
                }
                assert(((l - m) * (x2 - x1)) % p == 0);
                lemma_unit_cancel(l - m, x2 - x1, p);
                lemma_mod_bound((y2 - y1) % p * inv_mod((x2 - x1) % p, p), p);
                lemma_mod_bound((y1 - y2) % p * inv_mod((x1 - x2) % p, p), p);
                lemma_fundamental_div_mod(l - m, p);
                assert(l == m) by (nonlinear_arith)
                    requires
                        l - m == p * ((l - m) / p),
                        -p < l - m < p,
                        p > 0,
                ;
                // y₃ differs by l(x₁ - x₂) - (y₁ - y₂), a multiple of p
                let x3 = (l * l - x1 - x2) % p;
                let e1 = l * (x1 - x3) - y1;
                let e2 = l * (x2 - x3) - y2;
                let f = l * (x1 - x2) - (y1 - y2);
                assert(e1 == e2 + f) by (nonlinear_arith)
                    requires
                        e1 == l * (x1 - x3) - y1,
                        e2 == l * (x2 - x3) - y2,
                        f == l * (x1 - x2) - (y1 - y2),
                ;
                lemma_sub_mod_noop(l * (x1 - x2), y1 - y2, p);
                lemma_add_mod_noop(e2, f, p);
                lemma_mod_twice(e2, p);
                assert(e1 % p == e2 % p);
            }
        }
    }
}

/// `P + (-P) = O` for every point, and `O` is neutral: `O + P = P + O = P`.
pub proof fn lemma_add_inverse_identity(q: Point, a: int, p: int)
    requires
        p > 0,
        coord_ok(q),
        params_ok(a, p),
    ensures
        add_defined(q, negate(q, p), p),
        ec_add(q, negate(q, p), a, p) == Point::Infinity,
        ec_add(Point::Infinity, q, a, p) == q,
        ec_add(q, Point::Infinity, a, p) == q,
{
    if let Point::Affine(x, y) = q {
        let ny = (-y) % p;
        lemma_mod_bound(-y, p);
        assert(ny as i128 as int == ny);
        lemma_add_mod_noop_right(y as int, -y, p);
        assert(y + (-y) == 0);
        assert(0int % p == 0) by {
            vstd::arithmetic::div_mod::lemma_small_mod(0, p as nat);
        }
        assert((y + ny) % p == 0);
        assert(is_opposite(x as int, y as int, x as int, ny as i128 as int, p));
    }
}

/// `x³ + a·x + b`.
pub open spec fn cubic(x: int, a: int, b: int) -> int {
    x * x * x + a * x + b
}

/// `Q` is `O` or a point of `y² = x³ + a·x + b` over `Z/pZ` with reduced coordinates.
pub open spec fn on_curve(q: Point, a: int, b: int, p: int) -> bool {
    match q {
        Point::Infinity => true,
        Point::Affine(x, y) => 0 <= x < p && 0 <= y < p && (y * y - cubic(x as int, a, b)) % p == 0,
    }
}

/// `p` divides `c·x + d·y` when it divides `x` and `y`.
pub(crate) proof fn lemma_dvd_lin(x: int, y: int, c: int, d: int, p: int)
    requires
        p > 0,
        x % p == 0,
        y % p == 0,
    ensures
        (c * x + d * y) % p == 0,
{
    lemma_fundamental_div_mod(x, p);
    lemma_fundamental_div_mod(y, p);
    let kx = x / p;
    let ky = y / p;
    assert(c * x + d * y == (c * kx + d * ky) * p) by (nonlinear_arith)
        requires x == p * kx + 0, y == p * ky + 0;
    vstd::arithmetic::div_mod::lemma_mod_multiples_basic(c * kx + d * ky, p);
}

/// `p` divides every multiple `k·p`.
pub(crate) proof fn lemma_dvd_mul(k: int, p: int)
    requires
        p > 0,
    ensures
        (k * p) % p == 0,
        (p * k) % p == 0,
{
    vstd::arithmetic::div_mod::lemma_mod_multiples_basic(k, p);
    assert(p * k == k * p) by (nonlinear_arith);
}

/// Equal remainders: `p` divides the difference.
pub(crate) proof fn lemma_dvd_diff(u: int, v: int, p: int)
    requires
        p > 0,
        u % p == v % p,
    ensures
        (u - v) % p == 0,
{
    lemma_fundamental_div_mod(u, p);
    lemma_fundamental_div_mod(v, p);
    assert(u - v == (u / p - v / p) * p) by (nonlinear_arith)
        requires u == p * (u / p) + u % p, v == p * (v / p) + v % p, u % p == v % p;
    lemma_dvd_mul(u / p - v / p, p);
}

/// `p` divides `c` when it divides `c·v` and `v` is invertible modulo `p`.
pub(crate) proof fn lemma_dvd_cancel(c: int, v: int, p: int)
    requires
        coprime_mod(v, p),
        (c * v) % p == 0,
    ensures
        c % p == 0,
{
    let w = inv_mod(v, p);
    lemma_inv_mod(v, p);
    lemma_mul_mod_noop_left(c * v, w, p);
    lemma_dvd_mul(0, p);
    assert((c * v) * w == c * (v * w)) by (nonlinear_arith);
    lemma_mul_mod_noop_right(c, v * w, p);
    lemma_mul_mod_noop_right(c, 1, p);
}

/// The square of `l·x + m`, expanded.
proof fn lemma_square_line(x: int, l: int, m: int)
    by (nonlinear_arith)
    ensures
        (l * x + m) * (l * x + m) == (l * l) * (x * x) + (2 * l * m) * x + m * m,
{
}

/// `(x - x₁)(x - x₂)`, expanded.
proof fn lemma_two_factors(x: int, x1: int, x2: int)
    by (nonlinear_arith)
    ensures
        (x - x1) * (x - x2) == x * x - (x1 + x2) * x + x1 * x2,
{
}

/// `(x² - s·x + q)(x - t)`, expanded.
proof fn lemma_three_factors(x: int, s: int, q: int, t: int)
    by (nonlinear_arith)
    ensures
        (x * x - s * x + q) * (x - t) == x * x * x - (s + t) * (x * x) + (q + s * t) * x - q * t,
{
}

/// Multiplication distributes over a sum of three terms.
proof fn lemma_distribute(w: int, x: int, y: int, z: int)
    by (nonlinear_arith)
    ensures
        (x - y - z) * w == x * w - y * w - z * w,
        w * (x + y - z) == w * x + w * y - w * z,
{
}

/// Equal factors give equal products.
proof fn lemma_mul_left_eq(x: int, y: int, w: int)
    requires
        x == y,
    ensures
        x * w == y * w,
{
}

/// With `t = l² - x₁ - x₂`, the cubic minus the square of the line `l·x + m`
/// is `(x - x₁)(x - x₂)(x - t)` plus a linear remainder.
proof fn lemma_line_cubic(x: int, l: int, m: int, x1: int, x2: int, a: int, b: int)
    ensures
        x * x * x + a * x + b - (l * x + m) * (l * x + m) == (x - x1) * (x - x2) * (x - (l * l
            - x1 - x2)) + (a - 2 * l * m - (x1 * x2 + (x1 + x2) * (l * l - x1 - x2))) * x + (b
            - m * m + x1 * x2 * (l * l - x1 - x2)),
{
    lemma_square_line(x, l, m);
    lemma_two_factors(x, x1, x2);
    lemma_three_factors(x, x1 + x2, x1 * x2, l * l - x1 - x2);
    lemma_mul_left_eq((x - x1) * (x - x2), x * x - (x1 + x2) * x + x1 * x2, x - (l * l - x1 - x2));
    lemma_mul_left_eq((x1 + x2) + (l * l - x1 - x2), l * l, x * x);
    lemma_distribute(x, a, 2 * l * m, x1 * x2 + (x1 + x2) * (l * l - x1 - x2));
}

/// The cubic minus the square of the line differs at `u` and `v` by a multiple of `u - v`.
proof fn lemma_cubic_diff(u: int, v: int, l: int, m: int, a: int, b: int)
    ensures
        (u * u * u + a * u + b - (l * u + m) * (l * u + m)) - (v * v * v + a * v + b - (l * v
            + m) * (l * v + m)) == (u - v) * (u * u + u * v + v * v + a - l * (l * (u + v) + 2
            * m)),
{
    assert(u * u * u - v * v * v == (u - v) * (u * u + u * v + v * v)) by (nonlinear_arith);
    assert((l * u + m) * (l * u + m) - (l * v + m) * (l * v + m) == (u - v) * (l * (l * (u + v)
        + 2 * m))) by (nonlinear_arith);
    assert(a * u - a * v == (u - v) * a) by (nonlinear_arith);
    lemma_distribute(u - v, u * u + u * v + v * v, a, l * (l * (u + v) + 2 * m));
}

/// The chord or tangent through `(x₁, y₁)` with slope `l` meets the curve again
/// at `x₃ = l² - x₁ - x₂`, with `y₃ = l·(x₁ - x₃) - y₁`, once `p` divides the
/// curve equation at `(x₁, y₁)` and the linear coefficient `c₁` of the remainder.
proof fn lemma_third_point(l: int, x1: int, y1: int, x2: int, a: int, b: int, p: int)
    requires
        p > 0,
        (cubic(x1, a, b) - y1 * y1) % p == 0,
        (a - 2 * l * (y1 - l * x1) - (x1 * x2 + (x1 + x2) * (l * l - x1 - x2))) % p == 0,
    ensures
        ({
            let x3 = (l * l - x1 - x2) % p;
            let y3 = (l * (x1 - x3) - y1) % p;
            (y3 * y3 - cubic(x3, a, b)) % p == 0
        }),
{
    let m = y1 - l * x1;
    let t = l * l - x1 - x2;
    let c1 = a - 2 * l * m - (x1 * x2 + (x1 + x2) * t);
    let c0 = b - m * m + x1 * x2 * t;
    let g1 = cubic(x1, a, b) - y1 * y1;
    lemma_line_cubic(x1, l, m, x1, x2, a, b);
    assert(l * x1 + m == y1);
    assert((x1 - x1) * (x1 - x2) * (x1 - t) == 0) by (nonlinear_arith);
    assert(g1 == c1 * x1 + c0);
    lemma_dvd_lin(g1, c1, 1, -x1, p);
    assert(c0 == 1 * g1 + (-x1) * c1) by (nonlinear_arith) requires g1 == c1 * x1 + c0;
    let gt = cubic(t, a, b) - (l * t + m) * (l * t + m);
    lemma_line_cubic(t, l, m, x1, x2, a, b);
    assert((t - x1) * (t - x2) * (t - t) == 0) by (nonlinear_arith);
    assert(gt == c1 * t + c0);
    lemma_dvd_lin(c1, c0, t, 1, p);
    assert(gt == t * c1 + 1 * c0) by (nonlinear_arith) requires gt == c1 * t + c0;
    // the reduced x₃ differs from t by a multiple of p
    let x3 = t % p;
    lemma_fundamental_div_mod(t, p);
    let u = x3 - t;
    assert(u == (-(t / p)) * p) by (nonlinear_arith) requires t == p * (t / p) + x3, u == x3 - t;
    lemma_dvd_mul(-(t / p), p);
    let g3 = cubic(x3, a, b) - (l * x3 + m) * (l * x3 + m);
    lemma_cubic_diff(x3, t, l, m, a, b);
    let s = x3 * x3 + x3 * t + t * t + a - l * (l * (x3 + t) + 2 * m);
    assert(g3 == 1 * gt + s * u) by (nonlinear_arith)
        requires g3 - gt == (x3 - t) * s, u == x3 - t;
    lemma_dvd_lin(gt, u, 1, s, p);
    // y₃ = -(l·x₃ + m) mod p
    let lx = l * x3 + m;
    let w = l * (x1 - x3) - y1;
    assert(w == -lx) by (nonlinear_arith) requires w == l * (x1 - x3) - y1, lx == l * x3 + m, m == y1 - l * x1;
    let y3 = w % p;
    lemma_fundamental_div_mod(w, p);
    let v = y3 + lx;
    assert(v == (-(w / p)) * p) by (nonlinear_arith)
        requires w == p * (w / p) + y3, w == -lx, v == y3 + lx;
    lemma_dvd_mul(-(w / p), p);
    assert(y3 * y3 - cubic(x3, a, b) == (y3 - lx) * v + (-1) * g3) by (nonlinear_arith)
        requires v == y3 + lx, g3 == cubic(x3, a, b) - lx * lx;
    lemma_dvd_lin(v, g3, y3 - lx, -1, p);
}

/// The sum of two points of the curve lies on the curve.
pub proof fn lemma_add_on_curve(p1: Point, p2: Point, a: int, b: int, p: int)
    requires
        p > 0,
        params_ok(a, p),
        on_curve(p1, a, b, p),
        on_curve(p2, a, b, p),
        add_defined(p1, p2, p),
    ensures
        on_curve(ec_add(p1, p2, a, p), a, b, p),
{
    if let Point::Affine(x1, y1) = p1 {
        if let Point::Affine(x2, y2) = p2 {
            let (x1, y1, x2, y2) = (x1 as int, y1 as int, x2 as int, y2 as int);
            if !is_opposite(x1, y1, x2, y2, p) {
                let l = slope(x1, y1, x2, y2, a, p);
                let c1 = a - 2 * l * (y1 - l * x1) - (x1 * x2 + (x1 + x2) * (l * l - x1 - x2));
                lemma_dvd_mul(0, p);
                lemma_dvd_lin(y1 * y1 - cubic(x1, a, b), 0, -1, 0, p);
                assert((cubic(x1, a, b) - y1 * y1) == (-1) * (y1 * y1 - cubic(x1, a, b)) + 0 * 0);
                if is_doubling(x1, y1, x2, y2) {
                    let u = 3 * x1 * x1 + a;
                    let v = 2 * y1;
                    lemma_quotient(u, v, p);
                    assert((l * v) % p == u % p);
                    lemma_dvd_diff(u, l * v, p);
                    assert(c1 == 1 * (u - l * v) + 0 * 0) by (nonlinear_arith)
                        requires
                            x2 == x1,
                            c1 == a - 2 * l * (y1 - l * x1) - (x1 * x2 + (x1 + x2) * (l * l - x1 - x2)),
                            u == 3 * x1 * x1 + a,
                            v == 2 * y1;
                    lemma_dvd_lin(u - l * v, 0, 1, 0, p);
                } else {
                    let u = y2 - y1;
                    let v = x2 - x1;
                    lemma_quotient(u, v, p);
                    lemma_mod_twice(v, p);
                    assert(coprime_mod(v, p));
                    // d = y₂ - (l·x₂ + m) is a multiple of p
                    lemma_dvd_diff(u, l * v, p);
                    let m = y1 - l * x1;
                    let d = u - l * v;
                    let e2 = y2 * y2 - cubic(x2, a, b);
                    let lx2 = l * x2 + m;
                    assert(lx2 == y2 - d) by (nonlinear_arith)
                        requires lx2 == l * x2 + m, m == y1 - l * x1, d == u - l * v, u == y2 - y1, v == x2 - x1;
                    let g2 = cubic(x2, a, b) - lx2 * lx2;
                    assert(g2 == (-1) * e2 + (2 * y2 - d) * d) by (nonlinear_arith)
                        requires lx2 == y2 - d, e2 == y2 * y2 - cubic(x2, a, b), g2 == cubic(x2, a, b) - lx2 * lx2;
                    lemma_dvd_lin(e2, d, -1, 2 * y2 - d, p);
                    let g1 = cubic(x1, a, b) - y1 * y1;
                    let t = l * l - x1 - x2;
                    let c0 = b - m * m + x1 * x2 * t;
                    lemma_line_cubic(x1, l, m, x1, x2, a, b);
                    lemma_line_cubic(x2, l, m, x1, x2, a, b);
                    assert(l * x1 + m == y1);
                    assert((x1 - x1) * (x1 - x2) * (x1 - t) == 0) by (nonlinear_arith);
                    assert((x2 - x1) * (x2 - x2) * (x2 - t) == 0) by (nonlinear_arith);
                    assert(g1 == c1 * x1 + c0);
                    assert(g2 == c1 * x2 + c0);
                    assert(c1 * v == 1 * g2 + (-1) * g1) by (nonlinear_arith)
                        requires g1 == c1 * x1 + c0, g2 == c1 * x2 + c0, v == x2 - x1;
                    lemma_dvd_lin(g2, g1, 1, -1, p);
                    lemma_dvd_cancel(c1, v, p);
                }
                lemma_third_point(l, x1, y1, x2, a, b, p);
                let x3 = (l * l - x1 - x2) % p;
                let y3 = (l * (x1 - x3) - y1) % p;
                lemma_mod_bound(l * l - x1 - x2, p);
                lemma_mod_bound(l * (x1 - x3) - y1, p);
                assert(x3 as i128 as int == x3);
                assert(y3 as i128 as int == y3);
            }
        }
    }
}

/// Over a prime field every two points of the curve can be added: either they
/// are opposite, or the slope's denominator is invertible.
pub proof fn lemma_add_defined_on_curve(p1: Point, p2: Point, a: int, b: int, p: int)
    requires
        spec_is_prime(p),
        on_curve(p1, a, b, p),
        on_curve(p2, a, b, p),
    ensures
        add_defined(p1, p2, p),
{
    if let Point::Affine(x1, y1) = p1 {
        if let Point::Affine(x2, y2) = p2 {
            let (x1, y1, x2, y2) = (x1 as int, y1 as int, x2 as int, y2 as int);
            if !is_opposite(x1, y1, x2, y2, p) {
                let den = slope_den(x1, y1, x2, y2, p);
                lemma_mod_bound(2 * y1, p);
                lemma_mod_bound(x2 - x1, p);
                if is_doubling(x1, y1, x2, y2) {
                    assert((y1 + y2) % p != 0);
                    assert(den == (y1 + y2) % p);
                } else if x1 != x2 {
                    if (x2 - x1) % p == 0 {
                        lemma_fundamental_div_mod(x2 - x1, p);
                        let k = (x2 - x1) / p;
                        assert(false) by (nonlinear_arith)
                            requires x2 - x1 == p * k, -p < x2 - x1 < p, x2 - x1 != 0, p > 0;
                    }
                } else {
                    // same x, different y: y₁² = y₂², so p divides (y₁ - y₂)(y₁ + y₂)
                    let e1 = y1 * y1 - cubic(x1, a, b);
                    let e2 = y2 * y2 - cubic(x2, a, b);
                    lemma_dvd_lin(e1, e2, 1, -1, p);
                    let (lo, hi) = if y1 < y2 { (y1, y2) } else { (y2, y1) };
                    let d = hi - lo;
                    let s = y1 + y2;
                    assert(d * s == (1 * e1 + (-1) * e2) || d * s == -(1 * e1 + (-1) * e2)) by (nonlinear_arith)
                        requires
                            e1 == y1 * y1 - cubic(x1, a, b),
                            e2 == y2 * y2 - cubic(x2, a, b),
                            x1 == x2,
                            d == hi - lo,
                            s == y1 + y2,
                            (lo == y1 && hi == y2) || (lo == y2 && hi == y1);
                    lemma_dvd_mul(0, p);
                    lemma_dvd_lin(1 * e1 + (-1) * e2, 0, -1, 0, p);
                    assert((d * s) % p == 0);
                    lemma_euclid_prime(p, d, s);
                    lemma_small_mod(d as nat, p as nat);
                    assert(false);
                }
                lemma_coprime_prime(den, p);
                lemma_mod_twice(if is_doubling(x1, y1, x2, y2) { 2 * y1 } else { x2 - x1 }, p);
            }
        }
    }
}

/// Double-and-add from the state `(result, addend)` with `n` left to process:
/// for each bit of `n` from the lowest, add `addend` to `result` when the bit
/// is set, then double `addend`. `None` when an addition is undefined.
pub open spec fn double_and_add(result: Point, addend: Point, n: nat, a: int, p: int) -> Option<
    Point,
>
    decreases n,
{
    if n == 0 {
        Some(result)
    } else {
        let next = if n % 2 == 1 {
            if add_defined(result, addend, p) {
                Some(ec_add(result, addend, a, p))
            } else {
                None
            }
        } else {
            Some(result)
        };
        match next {
            None => None,
            Some(r) => if add_defined(addend, addend, p) {
                double_and_add(r, ec_add(addend, addend, a, p), n / 2, a, p)
            } else {
                None
            },
        }
    }
}

/// The message of the first addition that double-and-add cannot make.
pub open spec fn double_and_add_error(result: Point, addend: Point, n: nat, a: int, p: int) -> Seq<
    char,
>
    decreases n,
{
    if n == 0 {
        Seq::empty()
    } else if n % 2 == 1 && !add_defined(result, addend, p) {
        add_error(result, addend, p)
    } else if !add_defined(addend, addend, p) {
        add_error(addend, addend, p)
    } else {
        let r = if n % 2 == 1 {
            ec_add(result, addend, a, p)
        } else {
            result
        };
        double_and_add_error(r, ec_add(addend, addend, a, p), n / 2, a, p)
    }
}

/// The message when `k·P` is undefined.
pub open spec fn scalar_error(k: int, q: Point, a: int, p: int) -> Seq<char> {
    if k < 0 {
        double_and_add_error(Point::Infinity, negate(q, p), (-k) as nat, a, p)
    } else {
        double_and_add_error(Point::Infinity, q, k as nat, a, p)
    }
}

/// `k·P`: double-and-add from `O` on `P`, or on `-P` with `|k|` when `k < 0`.
pub open spec fn scalar_spec(k: int, q: Point, a: int, p: int) -> Option<Point> {
    if k < 0 {
        double_and_add(Point::Infinity, negate(q, p), (-k) as nat, a, p)
    } else {
        double_and_add(Point::Infinity, q, k as nat, a, p)
    }
}

/// `0·P` is the point at infinity; `1·P = P` where `P + P` is defined; for `k < 0`, `k·P` is `|k|·(-P)`; and for an
/// even `k > 0` where `P + P` is defined, `k·P` is `(k/2)·(P + P)`.
pub proof fn lemma_scalar_rules(k: int, q: Point, a: int, p: int)
    ensures
        scalar_spec(0, q, a, p) == Some(Point::Infinity),
        add_defined(q, q, p) ==> scalar_spec(1, q, a, p) == Some(q),
        k < 0 ==> scalar_spec(k, q, a, p) == scalar_spec(-k, negate(q, p), a, p),
        k > 0 && k % 2 == 0 && add_defined(q, q, p) ==> scalar_spec(k, q, a, p) == scalar_spec(
            k / 2,
            ec_add(q, q, a, p),
            a,
            p,
        ),
{
    assert((1nat) / 2 == 0 && (1nat) % 2 == 1);
    assert(ec_add(Point::Infinity, q, a, p) == q);
    if add_defined(q, q, p) {
        assert(double_and_add(q, ec_add(q, q, a, p), 0, a, p) == Some(q));
        assert(double_and_add(Point::Infinity, q, 1, a, p) == Some(q));
    }
    if k > 0 && k % 2 == 0 {
        assert((k as nat) / 2 == k / 2);
        assert((k as nat) % 2 == 0);
    }
}

/// The chord-and-tangent addition is associative on the points of the curve.
pub open spec fn add_associative(a: int, b: int, p: int) -> bool {
    forall|u: Point, v: Point, w: Point|
        on_curve(u, a, b, p) && on_curve(v, a, b, p) && on_curve(w, a, b, p) ==> #[trigger] ec_add(
            ec_add(u, v, a, p),
            w,
            a,
            p,
        ) == ec_add(u, ec_add(v, w, a, p), a, p)
}

/// Over a prime field, the sum of two curve points is defined and on the curve.
proof fn lemma_curve_sum(u: Point, v: Point, a: int, b: int, p: int)
    requires
        spec_is_prime(p),
        params_ok(a, p),
        on_curve(u, a, b, p),
        on_curve(v, a, b, p),
    ensures
        add_defined(u, v, p),
        add_defined(v, u, p),
        on_curve(ec_add(u, v, a, p), a, b, p),
        ec_add(u, v, a, p) == ec_add(v, u, a, p),
{
    lemma_add_defined_on_curve(u, v, a, b, p);
    lemma_add_on_curve(u, v, a, b, p);
    lemma_add_commutative(u, v, a, p);
}

/// Double-and-add from a curve point `r` adds `r` to what it computes from `O`.
#[verifier::spinoff_prover]
#[verifier::rlimit(40)]
proof fn lemma_double_and_add_shift(r: Point, q: Point, n: nat, a: int, b: int, p: int)
    requires
        spec_is_prime(p),
        params_ok(a, p),
        add_associative(a, b, p),
        on_curve(r, a, b, p),
        on_curve(q, a, b, p),
    ensures
        double_and_add(Point::Infinity, q, n, a, p) matches Some(s) && on_curve(s, a, b, p)
            && double_and_add(r, q, n, a, p) == Some(ec_add(r, s, a, p)),
    decreases n,
{
    if n > 0 {
        lemma_curve_sum(q, q, a, b, p);
        let q2 = ec_add(q, q, a, p);
        if n % 2 == 1 {
            lemma_curve_sum(r, q, a, b, p);
            let rq = ec_add(r, q, a, p);
            lemma_double_and_add_shift(rq, q2, n / 2, a, b, p);
            lemma_double_and_add_shift(q, q2, n / 2, a, b, p);
            let t = double_and_add(Point::Infinity, q2, n / 2, a, p)->0;
            lemma_curve_sum(q, t, a, b, p);
            assert(ec_add(ec_add(r, q, a, p), t, a, p) == ec_add(r, ec_add(q, t, a, p), a, p));
            assert(ec_add(Point::Infinity, q, a, p) == q);
            assert(double_and_add(r, q, n, a, p) == double_and_add(rq, q2, n / 2, a, p));
            assert(double_and_add(Point::Infinity, q, n, a, p) == double_and_add(q, q2, n / 2, a, p));
        } else {
            lemma_double_and_add_shift(r, q2, n / 2, a, b, p);
            lemma_double_and_add_shift(Point::Infinity, q2, n / 2, a, b, p);
            assert(double_and_add(r, q, n, a, p) == double_and_add(r, q2, n / 2, a, p));
            assert(double_and_add(Point::Infinity, q, n, a, p) == double_and_add(Point::Infinity, q2, n / 2, a, p));
        }
    }
}

/// `k·P` for `k >= 0` from double-and-add on `O`.
proof fn lemma_multiple(k: nat, q: Point, a: int, b: int, p: int)
    requires
        spec_is_prime(p),
        params_ok(a, p),
        add_associative(a, b, p),
        on_curve(q, a, b, p),
    ensures
        double_and_add(Point::Infinity, q, k, a, p) matches Some(s) && on_curve(s, a, b, p),
{
    lemma_double_and_add_shift(Point::Infinity, q, k, a, b, p);
}

/// One more `P`: `(k+1)·P = k·P + P` on the curve, by induction over the bits of `k`.
#[verifier::spinoff_prover]
#[verifier::rlimit(40)]
proof fn lemma_successor(k: nat, q: Point, a: int, b: int, p: int)
    requires
        spec_is_prime(p),
        params_ok(a, p),
        add_associative(a, b, p),
        on_curve(q, a, b, p),
    ensures
        double_and_add(Point::Infinity, q, k, a, p) matches Some(s) && double_and_add(
            Point::Infinity,
            q,
            k + 1,
            a,
            p,
        ) == Some(ec_add(s, q, a, p)),
    decreases k,
{
    lemma_curve_sum(q, q, a, b, p);
    let q2 = ec_add(q, q, a, p);
    lemma_multiple(k, q, a, b, p);
    if k == 0 {
        assert((1nat) / 2 == 0 && (1nat) % 2 == 1);
        assert(ec_add(Point::Infinity, q, a, p) == q);
    } else if k % 2 == 0 {
        let j = k / 2;
        assert((k + 1) / 2 == j && (k + 1) % 2 == 1);
        lemma_double_and_add_shift(q, q2, j, a, b, p);
        assert(ec_add(Point::Infinity, q, a, p) == q);
        let t = double_and_add(Point::Infinity, q2, j, a, p)->0;
        lemma_curve_sum(q, t, a, b, p);
    } else {
        let j = k / 2;
        assert((k + 1) / 2 == j + 1 && (k + 1) % 2 == 0);
        lemma_successor(j, q2, a, b, p);
        lemma_double_and_add_shift(q, q2, j, a, b, p);
        lemma_multiple(j, q2, a, b, p);
        let t = double_and_add(Point::Infinity, q2, j, a, p)->0;
        assert(ec_add(Point::Infinity, q, a, p) == q);
        lemma_curve_sum(q, t, a, b, p);
        lemma_curve_sum(t, q, a, b, p);
        // (q + t) + q = (t + q) + q = t + (q + q)
        assert(ec_add(ec_add(t, q, a, p), q, a, p) == ec_add(t, ec_add(q, q, a, p), a, p));
    }
}

/// Scalar multiplication is repeated addition: on a curve over a prime field
/// whose addition is associative, `1·P = P` and `(k+1)·P = k·P + P` for every
/// `k >= 0` and every point `P` of the curve.
pub proof fn lemma_scalar_is_repeated_addition(k: int, q: Point, a: int, b: int, p: int)
    requires
        spec_is_prime(p),
        params_ok(a, p),
        add_associative(a, b, p),
        on_curve(q, a, b, p),
        k >= 0,
    ensures
        scalar_spec(1, q, a, p) == Some(q),
        scalar_spec(k, q, a, p) matches Some(s) && scalar_spec(k + 1, q, a, p) == Some(
            ec_add(s, q, a, p),
        ),
{
    lemma_successor(0, q, a, b, p);
    lemma_successor(k as nat, q, a, b, p);
    assert((k + 1) as nat == (k as nat) + 1);
}

/// Scalar multiplication `k·P` by double-and-add; a negative `k` multiplies `-P`.
pub fn scalar_mul(k: i128, p_pt: Point, a: i128, p: i128) -> (r: CalcResult<Point>)
    requires
        coord_ok(p_pt),
        params_ok(a as int, p as int),
        k > i128::MIN,
        p != 0 || p_pt is Infinity || k == 0,
    ensures
        scalar_spec(k as int, p_pt, a as int, p as int) matches Some(q) ==> r == Ok::<
            Point,
            CalcError,
        >(q),
        scalar_spec(k as int, p_pt, a as int, p as int) is None && p <= 0 ==> (r matches Err(
            CalcError::Bereich(s),
        ) && s@ == "Modulus muss > 0 sein"@),
        scalar_spec(k as int, p_pt, a as int, p as int) is None && p > 0 ==> (r matches Err(
            CalcError::KeinInverses(s),
        ) && s@ == scalar_error(k as int, p_pt, a as int, p as int)),
    decreases
            if k < 0 {
                1int
            } else {
                0int
            },
{
    if k < 0 {
        let neg = match p_pt {
            Point::Infinity => Point::Infinity,
            Point::Affine(x, y) => Point::Affine(x, rem_euclid(-y, p)),
        };
        return scalar_mul(-k, neg, a, p);
    }
    let mut result = Point::Infinity;
    let mut addend = p_pt;
    let mut n = k;
    while n > 0
        invariant
            coord_ok(result),
            coord_ok(addend),
            params_ok(a as int, p as int),
            n >= 0,
            p != 0 || n == 0 || (addend is Infinity && result is Infinity),
            double_and_add(result, addend, n as nat, a as int, p as int) == scalar_spec(
                k as int,
                p_pt,
                a as int,
                p as int,
            ),
            double_and_add_error(result, addend, n as nat, a as int, p as int) == scalar_error(
                k as int,
                p_pt,
                a as int,
                p as int,
            ),
        decreases n,
    {
        if n % 2 == 1 {
            result = match self::add(result, addend, a, p) {
                Ok(v) => v,
                Err(e) => return Err(e),
            };
        }
        addend = match self::add(addend, addend, a, p) {
            Ok(v) => v,
            Err(e) => return Err(e),
        };
        n = n / 2;
    }
    Ok(result)
}

/// The singularity test: `4a³ + 27b²` fits in `i128`.
pub open spec fn disc_fits(a: int, b: int) -> bool {
    &&& i128::MIN < 4 * a * a * a <= i128::MAX
    &&& 27 * b * b <= i128::MAX
    &&& i128::MIN <= 4 * a * a * a + 27 * b * b <= i128::MAX
}

/// Discriminant `4a³ + 27b²`.
pub open spec fn discriminant(a: int, b: int) -> int {
    4 * a * a * a + 27 * b * b
}

/// The partial products of `4a³ + 27b²` are no larger than the full terms.
proof fn lemma_disc_terms(a: int, b: int)
    requires
        disc_fits(a, b),
    ensures
        i128::MIN <= 4 * a <= i128::MAX,
        i128::MIN <= 4 * a * a <= i128::MAX,
        i128::MIN <= 27 * b <= i128::MAX,
        0 <= 27 * b * b,
{
    assert(0 <= 4 * a * a) by (nonlinear_arith);
    assert(0 <= 27 * b * b) by (nonlinear_arith);
    if a > 0 {
        assert(4 * a <= 4 * a * a <= 4 * a * a * a) by (nonlinear_arith)
            requires
                a >= 1,
        ;
    } else if a < 0 {
        assert(-(4 * a) <= 4 * a * a <= -(4 * a * a * a)) by (nonlinear_arith)
            requires
                a <= -1,
        ;
    }
    if b > 0 {
        assert(27 * b <= 27 * b * b) by (nonlinear_arith)
            requires
                b >= 1,
        ;
    } else if b < 0 {
        assert(-(27 * b) <= 27 * b * b) by (nonlinear_arith)
            requires
                b <= -1,
        ;
    }
}

/// The curve is usable: `p` prime and the discriminant nonzero modulo `p`.
fn check_curve(a: i128, b: i128, p: i128) -> (r: CalcResult<()>)
    requires
        p <= TRIAL_LIMIT,
        disc_fits(a as int, b as int),
    ensures
        !spec_is_prime(p as int) ==> (r matches Err(CalcError::NichtPrim(s)) && s@ == dec(
            p as int,
        )),
        spec_is_prime(p as int) && discriminant(a as int, b as int) % (p as int) == 0 ==> (r matches Err(
            CalcError::UngueltigeEingabe(s),
        ) && s@ == "Singuläre Kurve (Diskriminante = 0)"@),
        spec_is_prime(p as int) && discriminant(a as int, b as int) % (p as int) != 0 ==> r is Ok,
{
    if !is_prime(p) {
        return Err(CalcError::NichtPrim(crate::text::int_text(p)));
    }
    proof {
        lemma_disc_terms(a as int, b as int);
    }
    let disc = rem_euclid(4 * a * a * a + 27 * b * b, p);
    if disc == 0 {
        return Err(
            CalcError::UngueltigeEingabe(
                String::from_str("Singuläre Kurve (Diskriminante = 0)"),
            ),
        );
    }
    Ok(())
}

/// "y² = x³ + {a}x + {b} mod {p}".
pub open spec fn curve_view(a: int, b: int, p: int) -> Seq<char> {
    "y² = x³ + "@ + dec(a) + "x + "@ + dec(b) + " mod "@ + dec(p)
}

fn curve_text(a: i128, b: i128, p: i128) -> (s: String)
    ensures
        s@ == curve_view(a as int, b as int, p as int),
{
    let mut s = String::from_str("y² = x³ + ");
    push_int(&mut s, a);
    push_str(&mut s, "x + ");
    push_int(&mut s, b);
    push_str(&mut s, " mod ");
    push_int(&mut s, p);
    s
}

/// Trace of a point addition on the curve `y² = x³ + ax + b` over `Z/pZ`.
pub fn add_trace(a: i128, b: i128, p: i128, p1: Point, p2: Point) -> (r: CalcResult<Trace>)
    requires
        coord_ok(p1),
        coord_ok(p2),
        params_ok(a as int, p as int),
        disc_fits(a as int, b as int),
    ensures
        !spec_is_prime(p as int) ==> (r matches Err(CalcError::NichtPrim(s)) && s@ == dec(
            p as int,
        )),
        spec_is_prime(p as int) && discriminant(a as int, b as int) % (p as int) == 0 ==> (r matches Err(
            CalcError::UngueltigeEingabe(s),
        ) && s@ == "Singuläre Kurve (Diskriminante = 0)"@),
        spec_is_prime(p as int) && discriminant(a as int, b as int) % (p as int) != 0 && !add_defined(
            p1,
            p2,
            p as int,
        ) ==> (r matches Err(CalcError::KeinInverses(s)) && s@ == add_error(p1, p2, p as int)),
        spec_is_prime(p as int) && discriminant(a as int, b as int) % (p as int) != 0 && add_defined(
            p1,
            p2,
            p as int,
        ) ==> (r matches Ok(t) && t.algorithm@ == "Elliptische Kurve: Punktaddition"@
            && t.input_list() == seq![
            ("Kurve"@, curve_view(a as int, b as int, p as int)),
            ("P"@, point_view(p1)),
            ("Q"@, point_view(p2)),
        ] && t.results() == seq![("Ergebnis"@, point_view(ec_add(p1, p2, a as int, p as int)))]
            && t.well_formed() && t.step_titles() == seq!["Addition"@] && t.step_lines(0) == seq![
            "P + Q = "@ + point_view(ec_add(p1, p2, a as int, p as int)),
        ] && t.steps@[0].table is None),
{
    match check_curve(a, b, p) {
        Ok(_) => {},
        Err(e) => return Err(e),
    }
    let mut t = Trace::new("Elliptische Kurve: Punktaddition");
    let curve = curve_text(a, b, p);
    t.input("Kurve", curve.as_str());
    let s1 = p1.to_string();
    t.input("P", s1.as_str());
    let s2 = p2.to_string();
    t.input("Q", s2.as_str());
    let s = t.step("Addition");
    let r = match self::add(p1, p2, a, p) {
        Ok(v) => v,
        Err(e) => return Err(e),
    };
    let rs = r.to_string();
    let mut line = String::from_str("P + Q = ");
    push_str(&mut line, rs.as_str());
    t.line(s, line.as_str());
    t.result("Ergebnis", rs.as_str());
    assert(t.step_titles() =~= seq!["Addition"@]);
    assert(t.step_lines(0) =~= seq![line@]);
    Ok(t)
}

/// Trace of a scalar multiplication `k·P` on the curve `y² = x³ + ax + b` over `Z/pZ`.
pub fn scalar_trace(a: i128, b: i128, p: i128, k: i128, p1: Point) -> (r: CalcResult<Trace>)
    requires
        coord_ok(p1),
        params_ok(a as int, p as int),
        disc_fits(a as int, b as int),
        k > i128::MIN,
    ensures
        !spec_is_prime(p as int) ==> (r matches Err(CalcError::NichtPrim(s)) && s@ == dec(
            p as int,
        )),
        spec_is_prime(p as int) && discriminant(a as int, b as int) % (p as int) == 0 ==> (r matches Err(
            CalcError::UngueltigeEingabe(s),
        ) && s@ == "Singuläre Kurve (Diskriminante = 0)"@),
        spec_is_prime(p as int) && discriminant(a as int, b as int) % (p as int) != 0
            && scalar_spec(k as int, p1, a as int, p as int) is None ==> (r matches Err(
            CalcError::KeinInverses(s),
        ) && s@ == scalar_error(k as int, p1, a as int, p as int)),
        spec_is_prime(p as int) && discriminant(a as int, b as int) % (p as int) != 0 ==> (
        scalar_spec(k as int, p1, a as int, p as int) matches Some(q) ==> (r matches Ok(t)
            && t.algorithm@ == "Elliptische Kurve: Skalarmultiplikation"@ && t.input_list()
            == seq![
            ("Kurve"@, curve_view(a as int, b as int, p as int)),
            ("k"@, dec(k as int)),
            ("P"@, point_view(p1)),
        ] && t.results() == seq![("Ergebnis"@, point_view(q))] && t.well_formed()
            && t.step_titles() == seq!["Double-and-Add"@] && t.step_lines(0) == seq![
            "k · P = "@ + point_view(q),
        ] && t.steps@[0].table is None)),
{
    match check_curve(a, b, p) {
        Ok(_) => {},
        Err(e) => return Err(e),
    }
    let mut t = Trace::new("Elliptische Kurve: Skalarmultiplikation");
    let curve = curve_text(a, b, p);
    t.input("Kurve", curve.as_str());
    t.input_int("k", k);
    let s1 = p1.to_string();
    t.input("P", s1.as_str());
    let s = t.step("Double-and-Add");
    let r = match scalar_mul(k, p1, a, p) {
        Ok(v) => v,
        Err(e) => return Err(e),
    };
    let rs = r.to_string();
    let mut line = String::from_str("k · P = ");
    push_str(&mut line, rs.as_str());
    t.line(s, line.as_str());
    t.result("Ergebnis", rs.as_str());
    assert(t.step_titles() =~= seq!["Double-and-Add"@]);
    assert(t.step_lines(0) =~= seq![line@]);
    Ok(t)
}

} // verus!
