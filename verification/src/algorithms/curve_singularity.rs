//! When the curve `y² = x³ + a·x + b` is singular: the discriminant test and the
//! repeated root of the cubic.
use vstd::prelude::*;
use vstd::arithmetic::div_mod::lemma_small_mod;
use crate::algorithms::ecc::{
    cubic, discriminant, lemma_dvd_cancel, lemma_dvd_diff, lemma_dvd_lin, lemma_dvd_mul,
};
use crate::math::{inv_mod, lemma_coprime_prime, lemma_inv_mod, spec_is_prime};

verus! {

/// `x³ + a·x + b` has a repeated root modulo `p`: some `x` is a root of both the
/// cubic and its derivative `3x² + a`.
pub open spec fn has_repeated_root(a: int, b: int, p: int) -> bool {
    exists|x: int| #[trigger] cubic(x, a, b) % p == 0 && (3 * x * x + a) % p == 0
}

proof fn lemma_cube_split(a: int, u: int, c: int)
    by (nonlinear_arith)
    requires
        a == u + c,
    ensures
        4 * a * a * a == 4 * u * (u * u + 3 * u * c + 3 * c * c) + 4 * (c * c * c),
{
}

proof fn lemma_square_split(b: int, v: int, e: int)
    by (nonlinear_arith)
    requires
        b == v + e,
    ensures
        27 * b * b == 27 * v * (v + 2 * e) + 27 * (e * e),
{
}

proof fn lemma_sixth_powers(x: int, c: int, e: int)
    by (nonlinear_arith)
    requires
        c == -3 * (x * x),
        e == 2 * (x * x * x),
    ensures
        4 * (c * c * c) + 27 * (e * e) == 0,
{
}

/// A repeated root makes the discriminant a multiple of `p`.
proof fn lemma_root_makes_singular(a: int, b: int, p: int, x: int)
    requires
        p > 0,
        cubic(x, a, b) % p == 0,
        (3 * x * x + a) % p == 0,
    ensures
        discriminant(a, b) % p == 0,
{
    let u = 3 * x * x + a;
    let v = b - 2 * (x * x * x);
    let c = -3 * (x * x);
    let e = 2 * (x * x * x);
    assert(3 * x * x == 3 * (x * x)) by (nonlinear_arith);
    assert(v == 1 * cubic(x, a, b) + (-x) * u) by (nonlinear_arith)
        requires v == b - 2 * (x * x * x), u == 3 * x * x + a;
    lemma_dvd_lin(cubic(x, a, b), u, 1, -x, p);
    lemma_cube_split(a, u, c);
    lemma_square_split(b, v, e);
    lemma_sixth_powers(x, c, e);
    let ka = 4 * (u * u + 3 * u * c + 3 * c * c);
    let kb = 27 * (v + 2 * e);
    assert(4 * u * (u * u + 3 * u * c + 3 * c * c) == ka * u) by (nonlinear_arith)
        requires ka == 4 * (u * u + 3 * u * c + 3 * c * c);
    assert(27 * v * (v + 2 * e) == kb * v) by (nonlinear_arith) requires kb == 27 * (v + 2 * e);
    lemma_dvd_lin(u, v, ka, kb, p);
}

/// Small numbers other than multiples of 2, 3 and 7 stay nonzero modulo a prime `p > 3`.
proof fn lemma_small_nonzero(k: int, p: int)
    requires
        spec_is_prime(p),
        p > 3,
        k == 2 || k == 3 || k == 4 || k == 8,
    ensures
        k % p != 0,
{
    if p > k {
        lemma_small_mod(k as nat, p as nat);
    } else {
        assert(p % 2 != 0);
        assert(p == 5 || p == 7);
        vstd::arithmetic::div_mod::lemma_fundamental_div_mod(k, p);
        assert(k % p != 0) by (nonlinear_arith)
            requires p == 5 || p == 7, k == 8, k == p * (k / p) + k % p, 0 <= k % p < p;
    }
}

/// The product of two numbers that `p` does not divide is not divisible by a prime `p`.
proof fn lemma_product_nonzero(k: int, x: int, p: int)
    requires
        spec_is_prime(p),
        k % p != 0,
        x % p != 0,
    ensures
        (k * x) % p != 0,
{
    if (k * x) % p == 0 {
        lemma_coprime_prime(x, p);
        lemma_dvd_cancel(k, x, p);
    }
}

proof fn lemma_scaled_terms(a: int, x: int, b: int, y: int, a3: int)
    by (nonlinear_arith)
    requires
        y == 2 * a * x,
        a3 == a * a * a,
    ensures
        (8 * a3) * (x * x * x + a * x + b) == y * y * y + 4 * a3 * y + 8 * a3 * b,
        (4 * (a * a)) * (3 * x * x + a) == 3 * (y * y) + 4 * a3,
{
}

proof fn lemma_cube_of_product(b: int, t: int)
    by (nonlinear_arith)
    ensures
        (-3 * b * t) * (-3 * b * t) * (-3 * b * t) == -27 * (b * b * b) * (t * t * t),
        3 * ((-3 * b * t) * (-3 * b * t)) == 27 * (b * b) * (t * t),
        (t * t + t + 1) * (t - 1) == t * t * t - 1,
        (t + 1) * (t - 1) == t * t - 1,
{
}

proof fn lemma_expand_correction(b: int, k: int, t1: int, a3: int)
    by (nonlinear_arith)
    ensures
        (-b * (27 * (b * b) * k + 12 * a3)) * t1 == -27 * (b * b * b) * (k * t1) - 12 * a3 * b * t1,
{
}

proof fn lemma_combine(y3: int, py: int, q: int, r: int, c: int, w: int, v: int, u: int, z: int)
    requires
        y3 == -27 * w,
        py == -12 * v,
        q == 8 * u,
        r == -4 * u - 27 * z,
        c == -27 * w + 27 * z - 12 * v + 12 * u,
    ensures
        y3 + py + q == r + c,
{
}

proof fn lemma_at_root(b: int, t: int, y: int, a3: int)
    requires
        y == -3 * b * t,
    ensures
        y * y * y + 4 * a3 * y + 8 * a3 * b == (-b) * (4 * a3 + 27 * (b * b)) + (-b * (27 * (b
            * b) * (t * t + t + 1) + 12 * a3)) * (t - 1),
        3 * (y * y) + 4 * a3 == 1 * (4 * a3 + 27 * (b * b)) + (27 * (b * b)) * ((t + 1) * (t
            - 1)),
{
    lemma_cube_of_product(b, t);
    lemma_expand_correction(b, t * t + t + 1, t - 1, a3);
    assert(y * y * y == -27 * ((b * b * b) * (t * t * t))) by (nonlinear_arith)
        requires y == -3 * b * t;
    assert(4 * a3 * y == -12 * (a3 * b * t)) by (nonlinear_arith) requires y == -3 * b * t;
    assert(8 * a3 * b == 8 * (a3 * b)) by (nonlinear_arith);
    assert((-b) * (4 * a3 + 27 * (b * b)) == -4 * (a3 * b) - 27 * (b * b * b)) by (nonlinear_arith);
    assert((-b * (27 * (b * b) * (t * t + t + 1) + 12 * a3)) * (t - 1) == -27 * ((b * b * b) * (t
        * t * t)) + 27 * (b * b * b) - 12 * (a3 * b * t) + 12 * (a3 * b)) by (nonlinear_arith)
        requires
            (-b * (27 * (b * b) * (t * t + t + 1) + 12 * a3)) * (t - 1) == -27 * (b * b * b) * ((t
                * t + t + 1) * (t - 1)) - 12 * a3 * b * (t - 1),
            (t * t + t + 1) * (t - 1) == t * t * t - 1;
    lemma_combine(
        y * y * y,
        4 * a3 * y,
        8 * a3 * b,
        (-b) * (4 * a3 + 27 * (b * b)),
        (-b * (27 * (b * b) * (t * t + t + 1) + 12 * a3)) * (t - 1),
        (b * b * b) * (t * t * t),
        a3 * b * t,
        a3 * b,
        b * b * b,
    );
    assert(3 * (y * y) == 27 * ((b * b) * (t * t))) by (nonlinear_arith) requires y == -3 * b * t;
    assert((27 * (b * b)) * ((t + 1) * (t - 1)) == 27 * ((b * b) * (t * t)) - 27 * (b * b)) by (nonlinear_arith);
}

/// A singular curve has a repeated root: for a prime `p > 3` dividing the
/// discriminant, `x = 0` when `p` divides `a`, else `x = -3b / (2a) mod p`.
proof fn lemma_singular_has_root(a: int, b: int, p: int)
    requires
        spec_is_prime(p),
        p > 3,
        discriminant(a, b) % p == 0,
    ensures
        has_repeated_root(a, b, p),
{
    let d = discriminant(a, b);
    lemma_dvd_mul(0, p);
    lemma_small_nonzero(3, p);
    if a % p == 0 {
        // p divides 4a³, hence 27b², hence b
        assert(4 * a * a * a == (4 * a * a) * a);
        lemma_dvd_lin(a, 0, 4 * a * a, 0, p);
        assert(27 * (b * b) == 1 * d + (-1) * (4 * a * a * a)) by (nonlinear_arith)
            requires d == 4 * a * a * a + 27 * b * b;
        lemma_dvd_lin(d, 4 * a * a * a, 1, -1, p);
        if b % p != 0 {
            lemma_product_nonzero(b, b, p);
            lemma_product_nonzero(3, 3, p);
            lemma_product_nonzero(9, 3, p);
            lemma_product_nonzero(27, b * b, p);
            assert(false);
        }
        assert(cubic(0, a, b) == b);
        assert(cubic(0, a, b) % p == 0 && (3 * 0 * 0 + a) % p == 0);
    } else {
        let a2 = a * a;
        let a3 = a * a * a;
        lemma_small_nonzero(2, p);
        lemma_small_nonzero(4, p);
        lemma_small_nonzero(8, p);
        lemma_product_nonzero(2, a, p);
        lemma_product_nonzero(a, a, p);
        lemma_product_nonzero(a2, a, p);
        assert(a2 * a == a3);
        lemma_product_nonzero(4, a2, p);
        lemma_product_nonzero(8, a3, p);
        lemma_coprime_prime(2 * a, p);
        lemma_coprime_prime(4 * a2, p);
        lemma_coprime_prime(8 * a3, p);
        let w = inv_mod(2 * a, p);
        lemma_inv_mod(2 * a, p);
        lemma_small_mod(1, p as nat);
        let t = 2 * a * w;
        assert(t == (2 * a) * w);
        lemma_dvd_diff(t, 1, p);
        let x = -3 * b * w;
        let y = 2 * a * x;
        assert(y == -3 * b * t) by (nonlinear_arith) requires x == -3 * b * w, t == 2 * a * w, y == 2 * a * x;
        lemma_scaled_terms(a, x, b, y, a3);
        lemma_at_root(b, t, y, a3);
        assert(4 * a * a * a == 4 * a3 && 27 * b * b == 27 * (b * b)) by (nonlinear_arith)
            requires a3 == a * a * a;
        assert(d == 4 * a3 + 27 * (b * b));
        // 8a³ · f(x) and 4a² · f'(x) are multiples of p
        lemma_dvd_lin(d, t - 1, -b, -b * (27 * (b * b) * (t * t + t + 1) + 12 * a3), p);
        lemma_dvd_lin(t - 1, 0, t + 1, 0, p);
        lemma_dvd_lin(d, (t + 1) * (t - 1), 1, 27 * (b * b), p);
        assert(cubic(x, a, b) == x * x * x + a * x + b);
        assert(cubic(x, a, b) * (8 * a3) == (8 * a3) * (x * x * x + a * x + b)) by (nonlinear_arith)
            requires cubic(x, a, b) == x * x * x + a * x + b;
        assert((3 * x * x + a) * (4 * a2) == (4 * (a * a)) * (3 * x * x + a)) by (nonlinear_arith)
            requires a2 == a * a;
        lemma_dvd_cancel(cubic(x, a, b), 8 * a3, p);
        lemma_dvd_cancel(3 * x * x + a, 4 * a2, p);
        assert(cubic(x, a, b) % p == 0 && (3 * x * x + a) % p == 0);
    }
}

/// A curve is singular exactly when its cubic has a repeated root: for a prime
/// `p > 3`, `p` divides `4a³ + 27b²` if and only if some `x` is a root of both
/// `x³ + a·x + b` and its derivative `3x² + a` modulo `p`.
pub proof fn lemma_singular_iff_repeated_root(a: int, b: int, p: int)
    requires
        spec_is_prime(p),
        p > 3,
    ensures
        (discriminant(a, b) % p == 0) == has_repeated_root(a, b, p),
{
    if has_repeated_root(a, b, p) {
        let x = choose|x: int| #[trigger] cubic(x, a, b) % p == 0 && (3 * x * x + a) % p == 0;
        lemma_root_makes_singular(a, b, p, x);
    }
    if discriminant(a, b) % p == 0 {
        lemma_singular_has_root(a, b, p);
    }
}

} // verus!
