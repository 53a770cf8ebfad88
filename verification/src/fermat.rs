//! Fermat's little theorem, proved from the binomial theorem, and the facts
//! about exponents modulo a prime that the public-key schemes rest on.
use vstd::prelude::*;
use vstd::arithmetic::div_mod::*;
use vstd::arithmetic::power::*;
use crate::math::{
    coprime_mod, inv_mod, lemma_euclid_prime, lemma_inv_mod, lemma_inv_unique, spec_is_prime,
    spec_mod_pow,
};

verus! {

/// The binomial coefficient `C(n, k)` by Pascal's rule.
pub open spec fn binom(n: nat, k: nat) -> nat
    decreases n,
{
    if k == 0 {
        1
    } else if n == 0 {
        0
    } else {
        binom((n - 1) as nat, (k - 1) as nat) + binom((n - 1) as nat, k)
    }
}

/// `C(n, 0)·a^0 + ... + C(n, j-1)·a^(j-1)`.
pub open spec fn binom_sum(a: int, n: nat, j: nat) -> int
    decreases j,
{
    if j == 0 {
        0
    } else {
        binom_sum(a, n, (j - 1) as nat) + binom(n, (j - 1) as nat) * pow(a, (j - 1) as nat)
    }
}

proof fn lemma_binom_above(n: nat, k: nat)
    requires
        k > n,
    ensures
        binom(n, k) == 0,
    decreases n,
{
    if n > 0 {
        lemma_binom_above((n - 1) as nat, (k - 1) as nat);
        lemma_binom_above((n - 1) as nat, k);
    }
}

proof fn lemma_binom_diagonal(n: nat)
    ensures
        binom(n, n) == 1,
    decreases n,
{
    if n > 0 {
        lemma_binom_diagonal((n - 1) as nat);
        lemma_binom_above((n - 1) as nat, n);
    }
}

proof fn lemma_binom_one(n: nat)
    ensures
        binom(n, 1) == n,
    decreases n,
{
    if n > 0 {
        lemma_binom_one((n - 1) as nat);
        assert(binom((n - 1) as nat, 0) == 1);
        assert(binom(n, 1) == binom((n - 1) as nat, 0) + binom((n - 1) as nat, 1));
    }
}

/// Pascal's rule lifted to the partial sums.
proof fn lemma_binom_sum_step(a: int, n: nat, j: nat)
    ensures
        binom_sum(a, n + 1, j + 1) == binom_sum(a, n, j + 1) + a * binom_sum(a, n, j),
    decreases j,
{
    if j == 0 {
        lemma_pow0(a);
        assert(binom_sum(a, n + 1, 1) == binom_sum(a, n + 1, 0) + binom(n + 1, 0) * pow(a, 0));
        assert(binom_sum(a, n, 1) == binom_sum(a, n, 0) + binom(n, 0) * pow(a, 0));
    } else {
        let i = (j - 1) as nat;
        lemma_binom_sum_step(a, n, i);
        assert(i + 1 == j);
        assert(binom_sum(a, n + 1, j + 1) == binom_sum(a, n + 1, j) + binom(n + 1, j) * pow(a, j));
        assert(binom_sum(a, n, j + 1) == binom_sum(a, n, j) + binom(n, j) * pow(a, j));
        assert(binom_sum(a, n, j) == binom_sum(a, n, i) + binom(n, i) * pow(a, i));
        lemma_pow_adds(a, i, 1);
        lemma_pow1(a);
        let x = binom_sum(a, n, i);
        let b = binom(n, i) as int;
        let c = binom(n, j) as int;
        let pi = pow(a, i);
        let pj = pow(a, j);
        assert(pj == pi * a);
        assert(binom(n + 1, j) == binom(n, i) + binom(n, j));
        assert(a * (x + b * pi) == a * x + b * (pi * a)) by (nonlinear_arith);
        assert((b + c) * pj == b * pj + c * pj) by (nonlinear_arith);
    }
}

/// The binomial theorem: `(a + 1)^n = Σ C(n, k)·a^k`.
pub proof fn lemma_binomial(a: int, n: nat)
    ensures
        pow(a + 1, n) == binom_sum(a, n, n + 1),
    decreases n,
{
    if n == 0 {
        lemma_pow0(a + 1);
        lemma_pow0(a);
        assert(binom_sum(a, 0, 1) == binom_sum(a, 0, 0) + binom(0, 0) * pow(a, 0));
    } else {
        let m = (n - 1) as nat;
        lemma_binomial(a, m);
        assert(m + 1 == n);
        lemma_binom_sum_step(a, m, n);
        lemma_binom_above(m, n);
        assert(binom_sum(a, m, n + 1) == binom_sum(a, m, n) + binom(m, n) * pow(a, n));
        assert(binom(m, n) * pow(a, n) == 0);
        lemma_pow_adds(a + 1, m, 1);
        lemma_pow1(a + 1);
        let x = pow(a + 1, m);
        assert(pow(a + 1, n) == x * pow(a + 1, 1));
        assert(x == binom_sum(a, m, n));
        assert(binom_sum(a, n, n + 1) == binom_sum(a, m, n) + a * binom_sum(a, m, n));
        assert(x * (a + 1) == x + a * x) by (nonlinear_arith);
    }
}

/// Absorption: `k·C(n, k) = n·C(n-1, k-1)`.
proof fn lemma_absorb(n: nat, k: nat)
    requires
        n >= 1,
        k >= 1,
    ensures
        k * binom(n, k) == n * binom((n - 1) as nat, (k - 1) as nat),
    decreases n,
{
    if k == 1 {
        lemma_binom_one(n);
        assert(binom((n - 1) as nat, 0) == 1);
        assert(k * binom(n, k) == n);
        assert(n * binom((n - 1) as nat, (k - 1) as nat) == n * 1);
    } else if n == 1 {
        lemma_binom_above(0, (k - 1) as nat);
        assert(binom(1, k) == binom(0, (k - 1) as nat) + binom(0, k));
        assert(binom(1, k) == 0);
        assert(k * binom(n, k) == 0);
        assert(n * binom((n - 1) as nat, (k - 1) as nat) == 0);
    } else {
        let n1 = (n - 1) as nat;
        let n2 = (n - 2) as nat;
        let k1 = (k - 1) as nat;
        let k2 = (k - 2) as nat;
        lemma_absorb(n1, k);
        lemma_absorb(n1, k1);
        let a = binom(n1, k1) as int;
        let b = binom(n1, k) as int;
        let c = binom(n2, k2) as int;
        let d = binom(n2, k1) as int;
        assert(binom(n, k) == a + b);
        assert(a == c + d);
        assert(k * (a + b) == n * a) by (nonlinear_arith)
            requires
                k * b == (n - 1) * d,
                (k - 1) * a == (n - 1) * c,
                a == c + d;
        assert(n1 == n - 1 && k1 == k - 1);
        assert(k * binom(n, k) == k * (a + b));
        assert(n * binom((n - 1) as nat, (k - 1) as nat) == n * a);
    }
}

/// A prime `p` divides `C(p, k)` for `0 < k < p`.
proof fn lemma_prime_divides_binom(p: int, k: nat)
    requires
        spec_is_prime(p),
        0 < k < p,
    ensures
        (binom(p as nat, k) as int) % p == 0,
{
    lemma_absorb(p as nat, k);
    let c = binom((p - 1) as nat, (k - 1) as nat) as int;
    lemma_mod_multiples_basic(c, p);
    assert(((k * binom(p as nat, k)) as int) % p == 0) by {
        assert(k * binom(p as nat, k) == c * p) by (nonlinear_arith)
            requires k * binom(p as nat, k) == p * c;
    }
    lemma_euclid_prime(p, k as int, binom(p as nat, k) as int);
    lemma_small_mod(k, p as nat);
}

/// The inner terms of `(a + 1)^p` vanish modulo `p`.
proof fn lemma_inner_terms(a: int, p: int, j: nat)
    requires
        spec_is_prime(p),
        1 <= j <= p,
    ensures
        binom_sum(a, p as nat, j) % p == 1int % p,
    decreases j,
{
    if j == 1 {
        lemma_pow0(a);
        assert(binom_sum(a, p as nat, 0) == 0);
    } else {
        let i = (j - 1) as nat;
        lemma_inner_terms(a, p, i);
        lemma_prime_divides_binom(p, i);
        let b = binom(p as nat, i) as int;
        let pw = pow(a, i);
        lemma_mul_mod_noop_left(b, pw, p);
        assert((0int * pw) % p == 0) by {
            lemma_mod_self_0(p);
            assert(0int * pw == 0);
            lemma_small_mod(0, p as nat);
        }
        lemma_add_mod_noop(binom_sum(a, p as nat, i), b * pw, p);
        lemma_add_mod_noop(1, 0, p);
    }
}

/// The freshman's dream modulo a prime: `(a + 1)^p = a^p + 1 (mod p)`.
pub proof fn lemma_freshman(a: int, p: int)
    requires
        spec_is_prime(p),
    ensures
        pow(a + 1, p as nat) % p == (pow(a, p as nat) + 1) % p,
{
    let pn = p as nat;
    lemma_binomial(a, pn);
    lemma_binom_diagonal(pn);
    lemma_inner_terms(a, p, pn);
    let s = binom_sum(a, pn, pn);
    assert(pow(a + 1, pn) == s + pow(a, pn));
    lemma_add_mod_noop(s, pow(a, pn), p);
    lemma_add_mod_noop(1, pow(a, pn), p);
}

proof fn lemma_fermat_nat(a: nat, p: int)
    requires
        spec_is_prime(p),
    ensures
        pow(a as int, p as nat) % p == (a as int) % p,
    decreases a,
{
    let pn = p as nat;
    if a == 0 {
        lemma_pow_adds(0, (pn - 1) as nat, 1);
        lemma_pow1(0);
        assert(pow(0, pn) == pow(0, (pn - 1) as nat) * 0);
    } else {
        let b = (a - 1) as nat;
        lemma_fermat_nat(b, p);
        lemma_freshman(b as int, p);
        lemma_add_mod_noop(pow(b as int, pn), 1, p);
        lemma_add_mod_noop(b as int, 1, p);
    }
}

/// Fermat's little theorem: `a^p = a (mod p)` for every integer `a` and prime `p`.
pub proof fn lemma_fermat(a: int, p: int)
    requires
        spec_is_prime(p),
    ensures
        pow(a, p as nat) % p == a % p,
{
    lemma_mod_bound(a, p);
    lemma_pow_mod_noop(a, p as nat, p);
    lemma_fermat_nat((a % p) as nat, p);
    lemma_mod_twice(a, p);
}

/// `a^(t·(p-1) + 1) = a (mod p)` for every integer `a`, prime `p` and `t >= 0`.
pub proof fn lemma_fermat_lift(a: int, p: int, t: nat)
    requires
        spec_is_prime(p),
    ensures
        pow(a, t * ((p - 1) as nat) + 1) % p == a % p,
    decreases t,
{
    let q = (p - 1) as nat;
    if t == 0 {
        lemma_pow1(a);
    } else {
        let u = (t - 1) as nat;
        lemma_fermat_lift(a, p, u);
        assert(t * q + 1 == u * q + (p as nat)) by (nonlinear_arith)
            requires t == u + 1, q + 1 == p;
        lemma_pow_adds(a, u * q, p as nat);
        lemma_pow_adds(a, u * q, 1);
        lemma_pow1(a);
        lemma_fermat(a, p);
        let x = pow(a, u * q);
        lemma_mul_mod_noop_right(x, pow(a, p as nat), p);
        lemma_mul_mod_noop_right(x, a, p);
    }
}

/// Cancelling a factor that has an inverse: `a·u = a·v (mod p)` gives `u = v (mod p)`.
pub proof fn lemma_cancel(a: int, u: int, v: int, p: int)
    requires
        coprime_mod(a, p),
        (a * u) % p == (a * v) % p,
    ensures
        u % p == v % p,
{
    let w = inv_mod(a, p);
    lemma_inv_mod(a, p);
    lemma_mul_mod_noop_right(w, a * u, p);
    lemma_mul_mod_noop_right(w, a * v, p);
    assert(w * (a * u) == (a * w) * u) by (nonlinear_arith);
    assert(w * (a * v) == (a * w) * v) by (nonlinear_arith);
    lemma_mul_mod_noop_left(a * w, u, p);
    lemma_mul_mod_noop_left(a * w, v, p);
    lemma_mul_mod_noop_left(1, u, p);
    lemma_mul_mod_noop_left(1, v, p);
}

/// `a^(k·(p-1)) = 1 (mod p)` when `p` does not divide `a`.
pub proof fn lemma_fermat_power_of_order(a: int, p: int, k: nat)
    requires
        spec_is_prime(p),
        coprime_mod(a, p),
    ensures
        pow(a, k * ((p - 1) as nat)) % p == 1,
{
    let q = (p - 1) as nat;
    lemma_fermat_lift(a, p, k);
    lemma_pow_adds(a, k * q, 1);
    lemma_pow1(a);
    let x = pow(a, k * q);
    // a · x = a · 1 (mod p)
    assert(x * a == a * x) by (nonlinear_arith);
    assert(a * 1 == a);
    lemma_cancel(a, x, 1, p);
    lemma_small_mod(1, p as nat);
}

/// Exponents of a value that `p` does not divide count modulo `p - 1`.
pub proof fn lemma_fermat_exponent(a: int, p: int, x: nat, y: nat)
    requires
        spec_is_prime(p),
        coprime_mod(a, p),
        x % ((p - 1) as nat) == y % ((p - 1) as nat),
    ensures
        pow(a, x) % p == pow(a, y) % p,
{
    let q = (p - 1) as nat;
    let r = x % q;
    lemma_fundamental_div_mod(x as int, q as int);
    lemma_fundamental_div_mod(y as int, q as int);
    let qx = x / q;
    let qy = y / q;
    assert(x == qx * q + r) by (nonlinear_arith) requires x == q * qx + r;
    assert(y == qy * q + r) by (nonlinear_arith) requires y == q * qy + r, r == y % q;
    lemma_pow_adds(a, qx * q, r);
    lemma_pow_adds(a, qy * q, r);
    lemma_fermat_power_of_order(a, p, qx);
    lemma_fermat_power_of_order(a, p, qy);
    lemma_mul_mod_noop_left(pow(a, qx * q), pow(a, r), p);
    lemma_mul_mod_noop_left(pow(a, qy * q), pow(a, r), p);
}

/// Two different primes that both divide `x >= 0` divide it together.
pub proof fn lemma_two_primes_divide(x: int, p: int, q: int)
    requires
        spec_is_prime(p),
        spec_is_prime(q),
        p != q,
        x >= 0,
        x % p == 0,
        x % q == 0,
    ensures
        x % (p * q) == 0,
{
    lemma_fundamental_div_mod(x, p);
    let y = x / p;
    lemma_div_pos_is_pos(x, p);
    assert(x == p * y);
    lemma_euclid_prime(q, p, y);
    if p % q == 0 {
        // a prime has no divisor strictly between 1 and itself
        if q < p {
            assert(p % q != 0);
        } else {
            lemma_small_mod(p as nat, q as nat);
        }
    }
    lemma_fundamental_div_mod(y, q);
    let z = y / q;
    assert(x == (p * q) * z) by (nonlinear_arith) requires x == p * y, y == q * z + 0;
    assert(p * q > 0) by (nonlinear_arith) requires p >= 2, q >= 2;
    lemma_mod_multiples_basic(z, p * q);
    assert((p * q) * z == z * (p * q)) by (nonlinear_arith);
}

/// `(1 + y)^k = 1 + k·y (mod y²)` for `y != 0`.
pub proof fn lemma_one_plus_pow(y: int, k: nat)
    requires
        y != 0,
    ensures
        pow(1 + y, k) % (y * y) == (1 + k * y) % (y * y),
    decreases k,
{
    let yy = y * y;
    assert(yy > 0) by (nonlinear_arith) requires y != 0, yy == y * y;
    if k == 0 {
        lemma_pow0(1 + y);
    } else {
        let j = (k - 1) as nat;
        lemma_one_plus_pow(y, j);
        lemma_pow_adds(1 + y, j, 1);
        lemma_pow1(1 + y);
        let q = pow(1 + y, j);
        lemma_mul_mod_noop_left(q, 1 + y, yy);
        lemma_mul_mod_noop_left(1 + j * y, 1 + y, yy);
        assert((1 + j * y) * (1 + y) == yy * j + (1 + k * y)) by (nonlinear_arith)
            requires yy == y * y, k == j + 1;
        lemma_mod_multiples_vanish(j as int, 1 + k * y, yy);
    }
}

/// Lifting to the square: `x = 1 (mod p)` gives `x^p = 1 (mod p²)`.
pub proof fn lemma_lift_to_square(x: int, p: int)
    requires
        spec_is_prime(p),
        x % p == 1,
    ensures
        pow(x, p as nat) % (p * p) == 1,
{
    let pp = p * p;
    assert(pp > 1) by (nonlinear_arith) requires p >= 2, pp == p * p;
    lemma_fundamental_div_mod(x, p);
    let u = x / p;
    let y = p * u;
    assert(x == 1 + y);
    if u == 0 {
        lemma1_pow(p as nat);
        lemma_small_mod(1, pp as nat);
    } else {
        assert(y != 0) by (nonlinear_arith) requires y == p * u, u != 0, p >= 2;
        lemma_one_plus_pow(y, p as nat);
        let uu = u * u;
        assert(uu > 0) by (nonlinear_arith) requires u != 0, uu == u * u;
        assert(y * y == pp * uu) by (nonlinear_arith) requires y == p * u, pp == p * p, uu == u * u;
        lemma_mod_mod(pow(x, p as nat), pp, uu);
        lemma_mod_mod(1 + p * y, pp, uu);
        assert(1 + p * y == pp * u + 1) by (nonlinear_arith) requires y == p * u, pp == p * p;
        lemma_mod_multiples_vanish(u, 1, pp);
        lemma_small_mod(1, pp as nat);
    }
}

/// A prime that divides `a·a·y` but not `a` divides `y`.
proof fn lemma_prime_skips_square(q: int, a: int, y: int)
    requires
        spec_is_prime(q),
        a >= 0,
        y >= 0,
        a % q != 0,
        (a * a * y) % q == 0,
    ensures
        y % q == 0,
{
    assert(a * a * y == a * (a * y)) by (nonlinear_arith);
    assert(a * y >= 0) by (nonlinear_arith) requires a >= 0, y >= 0;
    lemma_euclid_prime(q, a, a * y);
    lemma_euclid_prime(q, a, y);
}

/// Different primes `p`, `q`: when `p²` and `q²` both divide `x >= 0`, so does `(p·q)²`.
pub proof fn lemma_two_squares_divide(x: int, p: int, q: int)
    requires
        spec_is_prime(p),
        spec_is_prime(q),
        p != q,
        x >= 0,
        x % (p * p) == 0,
        x % (q * q) == 0,
    ensures
        x % ((p * q) * (p * q)) == 0,
{
    let pp = p * p;
    let qq = q * q;
    assert(pp > 0 && qq > 0) by (nonlinear_arith) requires p >= 2, q >= 2, pp == p * p, qq == q * q;
    // p does not divide q, and q does not divide p
    if p % q == 0 {
        if q < p {
            assert(p % q != 0);
        } else {
            lemma_small_mod(p as nat, q as nat);
        }
    }
    lemma_fundamental_div_mod(x, pp);
    let y = x / pp;
    lemma_div_pos_is_pos(x, pp);
    lemma_mod_mod(x, q, q);
    assert(x == p * p * y) by (nonlinear_arith) requires x == pp * y, pp == p * p;
    lemma_prime_skips_square(q, p, y);
    lemma_fundamental_div_mod(y, q);
    let y1 = y / q;
    lemma_div_pos_is_pos(y, q);
    // x = q · (p² y1), and q² | x gives q | p² y1
    lemma_fundamental_div_mod(x, qq);
    let z = x / qq;
    assert(q * (p * p * y1) == q * (q * z)) by (nonlinear_arith)
        requires x == p * p * y, y == q * y1, x == qq * z, qq == q * q;
    assert(p * p * y1 == q * z) by (nonlinear_arith)
        requires q * (p * p * y1) == q * (q * z), q >= 2;
    lemma_mod_multiples_basic(z, q);
    assert((q * z) % q == 0) by {
        assert(q * z == z * q) by (nonlinear_arith);
    }
    assert(p * p * y1 >= 0 && y1 >= 0);
    lemma_prime_skips_square(q, p, y1);
    lemma_fundamental_div_mod(y1, q);
    let y2 = y1 / q;
    assert(x == y2 * ((p * q) * (p * q))) by (nonlinear_arith)
        requires x == p * p * y, y == q * y1 + 0, y1 == q * y2 + 0;
    assert((p * q) * (p * q) > 0) by (nonlinear_arith) requires p >= 2, q >= 2;
    lemma_mod_multiples_basic(y2, (p * q) * (p * q));
}

/// For a value `g` prime to the prime `p`, raising to any integer `e` (a negative
/// one through the inverse) is raising to `e mod (p - 1)`.
pub proof fn lemma_unit_exponent(g: int, p: int, e: int)
    requires
        spec_is_prime(p),
        coprime_mod(g, p),
    ensures
        spec_mod_pow(g, e, p) == pow(g, (e % (p - 1)) as nat) % p,
{
    let q = p - 1;
    lemma_mod_bound(e, q);
    lemma_mod_twice(e, q);
    if e >= 0 {
        lemma_fermat_exponent(g, p, e as nat, (e % q) as nat);
    } else {
        // the inverse of g is g^(p-2)
        let w = pow(g, (p - 2) as nat) % p;
        lemma_mod_bound(pow(g, (p - 2) as nat), p);
        lemma_fermat_power_of_order(g, p, 1);
        lemma_pow_adds(g, 1, (p - 2) as nat);
        lemma_pow1(g);
        lemma_mul_mod_noop_right(g, pow(g, (p - 2) as nat), p);
        lemma_small_mod(1, p as nat);
        assert(1 * ((p - 1) as nat) == 1 + (p - 2) as nat);
        lemma_inv_unique(g, p, w);
        // (g^(p-2))^(-e) = g^((p-2)(-e)), and (p-2)(-e) = e (mod p - 1)
        let ne = (-e) as nat;
        lemma_pow_mod_noop(pow(g, (p - 2) as nat), ne, p);
        lemma_pow_multiplies(g, (p - 2) as nat, ne);
        let big = ((p - 2) as nat) * ne;
        assert(big == q * (-e) + e) by (nonlinear_arith) requires big == (p - 2) * (-e), q == p - 1, e < 0;
        lemma_mod_multiples_vanish(-e, e, q);
        lemma_fermat_exponent(g, p, big, (e % q) as nat);
    }
}

/// No power of a value that the prime `p` does not divide is divisible by `p`.
pub proof fn lemma_unit_pow(g: int, e: nat, p: int)
    requires
        spec_is_prime(p),
        g % p != 0,
    ensures
        pow(g, e) % p != 0,
    decreases e,
{
    let b = g % p;
    lemma_mod_bound(g, p);
    lemma_pow_mod_noop(g, e, p);
    if e == 0 {
        lemma_pow0(b);
        lemma_small_mod(1, p as nat);
    } else {
        let j = (e - 1) as nat;
        lemma_unit_pow(g, j, p);
        lemma_pow_mod_noop(g, j, p);
        lemma_pow_adds(b, j, 1);
        lemma_pow1(b);
        if b > 0 {
            lemma_pow_positive(b, j);
        }
        if pow(b, e) % p == 0 {
            lemma_euclid_prime(p, pow(b, j), b);
            lemma_small_mod(b as nat, p as nat);
        }
    }
}

} // verus!
