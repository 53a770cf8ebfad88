//! Steps shared by the playbooks: the discrete logarithm by baby-step
//! giant-step with the giant factor `(g^m)^-1 mod p`, and the factorization of
//! an RSA modulus into two distinct primes.
use std::collections::HashMap;
use vstd::prelude::*;
use vstd::arithmetic::div_mod::*;
use vstd::arithmetic::power::*;
use crate::analysis::bsgs::{baby_val, first_index, in_baby, is_ceil_sqrt};
use crate::trace::Table;
use crate::error::{CalcError, CalcResult};
use crate::text::{dec, int_text, push_int, push_str, uint_text};
use crate::math::{
    MOD_LIMIT, TRIAL_LIMIT, abs, coprime_mod, factorize, gcd, inv_error, inv_mod, is_factorization, is_isqrt,
    isqrt, lemma_coprime_prime, lemma_gcd_mod, lemma_inv_mod, mod_inv, mod_pow, rem_euclid, spec_gcd, spec_is_prime,
    spec_mod_pow,
};
use crate::algorithms::rsa_signature::lemma_rsa_signature_verifies;
use crate::fermat::{lemma_fermat_exponent, lemma_unit_pow};

verus! {

broadcast use vstd::std_specs::hash::group_hash_axioms;

/// `m = ceil(sqrt(p - 1))` for a prime `p`.
pub open spec fn pb_m(p: int) -> int {
    choose|m: int| #[trigger] is_ceil_sqrt(p - 1, m)
}

/// The giant-step factor `(g^m mod p)^-1 mod p`.
pub open spec fn pb_factor(g: int, p: int) -> int {
    inv_mod(pow(g, pb_m(p) as nat) % p, p)
}

/// The giant step `target · factor^i mod p`.
pub open spec fn pb_giant(g: int, p: int, target: int, i: int) -> int {
    (target * pow(pb_factor(g, p), i as nat)) % p
}

/// Giant step `i < m` is the first one that meets a baby step.
pub open spec fn pb_hit(g: int, p: int, target: int, i: int) -> bool {
    &&& 0 <= i < pb_m(p)
    &&& in_baby(g, p, pb_m(p), pb_giant(g, p, target, i))
    &&& forall|k: int| 0 <= k < i ==> !in_baby(g, p, pb_m(p), #[trigger] pb_giant(g, p, target, k))
}

/// The search finds a match.
pub open spec fn pb_found(g: int, p: int, target: int) -> bool {
    exists|i: int| #[trigger] pb_hit(g, p, target, i)
}

/// The first giant step `i` that meets a baby step.
pub open spec fn pb_i(g: int, p: int, target: int) -> int {
    choose|i: int| #[trigger] pb_hit(g, p, target, i)
}

/// The exponent `j` of the baby step that giant step `pb_i` meets.
pub open spec fn pb_j(g: int, p: int, target: int) -> int {
    choose|j: int| #[trigger] first_index(g, p, pb_giant(g, p, target, pb_i(g, p, target)), j)
}

/// The exponent the search reads off: `(i m + j) mod (p - 1)` for the first
/// giant step `i` that meets baby step `j`.
pub open spec fn pb_log(g: int, p: int, target: int) -> int {
    (pb_i(g, p, target) * pb_m(p) + pb_j(g, p, target)) % (p - 1)
}

/// The line that reports the hit of the search for `target`: the giant step
/// `i`, the baby step `j` and, after `label`, the exponent read off.
pub open spec fn hit_line(label: Seq<char>, g: int, p: int, target: int) -> Seq<char> {
    "Treffer bei i = "@ + dec(pb_i(g, p, target)) + ", j = "@ + dec(pb_j(g, p, target)) + label
        + dec(pb_log(g, p, target))
}

/// The line that shows the search bound `m`.
pub open spec fn bound_line(p: int) -> Seq<char> {
    "m = ⌈√(p − 1)⌉ = "@ + dec(pb_m(p))
}

/// The message when `g^m` has no inverse modulo `p`.
pub open spec fn pb_factor_error(g: int, p: int) -> Seq<char> {
    inv_error(pow(g, pb_m(p) as nat) % p, p)
}

/// The giant factor exists: `g^m` is invertible modulo `p`.
pub open spec fn pb_factor_ok(g: int, p: int) -> bool {
    coprime_mod(pow(g, pb_m(p) as nat) % p, p)
}

/// The baby steps `g^j mod p` for `j < m`, each value mapped to its first exponent.
pub open spec fn baby_ok(baby: Map<i128, i128>, g: int, p: int, m: int) -> bool {
    &&& forall|v: i128| #[trigger]
        baby.contains_key(v) ==> 0 <= baby[v] < m && first_index(g, p, v as int, baby[v] as int)
    &&& forall|k: int| 0 <= k < m ==> #[trigger] baby.contains_key(baby_val(g, p, k) as i128)
    &&& forall|k: int| 0 <= k < m ==> 0 <= #[trigger] baby_val(g, p, k) < p
}

/// The distinct values of the baby steps `g^j mod p` for `j < m`.
pub open spec fn baby_values(g: int, p: int, m: int) -> Set<i128> {
    Set::new(|v: i128| in_baby(g, p, m, v as int))
}

/// Walking up from `m`, some `m' >= m` is the ceiling square root of `v`.
proof fn lemma_ceil_sqrt_from(v: int, m: int)
    requires
        m >= 1,
        (m - 1) * (m - 1) < v,
    ensures
        exists|k: int| #[trigger] is_ceil_sqrt(v, k),
    decreases v - m,
{
    assert(m - 1 <= (m - 1) * (m - 1)) by (nonlinear_arith) requires m >= 1;
    if v <= m * m {
        assert(is_ceil_sqrt(v, m));
    } else {
        assert(m <= m * m) by (nonlinear_arith) requires m >= 1;
        lemma_ceil_sqrt_from(v, m + 1);
    }
}

/// The search bound of a prime is its ceiling square root of `p - 1`.
proof fn lemma_pb_m(p: int)
    requires
        spec_is_prime(p),
    ensures
        is_ceil_sqrt(p - 1, pb_m(p)),
        pb_m(p) >= 1,
{
    lemma_ceil_sqrt_from(p - 1, 1);
    let m = pb_m(p);
    assert(is_ceil_sqrt(p - 1, m));
    if m == 0 {
        assert(m * m == 0);
    }
}

/// When giant step `i0` meets a baby step, some giant step is the first to meet one.
proof fn lemma_first_hit(g: int, p: int, target: int, i0: int)
    requires
        0 <= i0 < pb_m(p),
        in_baby(g, p, pb_m(p), pb_giant(g, p, target, i0)),
    ensures
        pb_found(g, p, target),
    decreases i0,
{
    if forall|k: int| 0 <= k < i0 ==> !in_baby(g, p, pb_m(p), #[trigger] pb_giant(g, p, target, k)) {
        assert(pb_hit(g, p, target, i0));
    } else {
        let k = choose|k: int| 0 <= k < i0 && in_baby(g, p, pb_m(p), #[trigger] pb_giant(g, p, target, k));
        lemma_first_hit(g, p, target, k);
    }
}

/// The search finds every power of `g`: for a prime `p`, `g` not divisible by
/// `p` and `h = g^x (mod p)`, some giant step meets a baby step.
pub proof fn lemma_pb_finds_powers(g: int, p: int, h: int, x: nat)
    requires
        spec_is_prime(p),
        g % p != 0,
        h % p == pow(g, x) % p,
    ensures
        pb_found(g, p, h),
{
    lemma_pb_m(p);
    let m = pb_m(p);
    let q = p - 1;
    let xr = (x as int % q) as nat;
    lemma_mod_bound(x as int, q);
    lemma_mod_twice(x as int, q);
    lemma_coprime_prime(g, p);
    lemma_fermat_exponent(g, p, x, xr);
    let i = xr as int / m;
    let j = xr as int % m;
    lemma_fundamental_div_mod(xr as int, m);
    lemma_mod_bound(xr as int, m);
    assert(0 <= i < m) by (nonlinear_arith)
        requires xr == m * i + j, 0 <= j < m, 0 <= xr < q, q <= m * m, m >= 1;
    let gm = pow(g, m as nat);
    let gg = gm % p;
    lemma_unit_pow(g, m as nat, p);
    lemma_mod_twice(gm, p);
    lemma_coprime_prime(gg, p);
    let f = inv_mod(gg, p);
    assert(f == pb_factor(g, p));
    lemma_inv_mod(gg, p);
    lemma_small_mod(1, p as nat);
    // g^x' = g^j · (g^m)^i
    lemma_pow_adds(g, (m * i) as nat, j as nat);
    assert(xr == (m * i) as nat + j as nat);
    lemma_pow_multiplies(g, m as nat, i as nat);
    assert(((m * i) as nat) == (m as nat) * (i as nat));
    // (g^m)^i · f^i = (g^m · f)^i = 1 (mod p)
    lemma_pow_distributes(gm, f, i as nat);
    lemma_mul_mod_noop_left(gm, f, p);
    lemma_pow_mod_noop(gm * f, i as nat, p);
    lemma1_pow(i as nat);
    let u = pow(gm, i as nat) * pow(f, i as nat);
    assert(u % p == 1);
    // h · f^i = g^j · u (mod p)
    let fi = pow(f, i as nat);
    let gx = pow(g, xr);
    lemma_mul_mod_noop_left(h, fi, p);
    lemma_mul_mod_noop_left(gx, fi, p);
    assert(gx * fi == pow(g, j as nat) * u) by (nonlinear_arith)
        requires gx == pow(g, (m * i) as nat) * pow(g, j as nat), pow(g, (m * i) as nat) == pow(gm, i as nat), u == pow(gm, i as nat) * fi;
    lemma_mul_mod_noop_right(pow(g, j as nat), u, p);
    assert(pow(g, j as nat) * 1 == pow(g, j as nat));
    assert(pb_giant(g, p, h, i) == baby_val(g, p, j));
    assert(in_baby(g, p, m, pb_giant(g, p, h, i)));
    lemma_first_hit(g, p, h, i);
}

/// `ceil(sqrt(p - 1))` for a prime `p`.
pub fn search_bound(p: i128) -> (m: i128)
    requires
        2 <= p <= MOD_LIMIT,
    ensures
        m == pb_m(p as int),
        is_ceil_sqrt(p - 1, m as int),
        1 <= m <= 0x1_0000_0001,
{
    let r0 = isqrt(p - 1);
    proof {
        assert(r0 <= 0x1_0000_0000) by (nonlinear_arith)
            requires 0 <= r0, r0 * r0 <= p - 1, p <= MOD_LIMIT;
    }
    let m = if r0 * r0 == p - 1 {
        r0
    } else {
        r0 + 1
    };
    proof {
        assert(is_ceil_sqrt(p - 1, m as int)) by (nonlinear_arith)
            requires
                is_isqrt(p - 1, r0 as int),
                p >= 2,
                m == (if r0 * r0 == p - 1 { r0 as int } else { r0 + 1 }),
        ;
        let c = pb_m(p as int);
        assert(is_ceil_sqrt(p - 1, c));
        assert(c == m) by (nonlinear_arith)
            requires is_ceil_sqrt(p - 1, c), is_ceil_sqrt(p - 1, m as int);
        assert(1 <= m <= 0x1_0000_0001) by (nonlinear_arith)
            requires is_ceil_sqrt(p - 1, m as int), p >= 2, r0 <= 0x1_0000_0000, m <= r0 + 1;
    }
    m
}

/// The baby steps `g^j mod p` for `j < m`, the first `j` kept for each value.
pub fn baby_table(g: i128, p: i128, m: i128) -> (baby: HashMap<i128, i128>)
    requires
        2 <= p <= MOD_LIMIT,
        (p - 1) * abs(g as int) <= i128::MAX,
        1 <= m <= 0x1_0000_0001,
    ensures
        baby_ok(baby@, g as int, p as int, m as int),
        baby@.dom() == baby_values(g as int, p as int, m as int),
{
    let mut baby: HashMap<i128, i128> = HashMap::new();
    let mut acc: i128 = 1;
    let mut j: i128 = 0;
    proof {
        lemma_pow0(g as int);
        lemma_small_mod(1, p as nat);
    }
    while j < m
        invariant
            2 <= p <= MOD_LIMIT,
            (p - 1) * abs(g as int) <= i128::MAX,
            1 <= m <= 0x1_0000_0001,
            0 <= j <= m,
            acc == baby_val(g as int, p as int, j as int),
            0 <= acc < p,
            forall|v: i128| #[trigger]
                baby@.contains_key(v) ==> 0 <= baby@[v] < j && first_index(
                    g as int,
                    p as int,
                    v as int,
                    baby@[v] as int,
                ),
            forall|k: int| 0 <= k < j ==> #[trigger] baby@.contains_key(baby_val(g as int, p as int, k) as i128),
            forall|k: int| 0 <= k < j ==> 0 <= #[trigger] baby_val(g as int, p as int, k) < p,
        decreases m - j,
    {
        if !baby.contains_key(&acc) {
            proof {
                assert forall|k: int| 0 <= k < j implies #[trigger] baby_val(g as int, p as int, k)
                    != acc by {
                    assert(baby@.contains_key(baby_val(g as int, p as int, k) as i128));
                }
            }
            baby.insert(acc, j);
        }
        proof {
            let ag = abs(g as int) as int;
            assert(-((p - 1) * ag) <= acc * g <= (p - 1) * ag) by (nonlinear_arith)
                requires 0 <= acc <= p - 1, ag >= 0, g == ag || g == -ag;
            lemma_mul_mod_noop_left(pow(g as int, j as nat), g as int, p as int);
            lemma_pow_adds(g as int, j as nat, 1);
            lemma_pow1(g as int);
        }
        acc = rem_euclid(acc * g, p);
        j += 1;
    }
    proof {
        assert forall|v: i128| #[trigger] baby@.dom().contains(v) == baby_values(
            g as int,
            p as int,
            m as int,
        ).contains(v) by {
            if baby@.contains_key(v) {
                let k = baby@[v] as int;
                assert(baby_val(g as int, p as int, k) == v as int);
                assert(in_baby(g as int, p as int, m as int, v as int));
            }
            if in_baby(g as int, p as int, m as int, v as int) {
                let k = choose|k: int| 0 <= k < m && #[trigger] baby_val(g as int, p as int, k)
                    == v as int;
                assert(baby@.contains_key(baby_val(g as int, p as int, k) as i128));
            }
        }
        assert(baby@.dom() =~= baby_values(g as int, p as int, m as int));
    }
    baby
}

/// The number of distinct baby steps.
pub fn baby_count(baby: &HashMap<i128, i128>) -> (n: usize)
    ensures
        n == baby@.len(),
{
    baby.len()
}

/// The first giant step `target · factor^i mod p` (`i < m`) that meets a baby
/// step, with that step's exponent.
pub fn giant_search(
    baby: &HashMap<i128, i128>,
    g: i128,
    p: i128,
    m: i128,
    factor: i128,
    target: i128,
) -> (r: Option<(i128, i128)>)
    requires
        2 <= p <= MOD_LIMIT,
        m == pb_m(p as int),
        1 <= m <= 0x1_0000_0001,
        factor == pb_factor(g as int, p as int),
        0 <= factor < p,
        baby_ok(baby@, g as int, p as int, m as int),
    ensures
        match r {
            Some((i, j)) => pb_hit(g as int, p as int, target as int, i as int) && first_index(
                g as int,
                p as int,
                pb_giant(g as int, p as int, target as int, i as int),
                j as int,
            ) && 0 <= i < m && 0 <= j < m,
            None => !pb_found(g as int, p as int, target as int),
        },
{
    let mut gamma = rem_euclid(target, p);
    let mut i: i128 = 0;
    proof {
        lemma_pow0(factor as int);
    }
    while i < m
        invariant
            2 <= p <= MOD_LIMIT,
            m == pb_m(p as int),
            1 <= m <= 0x1_0000_0001,
            factor == pb_factor(g as int, p as int),
            0 <= factor < p,
            baby_ok(baby@, g as int, p as int, m as int),
            0 <= i <= m,
            gamma == pb_giant(g as int, p as int, target as int, i as int),
            0 <= gamma < p,
            forall|k: int|
                0 <= k < i ==> !in_baby(g as int, p as int, m as int, #[trigger] pb_giant(
                    g as int,
                    p as int,
                    target as int,
                    k,
                )),
        decreases m - i,
    {
        let ghost v = gamma as int;
        proof {
            if in_baby(g as int, p as int, m as int, v) {
                let k = choose|k: int| 0 <= k < m && #[trigger] baby_val(g as int, p as int, k) == v;
                assert(baby@.contains_key(baby_val(g as int, p as int, k) as i128));
            }
        }
        match baby.get(&gamma) {
            Some(jr) => {
                let j = *jr;
                proof {
                    assert(baby_val(g as int, p as int, j as int) == v);
                    assert(in_baby(g as int, p as int, m as int, v));
                }
                return Some((i, j));
            },
            None => {},
        }
        proof {
            lemma_mul_mod_noop_left(target as int * pow(factor as int, i as nat), factor as int, p as int);
            lemma_pow_adds(factor as int, i as nat, 1);
            lemma_pow1(factor as int);
            assert(target as int * pow(factor as int, i as nat) * factor == target as int * pow(
                factor as int,
                (i + 1) as nat,
            )) by (nonlinear_arith)
                requires pow(factor as int, (i + 1) as nat) == pow(factor as int, i as nat) * factor;
            crate::math::lemma_product_fits(gamma as int, factor as int);
            assert(gamma * factor >= 0) by (nonlinear_arith)
                requires 0 <= gamma, 0 <= factor;
        }
        gamma = rem_euclid(gamma * factor, p);
        i += 1;
    }
    proof {
        assert forall|i2: int| #[trigger] pb_hit(g as int, p as int, target as int, i2) implies false by {
            assert(!in_baby(g as int, p as int, m as int, pb_giant(g as int, p as int, target as int, i2)));
        }
    }
    None
}

/// A baby step that matches `v` leads to a first one that does.
proof fn lemma_first_index_exists(g: int, p: int, v: int, k: int)
    requires
        0 <= k,
        baby_val(g, p, k) == v,
    ensures
        exists|j: int| 0 <= j <= k && #[trigger] first_index(g, p, v, j),
    decreases k,
{
    if exists|k2: int| 0 <= k2 < k && #[trigger] baby_val(g, p, k2) == v {
        let k2 = choose|k2: int| 0 <= k2 < k && #[trigger] baby_val(g, p, k2) == v;
        lemma_first_index_exists(g, p, v, k2);
    } else {
        assert(first_index(g, p, v, k));
    }
}

/// The logarithm that the search reads off is correct: for a prime `p`, a base
/// `g` prime to `p` whose giant factor exists, and a found target, `g^x = target (mod p)`.
pub proof fn lemma_pb_log_correct(g: int, p: int, target: int)
    requires
        spec_is_prime(p),
        coprime_mod(g, p),
        pb_factor_ok(g, p),
        pb_found(g, p, target),
    ensures
        0 <= pb_log(g, p, target) < p - 1 || p == 2,
        pb_log(g, p, target) >= 0,
        pow(g, pb_log(g, p, target) as nat) % p == target % p,
{
    let m = pb_m(p);
    let i = choose|i: int| #[trigger] pb_hit(g, p, target, i);
    let v = pb_giant(g, p, target, i);
    let k = choose|k: int| 0 <= k < m && #[trigger] baby_val(g, p, k) == v;
    lemma_first_index_exists(g, p, v, k);
    let j = choose|j: int| #[trigger] first_index(g, p, v, j);
    let q = p - 1;
    let gm = pow(g, m as nat) % p;
    let f = pb_factor(g, p);
    lemma_inv_mod(gm, p);
    assert(m * i >= 0) by (nonlinear_arith) requires m >= 0, i >= 0;
    let mi = (m * i) as nat;
    assert(first_index(g, p, v, j));
    // g^j · g^(m i) = target · f^i · (g^m)^i = target · (f g^m)^i = target (mod p)
    let t = target * pow(f, i as nat);
    let a = pow(g, mi);
    assert((m as nat) * (i as nat) == mi);
    lemma_pow_multiplies(g, m as nat, i as nat);
    lemma_pow_mod_noop(pow(g, m as nat), i as nat, p);
    assert(a % p == pow(gm, i as nat) % p);
    assert(pow(g, j as nat) % p == t % p);
    lemma_mul_mod_noop_left(pow(g, j as nat), a, p);
    lemma_mul_mod_noop_left(t, a, p);
    assert((pow(g, j as nat) * a) % p == (t * a) % p);
    lemma_mul_mod_noop_right(t, a, p);
    lemma_mul_mod_noop_right(t, pow(gm, i as nat), p);
    assert((t * a) % p == (t * pow(gm, i as nat)) % p);
    lemma_pow_distributes(f, gm, i as nat);
    assert(t * pow(gm, i as nat) == target * pow(f * gm, i as nat)) by (nonlinear_arith)
        requires t == target * pow(f, i as nat), pow(f * gm, i as nat) == pow(f, i as nat) * pow(gm, i as nat);
    assert(f * gm == gm * f) by (nonlinear_arith);
    lemma_small_mod(1, p as nat);
    assert((gm * f) % p == 1);
    assert((f * gm) % p == 1);
    lemma_pow_mod_noop(f * gm, i as nat, p);
    lemma1_pow(i as nat);
    lemma_small_mod(1, p as nat);
    assert(pow(f * gm, i as nat) % p == 1);
    lemma_mul_mod_noop_right(target, pow(f * gm, i as nat), p);
    lemma_pow_adds(g, j as nat, mi);
    assert(pow(g, (j as nat) + mi) % p == target % p);
    let x = i * m + j;
    assert(x == (j as nat) + mi) by (nonlinear_arith) requires x == i * m + j, mi == m * i, j >= 0;
    lemma_mod_bound(x, q);
    lemma_mod_twice(x, q);
    lemma_fermat_exponent(g, p, (j as nat) + mi, (x % q) as nat);
}

/// With both logarithms found, the two Diffie-Hellman keys agree: for a prime
/// `p` and a base `g` prime to `p` whose giant factor exists, `a = log α` and
/// `b = log β` give `β^a = α^b (mod p)`.
pub proof fn lemma_pb_keys_agree(g: int, p: int, alpha: int, beta: int)
    requires
        spec_is_prime(p),
        coprime_mod(g, p),
        pb_factor_ok(g, p),
        pb_found(g, p, alpha),
        pb_found(g, p, beta),
    ensures
        pow(beta, pb_log(g, p, alpha) as nat) % p == pow(alpha, pb_log(g, p, beta) as nat) % p,
{
    let a = pb_log(g, p, alpha);
    let b = pb_log(g, p, beta);
    lemma_pb_log_correct(g, p, alpha);
    lemma_pb_log_correct(g, p, beta);
    let an = a as nat;
    let bn = b as nat;
    // β^a = (g^b)^a = g^(a b) = (g^a)^b = α^b (mod p)
    lemma_pow_mod_noop(beta, an, p);
    lemma_pow_mod_noop(pow(g, bn), an, p);
    lemma_pow_multiplies(g, bn, an);
    lemma_pow_mod_noop(alpha, bn, p);
    lemma_pow_mod_noop(pow(g, an), bn, p);
    lemma_pow_multiplies(g, an, bn);
    assert(bn * an == an * bn) by (nonlinear_arith);
}

/// The first hit is unique.
pub proof fn lemma_pb_hit_unique(g: int, p: int, target: int, i: int)
    requires
        pb_hit(g, p, target, i),
    ensures
        forall|i2: int| #[trigger] pb_hit(g, p, target, i2) ==> i2 == i,
{
    assert forall|i2: int| #[trigger] pb_hit(g, p, target, i2) implies i2 == i by {
        if i2 < i {
            assert(!in_baby(g, p, pb_m(p), pb_giant(g, p, target, i2)));
        } else if i2 > i {
            assert(!in_baby(g, p, pb_m(p), pb_giant(g, p, target, i)));
        }
    }
}

/// The first exponent of a value is unique.
pub proof fn lemma_first_index_unique(g: int, p: int, v: int, j: int)
    requires
        first_index(g, p, v, j),
    ensures
        forall|j2: int| #[trigger] first_index(g, p, v, j2) ==> j2 == j,
{
    assert forall|j2: int| #[trigger] first_index(g, p, v, j2) implies j2 == j by {
        if j2 < j {
            assert(baby_val(g, p, j2) != v);
        } else if j2 > j {
            assert(baby_val(g, p, j) != v);
        }
    }
}

/// The giant factor `(g^m mod p)^-1 mod p`.
pub fn giant_factor(g: i128, p: i128, m: i128) -> (r: CalcResult<i128>)
    requires
        2 <= p <= MOD_LIMIT,
        m == pb_m(p as int),
        1 <= m,
    ensures
        pb_factor_ok(g as int, p as int) ==> r == Ok::<i128, CalcError>(
            pb_factor(g as int, p as int) as i128,
        ),
        !pb_factor_ok(g as int, p as int) ==> (r matches Err(CalcError::KeinInverses(s)) && s@
            == pb_factor_error(g as int, p as int)),
        r matches Ok(f) ==> 0 <= f < p,
{
    let gm = match mod_pow(g, m, p) {
        Ok(v) => v,
        Err(e) => return Err(e),
    };
    mod_inv(gm, p)
}

/// The discrete logarithm that the search finds, reduced modulo `p - 1`.
pub fn dlog(
    baby: &HashMap<i128, i128>,
    g: i128,
    p: i128,
    m: i128,
    factor: i128,
    target: i128,
) -> (r: Option<(i128, i128, i128)>)
    requires
        2 <= p <= MOD_LIMIT,
        m == pb_m(p as int),
        1 <= m <= 0x1_0000_0001,
        factor == pb_factor(g as int, p as int),
        0 <= factor < p,
        baby_ok(baby@, g as int, p as int, m as int),
    ensures
        pb_found(g as int, p as int, target as int) ==> (r matches Some((i, j, x)) && x
            == pb_log(g as int, p as int, target as int) && 0 <= x < p - 1 && i == pb_i(
            g as int,
            p as int,
            target as int,
        ) && j == pb_j(g as int, p as int, target as int)),
        !pb_found(g as int, p as int, target as int) ==> r is None,
{
    match giant_search(baby, g, p, m, factor, target) {
        Some((i, j)) => {
            proof {
                lemma_pb_hit_unique(g as int, p as int, target as int, i as int);
                lemma_first_index_unique(
                    g as int,
                    p as int,
                    pb_giant(g as int, p as int, target as int, i as int),
                    j as int,
                );
            }
            assert(i * m <= 0x1_0000_0001 * 0x1_0000_0001) by (nonlinear_arith)
                requires 0 <= i <= 0x1_0000_0001, 0 <= m <= 0x1_0000_0001;
            assert(i * m >= 0) by (nonlinear_arith)
                requires 0 <= i, 0 <= m;
            let x = rem_euclid(i * m + j, p - 1);
            Some((i, j, x))
        },
        None => None,
    }
}

/// An RSA modulus factors into two distinct primes `p < q`.
pub open spec fn two_primes(n: int, p: int, q: int) -> bool {
    spec_is_prime(p) && spec_is_prime(q) && p < q && p * q == n
}

/// The prime factorization of `n`, and the two primes `p < q` when `n = p · q`.
pub fn rsa_factors(n: i128) -> (r: (Vec<(i128, u32)>, Option<(i128, i128)>))
    requires
        1 < n <= TRIAL_LIMIT,
    ensures
        is_factorization(r.0@, n as int),
        match r.1 {
            Some((p, q)) => two_primes(n as int, p as int, q as int) && r.0@ == seq![
                (p, 1u32),
                (q, 1u32),
            ],
            None => forall|p: int, q: int| !#[trigger] two_primes(n as int, p, q),
        },
{
    let fs = factorize(n);
    if fs.len() != 2 || fs[0].1 != 1 || fs[1].1 != 1 {
        proof {
            assert forall|p: int, q: int| !#[trigger] two_primes(n as int, p, q) by {
                if two_primes(n as int, p, q) {
                    crate::math::lemma_two_prime_factorization(n as int, p, q, fs@);
                }
            }
        }
        return (fs, None);
    }
    proof {
        assert(is_factorization(fs@, n as int));
        lemma_pow1(fs@[0].0 as int);
        lemma_pow1(fs@[1].0 as int);
        assert(crate::math::pow_from(fs@, 2) == 1);
        assert(crate::math::pow_from(fs@, 1) == fs@[1].0 as int);
        assert(spec_is_prime(fs@[0].0 as int) && spec_is_prime(fs@[1].0 as int));
        assert(fs@[0].0 < fs@[1].0);
    }
    let p = fs[0].0;
    let q = fs[1].0;
    assert(fs@ =~= seq![(p, 1u32), (q, 1u32)]);
    (fs, Some((p, q)))
}

/// The private exponent `d = e^-1 mod phi`, with the error that names
/// `gcd(e, phi)` when it is not 1.
pub fn private_exponent(e: i128, phi: i128) -> (r: CalcResult<i128>)
    requires
        e != i128::MIN,
        2 <= phi,
    ensures
        spec_gcd(abs(e as int), phi as nat) != 1 ==> (r matches Err(CalcError::UngueltigeEingabe(s))
            && s@ == "gcd(e, phi(n)) = "@ + dec(spec_gcd(abs(e as int), phi as nat) as int) + " ≠ 1"@),
        spec_gcd(abs(e as int), phi as nat) == 1 ==> r == Ok::<i128, CalcError>(
            inv_mod(e as int, phi as int) as i128,
        ) && ((e as int) * inv_mod(e as int, phi as int)) % (phi as int) == 1 && 0 <= inv_mod(
            e as int,
            phi as int,
        ) < phi,
{
    let g = gcd(e, phi);
    if g != 1 {
        let mut m = String::from_str("gcd(e, phi(n)) = ");
        push_int(&mut m, g);
        push_str(&mut m, " ≠ 1");
        return Err(CalcError::UngueltigeEingabe(m));
    }
    proof {
        lemma_gcd_mod(e as int, phi as int);
        lemma_inv_mod(e as int, phi as int);
        lemma_small_mod(1, phi as nat);
    }
    mod_inv(e, phi)
}

/// Rust's remainder `a % n` (sign of `a`) for `n > 0`.
pub fn trunc_rem(a: i128, n: i128) -> (r: i128)
    requires
        n > 0,
        a > i128::MIN,
    ensures
        r == crate::math::trem(a as int, n as int),
{
    proof {
        crate::math::lemma_trunc(a as int, n as int);
    }
    if a >= 0 {
        a % n
    } else {
        -((-a) % n)
    }
}

/// The factor table of `n = p · q`: one row per prime, each with exponent 1.
pub open spec fn two_prime_table(tb: Table, p: int, q: int) -> bool {
    tb.header_view() == seq!["Primfaktor"@, "Exponent"@] && tb.rows_view() == seq![
        seq![dec(p), dec(1)],
        seq![dec(q), dec(1)],
    ]
}

/// The line that names the factors of `n = p · q`.
pub open spec fn factor_line(p: int, q: int) -> Seq<char> {
    "p = "@ + dec(p) + ",  q = "@ + dec(q) + ",  n = p · q = "@ + dec(p * q)
}

/// The lines of the step that derives `d = e^-1 mod phi`.
pub open spec fn private_key_lines(e: int, phi: int) -> Seq<Seq<char>> {
    let d = inv_mod(e, phi);
    seq![
        "gcd(e, phi(n)) = 1 ✓"@,
        "d = e^(-1) mod phi(n) = "@ + dec(e) + "^(-1) mod "@ + dec(phi) + " = "@ + dec(d),
        "Probe: e · d mod phi(n) = "@ + dec(crate::math::trem(e * d, phi)),
    ]
}

/// The factor table of `n = p · q` with its headers.
pub fn two_prime_factor_table(fs: &Vec<(i128, u32)>, p: i128, q: i128) -> (tb: Table)
    requires
        fs@ == seq![(p, 1u32), (q, 1u32)],
    ensures
        two_prime_table(tb, p as int, q as int),
{
    let headers: Vec<String> = vec![String::from_str("Primfaktor"), String::from_str("Exponent")];
    let rows = factor_rows(fs);
    let tb = Table { headers, rows };
    assert(tb.header_view() =~= seq!["Primfaktor"@, "Exponent"@]);
    assert(tb.rows_view() =~= seq![seq![dec(p as int), dec(1)], seq![dec(q as int), dec(1)]]);
    tb
}

/// The rows `(prime, exponent)` of a factorization table.
pub fn factor_rows(fs: &Vec<(i128, u32)>) -> (rows: Vec<Vec<String>>)
    ensures
        rows@.len() == fs@.len(),
        forall|k: int|
            0 <= k < fs@.len() ==> (#[trigger] rows@[k])@.map_values(|c: String| c@) == seq![
                dec(fs@[k].0 as int),
                dec(fs@[k].1 as int),
            ],
{
    let mut rows: Vec<Vec<String>> = Vec::new();
    let mut k: usize = 0;
    while k < fs.len()
        invariant
            k <= fs@.len(),
            rows@.len() == k,
            forall|j: int|
                0 <= j < k ==> (#[trigger] rows@[j])@.map_values(|c: String| c@) == seq![
                    dec(fs@[j].0 as int),
                    dec(fs@[j].1 as int),
                ],
        decreases fs@.len() - k,
    {
        let (p, e) = fs[k];
        let row: Vec<String> = vec![int_text(p), uint_text(e as u128)];
        proof {
            assert(row@.map_values(|c: String| c@) =~= seq![dec(p as int), dec(e as int)]);
        }
        rows.push(row);
        k += 1;
    }
    rows
}

/// The plaintext that the broken key recovers encrypts back to the cipher text:
/// for `n = p·q` with different primes, `e >= 0` prime to `(p-1)(q-1)`,
/// `d = e^-1 mod (p-1)(q-1)` and `y` in `[0, n)`, `(y^d mod n)^e mod n = y`.
pub proof fn lemma_recovered_plaintext(n: int, e: int, y: int, p: int, q: int)
    requires
        two_primes(n, p, q),
        e >= 0,
        spec_gcd(abs(e), ((p - 1) * (q - 1)) as nat) == 1,
        0 <= y < n,
    ensures
        spec_mod_pow(spec_mod_pow(y, inv_mod(e, (p - 1) * (q - 1)), n), e, n) == y,
{
    let phi = (p - 1) * (q - 1);
    assert(phi >= 2) by (nonlinear_arith) requires p >= 2, q > p, phi == (p - 1) * (q - 1);
    lemma_gcd_mod(e, phi);
    lemma_inv_mod(e, phi);
    lemma_small_mod(1, phi as nat);
    let d = inv_mod(e, phi);
    lemma_rsa_signature_verifies(p, q, e, d, y);
}

} // verus!
