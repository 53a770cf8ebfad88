//! Paillier cryptosystem with generator `g = n + 1`.
use vstd::prelude::*;
use vstd::arithmetic::div_mod::*;
use vstd::arithmetic::power::*;
use crate::fermat::{
    lemma_fermat_power_of_order, lemma_lift_to_square, lemma_one_plus_pow, lemma_two_squares_divide,
};
use crate::error::{CalcError, CalcResult};
use crate::math::{
    MOD_LIMIT, TRIAL_LIMIT, abs, coprime_mod, gcd, inv_error, inv_mod, is_prime, lemma_common_divisor_divides_gcd,
    lemma_coprime_prime, lemma_gcd_divides, lemma_inv_mod, mod_inv, mod_pow, mod_pow_defined,
    rem_euclid, spec_gcd, spec_is_prime, spec_mod_pow,
};
use crate::text::{Piece, dec, pair_text, pair_view, pieces_view, power_line, push_int, push_str};
use crate::trace::Trace;

verus! {

/// Largest `n` with `n² <= MOD_LIMIT`: products of values reduced modulo `n²`
/// stay in `i128`.
pub const PAILLIER_LIMIT: i128 = 3611622602;

/// Least common multiple of positive `a` and `b`: `(a / gcd(a, b)) * b`.
pub open spec fn spec_lcm(a: int, b: int) -> int {
    if a == 0 || b == 0 {
        0
    } else {
        (a / (spec_gcd(abs(a), abs(b)) as int)) * b
    }
}

/// Paillier's L function `L(u) = (u - 1) / n`.
pub open spec fn ell_spec(u: int, n: int) -> int {
    (u - 1) / n
}

/// The private key `(lambda, mu)` derived from `p` and `q`.
pub open spec fn paillier_private(p: int, q: int) -> (int, int) {
    let n = p * q;
    let lambda = spec_lcm(p - 1, q - 1);
    let u = spec_mod_pow(n + 1, lambda, n * n);
    (lambda, inv_mod(ell_spec(u, n), n))
}

/// `g^lambda mod n^2` is 1 modulo `n` (so that L applies) and `L(...)` is invertible mod `n`.
pub open spec fn paillier_key_ok(p: int, q: int) -> bool {
    let n = p * q;
    let lambda = spec_lcm(p - 1, q - 1);
    let u = spec_mod_pow(n + 1, lambda, n * n);
    (u - 1) % n == 0 && coprime_mod(ell_spec(u, n), n)
}

/// The ciphertext `g^m * r^n mod n^2`.
pub open spec fn paillier_cipher(n: int, g: int, m: int, r: int) -> int {
    (spec_mod_pow(g, m, n * n) * spec_mod_pow(r, n, n * n)) % (n * n)
}

/// The plaintext `L(c^lambda mod n^2) * mu mod n`.
pub open spec fn paillier_plain(n: int, lambda: int, mu: int, c: int) -> int {
    (ell_spec(spec_mod_pow(c, lambda, n * n), n) * mu) % n
}

/// The text lines of the four key generation steps.
pub open spec fn keygen_lines(p: int, q: int) -> Seq<Seq<Seq<char>>> {
    let n = p * q;
    let lambda = spec_lcm(p - 1, q - 1);
    let u = spec_mod_pow(n + 1, lambda, n * n);
    seq![
        seq!["n = p · q = "@ + dec(n), "n² = "@ + dec(n * n)],
        seq!["λ = lcm("@ + dec(p - 1) + ", "@ + dec(q - 1) + ") = "@ + dec(lambda)],
        seq!["g = n + 1 = "@ + dec(n + 1)],
        seq![
            "g^λ mod n² = "@ + dec(u),
            "L(g^λ mod n²) = (u − 1) / n = "@ + dec(ell_spec(u, n)),
            "μ = L(...)⁻¹ mod n = "@ + dec(paillier_private(p, q).1),
        ],
    ]
}

/// The text lines of the two encryption steps.
pub open spec fn encrypt_lines(n: int, g: int, m: int, r: int) -> Seq<Seq<Seq<char>>> {
    seq![
        seq![
            power_line("g^m mod n² = "@, g, m, n * n, spec_mod_pow(g, m, n * n)),
            power_line("r^n mod n² = "@, r, n, n * n, spec_mod_pow(r, n, n * n)),
        ],
        seq!["c = g^m · r^n mod n² = "@ + dec(paillier_cipher(n, g, m, r))],
    ]
}

/// The text lines of the three decryption steps.
pub open spec fn decrypt_lines(n: int, lambda: int, mu: int, c: int) -> Seq<Seq<Seq<char>>> {
    let u = spec_mod_pow(c, lambda, n * n);
    let l = ell_spec(u, n);
    seq![
        seq![power_line("c^λ mod n² = "@, c, lambda, n * n, u)],
        seq!["L(c^λ mod n²) = ("@ + dec(u) + " − 1) / "@ + dec(n) + " = "@ + dec(l)],
        seq![
            "m = L(...) · μ mod n = "@ + dec(l) + " · "@ + dec(mu) + " mod "@ + dec(n) + " = "@ + dec(
                paillier_plain(n, lambda, mu, c),
            ),
        ],
    ]
}

pub(crate) fn lcm(a: i128, b: i128) -> (l: i128)
    requires
        1 <= a <= TRIAL_LIMIT,
        1 <= b <= TRIAL_LIMIT,
        a * b <= i128::MAX,
    ensures
        l == spec_lcm(a as int, b as int),
        1 <= l <= a * b,
{
    let g = gcd(a, b);
    proof {
        lemma_gcd_divides(a as nat, b as nat);
        lemma_fundamental_div_mod(a as int, g as int);
        assert(a / g >= 1 && a / g <= a) by (nonlinear_arith) requires g >= 1, a % g == 0, a >= 1, a == g * (a / g) + a % g;
        assert((a / g) * b <= a * b) by (nonlinear_arith) requires 1 <= a / g <= a, b >= 1;
        assert((a / g) * b >= 1) by (nonlinear_arith) requires 1 <= a / g, b >= 1;
    }
    (a / g) * b
}

fn ell(u: i128, n: i128) -> (r: CalcResult<i128>)
    requires
        n > 1,
        u >= 0,
    ensures
        (u - 1) % (n as int) != 0 ==> (r matches Err(CalcError::Bereich(s)) && s@
            == "L(u): Voraussetzung u ≡ 1 mod n verletzt"@),
        (u - 1) % (n as int) == 0 ==> r == Ok::<i128, CalcError>(ell_spec(u as int, n as int) as i128)
            && u >= 1,
{
    if rem_euclid(u - 1, n) != 0 {
        return Err(CalcError::Bereich(String::from_str("L(u): Voraussetzung u ≡ 1 mod n verletzt")));
    }
    proof {
        if u < 1 {
            assert(u == 0);
            lemma_small_mod((n - 1) as nat, n as nat);
            assert(-1 == (-1) * n + (n - 1));
            crate::math::lemma_mod_unique(-1, n as int, -1, n - 1);
        }
    }
    Ok((u - 1) / n)
}

/// `lcm(a, b)` is a multiple of both `a` and `b`.
proof fn lemma_lcm_multiple(a: int, b: int)
    requires
        a >= 1,
        b >= 1,
    ensures
        spec_lcm(a, b) >= 1,
        exists|ka: nat| #[trigger] (a * ka) == spec_lcm(a, b),
        exists|kb: nat| #[trigger] (b * kb) == spec_lcm(a, b),
{
    let g = spec_gcd(a as nat, b as nat) as int;
    lemma_gcd_divides(a as nat, b as nat);
    lemma_fundamental_div_mod(a, g);
    lemma_fundamental_div_mod(b, g);
    let a1 = a / g;
    let b1 = b / g;
    lemma_div_pos_is_pos(a, g);
    lemma_div_pos_is_pos(b, g);
    assert(a1 * b == a * b1) by (nonlinear_arith) requires a == g * a1, b == g * b1;
    assert(a1 >= 1 && b1 >= 1) by (nonlinear_arith) requires a == g * a1, b == g * b1, a >= 1, b >= 1, g > 0, a1 >= 0, b1 >= 0;
    assert(spec_lcm(a, b) == a1 * b);
    assert(a1 * b >= 1) by (nonlinear_arith) requires a1 >= 1, b >= 1;
    assert(a * (b1 as nat) == spec_lcm(a, b));
    let l = spec_lcm(a, b);
    assert(b * a1 == l) by (nonlinear_arith) requires l == a1 * b;
    assert(b * (a1 as nat) == spec_lcm(a, b));
}

/// A value that the prime `p` does not divide, raised to `(p-1)·t·p`, is 1 modulo `p²`.
proof fn lemma_unit_power_square(r: int, p: int, t: nat)
    requires
        spec_is_prime(p),
        coprime_mod(r, p),
    ensures
        pow(r, (t * ((p - 1) as nat)) * (p as nat)) % (p * p) == 1,
{
    let e = t * ((p - 1) as nat);
    lemma_fermat_power_of_order(r, p, t);
    lemma_lift_to_square(pow(r, e), p);
    lemma_pow_multiplies(r, e, p as nat);
}

/// `r^(λ·n) = 1 (mod n²)` for `r` prime to `n = p·q` and `λ` a common multiple of `p - 1` and `q - 1`.
proof fn lemma_carmichael_square(r: int, p: int, q: int, lambda: nat, ka: nat, kb: nat)
    requires
        spec_is_prime(p),
        spec_is_prime(q),
        p != q,
        coprime_mod(r, p),
        coprime_mod(r, q),
        lambda == (p - 1) * ka,
        lambda == (q - 1) * kb,
    ensures
        pow(r, lambda * ((p * q) as nat)) % ((p * q) * (p * q)) == 1,
{
    let n = (p * q) as nat;
    let e = lambda * n;
    let pp = p * p;
    let qq = q * q;
    let nn = (p * q) * (p * q);
    assert(n == p * q) by (nonlinear_arith) requires p >= 2, q >= 2, n == (p * q) as nat;
    assert(e == ((ka * (q as nat)) * ((p - 1) as nat)) * (p as nat)) by (nonlinear_arith)
        requires e == lambda * n, lambda == (p - 1) * ka, n == p * q;
    assert(e == ((kb * (p as nat)) * ((q - 1) as nat)) * (q as nat)) by (nonlinear_arith)
        requires e == lambda * n, lambda == (q - 1) * kb, n == p * q;
    lemma_unit_power_square(r, p, ka * (q as nat));
    lemma_unit_power_square(r, q, kb * (p as nat));
    let big = pow(r, e);
    assert(pp > 0 && qq > 0 && nn == pp * qq && nn == qq * pp) by (nonlinear_arith)
        requires pp == p * p, qq == q * q, nn == (p * q) * (p * q), p >= 2, q >= 2;
    lemma_mod_mod(big, pp, qq);
    lemma_mod_mod(big, qq, pp);
    let x = big % nn;
    lemma_mod_bound(big, nn);
    // x = 1 modulo p² and q², and 0 <= x < n²
    assert(x % pp == 1 && x % qq == 1);
    assert(x >= 1) by {
        if x == 0 {
            lemma_small_mod(0, pp as nat);
        }
    }
    lemma_sub_mod_noop(x, 1, pp);
    lemma_sub_mod_noop(x, 1, qq);
    lemma_small_mod(1, pp as nat);
    lemma_small_mod(1, qq as nat);
    lemma_small_mod(0, pp as nat);
    lemma_small_mod(0, qq as nat);
    assert((x - 1) % pp == 0 && (x - 1) % qq == 0);
    lemma_two_squares_divide(x - 1, p, q);
    lemma_small_mod((x - 1) as nat, nn as nat);
}

/// `(1 + k·n) mod n² = 1 + (k mod n)·n`, whose L value is `k mod n`.
proof fn lemma_one_plus_multiple(n: int, k: int)
    requires
        n >= 2,
        k >= 0,
    ensures
        (1 + k * n) % (n * n) == 1 + (k % n) * n,
        ell_spec(1 + (k % n) * n, n) == k % n,
{
    let nn = n * n;
    lemma_fundamental_div_mod(k, n);
    lemma_mod_bound(k, n);
    let h = k / n;
    let l = k % n;
    assert(1 + k * n == nn * h + (1 + l * n)) by (nonlinear_arith) requires k == n * h + l, nn == n * n;
    assert(0 <= 1 + l * n < nn) by (nonlinear_arith) requires 0 <= l < n, nn == n * n, n >= 2;
    assert(nn > 0);
    lemma_mod_multiples_vanish(h, 1 + l * n, nn);
    lemma_small_mod((1 + l * n) as nat, nn as nat);
    assert((1 + l * n - 1) == n * l) by (nonlinear_arith);
    lemma_div_multiples_vanish(l, n);
}

/// A value whose gcd with `n` is 1 is not a multiple of a prime factor of `n`.
proof fn lemma_coprime_factor(r: int, n: int, p: int)
    requires
        spec_is_prime(p),
        n > 0,
        n % p == 0,
        spec_gcd(abs(r), n as nat) == 1,
    ensures
        coprime_mod(r, p),
{
    lemma_coprime_prime(r, p);
    if r % p == 0 {
        let a = abs(r) as int;
        assert(a % p == 0) by {
            if r < 0 {
                lemma_mod_multiples_basic(-(r / p), p);
                lemma_fundamental_div_mod(r, p);
                assert(a == p * (-(r / p))) by (nonlinear_arith) requires a == -r, r == p * (r / p);
                assert(p * (-(r / p)) == (-(r / p)) * p) by (nonlinear_arith);
            }
        }
        lemma_common_divisor_divides_gcd(abs(r), n as nat, p);
        lemma_small_mod(1, p as nat);
    }
}

/// The two powers that decryption evaluates, for different primes `p`, `q`,
/// `n = p·q`, `λ = lcm(p-1, q-1)`, `m >= 0` and `r` prime to `p` and to `q`:
/// `g^λ = 1 + (λ mod n)·n` and `c^λ = 1 + (m·λ mod n)·n` modulo `n²`, where
/// `g = n + 1` and `c` is the cipher text of `m` with `r`.
pub proof fn lemma_decryption_powers(p: int, q: int, m: int, r: int)
    requires
        spec_is_prime(p),
        spec_is_prime(q),
        p != q,
        m >= 0,
        coprime_mod(r, p),
        coprime_mod(r, q),
    ensures
        spec_lcm(p - 1, q - 1) >= 1,
        spec_mod_pow(p * q + 1, spec_lcm(p - 1, q - 1), (p * q) * (p * q)) == 1 + (spec_lcm(
            p - 1,
            q - 1,
        ) % (p * q)) * (p * q),
        spec_mod_pow(paillier_cipher(p * q, p * q + 1, m, r), spec_lcm(p - 1, q - 1), (p * q) * (p
            * q)) == 1 + ((m * spec_lcm(p - 1, q - 1)) % (p * q)) * (p * q),
{
    let n = p * q;
    let nn = n * n;
    let g = n + 1;
    assert(n >= 6 && nn > 1) by (nonlinear_arith) requires n == p * q, p >= 2, q >= 2, p != q, nn == n * n;
    lemma_lcm_multiple(p - 1, q - 1);
    let lambda = spec_lcm(p - 1, q - 1);
    let ka = choose|ka: nat| #[trigger] ((p - 1) * ka) == lambda;
    let kb = choose|kb: nat| #[trigger] ((q - 1) * kb) == lambda;
    let ln = lambda as nat;
    lemma_one_plus_pow(n, ln);
    lemma_one_plus_multiple(n, lambda);
    // the randomiser part vanishes modulo n²
    lemma_carmichael_square(r, p, q, ln, ka, kb);
    let a = pow(g, m as nat);
    let b = pow(r, n as nat);
    let c = paillier_cipher(n, g, m, r);
    lemma_mul_mod_noop(a, b, nn);
    lemma_pow_mod_noop(a * b, ln, nn);
    lemma_pow_distributes(a, b, ln);
    lemma_pow_multiplies(g, m as nat, ln);
    lemma_pow_multiplies(r, n as nat, ln);
    assert((n as nat) * ln == ln * ((p * q) as nat)) by (nonlinear_arith) requires n == p * q, n >= 0;
    let ga = pow(g, (m as nat) * ln);
    let rb = pow(r, (n as nat) * ln);
    lemma_mul_mod_noop_right(ga, rb, nn);
    assert(spec_mod_pow(c, lambda, nn) == ga % nn);
    let k = m * lambda;
    assert(k >= 0) by (nonlinear_arith) requires m >= 0, lambda >= 1, k == m * lambda;
    assert((m as nat) * ln == k as nat);
    lemma_one_plus_pow(n, k as nat);
    lemma_one_plus_multiple(n, k);
}

/// The prime factors of `n = p·q` of a value whose gcd with `n` is 1 do not divide it.
pub proof fn lemma_prime_to_both(p: int, q: int, r: int)
    requires
        spec_is_prime(p),
        spec_is_prime(q),
        spec_gcd(abs(r), (p * q) as nat) == 1,
    ensures
        coprime_mod(r, p),
        coprime_mod(r, q),
{
    let n = p * q;
    assert(n > 0 && q * p == n) by (nonlinear_arith) requires n == p * q, p >= 2, q >= 2;
    lemma_mod_multiples_basic(q, p);
    lemma_mod_multiples_basic(p, q);
    lemma_coprime_factor(r, n, p);
    lemma_coprime_factor(r, n, q);
}

/// Paillier decryption undoes encryption: for different primes `p` and `q` whose
/// key exists, a message `m` in `[0, p·q)` and a randomiser `r` prime to `p·q`,
/// decrypting the cipher text with the private key gives `m`.
pub proof fn lemma_paillier_roundtrip(p: int, q: int, m: int, r: int)
    requires
        spec_is_prime(p),
        spec_is_prime(q),
        p != q,
        paillier_key_ok(p, q),
        0 <= m < p * q,
        spec_gcd(abs(r), (p * q) as nat) == 1,
    ensures
        paillier_plain(
            p * q,
            paillier_private(p, q).0,
            paillier_private(p, q).1,
            paillier_cipher(p * q, p * q + 1, m, r),
        ) == m,
{
    let n = p * q;
    let nn = n * n;
    assert(n >= 6) by (nonlinear_arith) requires n == p * q, p >= 2, q >= 2, p != q;
    lemma_prime_to_both(p, q, r);
    lemma_decryption_powers(p, q, m, r);
    let lambda = spec_lcm(p - 1, q - 1);
    let k = m * lambda;
    assert(k >= 0) by (nonlinear_arith) requires m >= 0, lambda >= 1, k == m * lambda;
    lemma_one_plus_multiple(n, lambda);
    lemma_one_plus_multiple(n, k);
    // the key: L(g^λ) = λ mod n, so μ = λ^-1 mod n
    let mu = paillier_private(p, q).1;
    lemma_mod_twice(lambda, n);
    assert(coprime_mod(lambda, n));
    assert(mu == inv_mod(lambda, n));
    lemma_inv_mod(lambda, n);
    // L(c^λ) · μ = m·λ·λ^-1 = m (mod n)
    lemma_mul_mod_noop_left(k, mu, n);
    assert(k * mu == m * (lambda * mu)) by (nonlinear_arith) requires k == m * lambda;
    lemma_mul_mod_noop_right(m, lambda * mu, n);
    lemma_small_mod(1, n as nat);
    lemma_small_mod(m as nat, n as nat);
}

/// For different primes the L value of the key is always defined, and the key
/// exists exactly when `λ = lcm(p-1, q-1)` has an inverse modulo `n = p·q`.
pub proof fn lemma_key_exists(p: int, q: int)
    requires
        spec_is_prime(p),
        spec_is_prime(q),
        p != q,
    ensures
        ({
            let n = p * q;
            let u = spec_mod_pow(n + 1, spec_lcm(p - 1, q - 1), n * n);
            (u - 1) % n == 0 && ell_spec(u, n) == spec_lcm(p - 1, q - 1) % n
        }),
        paillier_key_ok(p, q) <==> coprime_mod(spec_lcm(p - 1, q - 1), p * q),
{
    let n = p * q;
    assert(n >= 6) by (nonlinear_arith) requires n == p * q, p >= 2, q >= 2, p != q;
    lemma_coprime_prime(1, p);
    lemma_coprime_prime(1, q);
    lemma_small_mod(1, p as nat);
    lemma_small_mod(1, q as nat);
    lemma_decryption_powers(p, q, 0, 1);
    let lambda = spec_lcm(p - 1, q - 1);
    lemma_mod_bound(lambda, n);
    lemma_one_plus_multiple(n, lambda);
    lemma_mod_multiples_basic(lambda % n, n);
    lemma_mod_twice(lambda, n);
}

/// Paillier key generation from distinct primes `p` and `q`, with `g = n + 1`.
pub fn keygen(p: i128, q: i128) -> (r: CalcResult<Trace>)
    requires
        p <= TRIAL_LIMIT,
        q <= TRIAL_LIMIT,
        spec_is_prime(p as int) && spec_is_prime(q as int) && p != q ==> p * q <= PAILLIER_LIMIT,
    ensures
        !spec_is_prime(p as int) ==> (r matches Err(CalcError::NichtPrim(m)) && m@ == "p = "@ + dec(
            p as int,
        )),
        spec_is_prime(p as int) && !spec_is_prime(q as int) ==> (r matches Err(
            CalcError::NichtPrim(m),
        ) && m@ == "q = "@ + dec(q as int)),
        spec_is_prime(p as int) && spec_is_prime(q as int) && p == q ==> (r matches Err(
            CalcError::UngueltigeEingabe(m),
        ) && m@ == "p und q müssen verschieden sein"@),
        spec_is_prime(p as int) && spec_is_prime(q as int) && p != q ==> (if paillier_key_ok(
            p as int,
            q as int,
        ) {
            r matches Ok(t) && t.algorithm@ == "Paillier-Schlüsselerzeugung"@ && t.input_list()
                == seq![("p"@, dec(p as int)), ("q"@, dec(q as int))] && t.results() == seq![
                ("Öffentlicher Schlüssel (n, g)"@, pair_view(p * q, p * q + 1)),
                ("Privater Schlüssel (λ, μ)"@, pair_view(
                    paillier_private(p as int, q as int).0,
                    paillier_private(p as int, q as int).1,
                )),
            ] && t.well_formed() && t.step_titles() == seq![
                "Modulus n und n²"@,
                "Carmichael-/Gruppenordnung λ = lcm(p−1, q−1)"@,
                "Generator g = n + 1 (Standardwahl)"@,
                "μ = (L(g^λ mod n²))⁻¹ mod n"@,
            ] && forall|i: int| 0 <= i < 4 ==> #[trigger] t.step_lines(i) == keygen_lines(
                p as int,
                q as int,
            )[i] && t.steps@[i].table is None
        } else {
            r matches Err(CalcError::KeinInverses(m)) && m@ == inv_error(
                ell_spec(
                    spec_mod_pow(p * q + 1, spec_lcm(p - 1, q - 1), (p * q) * (p * q)),
                    p * q,
                ),
                p * q,
            )
        }),
{
    if !is_prime(p) {
        let mut m = String::from_str("p = ");
        push_int(&mut m, p);
        return Err(CalcError::NichtPrim(m));
    }
    if !is_prime(q) {
        let mut m = String::from_str("q = ");
        push_int(&mut m, q);
        return Err(CalcError::NichtPrim(m));
    }
    if p == q {
        return Err(CalcError::UngueltigeEingabe(String::from_str("p und q müssen verschieden sein")));
    }
    let mut t = Trace::new("Paillier-Schlüsselerzeugung");
    t.input_int("p", p);
    t.input_int("q", q);

    let s1 = t.step("Modulus n und n²");
    let n = p * q;
    assert(n >= 6) by (nonlinear_arith) requires n == p * q, p >= 2, q >= 2, p != q;
    assert(n * n <= MOD_LIMIT) by (nonlinear_arith) requires 0 <= n <= PAILLIER_LIMIT;
    assert(n * n > 1) by (nonlinear_arith) requires n >= 6;
    let n2 = n * n;
    t.line_of(s1, &[Piece::Text("n = p · q = "), Piece::Num(n)]);
    t.line_of(s1, &[Piece::Text("n² = "), Piece::Num(n2)]);

    let s2 = t.step("Carmichael-/Gruppenordnung λ = lcm(p−1, q−1)");
    assert((p - 1) * (q - 1) <= p * q) by (nonlinear_arith) requires p >= 2, q >= 2;
    let lambda = lcm(p - 1, q - 1);
    t.line_of(
        s2,
        &[
            Piece::Text("λ = lcm("),
            Piece::Num(p - 1),
            Piece::Text(", "),
            Piece::Num(q - 1),
            Piece::Text(") = "),
            Piece::Num(lambda),
        ],
    );

    let s3 = t.step("Generator g = n + 1 (Standardwahl)");
    let g = n + 1;
    t.line_of(s3, &[Piece::Text("g = n + 1 = "), Piece::Num(g)]);

    let s4 = t.step("μ = (L(g^λ mod n²))⁻¹ mod n");
    let g_lambda = match mod_pow(g, lambda, n2) {
        Ok(v) => v,
        Err(e) => return Err(e),
    };
    t.line_of(s4, &[Piece::Text("g^λ mod n² = "), Piece::Num(g_lambda)]);
    proof {
        lemma_key_exists(p as int, q as int);
    }
    let l_val = match ell(g_lambda, n) {
        Ok(v) => v,
        Err(e) => return Err(e),
    };
    t.line_of(s4, &[Piece::Text("L(g^λ mod n²) = (u − 1) / n = "), Piece::Num(l_val)]);
    let mu = match mod_inv(l_val, n) {
        Ok(v) => v,
        Err(e) => return Err(e),
    };
    t.line_of(s4, &[Piece::Text("μ = L(...)⁻¹ mod n = "), Piece::Num(mu)]);

    let pubk = pair_text(n, g);
    t.result("Öffentlicher Schlüssel (n, g)", pubk.as_str());
    let privk = pair_text(lambda, mu);
    t.result("Privater Schlüssel (λ, μ)", privk.as_str());
    proof {
        reveal_with_fuel(pieces_view, 7);
        let lines = keygen_lines(p as int, q as int);
        assert(t.step_titles() =~= seq![
            "Modulus n und n²"@,
            "Carmichael-/Gruppenordnung λ = lcm(p−1, q−1)"@,
            "Generator g = n + 1 (Standardwahl)"@,
            "μ = (L(g^λ mod n²))⁻¹ mod n"@,
        ]);
        assert(t.step_lines(0) =~= lines[0]);
        assert(t.step_lines(1) =~= lines[1]);
        assert(t.step_lines(2) =~= lines[2]);
        assert(t.step_lines(3) =~= lines[3]);
    }
    Ok(t)
}

/// Paillier encryption `c = g^m * r^n mod n^2` for `m` in `[0, n)` and `r` coprime to `n`.
pub fn encrypt(n: i128, g: i128, m: i128, r: i128) -> (res: CalcResult<Trace>)
    requires
        n > 1 && 0 <= m < n && spec_gcd(abs(r as int), n as nat) == 1 ==> n <= PAILLIER_LIMIT,
        r != i128::MIN,
    ensures
        n <= 1 ==> (res matches Err(CalcError::Bereich(s)) && s@ == "n muss > 1 sein"@),
        n > 1 && !(0 <= m < n) ==> (res matches Err(CalcError::Bereich(s)) && s@
            == "m muss in [0, n) liegen"@),
        n > 1 && 0 <= m < n && spec_gcd(abs(r as int), n as nat) != 1 ==> (res matches Err(
            CalcError::UngueltigeEingabe(s),
        ) && s@ == "gcd(r, n) = "@ + dec(spec_gcd(abs(r as int), n as nat) as int) + " ≠ 1"@),
        n > 1 && 0 <= m < n && spec_gcd(abs(r as int), n as nat) == 1 ==> (res matches Ok(t)
            && t.algorithm@ == "Paillier-Verschlüsselung"@ && t.input_list() == seq![
            ("n"@, dec(n as int)),
            ("g"@, dec(g as int)),
            ("m"@, dec(m as int)),
            ("r"@, dec(r as int)),
        ] && t.results() == seq![
            ("Chiffrat c"@, dec(paillier_cipher(n as int, g as int, m as int, r as int))),
        ] && t.well_formed() && t.step_titles() == seq![
            "Bestandteile berechnen"@,
            "Chiffrat zusammenfügen"@,
        ] && t.step_lines(0) == encrypt_lines(n as int, g as int, m as int, r as int)[0]
            && t.step_lines(1) == encrypt_lines(n as int, g as int, m as int, r as int)[1]
            && t.steps@[0].table is None && t.steps@[1].table is None),
{
    if n <= 1 {
        return Err(CalcError::Bereich(String::from_str("n muss > 1 sein")));
    }
    if m < 0 || m >= n {
        return Err(CalcError::Bereich(String::from_str("m muss in [0, n) liegen")));
    }
    let gr = gcd(r, n);
    if gr != 1 {
        let mut s = String::from_str("gcd(r, n) = ");
        push_int(&mut s, gr);
        push_str(&mut s, " ≠ 1");
        return Err(CalcError::UngueltigeEingabe(s));
    }
    let mut t = Trace::new("Paillier-Verschlüsselung");
    t.input_int("n", n);
    t.input_int("g", g);
    t.input_int("m", m);
    t.input_int("r", r);

    assert(n * n <= MOD_LIMIT) by (nonlinear_arith) requires 0 <= n <= PAILLIER_LIMIT;
    assert(n * n > 1) by (nonlinear_arith) requires n > 1;
    let n2 = n * n;
    let s1 = t.step("Bestandteile berechnen");
    let g_m = match mod_pow(g, m, n2) {
        Ok(v) => v,
        Err(e) => return Err(e),
    };
    let r_n = match mod_pow(r, n, n2) {
        Ok(v) => v,
        Err(e) => return Err(e),
    };
    t.line_of(
        s1,
        &[
            Piece::Text("g^m mod n² = "),
            Piece::Num(g),
            Piece::Text("^"),
            Piece::Num(m),
            Piece::Text(" mod "),
            Piece::Num(n2),
            Piece::Text(" = "),
            Piece::Num(g_m),
        ],
    );
    t.line_of(
        s1,
        &[
            Piece::Text("r^n mod n² = "),
            Piece::Num(r),
            Piece::Text("^"),
            Piece::Num(n),
            Piece::Text(" mod "),
            Piece::Num(n2),
            Piece::Text(" = "),
            Piece::Num(r_n),
        ],
    );

    let s2 = t.step("Chiffrat zusammenfügen");
    proof {
        crate::math::lemma_product_fits(g_m as int, r_n as int);
    }
    let c = rem_euclid(g_m * r_n, n2);
    t.line_of(s2, &[Piece::Text("c = g^m · r^n mod n² = "), Piece::Num(c)]);
    t.result_int("Chiffrat c", c);
    proof {
        reveal_with_fuel(pieces_view, 9);
        let lines = encrypt_lines(n as int, g as int, m as int, r as int);
        assert(t.step_titles() =~= seq!["Bestandteile berechnen"@, "Chiffrat zusammenfügen"@]);
        assert(t.step_lines(0) =~= lines[0]);
        assert(t.step_lines(1) =~= lines[1]);
    }
    Ok(t)
}

/// Paillier decryption `m = L(c^lambda mod n^2) * mu mod n`.
pub fn decrypt(n: i128, lambda: i128, mu: i128, c: i128) -> (r: CalcResult<Trace>)
    requires
        n > 1 ==> n <= PAILLIER_LIMIT && lambda > i128::MIN && -MOD_LIMIT <= mu <= MOD_LIMIT,
    ensures
        n <= 1 ==> (r matches Err(CalcError::Bereich(s)) && s@ == "n muss > 1 sein"@),
        n > 1 && !mod_pow_defined(c as int, lambda as int, n * n) ==> (r matches Err(
            CalcError::KeinInverses(s),
        ) && s@ == inv_error(c as int, n * n)),
        n > 1 && mod_pow_defined(c as int, lambda as int, n * n) && (spec_mod_pow(
            c as int,
            lambda as int,
            n * n,
        ) - 1) % (n as int) != 0 ==> (r matches Err(CalcError::Bereich(s)) && s@
            == "L(u): Voraussetzung u ≡ 1 mod n verletzt"@),
        n > 1 && mod_pow_defined(c as int, lambda as int, n * n) && (spec_mod_pow(
            c as int,
            lambda as int,
            n * n,
        ) - 1) % (n as int) == 0 ==> (r matches Ok(t) && t.algorithm@
            == "Paillier-Entschlüsselung"@ && t.input_list() == seq![
            ("n"@, dec(n as int)),
            ("λ"@, dec(lambda as int)),
            ("μ"@, dec(mu as int)),
            ("c"@, dec(c as int)),
        ] && t.results() == seq![
            ("Klartext m"@, dec(paillier_plain(n as int, lambda as int, mu as int, c as int))),
        ] && t.well_formed() && t.step_titles() == seq![
            "c^λ mod n²"@,
            "L-Funktion auswerten"@,
            "Multiplikation mit μ"@,
        ] && (forall|i: int| 0 <= i < 3 ==> #[trigger] t.step_lines(i) == decrypt_lines(
            n as int,
            lambda as int,
            mu as int,
            c as int,
        )[i] && t.steps@[i].table is None)),
{
    if n <= 1 {
        return Err(CalcError::Bereich(String::from_str("n muss > 1 sein")));
    }
    assert(n * n <= MOD_LIMIT) by (nonlinear_arith) requires 0 <= n <= PAILLIER_LIMIT;
    assert(n * n > 1) by (nonlinear_arith) requires n > 1;
    let n2 = n * n;
    let mut t = Trace::new("Paillier-Entschlüsselung");
    t.input_int("n", n);
    t.input_int("λ", lambda);
    t.input_int("μ", mu);
    t.input_int("c", c);

    let s1 = t.step("c^λ mod n²");
    let c_lambda = match mod_pow(c, lambda, n2) {
        Ok(v) => v,
        Err(e) => return Err(e),
    };
    t.line_of(
        s1,
        &[
            Piece::Text("c^λ mod n² = "),
            Piece::Num(c),
            Piece::Text("^"),
            Piece::Num(lambda),
            Piece::Text(" mod "),
            Piece::Num(n2),
            Piece::Text(" = "),
            Piece::Num(c_lambda),
        ],
    );

    let s2 = t.step("L-Funktion auswerten");
    let l_val = match ell(c_lambda, n) {
        Ok(v) => v,
        Err(e) => return Err(e),
    };
    t.line_of(
        s2,
        &[
            Piece::Text("L(c^λ mod n²) = ("),
            Piece::Num(c_lambda),
            Piece::Text(" − 1) / "),
            Piece::Num(n),
            Piece::Text(" = "),
            Piece::Num(l_val),
        ],
    );

    let s3 = t.step("Multiplikation mit μ");
    assert(0 <= l_val < n) by (nonlinear_arith)
        requires l_val == (c_lambda - 1) / (n as int), 1 <= c_lambda < n * n, n > 1;
    assert(-0x4000_0000_0000_0000_0000_0000_0000_0000 <= l_val * mu <= 0x4000_0000_0000_0000_0000_0000_0000_0000) by (nonlinear_arith)
        requires 0 <= l_val < PAILLIER_LIMIT, -MOD_LIMIT <= mu <= MOD_LIMIT;
    let m = rem_euclid(l_val * mu, n);
    t.line_of(
        s3,
        &[
            Piece::Text("m = L(...) · μ mod n = "),
            Piece::Num(l_val),
            Piece::Text(" · "),
            Piece::Num(mu),
            Piece::Text(" mod "),
            Piece::Num(n),
            Piece::Text(" = "),
            Piece::Num(m),
        ],
    );
    t.result_int("Klartext m", m);
    proof {
        reveal_with_fuel(pieces_view, 9);
        let lines = decrypt_lines(n as int, lambda as int, mu as int, c as int);
        assert(t.step_titles() =~= seq![
            "c^λ mod n²"@,
            "L-Funktion auswerten"@,
            "Multiplikation mit μ"@,
        ]);
        assert(t.step_lines(0) =~= lines[0]);
        assert(t.step_lines(1) =~= lines[1]);
        assert(t.step_lines(2) =~= lines[2]);
    }
    Ok(t)
}

} // verus!
