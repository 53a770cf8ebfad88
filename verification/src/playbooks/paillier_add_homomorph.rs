//! Paillier's additive homomorphism: two cipher texts multiplied together
//! decrypt to the sum of their plain texts modulo `n`.
use vstd::prelude::*;
use vstd::arithmetic::div_mod::{
    lemma_div_multiples_vanish, lemma_div_pos_is_pos, lemma_fundamental_div_mod, lemma_mod_bound,
    lemma_mod_multiples_vanish, lemma_mod_twice, lemma_mul_mod_noop, lemma_mul_mod_noop_left,
    lemma_mul_mod_noop_right, lemma_small_mod,
};
use vstd::arithmetic::power::{
    lemma1_pow, lemma_pow_adds, lemma_pow_distributes,
    lemma_pow_mod_noop, lemma_pow_multiplies, pow,
};
use crate::algorithms::paillier::{
    PAILLIER_LIMIT, lcm, lemma_decryption_powers, lemma_prime_to_both, paillier_cipher, spec_lcm,
};
use crate::error::{CalcError, CalcResult};
use crate::fermat::lemma_one_plus_pow;
use crate::math::{
    MOD_LIMIT, TRIAL_LIMIT, abs, coprime_mod, gcd, inv_error, inv_mod, is_prime, lemma_inv_mod,
    lemma_inv_product, lemma_trunc, mod_inv, mod_pow, rem_euclid, spec_gcd, spec_is_prime,
    spec_mod_pow, tdiv,
};
use crate::text::{Piece, dec, pieces_view, push_int, push_str};
use crate::trace::Trace;

verus! {

/// The L function as this walkthrough evaluates it: `(u - 1) / n`, rounded toward zero.
pub open spec fn ell_trunc(u: int, n: int) -> int {
    tdiv(u - 1, n)
}

/// `L(g^lambda mod n^2)` for `g = n + 1`.
pub open spec fn key_ell(n: int, lambda: int) -> int {
    ell_trunc(spec_mod_pow(n + 1, lambda, n * n), n)
}

/// Decryption `L(c^lambda mod n^2) * mu mod n`.
pub open spec fn trunc_plain(n: int, lambda: int, mu: int, c: int) -> int {
    (ell_trunc(spec_mod_pow(c, lambda, n * n), n) * mu) % n
}

/// `gcd(r, n)` as the walkthrough reports it.
pub open spec fn gcd_with(r: int, n: int) -> int {
    spec_gcd(abs(r), abs(n)) as int
}

/// The L value lies in `[0, n)` for `0 <= u < n^2`, and matches floor division from `u >= 1` on.
proof fn lemma_ell_range(u: int, n: int)
    requires
        n > 1,
        0 <= u < n * n,
    ensures
        0 <= ell_trunc(u, n) < n,
        u >= 1 ==> ell_trunc(u, n) == (u - 1) / n,
        u == 0 ==> ell_trunc(u, n) == 0,
{
    lemma_trunc(u - 1, n);
    if u >= 1 {
        assert(0 <= (u - 1) / n < n) by (nonlinear_arith)
            requires 0 <= u - 1 < n * n, n > 1;
    } else {
        assert(abs(-1) / abs(n) == 0) by (nonlinear_arith) requires n > 1;
    }
}

/// Paillier with `g = n + 1` is additively homomorphic: the product of the
/// encryptions of `m1` (with `r1`) and `m2` (with `r2`), reduced modulo `n²`,
/// is the encryption of `(m1 + m2) mod n` with `r1·r2`.
pub proof fn lemma_paillier_add_homomorphism(n: int, m1: int, m2: int, r1: int, r2: int)
    requires
        n > 1,
        m1 >= 0,
        m2 >= 0,
    ensures
        (paillier_cipher(n, n + 1, m1 as int, r1) * paillier_cipher(n, n + 1, m2 as int, r2)) % (n
            * n) == paillier_cipher(n, n + 1, (m1 + m2) % n, r1 * r2),
{
    let nn = n * n;
    assert(nn > 1) by (nonlinear_arith) requires n > 1, nn == n * n;
    let g = n + 1;
    let e1 = m1 as nat;
    let e2 = m2 as nat;
    let en = n as nat;
    let a = pow(g, e1);
    let b = pow(r1, en);
    let c = pow(g, e2);
    let d = pow(r2, en);
    let s = (m1 + m2) % n;
    let q = (m1 + m2) / n;
    lemma_fundamental_div_mod(m1 + m2, n);
    lemma_mod_bound(m1 + m2, n);
    lemma_div_pos_is_pos(m1 + m2, n);
    // both cipher texts and the product, as residues of plain products
    lemma_mul_mod_noop(a, b, nn);
    lemma_mul_mod_noop(c, d, nn);
    lemma_mul_mod_noop(a * b, c * d, nn);
    assert((a * b) * (c * d) == (a * c) * (b * d)) by (nonlinear_arith);
    lemma_pow_adds(g, e1, e2);
    lemma_pow_distributes(r1, r2, en);
    let big = pow(g, (m1 + m2) as nat);
    let rr = pow(r1 * r2, en);
    // g^(m1+m2) = (g^n)^q · g^s, and g^n = 1 (mod n²)
    let gs = pow(g, s as nat);
    let gn = pow(g, en);
    assert((m1 + m2) as nat == (en * (q as nat)) + (s as nat)) by (nonlinear_arith)
        requires m1 + m2 == n * q + s, q >= 0, s >= 0, en == n;
    lemma_pow_adds(g, en * (q as nat), s as nat);
    lemma_pow_multiplies(g, en, q as nat);
    lemma_one_plus_pow(n, en);
    lemma_mod_multiples_vanish(1, 1, nn);
    lemma_small_mod(1, nn as nat);
    assert(gn % nn == 1);
    lemma_pow_mod_noop(gn, q as nat, nn);
    lemma1_pow(q as nat);
    lemma_mul_mod_noop_left(pow(gn, q as nat), gs, nn);
    assert(big % nn == gs % nn);
    lemma_mul_mod_noop_left(big, rr, nn);
    lemma_mul_mod_noop_left(gs, rr, nn);
    lemma_mul_mod_noop(gs, rr, nn);
}

/// L of a value `1 + l·n` with `0 <= l`, as the walkthrough evaluates it, is `l`.
proof fn lemma_ell_of_multiple(n: int, l: int)
    requires
        n >= 2,
        l >= 0,
    ensures
        ell_trunc(1 + l * n, n) == l,
{
    assert(l * n >= 0 && l * n == n * l) by (nonlinear_arith) requires l >= 0, n >= 2;
    lemma_trunc(l * n, n);
    lemma_div_multiples_vanish(l, n);
}

/// The walkthrough's decryption of the combined cipher text is the sum: for
/// different primes `p` and `q` whose key exists, messages `m1`, `m2` in
/// `[0, n)` and randomisers prime to `n = p·q`, decrypting `c1·c2 mod n²`
/// gives `(m1 + m2) mod n`.
pub proof fn lemma_paillier_sum_decrypts(p: int, q: int, m1: int, m2: int, r1: int, r2: int)
    requires
        spec_is_prime(p),
        spec_is_prime(q),
        p != q,
        0 <= m1 < p * q,
        0 <= m2 < p * q,
        gcd_with(r1, p * q) == 1,
        gcd_with(r2, p * q) == 1,
        coprime_mod(key_ell(p * q, spec_lcm(p - 1, q - 1)), p * q),
    ensures
        ({
            let n = p * q;
            let lambda = spec_lcm(p - 1, q - 1);
            let c = (paillier_cipher(n, n + 1, m1, r1) * paillier_cipher(n, n + 1, m2, r2)) % (n * n);
            trunc_plain(n, lambda, inv_mod(key_ell(n, lambda), n), c) == (m1 + m2) % n
        }),
{
    let n = p * q;
    assert(n >= 6) by (nonlinear_arith) requires n == p * q, p >= 2, q >= 2, p != q;
    let lambda = spec_lcm(p - 1, q - 1);
    let s = (m1 + m2) % n;
    lemma_mod_bound(m1 + m2, n);
    lemma_paillier_add_homomorphism(n, m1, m2, r1, r2);
    assert(abs(n) == n as nat);
    lemma_prime_to_both(p, q, r1);
    lemma_prime_to_both(p, q, r2);
    lemma_inv_product(r1, r2, p);
    lemma_inv_product(r1, r2, q);
    lemma_decryption_powers(p, q, s, r1 * r2);
    let k = s * lambda;
    assert(k >= 0) by (nonlinear_arith) requires s >= 0, lambda >= 1, k == s * lambda;
    lemma_mod_bound(lambda, n);
    lemma_mod_bound(k, n);
    lemma_ell_of_multiple(n, lambda % n);
    lemma_ell_of_multiple(n, k % n);
    // μ = λ^-1 mod n and L(c^λ)·μ = s·λ·λ^-1 = s (mod n)
    let mu = inv_mod(key_ell(n, lambda), n);
    lemma_mod_twice(lambda, n);
    assert(coprime_mod(lambda, n));
    assert(mu == inv_mod(lambda, n));
    lemma_inv_mod(lambda, n);
    lemma_mul_mod_noop_left(k, mu, n);
    assert(k * mu == s * (lambda * mu)) by (nonlinear_arith) requires k == s * lambda;
    lemma_mul_mod_noop_right(s, lambda * mu, n);
    lemma_small_mod(1, n as nat);
    lemma_small_mod(s as nat, n as nat);
}

/// The lines of an encryption step: `g^m`, `r^n` and their product modulo `n²`.
pub open spec fn encryption_lines(n: int, m: int, r: int, names: (Seq<char>, Seq<char>, Seq<char>)) -> Seq<
    Seq<char>,
> {
    seq![
        names.0 + dec(spec_mod_pow(n + 1, m, n * n)),
        names.1 + dec(spec_mod_pow(r, n, n * n)),
        names.2 + dec(paillier_cipher(n, n + 1, m, r)),
    ]
}

/// The text lines of the seven steps of the walkthrough.
pub open spec fn add_homomorph_lines(p: int, q: int, m1: int, m2: int, r1: int, r2: int) -> Seq<
    Seq<Seq<char>>,
> {
    let n = p * q;
    let nn = n * n;
    let lambda = spec_lcm(p - 1, q - 1);
    let mu = inv_mod(key_ell(n, lambda), n);
    let c1 = paillier_cipher(n, n + 1, m1, r1);
    let c2 = paillier_cipher(n, n + 1, m2, r2);
    let c = (c1 * c2) % nn;
    let lc = ell_trunc(spec_mod_pow(c, lambda, nn), n);
    let mt = trunc_plain(n, lambda, mu, c);
    let expected = (m1 + m2) % n;
    seq![
        seq![
            "n = p · q = "@ + dec(n),
            "n² = "@ + dec(nn),
            "λ = lcm(p−1, q−1) = "@ + dec(lambda),
            "g = n + 1 = "@ + dec(n + 1),
            "g^λ mod n² = "@ + dec(spec_mod_pow(n + 1, lambda, nn)),
            "L(g^λ mod n²) = "@ + dec(key_ell(n, lambda)),
            "μ = L(...)⁻¹ mod n = "@ + dec(mu),
        ],
        seq![
            "E(m1) · E(m2) mod n² = E((m1 + m2) mod n)."@,
            "Anschaulich: das Produkt zweier Paillier-Chiffren entschlüsselt zur Summe der Klartexte."@,
        ],
        encryption_lines(n, m1, r1, ("g^m1 mod n² = "@, "r1^n mod n² = "@, "c1 = g^m1 · r1^n mod n² = "@)),
        encryption_lines(n, m2, r2, ("g^m2 mod n² = "@, "r2^n mod n² = "@, "c2 = g^m2 · r2^n mod n² = "@)),
        seq![
            "c = c1 · c2 mod n² = "@ + dec(c1) + " · "@ + dec(c2) + " mod "@ + dec(nn) + " = "@ + dec(c),
        ],
        seq![
            "c^λ mod n² = "@ + dec(spec_mod_pow(c, lambda, nn)),
            "L(c^λ mod n²) = "@ + dec(lc),
            "m_total = L(...) · μ mod n = "@ + dec(lc) + " · "@ + dec(mu) + " mod "@ + dec(n) + " = "@
                + dec(mt),
        ],
        seq![
            "(m1 + m2) mod n = ("@ + dec(m1) + " + "@ + dec(m2) + ") mod "@ + dec(n) + " = "@ + dec(
                expected,
            ),
            "Entschlüsselung ergab m_total = "@ + dec(mt) + " (erwartet: "@ + dec(expected) + ")"@,
        ],
    ]
}

/// Walks through Paillier with `g = n + 1`: derives the key from `p` and `q`,
/// encrypts `m1` with `r1` and `m2` with `r2`, multiplies the cipher texts and
/// decrypts the product, which the check compares with `(m1 + m2) mod n`.
#[verifier::spinoff_prover]
#[verifier::rlimit(40)]
pub fn run(p: i128, q: i128, m1: i128, m2: i128, r1: i128, r2: i128) -> (r: CalcResult<Trace>)
    requires
        p <= TRIAL_LIMIT,
        q <= TRIAL_LIMIT,
        spec_is_prime(p as int) && spec_is_prime(q as int) && p != q ==> p * q <= i128::MAX,
        spec_is_prime(p as int) && spec_is_prime(q as int) && p != q && 0 <= m1 < p * q && 0 <= m2
            < p * q && gcd_with(r1 as int, p * q) == 1 && gcd_with(r2 as int, p * q) == 1 ==> p * q
            <= PAILLIER_LIMIT,
        r1 != i128::MIN,
        r2 != i128::MIN,
    ensures
        !spec_is_prime(p as int) ==> (r matches Err(CalcError::NichtPrim(s)) && s@ == "p = "@
            + dec(p as int)),
        spec_is_prime(p as int) && !spec_is_prime(q as int) ==> (r matches Err(
            CalcError::NichtPrim(s),
        ) && s@ == "q = "@ + dec(q as int)),
        spec_is_prime(p as int) && spec_is_prime(q as int) ==> ({
            let n = p * q;
            let lambda = spec_lcm(p - 1, q - 1);
            let mu = inv_mod(key_ell(n, lambda), n);
            let c1 = paillier_cipher(n, n + 1, m1 as int, r1 as int);
            let c2 = paillier_cipher(n, n + 1, m2 as int, r2 as int);
            let c = (c1 * c2) % (n * n);
            if p == q {
                r matches Err(CalcError::UngueltigeEingabe(s)) && s@
                    == "p und q müssen verschieden sein"@
            } else if !(0 <= m1 < n) {
                r matches Err(CalcError::Bereich(s)) && s@ == "m1 muss in [0, n) liegen"@
            } else if !(0 <= m2 < n) {
                r matches Err(CalcError::Bereich(s)) && s@ == "m2 muss in [0, n) liegen"@
            } else if gcd_with(r1 as int, n) != 1 {
                r matches Err(CalcError::UngueltigeEingabe(s)) && s@ == "gcd(r1, n) = "@ + dec(
                    gcd_with(r1 as int, n),
                ) + " ≠ 1"@
            } else if gcd_with(r2 as int, n) != 1 {
                r matches Err(CalcError::UngueltigeEingabe(s)) && s@ == "gcd(r2, n) = "@ + dec(
                    gcd_with(r2 as int, n),
                ) + " ≠ 1"@
            } else if !coprime_mod(key_ell(n, lambda), n) {
                r matches Err(CalcError::KeinInverses(s)) && s@ == inv_error(key_ell(n, lambda), n)
            } else {
                r matches Ok(t) && t.algorithm@ == "Paillier: Additiver Homomorphismus"@
                    && t.input_list() == seq![
                    ("p"@, dec(p as int)),
                    ("q"@, dec(q as int)),
                    ("m1"@, dec(m1 as int)),
                    ("m2"@, dec(m2 as int)),
                    ("r1"@, dec(r1 as int)),
                    ("r2"@, dec(r2 as int)),
                ] && t.results() == seq![
                    ("c1"@, dec(c1)),
                    ("c2"@, dec(c2)),
                    ("c = c1 · c2 mod n²"@, dec(c)),
                    ("Entschlüsselung m_total"@, dec(trunc_plain(n, lambda, mu, c))),
                    ("(m1 + m2) mod n"@, dec((m1 + m2) % n)),
                ] && t.well_formed() && t.step_titles() == seq![
                    "Schlüsselableitung"@,
                    "Eigenschaft des additiven Homomorphismus"@,
                    "Chiffrat c1 = E(m1, r1)"@,
                    "Chiffrat c2 = E(m2, r2)"@,
                    "Kombinieren: c = c1 · c2 mod n²"@,
                    "Entschlüsselung von c"@,
                    "Probe"@,
                ] && forall|i: int| 0 <= i < 7 ==> #[trigger] t.step_lines(i) == add_homomorph_lines(
                    p as int,
                    q as int,
                    m1 as int,
                    m2 as int,
                    r1 as int,
                    r2 as int,
                )[i] && t.steps@[i].table is None
            }
        }),
{
    if !is_prime(p) {
        let mut s = String::from_str("p = ");
        push_int(&mut s, p);
        return Err(CalcError::NichtPrim(s));
    }
    if !is_prime(q) {
        let mut s = String::from_str("q = ");
        push_int(&mut s, q);
        return Err(CalcError::NichtPrim(s));
    }
    if p == q {
        return Err(CalcError::UngueltigeEingabe(String::from_str("p und q müssen verschieden sein")));
    }
    let n = p * q;
    if m1 < 0 || m1 >= n {
        return Err(CalcError::Bereich(String::from_str("m1 muss in [0, n) liegen")));
    }
    if m2 < 0 || m2 >= n {
        return Err(CalcError::Bereich(String::from_str("m2 muss in [0, n) liegen")));
    }
    let g1 = gcd(r1, n);
    if g1 != 1 {
        let mut s = String::from_str("gcd(r1, n) = ");
        push_int(&mut s, g1);
        push_str(&mut s, " ≠ 1");
        return Err(CalcError::UngueltigeEingabe(s));
    }
    let g2 = gcd(r2, n);
    if g2 != 1 {
        let mut s = String::from_str("gcd(r2, n) = ");
        push_int(&mut s, g2);
        push_str(&mut s, " ≠ 1");
        return Err(CalcError::UngueltigeEingabe(s));
    }

    let mut t = Trace::new("Paillier: Additiver Homomorphismus");
    t.input_int("p", p);
    t.input_int("q", q);
    t.input_int("m1", m1);
    t.input_int("m2", m2);
    t.input_int("r1", r1);
    t.input_int("r2", r2);

    assert(n >= 6) by (nonlinear_arith) requires n == p * q, p >= 2, q >= 2, p != q;
    assert(n * n <= MOD_LIMIT) by (nonlinear_arith) requires 0 <= n <= PAILLIER_LIMIT;
    assert(n * n > 1) by (nonlinear_arith) requires n >= 6;
    let n2 = n * n;
    let g = n + 1;
    assert((p - 1) * (q - 1) <= p * q) by (nonlinear_arith) requires p >= 2, q >= 2;
    let lambda = lcm(p - 1, q - 1);

    let s1 = t.step("Schlüsselableitung");
    t.line_of(s1, &[Piece::Text("n = p · q = "), Piece::Num(n)]);
    t.line_of(s1, &[Piece::Text("n² = "), Piece::Num(n2)]);
    t.line_of(s1, &[Piece::Text("λ = lcm(p−1, q−1) = "), Piece::Num(lambda)]);
    t.line_of(s1, &[Piece::Text("g = n + 1 = "), Piece::Num(g)]);
    let g_lambda = match mod_pow(g, lambda, n2) {
        Ok(v) => v,
        Err(e) => return Err(e),
    };
    proof {
        lemma_ell_range(g_lambda as int, n as int);
    }
    let l_keygen = if g_lambda >= 1 { (g_lambda - 1) / n } else { 0 };
    let mu = match mod_inv(l_keygen, n) {
        Ok(v) => v,
        Err(e) => return Err(e),
    };
    t.line_of(s1, &[Piece::Text("g^λ mod n² = "), Piece::Num(g_lambda)]);
    t.line_of(s1, &[Piece::Text("L(g^λ mod n²) = "), Piece::Num(l_keygen)]);
    t.line_of(s1, &[Piece::Text("μ = L(...)⁻¹ mod n = "), Piece::Num(mu)]);

    let ghost lines = add_homomorph_lines(
        p as int,
        q as int,
        m1 as int,
        m2 as int,
        r1 as int,
        r2 as int,
    );
    proof {
        reveal_with_fuel(pieces_view, 3);
        assert(t.step_lines(0) =~= lines[0]);
    }
    let s2 = t.step("Eigenschaft des additiven Homomorphismus");
    t.line(s2, "E(m1) · E(m2) mod n² = E((m1 + m2) mod n).");
    t.line(
        s2,
        "Anschaulich: das Produkt zweier Paillier-Chiffren entschlüsselt zur Summe der Klartexte.",
    );

    let s3 = t.step("Chiffrat c1 = E(m1, r1)");
    let g_m1 = match mod_pow(g, m1, n2) {
        Ok(v) => v,
        Err(e) => return Err(e),
    };
    let r1_n = match mod_pow(r1, n, n2) {
        Ok(v) => v,
        Err(e) => return Err(e),
    };
    proof {
        crate::math::lemma_product_fits(g_m1 as int, r1_n as int);
    }
    let c1 = rem_euclid(g_m1 * r1_n, n2);
    t.line_of(s3, &[Piece::Text("g^m1 mod n² = "), Piece::Num(g_m1)]);
    t.line_of(s3, &[Piece::Text("r1^n mod n² = "), Piece::Num(r1_n)]);
    t.line_of(s3, &[Piece::Text("c1 = g^m1 · r1^n mod n² = "), Piece::Num(c1)]);

    proof {
        reveal_with_fuel(pieces_view, 3);
        assert(t.step_lines(1) =~= lines[1]);
        assert(t.step_lines(2) =~= lines[2]);
    }
    let s4 = t.step("Chiffrat c2 = E(m2, r2)");
    let g_m2 = match mod_pow(g, m2, n2) {
        Ok(v) => v,
        Err(e) => return Err(e),
    };
    let r2_n = match mod_pow(r2, n, n2) {
        Ok(v) => v,
        Err(e) => return Err(e),
    };
    proof {
        crate::math::lemma_product_fits(g_m2 as int, r2_n as int);
    }
    let c2 = rem_euclid(g_m2 * r2_n, n2);
    t.line_of(s4, &[Piece::Text("g^m2 mod n² = "), Piece::Num(g_m2)]);
    t.line_of(s4, &[Piece::Text("r2^n mod n² = "), Piece::Num(r2_n)]);
    t.line_of(s4, &[Piece::Text("c2 = g^m2 · r2^n mod n² = "), Piece::Num(c2)]);

    proof {
        reveal_with_fuel(pieces_view, 3);
        assert(t.step_lines(3) =~= lines[3]);
    }
    let s5 = t.step("Kombinieren: c = c1 · c2 mod n²");
    proof {
        crate::math::lemma_product_fits(c1 as int, c2 as int);
    }
    let c = rem_euclid(c1 * c2, n2);
    t.line_of(
        s5,
        &[
            Piece::Text("c = c1 · c2 mod n² = "),
            Piece::Num(c1),
            Piece::Text(" · "),
            Piece::Num(c2),
            Piece::Text(" mod "),
            Piece::Num(n2),
            Piece::Text(" = "),
            Piece::Num(c),
        ],
    );

    proof {
        reveal_with_fuel(pieces_view, 9);
        assert(t.step_lines(4) =~= lines[4]);
    }
    let s6 = t.step("Entschlüsselung von c");
    let c_lambda = match mod_pow(c, lambda, n2) {
        Ok(v) => v,
        Err(e) => return Err(e),
    };
    proof {
        lemma_ell_range(c_lambda as int, n as int);
    }
    let l_c = if c_lambda >= 1 { (c_lambda - 1) / n } else { 0 };
    assert(0 <= l_c * mu < 0x4000_0000_0000_0000_0000_0000_0000_0000) by (nonlinear_arith)
        requires 0 <= l_c < n, 0 <= mu < n, n <= PAILLIER_LIMIT;
    let m_total = rem_euclid(l_c * mu, n);
    t.line_of(s6, &[Piece::Text("c^λ mod n² = "), Piece::Num(c_lambda)]);
    t.line_of(s6, &[Piece::Text("L(c^λ mod n²) = "), Piece::Num(l_c)]);
    t.line_of(
        s6,
        &[
            Piece::Text("m_total = L(...) · μ mod n = "),
            Piece::Num(l_c),
            Piece::Text(" · "),
            Piece::Num(mu),
            Piece::Text(" mod "),
            Piece::Num(n),
            Piece::Text(" = "),
            Piece::Num(m_total),
        ],
    );

    proof {
        reveal_with_fuel(pieces_view, 9);
        assert(t.step_lines(5) =~= lines[5]);
    }
    let s7 = t.step("Probe");
    let expected = rem_euclid(m1 + m2, n);
    t.line_of(
        s7,
        &[
            Piece::Text("(m1 + m2) mod n = ("),
            Piece::Num(m1),
            Piece::Text(" + "),
            Piece::Num(m2),
            Piece::Text(") mod "),
            Piece::Num(n),
            Piece::Text(" = "),
            Piece::Num(expected),
        ],
    );
    t.line_of(
        s7,
        &[
            Piece::Text("Entschlüsselung ergab m_total = "),
            Piece::Num(m_total),
            Piece::Text(" (erwartet: "),
            Piece::Num(expected),
            Piece::Text(")"),
        ],
    );

    t.result_int("c1", c1);
    t.result_int("c2", c2);
    t.result_int("c = c1 · c2 mod n²", c);
    t.result_int("Entschlüsselung m_total", m_total);
    t.result_int("(m1 + m2) mod n", expected);
    proof {
        reveal_with_fuel(pieces_view, 9);
        assert(t.step_lines(6) =~= lines[6]);
        assert(t.step_titles() =~= seq![
            "Schlüsselableitung"@,
            "Eigenschaft des additiven Homomorphismus"@,
            "Chiffrat c1 = E(m1, r1)"@,
            "Chiffrat c2 = E(m2, r2)"@,
            "Kombinieren: c = c1 · c2 mod n²"@,
            "Entschlüsselung von c"@,
            "Probe"@,
        ]);
    }
    Ok(t)
}

} // verus!
