//! Shamir's three-pass protocol.
use vstd::prelude::*;
use vstd::arithmetic::div_mod::{
    lemma_div_pos_is_pos, lemma_fundamental_div_mod, lemma_mod_bound, lemma_mod_twice,
    lemma_mul_mod_noop, lemma_mul_mod_noop_left, lemma_small_mod,
};
use vstd::arithmetic::power::{
    lemma0_pow, lemma1_pow, lemma_pow0, lemma_pow1, lemma_pow_adds, lemma_pow_mod_noop, lemma_pow_multiplies, pow,
};
use crate::fermat::{lemma_fermat_exponent, lemma_fermat_lift, lemma_unit_exponent, lemma_unit_pow};
use crate::error::{CalcError, CalcResult};
use crate::math::{
    MOD_LIMIT, TRIAL_LIMIT, abs, coprime_mod, gcd, inv_error, inv_mod, is_prime, lemma_coprime_prime, lemma_gcd_mod,
    lemma_inv_mod, mod_inv,
    mod_pow, mod_pow_defined, spec_gcd, spec_is_prime, spec_mod_pow,
};
use crate::text::{Piece, dec, int_text, pieces_view};
use crate::trace::Trace;

verus! {

/// First message `c1 = m^a mod p`.
pub open spec fn shamir_c1(p: int, m: int, a: int) -> int {
    spec_mod_pow(m, a, p)
}

/// Second message `c2 = c1^b mod p`.
pub open spec fn shamir_c2(p: int, m: int, a: int, b: int) -> int {
    spec_mod_pow(shamir_c1(p, m, a), b, p)
}

/// The exponent that undoes `a` modulo `q = p - 1`: `a^-1 mod q`, and 1 when
/// `q = 1`, where every exponent is 1 modulo `q`.
pub open spec fn exp_inv(a: int, q: int) -> int {
    if q == 1 {
        1
    } else {
        inv_mod(a, q)
    }
}

/// Third message `c3 = c2^(a^-1 mod (p-1)) mod p`.
pub open spec fn shamir_c3(p: int, m: int, a: int, b: int) -> int {
    spec_mod_pow(shamir_c2(p, m, a, b), exp_inv(a, p - 1), p)
}

/// What Bob recovers: `c3^(b^-1 mod (p-1)) mod p`.
pub open spec fn shamir_recovered(p: int, m: int, a: int, b: int) -> int {
    spec_mod_pow(shamir_c3(p, m, a, b), exp_inv(b, p - 1), p)
}

/// The inverse exponent is nonnegative and inverts `a` modulo `q`.
proof fn lemma_exp_inv(a: int, q: int)
    requires
        coprime_mod(a, q),
    ensures
        0 <= exp_inv(a, q),
        (a * exp_inv(a, q)) % q == 1int % q,
{
    if q == 1 {
        lemma_small_mod(0, 1);
        assert((a * 1) % 1 == 0) by {
            lemma_fundamental_div_mod(a, 1);
        }
    } else {
        lemma_inv_mod(a, q);
    }
}

/// The two exponentiations that may take an inverse are defined.
pub open spec fn shamir_defined(p: int, m: int, a: int, b: int) -> bool {
    mod_pow_defined(m, a, p) && mod_pow_defined(shamir_c1(p, m, a), b, p)
}

/// The message when a pass has no inverse to work with: for `m` (negative `a`),
/// else for `c1` (negative `b`).
pub open spec fn shamir_error(p: int, m: int, a: int) -> Seq<char> {
    if !mod_pow_defined(m, a, p) {
        inv_error(m, p)
    } else {
        inv_error(shamir_c1(p, m, a), p)
    }
}

/// The text lines of the four steps of the protocol.
pub open spec fn shamir_lines(p: int, m: int, a: int, b: int) -> Seq<Seq<Seq<char>>> {
    seq![
        seq!["c1 = m^a mod p = "@ + dec(shamir_c1(p, m, a))],
        seq!["c2 = c1^b mod p = "@ + dec(shamir_c2(p, m, a, b))],
        seq![
            "a^(-1) mod (p-1) = "@ + dec(exp_inv(a, p - 1)),
            "c3 = c2^(a^-1) mod p = "@ + dec(shamir_c3(p, m, a, b)),
        ],
        seq![
            "b^(-1) mod (p-1) = "@ + dec(exp_inv(b, p - 1)),
            "m = c3^(b^-1) mod p = "@ + dec(shamir_recovered(p, m, a, b)),
        ],
    ]
}

/// The passes when both keys are at least 1: the result is `m^(a·b·a'·b') mod p`.
proof fn lemma_positive_keys(p: int, m: int, a: int, b: int)
    requires
        spec_is_prime(p),
        0 <= m < p,
        a >= 1,
        b >= 1,
        coprime_mod(a, p - 1),
        coprime_mod(b, p - 1),
    ensures
        shamir_recovered(p, m, a, b) == m,
{
    let q = p - 1;
    let ai = exp_inv(a, q);
    let bi = exp_inv(b, q);
    lemma_exp_inv(a, q);
    lemma_exp_inv(b, q);
    let an = a as nat;
    let bn = b as nat;
    let ain = ai as nat;
    let bin = bi as nat;
    // each pass raises the previous residue, so the result is m^(a·b·a'·b') mod p
    lemma_pow_mod_noop(pow(m, an), bn, p);
    lemma_pow_multiplies(m, an, bn);
    lemma_pow_mod_noop(pow(m, an * bn), ain, p);
    lemma_pow_multiplies(m, an * bn, ain);
    lemma_pow_mod_noop(pow(m, (an * bn) * ain), bin, p);
    lemma_pow_multiplies(m, (an * bn) * ain, bin);
    let ex = ((an * bn) * ain) * bin;
    assert(shamir_recovered(p, m, a, b) == pow(m, ex) % p);
    if p == 2 {
        assert(ex == a * b) by (nonlinear_arith) requires ex == ((a * b) * ai) * bi, ai == 1, bi == 1;
        assert(ex >= 1) by (nonlinear_arith) requires ex == a * b, a >= 1, b >= 1;
        if m == 1 {
            lemma1_pow(ex);
        } else {
            lemma0_pow(ex);
        }
        lemma_small_mod(m as nat, 2);
    } else {
        // a·a' = 1 and b·b' = 1 modulo p - 1, so the exponent is t·(p - 1) + 1
        lemma_small_mod(1, q as nat);
        lemma_mul_mod_noop(a * ai, b * bi, q);
        assert(ex == (a * ai) * (b * bi)) by (nonlinear_arith)
            requires ex == ((a * b) * ai) * bi;
        assert(1int % q == 1);
        assert((a * ai) % q == 1);
        assert((b * bi) % q == 1);
        assert(((a * ai) % q) * ((b * bi) % q) == 1);
        assert((ex as int) % q == 1);
        lemma_fundamental_div_mod(ex as int, q);
        let t = (ex as int) / q;
        lemma_div_pos_is_pos(ex as int, q);
        assert(ex == (t as nat) * (q as nat) + 1) by (nonlinear_arith)
            requires ex == q * t + (ex as int) % q, (ex as int) % q == 1, t >= 0, q >= 1;
        lemma_fermat_lift(m, p, t as nat);
        lemma_small_mod(m as nat, p as nat);
    }
}

/// The passes for a message reduced modulo `p` (see `lemma_shamir_recovers`).
proof fn lemma_recovers_reduced(p: int, m: int, a: int, b: int)
    requires
        spec_is_prime(p),
        0 <= m < p,
        coprime_mod(a, p - 1),
        coprime_mod(b, p - 1),
        shamir_defined(p, m, a, b),
        !(p == 2 && m == 0 && (a == 0 || b == 0)),
    ensures
        shamir_recovered(p, m, a, b) == m,
{
    let q = p - 1;
    if m == 0 {
        // nothing inverts 0, so both keys are positive
        lemma_coprime_prime(0, p);
        lemma_small_mod(0, p as nat);
        lemma_small_mod(0, q as nat);
        assert(spec_gcd(0, q as nat) == q) by {
            reveal_with_fuel(spec_gcd, 2);
        }
        assert(a >= 1);
        lemma_pow_adds(0, (a - 1) as nat, 1);
        lemma_pow1(0);
        assert(shamir_c1(p, m, a) == 0);
        assert(b >= 1);
        lemma_positive_keys(p, m, a, b);
    } else {
        // m is prime to p: every pass raises to the exponent modulo p - 1
        lemma_coprime_prime(m, p);
        lemma_small_mod(m as nat, p as nat);
        let ai = exp_inv(a, q);
        let bi = exp_inv(b, q);
        lemma_exp_inv(a, q);
        lemma_exp_inv(b, q);
        lemma_mod_bound(a, q);
        lemma_mod_bound(b, q);
        let a1 = (a % q) as nat;
        let b1 = (b % q) as nat;
        let ain = ai as nat;
        let bin = bi as nat;
        lemma_unit_exponent(m, p, a);
        let c1 = pow(m, a1) % p;
        lemma_unit_pow(m, a1, p);
        lemma_mod_twice(pow(m, a1), p);
        lemma_coprime_prime(c1, p);
        lemma_unit_exponent(c1, p, b);
        lemma_pow_mod_noop(pow(m, a1), b1, p);
        lemma_pow_multiplies(m, a1, b1);
        let c2 = pow(m, a1 * b1) % p;
        lemma_pow_mod_noop(pow(m, a1 * b1), ain, p);
        lemma_pow_multiplies(m, a1 * b1, ain);
        lemma_pow_mod_noop(pow(m, (a1 * b1) * ain), bin, p);
        lemma_pow_multiplies(m, (a1 * b1) * ain, bin);
        let ex = ((a1 * b1) * ain) * bin;
        assert(shamir_recovered(p, m, a, b) == pow(m, ex) % p);
        // the exponent is 1 modulo p - 1
        lemma_mul_mod_noop_left(a, ai, q);
        lemma_mul_mod_noop_left(b, bi, q);
        lemma_mul_mod_noop((a1 * ain) as int, (b1 * bin) as int, q);
        assert(ex == (a1 * ain) * (b1 * bin)) by (nonlinear_arith)
            requires ex == ((a1 * b1) * ain) * bin;
        lemma_mul_mod_noop(1, 1, q);
        assert(((a1 * ain) as int) % q == 1int % q);
        assert(((b1 * bin) as int) % q == 1int % q);
        assert((ex as int) % q == 1int % q);
        lemma_mod_bound(1, q);
        lemma_mod_twice(1, q);
        assert(ex % ((p - 1) as nat) == ((1int % q) as nat) % ((p - 1) as nat));
        lemma_fermat_exponent(m, p, ex, (1int % q) as nat);
        if q == 1 {
            lemma_pow0(m);
        } else {
            lemma_small_mod(1, q as nat);
            lemma_pow1(m);
        }
    }
}

/// Bob recovers the message: for a prime `p`, keys `a` and `b` with inverses
/// modulo `p - 1` and a message `m` for which the passes are defined, the three
/// passes give back `m mod p`. The one exception is `p = 2` with an even `m`
/// and a key 0: then `m^0 = 1` is sent in the first or second pass.
pub proof fn lemma_shamir_recovers(p: int, m: int, a: int, b: int)
    requires
        spec_is_prime(p),
        coprime_mod(a, p - 1),
        coprime_mod(b, p - 1),
        shamir_defined(p, m, a, b),
        !(p == 2 && m % 2 == 0 && (a == 0 || b == 0)),
    ensures
        shamir_recovered(p, m, a, b) == m % p,
{
    let m0 = m % p;
    lemma_mod_bound(m, p);
    lemma_mod_twice(m, p);
    if a >= 0 {
        lemma_pow_mod_noop(m, a as nat, p);
    }
    assert(inv_mod(m0, p) == inv_mod(m, p));
    assert(shamir_c1(p, m0, a) == shamir_c1(p, m, a));
    assert(shamir_recovered(p, m0, a, b) == shamir_recovered(p, m, a, b));
    lemma_recovers_reduced(p, m0, a, b);
}

/// Shamir's three-pass protocol for message `m` with Alice's key `a` and Bob's key `b`.
#[verifier::spinoff_prover]
#[verifier::rlimit(40)]
pub fn run(p: i128, m: i128, a: i128, b: i128) -> (r: CalcResult<Trace>)
    requires
        p <= TRIAL_LIMIT,
        spec_is_prime(p as int) ==> p <= MOD_LIMIT,
        spec_is_prime(p as int) ==> a > i128::MIN,
        spec_is_prime(p as int) ==> b > i128::MIN,
    ensures
        !spec_is_prime(p as int) ==> (r matches Err(CalcError::NichtPrim(s)) && s@ == dec(
            p as int,
        )),
        spec_is_prime(p as int) && spec_gcd(abs(a as int), (p - 1) as nat) != 1 ==> (r matches Err(
            CalcError::UngueltigeEingabe(s),
        ) && s@ == "gcd(a, p-1) muss 1 sein"@),
        spec_is_prime(p as int) && spec_gcd(abs(a as int), (p - 1) as nat) == 1 && spec_gcd(
            abs(b as int),
            (p - 1) as nat,
        ) != 1 ==> (r matches Err(CalcError::UngueltigeEingabe(s)) && s@
            == "gcd(b, p-1) muss 1 sein"@),
        spec_is_prime(p as int) && spec_gcd(abs(a as int), (p - 1) as nat) == 1 && spec_gcd(
            abs(b as int),
            (p - 1) as nat,
        ) == 1 ==> (if shamir_defined(p as int, m as int, a as int, b as int) {
            r matches Ok(t) && t.algorithm@ == "Shamir Three-Pass-Protokoll"@ && t.input_list()
                == seq![
                ("p"@, dec(p as int)),
                ("m"@, dec(m as int)),
                ("a (Alice)"@, dec(a as int)),
                ("b (Bob)"@, dec(b as int)),
            ] && t.results() == seq![
                ("Wiederhergestellter Klartext"@, dec(
                    shamir_recovered(p as int, m as int, a as int, b as int),
                )),
            ] && t.well_formed() && t.step_titles() == seq![
                "Schritt 1: Alice → Bob"@,
                "Schritt 2: Bob → Alice"@,
                "Schritt 3: Alice → Bob"@,
                "Bob entschlüsselt"@,
            ] && forall|i: int| 0 <= i < 4 ==> #[trigger] t.step_lines(i) == shamir_lines(
                p as int,
                m as int,
                a as int,
                b as int,
            )[i] && t.steps@[i].table is None
        } else {
            r matches Err(CalcError::KeinInverses(s)) && s@ == shamir_error(
                p as int,
                m as int,
                a as int,
            )
        }),
        !(p == 2 && m % 2 == 0 && (a == 0 || b == 0)) ==> (r matches Ok(t) ==> t.results()
            == seq![("Wiederhergestellter Klartext"@, dec(m as int % p as int))]),
{
    if !is_prime(p) {
        return Err(CalcError::NichtPrim(int_text(p)));
    }
    let phi = p - 1;
    if gcd(a, phi) != 1 {
        return Err(CalcError::UngueltigeEingabe(String::from_str("gcd(a, p-1) muss 1 sein")));
    }
    if gcd(b, phi) != 1 {
        return Err(CalcError::UngueltigeEingabe(String::from_str("gcd(b, p-1) muss 1 sein")));
    }
    let mut t = Trace::new("Shamir Three-Pass-Protokoll");
    t.input_int("p", p);
    t.input_int("m", m);
    t.input_int("a (Alice)", a);
    t.input_int("b (Bob)", b);

    proof {
        lemma_gcd_mod(a as int, phi as int);
        lemma_gcd_mod(b as int, phi as int);
    }
    let a_inv = if phi == 1 {
        1
    } else {
        match mod_inv(a, phi) {
            Ok(v) => v,
            Err(e) => return Err(e),
        }
    };
    let b_inv = if phi == 1 {
        1
    } else {
        match mod_inv(b, phi) {
            Ok(v) => v,
            Err(e) => return Err(e),
        }
    };

    let s1 = t.step("Schritt 1: Alice → Bob");
    let c1 = match mod_pow(m, a, p) {
        Ok(v) => v,
        Err(e) => return Err(e),
    };
    t.line_of(s1, &[Piece::Text("c1 = m^a mod p = "), Piece::Num(c1)]);

    let s2 = t.step("Schritt 2: Bob → Alice");
    let c2 = match mod_pow(c1, b, p) {
        Ok(v) => v,
        Err(e) => return Err(e),
    };
    t.line_of(s2, &[Piece::Text("c2 = c1^b mod p = "), Piece::Num(c2)]);

    let s3 = t.step("Schritt 3: Alice → Bob");
    let c3 = match mod_pow(c2, a_inv, p) {
        Ok(v) => v,
        Err(e) => return Err(e),
    };
    t.line_of(s3, &[Piece::Text("a^(-1) mod (p-1) = "), Piece::Num(a_inv)]);
    t.line_of(s3, &[Piece::Text("c3 = c2^(a^-1) mod p = "), Piece::Num(c3)]);

    let s4 = t.step("Bob entschlüsselt");
    let m_rec = match mod_pow(c3, b_inv, p) {
        Ok(v) => v,
        Err(e) => return Err(e),
    };
    t.line_of(s4, &[Piece::Text("b^(-1) mod (p-1) = "), Piece::Num(b_inv)]);
    t.line_of(s4, &[Piece::Text("m = c3^(b^-1) mod p = "), Piece::Num(m_rec)]);

    t.result_int("Wiederhergestellter Klartext", m_rec);
    proof {
        if !(p == 2 && m % 2 == 0 && (a == 0 || b == 0)) {
            lemma_shamir_recovers(p as int, m as int, a as int, b as int);
        }
        reveal_with_fuel(pieces_view, 3);
        let lines = shamir_lines(p as int, m as int, a as int, b as int);
        assert(t.step_titles() =~= seq![
            "Schritt 1: Alice → Bob"@,
            "Schritt 2: Bob → Alice"@,
            "Schritt 3: Alice → Bob"@,
            "Bob entschlüsselt"@,
        ]);
        assert(t.step_lines(0) =~= lines[0]);
        assert(t.step_lines(1) =~= lines[1]);
        assert(t.step_lines(2) =~= lines[2]);
        assert(t.step_lines(3) =~= lines[3]);
    }
    Ok(t)
}

} // verus!
