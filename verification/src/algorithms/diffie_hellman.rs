//! Diffie-Hellman key exchange.
use vstd::prelude::*;
use vstd::arithmetic::div_mod::*;
use vstd::arithmetic::power::*;
use crate::error::{CalcError, CalcResult};
use crate::math::{
    MOD_LIMIT, TRIAL_LIMIT, inv_error, is_prime, mod_pow, mod_pow_defined, spec_is_prime, spec_mod_pow,
};
use crate::text::{Piece, dec, int_text, pieces_view};
use crate::trace::Trace;

verus! {

/// Alice's key `K_A = (g^b)^a mod p`.
pub open spec fn dh_key_a(p: int, g: int, a: int, b: int) -> int {
    spec_mod_pow(spec_mod_pow(g, b, p), a, p)
}

/// Bob's key `K_B = (g^a)^b mod p`.
pub open spec fn dh_key_b(p: int, g: int, a: int, b: int) -> int {
    spec_mod_pow(spec_mod_pow(g, a, p), b, p)
}

/// All four exponentiations of the exchange are defined.
pub open spec fn dh_defined(p: int, g: int, a: int, b: int) -> bool {
    &&& mod_pow_defined(g, a, p)
    &&& mod_pow_defined(g, b, p)
    &&& mod_pow_defined(spec_mod_pow(g, b, p), a, p)
    &&& mod_pow_defined(spec_mod_pow(g, a, p), b, p)
}

/// The message of the first exponentiation that has no inverse to work with:
/// `A = g^a`, `B = g^b`, `K_A = B^a`, `K_B = A^b` in this order.
pub open spec fn dh_error(p: int, g: int, a: int, b: int) -> Seq<char> {
    if !mod_pow_defined(g, a, p) || !mod_pow_defined(g, b, p) {
        inv_error(g, p)
    } else if !mod_pow_defined(spec_mod_pow(g, b, p), a, p) {
        inv_error(spec_mod_pow(g, b, p), p)
    } else {
        inv_error(spec_mod_pow(g, a, p), p)
    }
}

/// Both parties derive the same key: `(g^b)^a = (g^a)^b (mod p)` for
/// nonnegative private exponents.
pub proof fn lemma_dh_agree(p: int, g: int, a: int, b: int)
    requires
        p > 0,
        a >= 0,
        b >= 0,
    ensures
        dh_key_a(p, g, a, b) == dh_key_b(p, g, a, b),
        dh_key_a(p, g, a, b) == pow(g, (a * b) as nat) % p,
{
    lemma_pow_mod_noop(pow(g, b as nat), a as nat, p);
    lemma_pow_mod_noop(pow(g, a as nat), b as nat, p);
    lemma_pow_multiplies(g, b as nat, a as nat);
    lemma_pow_multiplies(g, a as nat, b as nat);
    assert((b as nat) * (a as nat) == (a as nat) * (b as nat)) by (nonlinear_arith);
    assert(a * b >= 0) by (nonlinear_arith) requires a >= 0, b >= 0;
}

/// Diffie-Hellman exchange over `(Z/pZ)*` with private exponents `a` and `b`.
pub fn key_exchange(p: i128, g: i128, a: i128, b: i128) -> (r: CalcResult<Trace>)
    requires
        p <= TRIAL_LIMIT,
        spec_is_prime(p as int) ==> p <= MOD_LIMIT,
        spec_is_prime(p as int) ==> a > i128::MIN,
        spec_is_prime(p as int) ==> b > i128::MIN,
    ensures
        !spec_is_prime(p as int) ==> (r matches Err(CalcError::NichtPrim(s)) && s@ == dec(
            p as int,
        )),
        spec_is_prime(p as int) && !dh_defined(p as int, g as int, a as int, b as int) ==> (r matches Err(
            CalcError::KeinInverses(s),
        ) && s@ == dh_error(p as int, g as int, a as int, b as int)),
        spec_is_prime(p as int) && dh_defined(p as int, g as int, a as int, b as int) && dh_key_a(
            p as int,
            g as int,
            a as int,
            b as int,
        ) != dh_key_b(p as int, g as int, a as int, b as int) ==> (r matches Err(
            CalcError::KeineLoesung(s),
        ) && s@ == "Schlüssel stimmen nicht überein"@),
        spec_is_prime(p as int) && dh_defined(p as int, g as int, a as int, b as int) && dh_key_a(
            p as int,
            g as int,
            a as int,
            b as int,
        ) == dh_key_b(p as int, g as int, a as int, b as int) ==> (r matches Ok(t) && t.algorithm@
            == "Diffie-Hellman-Schlüsselaustausch"@ && t.input_list() == seq![
            ("p"@, dec(p as int)),
            ("g"@, dec(g as int)),
            ("a"@, dec(a as int)),
            ("b"@, dec(b as int)),
        ] && t.results() == seq![
            ("Gemeinsamer Schlüssel K"@, dec(dh_key_a(p as int, g as int, a as int, b as int))),
        ] && t.well_formed() && t.step_titles() == seq!["Öffentliche Werte"@, "Gemeinsamer Schlüssel"@]
            && t.step_lines(0) == seq![
            "A = g^a mod p = "@ + dec(spec_mod_pow(g as int, a as int, p as int)),
            "B = g^b mod p = "@ + dec(spec_mod_pow(g as int, b as int, p as int)),
        ] && t.step_lines(1) == seq![
            "K_A = B^a mod p = "@ + dec(dh_key_a(p as int, g as int, a as int, b as int)),
            "K_B = A^b mod p = "@ + dec(dh_key_b(p as int, g as int, a as int, b as int)),
        ] && t.steps@[0].table is None && t.steps@[1].table is None),
{
    if !is_prime(p) {
        return Err(CalcError::NichtPrim(int_text(p)));
    }
    let mut t = Trace::new("Diffie-Hellman-Schlüsselaustausch");
    t.input_int("p", p);
    t.input_int("g", g);
    t.input_int("a", a);
    t.input_int("b", b);

    let s1 = t.step("Öffentliche Werte");
    let big_a = match mod_pow(g, a, p) {
        Ok(v) => v,
        Err(e) => return Err(e),
    };
    let big_b = match mod_pow(g, b, p) {
        Ok(v) => v,
        Err(e) => return Err(e),
    };
    t.line_of(s1, &[Piece::Text("A = g^a mod p = "), Piece::Num(big_a)]);
    t.line_of(s1, &[Piece::Text("B = g^b mod p = "), Piece::Num(big_b)]);

    let s2 = t.step("Gemeinsamer Schlüssel");
    let k_a = match mod_pow(big_b, a, p) {
        Ok(v) => v,
        Err(e) => return Err(e),
    };
    let k_b = match mod_pow(big_a, b, p) {
        Ok(v) => v,
        Err(e) => return Err(e),
    };
    t.line_of(s2, &[Piece::Text("K_A = B^a mod p = "), Piece::Num(k_a)]);
    t.line_of(s2, &[Piece::Text("K_B = A^b mod p = "), Piece::Num(k_b)]);
    if k_a != k_b {
        return Err(CalcError::KeineLoesung(String::from_str("Schlüssel stimmen nicht überein")));
    }
    t.result_int("Gemeinsamer Schlüssel K", k_a);
    proof {
        reveal_with_fuel(pieces_view, 3);
        assert(t.step_titles() =~= seq!["Öffentliche Werte"@, "Gemeinsamer Schlüssel"@]);
        assert(t.step_lines(0) =~= seq![
            "A = g^a mod p = "@ + dec(big_a as int),
            "B = g^b mod p = "@ + dec(big_b as int),
        ]);
        assert(t.step_lines(1) =~= seq![
            "K_A = B^a mod p = "@ + dec(k_a as int),
            "K_B = A^b mod p = "@ + dec(k_b as int),
        ]);
    }
    Ok(t)
}

} // verus!
