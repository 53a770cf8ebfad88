//! ElGamal encryption and decryption over `(Z/pZ)*`.
use vstd::prelude::*;
use vstd::arithmetic::div_mod::{
    lemma_mod_bound, lemma_mod_twice, lemma_mul_mod_noop_left, lemma_mul_mod_noop_right,
    lemma_small_mod,
};
use vstd::arithmetic::power::{lemma_pow_mod_noop, lemma_pow_multiplies, pow};
use crate::error::{CalcError, CalcResult};
use crate::fermat::{lemma_unit_exponent, lemma_unit_pow};
use crate::math::{
    MOD_LIMIT, TRIAL_LIMIT, coprime_mod, inv_error, inv_mod, is_prime, lemma_coprime_prime, lemma_inv_mod, mod_inv,
    mod_pow, mod_pow_defined, rem_euclid, spec_is_prime, spec_mod_pow,
};
use crate::text::{Piece, dec, int_text, pair_text, pair_view, pieces_view};
use crate::trace::Trace;

verus! {

/// The public key `y = g^x mod p`.
pub open spec fn elgamal_y(p: int, g: int, x: int) -> int {
    spec_mod_pow(g, x, p)
}

/// The ciphertext `(g^k mod p, m * y^k mod p)`.
pub open spec fn elgamal_cipher(p: int, g: int, x: int, m: int, k: int) -> (int, int) {
    (spec_mod_pow(g, k, p), (m * spec_mod_pow(elgamal_y(p, g, x), k, p)) % p)
}

/// All exponentiations of the encryption are defined.
pub open spec fn elgamal_encrypt_defined(p: int, g: int, x: int, k: int) -> bool {
    mod_pow_defined(g, x, p) && mod_pow_defined(g, k, p) && mod_pow_defined(
        elgamal_y(p, g, x),
        k,
        p,
    )
}

/// The message of the first exponentiation of the encryption that has no
/// inverse to work with: `y = g^x`, `c1 = g^k`, `y^k` in this order.
pub open spec fn elgamal_encrypt_error(p: int, g: int, x: int, k: int) -> Seq<char> {
    if !mod_pow_defined(g, x, p) || !mod_pow_defined(g, k, p) {
        inv_error(g, p)
    } else {
        inv_error(elgamal_y(p, g, x), p)
    }
}

/// The message when decryption finds no inverse: for `c1` (negative `x`), else
/// for the mask.
pub open spec fn elgamal_decrypt_error(p: int, x: int, c1: int) -> Seq<char> {
    if !mod_pow_defined(c1, x, p) {
        inv_error(c1, p)
    } else {
        inv_error(elgamal_mask(p, x, c1), p)
    }
}

/// The mask `s = c1^x mod p` that decryption removes.
pub open spec fn elgamal_mask(p: int, x: int, c1: int) -> int {
    spec_mod_pow(c1, x, p)
}

/// The plaintext `c2 * s^(-1) mod p`.
pub open spec fn elgamal_plain(p: int, x: int, c1: int, c2: int) -> int {
    (c2 * inv_mod(elgamal_mask(p, x, c1), p)) % p
}

/// Decryption undoes encryption, also with any other private exponent `xd`
/// that gives the same public key: with a prime `p`, a base `g` that `p` does
/// not divide, exponents `x`, `xd` and `k` with `g^xd = g^x (mod p)` and a
/// message `m` in `[0, p)`, decrypting the cipher text of `m` with `xd` gives `m`.
pub proof fn lemma_elgamal_decrypts_with_equivalent_key(p: int, g: int, x: int, xd: int, m: int, k: int)
    requires
        spec_is_prime(p),
        g % p != 0,
        spec_mod_pow(g, xd, p) == spec_mod_pow(g, x, p),
        0 <= m < p,
    ensures
        coprime_mod(elgamal_mask(p, xd, elgamal_cipher(p, g, x, m, k).0), p),
        elgamal_plain(p, xd, elgamal_cipher(p, g, x, m, k).0, elgamal_cipher(p, g, x, m, k).1) == m,
{
    let q = p - 1;
    lemma_coprime_prime(g, p);
    lemma_mod_bound(k, q);
    lemma_mod_bound(xd, q);
    let kn = (k % q) as nat;
    let dn = (xd % q) as nat;
    // c1 = g^k' and y = g^xd' with reduced exponents; both are prime to p
    lemma_unit_exponent(g, p, k);
    lemma_unit_exponent(g, p, xd);
    let c1 = pow(g, kn) % p;
    let y = pow(g, dn) % p;
    assert(elgamal_y(p, g, x) == y);
    lemma_unit_pow(g, kn, p);
    lemma_unit_pow(g, dn, p);
    lemma_mod_twice(pow(g, kn), p);
    lemma_mod_twice(pow(g, dn), p);
    lemma_coprime_prime(c1, p);
    lemma_coprime_prime(y, p);
    lemma_unit_exponent(c1, p, xd);
    lemma_unit_exponent(y, p, k);
    // the mask c1^xd = g^(k' xd') = y^k (mod p)
    lemma_pow_mod_noop(pow(g, kn), dn, p);
    lemma_pow_multiplies(g, kn, dn);
    lemma_pow_multiplies(g, dn, kn);
    assert(kn * dn == dn * kn) by (nonlinear_arith);
    lemma_pow_mod_noop(pow(g, dn), kn, p);
    let t = pow(g, dn * kn) % p;
    assert(elgamal_mask(p, xd, c1) == t);
    assert(spec_mod_pow(elgamal_y(p, g, x), k, p) == t);
    lemma_unit_pow(g, dn * kn, p);
    lemma_mod_twice(pow(g, dn * kn), p);
    lemma_coprime_prime(t, p);
    lemma_inv_mod(t, p);
    let it = inv_mod(t, p);
    // (m t mod p) · t^-1 = m (t t^-1) = m (mod p)
    lemma_mul_mod_noop_left(m * t, it, p);
    assert((m * t) * it == m * (t * it)) by (nonlinear_arith);
    lemma_mul_mod_noop_right(m, t * it, p);
    lemma_small_mod(1, p as nat);
    lemma_small_mod(m as nat, p as nat);
}

/// Decryption undoes encryption: with a prime `p`, a base `g` that `p` does not
/// divide, any exponents `x` and `k` and a message `m` in `[0, p)`, decrypting
/// the cipher text of `m` with the private key `x` gives `m`.
pub proof fn lemma_elgamal_roundtrip(p: int, g: int, x: int, m: int, k: int)
    requires
        spec_is_prime(p),
        g % p != 0,
        0 <= m < p,
    ensures
        coprime_mod(elgamal_mask(p, x, elgamal_cipher(p, g, x, m, k).0), p),
        elgamal_plain(p, x, elgamal_cipher(p, g, x, m, k).0, elgamal_cipher(p, g, x, m, k).1) == m,
{
    lemma_elgamal_decrypts_with_equivalent_key(p, g, x, x, m, k);
}

/// ElGamal encryption of `m` in `[0, p)` with private key `x` and ephemeral `k`.
pub fn encrypt(p: i128, g: i128, x: i128, m: i128, k: i128) -> (r: CalcResult<Trace>)
    requires
        p <= TRIAL_LIMIT,
        spec_is_prime(p as int) ==> p <= MOD_LIMIT,
        spec_is_prime(p as int) ==> x > i128::MIN,
        spec_is_prime(p as int) ==> k > i128::MIN,
    ensures
        !spec_is_prime(p as int) ==> (r matches Err(CalcError::NichtPrim(s)) && s@ == dec(
            p as int,
        )),
        spec_is_prime(p as int) && !(0 <= m < p) ==> (r matches Err(CalcError::Bereich(s)) && s@
            == "m muss in [0, p) liegen"@),
        spec_is_prime(p as int) && 0 <= m < p && !elgamal_encrypt_defined(
            p as int,
            g as int,
            x as int,
            k as int,
        ) ==> (r matches Err(CalcError::KeinInverses(s)) && s@ == elgamal_encrypt_error(
            p as int,
            g as int,
            x as int,
            k as int,
        )),
        spec_is_prime(p as int) && 0 <= m < p && elgamal_encrypt_defined(
            p as int,
            g as int,
            x as int,
            k as int,
        ) ==> (r matches Ok(t) && t.algorithm@ == "ElGamal-Verschlüsselung"@ && t.input_list()
            == seq![
            ("p"@, dec(p as int)),
            ("g"@, dec(g as int)),
            ("x (privat)"@, dec(x as int)),
            ("m"@, dec(m as int)),
            ("k (ephemeral)"@, dec(k as int)),
        ] && t.results() == seq![
            ("Chiffrat (c1, c2)"@, pair_view(
                elgamal_cipher(p as int, g as int, x as int, m as int, k as int).0,
                elgamal_cipher(p as int, g as int, x as int, m as int, k as int).1,
            )),
        ] && t.well_formed() && t.step_titles() == seq!["Öffentlicher Schlüssel"@, "Chiffrat"@]
            && t.step_lines(0) == seq!["y = g^x mod p = "@ + dec(elgamal_y(p as int, g as int, x as int))]
            && t.step_lines(1) == seq![
            "c1 = g^k mod p = "@ + dec(elgamal_cipher(p as int, g as int, x as int, m as int, k as int).0),
            "c2 = m · y^k mod p = "@ + dec(
                elgamal_cipher(p as int, g as int, x as int, m as int, k as int).1,
            ),
        ] && t.steps@[0].table is None && t.steps@[1].table is None),
{
    if !is_prime(p) {
        return Err(CalcError::NichtPrim(int_text(p)));
    }
    if m < 0 || m >= p {
        return Err(CalcError::Bereich(String::from_str("m muss in [0, p) liegen")));
    }
    let mut t = Trace::new("ElGamal-Verschlüsselung");
    t.input_int("p", p);
    t.input_int("g", g);
    t.input_int("x (privat)", x);
    t.input_int("m", m);
    t.input_int("k (ephemeral)", k);

    let s1 = t.step("Öffentlicher Schlüssel");
    let y = match mod_pow(g, x, p) {
        Ok(v) => v,
        Err(e) => return Err(e),
    };
    t.line_of(s1, &[Piece::Text("y = g^x mod p = "), Piece::Num(y)]);

    let s2 = t.step("Chiffrat");
    let c1 = match mod_pow(g, k, p) {
        Ok(v) => v,
        Err(e) => return Err(e),
    };
    let yk = match mod_pow(y, k, p) {
        Ok(v) => v,
        Err(e) => return Err(e),
    };
    proof {
        crate::math::lemma_product_fits(m as int, yk as int);
    }
    let c2 = rem_euclid(m * yk, p);
    t.line_of(s2, &[Piece::Text("c1 = g^k mod p = "), Piece::Num(c1)]);
    t.line_of(s2, &[Piece::Text("c2 = m · y^k mod p = "), Piece::Num(c2)]);

    let c = pair_text(c1, c2);
    t.result("Chiffrat (c1, c2)", c.as_str());
    proof {
        reveal_with_fuel(pieces_view, 3);
        assert(t.step_titles() =~= seq!["Öffentlicher Schlüssel"@, "Chiffrat"@]);
        assert(t.step_lines(0) =~= seq!["y = g^x mod p = "@ + dec(y as int)]);
        assert(t.step_lines(1) =~= seq![
            "c1 = g^k mod p = "@ + dec(c1 as int),
            "c2 = m · y^k mod p = "@ + dec(c2 as int),
        ]);
    }
    Ok(t)
}

/// ElGamal decryption `m = c2 * (c1^x)^(-1) mod p`.
pub fn decrypt(p: i128, x: i128, c1: i128, c2: i128) -> (r: CalcResult<Trace>)
    requires
        p <= MOD_LIMIT,
        x > i128::MIN,
        -MOD_LIMIT < c2 < MOD_LIMIT,
    ensures
        p <= 0 ==> (r matches Err(CalcError::Bereich(s)) && s@ == "Modulus muss > 0 sein"@),
        p > 0 && !(mod_pow_defined(c1 as int, x as int, p as int) && coprime_mod(
            elgamal_mask(p as int, x as int, c1 as int),
            p as int,
        )) ==> (r matches Err(CalcError::KeinInverses(s)) && s@ == elgamal_decrypt_error(
            p as int,
            x as int,
            c1 as int,
        )),
        mod_pow_defined(c1 as int, x as int, p as int) && coprime_mod(
            elgamal_mask(p as int, x as int, c1 as int),
            p as int,
        ) ==> (r matches Ok(t) && t.algorithm@ == "ElGamal-Entschlüsselung"@ && t.input_list()
            == seq![
            ("p"@, dec(p as int)),
            ("x"@, dec(x as int)),
            ("c1"@, dec(c1 as int)),
            ("c2"@, dec(c2 as int)),
        ] && t.results() == seq![
            ("Klartext m"@, dec(elgamal_plain(p as int, x as int, c1 as int, c2 as int))),
        ] && t.well_formed() && t.step_titles() == seq!["Inverses Maskierungselement"@, "Klartext"@]
            && t.step_lines(0) == seq![
            "s = c1^x mod p = "@ + dec(elgamal_mask(p as int, x as int, c1 as int)),
            "s^(-1) mod p = "@ + dec(inv_mod(elgamal_mask(p as int, x as int, c1 as int), p as int)),
        ] && t.step_lines(1) == seq![
            "m = c2 · s^(-1) mod p = "@ + dec(elgamal_plain(p as int, x as int, c1 as int, c2 as int)),
        ] && t.steps@[0].table is None && t.steps@[1].table is None),
{
    let mut t = Trace::new("ElGamal-Entschlüsselung");
    t.input_int("p", p);
    t.input_int("x", x);
    t.input_int("c1", c1);
    t.input_int("c2", c2);

    let s1 = t.step("Inverses Maskierungselement");
    let s = match mod_pow(c1, x, p) {
        Ok(v) => v,
        Err(e) => return Err(e),
    };
    let s_inv = match mod_inv(s, p) {
        Ok(v) => v,
        Err(e) => return Err(e),
    };
    t.line_of(s1, &[Piece::Text("s = c1^x mod p = "), Piece::Num(s)]);
    t.line_of(s1, &[Piece::Text("s^(-1) mod p = "), Piece::Num(s_inv)]);

    let s2 = t.step("Klartext");
    proof {
        crate::math::lemma_product_fits(c2 as int, s_inv as int);
    }
    let m = rem_euclid(c2 * s_inv, p);
    t.line_of(s2, &[Piece::Text("m = c2 · s^(-1) mod p = "), Piece::Num(m)]);
    t.result_int("Klartext m", m);
    proof {
        reveal_with_fuel(pieces_view, 3);
        assert(t.step_titles() =~= seq!["Inverses Maskierungselement"@, "Klartext"@]);
        assert(t.step_lines(0) =~= seq![
            "s = c1^x mod p = "@ + dec(s as int),
            "s^(-1) mod p = "@ + dec(s_inv as int),
        ]);
        assert(t.step_lines(1) =~= seq!["m = c2 · s^(-1) mod p = "@ + dec(m as int)]);
    }
    Ok(t)
}

} // verus!
