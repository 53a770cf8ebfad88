//! RSA signatures: `s = m^d mod n`, checked by `s^e mod n = m`.
use vstd::prelude::*;
use crate::error::{CalcError, CalcResult};
use crate::algorithms::rsa::{lemma_rsa_roundtrip, rsa_phi};
use crate::math::{
    MOD_LIMIT, coprime_mod, inv_error, mod_pow, mod_pow_defined, spec_is_prime, spec_mod_pow,
};
use crate::text::{Piece, bool_str, bool_text, dec, pieces_view, power_line};
use crate::trace::Trace;

verus! {

/// A signature verifies: for distinct primes `p`, `q`, an exponent `e >= 0` and
/// an exponent `d` with `e·d = 1 (mod (p-1)(q-1))`, the signature `s = m^d mod n`
/// of a message `m` in `[0, n)` (prime to `n` when `d` is negative, as signing
/// needs its inverse then) gives back `s^e mod n = m`, where `n = p·q`.
pub proof fn lemma_rsa_signature_verifies(p: int, q: int, e: int, d: int, m: int)
    requires
        spec_is_prime(p),
        spec_is_prime(q),
        p != q,
        e >= 0,
        d < 0 ==> coprime_mod(m, p * q),
        (e * d) % rsa_phi(p, q) == 1,
        0 <= m < p * q,
    ensures
        spec_mod_pow(spec_mod_pow(m, d, p * q), e, p * q) == m,
{
    assert(d * e == e * d) by (nonlinear_arith);
    lemma_rsa_roundtrip(p, q, d, e, m);
}

/// RSA signature of a message `m` in `[0, n)`.
pub fn sign(n: i128, d: i128, m: i128) -> (r: CalcResult<Trace>)
    requires
        0 <= m < n ==> n <= MOD_LIMIT && d > i128::MIN,
    ensures
        !(0 <= m < n) ==> (r matches Err(CalcError::Bereich(s)) && s@ == "m muss in [0, n) liegen"@),
        0 <= m < n && d < 0 && !coprime_mod(m as int, n as int) ==> (r matches Err(
            CalcError::KeinInverses(s),
        ) && s@ == inv_error(m as int, n as int)),
        0 <= m < n && mod_pow_defined(m as int, d as int, n as int) ==> (r matches Ok(t)
            && t.algorithm@ == "RSA-Signatur: Erzeugung"@ && t.input_list() == seq![
            ("n"@, dec(n as int)),
            ("d (privat)"@, dec(d as int)),
            ("m (Nachricht)"@, dec(m as int)),
        ] && t.results() == seq![("Signatur s"@, dec(spec_mod_pow(m as int, d as int, n as int)))]
            && t.well_formed() && t.step_titles() == seq!["Signatur berechnen"@] && t.step_lines(0)
            == seq![
            power_line(
                "s = m^d mod n = "@,
                m as int,
                d as int,
                n as int,
                spec_mod_pow(m as int, d as int, n as int),
            ),
        ] && t.steps@[0].table is None),
{
    if m < 0 || m >= n {
        return Err(CalcError::Bereich(String::from_str("m muss in [0, n) liegen")));
    }
    let mut t = Trace::new("RSA-Signatur: Erzeugung");
    t.input_int("n", n);
    t.input_int("d (privat)", d);
    t.input_int("m (Nachricht)", m);

    let s1 = t.step("Signatur berechnen");
    let s = match mod_pow(m, d, n) {
        Ok(v) => v,
        Err(e) => return Err(e),
    };
    t.line_of(
        s1,
        &[
            Piece::Text("s = m^d mod n = "),
            Piece::Num(m),
            Piece::Text("^"),
            Piece::Num(d),
            Piece::Text(" mod "),
            Piece::Num(n),
            Piece::Text(" = "),
            Piece::Num(s),
        ],
    );
    t.result_int("Signatur s", s);
    proof {
        reveal_with_fuel(pieces_view, 9);
        assert(t.step_titles() =~= seq!["Signatur berechnen"@]);
        assert(t.step_lines(0) =~= seq![
            power_line("s = m^d mod n = "@, m as int, d as int, n as int, s as int),
        ]);
    }
    Ok(t)
}

/// Checks an RSA signature: valid when `s^e mod n = m`.
pub fn verify(n: i128, e: i128, m: i128, s: i128) -> (r: CalcResult<Trace>)
    requires
        0 <= m < n && 0 <= s < n ==> n <= MOD_LIMIT && e > i128::MIN,
    ensures
        !(0 <= m < n) ==> (r matches Err(CalcError::Bereich(x)) && x@ == "m muss in [0, n) liegen"@),
        0 <= m < n && !(0 <= s < n) ==> (r matches Err(CalcError::Bereich(x)) && x@
            == "s muss in [0, n) liegen"@),
        0 <= m < n && 0 <= s < n && e < 0 && !coprime_mod(s as int, n as int) ==> (r matches Err(
            CalcError::KeinInverses(x),
        ) && x@ == inv_error(s as int, n as int)),
        0 <= m < n && 0 <= s < n && mod_pow_defined(s as int, e as int, n as int) ==> (r matches Ok(
            t,
        ) && t.algorithm@ == "RSA-Signatur: Verifikation"@ && t.input_list() == seq![
            ("n"@, dec(n as int)),
            ("e (öffentlich)"@, dec(e as int)),
            ("m (Nachricht)"@, dec(m as int)),
            ("s (Signatur)"@, dec(s as int)),
        ] && t.results() == seq![
            ("m' = s^e mod n"@, dec(spec_mod_pow(s as int, e as int, n as int))),
            ("Signatur gültig"@, bool_text(spec_mod_pow(s as int, e as int, n as int) == m)),
        ] && t.well_formed() && t.step_titles() == seq![
            "Wiederherstellung m' = s^e mod n"@,
            "Vergleich m' = m"@,
        ] && t.step_lines(0) == seq![
            power_line(
                "m' = s^e mod n = "@,
                s as int,
                e as int,
                n as int,
                spec_mod_pow(s as int, e as int, n as int),
            ),
        ] && t.step_lines(1) == seq![
            "m' = "@ + dec(spec_mod_pow(s as int, e as int, n as int)) + ",  m = "@ + dec(m as int),
            if spec_mod_pow(s as int, e as int, n as int) == m {
                "m' = m ✓ – Signatur ist gültig."@
            } else {
                "m' ≠ m – Signatur ist ungültig."@
            },
        ] && t.steps@[0].table is None && t.steps@[1].table is None),
{
    if m < 0 || m >= n {
        return Err(CalcError::Bereich(String::from_str("m muss in [0, n) liegen")));
    }
    if s < 0 || s >= n {
        return Err(CalcError::Bereich(String::from_str("s muss in [0, n) liegen")));
    }
    let mut t = Trace::new("RSA-Signatur: Verifikation");
    t.input_int("n", n);
    t.input_int("e (öffentlich)", e);
    t.input_int("m (Nachricht)", m);
    t.input_int("s (Signatur)", s);

    let s1 = t.step("Wiederherstellung m' = s^e mod n");
    let m_check = match mod_pow(s, e, n) {
        Ok(v) => v,
        Err(err) => return Err(err),
    };
    t.line_of(
        s1,
        &[
            Piece::Text("m' = s^e mod n = "),
            Piece::Num(s),
            Piece::Text("^"),
            Piece::Num(e),
            Piece::Text(" mod "),
            Piece::Num(n),
            Piece::Text(" = "),
            Piece::Num(m_check),
        ],
    );

    let s2 = t.step("Vergleich m' = m");
    let valid = m_check == m;
    t.line_of(s2, &[Piece::Text("m' = "), Piece::Num(m_check), Piece::Text(",  m = "), Piece::Num(m)]);
    if valid {
        t.line(s2, "m' = m ✓ – Signatur ist gültig.");
    } else {
        t.line(s2, "m' ≠ m – Signatur ist ungültig.");
    }
    t.result_int("m' = s^e mod n", m_check);
    t.result("Signatur gültig", bool_str(valid));
    proof {
        reveal_with_fuel(pieces_view, 9);
        assert(t.step_titles() =~= seq![
            "Wiederherstellung m' = s^e mod n"@,
            "Vergleich m' = m"@,
        ]);
        assert(t.step_lines(0) =~= seq![
            power_line("m' = s^e mod n = "@, s as int, e as int, n as int, m_check as int),
        ]);
        assert(t.step_lines(1).len() == 2);
        assert(t.step_lines(1)[0] =~= "m' = "@ + dec(m_check as int) + ",  m = "@ + dec(m as int));
    }
    Ok(t)
}

} // verus!
