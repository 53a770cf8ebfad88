//! RSA from the public key `(n, e)` and a cipher text `y`: factor `n`, derive
//! `d` and decrypt; optionally check against a given `phi(n)`.
use vstd::prelude::*;
use crate::error::{CalcError, CalcResult};
use crate::math::{MOD_LIMIT, abs, inv_mod, mod_pow, spec_gcd, spec_mod_pow};
use crate::playbooks::common::{
    factor_line, private_exponent, private_key_lines, rsa_factors, trunc_rem, two_prime_factor_table,
    two_prime_table, two_primes,
};
use crate::text::{dec, power_line, push_int, push_str, text_int};
use crate::trace::Trace;

verus! {

/// The text lines of the steps when `n = p · q`, `e` is invertible and a given
/// `phi(n)` agrees: five steps, and a sixth when `phi(n)` is given.
pub open spec fn rsa_decrypt_lines(n: int, e: int, y: int, p: int, q: int, given: bool) -> Seq<
    Seq<Seq<char>>,
> {
    let phi = (p - 1) * (q - 1);
    let d = inv_mod(e, phi);
    let x = spec_mod_pow(y, d, n);
    seq![
        seq![factor_line(p, q)],
        seq!["phi(n) = (p - 1)(q - 1) = "@ + dec(p - 1) + " · "@ + dec(q - 1) + " = "@ + dec(phi)],
        private_key_lines(e, phi),
        seq![power_line("x = y^d mod n = "@, y, d, n, x)],
        seq![
            "Ohne Faktorisierung von n wird d direkt als modulares Inverses berechnet:"@,
            "  d = e^(-1) mod phi(n)"@,
            "  x = y^d mod n"@,
            "Die Faktoren p, q werden nicht benötigt, weil phi(n) genügt, um d zu bestimmen."@,
        ],
    ] + if given {
        seq![
            seq![
                "Gegeben: phi(n) = "@ + dec(phi),
                "Berechnet aus Faktorisierung: phi(n) = "@ + dec(phi),
                "phi-Werte stimmen überein ✓"@,
                "d (aus gegebenem phi) = "@ + dec(d),
                "x (aus gegebenem phi) = y^d mod n = "@ + dec(x),
                "Lösung aus a) bestätigt ✓"@,
            ],
        ]
    } else {
        Seq::empty()
    }
}

/// The titles of the steps, with the sixth when `phi(n)` is given.
pub open spec fn rsa_decrypt_titles(given: bool) -> Seq<Seq<char>> {
    seq![
        "a) Faktorisierung von n"@,
        "a) Eulersche Phi-Funktion phi(n)"@,
        "a) Privater Schlüssel d = e^(-1) mod phi(n)"@,
        "a) Entschlüsselung x = y^d mod n"@,
        "b) Vorgehen, wenn phi(n) gegeben ist"@,
    ] + if given {
        seq!["b) Verifikation mit gegebenem phi(n)"@]
    } else {
        Seq::empty()
    }
}

/// Breaks RSA from `(n, e)` and `y`: `n = p · q`, `phi = (p-1)(q-1)`,
/// `d = e^-1 mod phi`, `x = y^d mod n`; a given `phi(n)` must agree.
pub fn run(n: i128, e: i128, y: i128, phi_geg: Option<i128>) -> (r: CalcResult<Trace>)
    requires
        n > 1 && 0 <= y < n ==> n <= MOD_LIMIT && abs(e as int) * n <= i128::MAX,
    ensures
        n <= 1 ==> (r matches Err(CalcError::Bereich(s)) && s@ == "n muss > 1 sein"@),
        n > 1 && !(0 <= y < n) ==> (r matches Err(CalcError::Bereich(s)) && s@
            == "y muss in [0, n) liegen"@),
        n > 1 && 0 <= y < n && (forall|p: int, q: int| !#[trigger] two_primes(n as int, p, q))
            ==> (r matches Err(CalcError::UngueltigeEingabe(s)) && s@
            == "n ist kein Produkt zweier verschiedener Primzahlen"@),
        forall|p: int, q: int|
            #![trigger two_primes(n as int, p, q)]
            n > 1 && 0 <= y < n && two_primes(n as int, p, q) ==> ({
                let phi = (p - 1) * (q - 1);
                let d = inv_mod(e as int, phi);
                if spec_gcd(abs(e as int), phi as nat) != 1 {
                    r matches Err(CalcError::UngueltigeEingabe(s)) && s@ == "gcd(e, phi(n)) = "@
                        + dec(spec_gcd(abs(e as int), phi as nat) as int) + " ≠ 1"@
                } else if phi_geg matches Some(v) && v != phi {
                    r matches Err(CalcError::KeineLoesung(s)) && s@ == "phi-Werte inkonsistent"@
                } else {
                    (e * d) % phi == 1 && (r matches Ok(t) && t.algorithm@
                        == "RSA: aus (n, e) und y → d und x"@ && t.input_list() == seq![
                        ("n"@, dec(n as int)),
                        ("e"@, dec(e as int)),
                        ("y (Geheimtext)"@, dec(y as int)),
                    ] + match phi_geg {
                        Some(v) => seq![("phi(n) (gegeben)"@, dec(v as int))],
                        None => Seq::empty(),
                    } && t.results() == seq![
                        ("p"@, dec(p)),
                        ("q"@, dec(q)),
                        ("phi(n)"@, dec(phi)),
                        ("d (privat)"@, dec(d)),
                        ("x (Klartext)"@, dec(spec_mod_pow(y as int, d, n as int))),
                    ] && t.well_formed() && t.step_titles() == rsa_decrypt_titles(phi_geg is Some)
                        && (forall|i: int| 0 <= i < t.steps@.len() ==> #[trigger] t.step_lines(i)
                        == rsa_decrypt_lines(n as int, e as int, y as int, p, q, phi_geg is Some)[i]
                        && (i != 0 ==> t.steps@[i].table is None)) && (t.steps@[0].table matches Some(
                        tb,
                    ) && two_prime_table(tb, p, q)))
                }
            }),
{
    if n <= 1 {
        return Err(CalcError::Bereich(String::from_str("n muss > 1 sein")));
    }
    if y < 0 || y >= n {
        return Err(CalcError::Bereich(String::from_str("y muss in [0, n) liegen")));
    }
    let mut t = Trace::new("RSA: aus (n, e) und y → d und x");
    t.input_int("n", n);
    t.input_int("e", e);
    t.input_int("y (Geheimtext)", y);
    match phi_geg {
        Some(v) => t.input_int("phi(n) (gegeben)", v),
        None => {},
    }
    let ghost inputs = t.input_list();

    let s1 = t.step("a) Faktorisierung von n");
    let (factors, pq) = rsa_factors(n);
    let (p, q) = match pq {
        Some(v) => v,
        None => {
            return Err(
                CalcError::UngueltigeEingabe(
                    String::from_str("n ist kein Produkt zweier verschiedener Primzahlen"),
                ),
            );
        },
    };
    proof {
        assert forall|p2: int, q2: int| #[trigger] two_primes(n as int, p2, q2) implies p2 == p
            && q2 == q by {
            crate::math::lemma_two_prime_factorization(n as int, p2, q2, factors@);
            crate::math::lemma_two_prime_factorization(n as int, p as int, q as int, factors@);
        }
        assert(2 <= p && p < q && p * q == n);
        assert((p - 1) * (q - 1) <= n) by (nonlinear_arith)
            requires 2 <= p, p < q, p * q == n;
        assert((p - 1) * (q - 1) >= 2) by (nonlinear_arith)
            requires 2 <= p, p < q;
    }
    t.table(s1, two_prime_factor_table(&factors, p, q));
    let mut l1 = text_int("p = ", p);
    push_str(&mut l1, ",  q = ");
    push_int(&mut l1, q);
    push_str(&mut l1, ",  n = p · q = ");
    push_int(&mut l1, p * q);
    t.line(s1, l1.as_str());

    let s2 = t.step("a) Eulersche Phi-Funktion phi(n)");
    let phi = (p - 1) * (q - 1);
    let mut l2 = text_int("phi(n) = (p - 1)(q - 1) = ", p - 1);
    push_str(&mut l2, " · ");
    push_int(&mut l2, q - 1);
    push_str(&mut l2, " = ");
    push_int(&mut l2, phi);
    t.line(s2, l2.as_str());

    let s3 = t.step("a) Privater Schlüssel d = e^(-1) mod phi(n)");
    assert(e != i128::MIN) by (nonlinear_arith)
        requires abs(e as int) * n <= i128::MAX, n >= 2;
    let d = match private_exponent(e, phi) {
        Ok(v) => v,
        Err(err) => return Err(err),
    };
    t.line(s3, "gcd(e, phi(n)) = 1 ✓");
    let mut l3 = text_int("d = e^(-1) mod phi(n) = ", e);
    push_str(&mut l3, "^(-1) mod ");
    push_int(&mut l3, phi);
    push_str(&mut l3, " = ");
    push_int(&mut l3, d);
    t.line(s3, l3.as_str());
    proof {
        let ae = abs(e as int) as int;
        assert(-(ae * n) <= e * d <= ae * n) by (nonlinear_arith)
            requires 0 <= d < n, ae >= 0, e == ae || e == -ae;
    }
    let probe = trunc_rem(e * d, phi);
    let l4 = text_int("Probe: e · d mod phi(n) = ", probe);
    t.line(s3, l4.as_str());

    let s4 = t.step("a) Entschlüsselung x = y^d mod n");
    let x = match mod_pow(y, d, n) {
        Ok(v) => v,
        Err(err) => return Err(err),
    };
    let mut l5 = text_int("x = y^d mod n = ", y);
    push_str(&mut l5, "^");
    push_int(&mut l5, d);
    push_str(&mut l5, " mod ");
    push_int(&mut l5, n);
    push_str(&mut l5, " = ");
    push_int(&mut l5, x);
    t.line(s4, l5.as_str());

    let s5 = t.step("b) Vorgehen, wenn phi(n) gegeben ist");
    t.line(s5, "Ohne Faktorisierung von n wird d direkt als modulares Inverses berechnet:");
    t.line(s5, "  d = e^(-1) mod phi(n)");
    t.line(s5, "  x = y^d mod n");
    t.line(
        s5,
        "Die Faktoren p, q werden nicht benötigt, weil phi(n) genügt, um d zu bestimmen.",
    );

    let ghost lines = rsa_decrypt_lines(n as int, e as int, y as int, p as int, q as int, phi_geg is Some);
    proof {
        assert(t.step_titles() =~= rsa_decrypt_titles(false));
        assert(t.step_lines(0) =~= lines[0]);
        assert(t.step_lines(1) =~= lines[1]);
        assert(t.step_lines(2) =~= lines[2]);
        assert(t.step_lines(3) =~= lines[3]);
        assert(t.step_lines(4) =~= lines[4]);
    }
    let ghost before = t;
    match phi_geg {
        Some(phi_v) => {
            let s6 = t.step("b) Verifikation mit gegebenem phi(n)");
            let g1 = text_int("Gegeben: phi(n) = ", phi_v);
            t.line(s6, g1.as_str());
            let g2 = text_int("Berechnet aus Faktorisierung: phi(n) = ", phi);
            t.line(s6, g2.as_str());
            if phi_v != phi {
                t.line(s6, "Werte stimmen NICHT überein – Eingabe oder Faktorisierung prüfen.");
                return Err(CalcError::KeineLoesung(String::from_str("phi-Werte inkonsistent")));
            }
            t.line(s6, "phi-Werte stimmen überein ✓");
            let d_alt = match private_exponent(e, phi_v) {
                Ok(v) => v,
                Err(err) => return Err(err),
            };
            let x_alt = match mod_pow(y, d_alt, n) {
                Ok(v) => v,
                Err(err) => return Err(err),
            };
            let g3 = text_int("d (aus gegebenem phi) = ", d_alt);
            t.line(s6, g3.as_str());
            let g4 = text_int("x (aus gegebenem phi) = y^d mod n = ", x_alt);
            t.line(s6, g4.as_str());
            if d_alt == d && x_alt == x {
                t.line(s6, "Lösung aus a) bestätigt ✓");
            } else {
                t.line(s6, "Abweichung festgestellt!");
            }
            proof {
                assert(t.step_lines(5) =~= lines[5]);
                assert(t.step_titles() =~= rsa_decrypt_titles(true));
                assert forall|i: int| 0 <= i < 5 implies t.steps@[i] == before.steps@[i] by {}
            }
        },
        None => {},
    }

    t.result_int("p", p);
    t.result_int("q", q);
    t.result_int("phi(n)", phi);
    t.result_int("d (privat)", d);
    t.result_int("x (Klartext)", x);
    Ok(t)
}

} // verus!
