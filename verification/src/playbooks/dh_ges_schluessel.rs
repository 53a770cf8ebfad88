//! Diffie-Hellman from a capture: the private exponents from `α, β` by
//! baby-step giant-step, the shared key, and decryption candidates for a
//! cipher text sent under it.
use vstd::prelude::*;
use vstd::arithmetic::power::pow;
use crate::error::{CalcError, CalcResult};
use crate::math::{
    MOD_LIMIT, TRIAL_LIMIT, abs, coprime_mod, inv_mod, is_prime, mod_inv, mod_pow, rem_euclid, spec_is_prime,
};
use crate::playbooks::common::{
    baby_table, dlog, giant_factor, pb_factor_error, pb_factor_ok, pb_found, pb_log, search_bound,
};
use crate::playbooks::dh_geg_g_p_alpha_beta_ges_k::dh_pb_lines;
use crate::text::{dec, int_text, push_int, push_str, text_int, uint_text};
use crate::trace::Trace;

verus! {

/// The notes that open the trace.
pub open spec fn capture_notes() -> Seq<Seq<char>> {
    seq![
        "Aus dem Mitschnitt sind zu entnehmen: Modul p, Basis g sowie die ausgetauschten"@,
        "öffentlichen Werte α = g^a mod p (Alice) und β = g^b mod p (Bob)."@,
        "Der gemeinsame Schlüssel ist K = α^b mod p = β^a mod p."@,
        "Da nur die öffentlichen Werte gesendet werden, muss zum Brechen ein diskreter"@,
        "Logarithmus berechnet werden."@,
    ]
}

/// The lines of the step that decrypts `c` under the key `k` in three ways:
/// `c = m · K`, `c = m + K` (both modulo `p`, for `c` in `[0, p)`) and `c = m XOR K`.
pub open spec fn candidate_lines(p: int, k: i128, c: i128) -> Seq<Seq<char>> {
    let modular = if 0 <= c < p {
        (if coprime_mod(k as int, p) {
            seq![
                "Variante c = m · K mod p:   m = c · K^(-1) mod p = "@ + dec(
                    (c * inv_mod(k as int, p)) % p,
                ),
            ]
        } else {
            Seq::empty()
        }) + seq!["Variante c = m + K mod p:   m = (c − K) mod p = "@ + dec((c - k) % p)]
    } else {
        seq!["c liegt außerhalb von [0, p) – modulare Entschlüsselungsvarianten übersprungen."@]
    };
    seq![
        "Da das verwendete symmetrische Verfahren nicht spezifiziert ist, werden"@,
        "die gängigsten einfachen Konstruktionen ausgewertet."@,
    ] + modular + seq![
        "Variante c = m XOR K:        m = c XOR K = "@ + dec(((c as u128) ^ (k as u128)) as int),
        "Welcher Wert lesbar ist, hängt vom konkreten Kanal-Cipher im Mitschnitt ab."@,
    ]
}

/// Finds `a` from `α` and `b` from `β`, then `K = β^a = α^b (mod p)`; for a
/// cipher text `c`, lists what `m` would be under simple constructions.
pub fn run(p: i128, g: i128, alpha: i128, beta: i128, c: Option<i128>) -> (r: CalcResult<Trace>)
    requires
        p <= TRIAL_LIMIT,
        spec_is_prime(p as int) ==> p <= MOD_LIMIT,
        spec_is_prime(p as int) ==> (p - 1) * abs(g as int) <= i128::MAX,
    ensures
        !spec_is_prime(p as int) ==> (r matches Err(CalcError::NichtPrim(s)) && s@ == dec(
            p as int,
        )),
        spec_is_prime(p as int) && !pb_factor_ok(g as int, p as int) ==> (r matches Err(
            CalcError::KeinInverses(s),
        ) && s@ == pb_factor_error(g as int, p as int)),
        spec_is_prime(p as int) && pb_factor_ok(g as int, p as int) && !pb_found(
            g as int,
            p as int,
            alpha as int,
        ) ==> (r matches Err(CalcError::KeineLoesung(s)) && s@ == "a nicht gefunden"@),
        spec_is_prime(p as int) && pb_factor_ok(g as int, p as int) && pb_found(
            g as int,
            p as int,
            alpha as int,
        ) && !pb_found(g as int, p as int, beta as int) ==> (r matches Err(
            CalcError::KeineLoesung(s),
        ) && s@ == "b nicht gefunden"@),
        spec_is_prime(p as int) && pb_factor_ok(g as int, p as int) && pb_found(
            g as int,
            p as int,
            alpha as int,
        ) && pb_found(g as int, p as int, beta as int) ==> ({
            let a = pb_log(g as int, p as int, alpha as int);
            let b = pb_log(g as int, p as int, beta as int);
            let ka = pow(beta as int, a as nat) % (p as int);
            let kb = pow(alpha as int, b as nat) % (p as int);
            if ka != kb {
                r matches Err(CalcError::KeineLoesung(s)) && s@ == "K_A ≠ K_B – Eingaben prüfen"@
            } else {
                r matches Ok(t) && t.algorithm@
                    == "Diffie-Hellman: gemeinsamen Schlüssel aus Mitschnitt bestimmen"@
                    && t.input_list() == seq![
                    ("Modul p"@, dec(p as int)),
                    ("Basis g"@, dec(g as int)),
                    ("α (Alice öffentlich)"@, dec(alpha as int)),
                    ("β (Bob öffentlich)"@, dec(beta as int)),
                ] + match c {
                    Some(cv) => seq![("Geheimtext c"@, dec(cv as int))],
                    None => Seq::empty(),
                } && t.results() == seq![
                    ("a (Alice privat)"@, dec(a)),
                    ("b (Bob privat)"@, dec(b)),
                    ("K (gemeinsamer Schlüssel)"@, dec(ka)),
                ] && t.well_formed() && t.step_titles() == seq![
                    "Hinweis zur Notation"@,
                    "a) Diskreter Logarithmus a aus α via Baby-Step-Giant-Step"@,
                    "a) Diskreter Logarithmus b aus β (zur Kontrolle)"@,
                    "a) Gemeinsamer Schlüssel K"@,
                ] + match c {
                    Some(cv) => seq!["Entschlüsselungs-Kandidaten für den Geheimtext c"@],
                    None => Seq::empty(),
                } && t.step_lines(0) == capture_notes() && (forall|i: int|
                    1 <= i < 4 ==> #[trigger] t.step_lines(i) == dh_pb_lines(
                        g as int,
                        p as int,
                        alpha as int,
                        beta as int,
                    )[i]) && (forall|i: int| 0 <= i < t.steps@.len() ==> (#[trigger] t.steps@[i]).table is None)
                    && (c matches Some(cv) ==> t.step_lines(4) == candidate_lines(
                    p as int,
                    ka as i128,
                    cv,
                ))
            }
        }),
{
    if !is_prime(p) {
        return Err(CalcError::NichtPrim(int_text(p)));
    }
    let mut t = Trace::new("Diffie-Hellman: gemeinsamen Schlüssel aus Mitschnitt bestimmen");
    t.input_int("Modul p", p);
    t.input_int("Basis g", g);
    t.input_int("α (Alice öffentlich)", alpha);
    t.input_int("β (Bob öffentlich)", beta);
    match c {
        Some(c_v) => t.input_int("Geheimtext c", c_v),
        None => {},
    }

    let s1 = t.step("Hinweis zur Notation");
    t.line(s1, "Aus dem Mitschnitt sind zu entnehmen: Modul p, Basis g sowie die ausgetauschten");
    t.line(s1, "öffentlichen Werte α = g^a mod p (Alice) und β = g^b mod p (Bob).");
    t.line(s1, "Der gemeinsame Schlüssel ist K = α^b mod p = β^a mod p.");
    t.line(s1, "Da nur die öffentlichen Werte gesendet werden, muss zum Brechen ein diskreter");
    t.line(s1, "Logarithmus berechnet werden.");

    let s2 = t.step("a) Diskreter Logarithmus a aus α via Baby-Step-Giant-Step");
    let m = search_bound(p);
    let l1 = text_int("m = ⌈√(p − 1)⌉ = ", m);
    t.line(s2, l1.as_str());
    let baby = baby_table(g, p, m);
    let factor = match giant_factor(g, p, m) {
        Ok(v) => v,
        Err(err) => return Err(err),
    };
    let a = match dlog(&baby, g, p, m, factor, alpha) {
        Some((i, j, a)) => {
            let mut l = text_int("Treffer bei i = ", i);
            push_str(&mut l, ", j = ");
            push_int(&mut l, j);
            push_str(&mut l, " → a = i·m + j = ");
            push_int(&mut l, a);
            t.line(s2, l.as_str());
            let pr = match mod_pow(g, a, p) {
                Ok(v) => v,
                Err(err) => return Err(err),
            };
            let l2 = text_int("Probe: g^a mod p = ", pr);
            t.line(s2, l2.as_str());
            a
        },
        None => {
            return Err(CalcError::KeineLoesung(String::from_str("a nicht gefunden")));
        },
    };

    let s3 = t.step("a) Diskreter Logarithmus b aus β (zur Kontrolle)");
    let b = match dlog(&baby, g, p, m, factor, beta) {
        Some((i, j, b)) => {
            let mut l = text_int("Treffer bei i = ", i);
            push_str(&mut l, ", j = ");
            push_int(&mut l, j);
            push_str(&mut l, " → b = i·m + j = ");
            push_int(&mut l, b);
            t.line(s3, l.as_str());
            let pr = match mod_pow(g, b, p) {
                Ok(v) => v,
                Err(err) => return Err(err),
            };
            let l2 = text_int("Probe: g^b mod p = ", pr);
            t.line(s3, l2.as_str());
            b
        },
        None => {
            return Err(CalcError::KeineLoesung(String::from_str("b nicht gefunden")));
        },
    };

    let s4 = t.step("a) Gemeinsamer Schlüssel K");
    let k_a = match mod_pow(beta, a, p) {
        Ok(v) => v,
        Err(err) => return Err(err),
    };
    let k_b = match mod_pow(alpha, b, p) {
        Ok(v) => v,
        Err(err) => return Err(err),
    };
    let mut l3 = text_int("K_A = β^a mod p = ", beta);
    push_str(&mut l3, "^");
    push_int(&mut l3, a);
    push_str(&mut l3, " mod ");
    push_int(&mut l3, p);
    push_str(&mut l3, " = ");
    push_int(&mut l3, k_a);
    t.line(s4, l3.as_str());
    let mut l4 = text_int("K_B = α^b mod p = ", alpha);
    push_str(&mut l4, "^");
    push_int(&mut l4, b);
    push_str(&mut l4, " mod ");
    push_int(&mut l4, p);
    push_str(&mut l4, " = ");
    push_int(&mut l4, k_b);
    t.line(s4, l4.as_str());
    if k_a != k_b {
        return Err(CalcError::KeineLoesung(String::from_str("K_A ≠ K_B – Eingaben prüfen")));
    }
    t.line(s4, "K_A = K_B ✓");

    proof {
        let lines = dh_pb_lines(g as int, p as int, alpha as int, beta as int);
        assert(t.step_titles() =~= seq![
            "Hinweis zur Notation"@,
            "a) Diskreter Logarithmus a aus α via Baby-Step-Giant-Step"@,
            "a) Diskreter Logarithmus b aus β (zur Kontrolle)"@,
            "a) Gemeinsamer Schlüssel K"@,
        ]);
        assert(t.step_lines(0) =~= capture_notes());
        assert(t.step_lines(1) =~= lines[1]);
        assert(t.step_lines(2) =~= lines[2]);
        assert(t.step_lines(3) =~= lines[3]);
    }
    let ghost before = t;
    match c {
        Some(c_v) => {
            let s5 = t.step("Entschlüsselungs-Kandidaten für den Geheimtext c");
            t.line(s5, "Da das verwendete symmetrische Verfahren nicht spezifiziert ist, werden");
            t.line(s5, "die gängigsten einfachen Konstruktionen ausgewertet.");
            if c_v >= 0 && c_v < p {
                match mod_inv(k_a, p) {
                    Ok(k_inv) => {
                        proof {
                            crate::math::lemma_product_fits(c_v as int, k_inv as int);
                        }
                        let m_mul = rem_euclid(c_v * k_inv, p);
                        let l5 = text_int("Variante c = m · K mod p:   m = c · K^(-1) mod p = ", m_mul);
                        t.line(s5, l5.as_str());
                    },
                    Err(_) => {},
                }
                let m_add = rem_euclid(c_v - k_a, p);
                let l6 = text_int("Variante c = m + K mod p:   m = (c − K) mod p = ", m_add);
                t.line(s5, l6.as_str());
            } else {
                t.line(
                    s5,
                    "c liegt außerhalb von [0, p) – modulare Entschlüsselungsvarianten übersprungen.",
                );
            }
            let m_xor = (c_v as u128) ^ (k_a as u128);
            let mut l7 = String::from_str("Variante c = m XOR K:        m = c XOR K = ");
            let xs = uint_text(m_xor);
            push_str(&mut l7, xs.as_str());
            t.line(s5, l7.as_str());
            t.line(s5, "Welcher Wert lesbar ist, hängt vom konkreten Kanal-Cipher im Mitschnitt ab.");
            proof {
                assert(t.step_lines(4) =~= candidate_lines(p as int, k_a, c_v));
                assert(t.step_titles() =~= before.step_titles().push(
                    "Entschlüsselungs-Kandidaten für den Geheimtext c"@,
                ));
                assert forall|i: int| 0 <= i < 4 implies t.steps@[i] == before.steps@[i] by {}
            }
        },
        None => {},
    }

    t.result_int("a (Alice privat)", a);
    t.result_int("b (Bob privat)", b);
    t.result_int("K (gemeinsamer Schlüssel)", k_a);
    Ok(t)
}

} // verus!
