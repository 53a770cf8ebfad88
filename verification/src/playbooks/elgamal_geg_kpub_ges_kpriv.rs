//! ElGamal from a capture: the private key `d` from `(p, g, e)` by baby-step
//! giant-step, then the plain text of the cipher text `(a, b)`.
use vstd::prelude::*;
use vstd::arithmetic::power::pow;
use crate::error::{CalcError, CalcResult};
use crate::fermat::lemma_unit_exponent;
use crate::algorithms::elgamal::{elgamal_cipher, elgamal_y, lemma_elgamal_decrypts_with_equivalent_key};
use crate::math::{
    MOD_LIMIT, TRIAL_LIMIT, abs, coprime_mod, inv_error, inv_mod, is_prime, lemma_coprime_prime, mod_inv, mod_pow, rem_euclid,
    spec_is_prime,
};
use crate::playbooks::common::{
    baby_count, baby_table, baby_values, bound_line, dlog, giant_factor, hit_line,
    lemma_pb_log_correct, pb_factor_error, pb_factor_ok, pb_found, pb_log, pb_m, search_bound,
};
use crate::text::{dec, int_text, power_line, push_int, push_str, text_int, uint_text};
use crate::trace::Trace;

verus! {

/// Breaking the key recovers the message: for a prime `p`, a base `g` prime to
/// `p` whose giant factor exists, any private key `x` and ephemeral key `k`
/// and a message `m` in `[0, p)`, the key `d` found for `e = g^x mod p`
/// decrypts the cipher text `(a, b)` of `m` back to `m`.
pub proof fn lemma_recovers_message(p: int, g: int, x: int, m: int, k: int)
    requires
        spec_is_prime(p),
        coprime_mod(g, p),
        pb_factor_ok(g, p),
        0 <= m < p,
        pb_found(g, p, elgamal_y(p, g, x)),
    ensures
        ({
            let e = elgamal_y(p, g, x);
            let (a, b) = elgamal_cipher(p, g, x, m, k);
            let s = pow(a, pb_log(g, p, e) as nat) % p;
            coprime_mod(s, p) && (b * inv_mod(s, p)) % p == m
        }),
{
    let e = elgamal_y(p, g, x);
    lemma_pb_log_correct(g, p, e);
    let d = pb_log(g, p, e);
    lemma_unit_exponent(g, p, x);
    vstd::arithmetic::div_mod::lemma_mod_bound(x, p - 1);
    vstd::arithmetic::div_mod::lemma_mod_bound(pow(g, ((x % (p - 1)) as nat)), p);
    vstd::arithmetic::div_mod::lemma_mod_twice(pow(g, ((x % (p - 1)) as nat)), p);
    lemma_coprime_prime(g, p);
    lemma_elgamal_decrypts_with_equivalent_key(p, g, x, d, m, k);
}

/// The text lines of the five steps when the key is found and the mask invertible.
pub open spec fn elgamal_break_lines(p: int, g: int, e: int, a: int, b: int) -> Seq<Seq<Seq<char>>> {
    let d = pb_log(g, p, e);
    let s = pow(a, d as nat) % p;
    let si = inv_mod(s, p);
    let m = (b * si) % p;
    seq![
        seq![
            "In Mitschnitten (z. B. .pcapng) liegen Werte häufig als Hex- oder Big-Endian-Bytes vor."@,
            "Vor der Eingabe in dieses Playbook sind p, g, e, a und b in Dezimalform umzurechnen."@,
            "Notation: Kpub = (p, g, e) mit e = g^d mod p, Geheimtext (a, b) = (g^k mod p, m·e^k mod p)."@,
        ],
        seq![
            bound_line(p),
            "Baby-Steps berechnet: "@ + dec(baby_values(g, p, pb_m(p)).len() as int) + " Einträge."@,
            hit_line(" → d = i·m + j = "@, g, p, e),
            "Probe: g^d mod p = "@ + dec(pow(g, d as nat) % p),
        ],
        seq![power_line("s = a^d mod p = "@, a, d, p, s), "s^(-1) mod p = "@ + dec(si)],
        seq!["m = b · s^(-1) mod p = "@ + dec(b) + " · "@ + dec(si) + " mod "@ + dec(p) + " = "@ + dec(m)],
        seq![
            "Kpub = (p, g, e) = ("@ + dec(p) + ", "@ + dec(g) + ", "@ + dec(e) + ")"@,
            "Kpriv = d = "@ + dec(d),
            "Klartext m = "@ + dec(m),
        ],
    ]
}

/// Finds `d` with `g^d = e (mod p)`, the mask `s = a^d mod p` and the plain
/// text `m = b · s^-1 mod p`.
pub fn run(p: i128, g: i128, e: i128, a: i128, b: i128) -> (r: CalcResult<Trace>)
    requires
        p <= TRIAL_LIMIT,
        spec_is_prime(p as int) ==> p <= MOD_LIMIT,
        spec_is_prime(p as int) ==> (p - 1) * abs(g as int) <= i128::MAX,
    ensures
        !spec_is_prime(p as int) ==> (r matches Err(CalcError::NichtPrim(s)) && s@ == dec(
            p as int,
        )),
        spec_is_prime(p as int) && !(0 <= a < p && 0 <= b < p) ==> (r matches Err(
            CalcError::Bereich(s),
        ) && s@ == "a und b müssen in [0, p) liegen"@),
        spec_is_prime(p as int) && 0 <= a < p && 0 <= b < p && !pb_factor_ok(g as int, p as int)
            ==> (r matches Err(CalcError::KeinInverses(s)) && s@ == pb_factor_error(g as int, p as int)),
        spec_is_prime(p as int) && 0 <= a < p && 0 <= b < p && pb_factor_ok(g as int, p as int)
            && !pb_found(g as int, p as int, e as int) ==> (r matches Err(
            CalcError::KeineLoesung(s),
        ) && s@ == "d nicht gefunden"@),
        spec_is_prime(p as int) && 0 <= a < p && 0 <= b < p && pb_factor_ok(g as int, p as int)
            && pb_found(g as int, p as int, e as int) ==> ({
            let d = pb_log(g as int, p as int, e as int);
            let s = pow(a as int, d as nat) % (p as int);
            if !coprime_mod(s, p as int) {
                r matches Err(CalcError::KeinInverses(x)) && x@ == inv_error(s, p as int)
            } else {
                r matches Ok(t) && t.algorithm@
                    == "ElGamal: aus Kpub = (p, g, e) und (a, b) → d und Klartext"@
                    && t.input_list() == seq![
                    ("p"@, dec(p as int)),
                    ("g"@, dec(g as int)),
                    ("e"@, dec(e as int)),
                    ("a (= c1)"@, dec(a as int)),
                    ("b (= c2)"@, dec(b as int)),
                ] && t.results() == seq![
                    ("d (privat)"@, dec(d)),
                    ("m (Klartext)"@, dec((b * inv_mod(s, p as int)) % (p as int))),
                ] && t.well_formed() && t.step_titles() == seq![
                    "Hinweis zur Notation"@,
                    "a) Diskreter Logarithmus d via Baby-Step-Giant-Step"@,
                    "a) Maskierungselement s = a^d mod p"@,
                    "a) Entschlüsselung m = b · s^(-1) mod p"@,
                    "Zusammenfassung"@,
                ] && forall|i: int| 0 <= i < 5 ==> #[trigger] t.step_lines(i) == elgamal_break_lines(
                    p as int,
                    g as int,
                    e as int,
                    a as int,
                    b as int,
                )[i] && t.steps@[i].table is None
            }
        }),
{
    if !is_prime(p) {
        return Err(CalcError::NichtPrim(int_text(p)));
    }
    if a < 0 || a >= p || b < 0 || b >= p {
        return Err(CalcError::Bereich(String::from_str("a und b müssen in [0, p) liegen")));
    }
    let mut t = Trace::new("ElGamal: aus Kpub = (p, g, e) und (a, b) → d und Klartext");
    t.input_int("p", p);
    t.input_int("g", g);
    t.input_int("e", e);
    t.input_int("a (= c1)", a);
    t.input_int("b (= c2)", b);

    let s0 = t.step("Hinweis zur Notation");
    t.line(
        s0,
        "In Mitschnitten (z. B. .pcapng) liegen Werte häufig als Hex- oder Big-Endian-Bytes vor.",
    );
    t.line(
        s0,
        "Vor der Eingabe in dieses Playbook sind p, g, e, a und b in Dezimalform umzurechnen.",
    );
    t.line(
        s0,
        "Notation: Kpub = (p, g, e) mit e = g^d mod p, Geheimtext (a, b) = (g^k mod p, m·e^k mod p).",
    );

    let s1 = t.step("a) Diskreter Logarithmus d via Baby-Step-Giant-Step");
    let m = search_bound(p);
    let l1 = text_int("m = ⌈√(p − 1)⌉ = ", m);
    t.line(s1, l1.as_str());
    let baby = baby_table(g, p, m);
    let mut l2 = String::from_str("Baby-Steps berechnet: ");
    let count = uint_text(baby_count(&baby) as u128);
    push_str(&mut l2, count.as_str());
    push_str(&mut l2, " Einträge.");
    t.line(s1, l2.as_str());

    let factor = match giant_factor(g, p, m) {
        Ok(v) => v,
        Err(err) => return Err(err),
    };
    let d = match dlog(&baby, g, p, m, factor, e) {
        Some((i, j, d)) => {
            let mut l3 = text_int("Treffer bei i = ", i);
            push_str(&mut l3, ", j = ");
            push_int(&mut l3, j);
            push_str(&mut l3, " → d = i·m + j = ");
            push_int(&mut l3, d);
            t.line(s1, l3.as_str());
            let pr = match mod_pow(g, d, p) {
                Ok(v) => v,
                Err(err) => return Err(err),
            };
            let l4 = text_int("Probe: g^d mod p = ", pr);
            t.line(s1, l4.as_str());
            d
        },
        None => {
            return Err(CalcError::KeineLoesung(String::from_str("d nicht gefunden")));
        },
    };

    let s2 = t.step("a) Maskierungselement s = a^d mod p");
    let s_mask = match mod_pow(a, d, p) {
        Ok(v) => v,
        Err(err) => return Err(err),
    };
    let s_inv = match mod_inv(s_mask, p) {
        Ok(v) => v,
        Err(err) => return Err(err),
    };
    let mut l5 = text_int("s = a^d mod p = ", a);
    push_str(&mut l5, "^");
    push_int(&mut l5, d);
    push_str(&mut l5, " mod ");
    push_int(&mut l5, p);
    push_str(&mut l5, " = ");
    push_int(&mut l5, s_mask);
    t.line(s2, l5.as_str());
    let l6 = text_int("s^(-1) mod p = ", s_inv);
    t.line(s2, l6.as_str());

    let s3 = t.step("a) Entschlüsselung m = b · s^(-1) mod p");
    proof {
        crate::math::lemma_product_fits(b as int, s_inv as int);
    }
    let m_plain = rem_euclid(b * s_inv, p);
    let mut l7 = text_int("m = b · s^(-1) mod p = ", b);
    push_str(&mut l7, " · ");
    push_int(&mut l7, s_inv);
    push_str(&mut l7, " mod ");
    push_int(&mut l7, p);
    push_str(&mut l7, " = ");
    push_int(&mut l7, m_plain);
    t.line(s3, l7.as_str());

    let s4 = t.step("Zusammenfassung");
    let mut l8 = text_int("Kpub = (p, g, e) = (", p);
    push_str(&mut l8, ", ");
    push_int(&mut l8, g);
    push_str(&mut l8, ", ");
    push_int(&mut l8, e);
    push_str(&mut l8, ")");
    t.line(s4, l8.as_str());
    let l9 = text_int("Kpriv = d = ", d);
    t.line(s4, l9.as_str());
    let l10 = text_int("Klartext m = ", m_plain);
    t.line(s4, l10.as_str());

    t.result_int("d (privat)", d);
    t.result_int("m (Klartext)", m_plain);
    proof {
        let lines = elgamal_break_lines(p as int, g as int, e as int, a as int, b as int);
        assert(t.step_titles() =~= seq![
            "Hinweis zur Notation"@,
            "a) Diskreter Logarithmus d via Baby-Step-Giant-Step"@,
            "a) Maskierungselement s = a^d mod p"@,
            "a) Entschlüsselung m = b · s^(-1) mod p"@,
            "Zusammenfassung"@,
        ]);
        assert(t.step_lines(0) =~= lines[0]);
        assert(t.step_lines(1) =~= lines[1]);
        assert(t.step_lines(2) =~= lines[2]);
        assert(t.step_lines(3) =~= lines[3]);
        assert(t.step_lines(4) =~= lines[4]);
    }
    Ok(t)
}

} // verus!
