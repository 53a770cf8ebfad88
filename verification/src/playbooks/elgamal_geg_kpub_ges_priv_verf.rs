//! ElGamal from the public key `(p, g, e)`: the private key `d` with
//! `g^d = e (mod p)` by baby-step giant-step, then verified.
use vstd::prelude::*;
use vstd::arithmetic::power::pow;
use crate::error::{CalcError, CalcResult};
use crate::math::{MOD_LIMIT, TRIAL_LIMIT, abs, is_prime, mod_pow, rem_euclid, spec_is_prime};
use crate::playbooks::common::{
    baby_count, baby_table, baby_values, bound_line, dlog, giant_factor, hit_line, pb_factor_error,
    pb_factor_ok, pb_found, pb_log, pb_m, search_bound,
};
use crate::text::{dec, int_text, power_line, push_int, push_str, text_int, uint_text};
use crate::trace::Trace;

verus! {

/// The text lines of the three steps when the key is found and checks out.
pub open spec fn key_search_lines(p: int, g: int, e: int) -> Seq<Seq<Seq<char>>> {
    let d = pb_log(g, p, e);
    seq![
        seq![
            "Beim ElGamal-Verfahren gilt e ≡ g^d mod p mit d als privatem Schlüssel."@,
            "Zur Bestimmung von d aus Kpub = (p, g, e) muss der diskrete Logarithmus"@,
            "d = log_g(e) mod p berechnet werden."@,
        ],
        seq![
            bound_line(p),
            "Baby-Steps berechnet: "@ + dec(baby_values(g, p, pb_m(p)).len() as int) + " Einträge."@,
            hit_line(" → d = i·m + j = "@, g, p, e),
            "Probe: g^d mod p = "@ + dec(pow(g, d as nat) % p),
        ],
        seq![
            power_line("g^d mod p = "@, g, d, p, pow(g, d as nat) % p),
            "erwartet: e = "@ + dec(e),
            "g^d ≡ e mod p ✓ – Schlüssel korrekt."@,
        ],
    ]
}

/// Finds the private key `d` of `(p, g, e)` and checks `g^d = e (mod p)`.
pub fn run(p: i128, g: i128, e: i128) -> (r: CalcResult<Trace>)
    requires
        p <= TRIAL_LIMIT,
        spec_is_prime(p as int) ==> p <= MOD_LIMIT,
        spec_is_prime(p as int) ==> (p - 1) * abs(g as int) <= i128::MAX,
    ensures
        !spec_is_prime(p as int) ==> (r matches Err(CalcError::NichtPrim(s)) && s@ == dec(
            p as int,
        )),
        spec_is_prime(p as int) && !pb_factor_ok(g as int, p as int) ==> (r matches Err(
            CalcError::KeinInverses(s),
        ) && s@ == pb_factor_error(g as int, p as int)),
        spec_is_prime(p as int) && pb_factor_ok(g as int, p as int) && !pb_found(
            g as int,
            p as int,
            e as int,
        ) ==> (r matches Err(CalcError::KeineLoesung(s)) && s@ == "d nicht gefunden"@),
        spec_is_prime(p as int) && pb_factor_ok(g as int, p as int) && pb_found(
            g as int,
            p as int,
            e as int,
        ) ==> ({
            let d = pb_log(g as int, p as int, e as int);
            if pow(g as int, d as nat) % (p as int) != (e as int) % (p as int) {
                r matches Err(CalcError::KeineLoesung(s)) && s@
                    == "g^d mod p stimmt nicht mit e überein"@
            } else {
                r matches Ok(t) && t.algorithm@
                    == "ElGamal: aus Kpub = (p, g, e) → privater Schlüssel d"@ && t.input_list()
                    == seq![("p"@, dec(p as int)), ("g"@, dec(g as int)), ("e"@, dec(e as int))]
                    && t.results() == seq![
                    ("d (privat)"@, dec(d)),
                    ("Verifikation g^d mod p"@, dec((e as int) % (p as int))),
                ] && t.well_formed() && t.step_titles() == seq![
                    "Aufgabenstellung"@,
                    "a) Diskreter Logarithmus d via Baby-Step-Giant-Step"@,
                    "b) Verifikation des privaten Schlüssels"@,
                ] && forall|i: int| 0 <= i < 3 ==> #[trigger] t.step_lines(i) == key_search_lines(
                    p as int,
                    g as int,
                    e as int,
                )[i] && t.steps@[i].table is None
            }
        }),
{
    if !is_prime(p) {
        return Err(CalcError::NichtPrim(int_text(p)));
    }
    let mut t = Trace::new("ElGamal: aus Kpub = (p, g, e) → privater Schlüssel d");
    t.input_int("p", p);
    t.input_int("g", g);
    t.input_int("e", e);

    let s1 = t.step("Aufgabenstellung");
    t.line(s1, "Beim ElGamal-Verfahren gilt e ≡ g^d mod p mit d als privatem Schlüssel.");
    t.line(s1, "Zur Bestimmung von d aus Kpub = (p, g, e) muss der diskrete Logarithmus");
    t.line(s1, "d = log_g(e) mod p berechnet werden.");

    let s2 = t.step("a) Diskreter Logarithmus d via Baby-Step-Giant-Step");
    let m = search_bound(p);
    let l1 = text_int("m = ⌈√(p − 1)⌉ = ", m);
    t.line(s2, l1.as_str());
    let baby = baby_table(g, p, m);
    let mut l2 = String::from_str("Baby-Steps berechnet: ");
    let count = uint_text(baby_count(&baby) as u128);
    push_str(&mut l2, count.as_str());
    push_str(&mut l2, " Einträge.");
    t.line(s2, l2.as_str());

    let factor = match giant_factor(g, p, m) {
        Ok(v) => v,
        Err(err) => return Err(err),
    };
    let d = match dlog(&baby, g, p, m, factor, e) {
        Some((i, j, d)) => {
            let mut l3 = text_int("Treffer bei i = ", i);
            push_str(&mut l3, ", j = ");
            push_int(&mut l3, j);
            push_str(&mut l3, " → d = i·m + j = ");
            push_int(&mut l3, d);
            t.line(s2, l3.as_str());
            let pr = match mod_pow(g, d, p) {
                Ok(v) => v,
                Err(err) => return Err(err),
            };
            let l4 = text_int("Probe: g^d mod p = ", pr);
            t.line(s2, l4.as_str());
            d
        },
        None => {
            return Err(CalcError::KeineLoesung(String::from_str("d nicht gefunden")));
        },
    };

    let s3 = t.step("b) Verifikation des privaten Schlüssels");
    let probe = match mod_pow(g, d, p) {
        Ok(v) => v,
        Err(err) => return Err(err),
    };
    let mut l5 = text_int("g^d mod p = ", g);
    push_str(&mut l5, "^");
    push_int(&mut l5, d);
    push_str(&mut l5, " mod ");
    push_int(&mut l5, p);
    push_str(&mut l5, " = ");
    push_int(&mut l5, probe);
    t.line(s3, l5.as_str());
    let l6 = text_int("erwartet: e = ", e);
    t.line(s3, l6.as_str());
    if probe != rem_euclid(e, p) {
        return Err(CalcError::KeineLoesung(String::from_str("g^d mod p stimmt nicht mit e überein")));
    }
    t.line(s3, "g^d ≡ e mod p ✓ – Schlüssel korrekt.");

    t.result_int("d (privat)", d);
    t.result_int("Verifikation g^d mod p", probe);
    proof {
        let lines = key_search_lines(p as int, g as int, e as int);
        assert(t.step_titles() =~= seq![
            "Aufgabenstellung"@,
            "a) Diskreter Logarithmus d via Baby-Step-Giant-Step"@,
            "b) Verifikation des privaten Schlüssels"@,
        ]);
        assert(t.step_lines(0) =~= lines[0]);
        assert(t.step_lines(1) =~= lines[1]);
        assert(t.step_lines(2) =~= lines[2]);
    }
    Ok(t)
}

} // verus!
