//! Diffie-Hellman from `g, p` and the public values `α, β`: the private
//! exponents by baby-step giant-step, then the shared key.
use vstd::prelude::*;
use vstd::arithmetic::power::pow;
use crate::error::{CalcError, CalcResult};
use crate::math::{MOD_LIMIT, TRIAL_LIMIT, abs, is_prime, mod_pow, spec_is_prime};
use crate::playbooks::common::{
    baby_table, bound_line, dlog, giant_factor, hit_line, pb_factor_error, pb_factor_ok, pb_found,
    pb_log, search_bound,
};
use crate::text::{dec, int_text, power_line, push_int, push_str, text_int};
use crate::trace::Trace;

verus! {

/// The text lines of the four steps when both logarithms are found.
pub open spec fn dh_pb_lines(g: int, p: int, alpha: int, beta: int) -> Seq<Seq<Seq<char>>> {
    let a = pb_log(g, p, alpha);
    let b = pb_log(g, p, beta);
    seq![
        seq![
            "Gegeben sind die öffentlichen Werte α = g^a mod p und β = g^b mod p."@,
            "Da nur öffentliche Werte vorliegen, muss zur Bestimmung von K der"@,
            "diskrete Logarithmus a (oder b) aus α (oder β) berechnet werden."@,
            "Anschließend gilt: K = β^a mod p = α^b mod p."@,
        ],
        seq![
            bound_line(p),
            hit_line(" → a = i·m + j = "@, g, p, alpha),
            "Probe: g^a mod p = "@ + dec(pow(g, a as nat) % p),
        ],
        seq![
            hit_line(" → b = i·m + j = "@, g, p, beta),
            "Probe: g^b mod p = "@ + dec(pow(g, b as nat) % p),
        ],
        seq![
            power_line("K_A = β^a mod p = "@, beta, a, p, pow(beta, a as nat) % p),
            power_line("K_B = α^b mod p = "@, alpha, b, p, pow(alpha, b as nat) % p),
            "K_A = K_B ✓"@,
        ],
    ]
}

/// Finds `a` from `α` and `b` from `β`, then `K = β^a = α^b (mod p)`.
pub fn run(g: i128, p: i128, alpha: i128, beta: i128) -> (r: CalcResult<Trace>)
    requires
        p <= TRIAL_LIMIT,
        spec_is_prime(p as int) ==> p <= MOD_LIMIT,
        spec_is_prime(p as int) ==> (p - 1) * abs(g as int) <= i128::MAX,
    ensures
        !spec_is_prime(p as int) ==> (r matches Err(CalcError::NichtPrim(s)) && s@ == dec(
            p as int,
        )),
        spec_is_prime(p as int) && !pb_factor_ok(g as int, p as int) ==> (r matches Err(
            CalcError::KeinInverses(s),
        ) && s@ == pb_factor_error(g as int, p as int)),
        spec_is_prime(p as int) && pb_factor_ok(g as int, p as int) && !pb_found(
            g as int,
            p as int,
            alpha as int,
        ) ==> (r matches Err(CalcError::KeineLoesung(s)) && s@ == "a nicht gefunden"@),
        spec_is_prime(p as int) && pb_factor_ok(g as int, p as int) && pb_found(
            g as int,
            p as int,
            alpha as int,
        ) && !pb_found(g as int, p as int, beta as int) ==> (r matches Err(
            CalcError::KeineLoesung(s),
        ) && s@ == "b nicht gefunden"@),
        spec_is_prime(p as int) && pb_factor_ok(g as int, p as int) && pb_found(
            g as int,
            p as int,
            alpha as int,
        ) && pb_found(g as int, p as int, beta as int) ==> ({
            let a = pb_log(g as int, p as int, alpha as int);
            let b = pb_log(g as int, p as int, beta as int);
            let ka = pow(beta as int, a as nat) % (p as int);
            let kb = pow(alpha as int, b as nat) % (p as int);
            if ka != kb {
                r matches Err(CalcError::KeineLoesung(s)) && s@ == "K_A ≠ K_B – Eingaben prüfen"@
            } else {
                r matches Ok(t) && t.algorithm@ == "Diffie-Hellman: aus g, p, α, β → K"@
                    && t.input_list() == seq![
                    ("g"@, dec(g as int)),
                    ("p"@, dec(p as int)),
                    ("α (Alice öffentlich)"@, dec(alpha as int)),
                    ("β (Bob öffentlich)"@, dec(beta as int)),
                ] && t.results() == seq![
                    ("a (Alice privat)"@, dec(a)),
                    ("b (Bob privat)"@, dec(b)),
                    ("K (gemeinsamer Schlüssel)"@, dec(ka)),
                ] && t.well_formed() && t.step_titles() == seq![
                    "Aufgabenstellung"@,
                    "Diskreter Logarithmus a aus α (Baby-Step-Giant-Step)"@,
                    "Diskreter Logarithmus b aus β (zur Kontrolle)"@,
                    "Gemeinsamer Schlüssel K"@,
                ] && forall|i: int| 0 <= i < 4 ==> #[trigger] t.step_lines(i) == dh_pb_lines(
                    g as int,
                    p as int,
                    alpha as int,
                    beta as int,
                )[i] && t.steps@[i].table is None
            }
        }),
{
    if !is_prime(p) {
        return Err(CalcError::NichtPrim(int_text(p)));
    }
    let mut t = Trace::new("Diffie-Hellman: aus g, p, α, β → K");
    t.input_int("g", g);
    t.input_int("p", p);
    t.input_int("α (Alice öffentlich)", alpha);
    t.input_int("β (Bob öffentlich)", beta);

    let s1 = t.step("Aufgabenstellung");
    t.line(s1, "Gegeben sind die öffentlichen Werte α = g^a mod p und β = g^b mod p.");
    t.line(s1, "Da nur öffentliche Werte vorliegen, muss zur Bestimmung von K der");
    t.line(s1, "diskrete Logarithmus a (oder b) aus α (oder β) berechnet werden.");
    t.line(s1, "Anschließend gilt: K = β^a mod p = α^b mod p.");

    let s2 = t.step("Diskreter Logarithmus a aus α (Baby-Step-Giant-Step)");
    let m = search_bound(p);
    let l1 = text_int("m = ⌈√(p − 1)⌉ = ", m);
    t.line(s2, l1.as_str());
    let baby = baby_table(g, p, m);
    let factor = match giant_factor(g, p, m) {
        Ok(v) => v,
        Err(err) => return Err(err),
    };
    let a = match dlog(&baby, g, p, m, factor, alpha) {
        Some((i, j, a)) => {
            let mut l = text_int("Treffer bei i = ", i);
            push_str(&mut l, ", j = ");
            push_int(&mut l, j);
            push_str(&mut l, " → a = i·m + j = ");
            push_int(&mut l, a);
            t.line(s2, l.as_str());
            let pr = match mod_pow(g, a, p) {
                Ok(v) => v,
                Err(err) => return Err(err),
            };
            let l2 = text_int("Probe: g^a mod p = ", pr);
            t.line(s2, l2.as_str());
            a
        },
        None => {
            return Err(CalcError::KeineLoesung(String::from_str("a nicht gefunden")));
        },
    };

    let s3 = t.step("Diskreter Logarithmus b aus β (zur Kontrolle)");
    let b = match dlog(&baby, g, p, m, factor, beta) {
        Some((i, j, b)) => {
            let mut l = text_int("Treffer bei i = ", i);
            push_str(&mut l, ", j = ");
            push_int(&mut l, j);
            push_str(&mut l, " → b = i·m + j = ");
            push_int(&mut l, b);
            t.line(s3, l.as_str());
            let pr = match mod_pow(g, b, p) {
                Ok(v) => v,
                Err(err) => return Err(err),
            };
            let l2 = text_int("Probe: g^b mod p = ", pr);
            t.line(s3, l2.as_str());
            b
        },
        None => {
            return Err(CalcError::KeineLoesung(String::from_str("b nicht gefunden")));
        },
    };

    let s4 = t.step("Gemeinsamer Schlüssel K");
    let k_a = match mod_pow(beta, a, p) {
        Ok(v) => v,
        Err(err) => return Err(err),
    };
    let k_b = match mod_pow(alpha, b, p) {
        Ok(v) => v,
        Err(err) => return Err(err),
    };
    let mut l3 = text_int("K_A = β^a mod p = ", beta);
    push_str(&mut l3, "^");
    push_int(&mut l3, a);
    push_str(&mut l3, " mod ");
    push_int(&mut l3, p);
    push_str(&mut l3, " = ");
    push_int(&mut l3, k_a);
    t.line(s4, l3.as_str());
    let mut l4 = text_int("K_B = α^b mod p = ", alpha);
    push_str(&mut l4, "^");
    push_int(&mut l4, b);
    push_str(&mut l4, " mod ");
    push_int(&mut l4, p);
    push_str(&mut l4, " = ");
    push_int(&mut l4, k_b);
    t.line(s4, l4.as_str());
    if k_a != k_b {
        return Err(CalcError::KeineLoesung(String::from_str("K_A ≠ K_B – Eingaben prüfen")));
    }
    t.line(s4, "K_A = K_B ✓");

    t.result_int("a (Alice privat)", a);
    t.result_int("b (Bob privat)", b);
    t.result_int("K (gemeinsamer Schlüssel)", k_a);
    proof {
        let lines = dh_pb_lines(g as int, p as int, alpha as int, beta as int);
        assert(t.step_titles() =~= seq![
            "Aufgabenstellung"@,
            "Diskreter Logarithmus a aus α (Baby-Step-Giant-Step)"@,
            "Diskreter Logarithmus b aus β (zur Kontrolle)"@,
            "Gemeinsamer Schlüssel K"@,
        ]);
        assert(t.step_lines(0) =~= lines[0]);
        assert(t.step_lines(1) =~= lines[1]);
        assert(t.step_lines(2) =~= lines[2]);
        assert(t.step_lines(3) =~= lines[3]);
    }
    Ok(t)
}

} // verus!
