//! ElGamal signature check from the public key `(p, g, e)`: is `(r, s)` a valid
//! signature of `m`?
use vstd::prelude::*;
use vstd::arithmetic::power::pow;
use crate::error::{CalcError, CalcResult};
use crate::math::{
    MOD_LIMIT, TRIAL_LIMIT, inv_error, is_prime, mod_pow, mod_pow_defined, rem_euclid, spec_is_prime, spec_mod_pow,
};
use crate::text::{bool_str, bool_text, dec, int_text, power_line, push_int, push_str, text_int};
use crate::trace::Trace;

verus! {

/// The conditions that the first step lists.
pub open spec fn signature_conditions() -> Seq<Seq<char>> {
    seq![
        "Eine ElGamal-Signatur (r, s) für Nachricht m gilt als gültig, wenn:"@,
        "  1. 0 < r < p"@,
        "  2. 0 < s < p − 1"@,
        "  3. v1 := e^r · r^s mod p   gleich   v2 := g^m mod p ist."@,
        "Trifft (3) zu, gehört (r, s) zum öffentlichen Schlüssel (p, g, e) und zu m."@,
    ]
}

/// The two lines of the range check of `r` and `s`.
pub open spec fn bounds_lines(p: int, r: int, s: int) -> Seq<Seq<char>> {
    seq![
        "0 < r < p: 0 < "@ + dec(r) + " < "@ + dec(p) + if 0 < r < p {
            " → ok"@
        } else {
            " → verletzt"@
        },
        "0 < s < p − 1: 0 < "@ + dec(s) + " < "@ + dec(p - 1) + if 0 < s < p - 1 {
            " → ok"@
        } else {
            " → verletzt"@
        },
    ]
}

/// The lines of the three computing steps of the check.
pub open spec fn check_lines(p: int, g: int, e: int, m: int, r: int, s: int) -> Seq<Seq<Seq<char>>> {
    let er = pow(e, r as nat) % p;
    let rs = pow(r, s as nat) % p;
    let v1 = (er * rs) % p;
    let v2 = spec_mod_pow(g, m, p);
    seq![
        seq![
            power_line("e^r mod p = "@, e, r, p, er),
            power_line("r^s mod p = "@, r, s, p, rs),
            "v1 = e^r · r^s mod p = "@ + dec(er) + " · "@ + dec(rs) + " mod "@ + dec(p) + " = "@ + dec(v1),
        ],
        seq![power_line("v2 = g^m mod p = "@, g, m, p, v2)],
        seq![
            "v1 = "@ + dec(v1) + ",  v2 = "@ + dec(v2),
            if v1 == v2 {
                "v1 = v2 ✓ – Signatur ist gültig."@
            } else {
                "v1 ≠ v2 – Signatur ist ungültig."@
            },
        ],
    ]
}

/// Verifies `(r, s)`: `0 < r < p`, `0 < s < p - 1`, and
/// `e^r · r^s = g^m (mod p)`.
pub fn run(p: i128, g: i128, e: i128, m: i128, r: i128, s: i128) -> (res: CalcResult<Trace>)
    requires
        p <= TRIAL_LIMIT,
        spec_is_prime(p as int) ==> p <= MOD_LIMIT,
        spec_is_prime(p as int) ==> m > i128::MIN,
    ensures
        !spec_is_prime(p as int) ==> (res matches Err(CalcError::NichtPrim(x)) && x@ == dec(
            p as int,
        )),
        spec_is_prime(p as int) ==> ({
            let inputs = seq![
                ("p"@, dec(p as int)),
                ("g"@, dec(g as int)),
                ("e"@, dec(e as int)),
                ("m"@, dec(m as int)),
                ("r"@, dec(r as int)),
                ("s"@, dec(s as int)),
            ];
            let v1 = ((pow(e as int, r as nat) % (p as int)) * (pow(r as int, s as nat) % (
            p as int))) % (p as int);
            let v2 = spec_mod_pow(g as int, m as int, p as int);
            if !(0 < r < p && 0 < s < p - 1) {
                res matches Ok(t) && t.algorithm@ == "ElGamal-Signatur: Verifikation"@
                    && t.input_list() == inputs && t.results() == seq![
                    ("Signatur gültig"@, bool_text(false)),
                ] && t.well_formed() && t.step_titles() == seq![
                    "Notwendige Schritte zur Verifikation"@,
                    "1. Bereichsprüfung von r und s"@,
                ] && t.step_lines(0) == signature_conditions() && t.step_lines(1) == bounds_lines(
                    p as int,
                    r as int,
                    s as int,
                ) && t.steps@[0].table is None && t.steps@[1].table is None
            } else if !mod_pow_defined(g as int, m as int, p as int) {
                res matches Err(CalcError::KeinInverses(x)) && x@ == inv_error(g as int, p as int)
            } else {
                res matches Ok(t) && t.algorithm@ == "ElGamal-Signatur: Verifikation"@
                    && t.input_list() == inputs && t.results() == seq![
                    ("v1 = e^r · r^s mod p"@, dec(v1)),
                    ("v2 = g^m mod p"@, dec(v2)),
                    ("Signatur gültig"@, bool_text(v1 == v2)),
                ] && t.well_formed() && t.step_titles() == seq![
                    "Notwendige Schritte zur Verifikation"@,
                    "1. Bereichsprüfung von r und s"@,
                    "2. v1 = e^r · r^s mod p"@,
                    "3. v2 = g^m mod p"@,
                    "4. Vergleich v1 = v2"@,
                ] && t.step_lines(0) == signature_conditions() && t.step_lines(1) == bounds_lines(
                    p as int,
                    r as int,
                    s as int,
                ) && (forall|i: int| 2 <= i < 5 ==> #[trigger] t.step_lines(i) == check_lines(
                    p as int,
                    g as int,
                    e as int,
                    m as int,
                    r as int,
                    s as int,
                )[i - 2]) && forall|i: int| 0 <= i < 5 ==> (#[trigger] t.steps@[i]).table is None
            }
        }),
{
    if !is_prime(p) {
        return Err(CalcError::NichtPrim(int_text(p)));
    }
    let mut t = Trace::new("ElGamal-Signatur: Verifikation");
    t.input_int("p", p);
    t.input_int("g", g);
    t.input_int("e", e);
    t.input_int("m", m);
    t.input_int("r", r);
    t.input_int("s", s);

    let s1 = t.step("Notwendige Schritte zur Verifikation");
    t.line(s1, "Eine ElGamal-Signatur (r, s) für Nachricht m gilt als gültig, wenn:");
    t.line(s1, "  1. 0 < r < p");
    t.line(s1, "  2. 0 < s < p − 1");
    t.line(s1, "  3. v1 := e^r · r^s mod p   gleich   v2 := g^m mod p ist.");
    t.line(s1, "Trifft (3) zu, gehört (r, s) zum öffentlichen Schlüssel (p, g, e) und zu m.");

    let s2 = t.step("1. Bereichsprüfung von r und s");
    let r_ok = r > 0 && r < p;
    let s_ok = s > 0 && s < p - 1;
    let mut l1 = text_int("0 < r < p: 0 < ", r);
    push_str(&mut l1, " < ");
    push_int(&mut l1, p);
    push_str(
        &mut l1,
        if r_ok {
            " → ok"
        } else {
            " → verletzt"
        },
    );
    t.line(s2, l1.as_str());
    let mut l2 = text_int("0 < s < p − 1: 0 < ", s);
    push_str(&mut l2, " < ");
    push_int(&mut l2, p - 1);
    push_str(
        &mut l2,
        if s_ok {
            " → ok"
        } else {
            " → verletzt"
        },
    );
    t.line(s2, l2.as_str());
    assert(t.step_lines(0) =~= signature_conditions());
    assert(t.step_lines(1) =~= bounds_lines(p as int, r as int, s as int));
    if !r_ok || !s_ok {
        t.result("Signatur gültig", bool_str(false));
        assert(t.step_titles() =~= seq![
            "Notwendige Schritte zur Verifikation"@,
            "1. Bereichsprüfung von r und s"@,
        ]);
        return Ok(t);
    }

    let s3 = t.step("2. v1 = e^r · r^s mod p");
    let er = match mod_pow(e, r, p) {
        Ok(v) => v,
        Err(err) => return Err(err),
    };
    let rs = match mod_pow(r, s, p) {
        Ok(v) => v,
        Err(err) => return Err(err),
    };
    proof {
        crate::math::lemma_product_fits(er as int, rs as int);
    }
    let v1 = rem_euclid(er * rs, p);
    let mut l3 = text_int("e^r mod p = ", e);
    push_str(&mut l3, "^");
    push_int(&mut l3, r);
    push_str(&mut l3, " mod ");
    push_int(&mut l3, p);
    push_str(&mut l3, " = ");
    push_int(&mut l3, er);
    t.line(s3, l3.as_str());
    let mut l4 = text_int("r^s mod p = ", r);
    push_str(&mut l4, "^");
    push_int(&mut l4, s);
    push_str(&mut l4, " mod ");
    push_int(&mut l4, p);
    push_str(&mut l4, " = ");
    push_int(&mut l4, rs);
    t.line(s3, l4.as_str());
    let mut l5 = text_int("v1 = e^r · r^s mod p = ", er);
    push_str(&mut l5, " · ");
    push_int(&mut l5, rs);
    push_str(&mut l5, " mod ");
    push_int(&mut l5, p);
    push_str(&mut l5, " = ");
    push_int(&mut l5, v1);
    t.line(s3, l5.as_str());

    let s4 = t.step("3. v2 = g^m mod p");
    let v2 = match mod_pow(g, m, p) {
        Ok(v) => v,
        Err(err) => return Err(err),
    };
    let mut l6 = text_int("v2 = g^m mod p = ", g);
    push_str(&mut l6, "^");
    push_int(&mut l6, m);
    push_str(&mut l6, " mod ");
    push_int(&mut l6, p);
    push_str(&mut l6, " = ");
    push_int(&mut l6, v2);
    t.line(s4, l6.as_str());

    let s5 = t.step("4. Vergleich v1 = v2");
    let valid = v1 == v2;
    let mut l7 = text_int("v1 = ", v1);
    push_str(&mut l7, ",  v2 = ");
    push_int(&mut l7, v2);
    t.line(s5, l7.as_str());
    if valid {
        t.line(s5, "v1 = v2 ✓ – Signatur ist gültig.");
    } else {
        t.line(s5, "v1 ≠ v2 – Signatur ist ungültig.");
    }

    t.result_int("v1 = e^r · r^s mod p", v1);
    t.result_int("v2 = g^m mod p", v2);
    t.result("Signatur gültig", bool_str(valid));
    proof {
        let lines = check_lines(p as int, g as int, e as int, m as int, r as int, s as int);
        assert(t.step_titles() =~= seq![
            "Notwendige Schritte zur Verifikation"@,
            "1. Bereichsprüfung von r und s"@,
            "2. v1 = e^r · r^s mod p"@,
            "3. v2 = g^m mod p"@,
            "4. Vergleich v1 = v2"@,
        ]);
        assert(t.step_lines(2) =~= lines[0]);
        assert(t.step_lines(3) =~= lines[1]);
        assert(t.step_lines(4) =~= lines[2]);
    }
    Ok(t)
}

} // verus!
